# lvmosaic

A lightweight editor that pixelates rectangular regions of a video, with
keyframed position, size and rotation, undo/redo, and export through FFmpeg.

The editing model is a library verified with Verus (`src/`):

- `model`: mosaic regions and their keyframe tracks (set, ensure, remove,
  interpolate, nearest keyframe), export settings and quality presets.
- `track`: the mathematical view of a keyframe track (stable ordering by
  frame, interpolation segments) and the laws proved about it.
- `undo`: the undo/redo history, the reversal of each edit, and its laws.
- `playback`: timeline position, play/pause and the decoder's request
  scheduling; preview scale.
- `mosaic`: the block grid of a region and the pixelation of RGB24 frames.
- `video`: output file naming and the choice of the first free output name
  from whether each candidate exists (the existence itself is asked of the
  file system and not verified), FFmpeg tool paths and messages, dropped-file
  kinds, fitting decoded frame data.
- `probe`: what the editor takes from ffprobe's report once its keys are
  read (stream choice, defaults, errors), and decimal numbers as
  `str::parse::<u64>` reads them. Parsing the JSON itself is done by
  `serde_json` in `app/`.
- `keyboard`: the editor's key table (undo/redo, moving and rotating the
  selected mosaic, deleting it, playback and timeline keys).
- `format`: decimal and zero-padded number formatting.
- `ui`: plain results exchanged with the user interface.

Keyframe geometry is stored as the bit patterns of `f32` values; the library
never computes with them. Blending geometry, the rotated-rectangle tests and
everything drawn on screen are floating point and live in `app/`, the egui
program that runs FFmpeg and the user interface around the library.
