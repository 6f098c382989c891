//! Editing model of a video mosaic tool: mosaic regions with keyframes,
//! an undo/redo history, export settings and the plain decisions of the
//! editor (playback position, output naming, frame buffers).

pub mod format;
pub mod keyboard;
pub mod model;
pub mod mosaic;
pub mod playback;
pub mod probe;
pub mod track;
pub mod ui;
pub mod undo;
pub mod video;
