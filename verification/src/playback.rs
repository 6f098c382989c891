use vstd::prelude::*;

verus! {

/// Resolution at which preview frames are decoded.
#[derive(Clone, Copy, Debug, PartialEq, Eq, Structural)]
pub enum PreviewScale {
    /// Quarter size above 1920 pixels of width, half above 960, else full.
    Auto,
    Full,
    Half,
    Quarter,
}

impl PreviewScale {
    /// Preview frames are decoded at `1 / divisor` of the video's size.
    pub open spec fn divisor_for(self, width: u32) -> u32 {
        match self {
            PreviewScale::Auto => if width > 1920 {
                4
            } else if width > 960 {
                2
            } else {
                1
            },
            PreviewScale::Full => 1,
            PreviewScale::Half => 2,
            PreviewScale::Quarter => 4,
        }
    }

    /// The scale, as the divisor of the video's width and height (its factor
    /// is `1 / divisor`).
    pub fn divisor(&self, width: u32, _height: u32) -> (r: u32)
        ensures
            r == self.divisor_for(width),
            r == 1 || r == 2 || r == 4,
    {
        match self {
            PreviewScale::Auto => {
                if width > 1920 {
                    4
                } else if width > 960 {
                    2
                } else {
                    1
                }
            },
            PreviewScale::Full => 1,
            PreviewScale::Half => 2,
            PreviewScale::Quarter => 4,
        }
    }
}

/// Where the editor stands in the video, and the state of the background
/// decoder that renders preview frames.
#[derive(Clone, Copy, Debug, PartialEq, Eq, Structural)]
pub struct Playback {
    /// The frame the timeline shows.
    pub current_frame: u64,
    pub playing: bool,
    /// The frame whose picture the preview shows.
    pub loaded_frame: Option<u64>,
    /// The frame the decoder has been asked for and not yet delivered.
    pub pending_decode_frame: Option<u64>,
}

/// `frame` held within the frames `0..total_frames` of a video.
pub open spec fn clamp_frame(frame: int, total_frames: u64) -> u64 {
    if frame < 0 {
        0
    } else if frame >= total_frames {
        (total_frames - 1) as u64
    } else {
        frame as u64
    }
}

/// The frame the preview needs next: while playing, the one after the shown
/// frame (none past the end), else the timeline's frame.
pub open spec fn decode_target(p: Playback, total_frames: u64) -> Option<u64> {
    if p.playing {
        match p.loaded_frame {
            Some(f) => if f + 1 >= total_frames {
                None
            } else {
                Some((f + 1) as u64)
            },
            None => Some(p.current_frame),
        }
    } else {
        Some(p.current_frame)
    }
}

/// One scheduling step of the decoder: the state after it and the frame to
/// request, if any. Playback stops at the end; a frame already shown or already
/// requested is not requested again.
pub open spec fn decode_step(p: Playback, total_frames: u64) -> (Playback, Option<u64>) {
    match decode_target(p, total_frames) {
        None => (Playback { playing: false, ..p }, None),
        Some(t) => if p.loaded_frame != Some(t) && p.pending_decode_frame != Some(t) {
            (Playback { pending_decode_frame: Some(t), ..p }, Some(t))
        } else {
            (p, None)
        },
    }
}

impl Playback {
    pub fn new() -> (r: Self)
        ensures
            r == (Playback {
                current_frame: 0,
                playing: false,
                loaded_frame: None,
                pending_decode_frame: None,
            }),
    {
        Playback { current_frame: 0, playing: false, loaded_frame: None, pending_decode_frame: None }
    }

    /// Moves to `frame`, or to the last frame if it lies beyond; nothing happens
    /// in a video without frames.
    pub fn seek_to(&mut self, frame: u64, total_frames: u64)
        ensures
            total_frames == 0 ==> *final(self) == *old(self),
            total_frames > 0 ==> *final(self) == (Playback {
                current_frame: clamp_frame(frame as int, total_frames),
                loaded_frame: None,
                ..*old(self)
            }),
    {
        if total_frames == 0 {
            return;
        }
        self.current_frame = if frame < total_frames - 1 {
            frame
        } else {
            total_frames - 1
        };
        self.loaded_frame = None;
    }

    /// Moves by `delta` frames, staying within the video; nothing happens in a
    /// video without frames.
    pub fn frame_step(&mut self, delta: i64, total_frames: u64)
        requires
            total_frames <= i64::MAX,
            old(self).current_frame <= i64::MAX,
            old(self).current_frame + delta <= i64::MAX,
        ensures
            total_frames == 0 ==> *final(self) == *old(self),
            total_frames > 0 ==> *final(self) == (Playback {
                current_frame: clamp_frame(old(self).current_frame + delta, total_frames),
                loaded_frame: None,
                ..*old(self)
            }),
    {
        if total_frames == 0 {
            return;
        }
        let moved: i64 = self.current_frame as i64 + delta;
        let last: i64 = total_frames as i64 - 1;
        let clamped: i64 = if moved < 0 {
            0
        } else if moved > last {
            last
        } else {
            moved
        };
        self.current_frame = clamped as u64;
        self.loaded_frame = None;
    }

    pub fn toggle_play(&mut self)
        ensures
            *final(self) == (Playback { playing: !old(self).playing, ..*old(self) }),
    {
        self.playing = !self.playing;
    }

    /// Takes a frame the decoder delivered: the preview shows it, nothing is
    /// pending, and while playing the timeline follows it.
    pub fn on_frame_decoded(&mut self, frame: u64)
        ensures
            final(self).loaded_frame == Some(frame),
            final(self).pending_decode_frame == None::<u64>,
            final(self).playing == old(self).playing,
            final(self).current_frame == if old(self).playing {
                frame
            } else {
                old(self).current_frame
            },
    {
        self.loaded_frame = Some(frame);
        self.pending_decode_frame = None;
        if self.playing {
            self.current_frame = frame;
        }
    }

    /// Decides which frame to ask the decoder for, records the request, and
    /// stops playback at the end of the video.
    pub fn next_decode_request(&mut self, total_frames: u64) -> (r: Option<u64>)
        requires
            old(self).playing ==> old(self).loaded_frame != Some(u64::MAX),
        ensures
            (*final(self), r) == decode_step(*old(self), total_frames),
            final(self).current_frame == old(self).current_frame,
            final(self).loaded_frame == old(self).loaded_frame,
            r matches Some(t) ==> final(self).pending_decode_frame == Some(t) && old(self).loaded_frame != Some(t)
                && old(self).pending_decode_frame != Some(t),
            r is None ==> final(self).pending_decode_frame == old(self).pending_decode_frame,
            !old(self).playing || old(self).loaded_frame is None ==> {
                &&& final(self).playing == old(self).playing
                &&& r is Some <==> old(self).loaded_frame != Some(old(self).current_frame)
                    && old(self).pending_decode_frame != Some(old(self).current_frame)
                &&& r is Some ==> r == Some(old(self).current_frame)
            },
            old(self).loaded_frame matches Some(l) && old(self).playing && l + 1 >= total_frames ==> r is None
                && !final(self).playing,
            old(self).loaded_frame matches Some(l) ==> (old(self).playing && l + 1 < total_frames ==> {
                &&& final(self).playing
                &&& r is Some <==> old(self).pending_decode_frame != Some((l + 1) as u64)
                &&& r is Some ==> r == Some((l + 1) as u64)
            }),
    {
        proof {
            lemma_decode_request(*old(self), total_frames);
        }
        let target = if self.playing {
            match self.loaded_frame {
                Some(f) => {
                    let next = f + 1;
                    if next >= total_frames {
                        self.playing = false;
                        return None;
                    }
                    next
                },
                None => self.current_frame,
            }
        } else {
            self.current_frame
        };
        if self.loaded_frame != Some(target) && self.pending_decode_frame != Some(target) {
            self.pending_decode_frame = Some(target);
            Some(target)
        } else {
            None
        }
    }
}

/// What one scheduling step asks the decoder for: while paused, or while
/// playing with nothing shown yet, the timeline's current frame; while playing,
/// the frame after the one shown, and at the end of the video nothing, with
/// playback stopped. A frame already shown or already asked for is not asked
/// for again; the timeline position and the shown frame are left as they are,
/// and a request is remembered as pending.
pub proof fn lemma_decode_request(p: Playback, total_frames: u64)
    ensures
        decode_step(p, total_frames).0.current_frame == p.current_frame,
        decode_step(p, total_frames).0.loaded_frame == p.loaded_frame,
        decode_step(p, total_frames).1 matches Some(t) ==> decode_step(p, total_frames).0.pending_decode_frame == Some(t) && p.loaded_frame != Some(t)
            && p.pending_decode_frame != Some(t),
        decode_step(p, total_frames).1 is None ==> decode_step(p, total_frames).0.pending_decode_frame == p.pending_decode_frame,
        !p.playing || p.loaded_frame is None ==> {
            &&& decode_step(p, total_frames).0.playing == p.playing
            &&& decode_step(p, total_frames).1 is Some <==> p.loaded_frame != Some(p.current_frame)
                && p.pending_decode_frame != Some(p.current_frame)
            &&& decode_step(p, total_frames).1 is Some ==> decode_step(p, total_frames).1 == Some(p.current_frame)
        },
        p.loaded_frame matches Some(l) && p.playing && l + 1 >= total_frames ==> decode_step(p, total_frames).1 is None
            && !decode_step(p, total_frames).0.playing,
        p.loaded_frame matches Some(l) ==> (p.playing && l + 1 < total_frames ==> {
            &&& decode_step(p, total_frames).0.playing
            &&& decode_step(p, total_frames).1 is Some <==> p.pending_decode_frame != Some((l + 1) as u64)
            &&& decode_step(p, total_frames).1 is Some ==> decode_step(p, total_frames).1 == Some((l + 1) as u64)
        }),
{
}

/// After a seek or a step in a video with frames, the timeline stands on one
/// of its frames.
pub proof fn lemma_position_in_video(frame: int, total_frames: u64)
    requires
        total_frames > 0,
    ensures
        clamp_frame(frame, total_frames) < total_frames,
{
}

/// A request is made once: right after the decoder was asked for a frame, the
/// next step asks for nothing until that frame arrives.
pub proof fn lemma_request_once(p: Playback, total_frames: u64)
    requires
        decode_step(p, total_frames).1 is Some,
    ensures
        decode_step(decode_step(p, total_frames).0, total_frames).1 is None,
        decode_step(decode_step(p, total_frames).0, total_frames).0 == decode_step(p, total_frames).0,
{
}

/// Playback stops once the last frame is shown, and asks for nothing more.
pub proof fn lemma_playback_stops_at_end(p: Playback, total_frames: u64)
    requires
        p.playing,
        p.loaded_frame == Some((total_frames - 1) as u64),
        total_frames > 0,
    ensures
        !decode_step(p, total_frames).0.playing,
        decode_step(p, total_frames).1 is None,
{
}

} // verus!
