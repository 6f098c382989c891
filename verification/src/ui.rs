use vstd::prelude::*;

verus! {

/// The handles by which a selected mosaic rectangle is resized.
#[derive(Clone, Copy, Debug, PartialEq, Eq, Structural)]
pub enum ResizeHandle {
    TopLeft,
    TopRight,
    BottomLeft,
    BottomRight,
    Top,
    Bottom,
    Left,
    Right,
}

/// What the user asked for in the properties panel during one frame.
#[derive(Clone, Copy, Debug, PartialEq, Eq, Structural)]
pub struct PropertiesResult {
    pub delete_mosaic: bool,
    pub add_keyframe: bool,
    pub delete_keyframe: bool,
    pub export_requested: bool,
    pub save_requested: bool,
    pub mosaic_changed: bool,
}

impl PropertiesResult {
    /// Nothing requested.
    pub fn none() -> (r: Self)
        ensures
            r == (PropertiesResult {
                delete_mosaic: false,
                add_keyframe: false,
                delete_keyframe: false,
                export_requested: false,
                save_requested: false,
                mosaic_changed: false,
            }),
    {
        PropertiesResult {
            delete_mosaic: false,
            add_keyframe: false,
            delete_keyframe: false,
            export_requested: false,
            save_requested: false,
            mosaic_changed: false,
        }
    }
}

/// What the user did on the timeline during one frame: a frame to seek to,
/// and the mosaic selected afterwards.
#[derive(Debug)]
pub struct TimelineResult {
    pub seek_to: Option<u64>,
    pub selected_id: Option<String>,
}

} // verus!
