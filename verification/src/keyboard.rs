use vstd::prelude::*;

verus! {

/// The keys the editor reacts to, as pressed during one frame.
#[derive(Clone, Copy, Debug, PartialEq, Eq, Structural)]
pub struct KeysPressed {
    pub z: bool,
    pub y: bool,
    pub q: bool,
    pub e: bool,
    pub r: bool,
    pub up: bool,
    pub down: bool,
    pub left: bool,
    pub right: bool,
    pub delete: bool,
    pub space: bool,
    pub home: bool,
    pub end: bool,
}

/// What the keys do to the selected mosaic's keyframe at the current frame,
/// applied in this order: rotate back by `rotate_step` degrees, rotate forward
/// by it, reset the rotation, move up, down, left, right by `move_step`
/// pixels; then remove the mosaic if `delete`.
#[derive(Clone, Copy, Debug, PartialEq, Eq, Structural)]
pub struct SelectionEdit {
    pub rotate_step: u32,
    pub rotate_back: bool,
    pub rotate_forward: bool,
    pub reset_rotation: bool,
    pub move_step: u32,
    pub up: bool,
    pub down: bool,
    pub left: bool,
    pub right: bool,
    pub delete: bool,
}

/// Moves along the timeline while nothing is selected, applied in this order:
/// step by `left_step`, step by `right_step`, go to the first frame, go to the
/// last frame.
#[derive(Clone, Copy, Debug, PartialEq, Eq, Structural)]
pub struct Navigation {
    pub left_step: Option<i64>,
    pub right_step: Option<i64>,
    pub to_start: bool,
    pub to_end: bool,
}

/// What the editor does with the keys of one frame.
#[derive(Clone, Copy, Debug, PartialEq, Eq, Structural)]
pub enum KeyCommand {
    Undo,
    Redo,
    Act { edit: Option<SelectionEdit>, toggle_play: bool, navigate: Option<Navigation> },
}

/// The editor's key table: with the command modifier alone, Z undoes and Y
/// (or Shift+Z) redoes. Otherwise, when a mosaic is selected and found, Q/E
/// rotate it by 1° (5° with Shift), R resets its rotation, the arrows move it
/// by 1 pixel (10 with Shift) and Delete removes it; Space toggles playback
/// unless the mosaic is removed; with nothing selected, ←/→ step 1 frame (10
/// with Shift), Home and End go to the first and last frame.
pub open spec fn key_command_of(
    keys: KeysPressed,
    shift: bool,
    command_only: bool,
    selected: bool,
    selected_found: bool,
) -> KeyCommand {
    if command_only && keys.z {
        KeyCommand::Undo
    } else if command_only && (keys.y || (shift && keys.z)) {
        KeyCommand::Redo
    } else {
        let edit = if selected && selected_found {
            Some(
                SelectionEdit {
                    rotate_step: if shift {
                        5
                    } else {
                        1
                    },
                    rotate_back: keys.q,
                    rotate_forward: keys.e,
                    reset_rotation: keys.r,
                    move_step: if shift {
                        10
                    } else {
                        1
                    },
                    up: keys.up,
                    down: keys.down,
                    left: keys.left,
                    right: keys.right,
                    delete: keys.delete,
                },
            )
        } else {
            None
        };
        let deleting = selected && selected_found && keys.delete;
        let step: i64 = if shift {
            10
        } else {
            1
        };
        KeyCommand::Act {
            edit,
            toggle_play: keys.space && !deleting,
            navigate: if selected {
                None
            } else {
                Some(
                    Navigation {
                        left_step: if keys.left {
                            Some((-step) as i64)
                        } else {
                            None
                        },
                        right_step: if keys.right {
                            Some(step)
                        } else {
                            None
                        },
                        to_start: keys.home,
                        to_end: keys.end,
                    },
                )
            },
        }
    }
}

/// The key table, key by key: the command modifier with Z undoes, with Y
/// redoes; otherwise each key of a selected, found mosaic sets the edit flag
/// of the same direction or action (Left moves left, Right right, Up up, Down
/// down, Q rotates back, E forward, R resets, Delete removes) with steps of 1
/// (10 pixels, 5 degrees with Shift); Space toggles playback unless the mosaic
/// is removed; without a selection Left steps back and Right forward by 1 (10
/// with Shift) frame, Home and End jump to the ends.
pub proof fn lemma_key_table(
    keys: KeysPressed,
    shift: bool,
    command_only: bool,
    selected: bool,
    selected_found: bool,
)
    ensures
        command_only && keys.z ==> key_command_of(keys, shift, command_only, selected, selected_found) == KeyCommand::Undo,
        command_only && !keys.z && keys.y ==> key_command_of(keys, shift, command_only, selected, selected_found) == KeyCommand::Redo,
        !(command_only && (keys.z || keys.y)) ==> key_command_of(keys, shift, command_only, selected, selected_found) is Act,
        key_command_of(keys, shift, command_only, selected, selected_found) matches KeyCommand::Act { edit, toggle_play, navigate } ==> {
            &&& edit is Some <==> selected && selected_found
            &&& edit matches Some(e) ==> {
                &&& e.left == keys.left && e.right == keys.right
                &&& e.up == keys.up && e.down == keys.down
                &&& e.rotate_back == keys.q && e.rotate_forward == keys.e
                &&& e.reset_rotation == keys.r && e.delete == keys.delete
                &&& e.move_step == (if shift { 10u32 } else { 1u32 })
                &&& e.rotate_step == (if shift { 5u32 } else { 1u32 })
            }
            &&& toggle_play == (keys.space && !(selected && selected_found && keys.delete))
            &&& navigate is Some <==> !selected
            &&& navigate matches Some(n) ==> {
                &&& n.left_step == (if keys.left {
                    Some(if shift { -10i64 } else { -1i64 })
                } else {
                    None
                })
                &&& n.right_step == (if keys.right {
                    Some(if shift { 10i64 } else { 1i64 })
                } else {
                    None
                })
                &&& n.to_start == keys.home && n.to_end == keys.end
            }
        },
{
}

/// Decides what the keys of one frame do. `selected` tells whether a mosaic is
/// selected, `selected_found` whether the selection names a mosaic of the project.
pub fn key_command(
    keys: KeysPressed,
    shift: bool,
    command_only: bool,
    selected: bool,
    selected_found: bool,
) -> (c: KeyCommand)
    ensures
        c == key_command_of(keys, shift, command_only, selected, selected_found),
        command_only && keys.z ==> c == KeyCommand::Undo,
        command_only && !keys.z && keys.y ==> c == KeyCommand::Redo,
        !(command_only && (keys.z || keys.y)) ==> c is Act,
        c matches KeyCommand::Act { edit, toggle_play, navigate } ==> {
            &&& edit is Some <==> selected && selected_found
            &&& edit matches Some(e) ==> {
                &&& e.left == keys.left && e.right == keys.right
                &&& e.up == keys.up && e.down == keys.down
                &&& e.rotate_back == keys.q && e.rotate_forward == keys.e
                &&& e.reset_rotation == keys.r && e.delete == keys.delete
                &&& e.move_step == (if shift { 10u32 } else { 1u32 })
                &&& e.rotate_step == (if shift { 5u32 } else { 1u32 })
            }
            &&& toggle_play == (keys.space && !(selected && selected_found && keys.delete))
            &&& navigate is Some <==> !selected
            &&& navigate matches Some(n) ==> {
                &&& n.left_step == (if keys.left {
                    Some(if shift { -10i64 } else { -1i64 })
                } else {
                    None
                })
                &&& n.right_step == (if keys.right {
                    Some(if shift { 10i64 } else { 1i64 })
                } else {
                    None
                })
                &&& n.to_start == keys.home && n.to_end == keys.end
            }
        },
{
    proof {
        lemma_key_table(keys, shift, command_only, selected, selected_found);
    }
    if command_only {
        if keys.z {
            return KeyCommand::Undo;
        }
        if keys.y || (shift && keys.z) {
            return KeyCommand::Redo;
        }
    }
    let edit = if selected && selected_found {
        Some(
            SelectionEdit {
                rotate_step: if shift {
                    5
                } else {
                    1
                },
                rotate_back: keys.q,
                rotate_forward: keys.e,
                reset_rotation: keys.r,
                move_step: if shift {
                    10
                } else {
                    1
                },
                up: keys.up,
                down: keys.down,
                left: keys.left,
                right: keys.right,
                delete: keys.delete,
            },
        )
    } else {
        None
    };
    let deleting = selected && selected_found && keys.delete;
    let step: i64 = if shift {
        10
    } else {
        1
    };
    let navigate = if selected {
        None
    } else {
        Some(
            Navigation {
                left_step: if keys.left {
                    Some(-step)
                } else {
                    None
                },
                right_step: if keys.right {
                    Some(step)
                } else {
                    None
                },
                to_start: keys.home,
                to_end: keys.end,
            },
        )
    };
    KeyCommand::Act { edit, toggle_play: keys.space && !deleting, navigate }
}

impl SelectionEdit {
    /// Some key of the edit changes the keyframe's geometry.
    pub open spec fn changes_shape_spec(self) -> bool {
        self.rotate_back || self.rotate_forward || self.reset_rotation || self.up || self.down
            || self.left || self.right
    }

    pub fn changes_shape(&self) -> (r: bool)
        ensures
            r == self.changes_shape_spec(),
    {
        self.rotate_back || self.rotate_forward || self.reset_rotation || self.up || self.down
            || self.left || self.right
    }
}

} // verus!
