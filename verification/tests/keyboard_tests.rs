use lvmosaic::keyboard::{key_command, KeyCommand, KeysPressed, Navigation, SelectionEdit};

fn none() -> KeysPressed {
    KeysPressed {
        z: false,
        y: false,
        q: false,
        e: false,
        r: false,
        up: false,
        down: false,
        left: false,
        right: false,
        delete: false,
        space: false,
        home: false,
        end: false,
    }
}

fn edit_of(c: KeyCommand) -> Option<SelectionEdit> {
    match c {
        KeyCommand::Act { edit, .. } => edit,
        _ => panic!("not an action: {:?}", c),
    }
}

fn nav_of(c: KeyCommand) -> Option<Navigation> {
    match c {
        KeyCommand::Act { navigate, .. } => navigate,
        _ => panic!("not an action: {:?}", c),
    }
}

#[test]
fn ctrl_z_undoes_and_ctrl_y_redoes() {
    let z = KeysPressed { z: true, ..none() };
    let y = KeysPressed { y: true, ..none() };
    assert_eq!(key_command(z, false, true, false, false), KeyCommand::Undo);
    assert_eq!(key_command(y, false, true, true, true), KeyCommand::Redo);
    // Z without the command modifier is no undo.
    assert!(matches!(key_command(z, false, false, false, false), KeyCommand::Act { .. }));
}

#[test]
fn rotation_and_move_steps_follow_shift() {
    let keys = KeysPressed { q: true, up: true, ..none() };
    let plain = edit_of(key_command(keys, false, false, true, true)).unwrap();
    assert_eq!(plain.rotate_step, 1);
    assert_eq!(plain.move_step, 1);
    assert!(plain.rotate_back && plain.up);
    assert!(!plain.rotate_forward && !plain.down && !plain.delete);
    assert!(plain.changes_shape());
    let shifted = edit_of(key_command(keys, true, false, true, true)).unwrap();
    assert_eq!(shifted.rotate_step, 5);
    assert_eq!(shifted.move_step, 10);
}

#[test]
fn delete_removes_and_skips_space() {
    let keys = KeysPressed { delete: true, space: true, ..none() };
    match key_command(keys, false, false, true, true) {
        KeyCommand::Act { edit, toggle_play, navigate } => {
            let edit = edit.unwrap();
            assert!(edit.delete);
            assert!(!edit.changes_shape());
            assert!(!toggle_play);
            assert_eq!(navigate, None);
        }
        c => panic!("unexpected {:?}", c),
    }
}

#[test]
fn space_toggles_playback() {
    let keys = KeysPressed { space: true, ..none() };
    match key_command(keys, false, false, false, false) {
        KeyCommand::Act { edit, toggle_play, .. } => {
            assert_eq!(edit, None);
            assert!(toggle_play);
        }
        c => panic!("unexpected {:?}", c),
    }
}

#[test]
fn arrows_navigate_only_without_selection() {
    let keys = KeysPressed { left: true, right: true, home: true, ..none() };
    let nav = nav_of(key_command(keys, false, false, false, false)).unwrap();
    assert_eq!(nav.left_step, Some(-1));
    assert_eq!(nav.right_step, Some(1));
    assert!(nav.to_start && !nav.to_end);
    let nav = nav_of(key_command(keys, true, false, false, false)).unwrap();
    assert_eq!(nav.left_step, Some(-10));
    assert_eq!(nav.right_step, Some(10));
    // With a selection the arrows move the mosaic instead.
    assert_eq!(nav_of(key_command(keys, false, false, true, true)), None);
    // A selection that names no mosaic neither edits nor navigates.
    let c = key_command(keys, false, false, true, false);
    assert_eq!(edit_of(c), None);
    assert_eq!(nav_of(c), None);
}
