use lvmosaic::model::{ExportQuality, ExportSettings, InterpValues, MosaicKeyframe, MosaicRegion};
use lvmosaic::undo::{remove_mosaic, EditAction, UndoStack, MAX_HISTORY};

fn make_region(id: &str) -> MosaicRegion {
    let zero = 0.0f32.to_bits();
    let ten = 10.0f32.to_bits();
    MosaicRegion::new(
        id.to_string(),
        "N".to_string(),
        0,
        100,
        MosaicKeyframe {
            frame: 0,
            values: InterpValues {
                center_x_bits: zero,
                center_y_bits: zero,
                width_bits: ten,
                height_bits: ten,
                rotation_deg_bits: zero,
            },
        },
    )
}

fn ids(ms: &[MosaicRegion]) -> Vec<String> {
    ms.iter().map(|m| m.id.clone()).collect()
}

#[test]
fn test_undo_redo_add() {
    let mut stack = UndoStack::new();
    let mut mosaics = vec![];
    let mut export = ExportSettings::default();

    mosaics.push(make_region("m1"));
    stack.push(EditAction::AddMosaic(make_region("m1")));

    assert!(stack.can_undo());
    assert!(!stack.can_redo());

    stack.undo(&mut mosaics, &mut export);
    assert_eq!(mosaics.len(), 0);
    assert!(stack.can_redo());

    stack.redo(&mut mosaics, &mut export);
    assert_eq!(mosaics.len(), 1);
}

#[test]
fn test_undo_remove() {
    let mut stack = UndoStack::new();
    let mut mosaics = vec![make_region("m1"), make_region("m2")];
    let mut export = ExportSettings::default();

    let removed = mosaics.remove(0);
    stack.push(EditAction::RemoveMosaic { index: 0, region: removed });
    assert_eq!(mosaics.len(), 1);

    stack.undo(&mut mosaics, &mut export);
    assert_eq!(mosaics.len(), 2);
    assert_eq!(mosaics[0].id, "m1");
}

#[test]
fn test_push_clears_redo() {
    let mut stack = UndoStack::new();
    let mut mosaics = vec![make_region("m1")];
    let mut export = ExportSettings::default();

    stack.push(EditAction::AddMosaic(make_region("m1")));
    stack.undo(&mut mosaics, &mut export);
    assert!(stack.can_redo());

    mosaics.push(make_region("m2"));
    stack.push(EditAction::AddMosaic(make_region("m2")));
    assert!(!stack.can_redo(), "redo stack should be cleared after new push");
}

#[test]
fn test_empty_stack() {
    let mut stack = UndoStack::new();
    let mut mosaics = vec![];
    let mut export = ExportSettings::default();
    assert!(!stack.can_undo());
    assert!(!stack.can_redo());
    assert!(!stack.undo(&mut mosaics, &mut export));
    assert!(!stack.redo(&mut mosaics, &mut export));
}

#[test]
fn undo_then_redo_update_and_export() {
    let mut stack = UndoStack::new();
    let mut mosaics = vec![make_region("a"), make_region("b")];
    let mut export = ExportSettings::default();

    let before = mosaics[1].clone();
    mosaics[1].name = "renamed".to_string();
    mosaics[1].start_frame = 7;
    stack.push(EditAction::UpdateMosaic { index: 1, before, after: mosaics[1].clone() });

    let old_export = export;
    export = ExportSettings { trim_start_frames: 3, trim_end_frames: 4, quality: ExportQuality::Fast };
    stack.push(EditAction::UpdateExport { before: old_export, after: export });

    assert!(stack.undo(&mut mosaics, &mut export));
    assert_eq!(export, ExportSettings::default());
    assert!(stack.undo(&mut mosaics, &mut export));
    assert_eq!(mosaics[1].name, "N");
    assert_eq!(mosaics[1].start_frame, 0);
    assert!(!stack.can_undo());

    assert!(stack.redo(&mut mosaics, &mut export));
    assert_eq!(mosaics[1].name, "renamed");
    assert_eq!(mosaics[1].start_frame, 7);
    assert!(stack.redo(&mut mosaics, &mut export));
    assert_eq!(export.trim_end_frames, 4);
    assert!(!stack.can_redo());
}

#[test]
fn undo_add_of_missing_region_changes_nothing() {
    let mut stack = UndoStack::new();
    let mut mosaics = vec![make_region("x")];
    let mut export = ExportSettings::default();
    stack.push(EditAction::AddMosaic(make_region("gone")));
    assert!(stack.undo(&mut mosaics, &mut export));
    assert_eq!(ids(&mosaics), vec!["x".to_string()]);
    assert!(stack.redo(&mut mosaics, &mut export));
    assert_eq!(ids(&mosaics), vec!["x".to_string()]);
}

#[test]
fn undo_remove_past_end_appends() {
    let mut stack = UndoStack::new();
    let mut mosaics = vec![make_region("a")];
    let mut export = ExportSettings::default();
    stack.push(EditAction::RemoveMosaic { index: 5, region: make_region("z") });
    assert!(stack.undo(&mut mosaics, &mut export));
    assert_eq!(ids(&mosaics), vec!["a".to_string(), "z".to_string()]);
    assert!(stack.redo(&mut mosaics, &mut export));
    assert_eq!(ids(&mosaics), vec!["a".to_string()]);
}

#[test]
fn undo_update_out_of_range_changes_nothing() {
    let mut stack = UndoStack::new();
    let mut mosaics = vec![make_region("a")];
    let mut export = ExportSettings::default();
    stack.push(EditAction::UpdateMosaic { index: 3, before: make_region("p"), after: make_region("q") });
    assert!(stack.undo(&mut mosaics, &mut export));
    assert_eq!(ids(&mosaics), vec!["a".to_string()]);
    assert!(stack.can_redo());
}

#[test]
fn history_keeps_the_latest_hundred() {
    let mut stack = UndoStack::new();
    let mut mosaics: Vec<MosaicRegion> = vec![];
    let mut export = ExportSettings::default();
    for i in 0..(MAX_HISTORY + 5) {
        let r = make_region(&format!("m{}", i));
        mosaics.push(r.clone());
        stack.push(EditAction::AddMosaic(r));
    }
    let mut undone = 0;
    while stack.undo(&mut mosaics, &mut export) {
        undone += 1;
    }
    assert_eq!(undone, MAX_HISTORY);
    assert_eq!(mosaics.len(), 5);
    assert_eq!(ids(&mosaics), vec!["m0", "m1", "m2", "m3", "m4"]);
}

#[test]
fn removing_a_mosaic_records_it() {
    let mut ms = vec![make_region("a"), make_region("b"), make_region("c")];
    let record = remove_mosaic(&mut ms, 1);
    assert_eq!(ids(&ms), vec!["a", "c"]);
    match &record {
        EditAction::RemoveMosaic { index, region } => {
            assert_eq!(*index, 1);
            assert_eq!(region.id, "b");
        }
        _ => panic!("not a removal"),
    }
    // Undoing the recorded removal puts the mosaic back where it was.
    let mut stack = UndoStack::new();
    let mut export = ExportSettings::default();
    stack.push(record);
    assert!(stack.undo(&mut ms, &mut export));
    assert_eq!(ids(&ms), vec!["a", "b", "c"]);
}
