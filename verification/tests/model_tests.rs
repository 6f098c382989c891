use lvmosaic::model::{
    next_mosaic_counter, mosaic_id, mosaic_name, ExportQuality, ExportSettings, InterpValues, Interpolation,
    MosaicKeyframe, MosaicRegion,
};

fn vals(cx: f32, cy: f32) -> InterpValues {
    InterpValues {
        center_x_bits: cx.to_bits(),
        center_y_bits: cy.to_bits(),
        width_bits: 10.0f32.to_bits(),
        height_bits: 10.0f32.to_bits(),
        rotation_deg_bits: 0.0f32.to_bits(),
    }
}

fn kf(frame: u64, cx: f32, cy: f32) -> MosaicKeyframe {
    MosaicKeyframe { frame, values: vals(cx, cy) }
}

fn region(kfs: &[(u64, f32, f32)]) -> MosaicRegion {
    let first = kfs[0];
    let mut r = MosaicRegion::new("t".to_string(), "T".to_string(), 0, 1000, kf(first.0, first.1, first.2));
    for &(f, cx, cy) in kfs.iter().skip(1) {
        r.set_keyframe(kf(f, cx, cy));
    }
    r
}

fn blend(a: u32, b: u32, num: u64, den: u64) -> f32 {
    let a = f32::from_bits(a);
    let b = f32::from_bits(b);
    let t = num as f32 / den as f32;
    a + (b - a) * t
}

/// The centre that an interpolation gives, computed as the editor does.
fn center(i: Interpolation) -> (f32, f32) {
    match i {
        Interpolation::Hold(v) => (f32::from_bits(v.center_x_bits), f32::from_bits(v.center_y_bits)),
        Interpolation::Blend { prev, next, num, den } => (
            blend(prev.center_x_bits, next.center_x_bits, num, den),
            blend(prev.center_y_bits, next.center_y_bits, num, den),
        ),
    }
}

fn resolved(i: Interpolation) -> InterpValues {
    match i {
        Interpolation::Hold(v) => v,
        Interpolation::Blend { .. } => {
            let (cx, cy) = center(i);
            vals(cx, cy)
        }
    }
}

#[test]
fn test_interpolate_linear_midpoint() {
    let r = region(&[(0, 0.0, 0.0), (100, 100.0, 200.0)]);
    let v = center(r.interpolate(50).unwrap());
    assert!((v.0 - 50.0).abs() < 1e-4, "cx={}", v.0);
    assert!((v.1 - 100.0).abs() < 1e-4, "cy={}", v.1);
}

#[test]
fn test_interpolate_clamp_before_first() {
    let r = region(&[(10, 42.0, 0.0)]);
    let v = center(r.interpolate(0).unwrap());
    assert!((v.0 - 42.0).abs() < 1e-4);
}

#[test]
fn test_interpolate_clamp_after_last() {
    let r = region(&[(10, 0.0, 0.0), (20, 100.0, 0.0)]);
    let v = center(r.interpolate(50).unwrap());
    assert!((v.0 - 100.0).abs() < 1e-4);
}

#[test]
fn test_is_active_at_boundaries() {
    let r = MosaicRegion::new("id".to_string(), "n".to_string(), 10, 50, kf(10, 0.0, 0.0));
    assert!(!r.is_active_at(9));
    assert!(r.is_active_at(10));
    assert!(r.is_active_at(50));
    assert!(!r.is_active_at(51));
}

#[test]
fn test_ensure_keyframe_creates_interpolated() {
    let mut r = region(&[(0, 0.0, 0.0), (100, 100.0, 0.0)]);
    let v = resolved(r.interpolate(50).unwrap());
    r.ensure_keyframe_at(50, v);
    let k = r.keyframes.iter().find(|k| k.frame == 50).expect("kf not created");
    assert!((f32::from_bits(k.values.center_x_bits) - 50.0).abs() < 1e-4);
}

#[test]
fn test_ensure_keyframe_no_duplicate() {
    let mut r = region(&[(50, 99.0, 0.0)]);
    let v = resolved(r.interpolate(50).unwrap());
    r.ensure_keyframe_at(50, v);
    assert_eq!(r.keyframes.len(), 1);
    assert!((f32::from_bits(r.keyframes[0].values.center_x_bits) - 99.0).abs() < 1e-4);
}

#[test]
fn interpolate_exact_weights() {
    let r = region(&[(0, 0.0, 0.0), (100, 100.0, 0.0), (300, 0.0, 0.0)]);
    assert_eq!(r.interpolate(0), Some(Interpolation::Hold(vals(0.0, 0.0))));
    assert_eq!(
        r.interpolate(40),
        Some(Interpolation::Blend { prev: vals(0.0, 0.0), next: vals(100.0, 0.0), num: 40, den: 100 })
    );
    // at a middle keyframe the first segment holding it ends there, at full weight
    assert_eq!(
        r.interpolate(100),
        Some(Interpolation::Blend { prev: vals(0.0, 0.0), next: vals(100.0, 0.0), num: 100, den: 100 })
    );
    assert_eq!(
        r.interpolate(250),
        Some(Interpolation::Blend { prev: vals(100.0, 0.0), next: vals(0.0, 0.0), num: 150, den: 200 })
    );
    assert_eq!(r.interpolate(300), Some(Interpolation::Hold(vals(0.0, 0.0))));
}

#[test]
fn interpolate_without_keyframes_is_none() {
    let mut r = region(&[(5, 1.0, 1.0)]);
    r.remove_keyframe_at(5);
    assert!(r.keyframes.is_empty());
    assert_eq!(r.interpolate(5), None);
    // nothing is created on an empty track
    r.ensure_keyframe_at(5, vals(1.0, 1.0));
    assert!(r.keyframes.is_empty());
}

#[test]
fn set_keyframe_replaces_or_inserts_in_order() {
    let mut r = region(&[(30, 3.0, 0.0), (10, 1.0, 0.0), (20, 2.0, 0.0)]);
    let frames: Vec<u64> = r.keyframes.iter().map(|k| k.frame).collect();
    assert_eq!(frames, vec![10, 20, 30]);
    r.set_keyframe(kf(20, 9.0, 0.0));
    assert_eq!(r.keyframes.len(), 3);
    assert_eq!(r.keyframes[1], kf(20, 9.0, 0.0));
}

#[test]
fn set_keyframe_sorts_stably() {
    // a track read from a file may be out of order and hold a frame twice
    let mut r = region(&[(7, 0.0, 0.0)]);
    r.keyframes = vec![kf(30, 1.0, 0.0), kf(10, 2.0, 0.0), kf(30, 3.0, 0.0), kf(10, 4.0, 0.0)];
    r.set_keyframe(kf(20, 5.0, 0.0));
    assert_eq!(
        r.keyframes,
        vec![kf(10, 2.0, 0.0), kf(10, 4.0, 0.0), kf(20, 5.0, 0.0), kf(30, 1.0, 0.0), kf(30, 3.0, 0.0)]
    );
    // only the first keyframe at a frame is replaced
    r.set_keyframe(kf(30, 6.0, 0.0));
    assert_eq!(r.keyframes[3], kf(30, 6.0, 0.0));
    assert_eq!(r.keyframes[4], kf(30, 3.0, 0.0));
}

#[test]
fn remove_keyframe_keeps_others() {
    let mut r = region(&[(0, 0.0, 0.0), (10, 1.0, 0.0), (20, 2.0, 0.0)]);
    r.remove_keyframe_at(10);
    assert_eq!(r.keyframes, vec![kf(0, 0.0, 0.0), kf(20, 2.0, 0.0)]);
    r.remove_keyframe_at(15);
    assert_eq!(r.keyframes.len(), 2);
}

#[test]
fn nearest_keyframe_prefers_first_of_equals() {
    let r = region(&[(0, 0.0, 0.0), (10, 1.0, 0.0), (20, 2.0, 0.0)]);
    assert_eq!(r.nearest_keyframe(4), Some(0));
    assert_eq!(r.nearest_keyframe(5), Some(0));
    assert_eq!(r.nearest_keyframe(6), Some(1));
    assert_eq!(r.nearest_keyframe(100), Some(2));
    let mut empty = region(&[(0, 0.0, 0.0)]);
    empty.remove_keyframe_at(0);
    assert_eq!(empty.nearest_keyframe(3), None);
}

#[test]
fn new_region_defaults() {
    let r = MosaicRegion::new("a".to_string(), "b".to_string(), 3, 9, kf(3, 0.0, 0.0));
    assert_eq!(r.mosaic_size, 16);
    assert_eq!(r.keyframes.len(), 1);
    let n = MosaicRegion::new_numbered(7, 12, 300, vals(1.0, 2.0));
    assert_eq!(n.id, "mosaic_0007");
    assert_eq!(n.name, "Mosaic 7");
    assert_eq!(n.start_frame, 12);
    assert_eq!(n.end_frame, 299);
    assert_eq!(n.keyframes, vec![MosaicKeyframe { frame: 12, values: vals(1.0, 2.0) }]);
    let e = MosaicRegion::new_numbered(1, 0, 0, vals(1.0, 2.0));
    assert_eq!(e.end_frame, 0);
}

#[test]
fn mosaic_ids_and_names() {
    assert_eq!(mosaic_id(0), "mosaic_0000");
    assert_eq!(mosaic_id(42), "mosaic_0042");
    assert_eq!(mosaic_id(12345), "mosaic_12345");
    assert_eq!(mosaic_name(3), "Mosaic 3");
    assert_eq!(mosaic_name(4294967295), "Mosaic 4294967295");
}

#[test]
fn export_quality_parameters() {
    assert_eq!(ExportQuality::Fast.label(), "高速");
    assert_eq!(ExportQuality::Standard.label(), "標準");
    assert_eq!(ExportQuality::High.label(), "高品質");
    assert_eq!(ExportQuality::Fast.crf(), 24);
    assert_eq!(ExportQuality::Standard.crf(), 22);
    assert_eq!(ExportQuality::High.crf(), 18);
    assert_eq!(ExportQuality::Fast.preset(), "veryfast");
    assert_eq!(ExportQuality::Standard.preset(), "medium");
    assert_eq!(ExportQuality::High.preset(), "slow");
}

#[test]
fn export_settings_default_and_range() {
    let d = ExportSettings::default();
    assert_eq!(d.trim_start_frames, 0);
    assert_eq!(d.trim_end_frames, 0);
    assert_eq!(d.quality, ExportQuality::Standard);
    assert_eq!(d.frame_range(300), Some((0, 299)));
    assert!(!d.trims_whole_video(300));
    assert!(d.trims_whole_video(0));

    let s = ExportSettings { trim_start_frames: 10, trim_end_frames: 5, quality: ExportQuality::High };
    assert_eq!(s.frame_range(100), Some((10, 94)));
    assert!(!s.trims_whole_video(100));
    assert!(s.trims_whole_video(15));
    assert_eq!(s.frame_range(15), None);
    assert_eq!(s.frame_range(16), Some((10, 10)));
}

#[test]
fn next_counter_skips_ids_in_use() {
    let mut a = region(&[(0, 0.0, 0.0)]);
    a.id = mosaic_id(1);
    let mut b = region(&[(0, 0.0, 0.0)]);
    b.id = mosaic_id(2);
    let ms = vec![a, b];
    assert_eq!(next_mosaic_counter(&ms, 0), Some(3));
    assert_eq!(next_mosaic_counter(&ms, 2), Some(3));
    assert_eq!(next_mosaic_counter(&ms, 5), Some(6));
    assert_eq!(next_mosaic_counter(&Vec::new(), 0), Some(1));
    assert_eq!(next_mosaic_counter(&ms, u32::MAX), None);
}

#[test]
fn set_keyframe_adds_one_or_replaces() {
    let mut r = region(&[(0, 0.0, 0.0), (10, 1.0, 1.0), (20, 2.0, 2.0)]);
    r.set_keyframe(kf(15, 5.0, 5.0));
    assert_eq!(r.keyframes.len(), 4);
    assert_eq!(r.keyframes.iter().map(|k| k.frame).collect::<Vec<_>>(), vec![0, 10, 15, 20]);
    r.set_keyframe(kf(10, 9.0, 9.0));
    assert_eq!(r.keyframes.len(), 4);
    assert_eq!(r.keyframes[1].values.center_x_bits, 9.0f32.to_bits());
}
