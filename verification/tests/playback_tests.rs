use lvmosaic::playback::{Playback, PreviewScale};

#[test]
fn preview_scale_divisors() {
    assert_eq!(PreviewScale::Auto.divisor(3840, 2160), 4);
    assert_eq!(PreviewScale::Auto.divisor(1920, 1080), 2);
    assert_eq!(PreviewScale::Auto.divisor(960, 540), 1);
    assert_eq!(PreviewScale::Full.divisor(3840, 2160), 1);
    assert_eq!(PreviewScale::Half.divisor(10, 10), 2);
    assert_eq!(PreviewScale::Quarter.divisor(10, 10), 4);
}

#[test]
fn seek_and_step_stay_in_video() {
    let mut p = Playback::new();
    p.loaded_frame = Some(3);
    p.seek_to(500, 100);
    assert_eq!(p.current_frame, 99);
    assert_eq!(p.loaded_frame, None);
    p.frame_step(10, 100);
    assert_eq!(p.current_frame, 99);
    p.frame_step(-10, 100);
    assert_eq!(p.current_frame, 89);
    p.frame_step(-1000, 100);
    assert_eq!(p.current_frame, 0);
    let before = p;
    p.seek_to(5, 0);
    p.frame_step(1, 0);
    assert_eq!(p, before);
}

#[test]
fn decoding_follows_playback_and_stops_at_end() {
    let mut p = Playback::new();
    assert_eq!(p.next_decode_request(3), Some(0));
    assert_eq!(p.next_decode_request(3), None);
    p.on_frame_decoded(0);
    assert_eq!(p.next_decode_request(3), None);
    p.toggle_play();
    assert_eq!(p.next_decode_request(3), Some(1));
    p.on_frame_decoded(1);
    assert_eq!(p.current_frame, 1);
    assert_eq!(p.next_decode_request(3), Some(2));
    p.on_frame_decoded(2);
    assert_eq!(p.next_decode_request(3), None);
    assert!(!p.playing);
    assert_eq!(p.current_frame, 2);
}
