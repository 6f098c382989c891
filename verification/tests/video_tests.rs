use lvmosaic::video::{
    classify_dropped_file, first_free_candidate, DroppedFile, MAX_OUTPUT_SUFFIX,
    ffmpeg_not_found_message, fit_frame_data, make_output_path, output_candidate_path,
    output_file_name_for, project_file_path, resolve_project_video, resolve_tool_path,
    tool_binary_name, Tool,
};

#[test]
fn test_make_output_path_suffix() {
    let out = make_output_path("/tmp/video.mp4");
    assert!(out.contains("video_mosaic"), "output: {}", out);
    assert!(out.ends_with(".mp4"), "output: {}", out);
}

#[test]
fn output_candidates() {
    assert_eq!(output_candidate_path("/tmp/video.mp4", 0), "/tmp/video_mosaic.mp4");
    assert_eq!(output_candidate_path("/tmp/video.mp4", 7), "/tmp/video_mosaic_007.mp4");
    assert_eq!(output_candidate_path("/tmp/video.mp4", 999), "/tmp/video_mosaic_999.mp4");
    assert_eq!(output_candidate_path("clip.mp4", 0), "clip_mosaic.mp4");
    assert_eq!(output_candidate_path("/a/b/my.clip.mp4", 12), "/a/b/my.clip_mosaic_012.mp4");
    assert_eq!(output_file_name_for("v", 0), "v_mosaic.mp4");
    assert_eq!(output_file_name_for("v", 5), "v_mosaic_005.mp4");
}

#[test]
fn frame_data_is_fitted() {
    assert_eq!(fit_frame_data(vec![1, 2, 3, 4, 5, 6, 7, 8], 1, 2), vec![1, 2, 3, 4, 5, 6]);
    assert_eq!(fit_frame_data(vec![1, 2, 3], 2, 1), vec![0, 0, 0, 0, 0, 0]);
    assert_eq!(fit_frame_data(vec![], 0, 5), Vec::<u8>::new());
}

#[test]
fn tool_paths() {
    assert_eq!(tool_binary_name(Tool::Ffmpeg, true), "ffmpeg.exe");
    assert_eq!(tool_binary_name(Tool::Ffprobe, false), "ffprobe");
    assert_eq!(resolve_tool_path(None, Tool::Ffprobe, true), "ffprobe.exe");
    assert_eq!(resolve_tool_path(Some("/opt/x/ffmpeg".to_string()), Tool::Ffmpeg, false), "/opt/x/ffmpeg");
}

#[test]
fn not_found_messages() {
    assert!(ffmpeg_not_found_message(true).contains("ffmpeg.exe と ffprobe.exe"));
    assert!(ffmpeg_not_found_message(false).contains("PATH の通った場所"));
}

#[test]
fn project_paths() {
    assert_eq!(project_file_path("/videos/trip.mp4"), "/videos/trip.lvMosaic.json");
    assert_eq!(project_file_path("trip.mp4"), "trip.lvMosaic.json");
    assert_eq!(resolve_project_video("/p/trip.lvMosaic.json", "trip.mp4"), "/p/trip.mp4");
    assert_eq!(resolve_project_video("/p/trip.lvMosaic.json", "/abs/trip.mp4"), "/abs/trip.mp4");
    assert_eq!(resolve_project_video("/", "trip.mp4"), "trip.mp4");
}

#[test]
fn output_search_takes_the_first_free_candidate() {
    assert_eq!(first_free_candidate(&vec![false]), 0);
    assert_eq!(first_free_candidate(&vec![true, false]), 1);
    assert_eq!(first_free_candidate(&vec![true, true, true, false]), 3);
    assert_eq!(first_free_candidate(&vec![true, false, false]), 1);
    // When every candidate is taken the plain name is used again.
    let all = vec![true; MAX_OUTPUT_SUFFIX as usize + 1];
    assert_eq!(first_free_candidate(&all), 0);
    let mut last_free = all.clone();
    last_free[MAX_OUTPUT_SUFFIX as usize] = false;
    assert_eq!(first_free_candidate(&last_free), MAX_OUTPUT_SUFFIX);
}

#[test]
fn dropped_files_by_extension() {
    assert_eq!(classify_dropped_file("/videos/a.mp4"), DroppedFile::Video);
    assert_eq!(classify_dropped_file("/videos/A.MP4"), DroppedFile::Video);
    assert_eq!(classify_dropped_file("/videos/a.lvMosaic.json"), DroppedFile::Project);
    assert_eq!(classify_dropped_file("p.JSON"), DroppedFile::Project);
    assert_eq!(classify_dropped_file("notes.txt"), DroppedFile::Other);
    assert_eq!(classify_dropped_file("noext"), DroppedFile::Other);
    assert_eq!(classify_dropped_file("/videos/.mp4"), DroppedFile::Other);
}
