use vstd::prelude::*;

use crate::format::{push_zero_padded, zero_padded};

verus! {

/// Whether FFmpeg can be run, whether it is the copy bundled beside the
/// program, and the path it is run from.
#[derive(Debug)]
pub struct FfmpegStatus {
    pub available: bool,
    pub bundled: bool,
    pub path: String,
}

/// The external programs the editor runs.
#[derive(Clone, Copy, Debug, PartialEq, Eq, Structural)]
pub enum Tool {
    Ffmpeg,
    Ffprobe,
}

/// The file name of a tool's executable on Windows or elsewhere.
pub open spec fn binary_name(tool: Tool, on_windows: bool) -> Seq<char> {
    match tool {
        Tool::Ffmpeg => if on_windows {
            "ffmpeg.exe"@
        } else {
            "ffmpeg"@
        },
        Tool::Ffprobe => if on_windows {
            "ffprobe.exe"@
        } else {
            "ffprobe"@
        },
    }
}

pub fn tool_binary_name(tool: Tool, on_windows: bool) -> (r: &'static str)
    ensures
        r@ == binary_name(tool, on_windows),
{
    match tool {
        Tool::Ffmpeg => if on_windows {
            "ffmpeg.exe"
        } else {
            "ffmpeg"
        },
        Tool::Ffprobe => if on_windows {
            "ffprobe.exe"
        } else {
            "ffprobe"
        },
    }
}

/// The path a tool is run from: the copy found beside the program where there
/// is one, else the bare executable name, which the system looks up on `PATH`.
pub fn resolve_tool_path(bundled: Option<String>, tool: Tool, on_windows: bool) -> (r: String)
    ensures
        r@ == match bundled {
            Some(p) => p@,
            None => binary_name(tool, on_windows),
        },
{
    match bundled {
        Some(p) => p,
        None => String::from_str(tool_binary_name(tool, on_windows)),
    }
}

/// The message shown when FFmpeg cannot be found.
pub open spec fn not_found_text(on_windows: bool) -> Seq<char> {
    if on_windows {
        "FFmpegが見つかりません。\nffmpeg.exe と ffprobe.exe をこのアプリと同じフォルダに置いてください。\n\n入手先: https://github.com/BtbN/FFmpeg-Builds/releases\n(ffmpeg-master-latest-win64-lgpl-shared.zip の bin/ 内にあります)"@
    } else {
        "FFmpegが見つかりません。\nffmpeg と ffprobe をこのアプリと同じフォルダに置くか、\nPATH の通った場所にインストールしてください。"@
    }
}

pub fn ffmpeg_not_found_message(on_windows: bool) -> (r: String)
    ensures
        r@ == not_found_text(on_windows),
{
    if on_windows {
        String::from_str(
            "FFmpegが見つかりません。\nffmpeg.exe と ffprobe.exe をこのアプリと同じフォルダに置いてください。\n\n入手先: https://github.com/BtbN/FFmpeg-Builds/releases\n(ffmpeg-master-latest-win64-lgpl-shared.zip の bin/ 内にあります)",
        )
    } else {
        String::from_str(
            "FFmpegが見つかりません。\nffmpeg と ffprobe をこのアプリと同じフォルダに置くか、\nPATH の通った場所にインストールしてください。",
        )
    }
}

// ---- output file naming ----

/// The name `Path::file_stem` gives for `path`: its final component without
/// the extension, as the target platform splits paths.
pub uninterp spec fn path_file_stem(path: Seq<char>) -> Option<Seq<char>>;

/// The path `Path::parent` gives for `path`: `path` without its final
/// component, as the target platform splits paths.
pub uninterp spec fn path_parent(path: Seq<char>) -> Option<Seq<char>>;

/// The path `Path::join` gives for `base` joined with `name`, as the target
/// platform joins paths.
pub uninterp spec fn path_join(base: Seq<char>, name: Seq<char>) -> Seq<char>;

/// Calls `std::path::Path::file_stem` on `path`; the result is the name
/// `path_file_stem` gives, which is not stated further.
#[verifier::external_body]
fn file_stem_of(path: &str) -> (r: Option<String>)
    ensures
        r.deep_view() == path_file_stem(path@),
{
    match std::path::Path::new(path).file_stem() {
        Some(stem) => Some(stem.to_string_lossy().into_owned()),
        None => None,
    }
}

/// Calls `std::path::Path::parent` on `path`; the result is the name
/// `path_parent` gives, which is not stated further.
#[verifier::external_body]
fn parent_of(path: &str) -> (r: Option<String>)
    ensures
        r.deep_view() == path_parent(path@),
{
    match std::path::Path::new(path).parent() {
        Some(dir) => Some(dir.to_string_lossy().into_owned()),
        None => None,
    }
}

/// Calls `std::path::Path::join`; the result is the name `path_join` gives,
/// which is not stated further.
#[verifier::external_body]
fn join_path(base: &str, name: &str) -> (r: String)
    ensures
        r@ == path_join(base@, name@),
{
    std::path::Path::new(base).join(name).to_string_lossy().into_owned()
}

/// The extension `Path::extension` gives for `path`, as the target platform
/// splits paths.
pub uninterp spec fn path_extension(path: Seq<char>) -> Option<Seq<char>>;

/// The text `str::to_lowercase` gives for `s`: each character replaced by its
/// Unicode lowercase mapping.
pub uninterp spec fn lowercase(s: Seq<char>) -> Seq<char>;

/// Calls `std::path::Path::extension` on `path`; the result is the name
/// `path_extension` gives, which is not stated further.
#[verifier::external_body]
fn extension_of(path: &str) -> (r: Option<String>)
    ensures
        r.deep_view() == path_extension(path@),
{
    match std::path::Path::new(path).extension() {
        Some(ext) => Some(ext.to_string_lossy().into_owned()),
        None => None,
    }
}

/// Calls `str::to_lowercase`; the result is the name `lowercase` gives, which
/// is not stated further.
#[verifier::external_body]
fn to_lowercase_of(s: &str) -> (r: String)
    ensures
        r@ == lowercase(s@),
{
    s.to_lowercase()
}

/// Calls `std::path::Path::exists`, which asks the file system whether
/// `path` names an existing file; nothing is stated of the answer, which
/// depends on the disk.
#[verifier::external_body]
fn path_exists(path: &str) -> (r: bool) {
    std::path::Path::new(path).exists()
}

/// The name of the `n`-th candidate output file for a video named `stem`:
/// `<stem>_mosaic.mp4`, then `<stem>_mosaic_001.mp4` and so on.
pub open spec fn output_file_name(stem: Seq<char>, n: nat) -> Seq<char> {
    if n == 0 {
        stem + "_mosaic.mp4"@
    } else {
        stem + "_mosaic_"@ + zero_padded(n, 3) + ".mp4"@
    }
}

/// The `n`-th candidate output path for `input`: in the input's directory (or
/// `.` where it has none), named after the input's stem (empty where it has none).
pub open spec fn output_candidate(input: Seq<char>, n: nat) -> Seq<char> {
    let stem = match path_file_stem(input) {
        Some(s) => s,
        None => Seq::<char>::empty(),
    };
    let dir = match path_parent(input) {
        Some(d) => d,
        None => "."@,
    };
    path_join(dir, output_file_name(stem, n))
}

/// The number of numbered candidates tried after the plain name is taken.
pub const MAX_OUTPUT_SUFFIX: u32 = 999;

pub fn output_file_name_for(stem: &str, n: u32) -> (r: String)
    ensures
        r@ == output_file_name(stem@, n as nat),
{
    let mut name = String::from_str(stem);
    if n == 0 {
        name.append("_mosaic.mp4");
    } else {
        name.append("_mosaic_");
        push_zero_padded(&mut name, n as u64, 3);
        name.append(".mp4");
    }
    name
}

/// The `n`-th candidate output path for the video at `input_path`.
pub fn output_candidate_path(input_path: &str, n: u32) -> (r: String)
    ensures
        r@ == output_candidate(input_path@, n as nat),
{
    let stem = match file_stem_of(input_path) {
        Some(s) => s,
        None => String::new(),
    };
    let dir = match parent_of(input_path) {
        Some(d) => d,
        None => String::from_str("."),
    };
    let name = output_file_name_for(stem.as_str(), n);
    join_path(dir.as_str(), name.as_str())
}

/// Every candidate asked about is taken.
pub open spec fn all_taken(taken: Seq<bool>) -> bool {
    forall|j: int| 0 <= j < taken.len() ==> #[trigger] taken[j]
}

/// Candidate `i` is the first free one among those asked about.
pub open spec fn first_free_at(taken: Seq<bool>, i: int) -> bool {
    &&& 0 <= i < taken.len()
    &&& !taken[i]
    &&& forall|j: int| 0 <= j < i ==> #[trigger] taken[j]
}

/// The candidate chosen from the answers: the first free one, or the plain
/// name (candidate 0) when every one asked about is taken.
pub open spec fn first_free(taken: Seq<bool>) -> int {
    if all_taken(taken) {
        0
    } else {
        choose|i: int| first_free_at(taken, i)
    }
}

proof fn lemma_first_free_unique(taken: Seq<bool>, i: int)
    requires
        first_free_at(taken, i),
    ensures
        !all_taken(taken),
        first_free(taken) == i,
{
    assert(!taken[i]);
    let c = choose|c: int| first_free_at(taken, c);
    assert(first_free_at(taken, c));
    if c < i {
        assert(taken[c]);
    } else if c > i {
        assert(taken[i]);
    }
}

/// Asking about the candidates in order and stopping at the first free one (or
/// after the last) picks the same candidate as asking about all of them.
pub proof fn lemma_first_free_of_prefix(answers: Seq<bool>, k: int)
    requires
        answers.len() == MAX_OUTPUT_SUFFIX + 1,
        0 <= k < answers.len(),
        forall|j: int| 0 <= j < k ==> #[trigger] answers[j],
        !answers[k] || k == MAX_OUTPUT_SUFFIX,
    ensures
        first_free(answers.take(k + 1)) == first_free(answers),
{
    let p = answers.take(k + 1);
    if !answers[k] {
        assert(first_free_at(p, k));
        assert(first_free_at(answers, k));
        lemma_first_free_unique(p, k);
        lemma_first_free_unique(answers, k);
    } else {
        assert(p =~= answers);
    }
}

/// The candidate to export to, given in `taken[n]` whether candidate `n`
/// exists already: the first free one, or the plain name (candidate 0) when
/// every one is taken.
pub fn first_free_candidate(taken: &Vec<bool>) -> (r: u32)
    requires
        taken@.len() <= MAX_OUTPUT_SUFFIX + 1,
    ensures
        r == first_free(taken@),
        all_taken(taken@) ==> r == 0,
        !all_taken(taken@) ==> first_free_at(taken@, r as int),
{
    let n = taken.len();
    let mut i: usize = 0;
    while i < n
        invariant
            n == taken@.len(),
            n <= MAX_OUTPUT_SUFFIX + 1,
            i <= n,
            forall|j: int| 0 <= j < i ==> #[trigger] taken@[j],
        decreases n - i,
    {
        if !taken[i] {
            proof {
                assert(first_free_at(taken@, i as int));
                lemma_first_free_unique(taken@, i as int);
            }
            return i as u32;
        }
        i = i + 1;
    }
    0
}

/// A search that asks about the candidates in order and stops at the first
/// free one (or after the last) exports to the candidate it stopped at when
/// that one is free, and to the plain name only when every candidate was
/// taken; so the plain name is chosen only when it is free or all are taken.
pub proof fn lemma_search_choice(taken: Seq<bool>)
    requires
        1 <= taken.len() <= MAX_OUTPUT_SUFFIX + 1,
        forall|j: int| 0 <= j < taken.len() - 1 ==> #[trigger] taken[j],
        !taken.last() || taken.len() == MAX_OUTPUT_SUFFIX + 1,
    ensures
        !taken.last() ==> first_free(taken) == taken.len() - 1,
        taken.last() ==> all_taken(taken) && first_free(taken) == 0,
        first_free(taken) == 0 ==> !taken[0] || (all_taken(taken) && taken.len()
            == MAX_OUTPUT_SUFFIX + 1),
{
    let last = taken.len() - 1;
    if !taken[last] {
        assert(first_free_at(taken, last));
        lemma_first_free_unique(taken, last);
    } else {
        assert forall|j: int| 0 <= j < taken.len() implies #[trigger] taken[j] by {
            if j == last {
            }
        }
    }
}

/// `path_exists` answered `b` when asked about a path naming candidate `n`
/// for the video at `input`.
pub closed spec fn said_by_disk(input: Seq<char>, n: int, b: bool) -> bool {
    exists|p: &str|
        p@ == output_candidate(input, n as nat) && #[trigger] call_ensures(path_exists, (p,), b)
}

/// Each `taken[n]` is an answer that `path_exists` gave when asked about
/// candidate `n` for the video at `input`.
pub open spec fn answered_by_disk(input: Seq<char>, taken: Seq<bool>) -> bool {
    forall|n: int| 0 <= n < taken.len() ==> #[trigger] said_by_disk(input, n, taken[n])
}

proof fn lemma_answered_push(input: Seq<char>, before: Seq<bool>, p: &str, b: bool)
    requires
        answered_by_disk(input, before),
        p@ == output_candidate(input, before.len() as nat),
        call_ensures(path_exists, (p,), b),
    ensures
        answered_by_disk(input, before.push(b)),
{
    let after = before.push(b);
    assert(said_by_disk(input, before.len() as int, b));
    assert forall|n: int| 0 <= n < after.len() implies #[trigger] said_by_disk(input, n, after[n]) by {
        if n < before.len() {
            assert(after[n] == before[n]);
            assert(said_by_disk(input, n, before[n]));
        } else {
            assert(after[n] == b);
        }
    }
}

/// The path to export to. The candidates are asked about in order, the plain
/// name first, up to the first free one or the last; the answers `taken` are
/// what the file system said. The result is the free candidate the search
/// stopped at, or the plain name when all of them were taken; so an existing
/// file is chosen only when every candidate exists.
pub fn make_output_path(input_path: &str) -> (r: String)
    ensures
        exists|n: nat| n <= MAX_OUTPUT_SUFFIX && r@ == output_candidate(input_path@, n),
        exists|taken: Seq<bool>|
            {
                &&& 1 <= taken.len() <= MAX_OUTPUT_SUFFIX + 1
                &&& forall|j: int| 0 <= j < taken.len() - 1 ==> #[trigger] taken[j]
                &&& answered_by_disk(input_path@, taken)
                &&& r@ == output_candidate(input_path@, first_free(taken) as nat)
                &&& if taken.last() {
                    &&& taken.len() == MAX_OUTPUT_SUFFIX + 1
                    &&& r@ == output_candidate(input_path@, 0)
                } else {
                    r@ == output_candidate(input_path@, (taken.len() - 1) as nat)
                }
            },
{
    let mut taken: Vec<bool> = Vec::new();
    let mut n: u32 = 0;
    let mut searching = true;
    while searching
        invariant
            n <= MAX_OUTPUT_SUFFIX,
            taken@.len() <= MAX_OUTPUT_SUFFIX + 1,
            searching ==> taken@.len() == n,
            !searching ==> taken@.len() == n + 1,
            !searching ==> (!taken@.last() || n == MAX_OUTPUT_SUFFIX),
            forall|j: int| 0 <= j < n ==> #[trigger] taken@[j],
            answered_by_disk(input_path@, taken@),
        decreases MAX_OUTPUT_SUFFIX + 1 - taken@.len(),
    {
        let candidate = output_candidate_path(input_path, n);
        let asked = candidate.as_str();
        let found = path_exists(asked);
        let ghost before = taken@;
        taken.push(found);
        proof {
            lemma_answered_push(input_path@, before, asked, found);
            assert(taken@ =~= before.push(found));
        }
        if !found || n == MAX_OUTPUT_SUFFIX {
            searching = false;
        } else {
            n = n + 1;
        }
    }
    let i = first_free_candidate(&taken);
    proof {
        lemma_search_choice(taken@);
    }
    output_candidate_path(input_path, i)
}

/// Where a project is saved: beside its video, named after the video's stem.
pub open spec fn project_file(video: Seq<char>) -> Seq<char> {
    let stem = match path_file_stem(video) {
        Some(s) => s,
        None => Seq::<char>::empty(),
    };
    let dir = match path_parent(video) {
        Some(d) => d,
        None => "."@,
    };
    path_join(dir, stem + ".lvMosaic.json"@)
}

/// The file a project for the video at `video_path` is saved to:
/// `<stem>.lvMosaic.json` in the video's directory.
pub fn project_file_path(video_path: &str) -> (r: String)
    ensures
        r@ == project_file(video_path@),
{
    let stem = match file_stem_of(video_path) {
        Some(s) => s,
        None => String::new(),
    };
    let dir = match parent_of(video_path) {
        Some(d) => d,
        None => String::from_str("."),
    };
    let mut name = stem;
    name.append(".lvMosaic.json");
    join_path(dir.as_str(), name.as_str())
}

/// The video of a loaded project: its recorded path taken relative to the
/// project file's directory (an absolute one stays as it is, as `Path::join`
/// does), or as recorded where the project file's path has no parent.
pub open spec fn project_video(project: Seq<char>, recorded: Seq<char>) -> Seq<char> {
    match path_parent(project) {
        Some(d) => path_join(d, recorded),
        None => recorded,
    }
}

pub fn resolve_project_video(project_path: &str, recorded: &str) -> (r: String)
    ensures
        r@ == project_video(project_path@, recorded@),
{
    match parent_of(project_path) {
        Some(d) => join_path(d.as_str(), recorded),
        None => String::from_str(recorded),
    }
}

/// What a file dropped on the window is opened as.
#[derive(Clone, Copy, Debug, PartialEq, Eq, Structural)]
pub enum DroppedFile {
    Video,
    Project,
    Other,
}

/// A dropped file is opened by its extension, in any letter case: `mp4` as a
/// video, `json` as a project; anything else is ignored.
pub open spec fn dropped_file_kind(path: Seq<char>) -> DroppedFile {
    let ext = match path_extension(path) {
        Some(e) => lowercase(e),
        None => lowercase(Seq::<char>::empty()),
    };
    if ext == "mp4"@ {
        DroppedFile::Video
    } else if ext == "json"@ {
        DroppedFile::Project
    } else {
        DroppedFile::Other
    }
}

pub fn classify_dropped_file(path: &str) -> (r: DroppedFile)
    ensures
        r == dropped_file_kind(path@),
{
    let ext = match extension_of(path) {
        Some(e) => e,
        None => String::new(),
    };
    let lower = to_lowercase_of(ext.as_str());
    if lower == String::from_str("mp4") {
        DroppedFile::Video
    } else if lower == String::from_str("json") {
        DroppedFile::Project
    } else {
        DroppedFile::Other
    }
}

// ---- decoded frames ----

/// The number of bytes of an RGB24 frame.
pub open spec fn frame_len(width: u32, height: u32) -> int {
    width * height * 3
}

/// A decoded RGB24 frame of exactly `width * height * 3` bytes: the first that
/// many bytes of what the decoder produced, or black where it produced fewer.
pub fn fit_frame_data(raw: Vec<u8>, width: u32, height: u32) -> (r: Vec<u8>)
    requires
        frame_len(width, height) <= u32::MAX,
    ensures
        r@ == if raw@.len() < frame_len(width, height) {
            Seq::new(frame_len(width, height) as nat, |i: int| 0u8)
        } else {
            raw@.subrange(0, frame_len(width, height))
        },
{
    assert(width * height * 3 <= u32::MAX);
    let expected = ((width as u64) * (height as u64) * 3) as usize;
    if raw.len() < expected {
        let mut blank: Vec<u8> = Vec::new();
        let mut k: usize = 0;
        while k < expected
            invariant
                k <= expected,
                expected == frame_len(width, height),
                blank@ == Seq::new(k as nat, |i: int| 0u8),
            decreases expected - k,
        {
            blank.push(0u8);
            assert(blank@ =~= Seq::new((k + 1) as nat, |i: int| 0u8));
            k = k + 1;
        }
        blank
    } else {
        let mut data = raw;
        data.truncate(expected);
        data
    }
}

} // verus!
