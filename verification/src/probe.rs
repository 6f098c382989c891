use vstd::prelude::*;

verus! {

// ---- decimal numbers as `str::parse::<u64>` reads them ----

/// The value of a string of decimal digits.
pub open spec fn digits_value(s: Seq<char>) -> int
    decreases s.len(),
{
    if s.len() == 0 {
        0
    } else {
        10 * digits_value(s.drop_last()) + (s.last() as int - '0' as int)
    }
}

/// One or more decimal digits.
pub open spec fn all_digits(s: Seq<char>) -> bool {
    &&& s.len() > 0
    &&& forall|i: int| 0 <= i < s.len() ==> '0' <= #[trigger] s[i] <= '9'
}

/// What `str::parse::<u64>` gives for `s`: an optional `+` followed by one or
/// more decimal digits whose value fits in a `u64`; `None` for anything else.
pub open spec fn parsed_u64(s: Seq<char>) -> Option<u64> {
    let body = if s.len() > 0 && s[0] == '+' {
        s.drop_first()
    } else {
        s
    };
    if all_digits(body) && digits_value(body) <= u64::MAX {
        Some(digits_value(body) as u64)
    } else {
        None
    }
}

/// Reads an unsigned decimal number as `str::parse::<u64>` does.
pub fn parse_u64(s: &str) -> (r: Option<u64>)
    ensures
        r == parsed_u64(s@),
{
    let n = s.unicode_len();
    let start: usize = if n > 0 && s.get_char(0) == '+' {
        1
    } else {
        0
    };
    let ghost body = if s@.len() > 0 && s@[0] == '+' {
        s@.drop_first()
    } else {
        s@
    };
    assert(body =~= s@.subrange(start as int, n as int));
    if start >= n {
        return None;
    }
    let mut value: u64 = 0;
    let mut overflow = false;
    let ghost mut gv: int = 0;
    let mut k: usize = start;
    while k < n
        invariant
            n == s@.len(),
            start <= k <= n,
            start == 0 || start == 1,
            body == s@.subrange(start as int, n as int),
            body == (if s@.len() > 0 && s@[0] == '+' {
                s@.drop_first()
            } else {
                s@
            }),
            gv == digits_value(body.take(k - start)),
            !overflow ==> value == gv,
            overflow ==> gv > u64::MAX,
            gv >= 0,
            forall|i: int| 0 <= i < k - start ==> '0' <= #[trigger] body[i] <= '9',
        decreases n - k,
    {
        let c = s.get_char(k);
        assert(c == body[k - start]);
        if !('0' <= c && c <= '9') {
            assert(!all_digits(body));
            return None;
        }
        let d = (c as u32 - '0' as u32) as u64;
        proof {
            let t = body.take(k - start + 1);
            assert(t.drop_last() =~= body.take(k - start));
            assert(t.last() == c);
            gv = 10 * gv + (c as int - '0' as int);
        }
        if !overflow {
            match value.checked_mul(10) {
                Some(v10) => match v10.checked_add(d) {
                    Some(v) => {
                        value = v;
                    },
                    None => {
                        overflow = true;
                    },
                },
                None => {
                    overflow = true;
                },
            }
        }
        k = k + 1;
    }
    assert(body.take(n - start) =~= body);
    if overflow {
        None
    } else {
        Some(value)
    }
}

// ---- the fields of ffprobe's report ----

/// One stream of ffprobe's JSON report: each field holds the value of the key
/// of that name where it has the expected JSON kind (a string, or a
/// non-negative integer for `width` and `height`).
#[derive(Debug)]
pub struct ProbeStream {
    pub codec_type: Option<String>,
    pub codec_name: Option<String>,
    pub width: Option<u64>,
    pub height: Option<u64>,
    pub r_frame_rate: Option<String>,
    pub nb_frames: Option<String>,
    pub duration: Option<String>,
}

/// ffprobe's JSON report: the `streams` array (where it is an array) and the
/// `duration` and `bit_rate` strings of `format`.
#[derive(Debug)]
pub struct ProbeOutput {
    pub streams: Option<Vec<ProbeStream>>,
    pub format_duration: Option<String>,
    pub format_bit_rate: Option<String>,
}

/// Why a report describes no usable video.
#[derive(Clone, Copy, Debug, PartialEq, Eq, Structural)]
pub enum ProbeError {
    NoStreams,
    NoVideoStream,
    NoWidth,
    NoHeight,
}

impl ProbeError {
    pub open spec fn message_text(self) -> Seq<char> {
        match self {
            ProbeError::NoStreams => "streams が見つかりません"@,
            ProbeError::NoVideoStream => "映像ストリームが見つかりません"@,
            ProbeError::NoWidth => "width が取得できません"@,
            ProbeError::NoHeight => "height が取得できません"@,
        }
    }

    /// The message shown for the error.
    pub fn message(&self) -> (r: &'static str)
        ensures
            r@ == self.message_text(),
    {
        match self {
            ProbeError::NoStreams => "streams が見つかりません",
            ProbeError::NoVideoStream => "映像ストリームが見つかりません",
            ProbeError::NoWidth => "width が取得できません",
            ProbeError::NoHeight => "height が取得できません",
        }
    }
}

/// What the editor takes from a report. The frame rate and the duration stay
/// text, to be read as floating point by the caller.
#[derive(Debug)]
pub struct ProbeFields {
    pub width: u32,
    pub height: u32,
    pub r_frame_rate: String,
    pub video_codec: String,
    pub nb_frames: u64,
    pub duration: Option<String>,
    pub has_audio: bool,
    pub audio_codec: Option<String>,
    pub bit_rate: Option<u64>,
}

/// The value of `ProbeFields`, its text as sequences.
pub struct FieldsView {
    pub width: u32,
    pub height: u32,
    pub r_frame_rate: Seq<char>,
    pub video_codec: Seq<char>,
    pub nb_frames: u64,
    pub duration: Option<Seq<char>>,
    pub has_audio: bool,
    pub audio_codec: Option<Seq<char>>,
    pub bit_rate: Option<u64>,
}

impl View for ProbeFields {
    type V = FieldsView;

    open spec fn view(&self) -> FieldsView {
        FieldsView {
            width: self.width,
            height: self.height,
            r_frame_rate: self.r_frame_rate@,
            video_codec: self.video_codec@,
            nb_frames: self.nb_frames,
            duration: self.duration.deep_view(),
            has_audio: self.has_audio,
            audio_codec: self.audio_codec.deep_view(),
            bit_rate: self.bit_rate,
        }
    }
}

/// The stream's `codec_type` is the string `kind`.
pub open spec fn is_kind(s: ProbeStream, kind: Seq<char>) -> bool {
    s.codec_type.deep_view() == Some(kind)
}

/// `i` is the first stream of the kind.
pub open spec fn first_of_kind(ss: Seq<ProbeStream>, i: int, kind: Seq<char>) -> bool {
    &&& 0 <= i < ss.len()
    &&& is_kind(ss[i], kind)
    &&& forall|j: int| 0 <= j < i ==> !#[trigger] is_kind(ss[j], kind)
}

pub open spec fn has_kind(ss: Seq<ProbeStream>, kind: Seq<char>) -> bool {
    exists|i: int| 0 <= i < ss.len() && is_kind(ss[i], kind)
}

pub open spec fn index_of_kind(ss: Seq<ProbeStream>, kind: Seq<char>) -> int {
    choose|i: int| first_of_kind(ss, i, kind)
}

pub open spec fn text_or(t: Option<Seq<char>>, default: Seq<char>) -> Seq<char> {
    match t {
        Some(s) => s,
        None => default,
    }
}

/// A number read from optional text, as `str::parse::<u64>`.
pub open spec fn parsed_opt(t: Option<Seq<char>>) -> Option<u64> {
    match t {
        Some(s) => parsed_u64(s),
        None => None,
    }
}

/// The fields of a report: the first stream of kind `video` gives the size
/// (required, width first), frame rate (`30/1` where missing), codec
/// (`unknown` where missing), frame count (0 where missing or unreadable) and
/// duration (else the format's); the first `audio` stream, if any, gives the
/// audio codec; the format gives the bit rate where it reads as a number.
pub open spec fn probe_result(out: ProbeOutput) -> Result<FieldsView, ProbeError> {
    match out.streams {
        None => Err(ProbeError::NoStreams),
        Some(v) => {
            let ss = v@;
            if !has_kind(ss, "video"@) {
                Err(ProbeError::NoVideoStream)
            } else {
                let vs = ss[index_of_kind(ss, "video"@)];
                if vs.width is None {
                    Err(ProbeError::NoWidth)
                } else if vs.height is None {
                    Err(ProbeError::NoHeight)
                } else {
                    let has_audio = has_kind(ss, "audio"@);
                    Ok(
                        FieldsView {
                            width: vs.width->0 as u32,
                            height: vs.height->0 as u32,
                            r_frame_rate: text_or(vs.r_frame_rate.deep_view(), "30/1"@),
                            video_codec: text_or(vs.codec_name.deep_view(), "unknown"@),
                            nb_frames: match parsed_opt(vs.nb_frames.deep_view()) {
                                Some(n) => n,
                                None => 0,
                            },
                            duration: match vs.duration.deep_view() {
                                Some(d) => Some(d),
                                None => out.format_duration.deep_view(),
                            },
                            has_audio,
                            audio_codec: if has_audio {
                                ss[index_of_kind(ss, "audio"@)].codec_name.deep_view()
                            } else {
                                None
                            },
                            bit_rate: parsed_opt(out.format_bit_rate.deep_view()),
                        },
                    )
                }
            }
        },
    }
}

/// Among streams up to `i`, one of the kind, the first of the kind exists.
proof fn lemma_first_of_kind_exists(ss: Seq<ProbeStream>, kind: Seq<char>, i: int)
    requires
        0 <= i < ss.len(),
        is_kind(ss[i], kind),
    ensures
        first_of_kind(ss, index_of_kind(ss, kind), kind),
    decreases i,
{
    if forall|j: int| 0 <= j < i ==> !#[trigger] is_kind(ss[j], kind) {
        assert(first_of_kind(ss, i, kind));
    } else {
        let j = choose|j: int| 0 <= j < i && #[trigger] is_kind(ss[j], kind);
        lemma_first_of_kind_exists(ss, kind, j);
    }
}

/// The fields of a report come from its first `video` stream: no earlier
/// stream is of that kind, the size is that stream's (as `u32`), and the frame
/// rate and codec are its own where it has them. The audio codec comes from the
/// first `audio` stream, and there is audio exactly when some stream is audio.
pub proof fn lemma_probe_reads_first_streams(out: ProbeOutput)
    ensures
        probe_result(out) matches Ok(fv) ==> {
            &&& out.streams is Some
            &&& exists|i: int|
                {
                    &&& #[trigger] first_of_kind(out.streams->0@, i, "video"@)
                    &&& out.streams->0@[i].height matches Some(h) && fv.height == h as u32
                    &&& out.streams->0@[i].width matches Some(w) && fv.width == w as u32
                    &&& fv.video_codec == text_or(out.streams->0@[i].codec_name.deep_view(), "unknown"@)
                    &&& fv.r_frame_rate == text_or(out.streams->0@[i].r_frame_rate.deep_view(), "30/1"@)
                }
            &&& fv.has_audio == has_kind(out.streams->0@, "audio"@)
            &&& fv.has_audio ==> exists|a: int|
                #[trigger] first_of_kind(out.streams->0@, a, "audio"@) && fv.audio_codec
                    == out.streams->0@[a].codec_name.deep_view()
            &&& !fv.has_audio ==> fv.audio_codec is None
        },
{
    if let Some(v) = out.streams {
        let ss = v@;
        if has_kind(ss, "video"@) {
            let k = choose|k: int| 0 <= k < ss.len() && is_kind(ss[k], "video"@);
            lemma_first_of_kind_exists(ss, "video"@, k);
            let i = index_of_kind(ss, "video"@);
            assert(first_of_kind(ss, i, "video"@));
        }
        if has_kind(ss, "audio"@) {
            let k = choose|k: int| 0 <= k < ss.len() && is_kind(ss[k], "audio"@);
            lemma_first_of_kind_exists(ss, "audio"@, k);
            let a = index_of_kind(ss, "audio"@);
            assert(first_of_kind(ss, a, "audio"@));
        }
    }
}

fn find_kind(ss: &Vec<ProbeStream>, kind: &String) -> (r: Option<usize>)
    ensures
        r is None <==> !has_kind(ss@, kind@),
        r matches Some(i) ==> first_of_kind(ss@, i as int, kind@) && i as int == index_of_kind(
            ss@,
            kind@,
        ),
{
    let n = ss.len();
    let mut i: usize = 0;
    while i < n
        invariant
            n == ss@.len(),
            i <= n,
            forall|j: int| 0 <= j < i ==> !#[trigger] is_kind(ss@[j], kind@),
        decreases n - i,
    {
        let matches = match &ss[i].codec_type {
            Some(t) => *t == *kind,
            None => false,
        };
        if matches {
            proof {
                assert(first_of_kind(ss@, i as int, kind@));
                let c = choose|c: int| first_of_kind(ss@, c, kind@);
                if c < i {
                    assert(!is_kind(ss@[c], kind@));
                } else if c > i {
                    assert(!is_kind(ss@[i as int], kind@));
                }
            }
            return Some(i);
        }
        i = i + 1;
    }
    None
}

fn copy_text(t: &Option<String>) -> (r: Option<String>)
    ensures
        r.deep_view() == t.deep_view(),
{
    match t {
        Some(s) => Some(s.clone()),
        None => None,
    }
}

fn parse_opt(t: &Option<String>) -> (r: Option<u64>)
    ensures
        r == parsed_opt(t.deep_view()),
{
    match t {
        Some(s) => parse_u64(s.as_str()),
        None => None,
    }
}

/// Takes what the editor needs from ffprobe's report.
pub fn probe_fields(out: &ProbeOutput) -> (r: Result<ProbeFields, ProbeError>)
    ensures
        match r {
            Ok(f) => probe_result(*out) == Ok::<FieldsView, ProbeError>(f@),
            Err(e) => probe_result(*out) == Err::<FieldsView, ProbeError>(e),
        },
        r matches Ok(f) ==> {
            &&& out.streams is Some
            &&& exists|i: int|
                {
                    &&& #[trigger] first_of_kind(out.streams->0@, i, "video"@)
                    &&& out.streams->0@[i].width matches Some(w) && f.width == w as u32
                    &&& out.streams->0@[i].height matches Some(h) && f.height == h as u32
                    &&& f.video_codec@ == text_or(out.streams->0@[i].codec_name.deep_view(), "unknown"@)
                    &&& f.r_frame_rate@ == text_or(out.streams->0@[i].r_frame_rate.deep_view(), "30/1"@)
                }
            &&& f.has_audio == has_kind(out.streams->0@, "audio"@)
            &&& f.has_audio ==> exists|a: int|
                #[trigger] first_of_kind(out.streams->0@, a, "audio"@) && f.audio_codec.deep_view()
                    == out.streams->0@[a].codec_name.deep_view()
            &&& !f.has_audio ==> f.audio_codec is None
        },
        out.streams is None ==> r == Err::<ProbeFields, ProbeError>(ProbeError::NoStreams),
        out.streams matches Some(v) && !has_kind(v@, "video"@) ==> r == Err::<ProbeFields, ProbeError>(
            ProbeError::NoVideoStream,
        ),
{
    proof {
        lemma_probe_reads_first_streams(*out);
    }
    let ss = match &out.streams {
        Some(v) => v,
        None => return Err(ProbeError::NoStreams),
    };
    let video = String::from_str("video");
    let audio = String::from_str("audio");
    let vi = match find_kind(ss, &video) {
        Some(i) => i,
        None => return Err(ProbeError::NoVideoStream),
    };
    let vs = &ss[vi];
    let width = match vs.width {
        Some(w) => w as u32,
        None => return Err(ProbeError::NoWidth),
    };
    let height = match vs.height {
        Some(h) => h as u32,
        None => return Err(ProbeError::NoHeight),
    };
    let r_frame_rate = match &vs.r_frame_rate {
        Some(s) => s.clone(),
        None => String::from_str("30/1"),
    };
    let video_codec = match &vs.codec_name {
        Some(s) => s.clone(),
        None => String::from_str("unknown"),
    };
    let nb_frames = match parse_opt(&vs.nb_frames) {
        Some(n) => n,
        None => 0,
    };
    let duration = match &vs.duration {
        Some(d) => Some(d.clone()),
        None => copy_text(&out.format_duration),
    };
    let (has_audio, audio_codec) = match find_kind(ss, &audio) {
        Some(ai) => (true, copy_text(&ss[ai].codec_name)),
        None => (false, None),
    };
    let bit_rate = parse_opt(&out.format_bit_rate);
    Ok(
        ProbeFields {
            width,
            height,
            r_frame_rate,
            video_codec,
            nb_frames,
            duration,
            has_audio,
            audio_codec,
            bit_rate,
        },
    )
}

} // verus!
