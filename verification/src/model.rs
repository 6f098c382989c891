use vstd::prelude::*;

use crate::format::{decimal, push_decimal, push_zero_padded, zero_padded};

use crate::track::{
    ensure_keyframe_result, find_frame, lemma_filter_push, first_segment, has_frame, in_segment, interpolation_at, lemma_interpolation_cases,
    set_keyframe_result, sort_by_frame, without_frame,
};

verus! {

/// Encoder quality preset offered for export.
#[derive(Clone, Copy, Debug, PartialEq, Eq, Structural)]
pub enum ExportQuality {
    Fast,
    Standard,
    High,
}

impl ExportQuality {
    /// The label shown in the user interface.
    pub open spec fn label_text(self) -> Seq<char> {
        match self {
            ExportQuality::Fast => "高速"@,
            ExportQuality::Standard => "標準"@,
            ExportQuality::High => "高品質"@,
        }
    }

    /// The x264 constant rate factor: lower is better quality.
    pub open spec fn crf_value(self) -> u32 {
        match self {
            ExportQuality::Fast => 24,
            ExportQuality::Standard => 22,
            ExportQuality::High => 18,
        }
    }

    /// The x264 speed preset name.
    pub open spec fn preset_text(self) -> Seq<char> {
        match self {
            ExportQuality::Fast => "veryfast"@,
            ExportQuality::Standard => "medium"@,
            ExportQuality::High => "slow"@,
        }
    }

    pub fn label(&self) -> (r: &'static str)
        ensures
            r@ == self.label_text(),
    {
        match self {
            ExportQuality::Fast => "高速",
            ExportQuality::Standard => "標準",
            ExportQuality::High => "高品質",
        }
    }

    pub fn crf(&self) -> (r: u32)
        ensures
            r == self.crf_value(),
    {
        match self {
            ExportQuality::Fast => 24,
            ExportQuality::Standard => 22,
            ExportQuality::High => 18,
        }
    }

    pub fn preset(&self) -> (r: &'static str)
        ensures
            r@ == self.preset_text(),
    {
        match self {
            ExportQuality::Fast => "veryfast",
            ExportQuality::Standard => "medium",
            ExportQuality::High => "slow",
        }
    }
}


/// Default export: nothing trimmed, standard quality.
#[derive(Clone, Copy, Debug, PartialEq, Eq, Structural)]
pub struct ExportSettings {
    pub trim_start_frames: u64,
    pub trim_end_frames: u64,
    pub quality: ExportQuality,
}

impl Default for ExportSettings {
    fn default() -> (r: Self)
        ensures
            r.trim_start_frames == 0,
            r.trim_end_frames == 0,
            r.quality == ExportQuality::Standard,
    {
        ExportSettings { trim_start_frames: 0, trim_end_frames: 0, quality: ExportQuality::Standard }
    }
}

/// `total - sub`, or 0 where `sub` is larger.
pub open spec fn saturating_sub(total: u64, sub: u64) -> u64 {
    if sub <= total {
        (total - sub) as u64
    } else {
        0
    }
}

impl ExportSettings {
    /// The trimmed frames cover the whole video, so there is nothing to export.
    pub open spec fn trims_everything(self, total_frames: u64) -> bool {
        self.trim_start_frames + self.trim_end_frames >= total_frames
    }

    /// First and last frame to export, where the trims leave any.
    pub open spec fn export_range(self, total_frames: u64) -> Option<(u64, u64)> {
        let end = saturating_sub(total_frames, (self.trim_end_frames + 1) as u64);
        if self.trim_start_frames <= end {
            Some((self.trim_start_frames, end))
        } else {
            None
        }
    }

    /// Whether the trims leave no frame of a `total_frames`-frame video.
    pub fn trims_whole_video(&self, total_frames: u64) -> (r: bool)
        requires
            self.trim_start_frames + self.trim_end_frames <= u64::MAX,
        ensures
            r == self.trims_everything(total_frames),
    {
        self.trim_start_frames + self.trim_end_frames >= total_frames
    }

    /// First and last frame (inclusive) that an export encodes; `None` when the
    /// trims leave nothing.
    pub fn frame_range(&self, total_frames: u64) -> (r: Option<(u64, u64)>)
        requires
            self.trim_end_frames < u64::MAX,
        ensures
            r == self.export_range(total_frames),
    {
        let end = total_frames.saturating_sub(self.trim_end_frames + 1);
        if self.trim_start_frames > end {
            None
        } else {
            Some((self.trim_start_frames, end))
        }
    }
}

/// The frames an export encodes are there exactly when the trims do not cover
/// the video, and then they number the frames left by the trims. (Where the end
/// trim alone covers the video and nothing is trimmed at the start, the range
/// saturates to frame 0 instead; the export is refused before that by
/// `trims_whole_video`.)
pub proof fn lemma_export_range_matches_trims(settings: ExportSettings, total_frames: u64)
    requires
        settings.trim_start_frames + settings.trim_end_frames <= u64::MAX,
        settings.trim_end_frames < u64::MAX,
        settings.trim_end_frames < total_frames || settings.trim_start_frames > 0,
    ensures
        settings.export_range(total_frames) is Some <==> !settings.trims_everything(total_frames),
        settings.export_range(total_frames) matches Some((first, last)) ==> last - first + 1
            == total_frames - settings.trim_start_frames - settings.trim_end_frames,
{
}

/// Geometry of a mosaic rectangle at one frame: centre, size and rotation in
/// degrees. Each field holds the IEEE-754 bit pattern of an `f32`; the library
/// stores, copies and compares these patterns and never computes with them.
#[derive(Clone, Copy, Debug, PartialEq, Eq, Structural)]
pub struct InterpValues {
    pub center_x_bits: u32,
    pub center_y_bits: u32,
    pub width_bits: u32,
    pub height_bits: u32,
    pub rotation_deg_bits: u32,
}

/// The geometry of a mosaic rectangle fixed at one frame.
#[derive(Clone, Copy, Debug, PartialEq, Eq, Structural)]
pub struct MosaicKeyframe {
    pub frame: u64,
    pub values: InterpValues,
}

impl InterpValues {
    pub fn from_keyframe(kf: &MosaicKeyframe) -> (r: InterpValues)
        ensures
            r == kf.values,
    {
        kf.values
    }
}

/// How the geometry at a frame follows from the keyframes.
#[derive(Clone, Copy, Debug, PartialEq, Eq, Structural)]
pub enum Interpolation {
    /// The values of one keyframe apply unchanged.
    Hold(InterpValues),
    /// Linear blend `prev + (next - prev) * t` with `t = num / den`.
    Blend { prev: InterpValues, next: InterpValues, num: u64, den: u64 },
}

/// A rectangle to pixelate over a span of frames, with its keyframe track.
#[derive(Debug)]
pub struct MosaicRegion {
    pub id: String,
    pub name: String,
    pub start_frame: u64,
    pub end_frame: u64,
    pub mosaic_size: u32,
    pub keyframes: Vec<MosaicKeyframe>,
}

/// The value of a mosaic region, with its strings and keyframes as sequences.
pub struct RegionView {
    pub id: Seq<char>,
    pub name: Seq<char>,
    pub start_frame: u64,
    pub end_frame: u64,
    pub mosaic_size: u32,
    pub keyframes: Seq<MosaicKeyframe>,
}

impl View for MosaicRegion {
    type V = RegionView;

    open spec fn view(&self) -> RegionView {
        RegionView {
            id: self.id@,
            name: self.name@,
            start_frame: self.start_frame,
            end_frame: self.end_frame,
            mosaic_size: self.mosaic_size,
            keyframes: self.keyframes@,
        }
    }
}

impl Clone for MosaicRegion {
    fn clone(&self) -> (r: Self)
        ensures
            r@ == self@,
    {
        let keyframes = self.keyframes.clone();
        assert(keyframes@ =~= self.keyframes@);
        MosaicRegion {
            id: self.id.clone(),
            name: self.name.clone(),
            start_frame: self.start_frame,
            end_frame: self.end_frame,
            mosaic_size: self.mosaic_size,
            keyframes,
        }
    }
}

/// How far apart two frames are.
pub open spec fn frame_distance(a: u64, b: u64) -> int {
    if a >= b {
        a - b
    } else {
        b - a
    }
}

/// Keyframe `i` is the one nearest to `frame`, the first among equally near ones.
pub open spec fn is_nearest(kfs: Seq<MosaicKeyframe>, i: int, frame: u64) -> bool {
    &&& 0 <= i < kfs.len()
    &&& forall|j: int| 0 <= j < kfs.len() ==> frame_distance(kfs[i].frame, frame) <= frame_distance(
        #[trigger] kfs[j].frame,
        frame,
    )
    &&& forall|j: int| 0 <= j < i ==> frame_distance(kfs[i].frame, frame) < frame_distance(
        #[trigger] kfs[j].frame,
        frame,
    )
}

/// The id of the `counter`-th mosaic: `mosaic_` and the number in four digits.
pub open spec fn mosaic_id_text(counter: u32) -> Seq<char> {
    "mosaic_"@ + zero_padded(counter as nat, 4)
}

/// The display name of the `counter`-th mosaic.
pub open spec fn mosaic_name_text(counter: u32) -> Seq<char> {
    "Mosaic "@ + decimal(counter as nat)
}

pub fn mosaic_id(counter: u32) -> (r: String)
    ensures
        r@ == mosaic_id_text(counter),
{
    let mut s = String::from_str("mosaic_");
    push_zero_padded(&mut s, counter as u64, 4);
    s
}

pub fn mosaic_name(counter: u32) -> (r: String)
    ensures
        r@ == mosaic_name_text(counter),
{
    let mut s = String::from_str("Mosaic ");
    push_decimal(&mut s, counter as u64);
    s
}

/// Pixel size of the mosaic blocks of a new region.
pub const DEFAULT_MOSAIC_SIZE: u32 = 16;

impl MosaicRegion {
    /// A region over `start_frame..=end_frame` with one keyframe.
    pub fn new(
        id: String,
        name: String,
        start_frame: u64,
        end_frame: u64,
        initial_kf: MosaicKeyframe,
    ) -> (r: Self)
        ensures
            r@ == (RegionView {
                id: id@,
                name: name@,
                start_frame,
                end_frame,
                mosaic_size: DEFAULT_MOSAIC_SIZE,
                keyframes: seq![initial_kf],
            }),
    {
        let keyframes = vec![initial_kf];
        assert(keyframes@ =~= seq![initial_kf]);
        MosaicRegion { id, name, start_frame, end_frame, mosaic_size: DEFAULT_MOSAIC_SIZE, keyframes }
    }

    /// The `counter`-th mosaic drawn by the user at `current_frame` with the
    /// geometry `values`: it runs from there to the last frame of the video.
    pub fn new_numbered(counter: u32, current_frame: u64, total_frames: u64, values: InterpValues) -> (r: Self)
        ensures
            r@ == (RegionView {
                id: mosaic_id_text(counter),
                name: mosaic_name_text(counter),
                start_frame: current_frame,
                end_frame: if total_frames > 0 {
                    (total_frames - 1) as u64
                } else {
                    0
                },
                mosaic_size: DEFAULT_MOSAIC_SIZE,
                keyframes: seq![MosaicKeyframe { frame: current_frame, values }],
            }),
    {
        let kf = MosaicKeyframe { frame: current_frame, values };
        MosaicRegion::new(
            mosaic_id(counter),
            mosaic_name(counter),
            current_frame,
            total_frames.saturating_sub(1),
            kf,
        )
    }

    /// Index of the keyframe nearest to `frame`, the first among equally near
    /// ones; `None` when there are no keyframes.
    pub fn nearest_keyframe(&self, frame: u64) -> (r: Option<usize>)
        ensures
            r is None <==> self.keyframes@.len() == 0,
            r matches Some(i) ==> is_nearest(self.keyframes@, i as int, frame),
    {
        let kfs = &self.keyframes;
        let n = kfs.len();
        if n == 0 {
            return None;
        }
        let mut best: usize = 0;
        let mut best_dist: u64 = if kfs[0].frame >= frame {
            kfs[0].frame - frame
        } else {
            frame - kfs[0].frame
        };
        let mut i: usize = 1;
        while i < n
            invariant
                n == kfs@.len(),
                1 <= i <= n,
                best < i,
                best_dist == frame_distance(kfs@[best as int].frame, frame),
                forall|j: int| 0 <= j < i ==> best_dist <= frame_distance(#[trigger] kfs@[j].frame, frame),
                forall|j: int| 0 <= j < best ==> best_dist < frame_distance(#[trigger] kfs@[j].frame, frame),
            decreases n - i,
        {
            let f = kfs[i].frame;
            let d = if f >= frame {
                f - frame
            } else {
                frame - f
            };
            if d < best_dist {
                best = i;
                best_dist = d;
            }
            i = i + 1;
        }
        Some(best)
    }

    /// Whether the region applies at `frame`.
    pub fn is_active_at(&self, frame: u64) -> (r: bool)
        ensures
            r == (self.start_frame <= frame && frame <= self.end_frame),
    {
        frame >= self.start_frame && frame <= self.end_frame
    }

    /// How the geometry at `frame` follows from the keyframes; `None` exactly
    /// when there are no keyframes.
    pub fn interpolate(&self, frame: u64) -> (r: Option<Interpolation>)
        ensures
            r == interpolation_at(self.keyframes@, frame),
            r is Some <==> self.keyframes@.len() > 0,
            self.keyframes@.len() > 0 && frame <= self.keyframes@[0].frame ==> r == Some(
                Interpolation::Hold(self.keyframes@[0].values),
            ),
            self.keyframes@.len() > 0 && self.keyframes@[0].frame < frame
                && self.keyframes@.last().frame <= frame ==> r == Some(
                Interpolation::Hold(self.keyframes@.last().values),
            ),
            self.keyframes@.len() > 0 && self.keyframes@[0].frame < frame < self.keyframes@.last().frame
                ==> exists|i: int|
                #[trigger] first_segment(self.keyframes@, i, frame) && r == Some(
                    Interpolation::Blend {
                        prev: self.keyframes@[i].values,
                        next: self.keyframes@[i + 1].values,
                        num: (frame - self.keyframes@[i].frame) as u64,
                        den: (self.keyframes@[i + 1].frame - self.keyframes@[i].frame) as u64,
                    },
                ),
    {
        proof {
            if self.keyframes@.len() > 0 {
                lemma_interpolation_cases(self.keyframes@, frame);
            }
        }
        let kfs = &self.keyframes;
        if kfs.len() == 0 {
            return None;
        }
        if frame <= kfs[0].frame {
            return Some(Interpolation::Hold(kfs[0].values));
        }
        let last = kfs[kfs.len() - 1];
        if frame >= last.frame {
            return Some(Interpolation::Hold(last.values));
        }
        let n = kfs.len();
        let mut i: usize = 0;
        while i < n - 1
            invariant
                kfs@ == self.keyframes@,
                n == kfs@.len(),
                n >= 1,
                i <= n - 1,
                kfs@[0].frame < frame,
                kfs@[i as int].frame < frame,
                frame < kfs@[n - 1].frame,
                forall|j: int| 0 <= j < i ==> !#[trigger] in_segment(kfs@, j, frame),
            decreases n - 1 - i,
        {
            let prev = kfs[i];
            let next = kfs[i + 1];
            if frame >= prev.frame && frame <= next.frame {
                proof {
                    assert(first_segment(kfs@, i as int, frame));
                    let c = choose|c: int| first_segment(kfs@, c, frame);
                    if c < i {
                        assert(!in_segment(kfs@, c, frame));
                    } else if c > i {
                        assert(!in_segment(kfs@, i as int, frame));
                    }
                }
                return Some(
                    Interpolation::Blend {
                        prev: prev.values,
                        next: next.values,
                        num: frame - prev.frame,
                        den: next.frame - prev.frame,
                    },
                );
            }
            i = i + 1;
        }
        None
    }

    /// Puts `kf` on the track: it replaces the first keyframe at its frame, or,
    /// where there is none, joins the track, which is then stably sorted by frame.
    pub fn set_keyframe(&mut self, kf: MosaicKeyframe)
        ensures
            final(self).id == old(self).id,
            final(self).name == old(self).name,
            final(self).start_frame == old(self).start_frame,
            final(self).end_frame == old(self).end_frame,
            final(self).mosaic_size == old(self).mosaic_size,
            set_keyframe_result(old(self).keyframes@, kf, final(self).keyframes@),
    {
        match find_frame(&self.keyframes, kf.frame) {
            Some(i) => {
                self.keyframes.set(i, kf);
                return;
            },
            None => {},
        }
        self.keyframes.push(kf);
        self.keyframes = sort_by_frame(&self.keyframes);
    }

    /// Puts a keyframe with `values` at `frame`, unless one is already there or
    /// the track is empty; `values` is the geometry that `interpolate` gives there.
    pub fn ensure_keyframe_at(&mut self, frame: u64, values: InterpValues)
        ensures
            final(self).id == old(self).id,
            final(self).name == old(self).name,
            final(self).start_frame == old(self).start_frame,
            final(self).end_frame == old(self).end_frame,
            final(self).mosaic_size == old(self).mosaic_size,
            ensure_keyframe_result(old(self).keyframes@, frame, values, final(self).keyframes@),
    {
        if find_frame(&self.keyframes, frame).is_some() {
            return;
        }
        let n = self.keyframes.len();
        if n == 0 {
            return;
        }
        self.set_keyframe(MosaicKeyframe { frame, values });
    }

    /// Removes every keyframe at `frame`, keeping the others in order.
    pub fn remove_keyframe_at(&mut self, frame: u64)
        ensures
            final(self).id == old(self).id,
            final(self).name == old(self).name,
            final(self).start_frame == old(self).start_frame,
            final(self).end_frame == old(self).end_frame,
            final(self).mosaic_size == old(self).mosaic_size,
            final(self).keyframes@ == without_frame(old(self).keyframes@, frame),
    {
        let ghost pred = |k: MosaicKeyframe| k.frame != frame;
        let mut kept: Vec<MosaicKeyframe> = Vec::new();
        let n = self.keyframes.len();
        let mut i: usize = 0;
        while i < n
            invariant
                n == self.keyframes@.len(),
                i <= n,
                pred == (|k: MosaicKeyframe| k.frame != frame),
                kept@ == self.keyframes@.take(i as int).filter(pred),
            decreases n - i,
        {
            let k = self.keyframes[i];
            proof {
                let ks = self.keyframes@;
                assert(ks.take(i + 1) =~= ks.take(i as int).push(k));
                lemma_filter_push(ks.take(i as int), k, pred);
            }
            if k.frame != frame {
                assert(pred(k));
                kept.push(k);
            } else {
                assert(!pred(k));
            }
            assert(kept@ =~= self.keyframes@.take(i + 1).filter(pred));
            i = i + 1;
        }
        assert(self.keyframes@.take(n as int) =~= self.keyframes@);
        self.keyframes = kept;
    }
}


/// The regions of a list, as views.
pub open spec fn regions_view(ms: Seq<MosaicRegion>) -> Seq<RegionView> {
    ms.map_values(|m: MosaicRegion| m@)
}

/// Some region carries `id`.
pub open spec fn has_id(ms: Seq<RegionView>, id: Seq<char>) -> bool {
    exists|i: int| 0 <= i < ms.len() && ms[i].id == id
}

/// `i` is the first region carrying `id`.
pub open spec fn first_with_id(ms: Seq<RegionView>, i: int, id: Seq<char>) -> bool {
    &&& 0 <= i < ms.len()
    &&& ms[i].id == id
    &&& forall|j: int| 0 <= j < i ==> #[trigger] ms[j].id != id
}

/// Index of the first region carrying `id` (meaningful when `has_id`).
pub open spec fn index_of_id(ms: Seq<RegionView>, id: Seq<char>) -> int {
    choose|i: int| first_with_id(ms, i, id)
}

/// Index of the first region with `id`, if any.
pub fn find_mosaic(ms: &Vec<MosaicRegion>, id: &String) -> (r: Option<usize>)
    ensures
        r is None <==> !has_id(regions_view(ms@), id@),
        r matches Some(i) ==> i < ms@.len() && i as int == index_of_id(regions_view(ms@), id@),
{
    let ghost v = regions_view(ms@);
    let n = ms.len();
    let mut i: usize = 0;
    while i < n
        invariant
            n == ms@.len(),
            v == regions_view(ms@),
            i <= n,
            forall|j: int| 0 <= j < i ==> #[trigger] v[j].id != id@,
        decreases n - i,
    {
        if ms[i].id == *id {
            proof {
                assert(first_with_id(v, i as int, id@));
                let c = choose|c: int| first_with_id(v, c, id@);
                if c < i {
                    assert(v[c].id != id@);
                } else if c > i {
                    assert(v[i as int].id != id@);
                }
            }
            return Some(i);
        }
        i = i + 1;
    }
    None
}


/// The counter of the next mosaic drawn after the `counter`-th: the first
/// larger number whose id (`mosaic_id_text`) no region of `mosaics` carries, so
/// that a new mosaic never shares an id with one loaded from a project. `None`
/// when every larger number is taken up to the largest `u32`.
pub fn next_mosaic_counter(mosaics: &Vec<MosaicRegion>, counter: u32) -> (r: Option<u32>)
    ensures
        r matches Some(n) ==> {
            &&& counter < n
            &&& !has_id(regions_view(mosaics@), mosaic_id_text(n))
            &&& forall|m: u32| counter < m < n ==> has_id(regions_view(mosaics@), #[trigger] mosaic_id_text(m))
        },
        r is None ==> forall|m: u32| counter < m ==> has_id(regions_view(mosaics@), #[trigger] mosaic_id_text(m)),
{
    if counter == u32::MAX {
        return None;
    }
    let mut n: u32 = counter + 1;
    loop
        invariant
            counter < n,
            forall|m: u32| counter < m < n ==> has_id(regions_view(mosaics@), #[trigger] mosaic_id_text(m)),
        decreases u32::MAX - n,
    {
        let id = mosaic_id(n);
        if find_mosaic(mosaics, &id).is_none() {
            return Some(n);
        }
        if n == u32::MAX {
            return None;
        }
        n = n + 1;
    }
}

} // verus!
