use vstd::prelude::*;

use crate::model::{InterpValues, Interpolation, MosaicKeyframe};

verus! {

/// `frame` lies within the closed span of keyframes `i` and `i + 1`.
pub open spec fn in_segment(kfs: Seq<MosaicKeyframe>, i: int, frame: u64) -> bool {
    &&& 0 <= i < kfs.len() - 1
    &&& kfs[i].frame <= frame
    &&& frame <= kfs[i + 1].frame
}

/// `i` is the first segment that contains `frame`.
pub open spec fn first_segment(kfs: Seq<MosaicKeyframe>, i: int, frame: u64) -> bool {
    &&& in_segment(kfs, i, frame)
    &&& forall|j: int| 0 <= j < i ==> !#[trigger] in_segment(kfs, j, frame)
}

/// The geometry at `frame`: before the first keyframe the first applies, after
/// the last the last applies, in between the first segment holding the frame is
/// blended linearly by the frame's distance from its start.
pub open spec fn interpolation_at(kfs: Seq<MosaicKeyframe>, frame: u64) -> Option<Interpolation> {
    if kfs.len() == 0 {
        None
    } else if frame <= kfs[0].frame {
        Some(Interpolation::Hold(kfs[0].values))
    } else if frame >= kfs.last().frame {
        Some(Interpolation::Hold(kfs.last().values))
    } else if exists|i: int| first_segment(kfs, i, frame) {
        let i = choose|i: int| first_segment(kfs, i, frame);
        Some(
            Interpolation::Blend {
                prev: kfs[i].values,
                next: kfs[i + 1].values,
                num: (frame - kfs[i].frame) as u64,
                den: (kfs[i + 1].frame - kfs[i].frame) as u64,
            },
        )
    } else {
        None
    }
}

/// Some keyframe sits at `frame`.
pub open spec fn has_frame(kfs: Seq<MosaicKeyframe>, frame: u64) -> bool {
    exists|i: int| 0 <= i < kfs.len() && kfs[i].frame == frame
}

/// `i` is the first keyframe at `frame`.
pub open spec fn first_at_frame(kfs: Seq<MosaicKeyframe>, i: int, frame: u64) -> bool {
    &&& 0 <= i < kfs.len()
    &&& kfs[i].frame == frame
    &&& forall|j: int| 0 <= j < i ==> #[trigger] kfs[j].frame != frame
}

/// Index of the first keyframe at `frame` (meaningful when `has_frame`).
pub open spec fn index_of_frame(kfs: Seq<MosaicKeyframe>, frame: u64) -> int {
    choose|i: int| first_at_frame(kfs, i, frame)
}

/// Keyframes ascend by frame (ties allowed).
pub open spec fn sorted_by_frame(s: Seq<MosaicKeyframe>) -> bool {
    forall|i: int, j: int| 0 <= i <= j < s.len() ==> #[trigger] s[i].frame <= #[trigger] s[j].frame
}

/// Keyframes strictly ascend by frame: the well-formed shape of a track.
pub open spec fn strictly_sorted(s: Seq<MosaicKeyframe>) -> bool {
    forall|i: int, j: int| 0 <= i < j < s.len() ==> #[trigger] s[i].frame < #[trigger] s[j].frame
}

/// The keyframes at `frame`, in their order.
pub open spec fn frame_group(s: Seq<MosaicKeyframe>, frame: u64) -> Seq<MosaicKeyframe> {
    s.filter(|k: MosaicKeyframe| k.frame == frame)
}

/// `r` is `s` sorted by frame with a stable sort: ascending, and the keyframes
/// of each frame in the order they had in `s`.
pub open spec fn is_stable_sort_of(r: Seq<MosaicKeyframe>, s: Seq<MosaicKeyframe>) -> bool {
    &&& sorted_by_frame(r)
    &&& forall|f: u64| #[trigger] frame_group(r, f) == frame_group(s, f)
}

/// The track after `kf` is set on `old`: the first keyframe at its frame is
/// replaced by it; where there is none, `kf` joins and the track is stably
/// sorted by frame.
pub open spec fn set_keyframe_result(
    old: Seq<MosaicKeyframe>,
    kf: MosaicKeyframe,
    new: Seq<MosaicKeyframe>,
) -> bool {
    if has_frame(old, kf.frame) {
        new == old.update(index_of_frame(old, kf.frame), kf)
    } else {
        is_stable_sort_of(new, old.push(kf))
    }
}

/// The track after a keyframe with `values` is ensured at `frame`: unchanged if
/// one is there already or the track is empty, else the new keyframe is set.
pub open spec fn ensure_keyframe_result(
    old: Seq<MosaicKeyframe>,
    frame: u64,
    values: InterpValues,
    new: Seq<MosaicKeyframe>,
) -> bool {
    if has_frame(old, frame) || old.len() == 0 {
        new == old
    } else {
        set_keyframe_result(old, MosaicKeyframe { frame, values }, new)
    }
}

/// The track after the keyframes at `frame` are removed.
pub open spec fn without_frame(old: Seq<MosaicKeyframe>, frame: u64) -> Seq<MosaicKeyframe> {
    old.filter(|k: MosaicKeyframe| k.frame != frame)
}

pub(crate) proof fn lemma_filter_push<A>(s: Seq<A>, x: A, pred: spec_fn(A) -> bool)
    ensures
        s.push(x).filter(pred) == (if pred(x) { s.filter(pred).push(x) } else { s.filter(pred) }),
{
    reveal(Seq::filter);
    assert(s.push(x).drop_last() =~= s);
}

proof fn lemma_group_singleton(x: MosaicKeyframe, f: u64)
    ensures
        frame_group(seq![x], f) == (if x.frame == f { seq![x] } else { Seq::<MosaicKeyframe>::empty() }),
{
    reveal_with_fuel(Seq::filter, 2);
    assert(seq![x].drop_last() =~= Seq::<MosaicKeyframe>::empty());
}

proof fn lemma_group_absent(s: Seq<MosaicKeyframe>, f: u64)
    requires
        forall|i: int| 0 <= i < s.len() ==> #[trigger] s[i].frame != f,
    ensures
        frame_group(s, f) == Seq::<MosaicKeyframe>::empty(),
    decreases s.len(),
{
    reveal(Seq::filter);
    if s.len() > 0 {
        lemma_group_absent(s.drop_last(), f);
    }
}

proof fn lemma_group_push(s: Seq<MosaicKeyframe>, x: MosaicKeyframe, f: u64)
    ensures
        frame_group(s.push(x), f) == frame_group(s, f) + frame_group(seq![x], f),
{
    assert(s.push(x) =~= s + seq![x]);
    Seq::filter_distributes_over_add(s, seq![x], |k: MosaicKeyframe| k.frame == f);
}

/// Inserting `x` after every keyframe at or before its frame adds `x` to the end
/// of its own frame's group and leaves the other groups alone.
proof fn lemma_group_insert(r: Seq<MosaicKeyframe>, p: int, x: MosaicKeyframe, f: u64)
    requires
        0 <= p <= r.len(),
        forall|j: int| 0 <= j < p ==> #[trigger] r[j].frame <= x.frame,
        forall|j: int| p <= j < r.len() ==> #[trigger] r[j].frame > x.frame,
    ensures
        frame_group(r.insert(p, x), f) == frame_group(r, f) + frame_group(seq![x], f),
{
    let pred = |k: MosaicKeyframe| k.frame == f;
    let a = r.take(p);
    let b = r.skip(p);
    assert(r.insert(p, x) =~= a + (seq![x] + b));
    assert(r =~= a + b);
    Seq::filter_distributes_over_add(a, seq![x] + b, pred);
    Seq::filter_distributes_over_add(seq![x], b, pred);
    Seq::filter_distributes_over_add(a, b, pred);
    lemma_group_singleton(x, f);
    if f == x.frame {
        assert forall|i: int| 0 <= i < b.len() implies #[trigger] b[i].frame != f by {
            assert(b[i] == r[p + i]);
        }
        lemma_group_absent(b, f);
        assert(frame_group(r.insert(p, x), f) =~= frame_group(a, f) + seq![x]);
        assert(frame_group(r, f) =~= frame_group(a, f));
    } else {
        assert(frame_group(seq![x], f) + frame_group(b, f) =~= frame_group(b, f));
        assert(frame_group(r, f) + frame_group(seq![x], f) =~= frame_group(r, f));
    }
}

/// Sorts keyframes by frame, keeping the order of keyframes that share a frame.
pub(crate) fn sort_by_frame(v: &Vec<MosaicKeyframe>) -> (r: Vec<MosaicKeyframe>)
    ensures
        is_stable_sort_of(r@, v@),
{
    let mut r: Vec<MosaicKeyframe> = Vec::new();
    let mut k: usize = 0;
    while k < v.len()
        invariant
            k <= v.len(),
            sorted_by_frame(r@),
            forall|f: u64| #[trigger] frame_group(r@, f) == frame_group(v@.take(k as int), f),
        decreases v.len() - k,
    {
        let x = v[k];
        let mut p: usize = 0;
        while p < r.len() && r[p].frame <= x.frame
            invariant
                p <= r.len(),
                forall|j: int| 0 <= j < p ==> #[trigger] r@[j].frame <= x.frame,
            decreases r.len() - p,
        {
            p = p + 1;
        }
        let ghost old_r = r@;
        assert forall|j: int| p <= j < old_r.len() implies #[trigger] old_r[j].frame > x.frame by {
            assert(old_r[p as int].frame <= old_r[j].frame);
        }
        r.insert(p, x);
        assert(r@ == old_r.insert(p as int, x));
        assert forall|i: int, j: int| 0 <= i <= j < r@.len() implies #[trigger] r@[i].frame
            <= #[trigger] r@[j].frame by {
            if j < p {
            } else if j == p {
                if i < p {
                    assert(r@[i] == old_r[i]);
                }
            } else if i < p {
                assert(r@[i] == old_r[i]);
                assert(r@[j] == old_r[j - 1]);
            } else if i == p {
                assert(r@[j] == old_r[j - 1]);
            } else {
                assert(r@[i] == old_r[i - 1]);
                assert(r@[j] == old_r[j - 1]);
            }
        }
        assert forall|f: u64| #[trigger] frame_group(r@, f) == frame_group(
            v@.take(k + 1),
            f,
        ) by {
            lemma_group_insert(old_r, p as int, x, f);
            assert(v@.take(k + 1) =~= v@.take(k as int).push(x));
            lemma_group_push(v@.take(k as int), x, f);
        }
        k = k + 1;
    }
    assert(v@.take(v.len() as int) =~= v@);
    r
}


/// Index of the first keyframe at `frame`, if any.
pub(crate) fn find_frame(kfs: &Vec<MosaicKeyframe>, frame: u64) -> (r: Option<usize>)
    ensures
        r is None <==> !has_frame(kfs@, frame),
        r matches Some(i) ==> first_at_frame(kfs@, i as int, frame) && i as int == index_of_frame(
            kfs@,
            frame,
        ),
{
    let n = kfs.len();
    let mut i: usize = 0;
    while i < n
        invariant
            n == kfs@.len(),
            i <= n,
            forall|j: int| 0 <= j < i ==> #[trigger] kfs@[j].frame != frame,
        decreases n - i,
    {
        if kfs[i].frame == frame {
            proof {
                assert(first_at_frame(kfs@, i as int, frame));
                let c = choose|c: int| first_at_frame(kfs@, c, frame);
                if c < i {
                    assert(kfs@[c].frame != frame);
                } else if c > i {
                    assert(kfs@[i as int].frame != frame);
                }
            }
            return Some(i);
        }
        i = i + 1;
    }
    None
}

} // verus!

verus! {

proof fn lemma_group_of_last(r: Seq<MosaicKeyframe>, f: u64)
    requires
        r.len() > 0,
    ensures
        frame_group(r, f) == (if r.last().frame == f {
            frame_group(r.drop_last(), f).push(r.last())
        } else {
            frame_group(r.drop_last(), f)
        }),
{
    assert(r =~= r.drop_last().push(r.last()));
    lemma_filter_push(r.drop_last(), r.last(), |k: MosaicKeyframe| k.frame == f);
}

proof fn lemma_group_of_empty(r: Seq<MosaicKeyframe>, f: u64)
    requires
        r.len() == 0,
    ensures
        frame_group(r, f).len() == 0,
{
    reveal(Seq::filter);
}

proof fn lemma_sorted_drop_last(r: Seq<MosaicKeyframe>)
    requires
        sorted_by_frame(r),
        r.len() > 0,
    ensures
        sorted_by_frame(r.drop_last()),
        forall|i: int| 0 <= i < r.len() ==> #[trigger] r[i].frame <= r.last().frame,
{
    assert forall|i: int, j: int| 0 <= i <= j < r.drop_last().len() implies #[trigger] r.drop_last()[i].frame
        <= #[trigger] r.drop_last()[j].frame by {
        assert(r[i].frame <= r[j].frame);
    }
    assert forall|i: int| 0 <= i < r.len() implies #[trigger] r[i].frame <= r.last().frame by {
        assert(r[i].frame <= r[r.len() - 1].frame);
    }
}

/// Two tracks sorted by frame that hold the same keyframes at every frame, in
/// the same order, are the same track.
pub proof fn lemma_sorted_groups_determine(r1: Seq<MosaicKeyframe>, r2: Seq<MosaicKeyframe>)
    requires
        sorted_by_frame(r1),
        sorted_by_frame(r2),
        forall|f: u64| #[trigger] frame_group(r1, f) == frame_group(r2, f),
    ensures
        r1 == r2,
    decreases r1.len() + r2.len(),
{
    if r1.len() == 0 && r2.len() == 0 {
        assert(r1 =~= r2);
    } else if r1.len() == 0 {
        lemma_group_of_last(r2, r2.last().frame);
        lemma_group_of_empty(r1, r2.last().frame);
        assert(frame_group(r1, r2.last().frame) == frame_group(r2, r2.last().frame));
    } else if r2.len() == 0 {
        lemma_group_of_last(r1, r1.last().frame);
        lemma_group_of_empty(r2, r1.last().frame);
        assert(frame_group(r1, r1.last().frame) == frame_group(r2, r1.last().frame));
    } else {
        let x1 = r1.last();
        let x2 = r2.last();
        lemma_sorted_drop_last(r1);
        lemma_sorted_drop_last(r2);
        lemma_group_of_last(r1, x1.frame);
        lemma_group_of_last(r2, x2.frame);
        if x1.frame > x2.frame {
            lemma_group_absent(r2, x1.frame);
            assert(frame_group(r1, x1.frame) == frame_group(r2, x1.frame));
        }
        if x2.frame > x1.frame {
            lemma_group_absent(r1, x2.frame);
            assert(frame_group(r1, x2.frame) == frame_group(r2, x2.frame));
        }
        let m = x1.frame;
        let d1 = r1.drop_last();
        let d2 = r2.drop_last();
        assert(frame_group(r1, m) == frame_group(r2, m));
        assert(frame_group(r1, m).last() == x1);
        assert(frame_group(d1, m) =~= frame_group(r1, m).drop_last());
        assert(frame_group(d2, m) =~= frame_group(r2, m).drop_last());
        assert forall|f: u64| #[trigger] frame_group(d1, f) == frame_group(d2, f) by {
            lemma_group_of_last(r1, f);
            lemma_group_of_last(r2, f);
            assert(frame_group(r1, f) == frame_group(r2, f));
        }
        lemma_sorted_groups_determine(d1, d2);
        assert(r1 =~= d1.push(x1));
        assert(r2 =~= d2.push(x2));
    }
}

/// A stable sort has one result: `is_stable_sort_of` pins the track down.
pub proof fn lemma_stable_sort_unique(
    r1: Seq<MosaicKeyframe>,
    r2: Seq<MosaicKeyframe>,
    s: Seq<MosaicKeyframe>,
)
    requires
        is_stable_sort_of(r1, s),
        is_stable_sort_of(r2, s),
    ensures
        r1 == r2,
{
    assert forall|f: u64| #[trigger] frame_group(r1, f) == frame_group(r2, f) by {
        assert(frame_group(r1, f) == frame_group(s, f));
        assert(frame_group(r2, f) == frame_group(s, f));
    }
    lemma_sorted_groups_determine(r1, r2);
}


proof fn lemma_strict_drop_last(s: Seq<MosaicKeyframe>)
    requires
        strictly_sorted(s),
        s.len() > 0,
    ensures
        strictly_sorted(s.drop_last()),
        forall|i: int| 0 <= i < s.len() - 1 ==> #[trigger] s[i].frame < s.last().frame,
{
    assert forall|i: int, j: int| 0 <= i < j < s.drop_last().len() implies #[trigger] s.drop_last()[i].frame
        < #[trigger] s.drop_last()[j].frame by {
        assert(s[i].frame < s[j].frame);
    }
    assert forall|i: int| 0 <= i < s.len() - 1 implies #[trigger] s[i].frame < s.last().frame by {
        assert(s[i].frame < s[s.len() - 1].frame);
    }
}

/// A strictly ascending track holds at most one keyframe at any frame.
proof fn lemma_strict_group_len(s: Seq<MosaicKeyframe>, g: u64)
    requires
        strictly_sorted(s),
    ensures
        frame_group(s, g).len() <= 1,
    decreases s.len(),
{
    if s.len() == 0 {
        lemma_group_of_empty(s, g);
    } else {
        let d = s.drop_last();
        lemma_strict_drop_last(s);
        lemma_group_of_last(s, g);
        if s.last().frame == g {
            assert forall|i: int| 0 <= i < d.len() implies #[trigger] d[i].frame != g by {
                assert(s[i].frame < s.last().frame);
            }
            lemma_group_absent(d, g);
        } else {
            lemma_strict_group_len(d, g);
        }
    }
}

/// Two keyframes at one frame put two keyframes in that frame's group.
proof fn lemma_two_in_group(s: Seq<MosaicKeyframe>, i: int, j: int)
    requires
        0 <= i < j < s.len(),
        s[i].frame == s[j].frame,
    ensures
        frame_group(s, s[i].frame).len() >= 2,
{
    let g = s[i].frame;
    let pred = |k: MosaicKeyframe| k.frame == g;
    let a = s.take(j);
    let b = s.skip(j);
    assert(s =~= a + b);
    Seq::filter_distributes_over_add(a, b, pred);
    assert(a[i] == s[i]);
    a.lemma_filter_contains(pred, i);
    assert(b[0] == s[j]);
    b.lemma_filter_contains(pred, 0);
}

/// A track sorted by frame with at most one keyframe per frame ascends strictly.
proof fn lemma_small_groups_strict(s: Seq<MosaicKeyframe>)
    requires
        sorted_by_frame(s),
        forall|g: u64| #[trigger] frame_group(s, g).len() <= 1,
    ensures
        strictly_sorted(s),
{
    assert forall|i: int, j: int| 0 <= i < j < s.len() implies #[trigger] s[i].frame
        < #[trigger] s[j].frame by {
        assert(s[i].frame <= s[j].frame);
        if s[i].frame == s[j].frame {
            lemma_two_in_group(s, i, j);
            assert(frame_group(s, s[i].frame).len() <= 1);
        }
    }
}

proof fn lemma_first_at_frame_exists(kfs: Seq<MosaicKeyframe>, frame: u64, k: int)
    requires
        0 <= k < kfs.len(),
        kfs[k].frame == frame,
    ensures
        first_at_frame(kfs, index_of_frame(kfs, frame), frame),
    decreases k,
{
    if exists|j: int| 0 <= j < k && #[trigger] kfs[j].frame == frame {
        let j = choose|j: int| 0 <= j < k && #[trigger] kfs[j].frame == frame;
        lemma_first_at_frame_exists(kfs, frame, j);
    } else {
        assert(first_at_frame(kfs, k, frame));
    }
}

/// Replacing a keyframe by one at the same frame changes only that frame's group.
proof fn lemma_group_update(s: Seq<MosaicKeyframe>, i: int, kf: MosaicKeyframe, g: u64)
    requires
        0 <= i < s.len(),
        s[i].frame == kf.frame,
    ensures
        g != kf.frame ==> frame_group(s.update(i, kf), g) == frame_group(s, g),
        strictly_sorted(s) && g == kf.frame ==> frame_group(s.update(i, kf), g) == seq![kf],
{
    let pred = |k: MosaicKeyframe| k.frame == g;
    let a = s.take(i);
    let b = s.skip(i + 1);
    assert(s =~= a + (seq![s[i]] + b));
    assert(s.update(i, kf) =~= a + (seq![kf] + b));
    Seq::filter_distributes_over_add(a, seq![s[i]] + b, pred);
    Seq::filter_distributes_over_add(seq![s[i]], b, pred);
    Seq::filter_distributes_over_add(a, seq![kf] + b, pred);
    Seq::filter_distributes_over_add(seq![kf], b, pred);
    lemma_group_singleton(s[i], g);
    lemma_group_singleton(kf, g);
    if strictly_sorted(s) && g == kf.frame {
        assert forall|j: int| 0 <= j < a.len() implies #[trigger] a[j].frame != g by {
            assert(s[j].frame < s[i].frame);
        }
        assert forall|j: int| 0 <= j < b.len() implies #[trigger] b[j].frame != g by {
            assert(s[i].frame < s[i + 1 + j].frame);
        }
        lemma_group_absent(a, g);
        lemma_group_absent(b, g);
        assert(frame_group(s.update(i, kf), g) =~= seq![kf]);
    }
}

/// Setting `kf` on a strictly ascending track keeps it strictly ascending; the
/// track then holds exactly `kf` at `kf.frame` and the same keyframes as before
/// at every other frame.
pub proof fn lemma_set_keyframe_strict(
    old: Seq<MosaicKeyframe>,
    kf: MosaicKeyframe,
    new: Seq<MosaicKeyframe>,
)
    requires
        strictly_sorted(old),
        set_keyframe_result(old, kf, new),
    ensures
        strictly_sorted(new),
        frame_group(new, kf.frame) == seq![kf],
        forall|g: u64| g != kf.frame ==> #[trigger] frame_group(new, g) == frame_group(old, g),
{
    if has_frame(old, kf.frame) {
        let k = choose|k: int| 0 <= k < old.len() && old[k].frame == kf.frame;
        lemma_first_at_frame_exists(old, kf.frame, k);
        let i = index_of_frame(old, kf.frame);
        assert forall|g: u64| g != kf.frame implies #[trigger] frame_group(new, g) == frame_group(
            old,
            g,
        ) by {
            lemma_group_update(old, i, kf, g);
        }
        lemma_group_update(old, i, kf, kf.frame);
        assert forall|a: int, b: int| 0 <= a < b < new.len() implies #[trigger] new[a].frame
            < #[trigger] new[b].frame by {
            assert(old[a].frame < old[b].frame);
        }
    } else {
        lemma_group_push(old, kf, kf.frame);
        lemma_group_singleton(kf, kf.frame);
        assert forall|j: int| 0 <= j < old.len() implies #[trigger] old[j].frame != kf.frame by {
            if old[j].frame == kf.frame {
                assert(has_frame(old, kf.frame));
            }
        }
        lemma_group_absent(old, kf.frame);
        assert(frame_group(old, kf.frame) + seq![kf] =~= seq![kf]);
        assert forall|g: u64| g != kf.frame implies #[trigger] frame_group(new, g) == frame_group(
            old,
            g,
        ) by {
            lemma_group_push(old, kf, g);
            lemma_group_singleton(kf, g);
            assert(frame_group(old, g) + Seq::<MosaicKeyframe>::empty() =~= frame_group(old, g));
        }
        assert forall|g: u64| #[trigger] frame_group(new, g).len() <= 1 by {
            if g != kf.frame {
                lemma_strict_group_len(old, g);
            }
        }
        lemma_small_groups_strict(new);
    }
}


/// After a keyframe is ensured at `frame`, the track has one there exactly when
/// it was not empty; one already there is kept as it was and never doubled; a
/// new one carries the given values; strict ascent is kept.
pub proof fn lemma_ensure_keyframe(
    old: Seq<MosaicKeyframe>,
    frame: u64,
    values: InterpValues,
    new: Seq<MosaicKeyframe>,
)
    requires
        ensure_keyframe_result(old, frame, values, new),
    ensures
        has_frame(new, frame) <==> old.len() > 0,
        has_frame(old, frame) ==> new == old,
        !has_frame(old, frame) && old.len() > 0 ==> frame_group(new, frame) == seq![
            MosaicKeyframe { frame, values },
        ],
        strictly_sorted(old) ==> strictly_sorted(new),
{
    let kf = MosaicKeyframe { frame, values };
    if !has_frame(old, frame) && old.len() > 0 {
        lemma_group_push(old, kf, frame);
        lemma_group_singleton(kf, frame);
        assert forall|j: int| 0 <= j < old.len() implies #[trigger] old[j].frame != frame by {
            if old[j].frame == frame {
                assert(has_frame(old, frame));
            }
        }
        lemma_group_absent(old, frame);
        assert(frame_group(old, frame) + seq![kf] =~= seq![kf]);
        assert(frame_group(new, frame) == seq![kf]);
        assert(frame_group(new, frame)[0] == kf);
        assert(new.filter(|k: MosaicKeyframe| k.frame == frame).contains(kf));
        new.lemma_filter_contains_rev(|k: MosaicKeyframe| k.frame == frame, kf);
        let i = choose|i: int| 0 <= i < new.len() && new[i] == kf;
        assert(new[i].frame == frame);
        if strictly_sorted(old) {
            lemma_set_keyframe_strict(old, kf, new);
        }
    }
}

proof fn lemma_without_frame_last(old: Seq<MosaicKeyframe>, frame: u64)
    requires
        old.len() > 0,
    ensures
        without_frame(old, frame) == (if old.last().frame != frame {
            without_frame(old.drop_last(), frame).push(old.last())
        } else {
            without_frame(old.drop_last(), frame)
        }),
{
    assert(old =~= old.drop_last().push(old.last()));
    lemma_filter_push(old.drop_last(), old.last(), |k: MosaicKeyframe| k.frame != frame);
}

/// Removing the keyframes at `frame` leaves none there, keeps the keyframes of
/// every other frame in their order, and keeps strict ascent.
pub proof fn lemma_remove_keyframe(old: Seq<MosaicKeyframe>, frame: u64)
    ensures
        !has_frame(without_frame(old, frame), frame),
        forall|g: u64| g != frame ==> #[trigger] frame_group(without_frame(old, frame), g)
            == frame_group(old, g),
        strictly_sorted(old) ==> strictly_sorted(without_frame(old, frame)),
    decreases old.len(),
{
    let pred = |k: MosaicKeyframe| k.frame != frame;
    let w = without_frame(old, frame);
    assert forall|i: int| 0 <= i < w.len() implies #[trigger] w[i].frame != frame by {
        old.lemma_filter_pred(pred, i);
    }
    if old.len() == 0 {
        reveal(Seq::filter);
        assert forall|g: u64| g != frame implies #[trigger] frame_group(w, g) == frame_group(
            old,
            g,
        ) by {
            assert(w =~= old);
        }
    } else {
        let d = old.drop_last();
        let x = old.last();
        lemma_remove_keyframe(d, frame);
        lemma_without_frame_last(old, frame);
        let wd = without_frame(d, frame);
        assert forall|g: u64| g != frame implies #[trigger] frame_group(w, g) == frame_group(
            old,
            g,
        ) by {
            lemma_group_of_last(old, g);
            if x.frame != frame {
                lemma_group_push(wd, x, g);
                lemma_group_push(d, x, g);
                assert(old =~= d.push(x));
            } else {
                assert(frame_group(wd, g) == frame_group(d, g));
            }
        }
        if strictly_sorted(old) {
            lemma_strict_drop_last(old);
            if x.frame != frame {
                assert forall|a: int, b: int| 0 <= a < b < w.len() implies #[trigger] w[a].frame
                    < #[trigger] w[b].frame by {
                    if b == w.len() - 1 {
                        assert(wd.contains(wd[a]));
                        d.lemma_filter_contains_rev(pred, wd[a]);
                        let k = choose|k: int| 0 <= k < d.len() && d[k] == wd[a];
                        assert(old[k].frame < x.frame);
                    } else {
                        assert(wd[a].frame < wd[b].frame);
                    }
                }
            }
        }
    }
}

proof fn lemma_first_segment_unique(kfs: Seq<MosaicKeyframe>, i: int, frame: u64)
    requires
        first_segment(kfs, i, frame),
    ensures
        exists|c: int| first_segment(kfs, c, frame),
        (choose|c: int| first_segment(kfs, c, frame)) == i,
{
    let c = choose|c: int| first_segment(kfs, c, frame);
    if c < i {
        assert(!in_segment(kfs, c, frame));
    } else if c > i {
        assert(!in_segment(kfs, i, frame));
    }
}

/// On a strictly ascending track, the geometry at a keyframe's own frame is that
/// keyframe's: held as it is at either end, and in between reached as the end
/// of a blend with full weight (`num == den`).
pub proof fn lemma_interpolation_at_keyframe(kfs: Seq<MosaicKeyframe>, k: int)
    requires
        strictly_sorted(kfs),
        0 <= k < kfs.len(),
    ensures
        interpolation_at(kfs, kfs[k].frame) == (if k == 0 {
            Some(Interpolation::Hold(kfs[0].values))
        } else if k == kfs.len() - 1 {
            Some(Interpolation::Hold(kfs[k].values))
        } else {
            Some(
                Interpolation::Blend {
                    prev: kfs[k - 1].values,
                    next: kfs[k].values,
                    num: (kfs[k].frame - kfs[k - 1].frame) as u64,
                    den: (kfs[k].frame - kfs[k - 1].frame) as u64,
                },
            )
        }),
{
    let frame = kfs[k].frame;
    if k == 0 {
    } else if k == kfs.len() - 1 {
        assert(kfs[0].frame < kfs[k].frame);
    } else {
        assert(kfs[0].frame < kfs[k].frame);
        assert(kfs[k].frame < kfs[kfs.len() - 1].frame);
        assert forall|j: int| 0 <= j < k - 1 implies !#[trigger] in_segment(kfs, j, frame) by {
            assert(kfs[j + 1].frame < kfs[k].frame);
        }
        lemma_first_segment_unique(kfs, k - 1, frame);
    }
}

/// Between the first keyframe and a later keyframe `j` at or after `frame`,
/// some segment holds `frame`.
proof fn lemma_segment_exists(kfs: Seq<MosaicKeyframe>, frame: u64, j: int)
    requires
        1 <= j < kfs.len(),
        kfs[0].frame < frame,
        frame <= kfs[j].frame,
    ensures
        exists|i: int| in_segment(kfs, i, frame),
    decreases j,
{
    if kfs[j - 1].frame <= frame {
        assert(in_segment(kfs, j - 1, frame));
    } else {
        lemma_segment_exists(kfs, frame, j - 1);
    }
}

/// Among segments up to `i`, one holding `frame`, the first one holds it.
proof fn lemma_first_segment_exists(kfs: Seq<MosaicKeyframe>, frame: u64, i: int)
    requires
        in_segment(kfs, i, frame),
    ensures
        exists|c: int| first_segment(kfs, c, frame),
    decreases i,
{
    if forall|j: int| 0 <= j < i ==> !#[trigger] in_segment(kfs, j, frame) {
        assert(first_segment(kfs, i, frame));
    } else {
        let j = choose|j: int| 0 <= j < i && #[trigger] in_segment(kfs, j, frame);
        lemma_first_segment_exists(kfs, frame, j);
    }
}

/// The geometry at a frame, for any track with keyframes: up to the first
/// keyframe's frame it is the first keyframe's, held; from the last keyframe's
/// frame on (past the first) it is the last keyframe's, held; strictly between
/// them it is a blend of the first pair of neighbouring keyframes whose span
/// holds the frame, weighted by the frame's distance from the earlier one over
/// the span's length.
pub proof fn lemma_interpolation_cases(kfs: Seq<MosaicKeyframe>, frame: u64)
    requires
        kfs.len() > 0,
    ensures
        frame <= kfs[0].frame ==> interpolation_at(kfs, frame) == Some(
            Interpolation::Hold(kfs[0].values),
        ),
        kfs[0].frame < frame && kfs[kfs.len() - 1].frame <= frame ==> interpolation_at(kfs, frame)
            == Some(Interpolation::Hold(kfs[kfs.len() - 1].values)),
        kfs[0].frame < frame < kfs[kfs.len() - 1].frame ==> exists|i: int|
            #[trigger] first_segment(kfs, i, frame) && interpolation_at(kfs, frame) == Some(
                Interpolation::Blend {
                    prev: kfs[i].values,
                    next: kfs[i + 1].values,
                    num: (frame - kfs[i].frame) as u64,
                    den: (kfs[i + 1].frame - kfs[i].frame) as u64,
                },
            ),
{
    let n = kfs.len() as int;
    if kfs[0].frame < frame < kfs[n - 1].frame {
        lemma_segment_exists(kfs, frame, n - 1);
        let i = choose|i: int| in_segment(kfs, i, frame);
        lemma_first_segment_exists(kfs, frame, i);
        let c = choose|c: int| first_segment(kfs, c, frame);
        assert(first_segment(kfs, c, frame));
    }
}

/// A blend's weight `num / den` lies in `[0, 1]`; on a strictly ascending
/// track it is never zero and `den` is positive.
pub proof fn lemma_interpolation_weight(kfs: Seq<MosaicKeyframe>, frame: u64)
    ensures
        interpolation_at(kfs, frame) matches Some(Interpolation::Blend { num, den, .. }) ==> {
            &&& num <= den
            &&& strictly_sorted(kfs) ==> 0 < num && 0 < den
        },
{
    if kfs.len() > 0 && kfs[0].frame < frame && frame < kfs.last().frame && exists|i: int|
        first_segment(kfs, i, frame) {
        let i = choose|i: int| first_segment(kfs, i, frame);
        assert(in_segment(kfs, i, frame));
        if strictly_sorted(kfs) {
            assert(kfs[i].frame < kfs[i + 1].frame);
            if i > 0 {
                assert(!in_segment(kfs, i - 1, frame));
                assert(kfs[i - 1].frame < kfs[i].frame);
            }
        }
    }
}


/// A sorted track without a keyframe at `frame` splits into the keyframes
/// before `frame` and those after it.
proof fn lemma_split_point(s: Seq<MosaicKeyframe>, frame: u64) -> (p: int)
    requires
        sorted_by_frame(s),
        !has_frame(s, frame),
    ensures
        0 <= p <= s.len(),
        forall|j: int| 0 <= j < p ==> #[trigger] s[j].frame < frame,
        forall|j: int| p <= j < s.len() ==> #[trigger] s[j].frame > frame,
    decreases s.len(),
{
    if s.len() == 0 {
        0
    } else {
        let d = s.drop_last();
        lemma_sorted_drop_last(s);
        assert(!has_frame(d, frame)) by {
            if has_frame(d, frame) {
                let k = choose|k: int| 0 <= k < d.len() && d[k].frame == frame;
                assert(s[k].frame == frame);
            }
        }
        let q = lemma_split_point(d, frame);
        if s.last().frame < frame {
            assert forall|j: int| 0 <= j < s.len() implies #[trigger] s[j].frame < frame by {
                assert(s[j].frame <= s.last().frame);
            }
            s.len() as int
        } else {
            assert(s[s.len() - 1].frame != frame);
            assert forall|j: int| q <= j < s.len() implies #[trigger] s[j].frame > frame by {
                if j < s.len() - 1 {
                    assert(d[j] == s[j]);
                }
            }
            assert forall|j: int| 0 <= j < q implies #[trigger] s[j].frame < frame by {
                assert(d[j] == s[j]);
            }
            q
        }
    }
}

/// On a strictly ascending track, setting `kf` either replaces the keyframe at
/// its frame, keeping the length, or inserts `kf` where its frame belongs, after
/// every earlier keyframe and before every later one, adding one keyframe.
pub proof fn lemma_set_keyframe_shape(
    old: Seq<MosaicKeyframe>,
    kf: MosaicKeyframe,
    new: Seq<MosaicKeyframe>,
)
    requires
        strictly_sorted(old),
        set_keyframe_result(old, kf, new),
    ensures
        has_frame(old, kf.frame) ==> new.len() == old.len(),
        !has_frame(old, kf.frame) ==> new.len() == old.len() + 1,
        !has_frame(old, kf.frame) ==> exists|p: int|
            {
                &&& 0 <= p <= old.len()
                &&& new == old.insert(p, kf)
                &&& forall|j: int| 0 <= j < p ==> #[trigger] old[j].frame < kf.frame
                &&& forall|j: int| p <= j < old.len() ==> #[trigger] old[j].frame > kf.frame
            },
{
    if !has_frame(old, kf.frame) {
        assert forall|i: int, j: int| 0 <= i <= j < old.len() implies #[trigger] old[i].frame
            <= #[trigger] old[j].frame by {
            if i < j {
                assert(old[i].frame < old[j].frame);
            }
        }
        let p = lemma_split_point(old, kf.frame);
        let c = old.insert(p, kf);
        assert forall|i: int, j: int| 0 <= i <= j < c.len() implies #[trigger] c[i].frame
            <= #[trigger] c[j].frame by {
            if j < p {
                assert(c[i] == old[i] && c[j] == old[j]);
            } else if j == p {
                if i < p {
                    assert(c[i] == old[i]);
                }
            } else if i < p {
                assert(c[i] == old[i]);
                assert(c[j] == old[j - 1]);
            } else if i == p {
                assert(c[j] == old[j - 1]);
            } else {
                assert(c[i] == old[i - 1]);
                assert(c[j] == old[j - 1]);
            }
        }
        assert forall|f: u64| #[trigger] frame_group(new, f) == frame_group(c, f) by {
            lemma_group_insert(old, p, kf, f);
            lemma_group_push(old, kf, f);
        }
        lemma_sorted_groups_determine(new, c);
    } else {
        let k = choose|k: int| 0 <= k < old.len() && old[k].frame == kf.frame;
        lemma_first_at_frame_exists(old, kf.frame, k);
    }
}

} // verus!
