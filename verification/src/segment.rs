//! Clip segmentation: turns scene-boundary timestamps (or nothing) plus
//! duration constraints into an ordered, non-overlapping sequence of clips.
//!
//! The model works over mathematical integers. A boundary `t` seen from the
//! cursor `c` spans a segment of `t - c` milliseconds and is handled by a
//! three-way rule: within `[min, max]` it is emitted as one clip; above `max`
//! it is split into `ceil(seg / max)` contiguous near-equal pieces; below
//! `min` the boundary is absorbed and the next segment is measured from the
//! same cursor. The media's total duration is processed as one final
//! boundary, which makes the forced tail split end exactly at the total.
use vstd::prelude::*;

use crate::clip::Clip;
use crate::clip::DEFAULT_SCORE_MILLI;
use crate::clip::TIME_LIMIT_MS;

verus! {

/// Shortest slice (in milliseconds) that uniform time-slicing will emit.
pub const MIN_SLICE_MS: u64 = 10_000;

/// Overlap used by the fallback slicing when no scene boundary was found.
pub const FALLBACK_OVERLAP_MS: u64 = 2_000;

/// `ceil(a / b)` for positive `b`.
pub open spec fn div_ceil(a: int, b: int) -> int {
    (a + b - 1) / b
}

/// Left edge of piece `i` when `[c, c + seg)` is split into `k` pieces:
/// the boundaries are `c + floor(seg * i / k)`, so the pieces are contiguous,
/// near-equal, and the last one ends exactly at `c + seg`.
pub open spec fn piece_bound(c: int, seg: int, k: int, i: int) -> int {
    c + (seg * i) / k
}

/// The `k` pieces of a forced split of `[c, c + seg)`.
pub open spec fn split_pieces(c: int, seg: int, k: int) -> Seq<(int, int)> {
    Seq::new(k as nat, |i: int| (piece_bound(c, seg, k, i), piece_bound(c, seg, k, i + 1)))
}

/// Clips emitted for one boundary `t` seen from cursor `c`.
pub open spec fn segment_step(c: int, t: int, min: int, max: int) -> Seq<(int, int)> {
    let seg = t - c;
    if seg > max {
        split_pieces(c, seg, div_ceil(seg, max))
    } else if seg >= min {
        seq![(c, t)]
    } else {
        Seq::empty()
    }
}

/// Cursor position after one boundary: it advances to `t` exactly when
/// something was emitted, and stays otherwise (the boundary is absorbed).
pub open spec fn step_cursor(c: int, t: int, min: int) -> int {
    if t - c >= min {
        t
    } else {
        c
    }
}

/// Clips emitted for a whole run of boundaries, left to right.
pub open spec fn segments_from(bounds: Seq<int>, c: int, min: int, max: int) -> Seq<(int, int)>
    decreases bounds.len(),
{
    if bounds.len() == 0 {
        Seq::empty()
    } else {
        segment_step(c, bounds[0], min, max) + segments_from(
            bounds.drop_first(),
            step_cursor(c, bounds[0], min),
            min,
            max,
        )
    }
}

/// Cursor position after a whole run of boundaries.
pub open spec fn final_cursor(bounds: Seq<int>, c: int, min: int) -> int
    decreases bounds.len(),
{
    if bounds.len() == 0 {
        c
    } else {
        final_cursor(bounds.drop_first(), step_cursor(c, bounds[0], min), min)
    }
}

/// The full plan for one video: every scene boundary in order, then the total
/// duration as one last boundary (which carries the tail rule).
pub open spec fn scene_plan(times: Seq<int>, total: int, min: int, max: int) -> Seq<(int, int)> {
    segments_from(times.push(total), 0, min, max)
}

/// The scene timestamps a plan may be built from: ordered (duplicates
/// allowed; they are absorbed) and within the media.
pub open spec fn times_ok(times: Seq<int>, total: int) -> bool {
    &&& forall|i: int, j: int| 0 <= i <= j < times.len() ==> times[i] <= times[j]
    &&& forall|i: int| 0 <= i < times.len() ==> 0 <= #[trigger] times[i] <= total
}

/// `s` is a gapless, overlap-free chain of non-empty intervals running from
/// `lo` to `hi`.
pub open spec fn chained(s: Seq<(int, int)>, lo: int, hi: int) -> bool {
    &&& forall|i: int| 0 <= i < s.len() ==> (#[trigger] s[i]).0 < s[i].1
    &&& forall|i: int| 0 <= i < s.len() - 1 ==> (#[trigger] s[i]).1 == s[i + 1].0
    &&& s.len() == 0 ==> lo == hi
    &&& s.len() > 0 ==> s[0].0 == lo && s[s.len() - 1].1 == hi
}

/// A chain's intervals are pairwise disjoint and ordered: everything before
/// interval `j` ends no later than `j` starts.
pub proof fn lemma_chained_disjoint(s: Seq<(int, int)>, lo: int, hi: int, i: int, j: int)
    requires
        chained(s, lo, hi),
        0 <= i < j < s.len(),
    ensures
        s[i].1 <= s[j].0,
    decreases j - i,
{
    if j == i + 1 {
        assert(s[i].1 == s[i + 1].0);
    } else {
        lemma_chained_disjoint(s, lo, hi, i, j - 1);
        assert(s[j - 1].1 == s[j].0);
    }
}

/// Two chains that meet at `mid` concatenate to one chain.
proof fn lemma_chained_concat(s1: Seq<(int, int)>, s2: Seq<(int, int)>, lo: int, mid: int, hi: int)
    requires
        chained(s1, lo, mid),
        chained(s2, mid, hi),
    ensures
        chained(s1 + s2, lo, hi),
{
    let s = s1 + s2;
    assert forall|i: int| 0 <= i < s.len() implies (#[trigger] s[i]).0 < s[i].1 by {
        if i < s1.len() {
            assert(s[i] == s1[i]);
        } else {
            assert(s[i] == s2[i - s1.len()]);
        }
    }
    assert forall|i: int| 0 <= i < s.len() - 1 implies (#[trigger] s[i]).1 == s[i + 1].0 by {
        if i + 1 < s1.len() {
            assert(s[i] == s1[i] && s[i + 1] == s1[i + 1]);
        } else if i + 1 == s1.len() {
            assert(s[i] == s1[i] && s[i + 1] == s2[0]);
            if s2.len() == 0 {
            }
        } else {
            assert(s[i] == s2[i - s1.len()] && s[i + 1] == s2[i + 1 - s1.len()]);
        }
    }
    if s.len() > 0 {
        if s1.len() == 0 {
            assert(s =~= s2);
        } else if s2.len() == 0 {
            assert(s =~= s1);
        } else {
            assert(s[0] == s1[0]);
            assert(s[s.len() - 1] == s2[s2.len() - 1]);
        }
    }
}

/// Division facts about the piece count `k = ceil(seg / max)` of a forced
/// split: it takes at least two pieces, no more than `seg`, and `k` pieces of
/// size `max` cover `seg`.
proof fn lemma_split_count(seg: int, max: int)
    requires
        1 <= max < seg,
    ensures
        2 <= div_ceil(seg, max) <= seg,
        seg <= div_ceil(seg, max) * max,
        (div_ceil(seg, max) - 1) * max < seg,
{
    let k = div_ceil(seg, max);
    vstd::arithmetic::div_mod::lemma_fundamental_div_mod(seg + max - 1, max);
    let r = (seg + max - 1) % max;
    vstd::arithmetic::div_mod::lemma_mod_bound(seg + max - 1, max);
    assert(k * max >= seg) by (nonlinear_arith)
        requires seg + max - 1 == max * k + r && 0 <= r < max;
    assert((k - 1) * max < seg) by (nonlinear_arith)
        requires seg + max - 1 == max * k + r && 0 <= r < max && max >= 1;
    assert(k >= 2) by (nonlinear_arith)
        requires (k - 1) * max < seg && k * max >= seg && seg > max >= 1;
    assert(k <= seg) by (nonlinear_arith)
        requires (k - 1) * max < seg && max >= 1 && seg > max && k >= 2;
}

/// Bounds on one piece of a forced split of `seg` into `k` pieces: each piece
/// is non-empty, pieces sit inside `[0, seg]`, the first starts at 0, the
/// last ends at `seg`, and every piece length lies between `floor(seg / k)`
/// and `ceil(seg / k)`.
proof fn lemma_piece_bounds(seg: int, k: int, i: int)
    requires
        1 <= k <= seg,
        0 <= i < k,
    ensures
        0 <= (seg * i) / k,
        (seg * (i + 1)) / k <= seg,
        (seg * i) / k < (seg * (i + 1)) / k,
        i == 0 ==> (seg * i) / k == 0,
        i == k - 1 ==> (seg * (i + 1)) / k == seg,
        (seg * (i + 1)) / k - (seg * i) / k >= seg / k,
        (seg * (i + 1)) / k - (seg * i) / k <= div_ceil(seg, k),
{
    let a = seg * i;
    let b = seg * (i + 1);
    assert(b == a + seg) by (nonlinear_arith)
        requires a == seg * i && b == seg * (i + 1);
    assert(a >= 0) by (nonlinear_arith)
        requires a == seg * i && seg >= 1 && i >= 0;
    vstd::arithmetic::div_mod::lemma_fundamental_div_mod(a, k);
    vstd::arithmetic::div_mod::lemma_mod_bound(a, k);
    vstd::arithmetic::div_mod::lemma_fundamental_div_mod(b, k);
    vstd::arithmetic::div_mod::lemma_mod_bound(b, k);
    let q1 = a / k;
    let r1 = a % k;
    let q2 = b / k;
    let r2 = b % k;
    assert(q1 >= 0) by (nonlinear_arith)
        requires a == k * q1 + r1 && 0 <= r1 < k && a >= 0;
    if i == 0 {
        vstd::arithmetic::div_mod::lemma_div_of0(k);
        assert(seg * 0 == 0) by (nonlinear_arith);
    }
    if i == k - 1 {
        assert(b == seg * k) by (nonlinear_arith)
            requires b == seg * (i + 1) && i == k - 1;
        vstd::arithmetic::div_mod::lemma_div_by_multiple(seg, k);
    }
    // piece end stays within the segment: b <= seg * k
    assert(b <= seg * k) by (nonlinear_arith)
        requires b == seg * (i + 1) && i + 1 <= k && seg >= 0;
    vstd::arithmetic::div_mod::lemma_div_by_multiple(seg, k);
    vstd::arithmetic::div_mod::lemma_div_is_ordered(b, seg * k, k);
    assert(q2 <= seg);
    // strict growth: (q2 - q1) * k == seg + r1 - r2 > 0 since seg >= k > r2 - r1
    assert(k * q2 - k * q1 == seg + r1 - r2) by (nonlinear_arith)
        requires a == k * q1 + r1 && b == k * q2 + r2 && b == a + seg;
    assert(q2 > q1) by (nonlinear_arith)
        requires k * q2 - k * q1 == seg + r1 - r2 && 0 <= r1 < k && 0 <= r2 < k && seg >= k && k >= 1;
    // length bounds
    vstd::arithmetic::div_mod::lemma_fundamental_div_mod(seg, k);
    vstd::arithmetic::div_mod::lemma_mod_bound(seg, k);
    let qf = seg / k;
    let rf = seg % k;
    assert(q2 - q1 >= qf) by (nonlinear_arith)
        requires
            k * q2 - k * q1 == seg + r1 - r2 && 0 <= r1 < k && 0 <= r2 < k
                && seg == k * qf + rf && 0 <= rf < k && k >= 1;
    vstd::arithmetic::div_mod::lemma_fundamental_div_mod(seg + k - 1, k);
    vstd::arithmetic::div_mod::lemma_mod_bound(seg + k - 1, k);
    let qc = (seg + k - 1) / k;
    let rc = (seg + k - 1) % k;
    assert(q2 - q1 <= qc) by (nonlinear_arith)
        requires
            k * q2 - k * q1 == seg + r1 - r2 && 0 <= r1 < k && 0 <= r2 < k
                && seg + k - 1 == k * qc + rc && 0 <= rc < k && k >= 1;
}

/// One boundary's emission is a chain from the cursor to the stepped cursor,
/// and every emitted piece is at most `max` long; when `2 * min <= max`,
/// every piece is also at least `min` long.
proof fn lemma_step_chained(c: int, t: int, min: int, max: int)
    requires
        1 <= min <= max,
        c <= t,
    ensures
        chained(segment_step(c, t, min, max), c, step_cursor(c, t, min)),
        forall|i: int| 0 <= i < segment_step(c, t, min, max).len()
            ==> (#[trigger] segment_step(c, t, min, max)[i]).1 - segment_step(c, t, min, max)[i].0
            <= max,
        2 * min <= max ==> forall|i: int| 0 <= i < segment_step(c, t, min, max).len()
            ==> (#[trigger] segment_step(c, t, min, max)[i]).1 - segment_step(c, t, min, max)[i].0
            >= min,
{
    let seg = t - c;
    let s = segment_step(c, t, min, max);
    if seg > max {
        let k = div_ceil(seg, max);
        lemma_split_count(seg, max);
        assert forall|i: int| 0 <= i < s.len() implies (#[trigger] s[i]).0 < s[i].1 && s[i].1 - s[i].0
            <= max && (2 * min <= max ==> s[i].1 - s[i].0 >= min) by {
            lemma_piece_bounds(seg, k, i);
            // piece length <= ceil(seg / k) <= max because seg <= k * max
            let len = (seg * (i + 1)) / k - (seg * i) / k;
            vstd::arithmetic::div_mod::lemma_fundamental_div_mod(seg + k - 1, k);
            vstd::arithmetic::div_mod::lemma_mod_bound(seg + k - 1, k);
            let qc = (seg + k - 1) / k;
            let rc = (seg + k - 1) % k;
            assert(qc <= max) by (nonlinear_arith)
                requires
                    seg + k - 1 == k * qc + rc && 0 <= rc < k && seg <= k * max && k >= 1;
            if 2 * min <= max {
                // floor(seg / k) >= min because seg >= k * min
                vstd::arithmetic::div_mod::lemma_fundamental_div_mod(seg, k);
                vstd::arithmetic::div_mod::lemma_mod_bound(seg, k);
                let qf = seg / k;
                let rf = seg % k;
                assert(seg >= k * min) by (nonlinear_arith)
                    requires
                        (k - 1) * max < seg && 2 * min <= max && k >= 2 && min >= 1;
                assert(qf >= min) by (nonlinear_arith)
                    requires
                        seg == k * qf + rf && 0 <= rf < k && seg >= k * min && k >= 1;
            }
        }
        assert forall|i: int| 0 <= i < s.len() - 1 implies (#[trigger] s[i]).1 == s[i + 1].0 by {
        }
        lemma_piece_bounds(seg, k, 0);
        lemma_piece_bounds(seg, k, k - 1);
        assert(s[0].0 == c);
        assert(s[s.len() - 1].1 == c + seg);
        assert(step_cursor(c, t, min) == t);
    } else if seg >= min {
        assert(s.len() == 1);
        assert(s[0] == (c, t));
    } else {
        assert(s.len() == 0);
    }
}

/// The whole emission for a run of ordered boundaries is one chain from the
/// starting cursor to the final cursor, the final cursor never runs past the
/// last boundary, and the per-piece duration bounds hold throughout.
proof fn lemma_segments_chained(bounds: Seq<int>, c: int, min: int, max: int)
    requires
        1 <= min <= max,
        forall|i: int, j: int| 0 <= i <= j < bounds.len() ==> bounds[i] <= bounds[j],
        bounds.len() > 0 ==> c <= bounds[0],
    ensures
        chained(segments_from(bounds, c, min, max), c, final_cursor(bounds, c, min)),
        c <= final_cursor(bounds, c, min),
        bounds.len() > 0 ==> final_cursor(bounds, c, min) <= bounds[bounds.len() - 1],
        forall|i: int| 0 <= i < segments_from(bounds, c, min, max).len()
            ==> (#[trigger] segments_from(bounds, c, min, max)[i]).1
            - segments_from(bounds, c, min, max)[i].0 <= max,
        2 * min <= max ==> forall|i: int| 0 <= i < segments_from(bounds, c, min, max).len()
            ==> (#[trigger] segments_from(bounds, c, min, max)[i]).1
            - segments_from(bounds, c, min, max)[i].0 >= min,
    decreases bounds.len(),
{
    if bounds.len() == 0 {
    } else {
        let t = bounds[0];
        let c2 = step_cursor(c, t, min);
        let head = segment_step(c, t, min, max);
        let tail = segments_from(bounds.drop_first(), c2, min, max);
        lemma_step_chained(c, t, min, max);
        assert(c2 <= t);
        assert forall|i: int, j: int|
            0 <= i <= j < bounds.drop_first().len() implies bounds.drop_first()[i]
            <= bounds.drop_first()[j] by {
            assert(bounds.drop_first()[i] == bounds[i + 1]);
            assert(bounds.drop_first()[j] == bounds[j + 1]);
        }
        if bounds.drop_first().len() > 0 {
            assert(bounds.drop_first()[0] == bounds[1]);
        }
        lemma_segments_chained(bounds.drop_first(), c2, min, max);
        lemma_chained_concat(
            head,
            tail,
            c,
            c2,
            final_cursor(bounds.drop_first(), c2, min),
        );
        assert(final_cursor(bounds, c, min) == final_cursor(bounds.drop_first(), c2, min));
        let s = segments_from(bounds, c, min, max);
        assert(s == head + tail);
        assert forall|i: int| 0 <= i < s.len() implies (#[trigger] s[i]).1 - s[i].0 <= max by {
            if i < head.len() {
                assert(s[i] == head[i]);
            } else {
                assert(s[i] == tail[i - head.len()]);
            }
        }
        if 2 * min <= max {
            assert forall|i: int| 0 <= i < s.len() implies (#[trigger] s[i]).1 - s[i].0 >= min by {
                if i < head.len() {
                    assert(s[i] == head[i]);
                } else {
                    assert(s[i] == tail[i - head.len()]);
                }
            }
        }
        if bounds.drop_first().len() > 0 {
            assert(bounds.drop_first()[bounds.drop_first().len() - 1]
                == bounds[bounds.len() - 1]);
        }
    }
}

/// Pushing one more boundary steps the final cursor once.
proof fn lemma_final_cursor_push(bounds: Seq<int>, c: int, t: int, min: int)
    ensures
        final_cursor(bounds.push(t), c, min) == step_cursor(final_cursor(bounds, c, min), t, min),
    decreases bounds.len(),
{
    if bounds.len() == 0 {
        assert(bounds.push(t)[0] == t);
        assert(bounds.push(t).drop_first() =~= Seq::<int>::empty());
        assert(final_cursor(bounds.push(t), c, min) == final_cursor(
            Seq::<int>::empty(),
            step_cursor(c, t, min),
            min,
        ));
        assert(final_cursor(Seq::<int>::empty(), step_cursor(c, t, min), min) == step_cursor(
            c,
            t,
            min,
        ));
    } else {
        let c2 = step_cursor(c, bounds[0], min);
        assert(bounds.push(t)[0] == bounds[0]);
        assert(bounds.push(t).drop_first() =~= bounds.drop_first().push(t));
        assert(final_cursor(bounds.push(t), c, min) == final_cursor(
            bounds.drop_first().push(t),
            c2,
            min,
        ));
        lemma_final_cursor_push(bounds.drop_first(), c2, t, min);
        assert(final_cursor(bounds, c, min) == final_cursor(bounds.drop_first(), c2, min));
    }
}

/// Every clip of a scene plan lasts at most `max` milliseconds; when the
/// caller keeps `2 * min <= max`, every clip also lasts at least `min`.
/// (With `max < 2 * min` a forced split may produce pieces shorter than
/// `min`: splitting a segment just over `max` halves it.)
pub proof fn lemma_scene_plan_durations(times: Seq<int>, total: int, min: int, max: int)
    requires
        1 <= min <= max,
        total >= 0,
        times_ok(times, total),
    ensures
        forall|i: int| 0 <= i < scene_plan(times, total, min, max).len()
            ==> (#[trigger] scene_plan(times, total, min, max)[i]).1
            - scene_plan(times, total, min, max)[i].0 <= max,
        2 * min <= max ==> forall|i: int| 0 <= i < scene_plan(times, total, min, max).len()
            ==> (#[trigger] scene_plan(times, total, min, max)[i]).1
            - scene_plan(times, total, min, max)[i].0 >= min,
{
    let bounds = times.push(total);
    lemma_bounds_sorted(times, total);
    lemma_segments_chained(bounds, 0, min, max);
}

/// A scene plan is a single gapless, overlap-free chain that starts at 0 and
/// ends at the final cursor, and the part of the media it leaves uncovered
/// (`total - final cursor`) is shorter than `min`. In particular the plan
/// covers `[0, total)` exactly when the final cursor reached `total`.
pub proof fn lemma_scene_plan_tiles(times: Seq<int>, total: int, min: int, max: int)
    requires
        1 <= min <= max,
        total >= 0,
        times_ok(times, total),
    ensures
        chained(
            scene_plan(times, total, min, max),
            0,
            final_cursor(times.push(total), 0, min),
        ),
        0 <= total - final_cursor(times.push(total), 0, min) < min,
{
    let bounds = times.push(total);
    lemma_bounds_sorted(times, total);
    lemma_segments_chained(bounds, 0, min, max);
    lemma_final_cursor_push(times, 0, total, min);
    lemma_times_final_cursor(times, total, 0, min);
}

/// The ordered scene timestamps, followed by the total duration, form an
/// ordered run of boundaries starting at or after cursor 0.
proof fn lemma_bounds_sorted(times: Seq<int>, total: int)
    requires
        total >= 0,
        times_ok(times, total),
    ensures
        forall|i: int, j: int|
            0 <= i <= j < times.push(total).len() ==> times.push(total)[i] <= times.push(total)[j],
        times.push(total).len() > 0 ==> 0 <= times.push(total)[0],
        times.push(total)[times.push(total).len() - 1] == total,
{
    let bounds = times.push(total);
    assert forall|i: int, j: int| 0 <= i <= j < bounds.len() implies bounds[i] <= bounds[j] by {
        if j < times.len() {
            assert(bounds[i] == times[i] && bounds[j] == times[j]);
        } else if i < times.len() {
            assert(bounds[i] == times[i] && bounds[j] == total);
        }
    }
    if times.len() > 0 {
        assert(bounds[0] == times[0]);
    }
}

/// The clip mirrors one planned interval and carries the default score.
pub open spec fn clip_matches(c: Clip, p: (int, int)) -> bool {
    &&& c.start_ms == p.0
    &&& c.end_ms == p.1
    &&& c.duration_ms == p.1 - p.0
    &&& c.score_milli == DEFAULT_SCORE_MILLI
}

/// The emitted clips realise the planned intervals, one for one, in order.
pub open spec fn clips_match_plan(cs: Seq<Clip>, plan: Seq<(int, int)>) -> bool {
    &&& cs.len() == plan.len()
    &&& forall|i: int| 0 <= i < cs.len() ==> clip_matches(#[trigger] cs[i], plan[i])
}

/// The start/end pairs of a clip sequence.
pub open spec fn clip_pairs(cs: Seq<Clip>) -> Seq<(int, int)> {
    cs.map(|i: int, c: Clip| (c.start_ms as int, c.end_ms as int))
}

/// The scene timestamps as mathematical integers.
pub open spec fn times_view(times: Seq<u64>) -> Seq<int> {
    times.map_values(|t: u64| t as int)
}

/// Scene-constrained segmentation: realises `scene_plan` over the given
/// ordered scene timestamps and the media's total duration. What the plan
/// guarantees is stated by `lemma_scene_plan_durations` (duration bounds)
/// and `lemma_scene_plan_tiles` (gapless, overlap-free coverage up to a
/// remnant shorter than `min`).
#[verifier::loop_isolation(false)]
pub fn clips_from_scene_times(times: &Vec<u64>, total_ms: u64, min_ms: u64, max_ms: u64) -> (r:
    Vec<Clip>)
    requires
        1 <= min_ms <= max_ms <= TIME_LIMIT_MS,
        total_ms <= TIME_LIMIT_MS,
        times@.len() < usize::MAX,
        times_ok(times_view(times@), total_ms as int),
    ensures
        clips_match_plan(r@, scene_plan(times_view(times@), total_ms as int, min_ms as int, max_ms as int)),
        forall|i: int| 0 <= i < r@.len() ==> (#[trigger] r@[i]).wf(total_ms),
{
    let ghost tv = times_view(times@);
    let ghost bounds = tv.push(total_ms as int);
    let ghost plan = segments_from(bounds, 0, min_ms as int, max_ms as int);
    proof {
        lemma_bounds_sorted(tv, total_ms as int);
        assert(bounds.skip(0) =~= bounds);
        assert(clip_pairs(Seq::<Clip>::empty()) + plan =~= plan);
    }
    let mut r: Vec<Clip> = Vec::new();
    let mut cursor: u64 = 0;
    let mut i: usize = 0;
    let n: usize = times.len();
    while i <= n
        invariant
            i <= n + 1,
            cursor <= total_ms,
            i <= n ==> cursor as int <= bounds[i as int],
            plan =~= clip_pairs(r@) + segments_from(
                bounds.skip(i as int),
                cursor as int,
                min_ms as int,
                max_ms as int,
            ),
            forall|j: int| 0 <= j < r@.len() ==> {
                &&& (#[trigger] r@[j]).duration_ms == r@[j].end_ms - r@[j].start_ms
                &&& r@[j].start_ms < r@[j].end_ms
                &&& r@[j].end_ms <= total_ms
                &&& r@[j].score_milli == DEFAULT_SCORE_MILLI
            },
        decreases n + 1 - i,
    {
        let ghost suffix = bounds.skip(i as int);
        let ghost rest = bounds.skip(i as int + 1);
        let t: u64 = if i < n {
            times[i]
        } else {
            total_ms
        };
        proof {
            assert(suffix[0] == bounds[i as int]);
            assert(bounds[i as int] == t as int);
            assert(suffix.drop_first() =~= rest);
            assert(t <= total_ms);
        }
        let seg: u64 = t - cursor;
        let ghost c0 = cursor as int;
        let ghost step = segment_step(c0, t as int, min_ms as int, max_ms as int);
        if seg > max_ms {
            let k: u64 = (seg + max_ms - 1) / max_ms;
            proof {
                lemma_split_count(seg as int, max_ms as int);
                assert(step == split_pieces(c0, seg as int, k as int));
            }
            let ghost r0 = r@;
            let mut j: u64 = 0;
            while j < k
                invariant
                    j <= k,
                    r@.len() == r0.len() + j,
                    r@.take(r0.len() as int) =~= r0,
                    forall|jj: int| 0 <= jj < j ==> clip_matches(
                        #[trigger] r@[r0.len() + jj],
                        step[jj],
                    ),
                decreases k - j,
            {
                proof {
                    lemma_piece_bounds(seg as int, k as int, j as int);
                    assert(seg * j <= seg * k && seg * (j + 1) <= seg * k) by (nonlinear_arith)
                        requires 0 <= j < k && seg >= 0;
                    assert(seg * k < 0x1_0000_0000u64 * 0x1_0000_0000u64) by (nonlinear_arith)
                        requires 0 <= seg < 0x1_0000_0000u64 && 0 <= k < 0x1_0000_0000u64;
                }
                let s: u64 = cursor + (seg * j) / k;
                let e: u64 = cursor + (seg * (j + 1)) / k;
                r.push(Clip::new(s, e));
                proof {
                    assert(r@.drop_last() =~= r@.take(r0.len() as int + j as int));
                }
                j = j + 1;
            }
            proof {
                assert forall|x: int| 0 <= x < r@.len() implies clip_pairs(r@)[x] == (clip_pairs(
                    r0,
                ) + step)[x] by {
                    if x < r0.len() {
                        assert(r@.take(r0.len() as int)[x] == r@[x]);
                    } else {
                        assert(clip_matches(r@[r0.len() + (x - r0.len())], step[x - r0.len()]));
                    }
                }
                assert(clip_pairs(r@) =~= clip_pairs(r0) + step);
                assert(clip_pairs(r0) + step + segments_from(rest, t as int, min_ms as int, max_ms as int)
                    =~= clip_pairs(r0) + (step + segments_from(rest, t as int, min_ms as int, max_ms as int)));
                assert(step_cursor(c0, t as int, min_ms as int) == t as int);
                assert forall|x: int| 0 <= x < r@.len() implies {
                    &&& (#[trigger] r@[x]).duration_ms == r@[x].end_ms - r@[x].start_ms
                    &&& r@[x].start_ms < r@[x].end_ms
                    &&& r@[x].end_ms <= total_ms
                    &&& r@[x].score_milli == DEFAULT_SCORE_MILLI
                } by {
                    if x < r0.len() {
                        assert(r@.take(r0.len() as int)[x] == r@[x]);
                        assert(r0[x] == r@[x]);
                    } else {
                        lemma_piece_bounds(seg as int, k as int, x - r0.len());
                        assert(clip_matches(r@[r0.len() + (x - r0.len())], step[x - r0.len()]));
                    }
                }
            }
            cursor = t;
        } else if seg >= min_ms {
            let ghost r0 = r@;
            r.push(Clip::new(cursor, t));
            proof {
                assert(r@.drop_last() =~= r0);
                assert(clip_pairs(r@) =~= clip_pairs(r0) + step);
                assert(clip_pairs(r0) + step + segments_from(rest, t as int, min_ms as int, max_ms as int)
                    =~= clip_pairs(r0) + (step + segments_from(rest, t as int, min_ms as int, max_ms as int)));
                assert(step_cursor(c0, t as int, min_ms as int) == t as int);
            }
            cursor = t;
        } else {
            proof {
                assert(step =~= Seq::<(int, int)>::empty());
                assert(clip_pairs(r@) + (step + segments_from(rest, c0, min_ms as int, max_ms as int))
                    =~= clip_pairs(r@) + segments_from(rest, c0, min_ms as int, max_ms as int));
                assert(step_cursor(c0, t as int, min_ms as int) == c0);
            }
        }
        proof {
            if i + 1 <= n {
                assert(bounds[i as int] <= bounds[i as int + 1]);
            }
        }
        i = i + 1;
    }
    proof {
        assert(bounds.skip(i as int) =~= Seq::<int>::empty());
        assert(segments_from(Seq::<int>::empty(), cursor as int, min_ms as int, max_ms as int)
            =~= Seq::<(int, int)>::empty());
        assert(plan =~= clip_pairs(r@));
        assert forall|jj: int| 0 <= jj < r@.len() implies clip_matches(#[trigger] r@[jj], plan[jj]) by {
            assert(plan[jj] == clip_pairs(r@)[jj]);
        }
    }
    r
}

/// Uniform time-slicing: windows of `clip` milliseconds advancing by
/// `clip - overlap`, clamped to the total, keeping only slices of at least
/// `MIN_SLICE_MS`. Defined empty when `overlap >= clip` (the cursor would
/// never advance) or `overlap < 0`.
pub open spec fn uniform_plan(c: int, total: int, clip: int, overlap: int) -> Seq<(int, int)>
    decreases total - c,
{
    if c >= total || clip <= overlap || overlap < 0 {
        Seq::empty()
    } else {
        let e = if c + clip < total {
            c + clip
        } else {
            total
        };
        let c2 = if c + clip - overlap < total {
            c + clip - overlap
        } else {
            total
        };
        let head = if e - c >= MIN_SLICE_MS {
            seq![(c, e)]
        } else {
            Seq::<(int, int)>::empty()
        };
        head + uniform_plan(c2, total, clip, overlap)
    }
}

/// Every slice of a uniform plan is at least `MIN_SLICE_MS` and at most
/// `clip` milliseconds long, and slices sit inside `[c, total)` in order.
pub proof fn lemma_uniform_slice_durations(c: int, total: int, clip: int, overlap: int)
    ensures
        forall|i: int| 0 <= i < uniform_plan(c, total, clip, overlap).len() ==> {
            let p = #[trigger] uniform_plan(c, total, clip, overlap)[i];
            &&& MIN_SLICE_MS <= p.1 - p.0 <= clip
            &&& c <= p.0 < p.1 <= total
        },
    decreases total - c,
{
    if c >= total || clip <= overlap || overlap < 0 {
    } else {
        let e = if c + clip < total {
            c + clip
        } else {
            total
        };
        let c2 = if c + clip - overlap < total {
            c + clip - overlap
        } else {
            total
        };
        lemma_uniform_slice_durations(c2, total, clip, overlap);
        let s = uniform_plan(c, total, clip, overlap);
        let rest = uniform_plan(c2, total, clip, overlap);
        assert forall|i: int| 0 <= i < s.len() implies {
            let p = #[trigger] s[i];
            &&& MIN_SLICE_MS <= p.1 - p.0 <= clip
            &&& c <= p.0 < p.1 <= total
        } by {
            if e - c >= MIN_SLICE_MS {
                if i > 0 {
                    assert(s[i] == rest[i - 1]);
                }
            } else {
                assert(s[i] == rest[i]);
            }
        }
    }
}

/// A uniform plan over a media of at least `MIN_SLICE_MS` milliseconds, with
/// a slice length of at least `MIN_SLICE_MS`, emits at least one slice.
pub proof fn lemma_uniform_plan_nonempty(total: int, clip: int, overlap: int)
    requires
        total >= MIN_SLICE_MS,
        clip >= MIN_SLICE_MS,
        0 <= overlap < clip,
    ensures
        uniform_plan(0, total, clip, overlap).len() >= 1,
{
    let e = if clip < total {
        clip
    } else {
        total
    };
    assert(e - 0 >= MIN_SLICE_MS);
}

/// With no scene boundary at all, the fallback's uniform plan over any
/// media of at least `MIN_SLICE_MS` still yields at least one clip,
/// provided the midpoint slice length reaches the slice floor. (With
/// `min + max` under twice the floor -- say half-minute media sliced at
/// 5 s pieces -- the first slice itself falls under the floor and nothing
/// is emitted.)
pub proof fn lemma_fallback_plan_nonempty(total: int, min: int, max: int)
    requires
        total >= MIN_SLICE_MS,
        fallback_clip_ms(min, max) >= MIN_SLICE_MS,
    ensures
        uniform_plan(0, total, fallback_clip_ms(min, max), FALLBACK_OVERLAP_MS as int).len() >= 1,
{
    lemma_uniform_plan_nonempty(total, fallback_clip_ms(min, max), FALLBACK_OVERLAP_MS as int);
}

/// Uniform time-slicing: realises `uniform_plan` starting from 0; slice
/// lengths are pinned by `lemma_uniform_slice_durations`.
/// `overlap_ms < clip_ms` is the caller's responsibility: with a larger
/// overlap the cursor would never advance.
#[verifier::loop_isolation(false)]
pub fn detect_clips_by_time(total_ms: u64, clip_ms: u64, overlap_ms: u64) -> (r: Vec<Clip>)
    requires
        total_ms <= TIME_LIMIT_MS,
        clip_ms <= TIME_LIMIT_MS,
        overlap_ms < clip_ms,
    ensures
        clips_match_plan(r@, uniform_plan(0, total_ms as int, clip_ms as int, overlap_ms as int)),
        forall|i: int| 0 <= i < r@.len() ==> (#[trigger] r@[i]).wf(total_ms),
{
    let ghost plan = uniform_plan(0, total_ms as int, clip_ms as int, overlap_ms as int);
    let mut r: Vec<Clip> = Vec::new();
    let mut cursor: u64 = 0;
    proof {
        assert(clip_pairs(Seq::<Clip>::empty()) + plan =~= plan);
    }
    while cursor < total_ms
        invariant
            cursor <= total_ms,
            plan =~= clip_pairs(r@) + uniform_plan(
                cursor as int,
                total_ms as int,
                clip_ms as int,
                overlap_ms as int,
            ),
            forall|j: int| 0 <= j < r@.len() ==> {
                &&& (#[trigger] r@[j]).duration_ms == r@[j].end_ms - r@[j].start_ms
                &&& r@[j].start_ms < r@[j].end_ms
                &&& r@[j].end_ms <= total_ms
                &&& r@[j].score_milli == DEFAULT_SCORE_MILLI
            },
        decreases total_ms - cursor,
    {
        let ghost c0 = cursor as int;
        let ghost here = uniform_plan(c0, total_ms as int, clip_ms as int, overlap_ms as int);
        let e: u64 = if cursor + clip_ms < total_ms {
            cursor + clip_ms
        } else {
            total_ms
        };
        let next: u64 = if cursor + clip_ms - overlap_ms < total_ms {
            cursor + clip_ms - overlap_ms
        } else {
            total_ms
        };
        let ghost rest = uniform_plan(next as int, total_ms as int, clip_ms as int, overlap_ms as int);
        if e - cursor >= MIN_SLICE_MS {
            let ghost r0 = r@;
            r.push(Clip::new(cursor, e));
            proof {
                assert(r@.drop_last() =~= r0);
                assert(clip_pairs(r@) =~= clip_pairs(r0) + seq![(c0, e as int)]);
                assert(clip_pairs(r0) + seq![(c0, e as int)] + rest =~= clip_pairs(r0) + (seq![
                    (c0, e as int),
                ] + rest));
                assert(here == seq![(c0, e as int)] + rest);
            }
        } else {
            proof {
                assert(here == rest);
            }
        }
        cursor = next;
    }
    proof {
        assert(uniform_plan(cursor as int, total_ms as int, clip_ms as int, overlap_ms as int)
            =~= Seq::<(int, int)>::empty());
        assert(plan =~= clip_pairs(r@));
        assert forall|jj: int| 0 <= jj < r@.len() implies clip_matches(#[trigger] r@[jj], plan[jj]) by {
            assert(plan[jj] == clip_pairs(r@)[jj]);
        }
    }
    r
}

/// The slice length the fallback uses: the midpoint of the requested clip
/// duration range.
pub open spec fn fallback_clip_ms(min: int, max: int) -> int {
    (min + max) / 2
}

/// Segmentation with graceful degradation: scene-constrained segmentation
/// when any scene boundary is known, otherwise uniform slicing with the
/// midpoint of `[min, max]` as slice length and a fixed small overlap.
pub fn clips_with_fallback(times: &Vec<u64>, total_ms: u64, min_ms: u64, max_ms: u64) -> (r: Vec<
    Clip,
>)
    requires
        1 <= min_ms <= max_ms <= TIME_LIMIT_MS,
        total_ms <= TIME_LIMIT_MS,
        times@.len() < usize::MAX,
        times_ok(times_view(times@), total_ms as int),
        FALLBACK_OVERLAP_MS < fallback_clip_ms(min_ms as int, max_ms as int),
    ensures
        forall|i: int| 0 <= i < r@.len() ==> (#[trigger] r@[i]).wf(total_ms),
        times@.len() > 0 ==> clips_match_plan(
            r@,
            scene_plan(times_view(times@), total_ms as int, min_ms as int, max_ms as int),
        ),
        times@.len() == 0 ==> clips_match_plan(
            r@,
            uniform_plan(
                0,
                total_ms as int,
                fallback_clip_ms(min_ms as int, max_ms as int),
                FALLBACK_OVERLAP_MS as int,
            ),
        ),
{
    if times.len() == 0 {
        let clip_ms: u64 = (min_ms + max_ms) / 2;
        detect_clips_by_time(total_ms, clip_ms, FALLBACK_OVERLAP_MS)
    } else {
        clips_from_scene_times(times, total_ms, min_ms, max_ms)
    }
}

/// Sorts raw scene timestamps ascending and removes duplicates: the result
/// is strictly increasing and holds exactly the values of the input.
/// (Timestamps are whole milliseconds, so equality is exact.)
#[verifier::loop_isolation(false)]
pub fn sort_and_dedup_times(times: &Vec<u64>) -> (r: Vec<u64>)
    ensures
        forall|i: int, j: int| 0 <= i < j < r@.len() ==> r@[i] < r@[j],
        forall|x: u64| r@.contains(x) <==> times@.contains(x),
        r@.len() <= times@.len(),
{
    let mut r: Vec<u64> = Vec::new();
    let mut i: usize = 0;
    while i < times.len()
        invariant
            i <= times@.len(),
            r@.len() <= i,
            forall|p: int, q: int| 0 <= p < q < r@.len() ==> r@[p] < r@[q],
            forall|x: u64| r@.contains(x) <==> times@.take(i as int).contains(x),
        decreases times@.len() - i,
    {
        let t: u64 = times[i];
        let ghost r0 = r@;
        // find the first slot whose value is >= t
        let mut pos: usize = 0;
        while pos < r.len() && r[pos] < t
            invariant
                pos <= r@.len(),
                forall|p: int| 0 <= p < pos ==> r@[p] < t,
            decreases r@.len() - pos,
        {
            pos = pos + 1;
        }
        if pos < r.len() && r[pos] == t {
            // already present
            proof {
                assert(times@.take(i as int + 1).drop_last() =~= times@.take(i as int));
                assert(times@.take(i as int + 1).last() == t);
                assert(r@.contains(t));
                assert forall|x: u64| r@.contains(x) <==> times@.take(i as int + 1).contains(
                    x,
                ) by {
                    if times@.take(i as int + 1).contains(x) {
                        let w = choose|w: int|
                            0 <= w < times@.take(i as int + 1).len() && #[trigger] times@.take(
                                i as int + 1,
                            )[w] == x;
                        if w < i {
                            assert(times@.take(i as int).contains(x));
                        }
                    }
                }
            }
        } else {
            r.insert(pos, t);
            proof {
                assert(r@ =~= r0.take(pos as int) + seq![t] + r0.skip(pos as int));
                assert forall|p: int, q: int| 0 <= p < q < r@.len() implies r@[p] < r@[q] by {
                    if q < pos {
                        assert(r@[p] == r0[p] && r@[q] == r0[q]);
                    } else if q == pos {
                        assert(r@[p] == r0[p]);
                    } else if p < pos {
                        assert(r@[p] == r0[p] && r@[q] == r0[q - 1]);
                        assert(r0[pos as int] <= r0[q - 1]);
                    } else if p == pos {
                        assert(r@[q] == r0[q - 1]);
                        assert(r0[pos as int] <= r0[q - 1]);
                        assert(r0[pos as int] != t);
                    } else {
                        assert(r@[p] == r0[p - 1] && r@[q] == r0[q - 1]);
                    }
                }
                assert(times@.take(i as int + 1).drop_last() =~= times@.take(i as int));
                assert(times@.take(i as int + 1).last() == t);
                assert(r@[pos as int] == t);
                assert(r@.contains(t));
                assert forall|x: u64| r@.contains(x) <==> times@.take(i as int + 1).contains(
                    x,
                ) by {
                    if r@.contains(x) {
                        let w = choose|w: int| 0 <= w < r@.len() && r@[w] == x;
                        if w != pos {
                            let w0: int = if w < pos {
                                w
                            } else {
                                w - 1
                            };
                            assert(r0[w0] == x);
                            assert(r0.contains(x));
                            assert(times@.take(i as int).contains(x));
                        }
                    }
                    if times@.take(i as int + 1).contains(x) {
                        let w = choose|w: int|
                            0 <= w < times@.take(i as int + 1).len() && #[trigger] times@.take(
                                i as int + 1,
                            )[w] == x;
                        if w < i {
                            assert(times@.take(i as int).contains(x));
                            assert(r0.contains(x));
                            let v = choose|v: int| 0 <= v < r0.len() && r0[v] == x;
                            let v2: int = if v < pos {
                                v
                            } else {
                                v + 1
                            };
                            assert(r@[v2] == x);
                        }
                    }
                }
            }
        }
        i = i + 1;
    }
    proof {
        assert(times@.take(times@.len() as int) =~= times@);
    }
    r
}

/// Orders the raw detected timestamps for segmentation: sorted strictly
/// ascending, duplicates collapsed, and boundaries past the media's end
/// dropped as noise (a boundary beyond the end cannot open a clip inside
/// the media). The result satisfies the segmentation engine's premises.
#[verifier::loop_isolation(false)]
pub fn prepare_scene_times(raw: &Vec<u64>, total_ms: u64) -> (r: Vec<u64>)
    ensures
        forall|i: int, j: int| 0 <= i < j < r@.len() ==> r@[i] < r@[j],
        forall|x: u64| r@.contains(x) <==> (raw@.contains(x) && x <= total_ms),
        times_ok(times_view(r@), total_ms as int),
        r@.len() <= raw@.len(),
{
    let sorted = sort_and_dedup_times(raw);
    let mut r: Vec<u64> = Vec::new();
    let mut i: usize = 0;
    while i < sorted.len()
        invariant
            i <= sorted@.len(),
            r@.len() <= i,
            forall|p: int, q: int| 0 <= p < q < r@.len() ==> r@[p] < r@[q],
            r@.len() > 0 ==> i > 0 && r@.last() <= sorted@[i - 1],
            forall|x: u64| r@.contains(x) <==> (sorted@.take(i as int).contains(x) && x
                <= total_ms),
        decreases sorted@.len() - i,
    {
        let t: u64 = sorted[i];
        let ghost r0 = r@;
        if t <= total_ms {
            r.push(t);
            proof {
                assert(r@.drop_last() =~= r0);
                assert forall|p: int, q: int| 0 <= p < q < r@.len() implies r@[p] < r@[q] by {
                    if q == r@.len() - 1 && r0.len() > 0 {
                        assert(r0.last() <= sorted@[i as int - 1]);
                        assert(sorted@[i as int - 1] < sorted@[i as int]);
                        assert(r@[p] <= r0.last());
                    }
                }
            }
        }
        proof {
            assert(sorted@.take(i as int + 1).drop_last() =~= sorted@.take(i as int));
            assert(sorted@.take(i as int + 1).last() == sorted@[i as int]);
            assert forall|x: u64| r@.contains(x) <==> (sorted@.take(i as int + 1).contains(x) && x
                <= total_ms) by {
                if r@.contains(x) {
                    let w = choose|w: int| 0 <= w < r@.len() && r@[w] == x;
                    if t <= total_ms && w == r@.len() - 1 {
                        assert(sorted@.take(i as int + 1)[i as int] == sorted@[i as int]);
                    } else {
                        assert(r0.contains(x));
                        let v = choose|v: int|
                            0 <= v < sorted@.take(i as int).len() && #[trigger] sorted@.take(
                                i as int,
                            )[v] == x;
                        assert(sorted@.take(i as int + 1)[v] == x);
                    }
                }
                if sorted@.take(i as int + 1).contains(x) && x <= total_ms {
                    let w = choose|w: int|
                        0 <= w < sorted@.take(i as int + 1).len() && #[trigger] sorted@.take(
                            i as int + 1,
                        )[w] == x;
                    if w < i {
                        assert(sorted@.take(i as int)[w] == x);
                        assert(r0.contains(x));
                        if t <= total_ms {
                            let v = choose|v: int| 0 <= v < r0.len() && r0[v] == x;
                            assert(r@[v] == x);
                        }
                    } else {
                        assert(x == sorted@[i as int]);
                        assert(r@.last() == x);
                    }
                }
            }
        }
        i = i + 1;
    }
    proof {
        assert(sorted@.take(sorted@.len() as int) =~= sorted@);
        assert forall|x: u64| r@.contains(x) <==> (raw@.contains(x) && x <= total_ms) by {}
        assert forall|a: int, b: int|
            0 <= a <= b < times_view(r@).len() implies times_view(r@)[a] <= times_view(r@)[b] by {
            assert(times_view(r@)[a] == r@[a] as int);
            assert(times_view(r@)[b] == r@[b] as int);
        }
        assert forall|a: int| 0 <= a < times_view(r@).len() implies 0 <= #[trigger] times_view(
            r@,
        )[a] <= total_ms as int by {
            assert(times_view(r@)[a] == r@[a] as int);
            assert(r@.contains(r@[a]));
        }
    }
    r
}

/// The cursor left by the scene timestamps alone never runs past the total.
proof fn lemma_times_final_cursor(times: Seq<int>, total: int, c: int, min: int)
    requires
        min >= 1,
        c <= total,
        times_ok(times, total),
    ensures
        final_cursor(times, c, min) <= total,
    decreases times.len(),
{
    if times.len() > 0 {
        assert forall|i: int, j: int|
            0 <= i <= j < times.drop_first().len() implies times.drop_first()[i]
            <= times.drop_first()[j] by {
            assert(times.drop_first()[i] == times[i + 1]);
            assert(times.drop_first()[j] == times[j + 1]);
        }
        assert forall|i: int| 0 <= i < times.drop_first().len() implies 0 <= #[trigger] times
            .drop_first()[i] <= total by {
            assert(times.drop_first()[i] == times[i + 1]);
        }
        lemma_times_final_cursor(
            times.drop_first(),
            total,
            step_cursor(c, times[0], min),
            min,
        );
    }
}

} // verus!
