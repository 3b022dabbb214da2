//! The sweep along a cluster's direction, one batch of candidate points at a
//! time. A batch is a run of candidate points with one ordering value.
//!
//! The line segments that cross the sweep line are kept as one flag per line
//! segment. A batch changes the flags in two steps: to what holds where the
//! point of the batch is placed, and then to what the next batch starts from.
use vstd::prelude::*;
use crate::models::candidate_point::CandidatePoint;
use crate::models::line_segment::LineSegment;
use crate::models::line_segment_cluster::LineSegmentCluster;
use crate::models::representative_point::RepresentativePointView;
use crate::lists::{ascending, lemma_listed_push, listed};

verus! {

/// The number of flags that are set.
pub open spec fn count_true(flags: Seq<bool>) -> nat
    decreases flags.len(),
{
    if flags.len() == 0 {
        0
    } else {
        count_true(flags.drop_last()) + if flags.last() {
            1nat
        } else {
            0nat
        }
    }
}

/// The positions of the flags that are set, ascending.
pub open spec fn flagged(flags: Seq<bool>) -> Seq<usize>
    decreases flags.len(),
{
    if flags.len() == 0 {
        Seq::empty()
    } else if flags.last() {
        flagged(flags.drop_last()).push((flags.len() - 1) as usize)
    } else {
        flagged(flags.drop_last())
    }
}

/// Every candidate point names one of `segment_count` line segments.
pub open spec fn names_segments(cands: Seq<CandidatePoint>, segment_count: int) -> bool {
    forall|k: int|
        0 <= k < cands.len() ==> (#[trigger] cands[k]).spec_line_segment_id() < segment_count
}

/// Where the batch that starts at `start` ends: the first position behind
/// `start` whose ordering value differs from that of its predecessor.
pub open spec fn batch_end(cands: Seq<CandidatePoint>, start: int) -> int
    decreases cands.len() - start,
{
    if start < 0 || start + 1 >= cands.len() {
        cands.len() as int
    } else if cands[start + 1].spec_ordering_value() != cands[start].spec_ordering_value() {
        start + 1
    } else {
        batch_end(cands, start + 1)
    }
}

/// How many candidate points in `[start, end)` belong to line segment `id`.
pub open spec fn occurrences(cands: Seq<CandidatePoint>, start: int, end: int, id: usize) -> nat
    decreases end - start,
{
    if end <= start {
        0
    } else {
        occurrences(cands, start, end - 1, id) + if cands[end - 1].spec_line_segment_id() == id {
            1nat
        } else {
            0nat
        }
    }
}

/// The candidate point at `at` brings in a line segment of `trajectory`:
/// its segment does not cross the sweep line yet.
pub open spec fn enters_at(
    cands: Seq<CandidatePoint>,
    segments: Seq<LineSegment>,
    active: Seq<bool>,
    at: int,
    trajectory: usize,
) -> bool {
    let id = cands[at].spec_line_segment_id() as int;
    !active[id] && segments[id].spec_trajectory_id() == trajectory
}

/// Some candidate point in `[start, end)` brings in a line segment of
/// `trajectory`.
pub open spec fn enters(
    cands: Seq<CandidatePoint>,
    segments: Seq<LineSegment>,
    active: Seq<bool>,
    start: int,
    end: int,
    trajectory: usize,
) -> bool {
    exists|at: int| start <= at < end && #[trigger] enters_at(cands, segments, active, at, trajectory)
}

/// The line segment that hands over to its successor in the batch
/// `[start, end)`: the segment of the first candidate point at or behind
/// `from` that ends a crossing segment while the batch brings in a segment of
/// the same trajectory. At most one segment of a batch hands over.
pub open spec fn handoff(
    cands: Seq<CandidatePoint>,
    segments: Seq<LineSegment>,
    active: Seq<bool>,
    start: int,
    end: int,
    from: int,
) -> Option<usize>
    decreases end - from,
{
    if from >= end {
        None
    } else {
        let id = cands[from].spec_line_segment_id();
        if active[id as int] && enters(
            cands,
            segments,
            active,
            start,
            end,
            segments[id as int].spec_trajectory_id(),
        ) {
            Some(id)
        } else {
            handoff(cands, segments, active, start, end, from + 1)
        }
    }
}

/// The segments that cross the sweep line where the point of the batch
/// `[start, end)` is placed. A segment that crossed before stays unless it
/// hands over; a segment that did not cross comes in when the batch holds
/// exactly one of its endpoints (with both in the batch it lies across the
/// sweep line and is left out).
pub open spec fn at_emit(
    cands: Seq<CandidatePoint>,
    segments: Seq<LineSegment>,
    active: Seq<bool>,
    start: int,
    end: int,
) -> Seq<bool> {
    Seq::new(
        active.len(),
        |i: int|
            if active[i] {
                handoff(cands, segments, active, start, end, start) != Some(i as usize)
            } else {
                occurrences(cands, start, end, i as usize) == 1
            },
    )
}

/// The segments that cross the sweep line behind the batch `[start, end)`:
/// every segment with an endpoint in the batch that crossed before has left.
pub open spec fn after_batch(cands: Seq<CandidatePoint>, active: Seq<bool>, start: int, end: int) -> Seq<
    bool,
> {
    Seq::new(
        active.len(),
        |i: int|
            if active[i] {
                occurrences(cands, start, end, i as usize) == 0
            } else {
                occurrences(cands, start, end, i as usize) == 1
            },
    )
}

/// The distance between two ordering values.
pub open spec fn gap(value: i64, prev: i64) -> int {
    if value >= prev {
        value - prev
    } else {
        prev - value
    }
}

/// The points that the sweep places from position `start` on, when
/// `active` crosses the sweep line there and the last point was placed at
/// `prev`. A batch gets a point when at least `min_lns` segments cross and
/// the batch lies more than `min_gap` from the last point.
pub open spec fn sweep_from(
    cands: Seq<CandidatePoint>,
    segments: Seq<LineSegment>,
    min_lns: usize,
    min_gap: u64,
    start: int,
    active: Seq<bool>,
    prev: i64,
) -> Seq<RepresentativePointView>
    decreases cands.len() - start,
{
    if start < 0 || start >= cands.len() {
        Seq::empty()
    } else {
        let end = batch_end(cands, start);
        let value = cands[start].spec_ordering_value();
        let crossing = at_emit(cands, segments, active, start, end);
        let next = after_batch(cands, active, start, end);
        proof {
            lemma_batch_end(cands, start);
        }
        if count_true(crossing) >= min_lns && gap(value, prev) > min_gap {
            seq![
                RepresentativePointView { ordering_value: value, line_segment_ids: flagged(crossing) },
            ] + sweep_from(cands, segments, min_lns, min_gap, end, next, value)
        } else {
            sweep_from(cands, segments, min_lns, min_gap, end, next, prev)
        }
    }
}

/// The points that the sweep places over all of `cands`. It starts with no
/// segment crossing, and measures the first gap from position 0.
pub open spec fn representative_points(
    cands: Seq<CandidatePoint>,
    segments: Seq<LineSegment>,
    min_lns: usize,
    min_gap: u64,
) -> Seq<RepresentativePointView> {
    sweep_from(cands, segments, min_lns, min_gap, 0, Seq::new(segments.len(), |i: int| false), 0)
}

/// A batch is not empty, ends within the candidate points, holds one
/// ordering value, and the next batch starts with another.
pub proof fn lemma_batch_end(cands: Seq<CandidatePoint>, start: int)
    requires
        0 <= start < cands.len(),
    ensures
        start < batch_end(cands, start) <= cands.len(),
        forall|k: int|
            start <= k < batch_end(cands, start) ==> (#[trigger] cands[k]).spec_ordering_value()
                == cands[start].spec_ordering_value(),
        batch_end(cands, start) < cands.len() ==> cands[batch_end(cands, start)].spec_ordering_value()
            != cands[start].spec_ordering_value(),
    decreases cands.len() - start,
{
    if start + 1 < cands.len() && cands[start + 1].spec_ordering_value()
        == cands[start].spec_ordering_value() {
        lemma_batch_end(cands, start + 1);
    }
}

/// No more flags are set than there are flags.
pub proof fn lemma_count_true_bound(flags: Seq<bool>)
    ensures
        count_true(flags) <= flags.len(),
    decreases flags.len(),
{
    if flags.len() > 0 {
        lemma_count_true_bound(flags.drop_last());
    }
}

/// Changing one flag changes the count by that flag.
pub proof fn lemma_count_true_update(flags: Seq<bool>, i: int, value: bool)
    requires
        0 <= i < flags.len(),
    ensures
        count_true(flags.update(i, value)) + (if flags[i] {
            1nat
        } else {
            0nat
        }) == count_true(flags) + (if value {
            1nat
        } else {
            0nat
        }),
    decreases flags.len(),
{
    let changed = flags.update(i, value);
    if i == flags.len() - 1 {
        assert(changed.drop_last() =~= flags.drop_last());
    } else {
        assert(changed.drop_last() =~= flags.drop_last().update(i, value));
        lemma_count_true_update(flags.drop_last(), i, value);
    }
}

/// With no flag set, the count is 0 and no position is flagged.
pub proof fn lemma_none_flagged(n: nat)
    ensures
        count_true(Seq::new(n, |i: int| false)) == 0,
        flagged(Seq::new(n, |i: int| false)) == Seq::<usize>::empty(),
    decreases n,
{
    if n > 0 {
        lemma_none_flagged((n - 1) as nat);
        assert(Seq::new(n, |i: int| false).drop_last() =~= Seq::new((n - 1) as nat, |i: int| false));
    }
}

/// The flagged positions are as many as the flags that are set, each is the
/// position of a set flag, and they ascend.
pub proof fn lemma_flagged(flags: Seq<bool>)
    requires
        flags.len() <= usize::MAX,
    ensures
        flagged(flags).len() == count_true(flags),
        forall|k: int|
            0 <= k < flagged(flags).len() ==> (#[trigger] flagged(flags)[k]) < flags.len()
                && flags[flagged(flags)[k] as int],
        forall|j: int, k: int|
            0 <= j < k < flagged(flags).len() ==> flagged(flags)[j] < flagged(flags)[k],
        forall|i: int| 0 <= i < flags.len() && flags[i] ==> flagged(flags).contains(i as usize),
    decreases flags.len(),
{
    if flags.len() > 0 {
        let front = flags.drop_last();
        lemma_flagged(front);
        let whole = flagged(flags);
        assert forall|i: int| 0 <= i < flags.len() && flags[i] implies whole.contains(i as usize) by {
            if i < front.len() {
                assert(front[i]);
                assert(flagged(front).contains(i as usize));
                let k = choose|k: int| 0 <= k < flagged(front).len() && flagged(front)[k] == i as usize;
                assert(whole[k] == i as usize);
            } else {
                assert(whole[whole.len() - 1] == i as usize);
            }
        }
    }
}

/// A longer range holds no fewer candidate points of a segment.
pub proof fn lemma_occurrences_grow(cands: Seq<CandidatePoint>, start: int, mid: int, end: int, id: usize)
    requires
        start <= mid <= end,
    ensures
        occurrences(cands, start, mid, id) <= occurrences(cands, start, end, id),
    decreases end - mid,
{
    if mid < end {
        lemma_occurrences_grow(cands, start, mid, end - 1, id);
    }
}

/// A segment with a candidate point in the range occurs in it.
pub proof fn lemma_occurs(cands: Seq<CandidatePoint>, start: int, end: int, at: int)
    requires
        start <= at < end,
    ensures
        occurrences(cands, start, end, cands[at].spec_line_segment_id()) >= 1,
{
    lemma_occurrences_grow(cands, start, at + 1, end, cands[at].spec_line_segment_id());
}

/// The segment that hands over crossed the sweep line and has a candidate
/// point in the batch.
pub proof fn lemma_handoff(
    cands: Seq<CandidatePoint>,
    segments: Seq<LineSegment>,
    active: Seq<bool>,
    start: int,
    end: int,
    from: int,
)
    requires
        start <= from,
    ensures
        handoff(cands, segments, active, start, end, from) matches Some(id) ==> active[id as int]
            && occurrences(cands, start, end, id) >= 1,
    decreases end - from,
{
    if from < end {
        let id = cands[from].spec_line_segment_id();
        if active[id as int] && enters(
            cands,
            segments,
            active,
            start,
            end,
            segments[id as int].spec_trajectory_id(),
        ) {
            lemma_occurs(cands, start, end, from);
        } else {
            lemma_handoff(cands, segments, active, start, end, from + 1);
        }
    }
}

/// A point names at least `min_lns` of `segment_count` line segments, in
/// ascending order.
pub open spec fn well_placed(point: RepresentativePointView, min_lns: usize, segment_count: nat) -> bool {
    &&& point.line_segment_ids.len() >= min_lns
    &&& ascending(point.line_segment_ids)
    &&& forall|k: int|
        0 <= k < point.line_segment_ids.len() ==> #[trigger] point.line_segment_ids[k] < segment_count
}

/// Each point lies more than `min_gap` from the point before it, and the
/// first more than `min_gap` from `prev`.
pub open spec fn spaced(points: Seq<RepresentativePointView>, prev: i64, min_gap: u64) -> bool {
    &&& points.len() > 0 ==> gap(points[0].ordering_value, prev) > min_gap
    &&& forall|k: int|
        0 < k < points.len() ==> gap(
            (#[trigger] points[k]).ordering_value,
            points[k - 1].ordering_value,
        ) > min_gap
}

/// Every point that the sweep places from `start` on names at least
/// `min_lns` line segments, and the points keep their distance.
pub proof fn lemma_sweep_from(
    cands: Seq<CandidatePoint>,
    segments: Seq<LineSegment>,
    min_lns: usize,
    min_gap: u64,
    start: int,
    active: Seq<bool>,
    prev: i64,
)
    requires
        0 <= start,
        active.len() == segments.len(),
        segments.len() <= usize::MAX,
    ensures
        forall|k: int|
            0 <= k < sweep_from(cands, segments, min_lns, min_gap, start, active, prev).len()
                ==> well_placed(
                #[trigger] sweep_from(cands, segments, min_lns, min_gap, start, active, prev)[k],
                min_lns,
                segments.len(),
            ),
        spaced(sweep_from(cands, segments, min_lns, min_gap, start, active, prev), prev, min_gap),
    decreases cands.len() - start,
{
    if start < cands.len() {
        let end = batch_end(cands, start);
        let value = cands[start].spec_ordering_value();
        let crossing = at_emit(cands, segments, active, start, end);
        let next = after_batch(cands, active, start, end);
        let points = sweep_from(cands, segments, min_lns, min_gap, start, active, prev);
        lemma_batch_end(cands, start);
        if count_true(crossing) >= min_lns && gap(value, prev) > min_gap {
            let rest = sweep_from(cands, segments, min_lns, min_gap, end, next, value);
            lemma_sweep_from(cands, segments, min_lns, min_gap, end, next, value);
            lemma_flagged(crossing);
            assert forall|k: int| 0 <= k < points.len() implies well_placed(
                #[trigger] points[k],
                min_lns,
                segments.len(),
            ) by {
                if k > 0 {
                    assert(points[k] == rest[k - 1]);
                }
            }
            assert forall|k: int| 0 < k < points.len() implies gap(
                (#[trigger] points[k]).ordering_value,
                points[k - 1].ordering_value,
            ) > min_gap by {
                assert(points[k] == rest[k - 1]);
                if k > 1 {
                    assert(points[k - 1] == rest[k - 2]);
                }
            }
        } else {
            lemma_sweep_from(cands, segments, min_lns, min_gap, end, next, prev);
        }
    }
}

/// Every representative point names at least `min_lns` of the line
/// segments, in ascending order; each point lies more than `min_gap` from
/// the point before it, and the first more than `min_gap` from position 0.
pub proof fn lemma_representative_points(
    cands: Seq<CandidatePoint>,
    segments: Seq<LineSegment>,
    min_lns: usize,
    min_gap: u64,
)
    requires
        segments.len() <= usize::MAX,
    ensures
        forall|k: int|
            0 <= k < representative_points(cands, segments, min_lns, min_gap).len() ==> well_placed(
                #[trigger] representative_points(cands, segments, min_lns, min_gap)[k],
                min_lns,
                segments.len(),
            ),
        spaced(representative_points(cands, segments, min_lns, min_gap), 0, min_gap),
{
    lemma_sweep_from(cands, segments, min_lns, min_gap, 0, Seq::new(segments.len(), |i: int| false), 0);
}

/// Finds the end of the batch that starts at `start`.
pub(crate) fn batch_limit(cluster: &LineSegmentCluster, start: usize) -> (end: usize)
    requires
        start < cluster@.candidate_points.len(),
    ensures
        end == batch_end(cluster@.candidate_points, start as int),
        start < end <= cluster@.candidate_points.len(),
{
    let total = cluster.len();
    let value = cluster.get_nth_candidate_point(start).get_ordering_value();
    let mut end: usize = start + 1;
    while end < total && cluster.get_nth_candidate_point(end).get_ordering_value() == value
        invariant
            total == cluster@.candidate_points.len(),
            start < end <= total,
            cluster@.candidate_points[end - 1].spec_ordering_value() == value,
            batch_end(cluster@.candidate_points, start as int) == batch_end(
                cluster@.candidate_points,
                end - 1,
            ),
        decreases total - end,
    {
        end += 1;
    }
    end
}

/// Counts the candidate points in `[start, end)` that belong to segment `id`.
pub(crate) fn count_occurrences(cluster: &LineSegmentCluster, start: usize, end: usize, id: usize) -> (count:
    usize)
    requires
        start <= end <= cluster@.candidate_points.len(),
    ensures
        count == occurrences(cluster@.candidate_points, start as int, end as int, id),
        count <= end - start,
{
    let mut count: usize = 0;
    let mut at: usize = start;
    while at < end
        invariant
            start <= at <= end <= cluster@.candidate_points.len(),
            count == occurrences(cluster@.candidate_points, start as int, at as int, id),
            count <= at - start,
        decreases end - at,
    {
        if cluster.get_nth_candidate_point(at).get_line_segment_id() == id {
            count += 1;
        }
        at += 1;
    }
    count
}

/// Whether the batch `[start, end)` brings in a line segment of `trajectory`.
pub(crate) fn brings_in(
    cluster: &LineSegmentCluster,
    line_segments: &Vec<LineSegment>,
    active: &Vec<bool>,
    start: usize,
    end: usize,
    trajectory: usize,
) -> (found: bool)
    requires
        start <= end <= cluster@.candidate_points.len(),
        names_segments(cluster@.candidate_points, line_segments.len() as int),
        active.len() == line_segments.len(),
    ensures
        found == enters(
            cluster@.candidate_points,
            line_segments@,
            active@,
            start as int,
            end as int,
            trajectory,
        ),
{
    let mut at: usize = start;
    while at < end
        invariant
            start <= at <= end <= cluster@.candidate_points.len(),
            names_segments(cluster@.candidate_points, line_segments.len() as int),
            active.len() == line_segments.len(),
            forall|k: int|
                start <= k < at ==> !#[trigger] enters_at(
                    cluster@.candidate_points,
                    line_segments@,
                    active@,
                    k,
                    trajectory,
                ),
        decreases end - at,
    {
        let id = cluster.get_nth_candidate_point(at).get_line_segment_id();
        assert(cluster@.candidate_points[at as int].spec_line_segment_id() < line_segments.len());
        if !active[id] && line_segments[id].get_trajectory_id() == trajectory {
            assert(enters_at(cluster@.candidate_points, line_segments@, active@, at as int, trajectory));
            return true;
        }
        at += 1;
    }
    false
}

/// Finds the line segment that hands over in the batch `[start, end)`.
pub(crate) fn find_handoff(
    cluster: &LineSegmentCluster,
    line_segments: &Vec<LineSegment>,
    active: &Vec<bool>,
    start: usize,
    end: usize,
) -> (found: Option<usize>)
    requires
        start <= end <= cluster@.candidate_points.len(),
        names_segments(cluster@.candidate_points, line_segments.len() as int),
        active.len() == line_segments.len(),
    ensures
        found == handoff(
            cluster@.candidate_points,
            line_segments@,
            active@,
            start as int,
            end as int,
            start as int,
        ),
{
    let mut at: usize = start;
    while at < end
        invariant
            start <= at <= end <= cluster@.candidate_points.len(),
            names_segments(cluster@.candidate_points, line_segments.len() as int),
            active.len() == line_segments.len(),
            handoff(
                cluster@.candidate_points,
                line_segments@,
                active@,
                start as int,
                end as int,
                start as int,
            ) == handoff(
                cluster@.candidate_points,
                line_segments@,
                active@,
                start as int,
                end as int,
                at as int,
            ),
        decreases end - at,
    {
        let id = cluster.get_nth_candidate_point(at).get_line_segment_id();
        assert(cluster@.candidate_points[at as int].spec_line_segment_id() < line_segments.len());
        if active[id] && brings_in(
            cluster,
            line_segments,
            active,
            start,
            end,
            line_segments[id].get_trajectory_id(),
        ) {
            return Some(id);
        }
        at += 1;
    }
    None
}

/// Sets one flag and keeps the count of set flags.
pub(crate) fn set_flag(active: &mut Vec<bool>, active_len: &mut usize, at: usize, value: bool)
    requires
        at < old(active).len(),
        *old(active_len) == count_true(old(active)@),
    ensures
        final(active)@ == old(active)@.update(at as int, value),
        *final(active_len) == count_true(final(active)@),
{
    proof {
        lemma_count_true_update(active@, at as int, value);
        lemma_count_true_bound(active@.update(at as int, value));
    }
    if active[at] != value {
        if value {
            *active_len = *active_len + 1;
        } else {
            *active_len = *active_len - 1;
        }
    }
    active.set(at, value);
}

/// The segments that cross the sweep line, ascending.
pub(crate) fn crossing_ids(active: &Vec<bool>) -> (ids: Vec<usize>)
    ensures
        ids@ == flagged(active@),
{
    let mut ids: Vec<usize> = Vec::new();
    let mut at: usize = 0;
    while at < active.len()
        invariant
            at <= active.len(),
            ids@ == flagged(active@.take(at as int)),
        decreases active.len() - at,
    {
        assert(active@.take(at + 1).drop_last() =~= active@.take(at as int));
        if active[at] {
            ids.push(at);
        }
        at += 1;
    }
    assert(active@.take(at as int) =~= active@);
    ids
}

/// Whether two ordering values lie more than `min_gap` apart.
pub(crate) fn exceeds_gap(value: i64, prev: i64, min_gap: u64) -> (far: bool)
    ensures
        far == (gap(value, prev) > min_gap),
{
    if value >= prev {
        (value as i128) - (prev as i128) > (min_gap as i128)
    } else {
        (prev as i128) - (value as i128) > (min_gap as i128)
    }
}

/// Turns the flags into those that hold where the point of the batch
/// `[start, end)` is placed, and lists the segments with an endpoint in the
/// batch that crossed the sweep line before it.
pub(crate) fn settle_batch(
    cluster: &LineSegmentCluster,
    line_segments: &Vec<LineSegment>,
    active: &mut Vec<bool>,
    active_len: &mut usize,
    start: usize,
    end: usize,
) -> (leaving: Vec<usize>)
    requires
        start <= end <= cluster@.candidate_points.len(),
        names_segments(cluster@.candidate_points, line_segments.len() as int),
        old(active).len() == line_segments.len(),
        *old(active_len) == count_true(old(active)@),
    ensures
        final(active)@ == at_emit(
            cluster@.candidate_points,
            line_segments@,
            old(active)@,
            start as int,
            end as int,
        ),
        *final(active_len) == count_true(final(active)@),
        forall|i: usize|
            #[trigger] listed(leaving@, leaving@.len() as int, i) <==> (i < line_segments.len() && old(
                active,
            )@[i as int] && occurrences(cluster@.candidate_points, start as int, end as int, i) >= 1),
{
    let handed = find_handoff(cluster, line_segments, active, start, end);
    let ghost cands = cluster@.candidate_points;
    let ghost before = active@;
    let ghost target = at_emit(cands, line_segments@, before, start as int, end as int);
    let mut leaving: Vec<usize> = Vec::new();
    let mut at: usize = start;
    while at < end
        invariant
            cands == cluster@.candidate_points,
            start <= at <= end <= cands.len(),
            names_segments(cands, line_segments.len() as int),
            active.len() == line_segments.len(),
            before.len() == line_segments.len(),
            *active_len == count_true(active@),
            handed == handoff(cands, line_segments@, before, start as int, end as int, start as int),
            target == at_emit(cands, line_segments@, before, start as int, end as int),
            forall|i: int|
                0 <= i < before.len() ==> #[trigger] active@[i] == (if occurrences(
                    cands,
                    start as int,
                    at as int,
                    i as usize,
                ) >= 1 {
                    target[i]
                } else {
                    before[i]
                }),
            forall|i: usize|
                #[trigger] listed(leaving@, leaving@.len() as int, i) <==> (i < line_segments.len()
                    && before[i as int] && occurrences(cands, start as int, at as int, i) >= 1),
        decreases end - at,
    {
        let id = cluster.get_nth_candidate_point(at).get_line_segment_id();
        assert(cands[at as int].spec_line_segment_id() < line_segments.len());
        let ghost flags = active@;
        let ghost list = leaving@;
        let seen = count_occurrences(cluster, start, at, id);
        if seen == 0 {
            if active[id] {
                leaving.push(id);
                let hands_over = match handed {
                    Some(h) => h == id,
                    None => false,
                };
                if hands_over {
                    set_flag(active, active_len, id, false);
                }
            } else {
                let both = count_occurrences(cluster, start, end, id);
                if both == 1 {
                    set_flag(active, active_len, id, true);
                }
            }
        }
        proof {
            lemma_occurrences_grow(cands, start as int, at as int, end as int, id);
            lemma_occurs(cands, start as int, end as int, at as int);
            assert forall|i: int| 0 <= i < before.len() implies #[trigger] active@[i] == (if occurrences(
                cands,
                start as int,
                at + 1,
                i as usize,
            ) >= 1 {
                target[i]
            } else {
                before[i]
            }) by {
                if i != id {
                    assert(active@[i] == flags[i]);
                }
            }
            assert forall|i: usize|
                #[trigger] listed(leaving@, leaving@.len() as int, i) <==> (i < line_segments.len()
                    && before[i as int] && occurrences(cands, start as int, at + 1, i) >= 1) by {
                assert(listed(list, list.len() as int, i) <==> (i < line_segments.len()
                    && before[i as int] && occurrences(cands, start as int, at as int, i) >= 1));
                assert(flags[id as int] == (if seen >= 1 {
                    target[id as int]
                } else {
                    before[id as int]
                }));
                if seen == 0 && flags[id as int] {
                    assert(leaving@ == list.push(id));
                    lemma_listed_push(list, id, i);
                } else {
                    assert(leaving@ == list);
                }
            }
        }
        at += 1;
    }
    proof {
        lemma_handoff(cands, line_segments@, before, start as int, end as int, start as int);
        assert forall|i: int| 0 <= i < before.len() implies active@[i] == target[i] by {
            assert(active@[i] == (if occurrences(cands, start as int, end as int, i as usize) >= 1 {
                target[i]
            } else {
                before[i]
            }));
        }
        assert(active@ =~= target);
    }
    leaving
}

/// Clears the flag of every listed segment.
pub(crate) fn release_batch(active: &mut Vec<bool>, active_len: &mut usize, leaving: &Vec<usize>)
    requires
        forall|k: int| 0 <= k < leaving.len() ==> #[trigger] leaving[k] < old(active).len(),
        *old(active_len) == count_true(old(active)@),
    ensures
        final(active).len() == old(active).len(),
        forall|i: int|
            0 <= i < old(active).len() ==> #[trigger] final(active)@[i] == (old(active)@[i] && !listed(
                leaving@,
                leaving@.len() as int,
                i as usize,
            )),
        *final(active_len) == count_true(final(active)@),
{
    let ghost before = active@;
    let mut at: usize = 0;
    while at < leaving.len()
        invariant
            at <= leaving.len(),
            active.len() == before.len(),
            forall|k: int| 0 <= k < leaving.len() ==> #[trigger] leaving[k] < active.len(),
            *active_len == count_true(active@),
            forall|i: int|
                0 <= i < before.len() ==> #[trigger] active@[i] == (before[i] && !listed(
                    leaving@,
                    at as int,
                    i as usize,
                )),
        decreases leaving.len() - at,
    {
        let id = leaving[at];
        let ghost flags = active@;
        set_flag(active, active_len, id, false);
        proof {
            assert forall|i: int| 0 <= i < before.len() implies #[trigger] active@[i] == (before[i]
                && !listed(leaving@, at + 1, i as usize)) by {
                if listed(leaving@, at as int, i as usize) {
                    let k = choose|k: int| 0 <= k < at && #[trigger] leaving@[k] == i as usize;
                    assert(leaving@[k] == i as usize);
                }
                if i == id {
                    assert(leaving@[at as int] == i as usize);
                } else {
                    assert(active@[i] == flags[i]);
                    if listed(leaving@, at + 1, i as usize) {
                        let k = choose|k: int| 0 <= k < at + 1 && #[trigger] leaving@[k] == i as usize;
                        assert(k < at);
                    }
                }
            }
        }
        at += 1;
    }
}

} // verus!
