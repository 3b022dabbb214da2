//! From the outcome of density clustering to the clusters that are kept:
//! the candidate points of each cluster, the sweep over them, and the
//! selection of the clusters with a representative line.
use vstd::prelude::*;
use crate::models::candidate_point::{ordered, CandidatePoint};
use crate::models::cluster::{Cluster, ClusterView};
use crate::models::line_segment::LineSegment;
use crate::models::line_segment_cluster::{LineSegmentCluster, LineSegmentClusterView};
use crate::models::representative_point::{RepresentativePoint, RepresentativePointView};
use crate::lists::listed;
use crate::sweep::{
    after_batch, batch_limit, count_true, crossing_ids, exceeds_gap, lemma_batch_end,
    lemma_handoff, lemma_none_flagged, names_segments, release_batch,
    representative_points, settle_batch, sweep_from,
};

verus! {

/// What a sweep reports of the points it placed: their number, or 0 when
/// they are too few to make a line.
pub open spec fn reported_points(placed: nat) -> nat {
    if placed >= 2 {
        placed
    } else {
        0
    }
}

/// Sweeps over the candidate points of `cluster` and appends to the cluster
/// the representative points that the sweep places. Returns how many points
/// were placed, or 0 when fewer than two were.
pub fn compute_representative_lines(
    min_lns: usize,
    min_gap: u64,
    cluster: &mut LineSegmentCluster,
    line_segments: &Vec<LineSegment>,
) -> (cluster_points: usize)
    requires
        names_segments(old(cluster)@.candidate_points, line_segments.len() as int),
    ensures
        final(cluster)@ == (LineSegmentClusterView {
            points: old(cluster)@.points + representative_points(
                old(cluster)@.candidate_points,
                line_segments@,
                min_lns,
                min_gap,
            ),
            ..old(cluster)@
        }),
        cluster_points == reported_points(
            representative_points(old(cluster)@.candidate_points, line_segments@, min_lns, min_gap).len(),
        ),
{
    let ghost before = cluster@;
    let ghost cands = cluster@.candidate_points;
    let ghost whole = representative_points(cands, line_segments@, min_lns, min_gap);
    let segment_count = line_segments.len();
    let mut active: Vec<bool> = Vec::new();
    while active.len() < segment_count
        invariant
            active.len() <= segment_count,
            active@ == Seq::new(active.len() as nat, |i: int| false),
        decreases segment_count - active.len(),
    {
        active.push(false);
        assert(active@ =~= Seq::new(active.len() as nat, |i: int| false));
    }
    let mut active_len: usize = 0;
    let mut prev: i64 = 0;
    let mut placed: usize = 0;
    let mut iter: usize = 0;
    let total = cluster.len();
    let ghost mut emitted: Seq<RepresentativePointView> = Seq::empty();
    proof {
        lemma_none_flagged(segment_count as nat);
        assert(before.points + emitted =~= before.points);
        assert(emitted + whole =~= whole);
    }
    while iter < total
        invariant
            cluster@ == (LineSegmentClusterView { points: before.points + emitted, ..before }),
            cands == before.candidate_points,
            iter <= total == cands.len(),
            names_segments(cands, line_segments.len() as int),
            active.len() == line_segments.len(),
            active_len == count_true(active@),
            placed == emitted.len(),
            placed <= iter,
            emitted + sweep_from(cands, line_segments@, min_lns, min_gap, iter as int, active@, prev)
                == whole,
        decreases total - iter,
    {
        let end = batch_limit(cluster, iter);
        let value = cluster.get_nth_candidate_point(iter).get_ordering_value();
        let ghost crossed = active@;
        let ghost rest = sweep_from(cands, line_segments@, min_lns, min_gap, iter as int, crossed, prev);
        let leaving = settle_batch(cluster, line_segments, &mut active, &mut active_len, iter, end);
        proof {
            lemma_batch_end(cands, iter as int);
        }
        if active_len >= min_lns && exceeds_gap(value, prev, min_gap) {
            let point = RepresentativePoint { ordering_value: value, line_segment_ids: crossing_ids(&active) };
            let ghost placed_before = emitted;
            proof {
                emitted = emitted.push(point@);
                assert(before.points + emitted =~= (before.points + placed_before).push(point@));
                assert(emitted + sweep_from(
                    cands,
                    line_segments@,
                    min_lns,
                    min_gap,
                    end as int,
                    after_batch(cands, crossed, iter as int, end as int),
                    value,
                ) =~= placed_before + rest);
            }
            cluster.add_point(point);
            prev = value;
            placed = placed + 1;
        }
        proof {
            assert forall|k: int| 0 <= k < leaving.len() implies #[trigger] leaving[k] < active.len() by {
                assert(listed(leaving@, leaving@.len() as int, leaving[k]));
            }
        }
        release_batch(&mut active, &mut active_len, &leaving);
        proof {
            lemma_handoff(cands, line_segments@, crossed, iter as int, end as int, iter as int);
            assert(active@ =~= after_batch(cands, crossed, iter as int, end as int));
        }
        iter = end;
    }
    proof {
        assert(emitted + Seq::<RepresentativePointView>::empty() =~= emitted);
    }
    if placed >= 2 {
        placed
    } else {
        0
    }
}

/// How many of the first `upto` line segments are in `cluster`.
pub open spec fn member_count(cluster_indexs: Seq<i32>, cluster: int, upto: int) -> nat
    decreases upto,
{
    if upto <= 0 {
        0
    } else {
        member_count(cluster_indexs, cluster, upto - 1) + if cluster_indexs[upto - 1] == cluster {
            1nat
        } else {
            0nat
        }
    }
}

/// The candidate points of the first `upto` line segments that are in
/// `cluster`: for each segment in turn its start and then its end.
pub open spec fn candidates_of(
    cluster_indexs: Seq<i32>,
    ordering_values: Seq<(i64, i64)>,
    cluster: int,
    upto: int,
) -> Seq<CandidatePoint>
    decreases upto,
{
    if upto <= 0 {
        Seq::empty()
    } else if cluster_indexs[upto - 1] == cluster {
        candidates_of(cluster_indexs, ordering_values, cluster, upto - 1).push(
            CandidatePoint {
                ordering_value: ordering_values[upto - 1].0,
                line_segment_id: (upto - 1) as usize,
            },
        ).push(
            CandidatePoint {
                ordering_value: ordering_values[upto - 1].1,
                line_segment_id: (upto - 1) as usize,
            },
        )
    } else {
        candidates_of(cluster_indexs, ordering_values, cluster, upto - 1)
    }
}

/// The trajectories of the first `upto` line segments that are in `cluster`.
pub open spec fn member_trajectories(
    cluster_indexs: Seq<i32>,
    segments: Seq<LineSegment>,
    cluster: int,
    upto: int,
) -> Set<usize>
    decreases upto,
{
    if upto <= 0 {
        Set::empty()
    } else if cluster_indexs[upto - 1] == cluster {
        member_trajectories(cluster_indexs, segments, cluster, upto - 1).insert(
            segments[upto - 1].spec_trajectory_id(),
        )
    } else {
        member_trajectories(cluster_indexs, segments, cluster, upto - 1)
    }
}

/// The cluster `cluster` once the first `upto` line segments were put into
/// their clusters, before the sweep.
pub open spec fn gathered(
    cluster_indexs: Seq<i32>,
    ordering_values: Seq<(i64, i64)>,
    segments: Seq<LineSegment>,
    cluster: int,
    upto: int,
) -> LineSegmentClusterView {
    LineSegmentClusterView {
        id: cluster as usize,
        num_of_line_segments: member_count(cluster_indexs, cluster, upto) as usize,
        candidate_points: candidates_of(cluster_indexs, ordering_values, cluster, upto),
        points: Seq::empty(),
        trajectory_ids: member_trajectories(cluster_indexs, segments, cluster, upto),
        enabled: false,
    }
}

/// `built` is what becomes of the cluster `from` in the sweep: its
/// candidate points are put in order; with at least `min_lns` trajectories
/// it gets the points that the sweep places; and it is enabled when it has
/// that many trajectories and at least two points.
pub open spec fn swept(
    built: LineSegmentClusterView,
    from: LineSegmentClusterView,
    segments: Seq<LineSegment>,
    min_lns: usize,
    min_gap: u64,
) -> bool {
    &&& built.id == from.id
    &&& built.num_of_line_segments == from.num_of_line_segments
    &&& built.trajectory_ids == from.trajectory_ids
    &&& ordered(built.candidate_points)
    &&& built.candidate_points.to_multiset() == from.candidate_points.to_multiset()
    &&& built.points == if built.trajectory_ids.len() >= min_lns {
        representative_points(built.candidate_points, segments, min_lns, min_gap)
    } else {
        Seq::empty()
    }
    &&& built.enabled == (built.trajectory_ids.len() >= min_lns && built.points.len() >= 2)
}

/// No more segments are in a cluster than were looked at.
pub proof fn lemma_member_count(cluster_indexs: Seq<i32>, cluster: int, upto: int)
    requires
        0 <= upto,
    ensures
        member_count(cluster_indexs, cluster, upto) <= upto,
    decreases upto,
{
    if upto > 0 {
        lemma_member_count(cluster_indexs, cluster, upto - 1);
    }
}

/// The candidate points of a cluster name line segments that were looked at.
pub proof fn lemma_candidates_of(
    cluster_indexs: Seq<i32>,
    ordering_values: Seq<(i64, i64)>,
    cluster: int,
    upto: int,
)
    requires
        0 <= upto <= usize::MAX,
    ensures
        names_segments(candidates_of(cluster_indexs, ordering_values, cluster, upto), upto),
    decreases upto,
{
    if upto > 0 {
        lemma_candidates_of(cluster_indexs, ordering_values, cluster, upto - 1);
    }
}

/// A cluster has finitely many trajectories.
pub proof fn lemma_member_trajectories(
    cluster_indexs: Seq<i32>,
    segments: Seq<LineSegment>,
    cluster: int,
    upto: int,
)
    ensures
        member_trajectories(cluster_indexs, segments, cluster, upto).finite(),
    decreases upto,
{
    if upto > 0 {
        lemma_member_trajectories(cluster_indexs, segments, cluster, upto - 1);
    }
}

/// Adds the two candidate points of line segment `line_index` to `cluster`,
/// its start at `ordering_values.0` and its end at `ordering_values.1`, and
/// the trajectory of the segment to the trajectories of the cluster.
pub fn get_candidate_points(
    cluster: &mut LineSegmentCluster,
    line_segment: &LineSegment,
    line_index: usize,
    ordering_values: (i64, i64),
)
    ensures
        final(cluster)@ == (LineSegmentClusterView {
            candidate_points: old(cluster)@.candidate_points.push(
                CandidatePoint { ordering_value: ordering_values.0, line_segment_id: line_index },
            ).push(CandidatePoint { ordering_value: ordering_values.1, line_segment_id: line_index }),
            trajectory_ids: old(cluster)@.trajectory_ids.insert(line_segment.spec_trajectory_id()),
            ..old(cluster)@
        }),
{
    let candidate_point_1 = CandidatePoint::new(line_index, ordering_values.0);
    let candidate_point_2 = CandidatePoint::new(line_index, ordering_values.1);
    cluster.push(candidate_point_1);
    cluster.push(candidate_point_2);
    let trajectory_id = line_segment.get_trajectory_id();
    if !cluster.contains(&trajectory_id) {
        cluster.insert(trajectory_id);
    }
    assert(cluster@.trajectory_ids =~= old(cluster)@.trajectory_ids.insert(trajectory_id));
}

/// Builds the clusters `0..max_index` from the outcome of density
/// clustering. `cluster_indexs` gives the cluster of each line segment, a
/// negative number for a segment in none; `ordering_values` gives, for each
/// line segment, the positions of its start and its end along the direction
/// of its cluster.
pub fn construct_line_segment_cluster(
    max_index: usize,
    min_lns: usize,
    min_gap: u64,
    cluster_indexs: &Vec<i32>,
    line_segments: &Vec<LineSegment>,
    ordering_values: &Vec<(i64, i64)>,
) -> (line_segment_clusters: Vec<LineSegmentCluster>)
    requires
        cluster_indexs.len() == line_segments.len(),
        ordering_values.len() == line_segments.len(),
        forall|i: int| 0 <= i < cluster_indexs.len() ==> #[trigger] cluster_indexs[i] < max_index,
    ensures
        line_segment_clusters.len() == max_index,
        forall|cluster: int|
            0 <= cluster < max_index ==> swept(
                (#[trigger] line_segment_clusters@[cluster])@,
                gathered(
                    cluster_indexs@,
                    ordering_values@,
                    line_segments@,
                    cluster,
                    line_segments.len() as int,
                ),
                line_segments@,
                min_lns,
                min_gap,
            ),
        forall|cluster: int|
            0 <= cluster < max_index ==> (#[trigger] line_segment_clusters@[cluster])@.trajectory_ids.finite(),
        forall|cluster: int|
            0 <= cluster < max_index && (#[trigger] line_segment_clusters@[cluster])@.enabled ==> {
                &&& member_trajectories(
                    cluster_indexs@,
                    line_segments@,
                    cluster,
                    line_segments.len() as int,
                ).len() >= min_lns
                &&& line_segment_clusters@[cluster]@.points.len() >= 2
            },
{
    let count = line_segments.len();
    let mut clusters: Vec<LineSegmentCluster> = Vec::new();
    while clusters.len() < max_index
        invariant
            clusters.len() <= max_index,
            forall|d: int|
                0 <= d < clusters.len() ==> (#[trigger] clusters@[d])@ == gathered(
                    cluster_indexs@,
                    ordering_values@,
                    line_segments@,
                    d,
                    0,
                ),
        decreases max_index - clusters.len(),
    {
        clusters.push(LineSegmentCluster::new(clusters.len()));
    }
    let mut i: usize = 0;
    while i < count
        invariant
            count == line_segments.len(),
            cluster_indexs.len() == count,
            ordering_values.len() == count,
            forall|k: int| 0 <= k < cluster_indexs.len() ==> #[trigger] cluster_indexs[k] < max_index,
            i <= count,
            clusters.len() == max_index,
            forall|d: int|
                0 <= d < max_index ==> (#[trigger] clusters@[d])@ == gathered(
                    cluster_indexs@,
                    ordering_values@,
                    line_segments@,
                    d,
                    i as int,
                ),
        decreases count - i,
    {
        let index = cluster_indexs[i];
        let ghost earlier = clusters@;
        if index >= 0 {
            let slot = index as usize;
            proof {
                lemma_member_count(cluster_indexs@, slot as int, i as int);
                assert(earlier[slot as int]@ == gathered(
                    cluster_indexs@,
                    ordering_values@,
                    line_segments@,
                    slot as int,
                    i as int,
                ));
            }
            clusters[slot].add_num_of_line_segments();
            get_candidate_points(&mut clusters[slot], &line_segments[i], i, ordering_values[i]);
        }
        proof {
            assert forall|d: int| 0 <= d < max_index implies (#[trigger] clusters@[d])@ == gathered(
                cluster_indexs@,
                ordering_values@,
                line_segments@,
                d,
                i + 1,
            ) by {
                assert(earlier[d]@ == gathered(
                    cluster_indexs@,
                    ordering_values@,
                    line_segments@,
                    d,
                    i as int,
                ));
                lemma_member_count(cluster_indexs@, d, i + 1);
            }
        }
        i += 1;
    }
    let mut c: usize = 0;
    while c < max_index
        invariant
            count == line_segments.len(),
            c <= max_index,
            clusters.len() == max_index,
            forall|d: int|
                0 <= d < c ==> swept(
                    (#[trigger] clusters@[d])@,
                    gathered(cluster_indexs@, ordering_values@, line_segments@, d, count as int),
                    line_segments@,
                    min_lns,
                    min_gap,
                ),
            forall|d: int|
                c <= d < max_index ==> (#[trigger] clusters@[d])@ == gathered(
                    cluster_indexs@,
                    ordering_values@,
                    line_segments@,
                    d,
                    count as int,
                ),
        decreases max_index - c,
    {
        let ghost earlier = clusters@;
        let ghost from = gathered(cluster_indexs@, ordering_values@, line_segments@, c as int, count as int);
        assert(earlier[c as int]@ == from);
        clusters[c].sort();
        let ghost sorted = clusters@[c as int]@;
        proof {
            broadcast use vstd::seq_lib::group_to_multiset_ensures;

            lemma_candidates_of(cluster_indexs@, ordering_values@, c as int, count as int);
            assert forall|k: int| 0 <= k < sorted.candidate_points.len() implies (
            #[trigger] sorted.candidate_points[k]).spec_line_segment_id() < count by {
                let point = sorted.candidate_points[k];
                assert(sorted.candidate_points.contains(point));
                assert(sorted.candidate_points.to_multiset().count(point) > 0);
                assert(from.candidate_points.contains(point));
                let at = choose|at: int|
                    0 <= at < from.candidate_points.len() && from.candidate_points[at] == point;
                assert(from.candidate_points[at].spec_line_segment_id() < count);
            }
        }
        if clusters[c].get_trajectory_length() >= min_lns {
            let placed = compute_representative_lines(min_lns, min_gap, &mut clusters[c], line_segments);
            if placed >= 2 {
                clusters[c].enable();
            }
        }
        proof {
            assert(sorted.points + representative_points(
                sorted.candidate_points,
                line_segments@,
                min_lns,
                min_gap,
            ) =~= representative_points(sorted.candidate_points, line_segments@, min_lns, min_gap));
            assert forall|d: int| c < d < max_index implies (#[trigger] clusters@[d])@ == gathered(
                cluster_indexs@,
                ordering_values@,
                line_segments@,
                d,
                count as int,
            ) by {
                assert(clusters@[d] == earlier[d]);
            }
            assert forall|d: int| 0 <= d < c implies swept(
                (#[trigger] clusters@[d])@,
                gathered(cluster_indexs@, ordering_values@, line_segments@, d, count as int),
                line_segments@,
                min_lns,
                min_gap,
            ) by {
                assert(clusters@[d] == earlier[d]);
            }
        }
        c += 1;
    }
    proof {
        assert forall|cluster: int| 0 <= cluster < max_index implies (
        #[trigger] clusters@[cluster])@.trajectory_ids.finite() by {
            lemma_member_trajectories(cluster_indexs@, line_segments@, cluster, count as int);
        }
    }
    clusters
}

/// Whether a cluster is kept: it is enabled and its representative line has
/// at least two points.
pub open spec fn kept(cluster: LineSegmentClusterView) -> bool {
    cluster.enabled && cluster.points.len() >= 2
}

/// The representative lines of the clusters among the first `upto` that are
/// kept, in their order.
pub open spec fn kept_lines(clusters: Seq<LineSegmentCluster>, upto: int) -> Seq<
    Seq<RepresentativePointView>,
>
    decreases upto,
{
    if upto <= 0 {
        Seq::empty()
    } else if kept(clusters[upto - 1]@) {
        kept_lines(clusters, upto - 1).push(clusters[upto - 1]@.points)
    } else {
        kept_lines(clusters, upto - 1)
    }
}

/// Keeps the clusters that are enabled and have a representative line of at
/// least two points, and numbers them from 0 in their order.
pub fn construct_cluster(line_segment_clusters: Vec<LineSegmentCluster>) -> (clusters: Vec<Cluster>)
    ensures
        clusters.len() == kept_lines(line_segment_clusters@, line_segment_clusters.len() as int).len(),
        forall|k: int|
            0 <= k < clusters.len() ==> (#[trigger] clusters@[k])@ == (ClusterView {
                id: k as usize,
                points: kept_lines(line_segment_clusters@, line_segment_clusters.len() as int)[k],
            }),
        forall|k: int| 0 <= k < clusters.len() ==> (#[trigger] clusters@[k])@.points.len() >= 2,
{
    let ghost all = line_segment_clusters@;
    let mut clusters: Vec<Cluster> = Vec::new();
    let mut curr_id: usize = 0;
    for line_segment_cluster in it: line_segment_clusters
        invariant
            it.seq() == all,
            curr_id == clusters.len(),
            clusters.len() == kept_lines(all, it.index() as int).len(),
            forall|k: int|
                0 <= k < clusters.len() ==> (#[trigger] clusters@[k])@ == (ClusterView {
                    id: k as usize,
                    points: kept_lines(all, it.index() as int)[k],
                }),
            forall|k: int| 0 <= k < clusters.len() ==> (#[trigger] clusters@[k])@.points.len() >= 2,
    {
        if line_segment_cluster.get_enable() {
            let points = line_segment_cluster.get_points();
            if points.len() >= 2 {
                let cluster = Cluster::new(curr_id, points);
                clusters.push(cluster);
                assert(curr_id < clusters.len());
                curr_id = curr_id + 1;
            }
        }
    }
    clusters
}

} // verus!
