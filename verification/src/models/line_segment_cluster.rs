use vstd::prelude::*;
use std::collections::HashSet;
use crate::models::candidate_point::{ordered, sorted_points, CandidatePoint};
use crate::models::representative_point::{RepresentativePoint, RepresentativePointView, point_views, lemma_point_views_push};

verus! {

broadcast use vstd::std_specs::hash::group_hash_axioms;

/// The line segments that density clustering put together, while the
/// representative line of the cluster is being built.
pub struct LineSegmentCluster {
    id: usize,
    num_of_line_segments: usize,
    candidate_points: Vec<CandidatePoint>,
    points: Vec<RepresentativePoint>,
    trajectory_ids: HashSet<usize>,
    enabled: bool,
}

/// What a `LineSegmentCluster` holds, as mathematical values.
pub struct LineSegmentClusterView {
    pub id: usize,
    pub num_of_line_segments: usize,
    pub candidate_points: Seq<CandidatePoint>,
    pub points: Seq<RepresentativePointView>,
    pub trajectory_ids: Set<usize>,
    pub enabled: bool,
}

impl View for LineSegmentCluster {
    type V = LineSegmentClusterView;

    closed spec fn view(&self) -> LineSegmentClusterView {
        LineSegmentClusterView {
            id: self.id,
            num_of_line_segments: self.num_of_line_segments,
            candidate_points: self.candidate_points@,
            points: point_views(self.points@),
            trajectory_ids: self.trajectory_ids@,
            enabled: self.enabled,
        }
    }
}

impl LineSegmentCluster {
    /// An empty cluster that is not enabled.
    pub fn new(id: usize) -> (cluster: Self)
        ensures
            cluster@ == (LineSegmentClusterView {
                id,
                num_of_line_segments: 0,
                candidate_points: Seq::empty(),
                points: Seq::empty(),
                trajectory_ids: Set::empty(),
                enabled: false,
            }),
    {
        let cluster = Self {
            id,
            num_of_line_segments: 0,
            candidate_points: Vec::new(),
            points: Vec::new(),
            trajectory_ids: HashSet::new(),
            enabled: false,
        };
        assert(point_views(cluster.points@) =~= Seq::empty());
        cluster
    }

    pub fn get_id(&self) -> (id: usize)
        ensures
            id == self@.id,
    {
        self.id
    }

    /// The number of distinct trajectories that have a segment in the cluster.
    pub fn get_trajectory_length(&self) -> (length: usize)
        ensures
            length == self@.trajectory_ids.len(),
    {
        self.trajectory_ids.len()
    }

    pub fn enable(&mut self)
        ensures
            final(self)@ == (LineSegmentClusterView { enabled: true, ..old(self)@ }),
    {
        self.enabled = true;
    }

    /// The representative points, in the order in which they were added.
    pub fn get_points(self) -> (points: Vec<RepresentativePoint>)
        ensures
            point_views(points@) == self@.points,
    {
        self.points
    }

    pub fn get_enable(&self) -> (enabled: bool)
        ensures
            enabled == self@.enabled,
    {
        self.enabled
    }

    pub fn add_point(&mut self, point: RepresentativePoint)
        ensures
            final(self)@ == (LineSegmentClusterView {
                points: old(self)@.points.push(point@),
                ..old(self)@
            }),
    {
        proof {
            lemma_point_views_push(self.points@, point);
        }
        self.points.push(point);
    }

    pub fn add_num_of_line_segments(&mut self)
        requires
            old(self)@.num_of_line_segments < usize::MAX,
        ensures
            final(self)@ == (LineSegmentClusterView {
                num_of_line_segments: (old(self)@.num_of_line_segments + 1) as usize,
                ..old(self)@
            }),
    {
        self.num_of_line_segments += 1;
    }

    pub fn get_num_of_line_segments(&self) -> (count: usize)
        ensures
            count == self@.num_of_line_segments,
    {
        self.num_of_line_segments
    }

    pub fn push(&mut self, point: CandidatePoint)
        ensures
            final(self)@ == (LineSegmentClusterView {
                candidate_points: old(self)@.candidate_points.push(point),
                ..old(self)@
            }),
    {
        self.candidate_points.push(point);
    }

    /// The number of candidate points.
    pub fn len(&self) -> (length: usize)
        ensures
            length == self@.candidate_points.len(),
    {
        self.candidate_points.len()
    }

    pub fn get_nth_candidate_point(&self, index: usize) -> (point: &CandidatePoint)
        requires
            index < self@.candidate_points.len(),
        ensures
            *point == self@.candidate_points[index as int],
    {
        &self.candidate_points[index]
    }

    /// Whether trajectory `id` has a segment in the cluster.
    pub fn contains(&self, id: &usize) -> (found: bool)
        ensures
            found == self@.trajectory_ids.contains(*id),
    {
        self.trajectory_ids.contains(id)
    }

    pub fn insert(&mut self, id: usize)
        ensures
            final(self)@ == (LineSegmentClusterView {
                trajectory_ids: old(self)@.trajectory_ids.insert(id),
                ..old(self)@
            }),
    {
        self.trajectory_ids.insert(id);
    }

    /// Puts the candidate points into the order of the sweep.
    pub fn sort(&mut self)
        ensures
            ordered(final(self)@.candidate_points),
            final(self)@.candidate_points.to_multiset() == old(self)@.candidate_points.to_multiset(),
            final(self)@ == (LineSegmentClusterView {
                candidate_points: final(self)@.candidate_points,
                ..old(self)@
            }),
    {
        self.candidate_points = sorted_points(&self.candidate_points);
    }
}

} // verus!
