use vstd::prelude::*;
use crate::models::representative_point::{
    lemma_point_views_push, point_views, RepresentativePoint, RepresentativePointView,
};

verus! {

/// A cluster that was kept: its number and its representative line.
pub struct Cluster {
    id: usize,
    points: Vec<RepresentativePoint>,
}

/// What a `Cluster` holds, as mathematical values.
pub struct ClusterView {
    pub id: usize,
    pub points: Seq<RepresentativePointView>,
}

impl View for Cluster {
    type V = ClusterView;

    closed spec fn view(&self) -> ClusterView {
        ClusterView { id: self.id, points: point_views(self.points@) }
    }
}

impl Cluster {
    pub fn new(id: usize, points: Vec<RepresentativePoint>) -> (cluster: Self)
        ensures
            cluster@ == (ClusterView { id, points: point_views(points@) }),
    {
        Self { id, points }
    }

    pub fn get_id(&self) -> (id: usize)
        ensures
            id == self@.id,
    {
        self.id
    }

    /// The number of points of the representative line.
    pub fn get_len(&self) -> (length: usize)
        ensures
            length == self@.points.len(),
    {
        self.points.len()
    }

    /// The points of the representative line, in order.
    pub fn get_points(&self) -> (points: &Vec<RepresentativePoint>)
        ensures
            point_views(points@) == self@.points,
    {
        &self.points
    }

    pub fn add_point(&mut self, point: RepresentativePoint)
        ensures
            final(self)@ == (ClusterView { points: old(self)@.points.push(point@), ..old(self)@ }),
    {
        proof {
            lemma_point_views_push(self.points@, point);
        }
        self.points.push(point);
    }
}

} // verus!
