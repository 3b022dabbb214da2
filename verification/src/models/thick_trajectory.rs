use vstd::prelude::*;

verus! {

/// A partitioned trajectory: its number and its characteristic points in
/// the order of time.
pub struct ThickTrajectory<P> {
    id: usize,
    partition_points: Vec<P>,
}

/// What a `ThickTrajectory` holds, as mathematical values.
pub struct ThickTrajectoryView<P> {
    pub id: usize,
    pub partition_points: Seq<P>,
}

impl<P> View for ThickTrajectory<P> {
    type V = ThickTrajectoryView<P>;

    closed spec fn view(&self) -> ThickTrajectoryView<P> {
        ThickTrajectoryView { id: self.id, partition_points: self.partition_points@ }
    }
}

impl<P> ThickTrajectory<P> {
    pub fn new(id: usize, partition_points: Vec<P>) -> (trajectory: Self)
        ensures
            trajectory@ == (ThickTrajectoryView { id, partition_points: partition_points@ }),
    {
        Self { id, partition_points }
    }

    /// The number of characteristic points.
    pub fn get_len(&self) -> (length: usize)
        ensures
            length == self@.partition_points.len(),
    {
        self.partition_points.len()
    }

    pub fn get_id(&self) -> (id: usize)
        ensures
            id == self@.id,
    {
        self.id
    }

    /// The characteristic point at `index`, or `None` behind the last one.
    pub fn get_partition_point(&self, index: usize) -> (point: Option<&P>)
        ensures
            index < self@.partition_points.len() ==> point == Some(&self@.partition_points[index as int]),
            index >= self@.partition_points.len() ==> point is None,
    {
        if index < self.partition_points.len() {
            Some(&self.partition_points[index])
        } else {
            None
        }
    }
}

} // verus!
