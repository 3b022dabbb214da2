use vstd::prelude::*;

verus! {

/// A trajectory as it was recorded: its number and its points in the order
/// of time. The library does not look into a point.
pub struct Trajectory<P> {
    id: usize,
    points: Vec<P>,
}

/// What a `Trajectory` holds, as mathematical values.
pub struct TrajectoryView<P> {
    pub id: usize,
    pub points: Seq<P>,
}

impl<P> View for Trajectory<P> {
    type V = TrajectoryView<P>;

    closed spec fn view(&self) -> TrajectoryView<P> {
        TrajectoryView { id: self.id, points: self.points@ }
    }
}

impl<P> Trajectory<P> {
    /// A trajectory without points.
    pub fn new(id: usize) -> (trajectory: Self)
        ensures
            trajectory@ == (TrajectoryView { id, points: Seq::<P>::empty() }),
    {
        Self { id, points: Vec::new() }
    }

    pub fn get_id(&self) -> (id: usize)
        ensures
            id == self@.id,
    {
        self.id
    }

    pub fn add_point(&mut self, point: P)
        ensures
            final(self)@ == (TrajectoryView { points: old(self)@.points.push(point), ..old(self)@ }),
    {
        self.points.push(point);
    }

    /// Gives up the trajectory for its points.
    pub fn get_points(self) -> (points: Vec<P>)
        ensures
            points@ == self@.points,
    {
        self.points
    }

    /// The point at `index`, or `None` behind the last point.
    pub fn get_point(&self, index: usize) -> (point: Option<&P>)
        ensures
            index < self@.points.len() ==> point == Some(&self@.points[index as int]),
            index >= self@.points.len() ==> point is None,
    {
        if index < self.points.len() {
            Some(&self.points[index])
        } else {
            None
        }
    }

    pub fn get_points_len(&self) -> (length: usize)
        ensures
            length == self@.points.len(),
    {
        self.points.len()
    }
}

} // verus!
