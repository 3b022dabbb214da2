use vstd::prelude::*;

verus! {

/// A place where the sweep puts a point of a cluster's representative line:
/// the position along the cluster's direction, and the line segments that
/// cross the sweep line there. The coordinates of the point are the average
/// of those segments at that position.
#[derive(Debug)]
pub struct RepresentativePoint {
    pub ordering_value: i64,
    pub line_segment_ids: Vec<usize>,
}

/// What a `RepresentativePoint` holds, as mathematical values.
pub struct RepresentativePointView {
    pub ordering_value: i64,
    pub line_segment_ids: Seq<usize>,
}

impl View for RepresentativePoint {
    type V = RepresentativePointView;

    open spec fn view(&self) -> RepresentativePointView {
        RepresentativePointView {
            ordering_value: self.ordering_value,
            line_segment_ids: self.line_segment_ids@,
        }
    }
}

/// The views of a sequence of points, in order.
pub open spec fn point_views(points: Seq<RepresentativePoint>) -> Seq<RepresentativePointView> {
    points.map_values(|point: RepresentativePoint| point@)
}

/// Appending a point appends its view.
pub proof fn lemma_point_views_push(points: Seq<RepresentativePoint>, point: RepresentativePoint)
    ensures
        point_views(points.push(point)) == point_views(points).push(point@),
{
    assert(point_views(points.push(point)) =~= point_views(points).push(point@));
}

} // verus!
