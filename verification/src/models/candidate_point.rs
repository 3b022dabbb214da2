use vstd::prelude::*;

verus! {

/// One projected endpoint of a line segment: the segment it belongs to and
/// its position along the direction of the cluster, in the caller's
/// fixed-point unit.
#[derive(Clone, Copy, Debug)]
pub struct CandidatePoint {
    pub ordering_value: i64,
    pub line_segment_id: usize,
}

impl CandidatePoint {
    pub open spec fn spec_ordering_value(&self) -> i64 {
        self.ordering_value
    }

    pub open spec fn spec_line_segment_id(&self) -> usize {
        self.line_segment_id
    }

    pub fn new(line_segment_id: usize, ordering_value: i64) -> (point: Self)
        ensures
            point == (CandidatePoint { ordering_value, line_segment_id }),
    {
        Self { ordering_value, line_segment_id }
    }

    #[verifier::when_used_as_spec(spec_ordering_value)]
    pub fn get_ordering_value(&self) -> (value: i64)
        ensures
            value == self.spec_ordering_value(),
    {
        self.ordering_value
    }

    #[verifier::when_used_as_spec(spec_line_segment_id)]
    pub fn get_line_segment_id(&self) -> (id: usize)
        ensures
            id == self.spec_line_segment_id(),
    {
        self.line_segment_id
    }
}

/// The order of the sweep: by ordering value, and among points with one
/// ordering value by line segment.
pub open spec fn precedes(first: CandidatePoint, second: CandidatePoint) -> bool {
    first.spec_ordering_value() < second.spec_ordering_value() || (first.spec_ordering_value()
        == second.spec_ordering_value() && first.spec_line_segment_id()
        <= second.spec_line_segment_id())
}

/// Every point precedes the points behind it.
pub open spec fn ordered(points: Seq<CandidatePoint>) -> bool {
    forall|j: int, k: int| 0 <= j < k < points.len() ==> precedes(points[j], points[k])
}

/// Whether `first` precedes `second` in the order of the sweep.
pub fn comes_before(first: &CandidatePoint, second: &CandidatePoint) -> (before: bool)
    ensures
        before == precedes(*first, *second),
{
    first.get_ordering_value() < second.get_ordering_value() || (first.get_ordering_value()
        == second.get_ordering_value() && first.get_line_segment_id()
        <= second.get_line_segment_id())
}

/// The points of `points` in the order of the sweep.
pub fn sorted_points(points: &Vec<CandidatePoint>) -> (sorted: Vec<CandidatePoint>)
    ensures
        ordered(sorted@),
        sorted@.to_multiset() == points@.to_multiset(),
        sorted.len() == points.len(),
{
    broadcast use vstd::seq_lib::group_to_multiset_ensures;

    let mut sorted: Vec<CandidatePoint> = Vec::new();
    let mut taken: usize = 0;
    assert(points@.take(0) =~= Seq::empty());
    while taken < points.len()
        invariant
            taken <= points.len(),
            sorted.len() == taken,
            ordered(sorted@),
            sorted@.to_multiset() == points@.take(taken as int).to_multiset(),
        decreases points.len() - taken,
    {
        let point = points[taken];
        let mut place: usize = sorted.len();
        while place > 0 && !comes_before(&sorted[place - 1], &point)
            invariant
                place <= sorted.len(),
                ordered(sorted@),
                forall|k: int| place <= k < sorted.len() ==> precedes(point, #[trigger] sorted@[k]),
            decreases place,
        {
            place -= 1;
        }
        let ghost earlier = sorted@;
        sorted.insert(place, point);
        proof {
            assert(points@.take(taken + 1) =~= points@.take(taken as int).push(point));
            vstd::seq_lib::to_multiset_build(points@.take(taken as int), point);
            vstd::seq_lib::to_multiset_insert(earlier, place as int, point);
            assert(sorted@ == earlier.insert(place as int, point));
            assert forall|j: int, k: int| 0 <= j < k < sorted@.len() implies precedes(
                sorted@[j],
                sorted@[k],
            ) by {
                if k < place {
                    assert(precedes(earlier[j], earlier[k]));
                } else if k == place {
                    assert(precedes(earlier[j], earlier[place - 1]));
                } else if j < place {
                    assert(precedes(earlier[j], earlier[k - 1]));
                } else if j == place {
                    assert(precedes(point, earlier[k - 1]));
                } else {
                    assert(precedes(earlier[j - 1], earlier[k - 1]));
                }
            }
        }
        taken += 1;
    }
    assert(points@.take(taken as int) =~= points@);
    sorted
}

} // verus!
