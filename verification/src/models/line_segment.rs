use vstd::prelude::*;

verus! {

/// Draws a fresh version-4 identifier with `uuid::Uuid::new_v4` and hands it
/// back as the 128-bit number `Uuid::as_u128` gives. The bits are random, so
/// nothing is claimed of them.
#[verifier::external_body]
fn fresh_uuid() -> (id: u128) {
    uuid::Uuid::new_v4().as_u128()
}

/// The stretch between two consecutive characteristic points of one
/// partitioned trajectory. The endpoints are named by their positions among
/// the partition points of that trajectory; the segment owns no point.
#[derive(Debug)]
pub struct LineSegment {
    uuid: u128,
    trajectory_id: usize,
    start_index: usize,
    end_index: usize,
}

impl LineSegment {
    pub closed spec fn spec_uuid(&self) -> u128 {
        self.uuid
    }

    pub closed spec fn spec_trajectory_id(&self) -> usize {
        self.trajectory_id
    }

    pub closed spec fn spec_start_end_points(&self) -> (usize, usize) {
        (self.start_index, self.end_index)
    }

    /// A segment of trajectory `trajectory_id` from partition point
    /// `start_index` to partition point `end_index`, under a fresh identity.
    pub fn new(trajectory_id: usize, start_index: usize, end_index: usize) -> (segment: Self)
        ensures
            segment.spec_trajectory_id() == trajectory_id,
            segment.spec_start_end_points() == (start_index, end_index),
    {
        Self { uuid: fresh_uuid(), trajectory_id, start_index, end_index }
    }

    #[verifier::when_used_as_spec(spec_uuid)]
    pub fn get_uuid(&self) -> (id: u128)
        ensures
            id == self.spec_uuid(),
    {
        self.uuid
    }

    #[verifier::when_used_as_spec(spec_start_end_points)]
    pub fn extract_start_end_points(&self) -> (ends: (usize, usize))
        ensures
            ends == self.spec_start_end_points(),
    {
        (self.start_index, self.end_index)
    }

    #[verifier::when_used_as_spec(spec_trajectory_id)]
    pub fn get_trajectory_id(&self) -> (id: usize)
        ensures
            id == self.spec_trajectory_id(),
    {
        self.trajectory_id
    }
}

/// Two segments are the same segment when they carry the same identity.
impl PartialEq for LineSegment {
    fn eq(&self, other: &LineSegment) -> (same: bool) {
        self.uuid == other.uuid
    }
}

impl vstd::std_specs::cmp::PartialEqSpecImpl for LineSegment {
    open spec fn obeys_eq_spec() -> bool {
        true
    }

    open spec fn eq_spec(&self, other: &LineSegment) -> bool {
        self.spec_uuid() == other.spec_uuid()
    }
}

/// The trajectory of each segment, in the order of `segments`.
pub open spec fn trajectory_ids(segments: Seq<LineSegment>) -> Seq<usize> {
    segments.map_values(|segment: LineSegment| segment.spec_trajectory_id())
}

} // verus!
