//! Partitioning a trajectory into its characteristic points.
//!
//! A window grows from the last characteristic point, one step at a time.
//! For each window the caller measures what describing its steps one by one
//! costs, what describing it by the single segment from its start to its end
//! costs, and how the acceleration over the window compares with that of its
//! last step. The `Partitioner` decides from these whether the window ends:
//! then the point before the window's end is a characteristic point and the
//! next window starts there.
use vstd::prelude::*;
use crate::lists::ascending;
use crate::models::line_segment::LineSegment;
use crate::models::thick_trajectory::ThickTrajectory;
use crate::models::trajectory::Trajectory;

verus! {

/// By how much the cost of the single segment must exceed the cost of the
/// steps for a window to end.
pub const MDL_COST_ADWANTAGE: usize = 25;

/// The acceleration cost above which a window ends, in millionths.
pub const ACC_COST_UPPER: i64 = 500_000;

/// The acceleration cost below which a window ends, in millionths.
pub const ACC_COST_LOWER: i64 = -200_000;

/// What the caller measured of one window.
#[derive(Clone, Copy, Debug)]
pub struct WindowCost {
    /// The cost of the last step of the window, taken by itself.
    pub step_cost: usize,
    /// The cost of the segment from the window's start to its end, and of
    /// the window's steps told against it.
    pub partition_cost: usize,
    /// The cosine of the angle between the window and its last step, times
    /// the ratio of the lesser of their accelerations to the greater, in
    /// millionths.
    pub acc_cost: i64,
}

/// The partitioning of one trajectory, between two windows.
pub struct Partitioner {
    len: usize,
    start_index: usize,
    length: usize,
    no_par_cost: u128,
    partition_indexs: Vec<usize>,
}

/// What a `Partitioner` holds: the number of points of the trajectory, the
/// start and the number of steps of the window to measure next, the cost of
/// the steps of that window but the last, and the characteristic points
/// found so far.
pub struct PartitionerView {
    pub len: nat,
    pub start_index: nat,
    pub length: nat,
    pub no_par_cost: nat,
    pub partition_indexs: Seq<usize>,
}

impl View for Partitioner {
    type V = PartitionerView;

    closed spec fn view(&self) -> PartitionerView {
        PartitionerView {
            len: self.len as nat,
            start_index: self.start_index as nat,
            length: self.length as nat,
            no_par_cost: self.no_par_cost as nat,
            partition_indexs: self.partition_indexs@,
        }
    }
}

/// The window lies within the trajectory, and the characteristic points
/// run from the first point to the start of the window.
pub open spec fn between_windows(state: PartitionerView) -> bool {
    &&& state.len <= usize::MAX
    &&& state.length >= 1
    &&& state.start_index + state.length <= state.len
    &&& state.no_par_cost <= (state.length - 1) * usize::MAX
    &&& state.partition_indexs.len() >= 1
    &&& state.partition_indexs[0] == 0
    &&& state.partition_indexs.last() == state.start_index
    &&& ascending(state.partition_indexs)
}

/// The state in which partitioning starts on a trajectory of `len` points.
pub open spec fn started(len: nat) -> PartitionerView {
    PartitionerView { len, start_index: 0, length: 1, no_par_cost: 0, partition_indexs: seq![0usize] }
}

/// The window to measure next, by the indices of its first and last point,
/// or `None` when the window has reached the end of the trajectory.
pub open spec fn pending_window(state: PartitionerView) -> Option<(usize, usize)> {
    if state.start_index + state.length < state.len {
        Some((state.start_index as usize, (state.start_index + state.length) as usize))
    } else {
        None
    }
}

/// Whether the window ends. A window of one step never does: there is
/// nothing to tell its step against. A longer window ends when describing
/// its steps costs less, by more than the advantage, than describing the
/// single segment, or when the acceleration cost leaves its bounds.
pub open spec fn window_ends(state: PartitionerView, cost: WindowCost) -> bool {
    state.length >= 2 && (state.no_par_cost + cost.step_cost + MDL_COST_ADWANTAGE < cost.partition_cost
        || cost.acc_cost > ACC_COST_UPPER || cost.acc_cost < ACC_COST_LOWER)
}

/// The state after the pending window was measured.
pub open spec fn advanced(state: PartitionerView, cost: WindowCost) -> PartitionerView {
    if window_ends(state, cost) {
        PartitionerView {
            len: state.len,
            start_index: (state.start_index + state.length - 1) as nat,
            length: 1,
            no_par_cost: 0,
            partition_indexs: state.partition_indexs.push((state.start_index + state.length - 1) as usize),
        }
    } else {
        PartitionerView {
            len: state.len,
            start_index: state.start_index,
            length: state.length + 1,
            no_par_cost: state.no_par_cost + cost.step_cost as nat,
            partition_indexs: state.partition_indexs,
        }
    }
}

/// The characteristic points when partitioning stops in `state`: those
/// found, and the last point of the trajectory.
pub open spec fn finished(state: PartitionerView) -> Seq<usize> {
    if state.partition_indexs.last() == state.len - 1 {
        state.partition_indexs
    } else {
        state.partition_indexs.push((state.len - 1) as usize)
    }
}

/// How many windows are measured at most before the trajectory is through.
pub open spec fn windows_left(state: PartitionerView) -> int {
    2 * (state.len - state.start_index) - state.length
}

/// Measuring a window keeps the state between windows and brings the end
/// nearer.
pub proof fn lemma_advanced(state: PartitionerView, cost: WindowCost)
    requires
        between_windows(state),
        pending_window(state) is Some,
    ensures
        between_windows(advanced(state, cost)),
        0 <= windows_left(advanced(state, cost)) < windows_left(state),
{
    let after = advanced(state, cost);
    if window_ends(state, cost) {
        assert forall|j: int, k: int| 0 <= j < k < after.partition_indexs.len() implies after.partition_indexs[j]
            < after.partition_indexs[k] by {
            if k == state.partition_indexs.len() {
                if j < state.partition_indexs.len() - 1 {
                    assert(state.partition_indexs[j] < state.partition_indexs[state.partition_indexs.len()
                        - 1]);
                }
            }
        }
    } else {
        assert(after.no_par_cost <= (after.length - 1) * usize::MAX) by (nonlinear_arith)
            requires
                state.no_par_cost <= (state.length - 1) * usize::MAX,
                cost.step_cost <= usize::MAX,
                after.no_par_cost == state.no_par_cost + cost.step_cost,
                after.length == state.length + 1,
                state.length >= 1,
        ;
    }
}

/// The characteristic points start with the first point of the trajectory,
/// end with its last, ascend, and lie within the trajectory.
pub proof fn lemma_finished(state: PartitionerView)
    requires
        between_windows(state),
    ensures
        finished(state).len() >= 1,
        finished(state)[0] == 0,
        finished(state).last() == state.len - 1,
        ascending(finished(state)),
        forall|k: int| 0 <= k < finished(state).len() ==> finished(state)[k] < state.len,
        state.len >= 2 ==> finished(state).len() >= 2,
{
    let indexs = state.partition_indexs;
    let all = finished(state);
    assert forall|k: int| 0 <= k < indexs.len() implies indexs[k] <= state.start_index by {
        if k < indexs.len() - 1 {
            assert(indexs[k] < indexs[indexs.len() - 1]);
        }
    }
    assert forall|j: int, k: int| 0 <= j < k < all.len() implies all[j] < all[k] by {
        if k == indexs.len() {
            assert(indexs[j] <= state.start_index);
        }
    }
    assert forall|k: int| 0 <= k < all.len() implies all[k] < state.len by {
        if k < indexs.len() {
            assert(indexs[k] <= state.start_index);
        }
    }
}

impl Partitioner {
    /// Whether the partitioner stands between two windows. Every
    /// partitioner that `new` made and `advance` changed does.
    pub open spec fn well_formed(&self) -> bool {
        between_windows(self@)
    }

    /// Starts on a trajectory of `len` points: the first point is a
    /// characteristic point, and the first window is the first step.
    pub fn new(len: usize) -> (partitioner: Self)
        requires
            len >= 1,
        ensures
            partitioner.well_formed(),
            partitioner@ == started(len as nat),
    {
        let mut partition_indexs: Vec<usize> = Vec::new();
        partition_indexs.push(0);
        assert(partition_indexs@ =~= seq![0usize]);
        Self { len, start_index: 0, length: 1, no_par_cost: 0, partition_indexs }
    }

    /// The window that the caller is to measure next.
    pub fn pending(&self) -> (window: Option<(usize, usize)>)
        requires
            self.well_formed(),
        ensures
            window == pending_window(self@),
            window matches Some((start, end)) ==> start < end < self@.len,
    {
        if self.length < self.len - self.start_index {
            Some((self.start_index, self.start_index + self.length))
        } else {
            None
        }
    }

    /// Takes what the caller measured of the pending window.
    pub fn advance(&mut self, cost: WindowCost)
        requires
            old(self).well_formed(),
            pending_window(old(self)@) is Some,
        ensures
            final(self).well_formed(),
            final(self)@ == advanced(old(self)@, cost),
            0 <= windows_left(final(self)@) < windows_left(old(self)@),
    {
        proof {
            lemma_advanced(self@, cost);
            assert((self.length - 1) * usize::MAX + usize::MAX + MDL_COST_ADWANTAGE < u128::MAX) by (nonlinear_arith)
                requires
                    1 <= self.length <= usize::MAX,
                    usize::MAX <= u64::MAX,
            ;
        }
        let steps_cost: u128 = self.no_par_cost + (cost.step_cost as u128);
        let ends = self.length >= 2 && (steps_cost + (MDL_COST_ADWANTAGE as u128) < (
        cost.partition_cost as u128) || cost.acc_cost > ACC_COST_UPPER || cost.acc_cost
            < ACC_COST_LOWER);
        if ends {
            let end_index = self.start_index + self.length;
            self.partition_indexs.push(end_index - 1);
            self.start_index = end_index - 1;
            self.length = 1;
            self.no_par_cost = 0;
        } else {
            self.length = self.length + 1;
            self.no_par_cost = steps_cost;
        }
    }

    /// Ends the partitioning: the characteristic points found, and the last
    /// point of the trajectory.
    pub fn finish(self) -> (partition_indexs: Vec<usize>)
        requires
            self.well_formed(),
        ensures
            partition_indexs@ == finished(self@),
            partition_indexs@[0] == 0,
            partition_indexs@.last() == self@.len - 1,
            ascending(partition_indexs@),
            forall|k: int| 0 <= k < partition_indexs.len() ==> partition_indexs@[k] < self@.len,
            self@.len >= 2 ==> partition_indexs.len() >= 2,
    {
        proof {
            lemma_finished(self@);
        }
        let last = self.len - 1;
        let mut partition_indexs = self.partition_indexs;
        if partition_indexs[partition_indexs.len() - 1] != last {
            partition_indexs.push(last);
        }
        partition_indexs
    }
}

/// The points of `points` at `indexs`, in the order of `indexs`.
pub open spec fn selected<P>(points: Seq<P>, indexs: Seq<usize>) -> Seq<P> {
    Seq::new(indexs.len(), |k: int| points[indexs[k] as int])
}

/// Every index names one of `count` points.
pub open spec fn within(indexs: Seq<usize>, count: nat) -> bool {
    forall|k: int| 0 <= k < indexs.len() ==> #[trigger] indexs[k] < count
}

/// The state after the windows were measured as `costs`, one after the
/// other.
pub open spec fn measured_as(state: PartitionerView, costs: Seq<WindowCost>) -> PartitionerView
    decreases costs.len(),
{
    if costs.len() == 0 {
        state
    } else {
        advanced(measured_as(state, costs.drop_last()), costs.last())
    }
}

/// Every one of `costs` was asked for: a window was pending when it came.
pub open spec fn asked_for(len: nat, costs: Seq<WindowCost>) -> bool {
    forall|k: int|
        0 <= k < costs.len() ==> pending_window(measured_as(started(len), #[trigger] costs.take(k)))
            is Some
}

/// Measuring the windows of a trajectory one after the other keeps the
/// partitioner between windows, on the same trajectory.
pub proof fn lemma_measured_as(len: nat, costs: Seq<WindowCost>)
    requires
        1 <= len <= usize::MAX,
        asked_for(len, costs),
    ensures
        between_windows(measured_as(started(len), costs)),
        measured_as(started(len), costs).len == len,
    decreases costs.len(),
{
    if costs.len() > 0 {
        let front = costs.drop_last();
        assert forall|k: int| 0 <= k < front.len() implies pending_window(
            measured_as(started(len), #[trigger] front.take(k)),
        ) is Some by {
            assert(front.take(k) =~= costs.take(k));
        }
        lemma_measured_as(len, front);
        assert(costs.take(costs.len() - 1) =~= front);
        lemma_advanced(measured_as(started(len), front), costs.last());
    }
}

/// However the windows of a trajectory are measured, its characteristic
/// points start with its first point and end with its last, ascend, and lie
/// within the trajectory; a trajectory of two points or more has two
/// characteristic points or more.
pub proof fn lemma_partition_keeps_the_ends(len: nat, costs: Seq<WindowCost>)
    requires
        1 <= len <= usize::MAX,
        asked_for(len, costs),
    ensures
        finished(measured_as(started(len), costs)).len() >= 1,
        finished(measured_as(started(len), costs))[0] == 0,
        finished(measured_as(started(len), costs)).last() == len - 1,
        ascending(finished(measured_as(started(len), costs))),
        within(finished(measured_as(started(len), costs)), len),
        len >= 2 ==> finished(measured_as(started(len), costs)).len() >= 2,
{
    lemma_measured_as(len, costs);
    lemma_finished(measured_as(started(len), costs));
}

/// `costs` is what `measure` gave for the windows of `trajectory`, from the
/// first window to the one that reached the end of the trajectory.
pub open spec fn measures_of<P, F: Fn(&Trajectory<P>, usize, usize) -> WindowCost>(
    measure: F,
    trajectory: Trajectory<P>,
    costs: Seq<WindowCost>,
) -> bool {
    let start = started(trajectory@.points.len());
    &&& forall|k: int|
        0 <= k < costs.len() ==> match pending_window(measured_as(start, #[trigger] costs.take(k))) {
            Some((first, last)) => call_ensures(measure, (&trajectory, first, last), costs[k]),
            None => false,
        }
    &&& pending_window(measured_as(start, costs)) is None
}

/// The characteristic points of a trajectory whose windows were measured as
/// `costs`.
pub open spec fn partition_points_of<P>(trajectory: Trajectory<P>, costs: Seq<WindowCost>) -> Seq<P> {
    selected(
        trajectory@.points,
        finished(measured_as(started(trajectory@.points.len()), costs)),
    )
}

/// The points of `points` at `indexs`.
fn select_points<P: Copy>(points: &Vec<P>, indexs: &Vec<usize>) -> (chosen: Vec<P>)
    requires
        within(indexs@, points@.len()),
    ensures
        chosen@ == selected(points@, indexs@),
{
    let mut chosen: Vec<P> = Vec::new();
    let mut at: usize = 0;
    while at < indexs.len()
        invariant
            at <= indexs.len(),
            within(indexs@, points@.len()),
            chosen@ == selected(points@, indexs@.take(at as int)),
        decreases indexs.len() - at,
    {
        let index = indexs[at];
        chosen.push(points[index]);
        assert(chosen@ =~= selected(points@, indexs@.take(at + 1)));
        at += 1;
    }
    assert(indexs@.take(at as int) =~= indexs@);
    chosen
}

/// Reduces a trajectory to its characteristic points. `measure` is asked
/// for each window in turn, by the trajectory and the indices of the first
/// and the last point of the window. The first and the last point of the
/// trajectory are always among the characteristic points.
pub fn partition_trajectory<P: Copy, F: Fn(&Trajectory<P>, usize, usize) -> WindowCost>(
    trajectory: Trajectory<P>,
    measure: &F,
) -> (thick: ThickTrajectory<P>)
    requires
        trajectory@.points.len() >= 1,
        forall|first: usize, last: usize|
            first < last < trajectory@.points.len() ==> call_requires(
                *measure,
                (&trajectory, first, last),
            ),
    ensures
        thick@.id == trajectory@.id,
        exists|costs: Seq<WindowCost>|
            measures_of(*measure, trajectory, costs) && thick@.partition_points == partition_points_of(
                trajectory,
                costs,
            ),
        thick@.partition_points.len() >= 1,
        thick@.partition_points.first() == trajectory@.points.first(),
        thick@.partition_points.last() == trajectory@.points.last(),
        trajectory@.points.len() >= 2 ==> thick@.partition_points.len() >= 2,
{
    let len = trajectory.get_points_len();
    let mut partitioner = Partitioner::new(len);
    let ghost start = started(len as nat);
    let ghost mut costs: Seq<WindowCost> = Seq::empty();
    loop
        invariant
            len == trajectory@.points.len(),
            start == started(len as nat),
            partitioner.well_formed(),
            partitioner@ == measured_as(start, costs),
            partitioner@.len == len,
            forall|first: usize, last: usize|
                first < last < len ==> call_requires(*measure, (&trajectory, first, last)),
            forall|k: int|
                0 <= k < costs.len() ==> match pending_window(
                    measured_as(start, #[trigger] costs.take(k)),
                ) {
                    Some((first, last)) => call_ensures(*measure, (&trajectory, first, last), costs[k]),
                    None => false,
                },
        ensures
            pending_window(partitioner@) is None,
        decreases windows_left(partitioner@),
    {
        let window = partitioner.pending();
        match window {
            None => {
                break ;
            },
            Some((first, last)) => {
                let cost = (*measure)(&trajectory, first, last);
                let ghost earlier = costs;
                partitioner.advance(cost);
                proof {
                    costs = earlier.push(cost);
                    assert(costs.drop_last() =~= earlier);
                    assert(costs.take(earlier.len() as int) =~= earlier);
                    assert forall|k: int| 0 <= k < costs.len() implies match pending_window(
                        measured_as(start, #[trigger] costs.take(k)),
                    ) {
                        Some((first, last)) => call_ensures(
                            *measure,
                            (&trajectory, first, last),
                            costs[k],
                        ),
                        None => false,
                    } by {
                        if k < earlier.len() {
                            assert(costs.take(k) =~= earlier.take(k));
                        }
                    }
                }
            },
        }
    }
    let partition_indexs = partitioner.finish();
    let id = trajectory.get_id();
    let points = trajectory.get_points();
    assert(within(partition_indexs@, points@.len())) by {
        assert forall|k: int| 0 <= k < partition_indexs@.len() implies #[trigger] partition_indexs@[k]
            < points@.len() by {}
    }
    let partition_points = select_points(&points, &partition_indexs);
    proof {
        assert(partition_points@.first() == points@[partition_indexs@[0] as int]);
        assert(partition_points@.last() == points@[partition_indexs@.last() as int]);
        assert(measures_of(*measure, trajectory, costs));
        assert(partition_points@ == partition_points_of(trajectory, costs));
    }
    ThickTrajectory::new(id, partition_points)
}

/// Reduces each trajectory to its characteristic points.
pub fn partition_trajectories<P: Copy, F: Fn(&Trajectory<P>, usize, usize) -> WindowCost>(
    trajectories: Vec<Trajectory<P>>,
    measure: &F,
) -> (thick: Vec<ThickTrajectory<P>>)
    requires
        forall|t: int, first: usize, last: usize|
            0 <= t < trajectories.len() && first < last < trajectories@[t]@.points.len()
                ==> call_requires(*measure, (&#[trigger] trajectories@[t], first, last)),
        forall|t: int| 0 <= t < trajectories.len() ==> (#[trigger] trajectories@[t])@.points.len() >= 1,
    ensures
        thick.len() == trajectories.len(),
        forall|t: int|
            0 <= t < trajectories.len() ==> {
                &&& (#[trigger] thick@[t])@.id == trajectories@[t]@.id
                &&& exists|costs: Seq<WindowCost>|
                    measures_of(*measure, trajectories@[t], costs) && thick@[t]@.partition_points
                        == partition_points_of(trajectories@[t], costs)
                &&& thick@[t]@.partition_points.len() >= 1
                &&& thick@[t]@.partition_points.first() == trajectories@[t]@.points.first()
                &&& thick@[t]@.partition_points.last() == trajectories@[t]@.points.last()
            },
{
    let ghost all = trajectories@;
    let mut thick: Vec<ThickTrajectory<P>> = Vec::new();
    for trajectory in it: trajectories
        invariant
            it.seq() == all,
            forall|t: int, first: usize, last: usize|
                0 <= t < all.len() && first < last < all[t]@.points.len() ==> call_requires(
                    *measure,
                    (&#[trigger] all[t], first, last),
                ),
            forall|t: int| 0 <= t < all.len() ==> (#[trigger] all[t])@.points.len() >= 1,
            thick.len() == it.index(),
            forall|t: int|
                0 <= t < thick.len() ==> {
                    &&& (#[trigger] thick@[t])@.id == all[t]@.id
                    &&& exists|costs: Seq<WindowCost>|
                        measures_of(*measure, all[t], costs) && thick@[t]@.partition_points
                            == partition_points_of(all[t], costs)
                    &&& thick@[t]@.partition_points.len() >= 1
                    &&& thick@[t]@.partition_points.first() == all[t]@.points.first()
                    &&& thick@[t]@.partition_points.last() == all[t]@.points.last()
                },
    {
        let ghost at = thick.len() as int;
        assert(trajectory == all[at]);
        assert(all[at]@.points.len() >= 1);
        let reduced = partition_trajectory(trajectory, measure);
        thick.push(reduced);
    }
    thick
}

/// What tells one line segment from another but its identity: its
/// trajectory and its two ends.
pub open spec fn segment_keys(segments: Seq<LineSegment>) -> Seq<(usize, (usize, usize))> {
    segments.map_values(
        |segment: LineSegment| (segment.spec_trajectory_id(), segment.spec_start_end_points()),
    )
}

/// The line segments of one partitioned trajectory over its first `upto`
/// steps: one for each step that is long enough.
pub open spec fn lines_of(id: usize, long_enough: Seq<bool>, upto: int) -> Seq<(usize, (usize, usize))>
    decreases upto,
{
    if upto <= 0 {
        Seq::empty()
    } else if long_enough[upto - 1] {
        lines_of(id, long_enough, upto - 1).push((id, ((upto - 1) as usize, upto as usize)))
    } else {
        lines_of(id, long_enough, upto - 1)
    }
}

/// The line segments of the first `upto` partitioned trajectories.
pub open spec fn lines_upto<P>(
    trajectories: Seq<ThickTrajectory<P>>,
    long_enough: Seq<Vec<bool>>,
    upto: int,
) -> Seq<(usize, (usize, usize))>
    decreases upto,
{
    if upto <= 0 {
        Seq::empty()
    } else {
        lines_upto(trajectories, long_enough, upto - 1) + lines_of(
            trajectories[upto - 1]@.id,
            long_enough[upto - 1]@,
            long_enough[upto - 1]@.len() as int,
        )
    }
}

/// Joins the characteristic points of each trajectory into line segments.
/// `long_enough` says of each step between two consecutive characteristic
/// points whether it reaches the minimum length; a shorter step gives no
/// segment.
pub fn get_partition_line<P>(trajectories: &Vec<ThickTrajectory<P>>, long_enough: &Vec<Vec<bool>>) -> (line_segments:
    Vec<LineSegment>)
    requires
        long_enough.len() == trajectories.len(),
        forall|t: int|
            0 <= t < trajectories.len() ==> (#[trigger] long_enough@[t])@.len() + 1
                == trajectories@[t]@.partition_points.len(),
    ensures
        segment_keys(line_segments@) == lines_upto(
            trajectories@,
            long_enough@,
            trajectories.len() as int,
        ),
{
    let mut line_segments: Vec<LineSegment> = Vec::new();
    let mut t: usize = 0;
    assert(segment_keys(line_segments@) =~= lines_upto(trajectories@, long_enough@, 0));
    while t < trajectories.len()
        invariant
            t <= trajectories.len(),
            long_enough.len() == trajectories.len(),
            forall|u: int|
                0 <= u < trajectories.len() ==> (#[trigger] long_enough@[u])@.len() + 1
                    == trajectories@[u]@.partition_points.len(),
            segment_keys(line_segments@) == lines_upto(trajectories@, long_enough@, t as int),
        decreases trajectories.len() - t,
    {
        let trajectory = &trajectories[t];
        let flags = &long_enough[t];
        assert(long_enough@[t as int]@.len() + 1 == trajectories@[t as int]@.partition_points.len());
        let id = trajectory.get_id();
        let steps = trajectory.get_len() - 1;
        let ghost before = segment_keys(line_segments@);
        let mut i: usize = 0;
        assert(before + lines_of(id, flags@, 0) =~= before);
        while i < steps
            invariant
                i <= steps,
                steps == flags.len(),
                steps < usize::MAX,
                segment_keys(line_segments@) == before + lines_of(id, flags@, i as int),
            decreases steps - i,
        {
            if flags[i] {
                let line_segment = LineSegment::new(id, i, i + 1);
                let ghost earlier = line_segments@;
                line_segments.push(line_segment);
                assert(segment_keys(line_segments@) =~= segment_keys(earlier).push(
                    (id, (i, (i + 1) as usize)),
                ));
                assert(before + lines_of(id, flags@, i + 1) =~= (before + lines_of(id, flags@, i as int)).push(
                    (id, (i, (i + 1) as usize)),
                ));
            }
            i += 1;
        }
        t += 1;
    }
    line_segments
}

} // verus!
