use traclus::lists::list_contains;
use traclus::models::candidate_point::{comes_before, sorted_points, CandidatePoint};
use traclus::models::cluster::Cluster;
use traclus::models::line_segment::LineSegment;
use traclus::models::line_segment_cluster::LineSegmentCluster;
use traclus::models::representative_point::RepresentativePoint;
use traclus::models::thick_trajectory::ThickTrajectory;
use traclus::models::trajectory::Trajectory;

#[test]
fn a_candidate_point_keeps_what_it_was_made_of() {
    let point = CandidatePoint::new(3, -12);
    assert_eq!(point.get_line_segment_id(), 3);
    assert_eq!(point.get_ordering_value(), -12);
}

#[test]
fn candidate_points_are_ordered_by_value_then_segment() {
    let low = CandidatePoint::new(9, 1);
    let high = CandidatePoint::new(0, 2);
    assert!(comes_before(&low, &high));
    assert!(!comes_before(&high, &low));
    let first = CandidatePoint::new(1, 5);
    let second = CandidatePoint::new(2, 5);
    assert!(comes_before(&first, &second));
    assert!(!comes_before(&second, &first));
    assert!(comes_before(&first, &first));
}

#[test]
fn sorting_keeps_every_point() {
    let points: Vec<CandidatePoint> = [(2usize, 4i64), (2, 4), (0, 8), (1, -3), (0, -3)]
        .iter()
        .map(|(id, value)| CandidatePoint::new(*id, *value))
        .collect();
    let sorted: Vec<(i64, usize)> = sorted_points(&points)
        .iter()
        .map(|point| (point.get_ordering_value(), point.get_line_segment_id()))
        .collect();
    assert_eq!(sorted, vec![(-3, 0), (-3, 1), (4, 2), (4, 2), (8, 0)]);
    assert_eq!(sorted_points(&Vec::new()).len(), 0);
}

#[test]
fn a_line_segment_keeps_its_trajectory_and_ends() {
    let segment = LineSegment::new(6, 2, 3);
    assert_eq!(segment.get_trajectory_id(), 6);
    assert_eq!(segment.extract_start_end_points(), (2, 3));
}

#[test]
fn every_line_segment_has_an_identity_of_its_own() {
    let first = LineSegment::new(6, 2, 3);
    let second = LineSegment::new(6, 2, 3);
    assert_ne!(first.get_uuid(), second.get_uuid());
    assert!(first != second);
    assert!(first == first);
    // Version 4, variant 1: the marks of a random identifier.
    assert_eq!((first.get_uuid() >> 76) & 0xf, 4);
    assert_eq!((first.get_uuid() >> 62) & 0x3, 2);
}

#[test]
fn a_new_line_segment_cluster_is_empty() {
    let cluster = LineSegmentCluster::new(5);
    assert_eq!(cluster.get_id(), 5);
    assert_eq!(cluster.get_num_of_line_segments(), 0);
    assert_eq!(cluster.get_trajectory_length(), 0);
    assert_eq!(cluster.len(), 0);
    assert!(!cluster.get_enable());
    assert_eq!(cluster.get_points().len(), 0);
}

#[test]
fn a_line_segment_cluster_collects() {
    let mut cluster = LineSegmentCluster::new(1);
    cluster.add_num_of_line_segments();
    cluster.add_num_of_line_segments();
    assert_eq!(cluster.get_num_of_line_segments(), 2);
    cluster.insert(8);
    cluster.insert(8);
    cluster.insert(3);
    assert_eq!(cluster.get_trajectory_length(), 2);
    assert!(cluster.contains(&8));
    assert!(!cluster.contains(&1));
    cluster.push(CandidatePoint::new(0, 7));
    assert_eq!(cluster.len(), 1);
    assert_eq!(cluster.get_nth_candidate_point(0).get_ordering_value(), 7);
    cluster.enable();
    assert!(cluster.get_enable());
    cluster.add_point(RepresentativePoint { ordering_value: 1, line_segment_ids: vec![0] });
    let points = cluster.get_points();
    assert_eq!(points.len(), 1);
    assert_eq!(points[0].ordering_value, 1);
}

#[test]
fn a_cluster_holds_its_line() {
    let mut cluster =
        Cluster::new(2, vec![RepresentativePoint { ordering_value: 4, line_segment_ids: vec![1] }]);
    assert_eq!(cluster.get_id(), 2);
    assert_eq!(cluster.get_len(), 1);
    cluster.add_point(RepresentativePoint { ordering_value: 9, line_segment_ids: vec![1, 2] });
    assert_eq!(cluster.get_len(), 2);
    assert_eq!(cluster.get_points()[1].ordering_value, 9);
    assert_eq!(cluster.get_points()[1].line_segment_ids, vec![1, 2]);
}

#[test]
fn a_trajectory_holds_its_points_in_order() {
    let mut trajectory: Trajectory<(f64, f64)> = Trajectory::new(4);
    assert_eq!(trajectory.get_id(), 4);
    assert_eq!(trajectory.get_points_len(), 0);
    assert_eq!(trajectory.get_point(0), None);
    trajectory.add_point((1.5, 2.5));
    trajectory.add_point((3.5, 4.5));
    assert_eq!(trajectory.get_points_len(), 2);
    assert_eq!(trajectory.get_point(1), Some(&(3.5, 4.5)));
    assert_eq!(trajectory.get_point(2), None);
    assert_eq!(trajectory.get_points(), vec![(1.5, 2.5), (3.5, 4.5)]);
}

#[test]
fn a_thick_trajectory_holds_its_partition_points() {
    let trajectory = ThickTrajectory::new(9, vec!['a', 'z']);
    assert_eq!(trajectory.get_id(), 9);
    assert_eq!(trajectory.get_len(), 2);
    assert_eq!(trajectory.get_partition_point(0), Some(&'a'));
    assert_eq!(trajectory.get_partition_point(1), Some(&'z'));
    assert_eq!(trajectory.get_partition_point(2), None);
}

#[test]
fn a_list_is_searched() {
    assert!(list_contains(&vec![4, 1, 7], 7));
    assert!(!list_contains(&vec![4, 1, 7], 2));
    assert!(!list_contains(&Vec::new(), 0));
}
