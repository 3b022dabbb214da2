use traclus::cluster_gen::{construct_cluster, construct_line_segment_cluster, get_candidate_points};
use traclus::models::candidate_point::CandidatePoint;
use traclus::models::line_segment::LineSegment;
use traclus::models::line_segment_cluster::LineSegmentCluster;
use traclus::models::representative_point::RepresentativePoint;

fn candidates(cluster: &LineSegmentCluster) -> Vec<(i64, usize)> {
    (0..cluster.len())
        .map(|at| {
            let point = cluster.get_nth_candidate_point(at);
            (point.get_ordering_value(), point.get_line_segment_id())
        })
        .collect()
}

fn point(ordering_value: i64, line_segment_ids: Vec<usize>) -> RepresentativePoint {
    RepresentativePoint { ordering_value, line_segment_ids }
}

#[test]
fn a_segment_gives_two_candidate_points_and_its_trajectory() {
    let mut cluster = LineSegmentCluster::new(0);
    let first = LineSegment::new(11, 0, 1);
    let second = LineSegment::new(11, 1, 2);
    let third = LineSegment::new(12, 0, 1);
    get_candidate_points(&mut cluster, &first, 4, (30, 10));
    get_candidate_points(&mut cluster, &second, 5, (10, -20));
    get_candidate_points(&mut cluster, &third, 6, (0, 5));
    assert_eq!(candidates(&cluster), vec![(30, 4), (10, 4), (10, 5), (-20, 5), (0, 6), (5, 6)]);
    assert_eq!(cluster.get_trajectory_length(), 2);
    assert!(cluster.contains(&11));
    assert!(cluster.contains(&12));
    assert!(!cluster.contains(&4));
}

#[test]
fn two_tracks_side_by_side_make_one_enabled_cluster() {
    let segments = vec![LineSegment::new(0, 0, 1), LineSegment::new(1, 0, 1)];
    let clusters = construct_line_segment_cluster(
        1,
        2,
        35,
        &vec![0, 0],
        &segments,
        &vec![(100, 300), (100, 300)],
    );
    assert_eq!(clusters.len(), 1);
    let cluster = &clusters[0];
    assert_eq!(cluster.get_id(), 0);
    assert_eq!(cluster.get_num_of_line_segments(), 2);
    assert_eq!(cluster.get_trajectory_length(), 2);
    assert_eq!(candidates(cluster), vec![(100, 0), (100, 1), (300, 0), (300, 1)]);
    assert!(cluster.get_enable());
    let lines = construct_cluster(clusters);
    assert_eq!(lines.len(), 1);
    assert_eq!(lines[0].get_id(), 0);
    assert_eq!(lines[0].get_len(), 2);
    let points = lines[0].get_points();
    assert_eq!(points[0].ordering_value, 100);
    assert_eq!(points[0].line_segment_ids, vec![0, 1]);
    assert_eq!(points[1].ordering_value, 300);
    assert_eq!(points[1].line_segment_ids, vec![0, 1]);
}

#[test]
fn a_cluster_with_too_few_trajectories_is_not_enabled() {
    // Two segments, but both of trajectory 4.
    let segments = vec![LineSegment::new(4, 0, 1), LineSegment::new(4, 1, 2)];
    let clusters = construct_line_segment_cluster(
        1,
        2,
        35,
        &vec![0, 0],
        &segments,
        &vec![(100, 300), (100, 300)],
    );
    assert_eq!(clusters[0].get_num_of_line_segments(), 2);
    assert_eq!(clusters[0].get_trajectory_length(), 1);
    assert!(!clusters[0].get_enable());
    assert_eq!(construct_cluster(clusters).len(), 0);
}

#[test]
fn a_cluster_with_a_single_point_is_not_enabled() {
    let segments = vec![LineSegment::new(0, 0, 1), LineSegment::new(1, 0, 1)];
    let clusters = construct_line_segment_cluster(
        1,
        2,
        35,
        &vec![0, 0],
        &segments,
        &vec![(0, 200), (0, 200)],
    );
    assert_eq!(clusters[0].get_trajectory_length(), 2);
    assert!(!clusters[0].get_enable());
    assert_eq!(construct_cluster(clusters).len(), 0);
}

#[test]
fn noise_is_in_no_cluster_and_an_end_may_come_before_a_start() {
    let segments = vec![
        LineSegment::new(0, 0, 1),
        LineSegment::new(1, 0, 1),
        LineSegment::new(2, 0, 1),
        LineSegment::new(3, 0, 1),
        LineSegment::new(4, 0, 1),
    ];
    let clusters = construct_line_segment_cluster(
        3,
        2,
        35,
        &vec![2, -1, 0, 2, 0],
        &segments,
        &vec![(400, 100), (0, 50), (40, 90), (100, 400), (90, 40)],
    );
    assert_eq!(clusters.len(), 3);
    assert_eq!(candidates(&clusters[0]), vec![(40, 2), (40, 4), (90, 2), (90, 4)]);
    assert_eq!(candidates(&clusters[1]), vec![]);
    assert_eq!(candidates(&clusters[2]), vec![(100, 0), (100, 3), (400, 0), (400, 3)]);
    assert_eq!(clusters[0].get_num_of_line_segments(), 2);
    assert_eq!(clusters[1].get_num_of_line_segments(), 0);
    assert_eq!(clusters[2].get_num_of_line_segments(), 2);
    assert!(clusters[0].get_enable());
    assert!(!clusters[1].get_enable());
    assert!(clusters[2].get_enable());
    let lines = construct_cluster(clusters);
    assert_eq!(lines.len(), 2);
    assert_eq!(lines[0].get_id(), 0);
    assert_eq!(lines[1].get_id(), 1);
    assert_eq!(lines[0].get_points()[0].line_segment_ids, vec![2, 4]);
    assert_eq!(lines[1].get_points()[0].line_segment_ids, vec![0, 3]);
    assert_eq!(lines[1].get_points()[1].ordering_value, 400);
}

#[test]
fn no_clusters_are_built_from_noise_alone() {
    let segments = vec![LineSegment::new(0, 0, 1), LineSegment::new(1, 0, 1)];
    let clusters =
        construct_line_segment_cluster(0, 100, 35, &vec![-1, -1], &segments, &vec![(0, 9), (5, 7)]);
    assert_eq!(clusters.len(), 0);
    assert_eq!(construct_cluster(clusters).len(), 0);
}

#[test]
fn only_enabled_clusters_with_two_points_are_kept() {
    let mut enabled_with_line = LineSegmentCluster::new(10);
    enabled_with_line.add_point(point(1, vec![0]));
    enabled_with_line.add_point(point(2, vec![0]));
    enabled_with_line.enable();

    let mut disabled_with_line = LineSegmentCluster::new(11);
    disabled_with_line.add_point(point(3, vec![1]));
    disabled_with_line.add_point(point(4, vec![1]));

    let mut enabled_with_one_point = LineSegmentCluster::new(12);
    enabled_with_one_point.add_point(point(5, vec![2]));
    enabled_with_one_point.enable();

    let mut enabled_with_three = LineSegmentCluster::new(13);
    enabled_with_three.add_point(point(6, vec![3]));
    enabled_with_three.add_point(point(7, vec![3, 4]));
    enabled_with_three.add_point(point(8, vec![4]));
    enabled_with_three.enable();

    let lines = construct_cluster(vec![
        enabled_with_line,
        disabled_with_line,
        enabled_with_one_point,
        enabled_with_three,
    ]);
    assert_eq!(lines.len(), 2);
    assert_eq!(lines[0].get_id(), 0);
    assert_eq!(lines[0].get_len(), 2);
    assert_eq!(lines[0].get_points()[1].ordering_value, 2);
    assert_eq!(lines[1].get_id(), 1);
    assert_eq!(lines[1].get_len(), 3);
    assert_eq!(lines[1].get_points()[1].line_segment_ids, vec![3, 4]);
    for line in &lines {
        assert!(line.get_len() >= 2);
    }
}

#[test]
fn candidate_points_are_put_in_the_order_of_the_sweep() {
    let mut cluster = LineSegmentCluster::new(0);
    for (id, value) in [(3usize, 5i64), (1, 5), (2, -7), (0, 9), (1, -7), (2, 5)] {
        cluster.push(CandidatePoint::new(id, value));
    }
    cluster.sort();
    assert_eq!(candidates(&cluster), vec![(-7, 1), (-7, 2), (5, 1), (5, 2), (5, 3), (9, 0)]);
}
