use traclus::cluster_gen::compute_representative_lines;
use traclus::models::candidate_point::CandidatePoint;
use traclus::models::line_segment::LineSegment;
use traclus::models::line_segment_cluster::LineSegmentCluster;

fn cluster_of(points: &[(usize, i64)]) -> LineSegmentCluster {
    let mut cluster = LineSegmentCluster::new(0);
    for (id, value) in points {
        cluster.push(CandidatePoint::new(*id, *value));
    }
    cluster.sort();
    cluster
}

fn placed(cluster: LineSegmentCluster) -> Vec<(i64, Vec<usize>)> {
    cluster
        .get_points()
        .into_iter()
        .map(|point| (point.ordering_value, point.line_segment_ids))
        .collect()
}

#[test]
fn two_overlapping_segments_get_two_points() {
    let segments = vec![LineSegment::new(0, 0, 1), LineSegment::new(1, 0, 1)];
    let mut cluster = cluster_of(&[(0, 0), (0, 100), (1, 40), (1, 140)]);
    let count = compute_representative_lines(2, 35, &mut cluster, &segments);
    assert_eq!(count, 2);
    assert_eq!(placed(cluster), vec![(40, vec![0, 1]), (100, vec![0, 1])]);
}

#[test]
fn a_single_point_is_reported_as_none() {
    let segments = vec![LineSegment::new(0, 0, 1), LineSegment::new(1, 0, 1)];
    let mut cluster = cluster_of(&[(0, 0), (0, 100), (1, 10), (1, 110)]);
    let count = compute_representative_lines(2, 35, &mut cluster, &segments);
    assert_eq!(count, 0);
    assert_eq!(placed(cluster), vec![(100, vec![0, 1])]);
}

#[test]
fn the_first_gap_is_measured_from_zero() {
    let segments = vec![LineSegment::new(0, 0, 1), LineSegment::new(1, 0, 1)];
    let mut at_zero = cluster_of(&[(0, 0), (0, 200), (1, 0), (1, 200)]);
    assert_eq!(compute_representative_lines(2, 35, &mut at_zero, &segments), 0);
    assert_eq!(placed(at_zero), vec![(200, vec![0, 1])]);

    let mut moved = cluster_of(&[(0, 100), (0, 300), (1, 100), (1, 300)]);
    assert_eq!(compute_representative_lines(2, 35, &mut moved, &segments), 2);
    assert_eq!(placed(moved), vec![(100, vec![0, 1]), (300, vec![0, 1])]);
}

#[test]
fn the_gap_must_be_exceeded() {
    let segments = vec![LineSegment::new(0, 0, 1), LineSegment::new(1, 0, 1)];
    let mut exact = cluster_of(&[(0, 35), (0, 70), (1, 35), (1, 70)]);
    assert_eq!(compute_representative_lines(2, 35, &mut exact, &segments), 0);
    assert_eq!(placed(exact), vec![(70, vec![0, 1])]);

    let mut above = cluster_of(&[(0, 36), (0, 72), (1, 36), (1, 72)]);
    assert_eq!(compute_representative_lines(2, 35, &mut above, &segments), 2);
    assert_eq!(placed(above), vec![(36, vec![0, 1]), (72, vec![0, 1])]);
}

#[test]
fn the_gap_is_a_distance() {
    let segments = vec![LineSegment::new(0, 0, 1), LineSegment::new(1, 0, 1)];
    let mut cluster = cluster_of(&[(0, -300), (0, -100), (1, -300), (1, -100)]);
    assert_eq!(compute_representative_lines(2, 35, &mut cluster, &segments), 2);
    assert_eq!(placed(cluster), vec![(-300, vec![0, 1]), (-100, vec![0, 1])]);
}

#[test]
fn a_segment_across_the_sweep_line_is_left_out() {
    let segments =
        vec![LineSegment::new(0, 0, 1), LineSegment::new(1, 0, 1), LineSegment::new(2, 0, 1)];
    let mut cluster = cluster_of(&[(0, 40), (0, 140), (1, 40), (1, 140), (2, 90), (2, 90)]);
    let count = compute_representative_lines(2, 35, &mut cluster, &segments);
    assert_eq!(count, 3);
    assert_eq!(
        placed(cluster),
        vec![(40, vec![0, 1]), (90, vec![0, 1]), (140, vec![0, 1])]
    );
}

#[test]
fn a_segment_hands_over_to_its_successor() {
    let segments =
        vec![LineSegment::new(7, 0, 1), LineSegment::new(7, 1, 2), LineSegment::new(8, 0, 1)];
    let mut cluster = cluster_of(&[(0, 0), (0, 50), (1, 50), (1, 100), (2, 0), (2, 100)]);
    let count = compute_representative_lines(2, 10, &mut cluster, &segments);
    assert_eq!(count, 2);
    assert_eq!(placed(cluster), vec![(50, vec![1, 2]), (100, vec![1, 2])]);
}

#[test]
fn segments_of_other_trajectories_do_not_hand_over() {
    let segments =
        vec![LineSegment::new(7, 0, 1), LineSegment::new(9, 0, 1), LineSegment::new(8, 0, 1)];
    let mut cluster = cluster_of(&[(0, 0), (0, 50), (1, 50), (1, 100), (2, 0), (2, 100)]);
    let count = compute_representative_lines(2, 10, &mut cluster, &segments);
    assert_eq!(count, 2);
    assert_eq!(placed(cluster), vec![(50, vec![0, 1, 2]), (100, vec![1, 2])]);
}

#[test]
fn only_one_segment_of_a_batch_hands_over() {
    let segments = vec![
        LineSegment::new(7, 0, 1),
        LineSegment::new(7, 1, 2),
        LineSegment::new(8, 0, 1),
        LineSegment::new(8, 1, 2),
    ];
    let mut cluster = cluster_of(&[
        (0, 20),
        (0, 50),
        (1, 50),
        (1, 100),
        (2, 20),
        (2, 50),
        (3, 50),
        (3, 100),
    ]);
    let count = compute_representative_lines(2, 10, &mut cluster, &segments);
    assert_eq!(count, 3);
    assert_eq!(
        placed(cluster),
        vec![(20, vec![0, 2]), (50, vec![1, 2, 3]), (100, vec![1, 3])]
    );
}

#[test]
fn too_few_crossing_segments_place_nothing() {
    let segments = vec![LineSegment::new(0, 0, 1), LineSegment::new(1, 0, 1)];
    let mut cluster = cluster_of(&[(0, 40), (0, 100), (1, 200), (1, 300)]);
    assert_eq!(compute_representative_lines(2, 35, &mut cluster, &segments), 0);
    assert_eq!(placed(cluster), vec![]);
}

#[test]
fn no_candidate_points_place_nothing() {
    let segments: Vec<LineSegment> = Vec::new();
    let mut cluster = LineSegmentCluster::new(3);
    assert_eq!(compute_representative_lines(1, 0, &mut cluster, &segments), 0);
    assert_eq!(cluster.len(), 0);
    assert_eq!(placed(cluster), vec![]);
}

#[test]
fn the_last_batch_is_swept_too() {
    let segments = vec![LineSegment::new(0, 0, 1)];
    let mut cluster = cluster_of(&[(0, 40), (0, 100)]);
    assert_eq!(compute_representative_lines(1, 35, &mut cluster, &segments), 2);
    assert_eq!(placed(cluster), vec![(40, vec![0]), (100, vec![0])]);
}

#[test]
fn the_sweep_keeps_the_points_that_were_there() {
    let segments = vec![LineSegment::new(0, 0, 1)];
    let mut cluster = cluster_of(&[(0, 40), (0, 100)]);
    cluster.add_point(traclus::models::representative_point::RepresentativePoint {
        ordering_value: -5,
        line_segment_ids: vec![9],
    });
    assert_eq!(compute_representative_lines(1, 35, &mut cluster, &segments), 2);
    assert_eq!(placed(cluster), vec![(-5, vec![9]), (40, vec![0]), (100, vec![0])]);
}

#[test]
fn every_point_has_enough_segments_and_keeps_its_distance() {
    let mut seed: u64 = 0x2545_f491_4f6c_dd1d;
    let mut next = move |bound: u64| {
        seed ^= seed << 13;
        seed ^= seed >> 7;
        seed ^= seed << 17;
        seed % bound
    };
    for round in 0..200 {
        let segment_count = 1 + next(6) as usize;
        let min_lns = 1 + next(3) as usize;
        let min_gap = next(40);
        let segments: Vec<LineSegment> =
            (0..segment_count).map(|_| LineSegment::new(next(3) as usize, 0, 1)).collect();
        let mut points = Vec::new();
        for id in 0..segment_count {
            points.push((id, next(12) as i64 * 10 - 30));
            points.push((id, next(12) as i64 * 10 - 30));
        }
        let mut cluster = cluster_of(&points);
        let count = compute_representative_lines(min_lns, min_gap, &mut cluster, &segments);
        let placed = placed(cluster);
        assert_eq!(count, if placed.len() >= 2 { placed.len() } else { 0 }, "round {}", round);
        let mut prev = 0;
        for (value, ids) in &placed {
            assert!(ids.len() >= min_lns);
            assert!(ids.windows(2).all(|pair| pair[0] < pair[1]));
            assert!(ids.iter().all(|id| *id < segment_count));
            assert!(value.abs_diff(prev) > min_gap);
            prev = *value;
        }
    }
}
