pub mod candidate_point;
pub mod cluster;
pub mod line_segment;
pub mod line_segment_cluster;
pub mod merge_indexs;
pub mod representative_point;
pub mod thick_trajectory;
pub mod trajectory;
