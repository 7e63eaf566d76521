//! Integer core of a small differential-drive robot: a time-indexed sample
//! buffer and a time-keyed map, the lidar's framed "ultra-capsule" protocol
//! and scan assembly, the motor controller's serial framing, the decisions of
//! the two sensor tasks, and the topology of the pose graph.

pub mod drivetrain;
pub mod lidar;
pub mod pose_graph;
pub mod utils;
