//! Host telemetry core: sampling reductions, process aggregation, dual-rate
//! smoothing, fixed-size histories and compact text graphs.

pub mod text;
pub mod graph;
pub mod process;
pub mod smooth;
pub mod sampler;
pub mod history;
pub mod monitor;
