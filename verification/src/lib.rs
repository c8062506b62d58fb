//! Planning, bookkeeping and report rendering for a read-only block device
//! transfer-rate sampler.

pub mod clock;
pub mod config;
pub mod console;
pub mod device;
pub mod error;
pub mod escape;
pub mod human;
pub mod markdown;
pub mod path;
pub mod report;
pub mod run;
pub mod sampling;
pub mod svg;
pub mod text;
