//! Exhaustive search for the best module combinations.
//!
//! Every attribute of a combination sums its values and reaches a level from 0 to 6. Combinations
//! are ranked by a key of six numbers, of which the first that differs decides; equal keys rank by
//! the positions of the modules.

pub mod accum;
pub mod answers;
pub mod bounds;
pub mod bridge;
pub mod engines;
pub mod gpu;
pub mod gpu_data;
pub mod gpu_key;
pub mod gpu_laws;
pub mod gpu_plan;
pub mod gpu_run;
pub mod gpu_seed;
pub mod laws;
pub mod levels;
pub mod limits;
pub mod model;
pub mod optimize;
pub mod plain;
pub mod prepare;
pub mod ranking;
pub mod request;
pub mod search;
pub mod solution;
pub mod space;
pub mod sums;

pub use accum::RankMode;
pub use model::{category_of, Module, Part};
pub use optimize::{optimize, OptimizeResult};
pub use solution::{AttrBreakdown, Solution};
