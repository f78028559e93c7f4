//! What holds of the store as a whole: laws that relate several
//! operations. Each is stated over the model of [`crate::model`], in which
//! the contracts of the operations are written, so each holds of the
//! operations themselves wherever they succeed.

pub mod flat;
pub mod counters;
pub mod lists;
pub mod maps;
pub mod isolation;
pub mod scan;
pub mod reaper;
