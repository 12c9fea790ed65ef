//! Systems: their ids, inputs and parameters.

pub mod param;
pub mod system;
