//! Scheduling: the data access of systems, the ordering of systems into
//! stages, and the running of stages.

pub mod bits;
pub mod access;
pub mod depend;
pub mod interface;
pub mod schedule;
