//! The parameters a system gets from the world.

pub mod command;
pub mod entities;
pub mod param_set;
pub mod query;
pub mod res;
pub mod tick;
