//! Queries: what is read of the entities of an archetype, the filters that
//! select entities, and the iteration over the selected entities.

pub mod fetch;
pub mod filter;
pub mod iter;
pub mod state;
