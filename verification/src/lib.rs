//! A verified core of an entity-component-system: entity and component
//! storage, archetypes, resources, change ticks, listener events, query
//! filters, command queues and the scheduling logic of the dispatcher.

pub mod storage;
pub mod entity;
pub mod monitor;
pub mod component;
pub mod archetype;
pub mod resource;
pub mod dispatch;
pub mod world;
pub mod query;
pub mod sys;
