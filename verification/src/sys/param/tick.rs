//! The ticks of a running system.
use vstd::prelude::*;
use crate::world::World;

verus! {

/// The tick at which the system last ran and the current tick.
#[derive(Clone, Copy, Debug, PartialEq, Eq, Structural)]
pub struct Tick {
    pub last_change_tick: u32,
    pub change_tick: u32,
}

/// Hands out `Tick`s.
pub struct TickState {}

impl TickState {
    /// Ready to hand out ticks.
    pub fn init() -> (r: Self) {
        TickState {}
    }

    /// The ticks of a system run at `change_tick` in `world`: the last
    /// change tick is the world's.
    pub fn get_param<V, R>(&self, world: &World<V, R>, change_tick: u32) -> (r: Tick)
        ensures
            r == (Tick { last_change_tick: world.last_tick(), change_tick }),
    {
        Tick { change_tick, last_change_tick: world.last_change_tick() }
    }
}

} // verus!
