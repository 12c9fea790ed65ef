//! Systems: their ids and their inputs.
use vstd::prelude::*;

verus! {

/// The id of a system.
#[derive(Clone, Copy, Debug, PartialEq, Eq, Structural)]
pub struct SystemId(pub usize);

impl SystemId {
    /// The system id `v`.
    pub fn new(v: usize) -> (r: Self)
        ensures
            r.0 == v,
    {
        SystemId(v)
    }

    /// The number of this id.
    pub fn id(&self) -> (r: usize)
        ensures
            r == self.0,
    {
        self.0
    }
}

/// The input of a system that takes one.
pub struct In<T>(pub T);

/// Marks systems that take an input.
pub struct InputMarker;

/// Marks systems that give an output.
pub struct OutputMarker;

/// What a system can take as input.
pub trait SysInput {}

impl SysInput for () {}

impl<T> SysInput for In<T> {}

impl SysInput for crate::monitor::Event {}

/// Marks systems that run synchronously.
pub struct SyncMarker;

} // verus!
