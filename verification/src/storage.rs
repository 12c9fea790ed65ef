//! Identifiers of slots: a `Local` is a plain index, a `LocalVersion` packs a
//! slot index in its low 32 bits and a version in its high 32 bits.
use vstd::prelude::*;

verus! {

/// The largest value that fits in 32 bits, plus one.
pub open spec fn two_pow_32() -> nat {
    0x1_0000_0000
}

/// Anything that designates a slot of a dense store by an index.
pub trait Offset: Clone {
    /// The index this value designates.
    spec fn offset_of(&self) -> nat;

    /// Returns the index this value designates.
    fn offset(&self) -> (r: usize)
        ensures
            r as nat == self.offset_of(),
    ;
}

/// An `Offset` that can be built back from its index.
pub trait FromOffset: Offset {
    /// Builds the value that designates `offset`.
    fn from_offset(offset: usize) -> (r: Self)
        ensures
            r.offset_of() == offset as nat,
    ;
}

/// A key made of a slot index (low 32 bits) and a version (high 32 bits).
#[derive(Debug, Copy, Clone, Hash, Ord, PartialOrd, Eq, PartialEq, Default, Structural)]
pub struct LocalVersion(pub u64);

impl LocalVersion {
    /// The slot index of a raw key.
    pub open spec fn index_of(raw: u64) -> nat {
        (raw as nat) % two_pow_32()
    }

    /// The version of a raw key.
    pub open spec fn version_of(raw: u64) -> nat {
        (raw as nat) / two_pow_32()
    }

    /// The raw value of this key.
    pub open spec fn raw(&self) -> u64 {
        self.0
    }

    /// The key whose raw value is `value`.
    pub fn from_ffi(value: u64) -> (r: Self)
        ensures
            r.raw() == value,
    {
        LocalVersion(value)
    }

    /// The raw value of this key.
    pub fn as_ffi(&self) -> (r: u64)
        ensures
            r == self.raw(),
    {
        self.0
    }

    /// The key for slot `index` at `version`.
    pub fn new(index: u32, version: u32) -> (r: Self)
        ensures
            Self::index_of(r.raw()) == index as nat,
            Self::version_of(r.raw()) == version as nat,
            r.raw() as nat == (version as nat) * two_pow_32() + index as nat,
    {
        let raw: u64 = (version as u64) * 0x1_0000_0000u64 + (index as u64);
        assert(raw as nat % two_pow_32() == index as nat && raw as nat / two_pow_32() == version as nat) by (nonlinear_arith)
            requires
                raw as nat == (version as nat) * two_pow_32() + index as nat,
                (index as nat) < two_pow_32(),
                two_pow_32() == 0x1_0000_0000,
        ;
        LocalVersion(raw)
    }

    /// The null key, which designates no slot.
    pub open spec fn null_raw() -> u64 {
        u64::MAX
    }

    /// The null key, which designates no slot.
    pub fn null() -> (r: Self)
        ensures
            r.raw() == Self::null_raw(),
    {
        LocalVersion(u64::MAX)
    }

    /// Whether this is the null key.
    pub fn is_null(&self) -> (r: bool)
        ensures
            r == (self.raw() == Self::null_raw()),
    {
        self.0 == u64::MAX
    }
}

impl Offset for LocalVersion {
    open spec fn offset_of(&self) -> nat {
        Self::index_of(self.0)
    }

    fn offset(&self) -> (r: usize) {
        let v: u64 = self.0;
        let low: u64 = v & 0xffff_ffffu64;
        assert(low == v % 0x1_0000_0000u64 && low < 0x1_0000_0000u64) by (bit_vector)
            requires
                low == v & 0xffff_ffffu64,
        ;
        low as usize
    }
}

/// A plain index: archetype ids, component ids and archetype component ids
/// are all of this kind.
#[derive(Debug, Copy, Clone, Hash, Ord, PartialOrd, Eq, PartialEq, Default, Structural)]
pub struct Local(pub usize);

impl Local {
    /// The index held.
    pub open spec fn value(&self) -> usize {
        self.0
    }

    /// The id with index `v`.
    pub fn new(v: usize) -> (r: Self)
        ensures
            r.value() == v,
    {
        Local(v)
    }

    /// The index held.
    pub fn get(&self) -> (r: usize)
        ensures
            r == self.value(),
    {
        self.0
    }

    /// The null id, which designates nothing.
    pub fn null() -> (r: Self)
        ensures
            r.value() == usize::MAX,
    {
        Local(usize::MAX)
    }

    /// Whether this is the null id.
    pub fn is_null(&self) -> (r: bool)
        ensures
            r == (self.value() == usize::MAX),
    {
        self.0 == usize::MAX
    }
}

impl Offset for Local {
    open spec fn offset_of(&self) -> nat {
        self.0 as nat
    }

    fn offset(&self) -> (r: usize) {
        self.0
    }
}

impl FromOffset for Local {
    fn from_offset(offset: usize) -> (r: Self) {
        Local(offset)
    }
}

} // verus!
