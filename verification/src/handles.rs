//! Runtime-owned handles around compact indices.
//!
//! Each handle carries the owner token of the runtime that issued it, so a
//! handle used with another runtime is rejected instead of reading that
//! runtime's storage.

use vstd::prelude::*;

verus! {

/// A host-writable `SignalIn` handle owned by one runtime.
#[derive(Clone, Copy, Debug, PartialEq, Eq, Structural, Hash, PartialOrd, Ord)]
pub struct SenseId {
    pub(crate) owner: u64,
    pub(crate) index: u16,
}

impl SenseId {
    pub open(crate) spec fn spec_owner(&self) -> u64 {
        self.owner
    }

    pub open(crate) spec fn spec_index(&self) -> u16 {
        self.index
    }

    /// A handle for `index` issued by the runtime with token `owner`.
    pub fn new(owner: u64, index: u16) -> (h: SenseId)
        ensures
            h.spec_owner() == owner,
            h.spec_index() == index,
    {
        SenseId { owner, index }
    }

    /// The token of the runtime that issued this handle.
    pub fn owner(self) -> (o: u64)
        ensures
            o == self.spec_owner(),
    {
        self.owner
    }

    /// The compact per-runtime index.
    pub fn get(self) -> (i: u16)
        ensures
            i == self.spec_index(),
    {
        self.index
    }
}

/// An interned `SignalOut` path handle owned by one runtime.
#[derive(Clone, Copy, Debug, PartialEq, Eq, Structural, Hash, PartialOrd, Ord)]
pub struct HostPathId {
    pub(crate) owner: u64,
    pub(crate) index: u16,
}

impl HostPathId {
    pub open(crate) spec fn spec_owner(&self) -> u64 {
        self.owner
    }

    pub open(crate) spec fn spec_index(&self) -> u16 {
        self.index
    }

    /// A handle for `index` issued by the runtime with token `owner`.
    pub fn new(owner: u64, index: u16) -> (h: HostPathId)
        ensures
            h.spec_owner() == owner,
            h.spec_index() == index,
    {
        HostPathId { owner, index }
    }

    /// The token of the runtime that issued this handle.
    pub fn owner(self) -> (o: u64)
        ensures
            o == self.spec_owner(),
    {
        self.owner
    }

    /// The compact per-runtime index.
    pub fn get(self) -> (i: u16)
        ensures
            i == self.spec_index(),
    {
        self.index
    }
}

/// An interned `EmitCommand` handle owned by one runtime.
#[derive(Clone, Copy, Debug, PartialEq, Eq, Structural, Hash, PartialOrd, Ord)]
pub struct CmdId {
    pub(crate) owner: u64,
    pub(crate) index: u16,
}

impl CmdId {
    pub open(crate) spec fn spec_owner(&self) -> u64 {
        self.owner
    }

    pub open(crate) spec fn spec_index(&self) -> u16 {
        self.index
    }

    /// A handle for `index` issued by the runtime with token `owner`.
    pub fn new(owner: u64, index: u16) -> (h: CmdId)
        ensures
            h.spec_owner() == owner,
            h.spec_index() == index,
    {
        CmdId { owner, index }
    }

    /// The token of the runtime that issued this handle.
    pub fn owner(self) -> (o: u64)
        ensures
            o == self.spec_owner(),
    {
        self.owner
    }

    /// The compact per-runtime index.
    pub fn get(self) -> (i: u16)
        ensures
            i == self.spec_index(),
    {
        self.index
    }
}

/// A knot handle owned by one runtime, for checked tooling access.
#[derive(Clone, Copy, Debug, PartialEq, Eq, Structural, Hash, PartialOrd, Ord)]
pub struct KnotHandle {
    pub(crate) owner: u64,
    pub(crate) index: u16,
}

impl KnotHandle {
    pub open(crate) spec fn spec_owner(&self) -> u64 {
        self.owner
    }

    pub open(crate) spec fn spec_index(&self) -> u16 {
        self.index
    }

    /// A handle for `index` issued by the runtime with token `owner`.
    pub fn new(owner: u64, index: u16) -> (h: KnotHandle)
        ensures
            h.spec_owner() == owner,
            h.spec_index() == index,
    {
        KnotHandle { owner, index }
    }

    /// The token of the runtime that issued this handle.
    pub fn owner(self) -> (o: u64)
        ensures
            o == self.spec_owner(),
    {
        self.owner
    }

    /// The compact per-runtime index.
    pub fn get(self) -> (i: u16)
        ensures
            i == self.spec_index(),
    {
        self.index
    }
}

} // verus!
