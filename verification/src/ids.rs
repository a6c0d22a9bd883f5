//! Identities of modules, chunks and symbols.

use crate::table::TableKey;
use vstd::prelude::*;

verus! {

/// Position of a module in the module table of the linked graph.
#[derive(Clone, Copy, Debug, PartialEq, Eq, Hash, Structural)]
pub struct ModuleId(pub u32);

/// Position of a chunk in the chunk graph.
#[derive(Clone, Copy, Debug, PartialEq, Eq, Hash, Structural)]
pub struct ChunkId(pub u32);

/// A binding: the module that owns it and its slot among that module's
/// symbols.
#[derive(Clone, Copy, Debug, PartialEq, Eq, Hash, Structural)]
pub struct SymbolRef {
    pub owner: ModuleId,
    pub symbol: u32,
}

impl TableKey for ModuleId {
    open spec fn code(self) -> u64 {
        self.0 as u64
    }

    fn to_code(self) -> u64 {
        self.0 as u64
    }

    proof fn code_is_injective(a: Self, b: Self) {
    }
}

impl TableKey for ChunkId {
    open spec fn code(self) -> u64 {
        self.0 as u64
    }

    fn to_code(self) -> u64 {
        self.0 as u64
    }

    proof fn code_is_injective(a: Self, b: Self) {
    }
}

impl TableKey for SymbolRef {
    /// The owner in the upper half, the slot in the lower half.
    open spec fn code(self) -> u64 {
        (self.owner.0 as u64 * 0x1_0000_0000 + self.symbol as u64) as u64
    }

    fn to_code(self) -> u64 {
        self.owner.0 as u64 * 0x1_0000_0000 + self.symbol as u64
    }

    proof fn code_is_injective(a: Self, b: Self) {
    }
}

} // verus!
