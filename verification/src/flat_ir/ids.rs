//! Dense `u32` indices into the tables of the flattened representation.

use super::index::IndexRef;
use vstd::prelude::*;

verus! {

/// An interned name.
#[derive(Debug, Copy, Clone, PartialEq, Eq, PartialOrd, Ord, Hash, Structural)]
pub struct Identifier(pub u32);

impl IndexRef for Identifier {
    open spec fn position(self) -> nat {
        self.0 as nat
    }

    open spec fn last_position() -> nat {
        u32::MAX as nat
    }

    fn index(&self) -> (i: usize) {
        self.0 as usize
    }

    fn new(input: usize) -> (r: Self) {
        Identifier(input as u32)
    }
}

/// A component of the program.
#[derive(Debug, Copy, Clone, PartialEq, Eq, PartialOrd, Ord, Hash, Structural)]
pub struct ComponentRef(pub u32);

impl IndexRef for ComponentRef {
    open spec fn position(self) -> nat {
        self.0 as nat
    }

    open spec fn last_position() -> nat {
        u32::MAX as nat
    }

    fn index(&self) -> (i: usize) {
        self.0 as usize
    }

    fn new(input: usize) -> (r: Self) {
        ComponentRef(input as u32)
    }
}

/// The definition of a cell.
#[derive(Debug, Copy, Clone, PartialEq, Eq, PartialOrd, Ord, Hash, Structural)]
pub struct CellDefinition(pub u32);

impl IndexRef for CellDefinition {
    open spec fn position(self) -> nat {
        self.0 as nat
    }

    open spec fn last_position() -> nat {
        u32::MAX as nat
    }

    fn index(&self) -> (i: usize) {
        self.0 as usize
    }

    fn new(input: usize) -> (r: Self) {
        CellDefinition(input as u32)
    }
}

/// The definition of a port.
#[derive(Debug, Copy, Clone, PartialEq, Eq, PartialOrd, Ord, Hash, Structural)]
pub struct PortDefinition(pub u32);

impl IndexRef for PortDefinition {
    open spec fn position(self) -> nat {
        self.0 as nat
    }

    open spec fn last_position() -> nat {
        u32::MAX as nat
    }

    fn index(&self) -> (i: usize) {
        self.0 as usize
    }

    fn new(input: usize) -> (r: Self) {
        PortDefinition(input as u32)
    }
}

/// The definition of a ref cell.
#[derive(Debug, Copy, Clone, PartialEq, Eq, PartialOrd, Ord, Hash, Structural)]
pub struct RefCellDefinition(pub u32);

impl IndexRef for RefCellDefinition {
    open spec fn position(self) -> nat {
        self.0 as nat
    }

    open spec fn last_position() -> nat {
        u32::MAX as nat
    }

    fn index(&self) -> (i: usize) {
        self.0 as usize
    }

    fn new(input: usize) -> (r: Self) {
        RefCellDefinition(input as u32)
    }
}

/// The definition of a port on a ref cell.
#[derive(Debug, Copy, Clone, PartialEq, Eq, PartialOrd, Ord, Hash, Structural)]
pub struct RefPortDefinition(pub u32);

impl IndexRef for RefPortDefinition {
    open spec fn position(self) -> nat {
        self.0 as nat
    }

    open spec fn last_position() -> nat {
        u32::MAX as nat
    }

    fn index(&self) -> (i: usize) {
        self.0 as usize
    }

    fn new(input: usize) -> (r: Self) {
        RefPortDefinition(input as u32)
    }
}

/// A port in the whole program state.
#[derive(Debug, Copy, Clone, PartialEq, Eq, PartialOrd, Ord, Hash, Structural)]
pub struct GlobalPortId(pub u32);

impl IndexRef for GlobalPortId {
    open spec fn position(self) -> nat {
        self.0 as nat
    }

    open spec fn last_position() -> nat {
        u32::MAX as nat
    }

    fn index(&self) -> (i: usize) {
        self.0 as usize
    }

    fn new(input: usize) -> (r: Self) {
        GlobalPortId(input as u32)
    }
}

/// A cell in the whole program state.
#[derive(Debug, Copy, Clone, PartialEq, Eq, PartialOrd, Ord, Hash, Structural)]
pub struct GlobalCellId(pub u32);

impl IndexRef for GlobalCellId {
    open spec fn position(self) -> nat {
        self.0 as nat
    }

    open spec fn last_position() -> nat {
        u32::MAX as nat
    }

    fn index(&self) -> (i: usize) {
        self.0 as usize
    }

    fn new(input: usize) -> (r: Self) {
        GlobalCellId(input as u32)
    }
}

/// A ref cell in the whole program state.
#[derive(Debug, Copy, Clone, PartialEq, Eq, PartialOrd, Ord, Hash, Structural)]
pub struct GlobalRefCellId(pub u32);

impl IndexRef for GlobalRefCellId {
    open spec fn position(self) -> nat {
        self.0 as nat
    }

    open spec fn last_position() -> nat {
        u32::MAX as nat
    }

    fn index(&self) -> (i: usize) {
        self.0 as usize
    }

    fn new(input: usize) -> (r: Self) {
        GlobalRefCellId(input as u32)
    }
}

/// A port, as an offset from the base of its component instance.
#[derive(Debug, Copy, Clone, PartialEq, Eq, PartialOrd, Ord, Hash, Structural)]
pub struct LocalPortOffset(pub u32);

impl IndexRef for LocalPortOffset {
    open spec fn position(self) -> nat {
        self.0 as nat
    }

    open spec fn last_position() -> nat {
        u32::MAX as nat
    }

    fn index(&self) -> (i: usize) {
        self.0 as usize
    }

    fn new(input: usize) -> (r: Self) {
        LocalPortOffset(input as u32)
    }
}

/// A port on a ref cell, as an offset from the base of its component instance.
#[derive(Debug, Copy, Clone, PartialEq, Eq, PartialOrd, Ord, Hash, Structural)]
pub struct LocalRefPortOffset(pub u32);

impl IndexRef for LocalRefPortOffset {
    open spec fn position(self) -> nat {
        self.0 as nat
    }

    open spec fn last_position() -> nat {
        u32::MAX as nat
    }

    fn index(&self) -> (i: usize) {
        self.0 as usize
    }

    fn new(input: usize) -> (r: Self) {
        LocalRefPortOffset(input as u32)
    }
}

/// A cell, as an offset from the base of its component instance.
#[derive(Debug, Copy, Clone, PartialEq, Eq, PartialOrd, Ord, Hash, Structural)]
pub struct LocalCellOffset(pub u32);

impl IndexRef for LocalCellOffset {
    open spec fn position(self) -> nat {
        self.0 as nat
    }

    open spec fn last_position() -> nat {
        u32::MAX as nat
    }

    fn index(&self) -> (i: usize) {
        self.0 as usize
    }

    fn new(input: usize) -> (r: Self) {
        LocalCellOffset(input as u32)
    }
}

/// A ref cell, as an offset from the base of its component instance.
#[derive(Debug, Copy, Clone, PartialEq, Eq, PartialOrd, Ord, Hash, Structural)]
pub struct LocalRefCellOffset(pub u32);

impl IndexRef for LocalRefCellOffset {
    open spec fn position(self) -> nat {
        self.0 as nat
    }

    open spec fn last_position() -> nat {
        u32::MAX as nat
    }

    fn index(&self) -> (i: usize) {
        self.0 as usize
    }

    fn new(input: usize) -> (r: Self) {
        LocalRefCellOffset(input as u32)
    }
}

/// An assignment.
#[derive(Debug, Copy, Clone, PartialEq, Eq, PartialOrd, Ord, Hash, Structural)]
pub struct AssignmentIdx(pub u32);

impl IndexRef for AssignmentIdx {
    open spec fn position(self) -> nat {
        self.0 as nat
    }

    open spec fn last_position() -> nat {
        u32::MAX as nat
    }

    fn index(&self) -> (i: usize) {
        self.0 as usize
    }

    fn new(input: usize) -> (r: Self) {
        AssignmentIdx(input as u32)
    }
}

/// A group.
#[derive(Debug, Copy, Clone, PartialEq, Eq, PartialOrd, Ord, Hash, Structural)]
pub struct GroupIdx(pub u32);

impl IndexRef for GroupIdx {
    open spec fn position(self) -> nat {
        self.0 as nat
    }

    open spec fn last_position() -> nat {
        u32::MAX as nat
    }

    fn index(&self) -> (i: usize) {
        self.0 as usize
    }

    fn new(input: usize) -> (r: Self) {
        GroupIdx(input as u32)
    }
}

/// A guard.
#[derive(Debug, Copy, Clone, PartialEq, Eq, PartialOrd, Ord, Hash, Structural)]
pub struct GuardIdx(pub u32);

impl IndexRef for GuardIdx {
    open spec fn position(self) -> nat {
        self.0 as nat
    }

    open spec fn last_position() -> nat {
        u32::MAX as nat
    }

    fn index(&self) -> (i: usize) {
        self.0 as usize
    }

    fn new(input: usize) -> (r: Self) {
        GuardIdx(input as u32)
    }
}

/// An index addresses the position of its number, and every number is that of a position.
pub proof fn law_index_addresses_its_number(n: u32)
    ensures
        Identifier(n).position() == n,
        Identifier::last_position() == u32::MAX,
        ComponentRef(n).position() == n,
        ComponentRef::last_position() == u32::MAX,
        CellDefinition(n).position() == n,
        CellDefinition::last_position() == u32::MAX,
        PortDefinition(n).position() == n,
        PortDefinition::last_position() == u32::MAX,
        RefCellDefinition(n).position() == n,
        RefCellDefinition::last_position() == u32::MAX,
        RefPortDefinition(n).position() == n,
        RefPortDefinition::last_position() == u32::MAX,
        GlobalPortId(n).position() == n,
        GlobalPortId::last_position() == u32::MAX,
        GlobalCellId(n).position() == n,
        GlobalCellId::last_position() == u32::MAX,
        GlobalRefCellId(n).position() == n,
        GlobalRefCellId::last_position() == u32::MAX,
        LocalPortOffset(n).position() == n,
        LocalPortOffset::last_position() == u32::MAX,
        LocalRefPortOffset(n).position() == n,
        LocalRefPortOffset::last_position() == u32::MAX,
        LocalCellOffset(n).position() == n,
        LocalCellOffset::last_position() == u32::MAX,
        LocalRefCellOffset(n).position() == n,
        LocalRefCellOffset::last_position() == u32::MAX,
        AssignmentIdx(n).position() == n,
        AssignmentIdx::last_position() == u32::MAX,
        GroupIdx(n).position() == n,
        GroupIdx::last_position() == u32::MAX,
        GuardIdx(n).position() == n,
        GuardIdx::last_position() == u32::MAX,
{
}

} // verus!
