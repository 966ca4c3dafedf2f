//! References to ports, and what is known of a cell's definition.

use super::ids::{ComponentRef, Identifier, LocalPortOffset, LocalRefPortOffset};
use super::index::{IndexRange, IndexRef};
use super::sealed::PortType;
use std::num::NonZeroU32;
use vstd::prelude::*;

verus! {

/// A port, relative to its cell.
pub struct RelativePortIdx(u32);

/// A port of a ref cell, relative to that cell.
pub struct RelativeRefPortIdx(u32);

/// A cell, relative to its component.
pub struct RelativeCellIdx(u32);

/// A ref cell, relative to its component.
pub struct RelativeRefCellIdx(u32);

/// A port seen from inside a component: one of its own, or one of a ref cell.
#[derive(Debug, Copy, Clone)]
pub enum PortRef {
    Local(LocalPortOffset),
    Ref(LocalRefPortOffset),
}

impl PortRef {
    /// The offset, where the port is a local one.
    pub open spec fn local(self) -> Option<LocalPortOffset> {
        match self {
            PortRef::Local(v) => Some(v),
            PortRef::Ref(_) => None,
        }
    }

    /// The offset, where the port is that of a ref cell.
    pub open spec fn reference(self) -> Option<LocalRefPortOffset> {
        match self {
            PortRef::Local(_) => None,
            PortRef::Ref(v) => Some(v),
        }
    }

    /// The offset, where the port is a local one.
    #[must_use]
    pub fn as_local(&self) -> (r: Option<&LocalPortOffset>)
        ensures
            self.local() == (match r {
                Some(v) => Some(*v),
                None => None,
            }),
    {
        if let Self::Local(v) = self {
            Some(v)
        } else {
            None
        }
    }

    /// The offset, where the port is that of a ref cell.
    #[must_use]
    pub fn as_ref(&self) -> (r: Option<&LocalRefPortOffset>)
        ensures
            self.reference() == (match r {
                Some(v) => Some(*v),
                None => None,
            }),
    {
        if let Self::Ref(v) = self {
            Some(v)
        } else {
            None
        }
    }

    /// The offset of a port that is known to be a local one.
    pub fn unwrap_local(&self) -> (v: &LocalPortOffset)
        requires
            self is Local,
        ensures
            self.local() == Some(*v),
    {
        self.as_local().unwrap()
    }

    /// The offset of a port that is known to be that of a ref cell.
    pub fn unwrap_ref(&self) -> (v: &LocalRefPortOffset)
        requires
            self is Ref,
        ensures
            self.reference() == Some(*v),
    {
        self.as_ref().unwrap()
    }
}

impl From<LocalRefPortOffset> for PortRef {
    fn from(v: LocalRefPortOffset) -> (r: Self) {
        Self::Ref(v)
    }
}

impl vstd::std_specs::convert::FromSpecImpl<LocalRefPortOffset> for PortRef {
    open spec fn obeys_from_spec() -> bool {
        true
    }

    open spec fn from_spec(v: LocalRefPortOffset) -> Self {
        PortRef::Ref(v)
    }
}

impl From<LocalPortOffset> for PortRef {
    fn from(v: LocalPortOffset) -> (r: Self) {
        Self::Local(v)
    }
}

impl vstd::std_specs::convert::FromSpecImpl<LocalPortOffset> for PortRef {
    open spec fn obeys_from_spec() -> bool {
        true
    }

    open spec fn from_spec(v: LocalPortOffset) -> Self {
        PortRef::Local(v)
    }
}

/// A port is either a local one or that of a ref cell, and its offset says which port it is.
pub proof fn law_port_ref_is_one_of_two(p: PortRef)
    ensures
        p.local() is Some <==> p.reference() is None,
        p.local() matches Some(v) ==> p == PortRef::Local(v),
        p.reference() matches Some(v) ==> p == PortRef::Ref(v),
{
}

/// What a port is made from is what comes out of it again.
pub proof fn law_port_ref_gives_back_its_offset(
    local: LocalPortOffset,
    reference: LocalRefPortOffset,
)
    ensures
        <PortRef as vstd::std_specs::convert::FromSpec<LocalPortOffset>>::from_spec(local).local()
            == Some(local),
        <PortRef as vstd::std_specs::convert::FromSpec<LocalRefPortOffset>>::from_spec(
            reference,
        ).reference() == Some(reference),
{
}

/// What is known of the definition of a cell whose ports are addressed by `C`.
#[derive(Debug, Clone)]
pub struct CellDefinitionInfo<C> where C: PortType {
    name: Identifier,
    ports: IndexRange<C>,
    parent: ComponentRef,
}

impl<C> CellDefinitionInfo<C> where C: PortType {
    /// The name of the cell.
    pub closed spec fn spec_name(self) -> Identifier {
        self.name
    }

    /// The ports of the cell.
    pub closed spec fn spec_ports(self) -> IndexRange<C> {
        self.ports
    }

    /// The component that the cell is defined in.
    pub closed spec fn spec_parent(self) -> ComponentRef {
        self.parent
    }

    pub fn new(name: Identifier, ports: IndexRange<C>, parent: ComponentRef) -> (info: Self)
        ensures
            info.spec_name() == name,
            info.spec_ports() == ports,
            info.spec_parent() == parent,
    {
        Self { name, ports, parent }
    }

    pub fn name(&self) -> (name: Identifier)
        ensures
            name == self.spec_name(),
    {
        self.name
    }

    pub fn ports(&self) -> (ports: &IndexRange<C>)
        ensures
            *ports == self.spec_ports(),
    {
        &self.ports
    }
}

pub type CellInfo = CellDefinitionInfo<LocalPortOffset>;

pub type RefCellInfo = CellDefinitionInfo<LocalRefPortOffset>;

/// A combinational group. The stored number is never zero, so that an optional index takes no
/// more room than an index.
#[verifier::external_body]
#[derive(Debug, PartialEq, Eq, PartialOrd, Ord, Hash)]
pub struct CombGroupIdx {
    raw: NonZeroU32,
}

/// The number that a `CombGroupIdx` stores.
pub uninterp spec fn comb_group_raw(idx: CombGroupIdx) -> u32;

impl CombGroupIdx {
    /// Calls `NonZeroU32::new`, which gives `Some` of any number but zero. The contract claims
    /// that the number stored is the one handed in.
    #[verifier::external_body]
    fn from_raw(raw: u32) -> (idx: Self)
        requires
            raw != 0,
        ensures
            comb_group_raw(idx) == raw,
    {
        CombGroupIdx { raw: NonZeroU32::new(raw).unwrap() }
    }

    /// Calls `NonZeroU32::get`. The contract claims that the number stored comes out, and that
    /// it is not zero.
    #[verifier::external_body]
    fn raw(&self) -> (raw: u32)
        ensures
            raw == comb_group_raw(*self),
            raw != 0,
    {
        self.raw.get()
    }
}

impl Clone for CombGroupIdx {
    fn clone(&self) -> (idx: Self)
        ensures
            comb_group_raw(idx) == comb_group_raw(*self),
    {
        CombGroupIdx::from_raw(self.raw())
    }
}

impl Copy for CombGroupIdx {

}

impl IndexRef for CombGroupIdx {
    open spec fn position(self) -> nat {
        (comb_group_raw(self) - 1) as nat
    }

    open spec fn last_position() -> nat {
        (u32::MAX - 1) as nat
    }

    fn index(&self) -> (i: usize) {
        (self.raw() - 1) as usize
    }

    fn new(input: usize) -> (r: Self) {
        CombGroupIdx::from_raw(input as u32 + 1)
    }
}

/// An index of a combinational group addresses the position right before its number.
pub proof fn law_comb_group_position(idx: CombGroupIdx)
    requires
        comb_group_raw(idx) != 0,
    ensures
        idx.position() + 1 == comb_group_raw(idx),
        CombGroupIdx::last_position() + 1 == u32::MAX,
        idx.position() <= CombGroupIdx::last_position(),
{
}

} // verus!
