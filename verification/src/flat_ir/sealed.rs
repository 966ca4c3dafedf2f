//! Keeps the set of port index types closed.

use super::ids::{LocalPortOffset, LocalRefPortOffset};
use super::index::IndexRef;
use vstd::prelude::*;

verus! {

/// The index types that can address the ports of a cell.
pub trait PortType: IndexRef + PartialOrd {

}

impl PortType for LocalPortOffset {

}

impl PortType for LocalRefPortOffset {

}

} // verus!
