use calyx_verilog::flat_ir::base::{CellInfo, CombGroupIdx, PortRef, RefCellInfo};
use calyx_verilog::flat_ir::ids::{
    AssignmentIdx, ComponentRef, GroupIdx, GuardIdx, Identifier, LocalPortOffset,
    LocalRefPortOffset,
};
use calyx_verilog::flat_ir::index::{IndexRange, IndexRef};

#[test]
fn local_port_gives_back_its_offset() {
    let p = PortRef::from(LocalPortOffset::new(7));
    assert_eq!(p.as_local(), Some(&LocalPortOffset::new(7)));
    assert_eq!(p.as_ref(), None);
    assert_eq!(p.unwrap_local().index(), 7);
}

#[test]
fn ref_port_gives_back_its_offset() {
    let p = PortRef::from(LocalRefPortOffset::new(9));
    assert_eq!(p.as_local(), None);
    assert_eq!(p.as_ref(), Some(&LocalRefPortOffset::new(9)));
    assert_eq!(p.unwrap_ref().index(), 9);
}

#[test]
fn cell_info_keeps_name_and_ports() {
    let ports = IndexRange::new(LocalPortOffset::new(3), LocalPortOffset::new(5));
    let info = CellInfo::new(Identifier::new(1), ports, ComponentRef::new(2));
    assert_eq!(info.name(), Identifier::new(1));
    assert_eq!(info.ports().start(), LocalPortOffset::new(3));
    assert_eq!(info.ports().end(), LocalPortOffset::new(5));
}

#[test]
fn ref_cell_info_keeps_name_and_ports() {
    let ports = IndexRange::new(LocalRefPortOffset::new(0), LocalRefPortOffset::new(1));
    let info = RefCellInfo::new(Identifier::new(4), ports, ComponentRef::new(0));
    assert_eq!(info.name().index(), 4);
    assert_eq!(info.ports().start().index(), 0);
    assert_eq!(info.ports().end().index(), 1);
}

#[test]
fn index_gives_back_its_position() {
    assert_eq!(AssignmentIdx::new(0).index(), 0);
    assert_eq!(GroupIdx::new(12).index(), 12);
    assert_eq!(GuardIdx::new(u32::MAX as usize).index(), u32::MAX as usize);
    assert!(GuardIdx::new(3) < GuardIdx::new(4));
}

#[test]
fn comb_group_index_gives_back_its_position() {
    assert_eq!(CombGroupIdx::new(0).index(), 0);
    assert_eq!(CombGroupIdx::new(41).index(), 41);
    let last = u32::MAX as usize - 1;
    assert_eq!(CombGroupIdx::new(last).index(), last);
    let idx = CombGroupIdx::new(5);
    let copy = idx;
    assert_eq!(idx, copy);
    assert_eq!(idx.clone().index(), 5);
    assert_ne!(CombGroupIdx::new(5), CombGroupIdx::new(6));
}

#[test]
fn optional_comb_group_index_takes_no_more_room() {
    assert_eq!(
        std::mem::size_of::<Option<CombGroupIdx>>(),
        std::mem::size_of::<CombGroupIdx>()
    );
    assert_eq!(std::mem::size_of::<CombGroupIdx>(), 4);
}
