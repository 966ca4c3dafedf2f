//! Which programs are accepted, which components a module can be made of, and what is said of the
//! others.

use crate::backend::facts::lemma_driven;
use crate::backend::laws::cells::{
    instantiated, lemma_has_wire, lemma_wire_has_port, wire_of,
};
use crate::backend::laws::driving::{
    first_to_port, law_drivers_can_be_listed, lemma_first_to_name, lemma_listed,
};
use crate::backend::laws::{flat, law_flat_program_accepted};
use crate::backend::laws::ports::{of_instance, written};
use crate::backend::model::{
    assignable, cell_wires, driven, drivers, guard_readable, instantiable, readable,
    wires_declarable,
};
use crate::backend::precheck::{
    first_inout, first_uninstantiable, first_wide, ready, stands_in_the_way, wide_parameter,
    wirable, Obstacle,
};
use crate::backend::validate::{
    control_result, first_use, group_assignments, lemma_first_error, lemma_group_assignments_take,
    program_result, reads_hole, result_view, structure_result, uses_hole,
};
use crate::errors::{Error, ErrorKind, ErrorView, Pos};
use crate::ir::{Assignment, BackendConf, Cell, CellType, Component, Control, Direction, Group};
use vstd::prelude::*;

verus! {

//==========================================
//        Programs
//==========================================

/// The assignment drives a hole, or its guard reads one.
pub open spec fn touches_hole(a: Assignment) -> bool {
    a.dst.parent is Group || reads_hole(a.guard)
}

/// What is said of groups, about a place.
pub open spec fn groups_rejected(r: Result<(), ErrorView>, pos: Option<Pos>) -> bool {
    r == Err::<(), ErrorView>(
        ErrorView::MalformedStructure {
            msg: "Groups / Holes can not be turned into Verilog"@,
            pos,
        },
    )
}

/// What is said of control, about a place.
pub open spec fn control_rejected(r: Result<(), ErrorView>, pos: Option<Pos>) -> bool {
    r == Err::<(), ErrorView>(
        ErrorView::MalformedStructure { msg: "Control must be empty"@, pos },
    )
}

/// Every assignment of the groups stands in one of them.
proof fn lemma_assignment_has_group(groups: Seq<Group>, k: int)
    requires
        0 <= k < group_assignments(groups).len(),
    ensures
        exists|i: int, j: int|
            0 <= i < groups.len() && 0 <= j < groups[i].assignments@.len() && group_assignments(
                groups,
            )[k] == #[trigger] groups[i].assignments@[j],
    decreases groups.len(),
{
    if groups.len() > 0 {
        let rest = groups.drop_last();
        if k < group_assignments(rest).len() {
            lemma_assignment_has_group(rest, k);
            let (i, j) = choose|i: int, j: int|
                0 <= i < rest.len() && 0 <= j < rest[i].assignments@.len() && group_assignments(
                    rest,
                )[k] == #[trigger] rest[i].assignments@[j];
            assert(groups[i].assignments@[j] == group_assignments(groups)[k]);
        } else {
            let j = k - group_assignments(rest).len();
            assert(groups[groups.len() - 1].assignments@[j] == group_assignments(groups)[k]);
        }
    }
}

/// Groups without assignments have none.
proof fn lemma_no_assignments(groups: Seq<Group>)
    requires
        forall|i: int| 0 <= i < groups.len() ==> (#[trigger] groups[i]).assignments@.len() == 0,
    ensures
        group_assignments(groups).len() == 0,
    decreases groups.len(),
{
    if groups.len() > 0 {
        lemma_no_assignments(groups.drop_last());
        assert(groups[groups.len() - 1].assignments@.len() == 0);
    }
}

/// The error for groups is about the first assignment, by the order of the groups and that in each,
/// that drives a hole or reads one in its guard.
pub proof fn law_groups_are_rejected_at_the_first_hole(groups: Seq<Group>, i: int, j: int)
    requires
        0 <= i < groups.len(),
        0 <= j < groups[i].assignments@.len(),
        touches_hole(groups[i].assignments@[j]),
        forall|x: int, y: int|
            0 <= x < groups.len() && 0 <= y < groups[x].assignments@.len() && (x < i || (x == i && y
                < j)) ==> !touches_hole(#[trigger] groups[x].assignments@[y]),
    ensures
        groups_rejected(
            structure_result(groups),
            groups[i].assignments@[j].dst.attributes.span,
        ),
{
    let all = group_assignments(groups);
    let seen = group_assignments(groups.take(i));
    lemma_group_assignments_take(groups, i, j);
    let at = seen.len() + j;
    assert forall|k: int| 0 <= k < at implies !uses_hole(#[trigger] all[k]) by {
        if k < seen.len() {
            let before = groups.take(i);
            lemma_assignment_has_group(before, k);
            let (x, y) = choose|x: int, y: int|
                0 <= x < before.len() && 0 <= y < before[x].assignments@.len()
                    && group_assignments(before)[k] == #[trigger] before[x].assignments@[y];
            assert(groups[x].assignments@[y] == all[k]);
            assert(!touches_hole(groups[x].assignments@[y]));
        } else {
            let y = k - seen.len();
            lemma_group_assignments_take(groups, i, y);
            assert(!touches_hole(groups[i].assignments@[y]));
        }
    }
    assert(first_use(all, at));
    let k = choose|k: int| first_use(all, k);
    assert(first_use(all, k));
    assert(!(k < at) && !(at < k));
}

/// Where no assignment touches a hole, the error for groups is about the first assignment, and
/// where there is none, about no place.
pub proof fn law_groups_are_rejected_without_holes(groups: Seq<Group>, i: int)
    requires
        groups.len() > 0,
        0 <= i <= groups.len(),
        forall|x: int, y: int|
            0 <= x < groups.len() && 0 <= y < groups[x].assignments@.len() ==> !touches_hole(
                #[trigger] groups[x].assignments@[y],
            ),
        forall|x: int| 0 <= x < i ==> (#[trigger] groups[x]).assignments@.len() == 0,
        i < groups.len() ==> groups[i].assignments@.len() > 0,
    ensures
        groups_rejected(
            structure_result(groups),
            if i < groups.len() {
                groups[i].assignments@[0].dst.attributes.span
            } else {
                None
            },
        ),
{
    let all = group_assignments(groups);
    assert forall|k: int| !first_use(all, k) by {
        if first_use(all, k) {
            lemma_assignment_has_group(groups, k);
            let (x, y) = choose|x: int, y: int|
                0 <= x < groups.len() && 0 <= y < groups[x].assignments@.len() && all[k]
                    == #[trigger] groups[x].assignments@[y];
            assert(!touches_hole(groups[x].assignments@[y]));
        }
    }
    if i < groups.len() {
        lemma_no_assignments(groups.take(i));
        lemma_group_assignments_take(groups, i, 0);
    } else {
        lemma_no_assignments(groups);
    }
}

/// Only empty control is accepted. The error is about the place of the outermost statement.
pub proof fn law_control_is_rejected_where_it_stands(ctrl: Control)
    ensures
        match ctrl {
            Control::Empty { .. } => control_result(ctrl) is Ok,
            Control::Enable { attributes, .. } => control_rejected(
                control_result(ctrl),
                attributes.span,
            ),
            Control::Invoke { attributes, .. } => control_rejected(
                control_result(ctrl),
                attributes.span,
            ),
            Control::Sequence { attributes, .. } => control_rejected(
                control_result(ctrl),
                attributes.span,
            ),
            Control::Parallel { attributes, .. } => control_rejected(
                control_result(ctrl),
                attributes.span,
            ),
            Control::If { attributes, .. } => control_rejected(
                control_result(ctrl),
                attributes.span,
            ),
            Control::While { attributes, .. } => control_rejected(
                control_result(ctrl),
                attributes.span,
            ),
        },
{
}

/// What is said of a program is what is said of the first component that has groups or control: of
/// its groups where it has some, and otherwise of its control.
pub proof fn law_first_faulty_component_is_reported(comps: Seq<Component>, i: int)
    requires
        0 <= i < comps.len(),
        !flat(comps[i]),
        forall|j: int| 0 <= j < i ==> flat(#[trigger] comps[j]),
    ensures
        program_result(comps) == (if comps[i].groups@.len() > 0 {
            structure_result(comps[i].groups@)
        } else {
            control_result(comps[i].control)
        }),
        program_result(comps) is Err,
{
    let before = comps.take(i);
    assert forall|j: int| 0 <= j < before.len() implies flat(#[trigger] before[j]) by {
        assert(flat(comps[j]));
    }
    law_flat_program_accepted(before);
    lemma_first_error(comps, i);
}

/// What is said of a failure is its kind, its message and its place, and nothing is said of a
/// success.
pub proof fn law_error_says_all(e: Error)
    ensures
        result_view(Ok(())) is Ok,
        result_view(Err(e)) == Err::<(), ErrorView>(e@),
        match e.kind {
            ErrorKind::MalformedStructure(text) => e@ is MalformedStructure
                && e@->MalformedStructure_msg == text@ && e@->MalformedStructure_pos == e.pos,
            ErrorKind::WriteError(text) => e@ is WriteError && e@->WriteError_msg == text@
                && e@->WriteError_pos == e.pos,
        },
{
}

//==========================================
//        Components
//==========================================

/// The wires for the ports of the cell can be declared, and set to zero where that is asked for.
pub open spec fn can_be_wired(c: Cell, bc: BackendConf) -> bool {
    forall|j: int|
        0 <= j < c.ports@.len() ==> {
            let p = #[trigger] c.ports@[j];
            &&& p.parent is Cell
            &&& of_instance(p) ==> p.width > 0 && (bc.initialize_inputs && p.direction
                == Direction::Input ==> p.width as u32 > 0)
        }
}

/// The parameters of the cell can be written: a constant has a width and a value, and all other
/// values fit a plain integer.
pub open spec fn has_plain_parameters(c: Cell) -> bool {
    c.prototype matches CellType::Primitive { name, param_binding } ==> if name@ == "std_const"@ {
        param_binding@.len() >= 2 && param_binding@[0].1 as u32 > 0
    } else {
        forall|j: int|
            0 <= j < param_binding@.len() ==> (#[trigger] param_binding@[j]).1 <= 0x7fff_ffff
    }
}

/// The cell can be instantiated, where it is one of a primitive or a component.
pub open spec fn can_be_instantiated(c: Cell) -> bool {
    &&& has_plain_parameters(c)
    &&& instantiated(c) ==> forall|j: int|
        0 <= j < c.ports@.len() ==> readable(#[trigger] c.ports@[j])
}

/// The `k`th assignment can be written: its source and its guard can be read, and where it is the
/// first to its port, the port can be driven.
pub open spec fn can_be_assigned(asgns: Seq<Assignment>, k: int) -> bool {
    &&& readable(asgns[k].src)
    &&& guard_readable(asgns[k].guard)
    &&& first_to_port(asgns, k) ==> readable(asgns[k].dst) && asgns[k].dst.width as u32 > 0
}

/// A module can be made of the component, and printed.
pub open spec fn can_be_made(comp: Component, bc: BackendConf) -> bool {
    let ports = comp.signature.ports@;
    let asgns = comp.continuous_assignments@;
    &&& forall|i: int|
        0 <= i < ports.len() ==> (#[trigger] ports[i]).direction != Direction::Inout
            && ports[i].width > 0
    &&& forall|i: int|
        0 <= i < comp.cells@.len() ==> can_be_wired(#[trigger] comp.cells@[i], bc)
            && can_be_instantiated(comp.cells@[i])
    &&& forall|k: int| 0 <= k < asgns.len() ==> #[trigger] can_be_assigned(asgns, k)
}

/// The wires of all cells can be declared exactly where those of each can.
proof fn lemma_wirable(comp: Component, bc: BackendConf)
    ensures
        wirable(comp, bc) <==> forall|i: int|
            0 <= i < comp.cells@.len() ==> can_be_wired(#[trigger] comp.cells@[i], bc),
{
    let cells = comp.cells@;
    let wires = cell_wires(cells);
    if wirable(comp, bc) {
        assert forall|i: int| 0 <= i < cells.len() implies can_be_wired(
            #[trigger] cells[i],
            bc,
        ) by {
            let c = cells[i];
            assert forall|j: int| 0 <= j < c.ports@.len() implies {
                let p = #[trigger] c.ports@[j];
                &&& p.parent is Cell
                &&& of_instance(p) ==> p.width > 0 && (bc.initialize_inputs && p.direction
                    == Direction::Input ==> p.width as u32 > 0)
            } by {
                let p = c.ports@[j];
                assert(!p.hole());
                if of_instance(p) {
                    lemma_has_wire(cells, i, j);
                    let w = (written(p), p.width, p.direction);
                    let k = wires.index_of(w);
                    assert(wires[k] == w);
                }
            }
        }
    }
    if forall|i: int| 0 <= i < cells.len() ==> can_be_wired(#[trigger] cells[i], bc) {
        assert forall|i: int, j: int|
            0 <= i < cells.len() && 0 <= j < cells[i].ports@.len() implies !(
        #[trigger] cells[i].ports@[j]).hole() by {
            assert(can_be_wired(cells[i], bc));
        }
        assert forall|k: int| 0 <= k < wires.len() implies (#[trigger] wires[k]).1 > 0 && (
        bc.initialize_inputs && wires[k].2 == Direction::Input ==> wires[k].1 as u32 > 0) by {
            lemma_wire_has_port(cells, k);
            let (i, j) = choose|i: int, j: int| #[trigger] wire_of(cells, i, j, wires[k]);
            assert(can_be_wired(cells[i], bc));
            assert(of_instance(cells[i].ports@[j]));
        }
        assert(wires_declarable(wires, bc.initialize_inputs));
    }
}

/// A cell can be instantiated exactly where its parameters and ports can be written.
proof fn lemma_instantiable(c: Cell)
    ensures
        instantiable(c) <==> can_be_instantiated(c),
{
}

/// A module can be made and printed exactly where each part of the component can be written down.
pub proof fn law_which_components_can_be_made(comp: Component, bc: BackendConf)
    ensures
        ready(comp, bc) <==> can_be_made(comp, bc),
{
    lemma_wirable(comp, bc);
    let asgns = comp.continuous_assignments@;
    let names = driven(asgns);
    lemma_driven(asgns);
    assert forall|i: int| 0 <= i < comp.cells@.len() implies (instantiable(
        #[trigger] comp.cells@[i],
    ) <==> can_be_instantiated(comp.cells@[i])) by {
        lemma_instantiable(comp.cells@[i]);
    }
    if ready(comp, bc) {
        assert forall|k: int| 0 <= k < asgns.len() implies #[trigger] can_be_assigned(asgns, k) by {
            let places = law_drivers_can_be_listed(asgns, k);
            lemma_listed(asgns, k, places);
            let name = asgns[k].dst.spec_canonical();
            let ds = drivers(asgns, name);
            assert(names.contains(name));
            let t = names.index_of(name);
            assert(names[t] == name);
            assert(places.contains(k));
            let at = places.index_of(k);
            assert(ds[at] == asgns[k]);
            assert(ds[0] == asgns[places[0]]);
        }
        assert(can_be_made(comp, bc));
    }
    if can_be_made(comp, bc) {
        assert forall|i: int| 0 <= i < comp.cells@.len() implies can_be_wired(
            #[trigger] comp.cells@[i],
            bc,
        ) by {}
        assert(wirable(comp, bc));
        assert forall|t: int|
            #![trigger names[t]]
            0 <= t < names.len() implies assignable(
            drivers(asgns, names[t])[0].dst,
            drivers(asgns, names[t]),
        ) by {
            assert(names.contains(names[t]));
            let k = lemma_first_to_name(asgns, names[t]);
            let places = law_drivers_can_be_listed(asgns, k);
            lemma_listed(asgns, k, places);
            let ds = drivers(asgns, names[t]);
            assert(ds[0] == asgns[places[0]]);
            assert(can_be_assigned(asgns, k));
            assert forall|i: int| 0 <= i < ds.len() implies readable((#[trigger] ds[i]).src)
                && guard_readable(ds[i].guard) by {
                assert(ds[i] == asgns[places[i]]);
                assert(can_be_assigned(asgns, places[i]));
            }
        }
        assert(ready(comp, bc));
    }
}

/// What stands in the way of a module is the first port of the signature that goes both ways,
/// where there is one.
pub proof fn law_inout_port_stands_in_the_way(
    comp: Component,
    bc: BackendConf,
    o: Obstacle,
    i: int,
)
    requires
        stands_in_the_way(comp, bc, o),
        0 <= i < comp.signature.ports@.len(),
        comp.signature.ports@[i].direction == Direction::Inout,
        forall|j: int|
            0 <= j < i ==> (#[trigger] comp.signature.ports@[j]).direction != Direction::Inout,
    ensures
        o is InoutPort,
        o->InoutPort_name@ == comp.signature.ports@[i].name@,
{
    let ports = comp.signature.ports@;
    assert(first_inout(ports, i));
    if let Obstacle::InoutPort { name } = o {
        let k = choose|k: int| #[trigger] first_inout(ports, k) && name@ == ports[k].name@;
        assert(!(k < i) && !(i < k));
    } else if let Obstacle::WideParameter { name, value } = o {
        let (k, j) = choose|k: int, j: int| #[trigger] wide_parameter(comp, bc, k, j);
        assert(!first_inout(ports, i));
    }
}

/// Where no port goes both ways and all wires can be declared, what stands in the way is the first
/// parameter that does not fit a plain integer of the first cell that cannot be instantiated.
pub proof fn law_wide_parameter_stands_in_the_way(
    comp: Component,
    bc: BackendConf,
    o: Obstacle,
    i: int,
    j: int,
)
    requires
        stands_in_the_way(comp, bc, o),
        forall|x: int|
            0 <= x < comp.signature.ports@.len() ==> (#[trigger] comp.signature.ports@[x]).direction
                != Direction::Inout,
        forall|x: int| 0 <= x < comp.cells@.len() ==> can_be_wired(#[trigger] comp.cells@[x], bc),
        0 <= i < comp.cells@.len(),
        forall|x: int| 0 <= x < i ==> can_be_instantiated(#[trigger] comp.cells@[x]),
        comp.cells@[i].prototype matches CellType::Primitive { name, param_binding } && {
            &&& name@ != "std_const"@
            &&& 0 <= j < param_binding@.len()
            &&& param_binding@[j].1 > 0x7fff_ffff
            &&& forall|x: int|
                0 <= x < j ==> (#[trigger] param_binding@[x]).1 <= 0x7fff_ffff
        },
    ensures
        o is WideParameter,
        o->WideParameter_name@ == comp.cells@[i].prototype->param_binding@[j].0@,
        o->value == comp.cells@[i].prototype->param_binding@[j].1,
{
    lemma_wirable(comp, bc);
    let cells = comp.cells@;
    assert forall|x: int| 0 <= x < i implies instantiable(#[trigger] cells[x]) by {
        lemma_instantiable(cells[x]);
    }
    lemma_instantiable(cells[i]);
    assert(first_wide(cells[i], j));
    assert(!can_be_instantiated(cells[i])) by {
        assert(cells[i].prototype->param_binding@[j].1 > 0x7fff_ffff);
    }
    assert(first_uninstantiable(cells, i));
    assert forall|x: int| !#[trigger] first_inout(comp.signature.ports@, x) by {}
    assert(wide_parameter(comp, bc, i, j));
    if let Obstacle::WideParameter { name, value } = o {
        let (x, y) = choose|x: int, y: int| #[trigger]
            wide_parameter(comp, bc, x, y) && name@ == cells[x].prototype->param_binding@[y].0@
                && value == cells[x].prototype->param_binding@[y].1;
        assert(!(x < i) && !(i < x));
        assert(!(y < j) && !(j < y));
    }
}

/// Nothing stands in the way of a module that can be made, and a port or a parameter only where
/// the component has one that does.
pub proof fn law_obstacles_are_real(comp: Component, bc: BackendConf, o: Obstacle)
    requires
        stands_in_the_way(comp, bc, o),
    ensures
        !can_be_made(comp, bc),
        o matches Obstacle::InoutPort { name } ==> exists|i: int|
            0 <= i < comp.signature.ports@.len() && (
            #[trigger] comp.signature.ports@[i]).direction == Direction::Inout && name@
                == comp.signature.ports@[i].name@,
        o matches Obstacle::WideParameter { name, value } ==> value > 0x7fff_ffff && exists|
            i: int,
            j: int,
        |
            0 <= i < comp.cells@.len() && comp.cells@[i].prototype is Primitive && 0 <= j
                < comp.cells@[i].prototype->param_binding@.len() && (
            #[trigger] comp.cells@[i].prototype->param_binding@[j]).0@ == name@
                && comp.cells@[i].prototype->param_binding@[j].1 == value,
{
    law_which_components_can_be_made(comp, bc);
    match o {
        Obstacle::InoutPort { name } => {
            let i = choose|i: int| #[trigger]
                first_inout(comp.signature.ports@, i) && name@ == comp.signature.ports@[i].name@;
            assert(comp.signature.ports@[i].direction == Direction::Inout);
        },
        Obstacle::WideParameter { name, value } => {
            let (i, j) = choose|i: int, j: int| #[trigger]
                wide_parameter(comp, bc, i, j) && name@
                    == comp.cells@[i].prototype->param_binding@[j].0@ && value
                    == comp.cells@[i].prototype->param_binding@[j].1;
            lemma_instantiable(comp.cells@[i]);
            assert(!can_be_instantiated(comp.cells@[i]));
            assert(comp.cells@[i].prototype->param_binding@[j].1 == value);
        },
        Obstacle::Other => {},
    }
}

} // verus!
