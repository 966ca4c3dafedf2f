//! Whether the modules for a program can be made and printed, and what stands in the way.

use crate::backend::model::{
    assignable, cell_wires, driven, drivers, emittable, guard_readable, instantiable, no_holes,
    params_representable, readable, signature_printable, wires_declarable,
};
use crate::backend::facts::{derefs, group_names, holds_drivers, lemma_joined_readable, DrivenPort};
use crate::backend::verilog::{assignments_by_port, component_wires, wire_views};
use crate::ir::{
    Assignment, BackendConf, Cell, CellType, Component, Context, Direction, Guard, Port, PortParent,
};
use vstd::prelude::*;

verus! {

/// What stands in the way of a module.
#[derive(Debug, Clone, PartialEq, Eq)]
pub enum Obstacle {
    /// A port of the signature goes both ways.
    InoutPort { name: String },
    /// The value of a parameter does not fit a plain integer.
    WideParameter { name: String, value: u64 },
    /// A hole, a signal or a literal without a width, or a constant without a value.
    Other,
}

/// The module for the component can be made and printed.
pub open spec fn ready(comp: Component, bc: BackendConf) -> bool {
    emittable(comp, bc) && signature_printable(comp)
}

/// The `i`th port goes both ways, and none before it does.
pub open spec fn first_inout(ports: Seq<Port>, i: int) -> bool {
    &&& 0 <= i < ports.len()
    &&& ports[i].direction == Direction::Inout
    &&& forall|j: int| 0 <= j < i ==> (#[trigger] ports[j]).direction != Direction::Inout
}

/// The wires for the ports of the cells can be declared.
pub open spec fn wirable(comp: Component, bc: BackendConf) -> bool {
    &&& forall|i: int| 0 <= i < comp.cells@.len() ==> no_holes(#[trigger] comp.cells@[i])
    &&& wires_declarable(cell_wires(comp.cells@), bc.initialize_inputs)
}

/// The `i`th cell cannot be instantiated, and all before it can.
pub open spec fn first_uninstantiable(cells: Seq<Cell>, i: int) -> bool {
    &&& 0 <= i < cells.len()
    &&& !instantiable(cells[i])
    &&& forall|j: int| 0 <= j < i ==> instantiable(#[trigger] cells[j])
}

/// The `i`th parameter of the cell is the first whose value has to fit a plain integer, and does
/// not.
pub open spec fn first_wide(c: Cell, i: int) -> bool {
    c.prototype matches CellType::Primitive { name, param_binding } && {
        &&& name@ != "std_const"@
        &&& 0 <= i < param_binding@.len()
        &&& param_binding@[i].1 > i32::MAX
        &&& forall|j: int| 0 <= j < i ==> (#[trigger] param_binding@[j]).1 <= i32::MAX
    }
}

/// The first that stands in the way of the module is the `j`th parameter of the `i`th cell.
pub open spec fn wide_parameter(comp: Component, bc: BackendConf, i: int, j: int) -> bool {
    &&& forall|k: int| !#[trigger] first_inout(comp.signature.ports@, k)
    &&& wirable(comp, bc)
    &&& first_uninstantiable(comp.cells@, i)
    &&& first_wide(comp.cells@[i], j)
}

/// The first that stands in the way of the module: the ports of the signature come before the
/// wires, those before the instances, and those before the assignments.
pub open spec fn stands_in_the_way(comp: Component, bc: BackendConf, o: Obstacle) -> bool {
    match o {
        Obstacle::InoutPort { name } => exists|i: int| #[trigger]
            first_inout(comp.signature.ports@, i) && name@ == comp.signature.ports@[i].name@,
        Obstacle::WideParameter { name, value } => exists|i: int, j: int| #[trigger]
            wide_parameter(comp, bc, i, j) && name@
                == comp.cells@[i].prototype->param_binding@[j].0@ && value
                == comp.cells@[i].prototype->param_binding@[j].1,
        Obstacle::Other => {
            &&& !ready(comp, bc)
            &&& forall|i: int| !#[trigger] first_inout(comp.signature.ports@, i)
            &&& forall|i: int, j: int| !#[trigger] wide_parameter(comp, bc, i, j)
        },
    }
}

/// The port can be read from Verilog.
pub fn port_is_readable(port: &Port) -> (b: bool)
    ensures
        b == readable(*port),
{
    match &port.parent {
        PortParent::Cell { prototype, .. } => match prototype {
            CellType::Constant { width, .. } => *width as u32 > 0,
            _ => true,
        },
        PortParent::Group { .. } => false,
    }
}

/// All ports that the guard reads can be read from Verilog.
pub fn guard_is_readable(guard: &Guard) -> (b: bool)
    ensures
        b == guard_readable(*guard),
    decreases *guard,
{
    match guard {
        Guard::Or(l, r) | Guard::And(l, r) => {
            proof {
                lemma_joined_readable(*guard, **l, **r);
            }
            guard_is_readable(l) && guard_is_readable(r)
        },
        Guard::Not(g) => {
            assert(guard.ports() == g.ports());
            guard_is_readable(g)
        },
        Guard::CompOp(_, l, r) => {
            assert(guard.ports()[0] == *l && guard.ports()[1] == *r);
            port_is_readable(l) && port_is_readable(r)
        },
        Guard::Port(p) => {
            assert(guard.ports()[0] == *p);
            port_is_readable(p)
        },
        Guard::True => {
            assert(guard.ports().len() == 0);
            true
        },
    }
}

/// The port can be driven by the assignments.
fn is_assignable(group: &DrivenPort) -> (b: bool)
    ensures
        b == assignable(*group.0, derefs(group.1@)),
{
    let ghost all = derefs(group.1@);
    if !port_is_readable(group.0) || group.0.width as u32 == 0 {
        return false;
    }
    let mut i: usize = 0;
    while i < group.1.len()
        invariant
            i <= group.1@.len(),
            all == derefs(group.1@),
            forall|j: int|
                0 <= j < i ==> readable((#[trigger] all[j]).src) && guard_readable(all[j].guard),
        decreases group.1@.len() - i,
    {
        let asgn = group.1[i];
        assert(all[i as int] == *asgn);
        if !port_is_readable(&asgn.src) || !guard_is_readable(&asgn.guard) {
            return false;
        }
        i += 1;
    }
    true
}

/// What stands in the way of an instance of the cell.
fn cell_obstacle(cell: &Cell) -> (o: Option<Obstacle>)
    ensures
        o is None <==> instantiable(*cell),
        o matches Some(o) ==> match o {
            Obstacle::InoutPort { .. } => false,
            Obstacle::WideParameter { name, value } => exists|i: int| #[trigger]
                first_wide(*cell, i) && name@ == cell.prototype->param_binding@[i].0@ && value
                    == cell.prototype->param_binding@[i].1,
            Obstacle::Other => forall|i: int| !#[trigger] first_wide(*cell, i),
        },
{
    if let CellType::Primitive { name, param_binding } = &cell.prototype {
        if *name == "std_const".to_string() {
            if param_binding.len() < 2 || param_binding[0].1 as u32 == 0 {
                return Some(Obstacle::Other);
            }
        } else {
            let mut i: usize = 0;
            while i < param_binding.len()
                invariant
                    i <= param_binding@.len(),
                    cell.prototype == (CellType::Primitive {
                        name: *name,
                        param_binding: *param_binding,
                    }),
                    name@ != "std_const"@,
                    forall|j: int| 0 <= j < i ==> (#[trigger] param_binding@[j]).1 <= i32::MAX,
                decreases param_binding@.len() - i,
            {
                let value = param_binding[i].1;
                if value > i32::MAX as u64 {
                    assert(first_wide(*cell, i as int));
                    let name = param_binding[i].0.clone();
                    return Some(Obstacle::WideParameter { name, value });
                }
                i += 1;
            }
        }
    }
    if cell.proto_name().is_none() {
        return None;
    }
    let mut i: usize = 0;
    while i < cell.ports.len()
        invariant
            i <= cell.ports@.len(),
            cell.spec_proto_name() is Some,
            cell.prototype matches CellType::Primitive { name, param_binding }
                ==> params_representable(name@, param_binding@),
            forall|j: int| 0 <= j < i ==> readable(#[trigger] cell.ports@[j]),
        decreases cell.ports@.len() - i,
    {
        if !port_is_readable(&cell.ports[i]) {
            return Some(Obstacle::Other);
        }
        i += 1;
    }
    None
}

/// All ports of the cell belong to a cell.
fn has_no_holes(cell: &Cell) -> (b: bool)
    ensures
        b == no_holes(*cell),
{
    let mut i: usize = 0;
    while i < cell.ports.len()
        invariant
            i <= cell.ports@.len(),
            forall|j: int| 0 <= j < i ==> !(#[trigger] cell.ports@[j]).hole(),
        decreases cell.ports@.len() - i,
    {
        if cell.ports[i].is_hole() {
            return false;
        }
        i += 1;
    }
    true
}

/// The wires for the ports of the cells can be declared.
fn is_wirable(comp: &Component, bc: &BackendConf) -> (b: bool)
    ensures
        b == wirable(*comp, *bc),
{
    let mut i: usize = 0;
    while i < comp.cells.len()
        invariant
            i <= comp.cells@.len(),
            forall|j: int| 0 <= j < i ==> no_holes(#[trigger] comp.cells@[j]),
        decreases comp.cells@.len() - i,
    {
        if !has_no_holes(&comp.cells[i]) {
            return false;
        }
        i += 1;
    }
    let wires = component_wires(&comp.cells);
    let ghost views = cell_wires(comp.cells@);
    i = 0;
    while i < wires.len()
        invariant
            i <= wires@.len(),
            views == wire_views(wires@),
            views == cell_wires(comp.cells@),
            wires_declarable(views.take(i as int), bc.initialize_inputs),
        decreases wires@.len() - i,
    {
        assert(views[i as int] == (wires@[i as int].0@, wires@[i as int].1, wires@[i as int].2));
        if wires[i].1 == 0 || (bc.initialize_inputs && wires[i].2 == Direction::Input
            && wires[i].1 as u32 == 0) {
            return false;
        }
        assert forall|j: int| 0 <= j < i + 1 implies (#[trigger] views.take(i + 1)[j]).1 > 0 && (
        bc.initialize_inputs && views.take(i + 1)[j].2 == Direction::Input
            ==> views.take(i + 1)[j].1 as u32 > 0) by {
            if j < i {
                assert(views.take(i as int)[j] == views[j]);
            }
        }
        i += 1;
    }
    assert(views.take(i as int) =~= views);
    true
}

/// All ports that are driven can be driven by their assignments.
fn all_assignable(asgns: &Vec<Assignment>) -> (b: bool)
    ensures
        b == forall|i: int|
            #![trigger driven(asgns@)[i]]
            0 <= i < driven(asgns@).len() ==> assignable(
                drivers(asgns@, driven(asgns@)[i])[0].dst,
                drivers(asgns@, driven(asgns@)[i]),
            ),
{
    let groups = assignments_by_port(asgns);
    let ghost names = driven(asgns@);
    let mut i: usize = 0;
    assert(group_names(groups@).len() == groups@.len());
    while i < groups.len()
        invariant
            i <= groups@.len() == names.len(),
            names == driven(asgns@),
            forall|j: int|
                0 <= j < groups@.len() ==> holds_drivers(asgns@, #[trigger] groups@[j], names[j]),
            forall|j: int|
                #![trigger names[j]]
                0 <= j < i ==> assignable(
                    drivers(asgns@, names[j])[0].dst,
                    drivers(asgns@, names[j]),
                ),
        decreases groups@.len() - i,
    {
        proof {
            assert(holds_drivers(asgns@, groups@[i as int], names[i as int]));
            assert(derefs(groups@[i as int].1@)[0] == *groups@[i as int].1@[0]);
        }
        if !is_assignable(&groups[i]) {
            return false;
        }
        i += 1;
    }
    true
}

/// No port of the signature has width zero.
fn is_signature_printable(comp: &Component) -> (b: bool)
    ensures
        b == signature_printable(*comp),
{
    let ports = &comp.signature.ports;
    let mut i: usize = 0;
    while i < ports.len()
        invariant
            i <= ports@.len(),
            ports@ == comp.signature.ports@,
            forall|j: int| 0 <= j < i ==> (#[trigger] ports@[j]).width > 0,
        decreases ports@.len() - i,
    {
        if ports[i].width == 0 {
            return false;
        }
        i += 1;
    }
    true
}

/// What stands in the way of the module for a component.
pub fn component_obstacle(comp: &Component, bc: &BackendConf) -> (o: Option<Obstacle>)
    ensures
        o is None <==> ready(*comp, *bc),
        o matches Some(o) ==> stands_in_the_way(*comp, *bc, o),
{
    let ports = &comp.signature.ports;
    let mut i: usize = 0;
    while i < ports.len()
        invariant
            i <= ports@.len(),
            ports@ == comp.signature.ports@,
            forall|j: int| 0 <= j < i ==> (#[trigger] ports@[j]).direction != Direction::Inout,
        decreases ports@.len() - i,
    {
        if ports[i].direction == Direction::Inout {
            assert(first_inout(comp.signature.ports@, i as int));
            return Some(Obstacle::InoutPort { name: ports[i].name.clone() });
        }
        i += 1;
    }
    if !is_wirable(comp, bc) {
        return Some(Obstacle::Other);
    }
    i = 0;
    while i < comp.cells.len()
        invariant
            i <= comp.cells@.len(),
            forall|j: int| !#[trigger] first_inout(comp.signature.ports@, j),
            wirable(*comp, *bc),
            forall|j: int| 0 <= j < i ==> instantiable(#[trigger] comp.cells@[j]),
        decreases comp.cells@.len() - i,
    {
        if let Some(o) = cell_obstacle(&comp.cells[i]) {
            proof {
                assert(first_uninstantiable(comp.cells@, i as int));
                assert forall|k: int, j: int| #[trigger]
                    wide_parameter(*comp, *bc, k, j) implies k == i by {
                    assert(!(k < i) && !(i < k));
                }
                if let Obstacle::WideParameter { name, value } = &o {
                    let j = choose|j: int| #[trigger]
                        first_wide(comp.cells@[i as int], j) && name@
                            == comp.cells@[i as int].prototype->param_binding@[j].0@ && *value
                            == comp.cells@[i as int].prototype->param_binding@[j].1;
                    assert(wide_parameter(*comp, *bc, i as int, j));
                }
            }
            return Some(o);
        }
        i += 1;
    }
    if !all_assignable(&comp.continuous_assignments) || !is_signature_printable(comp) {
        return Some(Obstacle::Other);
    }
    None
}

/// What stands in the way of the modules for a program: what does for the first component whose
/// module cannot be made and printed.
pub fn emit_obstacle(ctx: &Context) -> (o: Option<Obstacle>)
    ensures
        o is None <==> forall|i: int|
            0 <= i < ctx.components@.len() ==> ready(#[trigger] ctx.components@[i], ctx.bc),
        o matches Some(o) ==> exists|i: int|
            0 <= i < ctx.components@.len() && stands_in_the_way(
                #[trigger] ctx.components@[i],
                ctx.bc,
                o,
            ) && forall|j: int| 0 <= j < i ==> ready(#[trigger] ctx.components@[j], ctx.bc),
{
    let mut i: usize = 0;
    while i < ctx.components.len()
        invariant
            i <= ctx.components@.len(),
            forall|j: int| 0 <= j < i ==> ready(#[trigger] ctx.components@[j], ctx.bc),
        decreases ctx.components@.len() - i,
    {
        if let Some(o) = component_obstacle(&ctx.components[i], &ctx.bc) {
            assert(stands_in_the_way(ctx.components@[i as int], ctx.bc, o));
            return Some(o);
        }
        i += 1;
    }
    None
}

} // verus!
