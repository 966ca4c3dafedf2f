//! What a module holds for the cells of a component.

use crate::backend::facts::{lemma_filter_map_add, lemma_filter_map_one};
use crate::backend::laws::ports::{law_wires_follow_the_ports, of_instance, spells, written};
use crate::backend::laws::sections::{
    declarations, instantiations, lemma_sections, memory_processes, processes,
};
use crate::backend::model::{
    bind_params, bind_ports, cell_wires, component_module, external_memories, external_memory,
    instance, instances, memory_reads, memory_writes, port_expr, port_wires, primitive_params,
    transfer, zero_input, zero_inputs, Wire,
};
use crate::backend::verilog::{string_views, wire_views};
use crate::ir::{BackendConf, Cell, CellType, Component, Direction, Port};
use crate::text::{law_decimal_reads_back, occurs_in};
use crate::verilog_ast::{DeclView, ExprView, InstanceView, Radix, SequentialView};
use vstd::prelude::*;

verus! {

//==========================================
//        What is made for the cells
//==========================================

/// What the process that sets inputs to zero does.
pub open spec fn initial_values(comp: Component, bc: BackendConf) -> Seq<SequentialView> {
    processes(component_module(comp, bc))[memory_processes(bc)].body
}

/// What is done before the simulation.
pub open spec fn before_simulation(comp: Component, bc: BackendConf) -> Seq<SequentialView> {
    processes(component_module(comp, bc))[0].body
}

/// What is done after the simulation.
pub open spec fn after_simulation(comp: Component, bc: BackendConf) -> Seq<SequentialView> {
    processes(component_module(comp, bc))[1].body
}

/// The cell is one of a primitive or a component.
pub open spec fn instantiated(c: Cell) -> bool {
    c.prototype is Primitive || c.prototype is Component
}

/// The name of the primitive or the component that the cell is one of.
pub open spec fn prototype_name(c: Cell) -> Seq<char> {
    match c.prototype {
        CellType::Primitive { name, .. } => name@,
        CellType::Component { name } => name@,
        _ => Seq::empty(),
    }
}

/// The cell is a memory that files are read into: it is marked as external, and what it is one of
/// has `mem` in its name.
pub open spec fn memory(c: Cell) -> bool {
    &&& instantiated(c)
    &&& occurs_in("mem"@, prototype_name(c))
    &&& exists|i: int|
        0 <= i < c.attributes.attrs@.len() && (#[trigger] c.attributes.attrs@[i]).0@
            == "external"@
}

/// `task({DATA, "/name.extension"}, name.mem);`
pub open spec fn moves(
    stmt: SequentialView,
    task: Seq<char>,
    name: Seq<char>,
    extension: Seq<char>,
) -> bool {
    stmt == SequentialView::SeqExpr(
        ExprView::Call(
            task,
            seq![
                ExprView::Concat(
                    seq![ExprView::Str("/"@ + name + extension), ExprView::Ref("DATA"@)],
                ),
                ExprView::IPath(name + ".mem"@),
            ],
        ),
    )
}

/// `name = width'd0;`
pub open spec fn sets_to_zero(stmt: SequentialView, p: Port) -> bool {
    stmt == SequentialView::BlkAssign(
        ExprView::Ref(written(p)),
        ExprView::ULit(p.width as u32, Radix::Dec, seq!['0']),
    )
}

/// The wires of the cells of two components, one behind the other.
proof fn lemma_cell_wires_add(a: Seq<Cell>, b: Seq<Cell>)
    ensures
        cell_wires(a + b) == cell_wires(a) + cell_wires(b),
    decreases b.len(),
{
    if b.len() == 0 {
        assert(a + b =~= a);
        assert(cell_wires(a) + cell_wires(b) =~= cell_wires(a));
    } else {
        lemma_cell_wires_add(a, b.drop_last());
        assert((a + b).drop_last() =~= a + b.drop_last());
        assert((a + b).last() == b.last());
        assert(cell_wires(a) + cell_wires(b.drop_last()) + port_wires(b.last().ports@)
            =~= cell_wires(a) + (cell_wires(b.drop_last()) + port_wires(b.last().ports@)));
    }
}

/// The wires of a single cell.
proof fn lemma_cell_wires_one(c: Cell)
    ensures
        cell_wires(seq![c]) == port_wires(c.ports@),
{
    reveal_with_fuel(cell_wires, 2);
    assert(seq![c].drop_last() =~= Seq::empty());
    assert(cell_wires(seq![c]) =~= port_wires(c.ports@));
}

/// What is made for the cells of two components, one behind the other, is what is made for those
/// of each: no cell changes what is made for another, and the order stays.
pub proof fn law_cells_add_up(ab: Component, a: Component, b: Component, bc: BackendConf)
    requires
        ab.cells@ == a.cells@ + b.cells@,
    ensures
        declarations(component_module(ab, bc)) == declarations(component_module(a, bc))
            + declarations(component_module(b, bc)),
        instantiations(component_module(ab, bc)) == instantiations(component_module(a, bc))
            + instantiations(component_module(b, bc)),
        bc.initialize_inputs ==> initial_values(ab, bc) == initial_values(a, bc) + initial_values(
            b,
            bc,
        ),
        !bc.synthesis_mode ==> before_simulation(ab, bc) == before_simulation(a, bc)
            + before_simulation(b, bc).skip(2),
        !bc.synthesis_mode ==> after_simulation(ab, bc) == after_simulation(a, bc)
            + after_simulation(b, bc),
{
    lemma_sections(ab, bc);
    lemma_sections(a, bc);
    lemma_sections(b, bc);
    lemma_cell_wires_add(a.cells@, b.cells@);
    assert(declarations(component_module(ab, bc)) =~= declarations(component_module(a, bc))
        + declarations(component_module(b, bc)));
    lemma_filter_map_add(a.cells@, b.cells@, |c: Cell| instance(c));
    lemma_filter_map_add(
        cell_wires(a.cells@),
        cell_wires(b.cells@),
        |w: Wire| zero_input(w),
    );
    lemma_filter_map_add(a.cells@, b.cells@, |c: Cell| external_memory(c));
    if !bc.synthesis_mode {
        assert(before_simulation(ab, bc) =~= before_simulation(a, bc) + before_simulation(
            b,
            bc,
        ).skip(2));
        assert(after_simulation(ab, bc) =~= after_simulation(a, bc) + after_simulation(b, bc));
    }
}

/// Nothing is made where there are no cells. The simulation begins with finding out the directory
/// of the memories and logging it in any case.
pub proof fn law_nothing_is_made_for_no_cells(comp: Component, bc: BackendConf)
    requires
        comp.cells@.len() == 0,
    ensures
        declarations(component_module(comp, bc)).len() == 0,
        instantiations(component_module(comp, bc)).len() == 0,
        bc.initialize_inputs ==> initial_values(comp, bc).len() == 0,
        !bc.synthesis_mode ==> before_simulation(comp, bc) == seq![
            SequentialView::BlkAssign(
                ExprView::Ref("CODE"@),
                ExprView::Call(
                    "$value$plusargs"@,
                    seq![ExprView::Str("DATA=%s"@), ExprView::Ref("DATA"@)],
                ),
            ),
            SequentialView::SeqExpr(
                ExprView::Call(
                    "$display"@,
                    seq![ExprView::Str("DATA: %s"@), ExprView::Ref("DATA"@)],
                ),
            ),
        ],
        !bc.synthesis_mode ==> after_simulation(comp, bc).len() == 0,
{
    reveal(Seq::filter_map);
    lemma_sections(comp, bc);
    assert(comp.cells@ =~= Seq::empty());
    if !bc.synthesis_mode {
        assert(memory_reads(external_memories(comp.cells@)).len() == 2);
        assert(before_simulation(comp, bc) =~= memory_reads(external_memories(comp.cells@)));
    }
}

//==========================================
//        Wires
//==========================================

/// One port more on a cell adds one declaration behind the others where it is a port of an
/// instance, with the name that it is written as and its width, and none where it is not. Where it
/// is an input, its wire starts at zero, in its width.
pub proof fn law_one_port_more(
    a: Component,
    b: Component,
    c: Cell,
    d: Cell,
    p: Port,
    bc: BackendConf,
)
    requires
        a.cells@ == seq![c],
        b.cells@ == seq![d],
        d.ports@ == c.ports@.push(p),
    ensures
        of_instance(p) ==> declarations(component_module(b, bc)) == declarations(
            component_module(a, bc),
        ).push(DeclView { name: written(p), width: p.width }),
        !of_instance(p) ==> declarations(component_module(b, bc)) == declarations(
            component_module(a, bc),
        ),
        bc.initialize_inputs && of_instance(p) && p.direction == Direction::Input ==> {
            &&& initial_values(b, bc).len() == initial_values(a, bc).len() + 1
            &&& initial_values(b, bc).drop_last() == initial_values(a, bc)
            &&& sets_to_zero(initial_values(b, bc).last(), p)
        },
        bc.initialize_inputs && !(of_instance(p) && p.direction == Direction::Input)
            ==> initial_values(b, bc) == initial_values(a, bc),
{
    lemma_sections(a, bc);
    lemma_sections(b, bc);
    lemma_cell_wires_one(c);
    lemma_cell_wires_one(d);
    law_wires_follow_the_ports(c.ports@, p);
    law_decimal_reads_back(0);
    let wires = port_wires(c.ports@);
    if of_instance(p) {
        let w = (written(p), p.width, p.direction);
        assert(declarations(component_module(b, bc)) =~= declarations(
            component_module(a, bc),
        ).push(DeclView { name: written(p), width: p.width }));
        let f = |w: Wire| zero_input(w);
        assert(wires.push(w) =~= wires + seq![w]);
        lemma_filter_map_add(wires, seq![w], f);
        lemma_filter_map_one(w, f);
        assert(zero_inputs(wires.push(w)) == zero_inputs(wires) + seq![w].filter_map(f));
        if p.direction == Direction::Input {
            if bc.initialize_inputs {
                assert(initial_values(b, bc).drop_last() =~= initial_values(a, bc));
            }
        } else {
            assert(zero_inputs(wires.push(w)) =~= zero_inputs(wires));
        }
    }
}

/// The wires that are handed out for the ports are all there, with the name that each port is
/// written as, its width and its direction.
pub proof fn law_wires_are_handed_out(
    ports: Seq<Port>,
    p: Port,
    wires: Seq<(String, u64, Direction)>,
    more: Seq<(String, u64, Direction)>,
)
    requires
        wire_views(wires) == port_wires(ports),
        wire_views(more) == port_wires(ports.push(p)),
    ensures
        more.len() == wires.len() + (if of_instance(p) {
            1int
        } else {
            0
        }),
        forall|k: int|
            0 <= k < wires.len() ==> (#[trigger] more[k]).0@ == wires[k].0@ && more[k].1
                == wires[k].1 && more[k].2 == wires[k].2,
        of_instance(p) ==> more.last().0@ == written(p) && more.last().1 == p.width
            && more.last().2 == p.direction,
{
    law_wires_follow_the_ports(ports, p);
    assert(wire_views(wires).len() == wires.len());
    assert(wire_views(more).len() == more.len());
    assert forall|k: int| 0 <= k < wires.len() implies (#[trigger] more[k]).0@ == wires[k].0@
        && more[k].1 == wires[k].1 && more[k].2 == wires[k].2 by {
        assert(wire_views(more)[k] == wire_views(wires)[k]);
    }
    if of_instance(p) {
        assert(wire_views(more)[wires.len() as int] == (written(p), p.width, p.direction));
    }
}

/// A cell without ports has no wires.
pub proof fn law_cell_without_ports(a: Component, c: Cell, bc: BackendConf)
    requires
        a.cells@ == seq![c],
        c.ports@.len() == 0,
    ensures
        declarations(component_module(a, bc)).len() == 0,
        bc.initialize_inputs ==> initial_values(a, bc).len() == 0,
{
    reveal(Seq::filter_map);
    lemma_sections(a, bc);
    lemma_cell_wires_one(c);
}

/// A wire for a port of a cell is among the wires of all.
pub(crate) proof fn lemma_has_wire(cells: Seq<Cell>, i: int, j: int)
    requires
        0 <= i < cells.len(),
        0 <= j < cells[i].ports@.len(),
        of_instance(cells[i].ports@[j]),
    ensures
        ({
            let p = cells[i].ports@[j];
            cell_wires(cells).contains((written(p), p.width, p.direction))
        }),
    decreases cells.len(),
{
    let p = cells[i].ports@[j];
    let w = (written(p), p.width, p.direction);
    let rest = cells.drop_last();
    if i < rest.len() {
        assert(rest[i] == cells[i]);
        lemma_has_wire(rest, i, j);
        let k = cell_wires(rest).index_of(w);
        assert(cell_wires(cells)[k] == w);
    } else {
        lemma_port_has_wire(cells[i].ports@, j);
        let k = port_wires(cells[i].ports@).index_of(w);
        assert(cell_wires(cells)[cell_wires(rest).len() + k] == w);
    }
}

/// A wire for a port is among those of the ports.
proof fn lemma_port_has_wire(ports: Seq<Port>, j: int)
    requires
        0 <= j < ports.len(),
        of_instance(ports[j]),
    ensures
        port_wires(ports).contains((written(ports[j]), ports[j].width, ports[j].direction)),
    decreases ports.len(),
{
    let p = ports[j];
    let w = (written(p), p.width, p.direction);
    let rest = ports.drop_last();
    assert(rest.push(ports.last()) =~= ports);
    law_wires_follow_the_ports(rest, ports.last());
    if j < rest.len() {
        assert(rest[j] == p);
        lemma_port_has_wire(rest, j);
        let k = port_wires(rest).index_of(w);
        assert(port_wires(ports)[k] == w);
    } else {
        assert(port_wires(ports)[port_wires(rest).len() as int] == w);
    }
}

/// Every wire is that of a port of a cell.
pub(crate) proof fn lemma_wire_has_port(cells: Seq<Cell>, k: int)
    requires
        0 <= k < cell_wires(cells).len(),
    ensures
        exists|i: int, j: int| #[trigger] wire_of(cells, i, j, cell_wires(cells)[k]),
    decreases cells.len(),
{
    let rest = cells.drop_last();
    let w = cell_wires(cells)[k];
    if k < cell_wires(rest).len() {
        assert(w == cell_wires(rest)[k]);
        lemma_wire_has_port(rest, k);
        let (i, j) = choose|i: int, j: int| #[trigger] wire_of(rest, i, j, w);
        assert(wire_of(cells, i, j, w));
    } else {
        let ports = cells.last().ports@;
        let at = k - cell_wires(rest).len();
        assert(w == port_wires(ports)[at]);
        lemma_wire_of_port(ports, at);
        let j = choose|j: int|
            0 <= j < ports.len() && of_instance(#[trigger] ports[j]) && w == (
                written(ports[j]),
                ports[j].width,
                ports[j].direction,
            );
        assert(wire_of(cells, cells.len() - 1, j, w));
    }
}

/// The wire is that of the `j`th port of the `i`th cell.
pub(crate) open spec fn wire_of(cells: Seq<Cell>, i: int, j: int, w: Wire) -> bool {
    &&& 0 <= i < cells.len()
    &&& 0 <= j < cells[i].ports@.len()
    &&& of_instance(cells[i].ports@[j])
    &&& w == (
        written(cells[i].ports@[j]),
        cells[i].ports@[j].width,
        cells[i].ports@[j].direction,
    )
}

/// Every wire for the ports is that of one of them.
proof fn lemma_wire_of_port(ports: Seq<Port>, k: int)
    requires
        0 <= k < port_wires(ports).len(),
    ensures
        exists|j: int|
            0 <= j < ports.len() && of_instance(#[trigger] ports[j]) && port_wires(ports)[k] == (
                written(ports[j]),
                ports[j].width,
                ports[j].direction,
            ),
    decreases ports.len(),
{
    if ports.len() == 0 {
        assert(ports =~= Seq::empty());
        law_wires_follow_the_ports(ports, arbitrary());
    } else {
        let rest = ports.drop_last();
        assert(rest.push(ports.last()) =~= ports);
        law_wires_follow_the_ports(rest, ports.last());
        if k < port_wires(rest).len() {
            lemma_wire_of_port(rest, k);
            let j = choose|j: int|
                0 <= j < rest.len() && of_instance(#[trigger] rest[j]) && port_wires(rest)[k] == (
                    written(rest[j]),
                    rest[j].width,
                    rest[j].direction,
                );
            assert(ports[j] == rest[j]);
        } else {
            assert(of_instance(ports[ports.len() - 1]));
        }
    }
}

/// Every port of a cell that is one of a primitive or a component has a declared wire of its
/// width, which it is written as. Where it is an input and initial values are asked for, the wire
/// starts at zero.
pub proof fn law_every_port_has_its_wire(comp: Component, bc: BackendConf, i: int, j: int)
    requires
        0 <= i < comp.cells@.len(),
        0 <= j < comp.cells@[i].ports@.len(),
        of_instance(comp.cells@[i].ports@[j]),
    ensures
        ({
            let p = comp.cells@[i].ports@[j];
            &&& declarations(component_module(comp, bc)).contains(
                DeclView { name: written(p), width: p.width },
            )
            &&& port_expr(p) == ExprView::Ref(written(p))
            &&& bc.initialize_inputs && p.direction == Direction::Input ==> exists|k: int|
                0 <= k < initial_values(comp, bc).len() && sets_to_zero(
                    #[trigger] initial_values(comp, bc)[k],
                    p,
                )
        }),
{
    lemma_sections(comp, bc);
    lemma_has_wire(comp.cells@, i, j);
    law_decimal_reads_back(0);
    let p = comp.cells@[i].ports@[j];
    let w = (written(p), p.width, p.direction);
    let wires = cell_wires(comp.cells@);
    let k = wires.index_of(w);
    assert(declarations(component_module(comp, bc))[k] == (DeclView {
        name: written(p),
        width: p.width,
    }));
    if bc.initialize_inputs && p.direction == Direction::Input {
        let f = |w: Wire| zero_input(w);
        let front = wires.take(k);
        let back = wires.skip(k + 1);
        assert(wires =~= front + seq![w] + back);
        lemma_filter_map_add(front + seq![w], back, f);
        lemma_filter_map_add(front, seq![w], f);
        lemma_filter_map_one(w, f);
        let at = front.filter_map(f).len() as int;
        assert(initial_values(comp, bc)[at] == zero_input(w)->0);
        assert(sets_to_zero(initial_values(comp, bc)[at], p));
    }
}

/// Every declared wire is that of a port of a cell that is one of a primitive or a component.
pub proof fn law_every_wire_has_its_port(comp: Component, bc: BackendConf, k: int)
    requires
        0 <= k < declarations(component_module(comp, bc)).len(),
    ensures
        exists|i: int, j: int|
            {
                &&& 0 <= i < comp.cells@.len()
                &&& 0 <= j < comp.cells@[i].ports@.len()
                &&& of_instance(#[trigger] comp.cells@[i].ports@[j])
                &&& declarations(component_module(comp, bc))[k] == (DeclView {
                    name: written(comp.cells@[i].ports@[j]),
                    width: comp.cells@[i].ports@[j].width,
                })
            },
{
    lemma_sections(comp, bc);
    lemma_wire_has_port(comp.cells@, k);
    let w = cell_wires(comp.cells@)[k];
    let (i, j) = choose|i: int, j: int| #[trigger] wire_of(comp.cells@, i, j, w);
    assert(of_instance(comp.cells@[i].ports@[j]));
}

//==========================================
//        Instances
//==========================================

/// No port behind the `i`th has the same name.
pub open spec fn last_port_of_name(ports: Seq<Port>, i: int) -> bool {
    &&& 0 <= i < ports.len()
    &&& forall|j: int| i < j < ports.len() ==> (#[trigger] ports[j]).name@ != ports[i].name@
}

/// No parameter behind the `i`th has the same name.
pub open spec fn last_param_of_name(params: Seq<(String, u64)>, i: int) -> bool {
    &&& 0 <= i < params.len()
    &&& forall|j: int| i < j < params.len() ==> (#[trigger] params[j]).0@ != params[i].0@
}

/// Each port is connected to what it is written as, and nothing else is connected. Of two ports of
/// the same name the later one counts.
pub open spec fn connects(bound: Map<Seq<char>, ExprView>, ports: Seq<Port>) -> bool {
    &&& forall|i: int| #[trigger]
        last_port_of_name(ports, i) ==> bound.dom().contains(ports[i].name@)
            && bound[ports[i].name@] == port_expr(ports[i])
    &&& forall|key: Seq<char>| #[trigger]
        bound.dom().contains(key) ==> exists|i: int|
            0 <= i < ports.len() && (#[trigger] ports[i]).name@ == key
}

/// Each parameter is bound to its value as a plain integer, and no other is bound. Of two
/// parameters of the same name the later one counts.
pub open spec fn binds(bound: Map<Seq<char>, ExprView>, params: Seq<(String, u64)>) -> bool {
    &&& forall|i: int| #[trigger]
        last_param_of_name(params, i) ==> bound.dom().contains(params[i].0@)
            && bound[params[i].0@] is Int && (params[i].1 <= i32::MAX
            ==> bound[params[i].0@]->Int_0 == params[i].1)
    &&& forall|key: Seq<char>| #[trigger]
        bound.dom().contains(key) ==> exists|i: int|
            0 <= i < params.len() && (#[trigger] params[i]).0@ == key
}

/// The first parameter of a constant is bound to its width, and the second to its value, as a
/// literal of that width. No other is bound.
pub open spec fn binds_constant(
    bound: Map<Seq<char>, ExprView>,
    params: Seq<(String, u64)>,
) -> bool {
    let width = params[0].0@;
    let value = params[1].0@;
    &&& forall|key: Seq<char>| #[trigger]
        bound.dom().contains(key) <==> key == width || key == value
    &&& width != value ==> bound[width] == ExprView::Int(params[0].1 as i32)
    &&& bound[value] is ULit
    &&& bound[value]->ULit_0 == params[0].1 as u32
    &&& bound[value]->ULit_1 is Dec
    &&& spells(bound[value]->ULit_2, params[1].1 as int)
}

/// The instance is that of the cell, with its parameters bound and all its ports connected.
pub open spec fn instantiates(inst: InstanceView, c: Cell) -> bool {
    &&& inst.id == c.name@
    &&& inst.prim == prototype_name(c)
    &&& connects(inst.ports, c.ports@)
    &&& match c.prototype {
        CellType::Primitive { name, param_binding } => if name@ == "std_const"@ {
            param_binding@.len() >= 2 ==> binds_constant(inst.params, param_binding@)
        } else {
            binds(inst.params, param_binding@)
        },
        _ => forall|key: Seq<char>| !#[trigger] inst.params.dom().contains(key),
    }
}

/// The ports of an instance are connected.
proof fn lemma_connects(ports: Seq<Port>)
    ensures
        connects(bind_ports(ports), ports),
    decreases ports.len(),
{
    let bound = bind_ports(ports);
    if ports.len() > 0 {
        let rest = ports.drop_last();
        let n = ports.len() - 1;
        lemma_connects(rest);
        assert forall|i: int| #[trigger] last_port_of_name(ports, i) implies bound.dom().contains(
            ports[i].name@,
        ) && bound[ports[i].name@] == port_expr(ports[i]) by {
            if i < n {
                assert(ports[n].name@ != ports[i].name@);
                assert(rest[i] == ports[i]);
                assert forall|j: int| i < j < rest.len() implies (#[trigger] rest[j]).name@
                    != rest[i].name@ by {
                    assert(ports[j].name@ != ports[i].name@);
                }
                assert(last_port_of_name(rest, i));
            }
        }
        assert forall|key: Seq<char>| #[trigger] bound.dom().contains(key) implies exists|i: int|
            0 <= i < ports.len() && (#[trigger] ports[i]).name@ == key by {
            if key == ports[n].name@ {
            } else {
                assert(bind_ports(rest).dom().contains(key));
                let i = choose|i: int| 0 <= i < rest.len() && (#[trigger] rest[i]).name@ == key;
                assert(ports[i].name@ == key);
            }
        }
    }
}

/// The parameters of an instance are bound.
proof fn lemma_binds(params: Seq<(String, u64)>)
    ensures
        binds(bind_params(params), params),
    decreases params.len(),
{
    let bound = bind_params(params);
    if params.len() > 0 {
        let rest = params.drop_last();
        let n = params.len() - 1;
        lemma_binds(rest);
        assert forall|i: int| #[trigger] last_param_of_name(params, i) implies bound.dom().contains(
            params[i].0@,
        ) && bound[params[i].0@] is Int && (params[i].1 <= i32::MAX
            ==> bound[params[i].0@]->Int_0 == params[i].1) by {
            if i < n {
                assert(params[n].0@ != params[i].0@);
                assert(rest[i] == params[i]);
                assert forall|j: int| i < j < rest.len() implies (#[trigger] rest[j]).0@
                    != rest[i].0@ by {
                    assert(params[j].0@ != params[i].0@);
                }
                assert(last_param_of_name(rest, i));
            }
        }
        assert forall|key: Seq<char>| #[trigger] bound.dom().contains(key) implies exists|i: int|
            0 <= i < params.len() && (#[trigger] params[i]).0@ == key by {
            if key == params[n].0@ {
            } else {
                assert(bind_params(rest).dom().contains(key));
                let i = choose|i: int| 0 <= i < rest.len() && (#[trigger] rest[i]).0@ == key;
                assert(params[i].0@ == key);
            }
        }
    }
}

/// A cell of a primitive or a component has an instance that is its own in every respect, and no
/// other cell has one.
pub proof fn law_instance_is_that_of_the_cell(c: Cell)
    ensures
        instance(c) is Some <==> instantiated(c),
        instance(c) matches Some(inst) ==> instantiates(inst, c),
{
    lemma_connects(c.ports@);
    if let CellType::Primitive { name, param_binding } = c.prototype {
        let params = param_binding@;
        if name@ == "std_const"@ {
            if params.len() >= 2 {
                law_decimal_reads_back(params[1].1 as nat);
                let bound = primitive_params(name@, params);
                assert forall|key: Seq<char>| #[trigger] bound.dom().contains(key) <==> key
                    == params[0].0@ || key == params[1].0@ by {}
            }
        } else {
            lemma_binds(params);
        }
    }
}

/// A single cell makes one instance where it is one of a primitive or a component, and none where
/// it is not.
pub proof fn law_one_instance_for_a_cell(a: Component, c: Cell, bc: BackendConf)
    requires
        a.cells@ == seq![c],
    ensures
        instantiated(c) ==> instantiations(component_module(a, bc)).len() == 1 && instantiates(
            instantiations(component_module(a, bc))[0],
            c,
        ),
        !instantiated(c) ==> instantiations(component_module(a, bc)).len() == 0,
{
    lemma_sections(a, bc);
    law_instance_is_that_of_the_cell(c);
    lemma_filter_map_one(c, |c: Cell| instance(c));
}

/// Every cell of a primitive or a component is instantiated in the module, with its parameters
/// bound and all its ports connected.
pub proof fn law_every_cell_is_instantiated(comp: Component, bc: BackendConf, i: int)
    requires
        0 <= i < comp.cells@.len(),
        instantiated(comp.cells@[i]),
    ensures
        ({
            let insts = instantiations(component_module(comp, bc));
            exists|k: int|
                0 <= k < insts.len() && instantiates(#[trigger] insts[k], comp.cells@[i])
        }),
{
    lemma_sections(comp, bc);
    let cells = comp.cells@;
    let c = cells[i];
    law_instance_is_that_of_the_cell(c);
    let f = |c: Cell| instance(c);
    let front = cells.take(i);
    let back = cells.skip(i + 1);
    assert(cells =~= front + seq![c] + back);
    lemma_filter_map_add(front + seq![c], back, f);
    lemma_filter_map_add(front, seq![c], f);
    lemma_filter_map_one(c, f);
    let insts = instantiations(component_module(comp, bc));
    let at = front.filter_map(f).len() as int;
    assert(insts[at] == instance(c)->0);
}

/// Every instance in the module is that of a cell.
pub proof fn law_every_instance_has_its_cell(comp: Component, bc: BackendConf, k: int)
    requires
        0 <= k < instantiations(component_module(comp, bc)).len(),
    ensures
        exists|i: int|
            0 <= i < comp.cells@.len() && instantiates(
                instantiations(component_module(comp, bc))[k],
                #[trigger] comp.cells@[i],
            ),
{
    lemma_sections(comp, bc);
    let f = |c: Cell| instance(c);
    let inst = instances(comp.cells@)[k];
    assert(comp.cells@.filter_map(f).contains(inst));
    comp.cells@.lemma_filter_map_contains(f, inst);
    let c = choose|c: Cell| comp.cells@.contains(c) && #[trigger] f(c) == Some(inst);
    law_instance_is_that_of_the_cell(c);
    let i = comp.cells@.index_of(c);
    assert(comp.cells@[i] == c);
}

//==========================================
//        Memories
//==========================================

/// A single cell is read from its own file before the simulation and written to its own file after
/// it where it is an external memory, and neither where it is not.
pub proof fn law_one_transfer_for_a_memory(a: Component, c: Cell, bc: BackendConf)
    requires
        a.cells@ == seq![c],
        !bc.synthesis_mode,
    ensures
        memory(c) ==> {
            &&& before_simulation(a, bc).len() == 3
            &&& moves(before_simulation(a, bc)[2], "$readmemh"@, c.name@, ".dat"@)
            &&& after_simulation(a, bc).len() == 1
            &&& moves(after_simulation(a, bc)[0], "$writememh"@, c.name@, ".out"@)
        },
        !memory(c) ==> before_simulation(a, bc).len() == 2 && after_simulation(a, bc).len() == 0,
{
    lemma_sections(a, bc);
    lemma_external(c);
    lemma_filter_map_one(c, |c: Cell| external_memory(c));
    if memory(c) {
        assert(external_memories(a.cells@) == seq![c.name@]);
        assert(before_simulation(a, bc)[2] == transfer("$readmemh"@, c.name@, ".dat"@));
    }
}

/// Which cells are external memories.
proof fn lemma_external(c: Cell)
    ensures
        external_memory(c) == (if memory(c) {
            Some(c.name@)
        } else {
            None
        }),
{
}

/// The names of the external memories are found one after the other.
pub proof fn law_memories_are_found_in_order(
    cells: Seq<Cell>,
    c: Cell,
    names: Seq<String>,
    more: Seq<String>,
)
    requires
        string_views(names) == external_memories(cells),
        string_views(more) == external_memories(cells.push(c)),
    ensures
        external_memories(Seq::empty()) == Seq::<Seq<char>>::empty(),
        more.len() == names.len() + (if memory(c) {
            1int
        } else {
            0
        }),
        forall|k: int| 0 <= k < names.len() ==> (#[trigger] more[k])@ == names[k]@,
        memory(c) ==> more.last()@ == c.name@,
{
    reveal(Seq::filter_map);
    let f = |c: Cell| external_memory(c);
    lemma_external(c);
    assert(cells.push(c) =~= cells + seq![c]);
    lemma_filter_map_add(cells, seq![c], f);
    lemma_filter_map_one(c, f);
    assert(string_views(names).len() == names.len());
    assert(string_views(more).len() == more.len());
    assert forall|k: int| 0 <= k < names.len() implies (#[trigger] more[k])@ == names[k]@ by {
        assert(string_views(more)[k] == string_views(names)[k]);
    }
    if memory(c) {
        assert(string_views(more)[names.len() as int] == c.name@);
    }
}

/// Every external memory is read from its own file before the simulation, and written to its own
/// file after it.
pub proof fn law_every_memory_is_read_and_written(comp: Component, bc: BackendConf, i: int)
    requires
        !bc.synthesis_mode,
        0 <= i < comp.cells@.len(),
        memory(comp.cells@[i]),
    ensures
        exists|k: int|
            0 <= k < before_simulation(comp, bc).len() && moves(
                #[trigger] before_simulation(comp, bc)[k],
                "$readmemh"@,
                comp.cells@[i].name@,
                ".dat"@,
            ),
        exists|k: int|
            0 <= k < after_simulation(comp, bc).len() && moves(
                #[trigger] after_simulation(comp, bc)[k],
                "$writememh"@,
                comp.cells@[i].name@,
                ".out"@,
            ),
{
    lemma_sections(comp, bc);
    let cells = comp.cells@;
    let c = cells[i];
    lemma_external(c);
    let f = |c: Cell| external_memory(c);
    let front = cells.take(i);
    let back = cells.skip(i + 1);
    assert(cells =~= front + seq![c] + back);
    lemma_filter_map_add(front + seq![c], back, f);
    lemma_filter_map_add(front, seq![c], f);
    lemma_filter_map_one(c, f);
    let at = front.filter_map(f).len() as int;
    assert(external_memories(cells)[at] == c.name@);
    assert(before_simulation(comp, bc) == memory_reads(external_memories(cells)));
    assert(after_simulation(comp, bc) == memory_writes(external_memories(cells)));
    assert(moves(before_simulation(comp, bc)[at + 2], "$readmemh"@, c.name@, ".dat"@));
    assert(moves(after_simulation(comp, bc)[at], "$writememh"@, c.name@, ".out"@));
}

/// Nothing but external memories is read before the simulation or written after it.
pub proof fn law_only_memories_are_read_and_written(comp: Component, bc: BackendConf, k: int)
    requires
        !bc.synthesis_mode,
        0 <= k < after_simulation(comp, bc).len(),
    ensures
        before_simulation(comp, bc).len() == after_simulation(comp, bc).len() + 2,
        exists|i: int|
            {
                &&& 0 <= i < comp.cells@.len()
                &&& memory(#[trigger] comp.cells@[i])
                &&& moves(
                    before_simulation(comp, bc)[k + 2],
                    "$readmemh"@,
                    comp.cells@[i].name@,
                    ".dat"@,
                )
                &&& moves(
                    after_simulation(comp, bc)[k],
                    "$writememh"@,
                    comp.cells@[i].name@,
                    ".out"@,
                )
            },
{
    lemma_sections(comp, bc);
    let f = |c: Cell| external_memory(c);
    let name = external_memories(comp.cells@)[k];
    assert(comp.cells@.filter_map(f).contains(name));
    comp.cells@.lemma_filter_map_contains(f, name);
    let c = choose|c: Cell| comp.cells@.contains(c) && #[trigger] f(c) == Some(name);
    lemma_external(c);
    let i = comp.cells@.index_of(c);
    assert(comp.cells@[i] == c);
    assert(memory(comp.cells@[i]));
}

} // verus!
