//! What holds of the SystemVerilog backend as a whole.

use crate::backend::model::{
    assigns, cell_wires, check_part, checks, component_module, components_text, disjoint_check,
    driven, drivers, external_memories, guard_expr, guard_exprs, guard_readable, has_clock,
    initial_part, instance_stmts, instances, memory_part, memory_reads, memory_stmts,
    memory_writes, module_port, mux_chain, port_assign, port_check, port_expr, port_wire,
    port_wires, process_stmt, readable, transfer, wire_stmts, zero, PortName, Wire,
};
use crate::backend::facts::{
    ascending, lemma_driven, lemma_driven_unique, lemma_drivers_name, lemma_joined_readable,
};
use crate::backend::validate::{
    component_result, first_use, group_assignments, groups_error, program_result, reads_hole,
    structure_result,
};
use crate::errors::ErrorView;
use crate::ir::{
    Assignment, BackendConf, Cell, CellType, Component, Direction, Group, Guard, Port, PortComp,
    PortParent,
};
use crate::verilog_ast::{
    module_text, Binop, DeclView, ExprView, ParallelView, ProcessKind, ProcessView, Radix,
    SequentialView, StmtView,
};
use vstd::prelude::*;

pub mod acceptance;
pub mod cells;
pub mod driving;
pub mod ports;
pub mod sections;

verus! {

//==========================================
//        Which programs are accepted
//==========================================

/// The groups of a component are accepted exactly where there are none.
pub proof fn law_structure_accepted(groups: Seq<Group>)
    ensures
        structure_result(groups) is Ok <==> groups.len() == 0,
{
}

/// The error for groups is about the first assignment that uses a hole, where there is one.
pub proof fn law_first_hole_is_reported(groups: Seq<Group>, i: int)
    requires
        first_use(group_assignments(groups), i),
    ensures
        structure_result(groups) == Err::<(), ErrorView>(
            groups_error(group_assignments(groups)[i].dst.attributes.span),
        ),
{
    let asgns = group_assignments(groups);
    let j = choose|j: int| first_use(asgns, j);
    assert(first_use(asgns, j));
    assert(!(i < j) && !(j < i));
}

/// A program is accepted where each of its components is.
pub proof fn law_program_accepted(comps: Seq<Component>)
    ensures
        program_result(comps) is Ok <==> forall|i: int|
            0 <= i < comps.len() ==> component_result(#[trigger] comps[i]) is Ok,
    decreases comps.len(),
{
    if comps.len() > 0 {
        let rest = comps.drop_last();
        law_program_accepted(rest);
        if forall|i: int| 0 <= i < comps.len() ==> component_result(#[trigger] comps[i]) is Ok {
            assert forall|i: int| 0 <= i < rest.len() implies component_result(
                #[trigger] rest[i],
            ) is Ok by {
                assert(component_result(comps[i]) is Ok);
            }
            assert(component_result(comps[comps.len() - 1]) is Ok);
        } else if program_result(comps) is Ok {
            let i = choose|i: int|
                0 <= i < comps.len() && component_result(#[trigger] comps[i]) is Err;
            if i < rest.len() {
                assert(component_result(rest[i]) is Err);
            }
        }
    }
}

/// The component has no groups, and its control is empty.
pub open spec fn flat(comp: Component) -> bool {
    comp.groups@.len() == 0 && comp.control is Empty
}

/// Only programs without groups and without control are accepted.
pub proof fn law_only_flat_programs_accepted(comps: Seq<Component>)
    requires
        program_result(comps) is Ok,
    ensures
        forall|i: int| 0 <= i < comps.len() ==> flat(#[trigger] comps[i]),
{
    law_program_accepted(comps);
    assert forall|i: int| 0 <= i < comps.len() implies flat(#[trigger] comps[i]) by {
        assert(component_result(comps[i]) is Ok);
    }
}

/// All programs without groups and without control are accepted.
pub proof fn law_flat_program_accepted(comps: Seq<Component>)
    requires
        forall|i: int| 0 <= i < comps.len() ==> flat(#[trigger] comps[i]),
    ensures
        program_result(comps) is Ok,
{
    law_program_accepted(comps);
    assert forall|i: int| 0 <= i < comps.len() implies component_result(
        #[trigger] comps[i],
    ) is Ok by {
        assert(flat(comps[i]));
    }
}

//==========================================
//        Guards
//==========================================

/// How two values compare.
pub open spec fn compares(op: PortComp, l: nat, r: nat) -> bool {
    match op {
        PortComp::Eq => l == r,
        PortComp::Neq => l != r,
        PortComp::Gt => l > r,
        PortComp::Lt => l < r,
        PortComp::Geq => l >= r,
        PortComp::Leq => l <= r,
    }
}

/// The guard holds while the ports have the values that `value` gives for their expressions.
pub open spec fn guard_holds(g: Guard, value: spec_fn(ExprView) -> nat) -> bool
    decreases g,
{
    match g {
        Guard::Or(l, r) => guard_holds(*l, value) || guard_holds(*r, value),
        Guard::And(l, r) => guard_holds(*l, value) && guard_holds(*r, value),
        Guard::Not(o) => !guard_holds(*o, value),
        Guard::CompOp(op, l, r) => compares(op, value(port_expr(l)), value(port_expr(r))),
        Guard::Port(p) => value(port_expr(p)) != 0,
        Guard::True => true,
    }
}

/// The expression, read as one bit, is set while names and literals have the values that `value`
/// gives.
pub open spec fn bit_set(e: ExprView, value: spec_fn(ExprView) -> nat) -> bool
    decreases e,
{
    match e {
        ExprView::Not(o) => !bit_set(*o, value),
        ExprView::Binop(op, l, r) => match op {
            Binop::BitOr => bit_set(*l, value) || bit_set(*r, value),
            Binop::BitAnd => bit_set(*l, value) && bit_set(*r, value),
            Binop::Equal => value(*l) == value(*r),
            Binop::NotEqual => value(*l) != value(*r),
            Binop::Gt => value(*l) > value(*r),
            Binop::Lt => value(*l) < value(*r),
            Binop::Geq => value(*l) >= value(*r),
            Binop::Leq => value(*l) <= value(*r),
        },
        _ => value(e) != 0,
    }
}

/// The expression for a guard is set exactly while the guard holds.
pub proof fn law_guard_expression_means_the_guard(g: Guard, value: spec_fn(ExprView) -> nat)
    requires
        guard_readable(g),
        value(ExprView::ULit(1, Radix::Bin, seq!['1'])) == 1,
    ensures
        bit_set(guard_expr(g), value) == guard_holds(g, value),
    decreases g,
{
    match g {
        Guard::Or(l, r) => {
            lemma_joined_readable(g, *l, *r);
            law_guard_expression_means_the_guard(*l, value);
            law_guard_expression_means_the_guard(*r, value);
        },
        Guard::And(l, r) => {
            lemma_joined_readable(g, *l, *r);
            law_guard_expression_means_the_guard(*l, value);
            law_guard_expression_means_the_guard(*r, value);
        },
        Guard::Not(o) => {
            assert(g.ports() == o.ports());
            law_guard_expression_means_the_guard(*o, value);
        },
        Guard::CompOp(_, _, _) => {},
        Guard::Port(p) => {
            assert(readable(g.ports()[0]));
        },
        Guard::True => {},
    }
}

/// All constants that the guard reads have a width that a literal can have.
pub open spec fn constants_have_width(g: Guard) -> bool {
    forall|i: int|
        0 <= i < g.ports().len() ==> ((#[trigger] g.ports()[i]).parent matches PortParent::Cell {
            prototype: CellType::Constant { width, .. },
            ..
        } ==> width as u32 > 0)
}

/// A guard whose constants have a width can be turned into an expression exactly where it is valid:
/// where it reads no hole.
pub proof fn law_valid_guard_is_readable(g: Guard)
    requires
        constants_have_width(g),
    ensures
        guard_readable(g) <==> !reads_hole(g),
{
    if guard_readable(g) && reads_hole(g) {
        let i = choose|i: int| 0 <= i < g.ports().len() && (#[trigger] g.ports()[i]).hole();
        assert(readable(g.ports()[i]));
    }
    if !reads_hole(g) {
        assert forall|i: int| 0 <= i < g.ports().len() implies readable(
            #[trigger] g.ports()[i],
        ) by {
            assert(!g.ports()[i].hole());
        }
    }
}

/// A conflict is reported under the name by which the module refers to the port.
pub proof fn law_conflict_names_the_signal(dst: Port, asgns: Seq<Assignment>, signal: Seq<char>)
    requires
        asgns.len() > 1,
        readable(dst),
        port_expr(dst) == ExprView::Ref(signal),
    ensures
        disjoint_check(dst, asgns) matches Some(SequentialView::If(_, body)) && body == seq![
            SequentialView::SeqExpr(
                ExprView::Call(
                    "$error"@,
                    seq![ExprView::Str("Multiple assignments to "@ + signal)],
                ),
            ),
        ],
{
}

/// A check is made exactly where a port has more than one assignment, and it looks at the guard of
/// every one of them.
pub proof fn law_check_looks_at_all_guards(dst: Port, asgns: Seq<Assignment>)
    ensures
        disjoint_check(dst, asgns) is Some <==> asgns.len() > 1,
        disjoint_check(dst, asgns) matches Some(check) ==> {
            &&& check matches SequentialView::If(cond, _)
            &&& cond == ExprView::Not(
                Box::new(ExprView::Call("$onehot0"@, seq![ExprView::Concat(guard_exprs(asgns))])),
            )
        },
        guard_exprs(asgns).len() == asgns.len(),
        forall|i: int|
            0 <= i < asgns.len() ==> guard_exprs(asgns)[i] == guard_expr(
                (#[trigger] asgns[i]).guard,
            ),
{
}

//==========================================
//        Assignments
//==========================================

/// What drives the target of an assignment while exactly the expressions in `holds` are true.
pub open spec fn selected(e: ExprView, holds: spec_fn(ExprView) -> bool) -> ExprView
    decreases e,
{
    match e {
        ExprView::Mux(cond, tru, fal) => if holds(*cond) {
            *tru
        } else {
            selected(*fal, holds)
        },
        _ => e,
    }
}

/// The port is driven by the source of the first assignment whose guard holds.
pub proof fn law_first_active_assignment_drives(
    asgns: Seq<Assignment>,
    width: u32,
    holds: spec_fn(ExprView) -> bool,
    i: int,
)
    requires
        0 <= i < asgns.len(),
        holds(guard_expr(asgns[i].guard)),
        forall|j: int| 0 <= j < i ==> !holds(guard_expr((#[trigger] asgns[j]).guard)),
    ensures
        selected(mux_chain(asgns, zero(width)), holds) == port_expr(asgns[i].src),
    decreases asgns.len(),
{
    if i > 0 {
        let rest = asgns.drop_first();
        assert(!holds(guard_expr(asgns[0].guard)));
        assert forall|j: int| 0 <= j < i - 1 implies !holds(
            guard_expr((#[trigger] rest[j]).guard),
        ) by {
            assert(rest[j] == asgns[j + 1]);
        }
        law_first_active_assignment_drives(rest, width, holds, i - 1);
    }
}

/// The port is driven to zero where no guard holds.
pub proof fn law_inactive_port_is_zero(
    asgns: Seq<Assignment>,
    width: u32,
    holds: spec_fn(ExprView) -> bool,
)
    requires
        forall|j: int|
            0 <= j < asgns.len() ==> !holds(guard_expr((#[trigger] asgns[j]).guard)),
    ensures
        selected(mux_chain(asgns, zero(width)), holds) == zero(width),
    decreases asgns.len(),
{
    if asgns.len() > 0 {
        let rest = asgns.drop_first();
        assert(!holds(guard_expr(asgns[0].guard)));
        assert forall|j: int| 0 <= j < rest.len() implies !holds(
            guard_expr((#[trigger] rest[j]).guard),
        ) by {
            assert(rest[j] == asgns[j + 1]);
        }
        law_inactive_port_is_zero(rest, width, holds);
    }
}

/// Every port that is assigned to is driven by one statement, the statements come in ascending
/// order of the names of the ports, and no other port is driven.
pub proof fn law_each_port_driven_once(asgns: Seq<Assignment>)
    ensures
        ascending(driven(asgns)),
        assigns(asgns, driven(asgns)).len() == driven(asgns).len(),
        forall|n: PortName| #[trigger]
            driven(asgns).contains(n) <==> exists|i: int|
                0 <= i < asgns.len() && (#[trigger] asgns[i]).dst.spec_canonical() == n,
{
    lemma_driven(asgns);
    assert forall|n: PortName| #[trigger]
        driven(asgns).contains(n) <==> exists|i: int|
            0 <= i < asgns.len() && (#[trigger] asgns[i]).dst.spec_canonical() == n by {
        let pred = |a: Assignment| a.dst.spec_canonical() == n;
        if driven(asgns).contains(n) {
            lemma_drivers_name(asgns, n, 0);
            let i = asgns.index_of(drivers(asgns, n)[0]);
            assert(asgns[i].dst.spec_canonical() == n);
        }
        if exists|i: int|
            0 <= i < asgns.len() && (#[trigger] asgns[i]).dst.spec_canonical() == n {
            let i = choose|i: int|
                0 <= i < asgns.len() && (#[trigger] asgns[i]).dst.spec_canonical() == n;
            asgns.lemma_filter_contains(pred, i);
            assert(drivers(asgns, n).len() > 0);
        }
    }
}

/// The order of assignments to different ports makes no difference: the statements and the checks
/// depend on nothing but the assignments to each port and their order.
pub proof fn law_order_across_ports_is_immaterial(a: Seq<Assignment>, b: Seq<Assignment>)
    requires
        forall|n: PortName| #[trigger] drivers(a, n) == drivers(b, n),
    ensures
        assigns(a, driven(a)) == assigns(b, driven(b)),
        checks(a, driven(a)) == checks(b, driven(b)),
{
    lemma_driven(a);
    assert forall|n: PortName| #[trigger]
        driven(a).contains(n) <==> drivers(b, n).len() > 0 by {
        assert(drivers(a, n) == drivers(b, n));
    }
    lemma_driven_unique(b, driven(a));
    let names = driven(a);
    assert(assigns(a, names) =~= assigns(b, names)) by {
        assert forall|i: int| 0 <= i < names.len() implies port_assign(a, names[i]) == port_assign(
            b,
            names[i],
        ) by {
            assert(drivers(a, names[i]) == drivers(b, names[i]));
        }
    }
    let f = |n: PortName| port_check(a, n);
    let g = |n: PortName| port_check(b, n);
    assert forall|n: PortName| #[trigger] f(n) == g(n) by {
        assert(drivers(a, n) == drivers(b, n));
    }
    assert(f =~= g);
}

//==========================================
//        Modules
//==========================================

/// What the signature of a component puts out the module takes in, and the other way round.
pub proof fn law_signature_is_reversed(comp: Component, bc: BackendConf, i: int)
    requires
        0 <= i < comp.signature.ports@.len(),
        comp.signature.ports@[i].direction != Direction::Inout,
    ensures
        component_module(comp, bc).ports.len() == comp.signature.ports@.len(),
        component_module(comp, bc).ports[i].decl() == (DeclView {
            name: comp.signature.ports@[i].name@,
            width: comp.signature.ports@[i].width,
        }),
        component_module(comp, bc).ports[i] is Input <==> comp.signature.ports@[i].direction
            == Direction::Output,
        component_module(comp, bc).ports[i] is Output <==> comp.signature.ports@[i].direction
            == Direction::Input,
{
    assert(component_module(comp, bc).ports[i] == module_port(comp.signature.ports@[i]));
}

/// In a module with a port `clk`, the checks are done on its rising edge.
pub proof fn law_checks_are_clocked(comp: Component, bc: BackendConf, i: int)
    requires
        !bc.synthesis_mode,
        bc.enable_verification,
        0 <= i < comp.signature.ports@.len(),
        comp.signature.ports@[i].name@ == "clk"@,
    ensures
        component_module(comp, bc).body.last() == StmtView::Parallel(
            ParallelView::Process(
                ProcessView {
                    kind: ProcessKind::AlwaysFF,
                    event: Some(SequentialView::Posedge(ExprView::Ref("clk"@))),
                    body: checks(
                        comp.continuous_assignments@,
                        driven(comp.continuous_assignments@),
                    ),
                },
            ),
        ),
{
    assert(has_clock(comp.signature.ports@));
    assert(component_module(comp, bc).body.last() == check_part(comp, bc)[0]);
}

/// A process waits for an event only where the module has the port that the event is about.
pub proof fn law_events_are_about_ports(comp: Component, bc: BackendConf, i: int)
    requires
        forall|j: int|
            0 <= j < comp.signature.ports@.len() ==> (#[trigger] comp.signature.ports@[j]).direction
                != Direction::Inout,
        0 <= i < component_module(comp, bc).body.len(),
    ensures
        component_module(comp, bc).body[i] matches StmtView::Parallel(ParallelView::Process(p))
            ==> (p.event is Some ==> {
            &&& p.event == Some(SequentialView::Posedge(ExprView::Ref("clk"@)))
            &&& exists|j: int|
                0 <= j < component_module(comp, bc).ports.len()
                    && (#[trigger] component_module(comp, bc).ports[j]).decl().name == "clk"@
        }),
{
    let m = component_module(comp, bc);
    let ports = comp.signature.ports@;
    let asgns = comp.continuous_assignments@;
    let before = memory_part(comp, bc) + wire_stmts(cell_wires(comp.cells@)) + initial_part(
        comp,
        bc,
    ) + instance_stmts(instances(comp.cells@)) + assigns(asgns, driven(asgns));
    assert(m.body =~= before + check_part(comp, bc));
    if i >= before.len() && has_clock(ports) {
        let j = choose|j: int| 0 <= j < ports.len() && (#[trigger] ports[j]).name@ == "clk"@;
        assert(m.ports[j] == module_port(ports[j]));
        assert(m.ports[j].decl().name == "clk"@);
    }
}

/// The statement is one that only a simulator runs.
pub open spec fn simulation_only(s: StmtView) -> bool {
    s is RawStr || s matches StmtView::Parallel(ParallelView::Process(_))
}

/// Output for synthesis holds nothing that only a simulator runs, unless initial values are asked
/// for.
pub proof fn law_synthesis_output_is_plain(comp: Component, bc: BackendConf, i: int)
    requires
        bc.synthesis_mode,
        !bc.initialize_inputs,
        0 <= i < component_module(comp, bc).body.len(),
    ensures
        !simulation_only(component_module(comp, bc).body[i]),
{
    let wires = wire_stmts(cell_wires(comp.cells@));
    let insts = instance_stmts(instances(comp.cells@));
    let asgns = comp.continuous_assignments@;
    assert(component_module(comp, bc).body =~= wires + insts + assigns(asgns, driven(asgns)));
}

/// The wires of a cell are among those of all cells.
proof fn lemma_cell_wires_contain(cells: Seq<Cell>, i: int, w: Wire)
    requires
        0 <= i < cells.len(),
        port_wires(cells[i].ports@).contains(w),
    ensures
        cell_wires(cells).contains(w),
    decreases cells.len(),
{
    let rest = cells.drop_last();
    if i < rest.len() {
        lemma_cell_wires_contain(rest, i, w);
        let k = cell_wires(rest).index_of(w);
        assert(cell_wires(cells)[k] == w);
    } else {
        let k = port_wires(cells[i].ports@).index_of(w);
        assert(cell_wires(cells)[cell_wires(rest).len() + k] == w);
    }
}

/// Every port of an instantiated cell has a wire of its width, and the module refers to the port
/// by the name of that wire.
pub proof fn law_ports_refer_to_declared_wires(comp: Component, bc: BackendConf, i: int, j: int)
    requires
        0 <= i < comp.cells@.len(),
        0 <= j < comp.cells@[i].ports@.len(),
        port_wire(comp.cells@[i].ports@[j]) is Some,
    ensures
        ({
            let port = comp.cells@[i].ports@[j];
            let wire = port_wire(port)->0;
            &&& component_module(comp, bc).body.contains(
                StmtView::Decl(DeclView { name: wire.0, width: port.width }),
            )
            &&& port_expr(port) == ExprView::Ref(wire.0)
        }),
{
    let ports = comp.cells@[i].ports@;
    let f = |p: Port| port_wire(p);
    let w = port_wire(ports[j])->0;
    lemma_filter_map_has(ports, f, j);
    lemma_cell_wires_contain(comp.cells@, i, w);
    let wires = cell_wires(comp.cells@);
    let k = wires.index_of(w);
    let d = DeclView { name: w.0, width: w.1 };
    assert(wire_stmts(wires)[k] == StmtView::Decl(d));
    let body = component_module(comp, bc).body;
    let at = memory_part(comp, bc).len() + k;
    assert(body[at] == StmtView::Decl(d));
}

/// What an item gives is among what all items give.
proof fn lemma_filter_map_has<A, B>(s: Seq<A>, f: spec_fn(A) -> Option<B>, i: int)
    requires
        0 <= i < s.len(),
        f(s[i]) is Some,
    ensures
        s.filter_map(f).contains(f(s[i])->0),
    decreases s.len(),
{
    reveal(Seq::filter_map);
    let rest = s.drop_last();
    let b = f(s[i])->0;
    if i < rest.len() {
        assert(rest[i] == s[i]);
        lemma_filter_map_has(rest, f, i);
        let k = rest.filter_map(f).index_of(b);
        assert(s.filter_map(f)[k] == b);
    } else {
        assert(s.filter_map(f)[s.filter_map(f).len() - 1] == b);
    }
}

/// Every memory that is read before the simulation is written after it, and no other is.
pub proof fn law_memories_are_read_and_written(cells: Seq<Cell>)
    ensures
        memory_stmts(cells)[2] == process_stmt(
            ProcessKind::Initial,
            memory_reads(external_memories(cells)),
        ),
        memory_stmts(cells)[3] == process_stmt(
            ProcessKind::Final,
            memory_writes(external_memories(cells)),
        ),
        memory_reads(external_memories(cells)).len() == external_memories(cells).len() + 2,
        memory_writes(external_memories(cells)).len() == external_memories(cells).len(),
        forall|i: int|
            0 <= i < external_memories(cells).len() ==> {
                &&& memory_reads(external_memories(cells))[i + 2] == transfer(
                    "$readmemh"@,
                    #[trigger] external_memories(cells)[i],
                    ".dat"@,
                )
                &&& memory_writes(external_memories(cells))[i] == transfer(
                    "$writememh"@,
                    external_memories(cells)[i],
                    ".out"@,
                )
            },
{
}

/// The text for no component is empty, and that for one component is the text of its module.
pub proof fn law_text_of_one_component(comp: Component, bc: BackendConf)
    ensures
        components_text(Seq::empty(), bc) == Seq::<char>::empty(),
        components_text(seq![comp], bc) == module_text(component_module(comp, bc)),
{
    assert(seq![comp].last() == comp);
}

/// The text for the components of two programs is that of the one, a line break, and that of the
/// other.
pub proof fn law_text_is_joined(a: Seq<Component>, b: Seq<Component>, bc: BackendConf)
    requires
        a.len() > 0,
        b.len() > 0,
    ensures
        components_text(a + b, bc) == components_text(a, bc) + "\n"@ + components_text(b, bc),
    decreases b.len(),
{
    let rest = b.drop_last();
    assert((a + b).drop_last() =~= a + rest);
    assert((a + b).last() == b.last());
    let last = module_text(component_module(b.last(), bc));
    if rest.len() == 0 {
        assert(a + rest =~= a);
    } else {
        law_text_is_joined(a, rest, bc);
        assert(components_text(a, bc) + "\n"@ + components_text(rest, bc) + "\n"@ + last
            =~= components_text(a, bc) + "\n"@ + (components_text(rest, bc) + "\n"@ + last));
    }
}

} // verus!
