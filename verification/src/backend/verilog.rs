//! SystemVerilog backend.
//!
//! Makes a SystemVerilog program of a program without groups and without control.

use crate::backend::model;
use crate::backend::model::{
    assign, assignable, assigns, bind_params, bind_ports, cell_wires, check_part, check_process,
    component_module, components_text, conflict_message, disjoint_check, driven, drivers,
    emittable, external_memories, external_memory, guard_expr, guard_exprs, guard_readable,
    has_clock, initial_part, instance, instance_stmts, instances, instantiable, memory_part,
    memory_reads, memory_stmts, memory_writes, module_port, module_ports, mux_chain, name_lt,
    no_holes, port_assign, port_check, port_expr, port_wire, port_wires, readable, signal_name,
    signature_printable, transfer, wire_stmts, zero, zero_input, zero_inputs, PortName, Wire,
};
use crate::backend::facts::{
    derefs, group_names, grouped, holds_drivers, lemma_driven_unique, lemma_drivers_name,
    lemma_grouped_extend, lemma_grouped_fresh, lemma_grouped_names, lemma_joined_readable,
    lemma_name_lt_total, DrivenPort,
};
use crate::backend::validate::{program_result, result_view, validate_components};
use crate::errors::CalyxResult;
use crate::ir::{
    Assignment, BackendConf, Cell, CellType, Component, Context, Direction, Guard, Port, PortComp,
    PortParent,
};
use crate::text::{concat, contains, to_decimal};
use crate::verilog_ast::{
    concat_add_expr, concat_expr, concat_parts, expr_view, expr_views, if_add_seq, if_sequential,
    instance_add_param, instance_connect, instance_view, module_view, new_always_comb,
    new_always_ff, new_bit_and, new_bit_or, new_blk_assign, new_call, new_concat, new_eq,
    new_final, new_geq, new_gt, new_if, new_initial, new_instance, new_int, new_ipath, new_leq,
    new_logic, new_lt, new_mux, new_neq, new_not, new_par_assign, new_posedge, new_process,
    new_ref, new_seqexpr, new_str, new_ulit_bin, new_ulit_dec, parallel_view, printable,
    process_add_seq, process_set_event, process_view, sequential_view, stmt_view, stmt_views,
    DeclView, ExprView, InstanceView, Module, ModulePortView, ModuleView, ParallelView,
    ProcessKind, ProcessView, Stmt, StmtView,
};
use itertools::Itertools;
use vast::v17::ast as v;
use vstd::prelude::*;

verus! {

/// The name of a port in the module.
fn port_signal(port: &Port) -> (name: String)
    ensures
        name@ == signal_name(*port),
{
    match &port.parent {
        PortParent::Cell { name, prototype } => match prototype {
            CellType::ThisComponent => port.name.clone(),
            _ => concat(name.as_str(), "_", port.name.as_str()),
        },
        PortParent::Group { name } => concat(name.as_str(), "_", port.name.as_str()),
    }
}

/// The expression for a port.
pub fn port_to_ref(port: &Port) -> (e: v::Expr)
    requires
        readable(*port),
    ensures
        expr_view(e) == port_expr(*port),
{
    match &port.parent {
        PortParent::Cell { prototype, .. } => match prototype {
            CellType::Constant { val, width } => {
                new_ulit_dec(*width as u32, to_decimal(*val).as_str())
            },
            _ => new_ref(port_signal(port).as_str()),
        },
        PortParent::Group { .. } => unreached(),
    }
}

/// The expression for a guard.
pub fn guard_to_expr(guard: &Guard) -> (e: v::Expr)
    requires
        guard_readable(*guard),
    ensures
        expr_view(e) == guard_expr(*guard),
    decreases *guard,
{
    match guard {
        Guard::Or(l, r) => {
            proof {
                lemma_joined_readable(*guard, **l, **r);
            }
            new_bit_or(guard_to_expr(l), guard_to_expr(r))
        },
        Guard::And(l, r) => {
            proof {
                lemma_joined_readable(*guard, **l, **r);
            }
            new_bit_and(guard_to_expr(l), guard_to_expr(r))
        },
        Guard::CompOp(op, l, r) => {
            assert(readable(guard.ports()[0]) && readable(guard.ports()[1]));
            let lhs = port_to_ref(l);
            let rhs = port_to_ref(r);
            match op {
                PortComp::Eq => new_eq(lhs, rhs),
                PortComp::Neq => new_neq(lhs, rhs),
                PortComp::Gt => new_gt(lhs, rhs),
                PortComp::Lt => new_lt(lhs, rhs),
                PortComp::Geq => new_geq(lhs, rhs),
                PortComp::Leq => new_leq(lhs, rhs),
            }
        },
        Guard::Not(o) => new_not(guard_to_expr(o)),
        Guard::Port(p) => {
            assert(readable(guard.ports()[0]));
            port_to_ref(p)
        },
        Guard::True => new_ulit_bin(1, to_decimal(1).as_str()),
    }
}

//==========================================
//        Assignments
//==========================================

/// The statement that drives a port. It selects the source by nested choices, and drives zero
/// where no guard holds: `a.in = foo ? x; a.in = bar ? y;` turns into
/// `assign a_in = foo ? x : bar ? y : 2'd0;`.
pub fn emit_assignment(asgns: &DrivenPort) -> (p: v::Parallel)
    requires
        assignable(*asgns.0, derefs(asgns.1@)),
    ensures
        parallel_view(p) == assign(*asgns.0, derefs(asgns.1@)),
{
    let dst = asgns.0;
    let assignments = &asgns.1;
    let ghost all = derefs(assignments@);
    let ghost default = zero(dst.width as u32);
    let mut rhs = new_ulit_dec(dst.width as u32, to_decimal(0).as_str());
    let mut i: usize = assignments.len();
    assert(all.skip(i as int) =~= Seq::empty());
    while i > 0
        invariant
            i <= assignments@.len(),
            all == derefs(assignments@),
            assignable(*dst, all),
            expr_view(rhs) == mux_chain(all.skip(i as int), default),
        decreases i,
    {
        i -= 1;
        let asgn = assignments[i];
        assert(all[i as int] == *asgn);
        assert(all.skip(i as int).drop_first() =~= all.skip(i + 1));
        rhs = new_mux(guard_to_expr(&asgn.guard), port_to_ref(&asgn.src), rhs);
    }
    assert(all.skip(0) =~= all);
    new_par_assign(port_to_ref(dst), rhs)
}

/// The check that the guards are disjoint, where there are at least two assignments. In the
/// process for the checks it reads:
/// ```verilog
/// always_ff @(posedge clk) begin
///   if(~$onehot0({fsm_out < 1'd1 & go, fsm_out < 1'd1 & go})) begin
///     $error("Multiple assignments to r_in");
///   end
/// end
/// ```
pub fn emit_guard_disjoint_check(asgns: &DrivenPort) -> (check: Option<
    v::Sequential,
>)
    requires
        asgns.1@.len() >= 2 ==> forall|i: int|
            0 <= i < asgns.1@.len() ==> guard_readable((#[trigger] asgns.1@[i]).guard),
    ensures
        disjoint_check(*asgns.0, derefs(asgns.1@)) == (match check {
            Some(s) => Some(sequential_view(s)),
            None => None,
        }),
{
    let dst = asgns.0;
    let assignments = &asgns.1;
    if assignments.len() < 2 {
        return None;
    }
    let ghost all = derefs(assignments@);
    let mut guards = new_concat();
    let mut i: usize = 0;
    while i < assignments.len()
        invariant
            i <= assignments@.len(),
            all == derefs(assignments@),
            forall|j: int|
                0 <= j < assignments@.len() ==> guard_readable((#[trigger] assignments@[j]).guard),
            concat_parts(guards) == guard_exprs(all.take(i as int)),
        decreases assignments@.len() - i,
    {
        concat_add_expr(&mut guards, guard_to_expr(&assignments[i].guard));
        assert(guard_exprs(all.take(i + 1)) =~= guard_exprs(all.take(i as int)).push(
            guard_expr(all[i as int].guard),
        ));
        i += 1;
    }
    assert(all.take(i as int) =~= all);
    let guards = concat_expr(guards);
    let onehot0_params = vec![guards];
    assert(expr_views(onehot0_params@) =~= seq![ExprView::Concat(guard_exprs(all))]);
    let mut check = new_if(new_not(new_call("$onehot0", onehot0_params)));

    let mut msg = "Multiple assignments to ".to_string();
    msg.append(port_signal(dst).as_str());
    let error_params = vec![new_str(msg.as_str())];
    assert(expr_views(error_params@) =~= seq![ExprView::Str(conflict_message(*dst))]);
    if_add_seq(&mut check, new_seqexpr(new_call("$error", error_params)));
    Some(if_sequential(check))
}

/// What the assignments are sorted by: the name of the port that they drive.
fn dst_key(asgn: &Assignment) -> (key: (String, String))
    ensures
        (key.0@, key.1@) == asgn.dst.spec_canonical(),
{
    let name = asgn.dst.canonical();
    (name.0, name.1)
}

/// Calls `Itertools::sorted_by_key`, which sorts by `slice::sort_by_key`, with the name of the
/// driven port as the key: a pair of strings, which std orders by the first and then by the
/// second, each by its characters. The contract claims that no assignment stands behind one whose
/// key is larger, and that the sort is stable and drops nothing: of any key it leaves the same
/// assignments, in the same order.
#[verifier::external_body]
fn sorted_by_dst<'a>(asgns: Vec<&'a Assignment>) -> (sorted: Vec<&'a Assignment>)
    ensures
        forall|i: int, j: int|
            #![trigger sorted@[i], sorted@[j]]
            0 <= i < j < sorted@.len() ==> !name_lt(
                sorted@[j].dst.spec_canonical(),
                sorted@[i].dst.spec_canonical(),
            ),
        forall|name: PortName| #[trigger]
            drivers(derefs(sorted@), name) == drivers(derefs(asgns@), name),
{
    asgns.into_iter().sorted_by_key(|a| dst_key(a)).collect()
}

/// Two ports go by the same name.
fn same_name(a: &Port, b: &Port) -> (same: bool)
    ensures
        same == (a.spec_canonical() == b.spec_canonical()),
{
    let a = a.canonical();
    let b = b.canonical();
    a.0 == b.0 && a.1 == b.1
}

/// Behind sorted assignments, an assignment to another port than that of the last group drives a
/// port whose name comes behind that of the last group.
proof fn lemma_last_before(sorted: Seq<&Assignment>, i: int, groups: Seq<DrivenPort>)
    requires
        0 <= i < sorted.len(),
        forall|j: int, k: int|
            #![trigger sorted[j], sorted[k]]
            0 <= j < k < sorted.len() ==> !name_lt(
                sorted[k].dst.spec_canonical(),
                sorted[j].dst.spec_canonical(),
            ),
        groups.len() > 0,
        grouped(derefs(sorted).take(i), groups),
        groups.last().0.spec_canonical() != sorted[i].dst.spec_canonical(),
    ensures
        name_lt(groups.last().0.spec_canonical(), sorted[i].dst.spec_canonical()),
{
    let seen = derefs(sorted).take(i);
    let name = groups.last().0.spec_canonical();
    assert(holds_drivers(seen, groups[groups.len() - 1], name));
    assert(derefs(groups.last().1@).len() > 0);
    lemma_drivers_name(seen, name, 0);
    let k = seen.index_of(drivers(seen, name)[0]);
    assert(sorted[k].dst.spec_canonical() == name);
    lemma_name_lt_total(name, sorted[i].dst.spec_canonical());
}

/// The assignments by the port that they drive, in ascending order of the names of the ports. The
/// port is that of the first assignment that drives it.
pub fn assignments_by_port<'a>(asgns: &'a Vec<Assignment>) -> (groups: Vec<DrivenPort<'a>>)
    ensures
        group_names(groups@) == driven(asgns@),
        forall|i: int|
            0 <= i < groups@.len() ==> holds_drivers(
                asgns@,
                #[trigger] groups@[i],
                driven(asgns@)[i],
            ),
{
    let mut refs: Vec<&'a Assignment> = Vec::new();
    let mut i: usize = 0;
    while i < asgns.len()
        invariant
            i <= asgns@.len(),
            derefs(refs@) == asgns@.take(i as int),
        decreases asgns@.len() - i,
    {
        let ghost before = refs@;
        refs.push(&asgns[i]);
        assert(derefs(refs@) =~= derefs(before).push(asgns@[i as int]));
        assert(asgns@.take(i + 1) =~= asgns@.take(i as int).push(asgns@[i as int]));
        i += 1;
    }
    assert(asgns@.take(i as int) =~= asgns@);
    let sorted = sorted_by_dst(refs);
    let ghost all = derefs(sorted@);

    let mut groups: Vec<DrivenPort<'a>> = Vec::new();
    i = 0;
    while i < sorted.len()
        invariant
            i <= sorted@.len(),
            all == derefs(sorted@),
            forall|j: int, k: int|
                #![trigger sorted@[j], sorted@[k]]
                0 <= j < k < sorted@.len() ==> !name_lt(
                    sorted@[k].dst.spec_canonical(),
                    sorted@[j].dst.spec_canonical(),
                ),
            grouped(all.take(i as int), groups@),
        decreases sorted@.len() - i,
    {
        let asgn = sorted[i];
        let ghost before = groups@;
        let ghost seen = all.take(i as int);
        assert(all.take(i + 1) =~= seen.push(*asgn));
        let fresh = match groups.pop() {
            Some((port, members)) => {
                if same_name(port, &asgn.dst) {
                    let mut members = members;
                    members.push(asgn);
                    let last = (port, members);
                    proof {
                        assert(derefs(last.1@) =~= derefs(before.last().1@).push(*asgn));
                        assert(groups@ =~= before.drop_last());
                        assert(holds_drivers(
                            seen,
                            before[before.len() - 1],
                            before[before.len() - 1].0.spec_canonical(),
                        ));
                        lemma_grouped_extend(seen, before, *asgn, last);
                    }
                    groups.push(last);
                    false
                } else {
                    groups.push((port, members));
                    true
                }
            },
            None => true,
        };
        if fresh {
            let last = (&asgn.dst, vec![asgn]);
            proof {
                assert(groups@ =~= before);
                assert(derefs(last.1@) =~= seq![*asgn]);
                if before.len() > 0 {
                    lemma_last_before(sorted@, i as int, before);
                }
                lemma_grouped_fresh(seen, before, *asgn, last);
            }
            groups.push(last);
        }
        i += 1;
    }
    proof {
        assert(all.take(i as int) =~= all);
        lemma_grouped_names(all, groups@);
        let names = group_names(groups@);
        assert forall|n: PortName| #[trigger] names.contains(n) <==> drivers(asgns@, n).len()
            > 0 by {
            assert(drivers(all, n) == drivers(asgns@, n));
        }
        lemma_driven_unique(asgns@, names);
        assert forall|k: int| 0 <= k < groups@.len() implies holds_drivers(
            asgns@,
            #[trigger] groups@[k],
            driven(asgns@)[k],
        ) by {
            assert(names[k] == groups@[k].0.spec_canonical());
            assert(drivers(all, names[k]) == drivers(asgns@, names[k]));
        }
    }
    groups
}

//==========================================
//        Cells
//==========================================

/// What `filter_map` makes of one item more.
proof fn lemma_filter_map_take<A, B>(s: Seq<A>, f: spec_fn(A) -> Option<B>, i: int)
    requires
        0 <= i < s.len(),
    ensures
        s.take(i + 1).filter_map(f) == (match f(s[i]) {
            Some(b) => s.take(i).filter_map(f).push(b),
            None => s.take(i).filter_map(f),
        }),
{
    reveal(Seq::filter_map);
    assert(s.take(i + 1).drop_last() =~= s.take(i));
    assert(s.take(i + 1).last() == s[i]);
    match f(s[i]) {
        Some(b) => {
            assert(s.take(i).filter_map(f) + seq![b] =~= s.take(i).filter_map(f).push(b));
        },
        None => {},
    }
}

/// What `filter_map` makes of no items.
proof fn lemma_filter_map_none<A, B>(s: Seq<A>, f: spec_fn(A) -> Option<B>)
    ensures
        s.take(0).filter_map(f) == Seq::<B>::empty(),
{
    reveal(Seq::filter_map);
}

/// The wires, with their names as sequences.
pub open spec fn wire_views(wires: Seq<(String, u64, Direction)>) -> Seq<Wire> {
    wires.map_values(|w: (String, u64, Direction)| (w.0@, w.1, w.2))
}

/// The wires for the ports of a cell that is one of a component or a primitive: the name, the
/// width, and the direction of the port.
pub fn wire_decls(cell: &Cell) -> (wires: Vec<(String, u64, Direction)>)
    requires
        no_holes(*cell),
    ensures
        wire_views(wires@) == port_wires(cell.ports@),
{
    let ghost f = |p: Port| port_wire(p);
    let mut wires: Vec<(String, u64, Direction)> = Vec::new();
    let mut i: usize = 0;
    proof {
        lemma_filter_map_none(cell.ports@, f);
    }
    while i < cell.ports.len()
        invariant
            i <= cell.ports@.len(),
            f == |p: Port| port_wire(p),
            no_holes(*cell),
            wire_views(wires@) == cell.ports@.take(i as int).filter_map(f),
        decreases cell.ports@.len() - i,
    {
        let port = &cell.ports[i];
        let ghost before = wires@;
        proof {
            lemma_filter_map_take(cell.ports@, f, i as int);
        }
        match &port.parent {
            PortParent::Cell { prototype, .. } => match prototype {
                CellType::Component { .. } | CellType::Primitive { .. } => {
                    wires.push((port_signal(port), port.width, port.direction));
                    assert(wire_views(wires@) =~= wire_views(before).push(port_wire(*port)->0));
                },
                _ => {},
            },
            PortParent::Group { .. } => {
                assert(cell.ports@[i as int].hole());
                unreached()
            },
        }
        i += 1;
    }
    assert(cell.ports@.take(i as int) =~= cell.ports@);
    wires
}

/// The instance for a cell, where the cell is one of a primitive or a component.
pub fn cell_instance(cell: &Cell) -> (inst: Option<v::Instance>)
    requires
        instantiable(*cell),
    ensures
        instance(*cell) == (match inst {
            Some(i) => Some(instance_view(i)),
            None => None,
        }),
{
    match cell.proto_name() {
        Some(proto) => {
            let mut inst = new_instance(cell.name.as_str(), proto.as_str());
            if let CellType::Primitive { name, param_binding } = &cell.prototype {
                if *name == "std_const".to_string() {
                    let width = param_binding[0].1;
                    let value = param_binding[1].1;
                    instance_add_param(
                        &mut inst,
                        param_binding[0].0.as_str(),
                        new_int(width as i32),
                    );
                    instance_add_param(
                        &mut inst,
                        param_binding[1].0.as_str(),
                        new_ulit_dec(width as u32, to_decimal(value).as_str()),
                    );
                } else {
                    add_params(&mut inst, param_binding);
                }
            }
            connect_ports(&mut inst, &cell.ports);
            Some(inst)
        },
        None => None,
    }
}

/// Binds each parameter to its value.
fn add_params(inst: &mut v::Instance, params: &Vec<(String, u64)>)
    requires
        instance_view(*old(inst)).params == Map::<Seq<char>, ExprView>::empty(),
        forall|i: int| 0 <= i < params@.len() ==> (#[trigger] params@[i]).1 <= i32::MAX,
    ensures
        instance_view(*final(inst)) == (InstanceView {
            params: bind_params(params@),
            ..instance_view(*old(inst))
        }),
{
    let ghost start = instance_view(*inst);
    let mut i: usize = 0;
    while i < params.len()
        invariant
            i <= params@.len(),
            forall|j: int| 0 <= j < params@.len() ==> (#[trigger] params@[j]).1 <= i32::MAX,
            instance_view(*inst) == (InstanceView {
                params: bind_params(params@.take(i as int)),
                ..start
            }),
        decreases params@.len() - i,
    {
        assert(params@.take(i + 1).drop_last() =~= params@.take(i as int));
        let value = params[i].1;
        instance_add_param(inst, params[i].0.as_str(), new_int(value as i32));
        i += 1;
    }
    assert(params@.take(i as int) =~= params@);
}

/// Binds each port to the expression for it.
fn connect_ports(inst: &mut v::Instance, ports: &Vec<Port>)
    requires
        instance_view(*old(inst)).ports == Map::<Seq<char>, ExprView>::empty(),
        forall|i: int| 0 <= i < ports@.len() ==> readable(#[trigger] ports@[i]),
    ensures
        instance_view(*final(inst)) == (InstanceView {
            ports: bind_ports(ports@),
            ..instance_view(*old(inst))
        }),
{
    let ghost start = instance_view(*inst);
    let mut i: usize = 0;
    while i < ports.len()
        invariant
            i <= ports@.len(),
            forall|j: int| 0 <= j < ports@.len() ==> readable(#[trigger] ports@[j]),
            instance_view(*inst) == (InstanceView {
                ports: bind_ports(ports@.take(i as int)),
                ..start
            }),
        decreases ports@.len() - i,
    {
        assert(ports@.take(i + 1).drop_last() =~= ports@.take(i as int));
        instance_connect(inst, ports[i].name.as_str(), port_to_ref(&ports[i]));
        i += 1;
    }
    assert(ports@.take(i as int) =~= ports@);
}

//==========================================
//        Memory input and output
//==========================================

/// The texts behind the strings.
pub open spec fn string_views(strings: Seq<String>) -> Seq<Seq<char>> {
    strings.map_values(|s: String| s@)
}

/// The names of the memories whose contents come from outside.
pub fn memory_names(cells: &Vec<Cell>) -> (names: Vec<String>)
    ensures
        string_views(names@) == external_memories(cells@),
{
    let ghost f = |c: Cell| external_memory(c);
    let mut names: Vec<String> = Vec::new();
    let mut i: usize = 0;
    proof {
        lemma_filter_map_none(cells@, f);
    }
    while i < cells.len()
        invariant
            i <= cells@.len(),
            f == |c: Cell| external_memory(c),
            string_views(names@) == cells@.take(i as int).filter_map(f),
        decreases cells@.len() - i,
    {
        let cell = &cells[i];
        let ghost before = names@;
        proof {
            lemma_filter_map_take(cells@, f, i as int);
        }
        let is_memory = match cell.proto_name() {
            Some(proto) => contains(proto.as_str(), "mem"),
            None => false,
        };
        if cell.get_attribute("external").is_some() && is_memory {
            names.push(cell.name.clone());
            assert(string_views(names@) =~= string_views(before).push(cell.name@));
        }
        i += 1;
    }
    assert(cells@.take(i as int) =~= cells@);
    names
}

/// The call of a task that moves the contents of a memory between the simulation and a file.
fn emit_transfer(task: &str, memory: &str, extension: &str) -> (s: v::Sequential)
    ensures
        sequential_view(s) == transfer(task@, memory@, extension@),
{
    let mut path = new_concat();
    concat_add_expr(&mut path, new_str(concat("/", memory, extension).as_str()));
    concat_add_expr(&mut path, new_ref("DATA"));
    let mut mem = memory.to_string();
    mem.append(".mem");
    assert(concat_parts(path) =~= seq![
        ExprView::Str("/"@ + memory@ + extension@),
        ExprView::Ref("DATA"@),
    ]);
    let params = vec![concat_expr(path), new_ipath(mem.as_str())];
    assert(expr_views(params@) =~= seq![
        ExprView::Concat(seq![
            ExprView::Str("/"@ + memory@ + extension@),
            ExprView::Ref("DATA"@),
        ]),
        ExprView::IPath(memory@ + ".mem"@),
    ]);
    new_seqexpr(new_call(task, params))
}

/// The statements that read the memories before the simulation and write them after it:
/// ```verilog
/// string DATA;
/// int CODE;
/// initial begin
///   CODE = $value$plusargs("DATA=%s", DATA);
///   $display("DATA: %s", DATA);
///   $readmemh({DATA, "/<mem_name>.dat"}, <mem_name>.mem);
///   ...
/// end
/// final begin
///   $writememh({DATA, "/<mem_name>.out"}, <mem_name>.mem);
/// end
/// ```
pub fn memory_read_write(comp: &Component) -> (stmts: Vec<Stmt>)
    ensures
        stmt_views(stmts@) == memory_stmts(comp.cells@),
{
    let data_decl = Stmt::new_rawstr("string DATA;".to_string());
    let code_decl = Stmt::new_rawstr("int CODE;".to_string());

    let plus_args_params = vec![new_str("DATA=%s"), new_ref("DATA")];
    assert(expr_views(plus_args_params@) =~= seq![
        ExprView::Str("DATA=%s"@),
        ExprView::Ref("DATA"@),
    ]);
    let plus_args = new_blk_assign(
        new_ref("CODE"),
        new_call("$value$plusargs", plus_args_params),
    );
    let display_params = vec![new_str("DATA: %s"), new_ref("DATA")];
    assert(expr_views(display_params@) =~= seq![
        ExprView::Str("DATA: %s"@),
        ExprView::Ref("DATA"@),
    ]);

    let mut initial_block = new_initial();
    // get the data
    process_add_seq(&mut initial_block, plus_args);
    // log the path to the data
    process_add_seq(&mut initial_block, new_seqexpr(new_call("$display", display_params)));
    let mut final_block = new_final();

    let names = memory_names(&comp.cells);
    let ghost memories = external_memories(comp.cells@);
    assert(process_view(initial_block).body =~= memory_reads(memories.take(0)));
    assert(process_view(final_block).body =~= memory_writes(memories.take(0)));
    let mut i: usize = 0;
    while i < names.len()
        invariant
            i <= names@.len(),
            memories == string_views(names@),
            process_view(initial_block) == (ProcessView {
                kind: ProcessKind::Initial,
                event: None,
                body: memory_reads(memories.take(i as int)),
            }),
            process_view(final_block) == (ProcessView {
                kind: ProcessKind::Final,
                event: None,
                body: memory_writes(memories.take(i as int)),
            }),
        decreases names@.len() - i,
    {
        let name = names[i].as_str();
        assert(memories[i as int] == name@);
        assert(memories.take(i + 1) =~= memories.take(i as int).push(name@));
        process_add_seq(&mut initial_block, emit_transfer("$readmemh", name, ".dat"));
        process_add_seq(&mut final_block, emit_transfer("$writememh", name, ".out"));
        assert(process_view(initial_block).body =~= memory_reads(memories.take(i + 1)));
        assert(process_view(final_block).body =~= memory_writes(memories.take(i + 1)));
        i += 1;
    }
    assert(memories.take(i as int) =~= memories);

    let stmts = vec![
        data_decl,
        code_decl,
        Stmt::new_parallel(new_process(initial_block)),
        Stmt::new_parallel(new_process(final_block)),
    ];
    assert(stmt_views(stmts@) =~= memory_stmts(comp.cells@));
    stmts
}

//==========================================
//        Components
//==========================================

/// The module for a component.
pub fn emit_component(
    comp: &Component,
    synthesis_mode: bool,
    enable_verification: bool,
    initialize_inputs: bool,
) -> (module: Module)
    requires
        emittable(
            *comp,
            BackendConf { synthesis_mode, enable_verification, initialize_inputs },
        ),
    ensures
        module_view(module) == component_module(
            *comp,
            BackendConf { synthesis_mode, enable_verification, initialize_inputs },
        ),
{
    let ghost bc = BackendConf { synthesis_mode, enable_verification, initialize_inputs };
    let mut module = Module::new(comp.name.as_str());
    add_signature(&mut module, &comp.signature.ports);

    // Add memory initial and final blocks
    if !synthesis_mode {
        add_stmts(&mut module, memory_read_write(comp));
    }
    assert(module_view(module).body =~= memory_part(*comp, bc));

    // structure wire declarations
    let wires = component_wires(&comp.cells);
    assert forall|i: int| 0 <= i < wires@.len() implies (#[trigger] wires@[i]).1 > 0 && (
        initialize_inputs && wires@[i].2 == Direction::Input ==> wires@[i].1 as u32 > 0) by {
        assert(wire_views(wires@)[i] == (wires@[i].0@, wires@[i].1, wires@[i].2));
    }
    add_wires(&mut module, &wires);

    // Generate initial assignments for all input ports in defined cells.
    let ghost before = module_view(module).body;
    if initialize_inputs {
        module.add_process(initial_inputs(&wires));
    }
    assert(module_view(module).body =~= before + initial_part(*comp, bc));

    // cell instances
    add_instances(&mut module, &comp.cells);

    // Build a top-level always block to contain verilator checks for assignments
    let clocked = signature_has_clock(&comp.signature.ports);
    let checks = add_assignments(
        &mut module,
        &comp.continuous_assignments,
        enable_verification,
        clocked,
    );
    let ghost before = module_view(module).body;
    if !synthesis_mode {
        module.add_process(checks);
    }
    assert(module_view(module).body =~= before + check_part(*comp, bc));
    assert(module_view(module).body =~= component_module(*comp, bc).body);
    module
}

/// Adds the ports of the module.
fn add_signature(module: &mut Module, ports: &Vec<Port>)
    requires
        module_view(*old(module)).ports == Seq::<ModulePortView>::empty(),
        forall|i: int|
            0 <= i < ports@.len() ==> (#[trigger] ports@[i]).direction != Direction::Inout,
    ensures
        module_view(*final(module)) == (ModuleView {
            ports: module_ports(ports@),
            ..module_view(*old(module))
        }),
{
    let ghost start = module_view(*module);
    let mut i: usize = 0;
    assert(module_ports(ports@.take(0)) =~= Seq::empty());
    while i < ports.len()
        invariant
            i <= ports@.len(),
            forall|j: int|
                0 <= j < ports@.len() ==> (#[trigger] ports@[j]).direction != Direction::Inout,
            module_view(*module) == (ModuleView {
                ports: module_ports(ports@.take(i as int)),
                ..start
            }),
        decreases ports@.len() - i,
    {
        let port = &ports[i];
        assert(module_ports(ports@.take(i + 1)) =~= module_ports(ports@.take(i as int)).push(
            module_port(*port),
        ));
        // NOTE: The signature port definitions are reversed inside the component.
        match port.direction {
            Direction::Input => {
                module.add_output(port.name.as_str(), port.width);
            },
            Direction::Output => {
                module.add_input(port.name.as_str(), port.width);
            },
            Direction::Inout => {
                unreached::<()>();
            },
        }
        i += 1;
    }
    assert(ports@.take(i as int) =~= ports@);
}

/// Adds the statements, in their order.
fn add_stmts(module: &mut Module, stmts: Vec<Stmt>)
    ensures
        module_view(*final(module)) == (ModuleView {
            body: module_view(*old(module)).body + stmt_views(stmts@),
            ..module_view(*old(module))
        }),
{
    let ghost start = module_view(*module);
    let ghost all = stmts@;
    let mut rest = stmts;
    assert(stmt_views(all.take(0)) =~= Seq::empty());
    assert(start.body + stmt_views(all.take(0)) =~= start.body);
    assert(all.skip(0) =~= all);
    while rest.len() > 0
        invariant
            rest@.len() <= all.len(),
            rest@ == all.skip(all.len() - rest@.len()),
            module_view(*module) == (ModuleView {
                body: start.body + stmt_views(all.take(all.len() - rest@.len())),
                ..start
            }),
        decreases rest@.len(),
    {
        let ghost i = all.len() - rest@.len();
        let stmt = rest.remove(0);
        assert(stmt == all[i]);
        module.add_stmt(stmt);
        assert(rest@ =~= all.skip(i + 1));
        assert(start.body + stmt_views(all.take(i + 1)) =~= (start.body + stmt_views(
            all.take(i),
        )).push(stmt_view(stmt)));
    }
    assert(all.take(all.len() as int) =~= all);
}

/// The wires for the ports of the cells.
pub fn component_wires(cells: &Vec<Cell>) -> (wires: Vec<(String, u64, Direction)>)
    requires
        forall|i: int| 0 <= i < cells@.len() ==> no_holes(#[trigger] cells@[i]),
    ensures
        wire_views(wires@) == cell_wires(cells@),
{
    let mut wires: Vec<(String, u64, Direction)> = Vec::new();
    let mut i: usize = 0;
    assert(wire_views(wires@) =~= cell_wires(cells@.take(0)));
    while i < cells.len()
        invariant
            i <= cells@.len(),
            forall|j: int| 0 <= j < cells@.len() ==> no_holes(#[trigger] cells@[j]),
            wire_views(wires@) == cell_wires(cells@.take(i as int)),
        decreases cells@.len() - i,
    {
        assert(cells@.take(i + 1).drop_last() =~= cells@.take(i as int));
        let ghost before = wires@;
        let mut more = wire_decls(&cells[i]);
        let ghost added = more@;
        wires.append(&mut more);
        assert(wire_views(wires@) =~= wire_views(before) + wire_views(added));
        i += 1;
    }
    assert(cells@.take(i as int) =~= cells@);
    wires
}

/// Declares the wires.
fn add_wires(module: &mut Module, wires: &Vec<(String, u64, Direction)>)
    requires
        forall|i: int| 0 <= i < wires@.len() ==> (#[trigger] wires@[i]).1 > 0,
    ensures
        module_view(*final(module)) == (ModuleView {
            body: module_view(*old(module)).body + wire_stmts(wire_views(wires@)),
            ..module_view(*old(module))
        }),
{
    let ghost start = module_view(*module);
    let ghost all = wire_views(wires@);
    let mut i: usize = 0;
    assert(start.body + wire_stmts(all.take(0)) =~= start.body);
    while i < wires.len()
        invariant
            i <= wires@.len(),
            all == wire_views(wires@),
            forall|j: int| 0 <= j < wires@.len() ==> (#[trigger] wires@[j]).1 > 0,
            module_view(*module) == (ModuleView {
                body: start.body + wire_stmts(all.take(i as int)),
                ..start
            }),
        decreases wires@.len() - i,
    {
        let wire = &wires[i];
        assert(all[i as int] == (wire.0@, wire.1, wire.2));
        module.add_decl(new_logic(wire.0.as_str(), wire.1));
        assert(start.body + wire_stmts(all.take(i + 1)) =~= (start.body + wire_stmts(
            all.take(i as int),
        )).push(StmtView::Decl(DeclView { name: wire.0@, width: wire.1 })));
        i += 1;
    }
    assert(all.take(i as int) =~= all);
}

/// The process that sets the wires of the inputs to zero.
fn initial_inputs(wires: &Vec<(String, u64, Direction)>) -> (initial: v::ParallelProcess)
    requires
        forall|i: int|
            0 <= i < wires@.len() && (#[trigger] wires@[i]).2 == Direction::Input
                ==> wires@[i].1 as u32 > 0,
    ensures
        process_view(initial) == (ProcessView {
            kind: ProcessKind::Initial,
            event: None,
            body: zero_inputs(wire_views(wires@)),
        }),
{
    let ghost all = wire_views(wires@);
    let ghost f = |w: Wire| zero_input(w);
    let mut initial = new_initial();
    let mut i: usize = 0;
    proof {
        lemma_filter_map_none(all, f);
    }
    while i < wires.len()
        invariant
            i <= wires@.len(),
            all == wire_views(wires@),
            f == |w: Wire| zero_input(w),
            forall|j: int|
                0 <= j < wires@.len() && (#[trigger] wires@[j]).2 == Direction::Input
                    ==> wires@[j].1 as u32 > 0,
            process_view(initial) == (ProcessView {
                kind: ProcessKind::Initial,
                event: None,
                body: all.take(i as int).filter_map(f),
            }),
        decreases wires@.len() - i,
    {
        let wire = &wires[i];
        assert(all[i as int] == (wire.0@, wire.1, wire.2));
        proof {
            lemma_filter_map_take(all, f, i as int);
        }
        if wire.2 == Direction::Input {
            // HACK: this is not the right way to reset
            // registers. we should have real reset ports.
            process_add_seq(
                &mut initial,
                new_blk_assign(
                    new_ref(wire.0.as_str()),
                    new_ulit_dec(wire.1 as u32, to_decimal(0).as_str()),
                ),
            );
        }
        i += 1;
    }
    assert(all.take(i as int) =~= all);
    initial
}

/// Adds the instances for the cells.
fn add_instances(module: &mut Module, cells: &Vec<Cell>)
    requires
        forall|i: int| 0 <= i < cells@.len() ==> instantiable(#[trigger] cells@[i]),
    ensures
        module_view(*final(module)) == (ModuleView {
            body: module_view(*old(module)).body + instance_stmts(instances(cells@)),
            ..module_view(*old(module))
        }),
{
    let ghost start = module_view(*module);
    let ghost f = |c: Cell| instance(c);
    let mut i: usize = 0;
    proof {
        lemma_filter_map_none(cells@, f);
    }
    assert(start.body + instance_stmts(Seq::empty()) =~= start.body);
    while i < cells.len()
        invariant
            i <= cells@.len(),
            f == |c: Cell| instance(c),
            forall|j: int| 0 <= j < cells@.len() ==> instantiable(#[trigger] cells@[j]),
            module_view(*module) == (ModuleView {
                body: start.body + instance_stmts(cells@.take(i as int).filter_map(f)),
                ..start
            }),
        decreases cells@.len() - i,
    {
        let ghost before = cells@.take(i as int).filter_map(f);
        proof {
            lemma_filter_map_take(cells@, f, i as int);
        }
        if let Some(inst) = cell_instance(&cells[i]) {
            let ghost view = instance_view(inst);
            module.add_instance(inst);
            assert(start.body + instance_stmts(before.push(view)) =~= (start.body + instance_stmts(
                before,
            )).push(StmtView::Parallel(ParallelView::Inst(view))));
        }
        i += 1;
    }
    assert(cells@.take(i as int) =~= cells@);
}

/// Whether a port of the signature is named `clk`.
fn signature_has_clock(ports: &Vec<Port>) -> (b: bool)
    ensures
        b == has_clock(ports@),
{
    let clk = "clk".to_string();
    let mut i: usize = 0;
    while i < ports.len()
        invariant
            i <= ports@.len(),
            clk@ == "clk"@,
            forall|j: int| 0 <= j < i ==> (#[trigger] ports@[j]).name@ != "clk"@,
        decreases ports@.len() - i,
    {
        if ports[i].name == clk {
            return true;
        }
        i += 1;
    }
    false
}

/// The process for the checks, without any yet. It waits for the rising edge of `clk` where the
/// module has that port. Where it has not, `posedge clk` would refer to nothing, and the process
/// runs whenever a guard changes.
fn new_check_process(clocked: bool) -> (checks: v::ParallelProcess)
    ensures
        process_view(checks) == check_process(clocked, Seq::empty()),
{
    if clocked {
        let mut checks = new_always_ff();
        process_set_event(&mut checks, new_posedge(new_ref("clk")));
        checks
    } else {
        new_always_comb()
    }
}

/// Adds one statement for each port that is driven, and gives the process that checks that none is
/// driven twice at once. Without `enable_verification` the process has no checks.
fn add_assignments(
    module: &mut Module,
    asgns: &Vec<Assignment>,
    enable_verification: bool,
    clocked: bool,
) -> (checks: v::ParallelProcess)
    requires
        forall|i: int|
            #![trigger driven(asgns@)[i]]
            0 <= i < driven(asgns@).len() ==> assignable(
                drivers(asgns@, driven(asgns@)[i])[0].dst,
                drivers(asgns@, driven(asgns@)[i]),
            ),
    ensures
        module_view(*final(module)) == (ModuleView {
            body: module_view(*old(module)).body + assigns(asgns@, driven(asgns@)),
            ..module_view(*old(module))
        }),
        process_view(checks) == check_process(
            clocked,
            if enable_verification {
                model::checks(asgns@, driven(asgns@))
            } else {
                Seq::empty()
            },
        ),
{
    let ghost start = module_view(*module);
    let ghost names = driven(asgns@);
    let ghost f = |n: PortName| port_check(asgns@, n);
    let groups = assignments_by_port(asgns);
    let mut checks = new_check_process(clocked);
    let mut i: usize = 0;
    proof {
        lemma_filter_map_none(names, f);
        assert(group_names(groups@).len() == groups@.len());
        assert(start.body + assigns(asgns@, names.take(0)) =~= start.body);
    }
    while i < groups.len()
        invariant
            i <= groups@.len() == names.len(),
            names == driven(asgns@),
            f == |n: PortName| port_check(asgns@, n),
            forall|j: int|
                0 <= j < groups@.len() ==> holds_drivers(asgns@, #[trigger] groups@[j], names[j]),
            forall|j: int|
                #![trigger names[j]]
                0 <= j < names.len() ==> assignable(
                    drivers(asgns@, names[j])[0].dst,
                    drivers(asgns@, names[j]),
                ),
            module_view(*module) == (ModuleView {
                body: start.body + assigns(asgns@, names.take(i as int)),
                ..start
            }),
            process_view(checks) == check_process(
                clocked,
                if enable_verification {
                    names.take(i as int).filter_map(f)
                } else {
                    Seq::empty()
                },
            ),
        decreases groups@.len() - i,
    {
        let group = &groups[i];
        let ghost name = names[i as int];
        let ghost ds = drivers(asgns@, name);
        proof {
            assert(holds_drivers(asgns@, groups@[i as int], name));
            assert(ds[0] == *group.1@[0]);
            assert(assignable(ds[0].dst, ds));
            lemma_filter_map_take(names, f, i as int);
        }
        module.add_stmt(Stmt::new_parallel(emit_assignment(group)));
        // If verification generation is enabled, emit disjointness check.
        if enable_verification {
            assert forall|j: int| 0 <= j < group.1@.len() implies guard_readable(
                (#[trigger] group.1@[j]).guard,
            ) by {
                assert(ds[j] == *group.1@[j]);
            }
            if let Some(check) = emit_guard_disjoint_check(group) {
                process_add_seq(&mut checks, check);
            }
        }
        assert(start.body + assigns(asgns@, names.take(i + 1)) =~= (start.body + assigns(
            asgns@,
            names.take(i as int),
        )).push(port_assign(asgns@, name)));
        i += 1;
    }
    assert(names.take(i as int) =~= names);
    checks
}

/// No declaration among the statements is one of width zero.
spec fn no_empty_decl(stmts: Seq<StmtView>) -> bool {
    forall|i: int|
        0 <= i < stmts.len() ==> ((#[trigger] stmts[i]) matches StmtView::Decl(d) ==> d.width > 0)
}

/// The module for a component that a module can be made of can be printed.
proof fn lemma_component_printable(comp: Component, bc: BackendConf)
    requires
        emittable(comp, bc),
        signature_printable(comp),
    ensures
        printable(component_module(comp, bc)),
{
    let m = component_module(comp, bc);
    let wires = cell_wires(comp.cells@);
    assert forall|i: int| 0 <= i < m.ports.len() implies (#[trigger] m.ports[i]).decl().width
        > 0 by {
        let p = comp.signature.ports@[i];
        assert(p.width > 0 && p.direction != Direction::Inout);
        assert(m.ports[i] == module_port(p));
    }
    assert(no_empty_decl(wire_stmts(wires))) by {
        assert forall|i: int| 0 <= i < wires.len() implies ((#[trigger] wire_stmts(
            wires,
        )[i]) matches StmtView::Decl(d) ==> d.width > 0) by {
            assert(wires[i].1 > 0);
        }
    }
    assert(no_empty_decl(m.body));
}

/// The SystemVerilog backend. It only accepts programs with no control and no groups.
#[derive(Default)]
pub struct VerilogBackend;

impl VerilogBackend {
    /// The name of the backend.
    pub fn name(&self) -> (name: &'static str)
        ensures
            name@ == "verilog"@,
    {
        "verilog"
    }

    /// Returns `Ok` if the backend accepts the program, and otherwise the first error.
    pub fn validate(ctx: &Context) -> (r: CalyxResult<()>)
        ensures
            result_view(r) == program_result(ctx.components@),
    {
        validate_components(&ctx.components)
    }

    /// The text for a program: the modules for its components, with a line break between two.
    pub fn emit(ctx: &Context) -> (text: String)
        requires
            forall|i: int|
                0 <= i < ctx.components@.len() ==> emittable(
                    #[trigger] ctx.components@[i],
                    ctx.bc,
                ) && signature_printable(ctx.components@[i]),
        ensures
            text@ == components_text(ctx.components@, ctx.bc),
    {
        let comps = &ctx.components;
        let mut text = String::new();
        let mut i: usize = 0;
        while i < comps.len()
            invariant
                i <= comps@.len(),
                comps@ == ctx.components@,
                forall|j: int|
                    0 <= j < comps@.len() ==> emittable(#[trigger] comps@[j], ctx.bc)
                        && signature_printable(comps@[j]),
                text@ == components_text(comps@.take(i as int), ctx.bc),
            decreases comps@.len() - i,
        {
            let comp = &comps[i];
            proof {
                assert(emittable(comps@[i as int], ctx.bc));
                lemma_component_printable(*comp, ctx.bc);
                assert(comps@.take(i + 1).drop_last() =~= comps@.take(i as int));
            }
            let module = emit_component(
                comp,
                ctx.bc.synthesis_mode,
                ctx.bc.enable_verification,
                ctx.bc.initialize_inputs,
            );
            if i > 0 {
                text.append("\n");
            }
            let module_text = module.text();
            text.append(module_text.as_str());
            assert(text@ =~= components_text(comps@.take(i + 1), ctx.bc));
            i += 1;
        }
        assert(comps@.take(i as int) =~= comps@);
        text
    }
}

} // verus!
