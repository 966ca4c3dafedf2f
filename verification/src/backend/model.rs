//! What the SystemVerilog backend makes of a program.

use crate::ir::{
    Assignment, BackendConf, Cell, CellType, Component, Direction, Guard, Port, PortComp,
    PortParent,
};
use crate::text::{decimal, occurs_in, text_lt};
use crate::verilog_ast::{
    module_text, Binop, DeclView, ExprView, InstanceView, ModulePortView, ModuleView, ParallelView,
    ProcessKind, ProcessView, Radix, SequentialView, StmtView,
};
use vstd::prelude::*;

verus! {

/// The name of a port in its component: that of its parent, and its own.
pub type PortName = (Seq<char>, Seq<char>);

//==========================================
//        Ports and guards
//==========================================

/// The port can be read from Verilog: it belongs to a cell, and where that is a constant, the
/// literal has a width.
pub open spec fn readable(p: Port) -> bool {
    match p.parent {
        PortParent::Cell { prototype: CellType::Constant { width, .. }, .. } => width as u32 > 0,
        PortParent::Cell { .. } => true,
        PortParent::Group { .. } => false,
    }
}

/// All ports that the guard reads can be read from Verilog.
pub open spec fn guard_readable(g: Guard) -> bool {
    forall|i: int| 0 <= i < g.ports().len() ==> readable(#[trigger] g.ports()[i])
}

/// The name of a port in the module: the bare name for a port of the component itself, and
/// otherwise the name of the parent and that of the port.
pub open spec fn signal_name(p: Port) -> Seq<char> {
    match p.parent {
        PortParent::Cell { prototype: CellType::ThisComponent, .. } => p.name@,
        PortParent::Cell { name, .. } => name@ + "_"@ + p.name@,
        PortParent::Group { name } => name@ + "_"@ + p.name@,
    }
}

/// The port as an expression: a literal for a constant, and otherwise its name in the module.
pub open spec fn port_expr(p: Port) -> ExprView {
    match p.parent {
        PortParent::Cell { prototype: CellType::Constant { val, width }, .. } => ExprView::ULit(
            width as u32,
            Radix::Dec,
            decimal(val as nat),
        ),
        PortParent::Cell { .. } => ExprView::Ref(signal_name(p)),
        PortParent::Group { .. } => arbitrary(),
    }
}

/// The operator that compares two ports.
pub open spec fn comp_binop(op: PortComp) -> Binop {
    match op {
        PortComp::Eq => Binop::Equal,
        PortComp::Neq => Binop::NotEqual,
        PortComp::Gt => Binop::Gt,
        PortComp::Lt => Binop::Lt,
        PortComp::Geq => Binop::Geq,
        PortComp::Leq => Binop::Leq,
    }
}

/// The guard as an expression.
pub open spec fn guard_expr(g: Guard) -> ExprView
    decreases g,
{
    match g {
        Guard::Or(l, r) => ExprView::Binop(
            Binop::BitOr,
            Box::new(guard_expr(*l)),
            Box::new(guard_expr(*r)),
        ),
        Guard::And(l, r) => ExprView::Binop(
            Binop::BitAnd,
            Box::new(guard_expr(*l)),
            Box::new(guard_expr(*r)),
        ),
        Guard::CompOp(op, l, r) => ExprView::Binop(
            comp_binop(op),
            Box::new(port_expr(l)),
            Box::new(port_expr(r)),
        ),
        Guard::Not(o) => ExprView::Not(Box::new(guard_expr(*o))),
        Guard::Port(p) => port_expr(p),
        Guard::True => ExprView::ULit(1, Radix::Bin, decimal(1)),
    }
}

//==========================================
//        Assignments
//==========================================

/// Zero, as a literal of this width.
pub open spec fn zero(width: u32) -> ExprView {
    ExprView::ULit(width, Radix::Dec, decimal(0))
}

/// The source of the first assignment whose guard holds, and `default` where none does.
pub open spec fn mux_chain(asgns: Seq<Assignment>, default: ExprView) -> ExprView
    decreases asgns.len(),
{
    if asgns.len() == 0 {
        default
    } else {
        ExprView::Mux(
            Box::new(guard_expr(asgns[0].guard)),
            Box::new(port_expr(asgns[0].src)),
            Box::new(mux_chain(asgns.drop_first(), default)),
        )
    }
}

/// The statement that drives `dst` by `asgns`.
pub open spec fn assign(dst: Port, asgns: Seq<Assignment>) -> ParallelView {
    ParallelView::Assign(port_expr(dst), mux_chain(asgns, zero(dst.width as u32)))
}

/// `dst` can be driven by `asgns`.
pub open spec fn assignable(dst: Port, asgns: Seq<Assignment>) -> bool {
    &&& readable(dst)
    &&& dst.width as u32 > 0
    &&& forall|i: int|
        0 <= i < asgns.len() ==> readable((#[trigger] asgns[i]).src) && guard_readable(
            asgns[i].guard,
        )
}

/// The guards of the assignments.
pub open spec fn guard_exprs(asgns: Seq<Assignment>) -> Seq<ExprView> {
    asgns.map_values(|a: Assignment| guard_expr(a.guard))
}

/// What is reported where two assignments drive the port at once.
pub open spec fn conflict_message(dst: Port) -> Seq<char> {
    "Multiple assignments to "@ + signal_name(dst)
}

/// The check that no two of the assignments drive `dst` at once, where there are two.
pub open spec fn disjoint_check(dst: Port, asgns: Seq<Assignment>) -> Option<SequentialView> {
    if asgns.len() < 2 {
        None
    } else {
        Some(
            SequentialView::If(
                ExprView::Not(
                    Box::new(
                        ExprView::Call("$onehot0"@, seq![ExprView::Concat(guard_exprs(asgns))]),
                    ),
                ),
                seq![
                    SequentialView::SeqExpr(
                        ExprView::Call("$error"@, seq![ExprView::Str(conflict_message(dst))]),
                    ),
                ],
            ),
        )
    }
}

/// One name comes before another: by the parents, and for the same parent by the ports.
pub open spec fn name_lt(a: PortName, b: PortName) -> bool {
    text_lt(a.0, b.0) || (a.0 == b.0 && text_lt(a.1, b.1))
}

/// `name`, put where it belongs among names in ascending order, unless it is there.
pub open spec fn insert_name(names: Seq<PortName>, name: PortName) -> Seq<PortName>
    decreases names.len(),
{
    if names.len() == 0 {
        seq![name]
    } else if name == names.last() {
        names
    } else if name_lt(names.last(), name) {
        names.push(name)
    } else {
        insert_name(names.drop_last(), name).push(names.last())
    }
}

/// The names of the ports that the assignments drive, each once, in ascending order.
pub open spec fn driven(asgns: Seq<Assignment>) -> Seq<PortName>
    decreases asgns.len(),
{
    if asgns.len() == 0 {
        Seq::empty()
    } else {
        insert_name(driven(asgns.drop_last()), asgns.last().dst.spec_canonical())
    }
}

/// The assignments that drive the port of this name, in their order.
pub open spec fn drivers(asgns: Seq<Assignment>, name: PortName) -> Seq<Assignment> {
    asgns.filter(|a: Assignment| a.dst.spec_canonical() == name)
}

/// The statement that drives the port of this name.
pub open spec fn port_assign(asgns: Seq<Assignment>, name: PortName) -> StmtView {
    let ds = drivers(asgns, name);
    StmtView::Parallel(assign(ds[0].dst, ds))
}

/// The check on the assignments to the port of this name.
pub open spec fn port_check(asgns: Seq<Assignment>, name: PortName) -> Option<SequentialView> {
    let ds = drivers(asgns, name);
    disjoint_check(ds[0].dst, ds)
}

/// One statement for each port that is driven.
pub open spec fn assigns(asgns: Seq<Assignment>, names: Seq<PortName>) -> Seq<StmtView> {
    names.map_values(|n: PortName| port_assign(asgns, n))
}

/// The checks on the ports that are driven more than once.
pub open spec fn checks(asgns: Seq<Assignment>, names: Seq<PortName>) -> Seq<SequentialView> {
    names.filter_map(|n: PortName| port_check(asgns, n))
}

//==========================================
//        Cells
//==========================================

/// A wire for a port of a cell: its name, its width, and the direction of the port.
pub type Wire = (Seq<char>, u64, Direction);

/// The wire for a port, where the port is that of a component or a primitive.
pub open spec fn port_wire(p: Port) -> Option<Wire> {
    match p.parent {
        PortParent::Cell { prototype: CellType::Component { .. }, .. } => Some(
            (signal_name(p), p.width, p.direction),
        ),
        PortParent::Cell { prototype: CellType::Primitive { .. }, .. } => Some(
            (signal_name(p), p.width, p.direction),
        ),
        _ => None,
    }
}

/// The wires for the ports, in their order.
pub open spec fn port_wires(ports: Seq<Port>) -> Seq<Wire> {
    ports.filter_map(|p: Port| port_wire(p))
}

/// The wires for the ports of the cells, in their order.
pub open spec fn cell_wires(cells: Seq<Cell>) -> Seq<Wire>
    decreases cells.len(),
{
    if cells.len() == 0 {
        Seq::empty()
    } else {
        cell_wires(cells.drop_last()) + port_wires(cells.last().ports@)
    }
}

/// The declarations of the wires.
pub open spec fn wire_stmts(wires: Seq<Wire>) -> Seq<StmtView> {
    wires.map_values(|w: Wire| StmtView::Decl(DeclView { name: w.0, width: w.1 }))
}

/// The assignment that sets a wire to zero, where it is that of an input.
pub open spec fn zero_input(wire: Wire) -> Option<SequentialView> {
    if wire.2 == Direction::Input {
        Some(SequentialView::BlkAssign(ExprView::Ref(wire.0), zero(wire.1 as u32)))
    } else {
        None
    }
}

/// The assignments that set the wires of the inputs to zero.
pub open spec fn zero_inputs(wires: Seq<Wire>) -> Seq<SequentialView> {
    wires.filter_map(|w: Wire| zero_input(w))
}

/// The parameters, each bound to its value. Of two with the same name the later one counts.
pub open spec fn bind_params(params: Seq<(String, u64)>) -> Map<Seq<char>, ExprView>
    decreases params.len(),
{
    if params.len() == 0 {
        Map::empty()
    } else {
        bind_params(params.drop_last()).insert(
            params.last().0@,
            ExprView::Int(params.last().1 as i32),
        )
    }
}

/// The parameters of an instance of a primitive. A constant takes its value as a literal of its
/// width, so that it is not bounded by what fits a plain integer.
pub open spec fn primitive_params(name: Seq<char>, params: Seq<(String, u64)>) -> Map<
    Seq<char>,
    ExprView,
> {
    if name == "std_const"@ {
        Map::empty().insert(params[0].0@, ExprView::Int(params[0].1 as i32)).insert(
            params[1].0@,
            ExprView::ULit(params[0].1 as u32, Radix::Dec, decimal(params[1].1 as nat)),
        )
    } else {
        bind_params(params)
    }
}

/// The ports, each bound to the expression for it. Of two with the same name the later one counts.
pub open spec fn bind_ports(ports: Seq<Port>) -> Map<Seq<char>, ExprView>
    decreases ports.len(),
{
    if ports.len() == 0 {
        Map::empty()
    } else {
        bind_ports(ports.drop_last()).insert(ports.last().name@, port_expr(ports.last()))
    }
}

/// The instance for a cell, where the cell is one of a primitive or a component.
pub open spec fn instance(c: Cell) -> Option<InstanceView> {
    match c.prototype {
        CellType::Primitive { name, param_binding } => Some(
            InstanceView {
                id: c.name@,
                prim: name@,
                params: primitive_params(name@, param_binding@),
                ports: bind_ports(c.ports@),
            },
        ),
        CellType::Component { name } => Some(
            InstanceView {
                id: c.name@,
                prim: name@,
                params: Map::empty(),
                ports: bind_ports(c.ports@),
            },
        ),
        _ => None,
    }
}

/// The parameters of a primitive can be written down: a constant has a width and a value, with a
/// width that a literal can have, and any other value fits a plain integer.
pub open spec fn params_representable(name: Seq<char>, params: Seq<(String, u64)>) -> bool {
    if name == "std_const"@ {
        params.len() >= 2 && params[0].1 as u32 > 0
    } else {
        forall|i: int| 0 <= i < params.len() ==> (#[trigger] params[i]).1 <= i32::MAX
    }
}

/// The cell can be instantiated, where it is one of a primitive or a component.
pub open spec fn instantiable(c: Cell) -> bool {
    &&& c.prototype matches CellType::Primitive { name, param_binding } ==> params_representable(
        name@,
        param_binding@,
    )
    &&& c.spec_proto_name() is Some ==> forall|i: int|
        0 <= i < c.ports@.len() ==> readable(#[trigger] c.ports@[i])
}

/// The instances for the cells, in their order.
pub open spec fn instances(cells: Seq<Cell>) -> Seq<InstanceView> {
    cells.filter_map(|c: Cell| instance(c))
}

/// The instances as statements of a module.
pub open spec fn instance_stmts(insts: Seq<InstanceView>) -> Seq<StmtView> {
    insts.map_values(|i: InstanceView| StmtView::Parallel(ParallelView::Inst(i)))
}

//==========================================
//        Memories
//==========================================

/// The cell is a memory whose contents come from outside.
pub open spec fn is_external_memory(c: Cell) -> bool {
    &&& c.has_attribute("external"@)
    &&& c.spec_proto_name() matches Some(name) && occurs_in("mem"@, name)
}

/// The name of the cell, where it is a memory whose contents come from outside.
pub open spec fn external_memory(c: Cell) -> Option<Seq<char>> {
    if is_external_memory(c) {
        Some(c.name@)
    } else {
        None
    }
}

/// The names of the memories whose contents come from outside, in the order of the cells.
pub open spec fn external_memories(cells: Seq<Cell>) -> Seq<Seq<char>> {
    cells.filter_map(|c: Cell| external_memory(c))
}

/// The call of a task that moves the contents of a memory between the simulation and a file in
/// the directory `DATA`.
pub open spec fn transfer(
    task: Seq<char>,
    memory: Seq<char>,
    extension: Seq<char>,
) -> SequentialView {
    SequentialView::SeqExpr(
        ExprView::Call(
            task,
            seq![
                ExprView::Concat(
                    seq![ExprView::Str("/"@ + memory + extension), ExprView::Ref("DATA"@)],
                ),
                ExprView::IPath(memory + ".mem"@),
            ],
        ),
    )
}

/// Finds out the directory `DATA`.
pub open spec fn read_data_path() -> SequentialView {
    SequentialView::BlkAssign(
        ExprView::Ref("CODE"@),
        ExprView::Call(
            "$value$plusargs"@,
            seq![ExprView::Str("DATA=%s"@), ExprView::Ref("DATA"@)],
        ),
    )
}

/// Logs the directory `DATA`.
pub open spec fn log_data_path() -> SequentialView {
    SequentialView::SeqExpr(
        ExprView::Call(
            "$display"@,
            seq![ExprView::Str("DATA: %s"@), ExprView::Ref("DATA"@)],
        ),
    )
}

/// What is done before the simulation: every memory is read.
pub open spec fn memory_reads(memories: Seq<Seq<char>>) -> Seq<SequentialView> {
    seq![read_data_path(), log_data_path()] + memories.map_values(
        |m: Seq<char>| transfer("$readmemh"@, m, ".dat"@),
    )
}

/// What is done after the simulation: every memory is written.
pub open spec fn memory_writes(memories: Seq<Seq<char>>) -> Seq<SequentialView> {
    memories.map_values(|m: Seq<char>| transfer("$writememh"@, m, ".out"@))
}

/// The statements that read the memories before the simulation and write them after it.
pub open spec fn memory_stmts(cells: Seq<Cell>) -> Seq<StmtView> {
    let memories = external_memories(cells);
    seq![
        StmtView::RawStr("string DATA;"@),
        StmtView::RawStr("int CODE;"@),
        process_stmt(ProcessKind::Initial, memory_reads(memories)),
        process_stmt(ProcessKind::Final, memory_writes(memories)),
    ]
}

//==========================================
//        Components
//==========================================

/// A process that waits for no event, as a statement of a module.
pub open spec fn process_stmt(kind: ProcessKind, body: Seq<SequentialView>) -> StmtView {
    StmtView::Parallel(ParallelView::Process(ProcessView { kind, event: None, body }))
}

/// A port of the signature as a port of the module. The signature faces inwards, so that what it
/// puts out the module takes in.
pub open spec fn module_port(p: Port) -> ModulePortView {
    let decl = DeclView { name: p.name@, width: p.width };
    match p.direction {
        Direction::Input => ModulePortView::Output(decl),
        Direction::Output => ModulePortView::Input(decl),
        Direction::Inout => arbitrary(),
    }
}

/// The ports of the module.
pub open spec fn module_ports(ports: Seq<Port>) -> Seq<ModulePortView> {
    ports.map_values(|p: Port| module_port(p))
}

/// The memories, unless the output is meant for synthesis.
pub open spec fn memory_part(comp: Component, bc: BackendConf) -> Seq<StmtView> {
    if bc.synthesis_mode {
        Seq::empty()
    } else {
        memory_stmts(comp.cells@)
    }
}

/// The initial values of the inputs, where they are asked for.
pub open spec fn initial_part(comp: Component, bc: BackendConf) -> Seq<StmtView> {
    if bc.initialize_inputs {
        seq![process_stmt(ProcessKind::Initial, zero_inputs(cell_wires(comp.cells@)))]
    } else {
        Seq::empty()
    }
}

/// The signature has a port that is named `clk`.
pub open spec fn has_clock(ports: Seq<Port>) -> bool {
    exists|i: int| 0 <= i < ports.len() && (#[trigger] ports[i]).name@ == "clk"@
}

/// The process that does the checks: on the rising edge of the clock, and in a module without one
/// whenever a guard changes, since there is no `clk` that it could refer to.
pub open spec fn check_process(clocked: bool, body: Seq<SequentialView>) -> ProcessView {
    if clocked {
        ProcessView {
            kind: ProcessKind::AlwaysFF,
            event: Some(SequentialView::Posedge(ExprView::Ref("clk"@))),
            body,
        }
    } else {
        ProcessView { kind: ProcessKind::AlwaysComb, event: None, body }
    }
}

/// The checks that no port is driven twice: none unless they are asked for, and no process for
/// them where the output is meant for synthesis.
pub open spec fn check_part(comp: Component, bc: BackendConf) -> Seq<StmtView> {
    let asgns = comp.continuous_assignments@;
    let body = if bc.enable_verification {
        checks(asgns, driven(asgns))
    } else {
        Seq::empty()
    };
    let process = check_process(has_clock(comp.signature.ports@), body);
    if bc.synthesis_mode {
        Seq::empty()
    } else {
        seq![StmtView::Parallel(ParallelView::Process(process))]
    }
}

/// The module for a component.
pub open spec fn component_module(comp: Component, bc: BackendConf) -> ModuleView {
    let asgns = comp.continuous_assignments@;
    ModuleView {
        name: comp.name@,
        ports: module_ports(comp.signature.ports@),
        body: memory_part(comp, bc) + wire_stmts(cell_wires(comp.cells@)) + initial_part(comp, bc)
            + instance_stmts(instances(comp.cells@)) + assigns(asgns, driven(asgns)) + check_part(
            comp,
            bc,
        ),
    }
}

/// The wires can be declared, and set to zero where that is asked for.
pub open spec fn wires_declarable(wires: Seq<Wire>, initialize_inputs: bool) -> bool {
    forall|i: int|
        0 <= i < wires.len() ==> (#[trigger] wires[i]).1 > 0 && (initialize_inputs && wires[i].2
            == Direction::Input ==> wires[i].1 as u32 > 0)
}

/// All ports of the cell belong to a cell.
pub open spec fn no_holes(c: Cell) -> bool {
    forall|i: int| 0 <= i < c.ports@.len() ==> !(#[trigger] c.ports@[i]).hole()
}

/// A module can be made of the component.
pub open spec fn emittable(comp: Component, bc: BackendConf) -> bool {
    let asgns = comp.continuous_assignments@;
    &&& forall|i: int|
        0 <= i < comp.signature.ports@.len() ==> (#[trigger] comp.signature.ports@[i]).direction
            != Direction::Inout
    &&& forall|i: int|
        0 <= i < comp.cells@.len() ==> no_holes(#[trigger] comp.cells@[i]) && instantiable(
            comp.cells@[i],
        )
    &&& wires_declarable(cell_wires(comp.cells@), bc.initialize_inputs)
    &&& forall|i: int|
        #![trigger driven(asgns)[i]]
        0 <= i < driven(asgns).len() ==> assignable(
            drivers(asgns, driven(asgns)[i])[0].dst,
            drivers(asgns, driven(asgns)[i]),
        )
}

/// No port of the signature has width zero.
pub open spec fn signature_printable(comp: Component) -> bool {
    forall|i: int|
        0 <= i < comp.signature.ports@.len() ==> (#[trigger] comp.signature.ports@[i]).width > 0
}

/// The text for several components: that of each, with a line break between two.
pub open spec fn components_text(comps: Seq<Component>, bc: BackendConf) -> Seq<char>
    decreases comps.len(),
{
    if comps.len() == 0 {
        Seq::empty()
    } else {
        let last = module_text(component_module(comps.last(), bc));
        if comps.len() == 1 {
            last
        } else {
            components_text(comps.drop_last(), bc) + "\n"@ + last
        }
    }
}

} // verus!
