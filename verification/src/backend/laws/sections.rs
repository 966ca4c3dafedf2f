//! What a module consists of.

use crate::backend::facts::{
    lemma_filter_map_add, lemma_filter_map_every, lemma_filter_map_nothing,
};
use crate::backend::model::{
    assigns, cell_wires, check_part, check_process, checks, component_module, driven, drivers,
    external_memories, has_clock, initial_part, instance_stmts, instances, memory_part,
    memory_reads, memory_writes, mux_chain, port_expr, process_stmt, wire_stmts, zero,
    zero_inputs, PortName, Wire,
};
use crate::ir::{BackendConf, Component};
use crate::verilog_ast::{
    DeclView, ExprView, InstanceView, ModuleView, ParallelView, ProcessKind, ProcessView,
    SequentialView, StmtView,
};
use vstd::prelude::*;

verus! {

/// The declaration, where the statement is one.
pub open spec fn as_declaration(s: StmtView) -> Option<DeclView> {
    match s {
        StmtView::Decl(d) => Some(d),
        _ => None,
    }
}

/// The instance, where the statement is one.
pub open spec fn as_instance(s: StmtView) -> Option<InstanceView> {
    match s {
        StmtView::Parallel(ParallelView::Inst(i)) => Some(i),
        _ => None,
    }
}

/// The target and what drives it, where the statement is a continuous assignment.
pub open spec fn as_assign(s: StmtView) -> Option<(ExprView, ExprView)> {
    match s {
        StmtView::Parallel(ParallelView::Assign(target, rhs)) => Some((target, rhs)),
        _ => None,
    }
}

/// The process, where the statement is one.
pub open spec fn as_process(s: StmtView) -> Option<ProcessView> {
    match s {
        StmtView::Parallel(ParallelView::Process(p)) => Some(p),
        _ => None,
    }
}

/// The text, where the statement is bare text.
pub open spec fn as_text(s: StmtView) -> Option<Seq<char>> {
    match s {
        StmtView::RawStr(t) => Some(t),
        _ => None,
    }
}

/// The declarations in a module, in their order.
pub open spec fn declarations(m: ModuleView) -> Seq<DeclView> {
    m.body.filter_map(|s: StmtView| as_declaration(s))
}

/// The instances in a module, in their order.
pub open spec fn instantiations(m: ModuleView) -> Seq<InstanceView> {
    m.body.filter_map(|s: StmtView| as_instance(s))
}

/// The continuous assignments in a module, in their order: the target, and what drives it.
pub open spec fn continuous(m: ModuleView) -> Seq<(ExprView, ExprView)> {
    m.body.filter_map(|s: StmtView| as_assign(s))
}

/// The processes in a module, in their order.
pub open spec fn processes(m: ModuleView) -> Seq<ProcessView> {
    m.body.filter_map(|s: StmtView| as_process(s))
}

/// The bare texts in a module, in their order.
pub open spec fn texts(m: ModuleView) -> Seq<Seq<char>> {
    m.body.filter_map(|s: StmtView| as_text(s))
}

/// How many processes come first and move the contents of the memories.
pub open spec fn memory_processes(bc: BackendConf) -> int {
    if bc.synthesis_mode {
        0
    } else {
        2
    }
}

/// How many processes come next and set inputs to zero.
pub open spec fn initial_processes(bc: BackendConf) -> int {
    if bc.initialize_inputs {
        1
    } else {
        0
    }
}

/// How many processes come last and do the checks.
pub open spec fn check_processes(bc: BackendConf) -> int {
    if bc.synthesis_mode {
        0
    } else {
        1
    }
}

/// The processes as statements of a module.
pub open spec fn process_stmts(ps: Seq<ProcessView>) -> Seq<StmtView> {
    ps.map_values(|p: ProcessView| StmtView::Parallel(ParallelView::Process(p)))
}

/// The process for the checks on a component.
pub(crate) open spec fn checking(comp: Component, bc: BackendConf) -> ProcessView {
    let asgns = comp.continuous_assignments@;
    check_process(
        has_clock(comp.signature.ports@),
        if bc.enable_verification {
            checks(asgns, driven(asgns))
        } else {
            Seq::empty()
        },
    )
}

/// The processes in the module for a component.
pub(crate) open spec fn all_processes(comp: Component, bc: BackendConf) -> Seq<ProcessView> {
    let memories = external_memories(comp.cells@);
    let moving = if bc.synthesis_mode {
        Seq::empty()
    } else {
        seq![
            ProcessView {
                kind: ProcessKind::Initial,
                event: None,
                body: memory_reads(memories),
            },
            ProcessView { kind: ProcessKind::Final, event: None, body: memory_writes(memories) },
        ]
    };
    let setting = if bc.initialize_inputs {
        seq![
            ProcessView {
                kind: ProcessKind::Initial,
                event: None,
                body: zero_inputs(cell_wires(comp.cells@)),
            },
        ]
    } else {
        Seq::empty()
    };
    let doing = if bc.synthesis_mode {
        Seq::empty()
    } else {
        seq![checking(comp, bc)]
    };
    moving + setting + doing
}

/// What a function makes of the parts of a module, one after the other.
proof fn lemma_parts<B>(
    a: Seq<StmtView>,
    b: Seq<StmtView>,
    c: Seq<StmtView>,
    d: Seq<StmtView>,
    e: Seq<StmtView>,
    g: Seq<StmtView>,
    f: spec_fn(StmtView) -> Option<B>,
)
    ensures
        (a + b + c + d + e + g).filter_map(f) == a.filter_map(f) + b.filter_map(f) + c.filter_map(f)
            + d.filter_map(f) + e.filter_map(f) + g.filter_map(f),
{
    lemma_filter_map_add(a + b + c + d + e, g, f);
    lemma_filter_map_add(a + b + c + d, e, f);
    lemma_filter_map_add(a + b + c, d, f);
    lemma_filter_map_add(a + b, c, f);
    lemma_filter_map_add(a, b, f);
}

/// What the sections of the module for a component are.
pub(crate) proof fn lemma_sections(comp: Component, bc: BackendConf)
    ensures
        declarations(component_module(comp, bc)) == cell_wires(comp.cells@).map_values(
            |w: Wire| DeclView { name: w.0, width: w.1 },
        ),
        instantiations(component_module(comp, bc)) == instances(comp.cells@),
        continuous(component_module(comp, bc)) == driven(comp.continuous_assignments@).map_values(
            |n: PortName|
                {
                    let ds = drivers(comp.continuous_assignments@, n);
                    (port_expr(ds[0].dst), mux_chain(ds, zero(ds[0].dst.width as u32)))
                },
        ),
        processes(component_module(comp, bc)) == all_processes(comp, bc),
        texts(component_module(comp, bc)) == (if bc.synthesis_mode {
            Seq::<Seq<char>>::empty()
        } else {
            seq!["string DATA;"@, "int CODE;"@]
        }),
{
    let asgns = comp.continuous_assignments@;
    let a = memory_part(comp, bc);
    let wires = cell_wires(comp.cells@);
    let b = wire_stmts(wires);
    let c = initial_part(comp, bc);
    let insts = instances(comp.cells@);
    let d = instance_stmts(insts);
    let names = driven(asgns);
    let e = assigns(asgns, names);
    let g = check_part(comp, bc);
    let decl = |s: StmtView| as_declaration(s);
    let inst = |s: StmtView| as_instance(s);
    let assign = |s: StmtView| as_assign(s);
    let process = |s: StmtView| as_process(s);
    let text = |s: StmtView| as_text(s);
    lemma_parts(a, b, c, d, e, g, decl);
    lemma_parts(a, b, c, d, e, g, inst);
    lemma_parts(a, b, c, d, e, g, assign);
    lemma_parts(a, b, c, d, e, g, process);
    lemma_parts(a, b, c, d, e, g, text);
    // Declarations
    let decls = wires.map_values(|w: Wire| DeclView { name: w.0, width: w.1 });
    lemma_filter_map_nothing(a, decl);
    lemma_filter_map_every(b, decl, decls);
    lemma_filter_map_nothing(c, decl);
    lemma_filter_map_nothing(d, decl);
    lemma_filter_map_nothing(e, decl);
    lemma_filter_map_nothing(g, decl);
    assert(declarations(component_module(comp, bc)) =~= decls);
    // Instances
    lemma_filter_map_nothing(a, inst);
    lemma_filter_map_nothing(b, inst);
    lemma_filter_map_nothing(c, inst);
    lemma_filter_map_every(d, inst, insts);
    lemma_filter_map_nothing(e, inst);
    lemma_filter_map_nothing(g, inst);
    assert(instantiations(component_module(comp, bc)) =~= insts);
    // Continuous assignments
    let driving = names.map_values(
        |n: PortName|
            {
                let ds = drivers(asgns, n);
                (port_expr(ds[0].dst), mux_chain(ds, zero(ds[0].dst.width as u32)))
            },
    );
    lemma_filter_map_nothing(a, assign);
    lemma_filter_map_nothing(b, assign);
    lemma_filter_map_nothing(c, assign);
    lemma_filter_map_nothing(d, assign);
    lemma_filter_map_every(e, assign, driving);
    lemma_filter_map_nothing(g, assign);
    assert(continuous(component_module(comp, bc)) =~= driving);
    // Processes
    let memories = external_memories(comp.cells@);
    let reads = ProcessView {
        kind: ProcessKind::Initial,
        event: None,
        body: memory_reads(memories),
    };
    let writes = ProcessView {
        kind: ProcessKind::Final,
        event: None,
        body: memory_writes(memories),
    };
    let t0 = StmtView::RawStr("string DATA;"@);
    let t1 = StmtView::RawStr("int CODE;"@);
    let raw = seq![t0, t1];
    let moving = seq![
        process_stmt(ProcessKind::Initial, memory_reads(memories)),
        process_stmt(ProcessKind::Final, memory_writes(memories)),
    ];
    if !bc.synthesis_mode {
        assert(a =~= raw + moving);
        lemma_filter_map_add(raw, moving, process);
        lemma_filter_map_nothing(raw, process);
        lemma_filter_map_every(moving, process, seq![reads, writes]);
        assert(a.filter_map(process) =~= seq![reads, writes]);
        lemma_filter_map_add(raw, moving, text);
        lemma_filter_map_every(raw, text, seq!["string DATA;"@, "int CODE;"@]);
        lemma_filter_map_nothing(moving, text);
        assert(a.filter_map(text) =~= seq!["string DATA;"@, "int CODE;"@]);
        lemma_filter_map_every(g, process, seq![checking(comp, bc)]);
    } else {
        lemma_filter_map_nothing(a, process);
        lemma_filter_map_nothing(a, text);
        lemma_filter_map_nothing(g, process);
    }
    if bc.initialize_inputs {
        let setting = ProcessView {
            kind: ProcessKind::Initial,
            event: None,
            body: zero_inputs(wires),
        };
        lemma_filter_map_every(c, process, seq![setting]);
    } else {
        lemma_filter_map_nothing(c, process);
    }
    lemma_filter_map_nothing(b, process);
    lemma_filter_map_nothing(d, process);
    lemma_filter_map_nothing(e, process);
    assert(processes(component_module(comp, bc)) =~= all_processes(comp, bc));
    // Bare texts
    lemma_filter_map_nothing(b, text);
    lemma_filter_map_nothing(c, text);
    lemma_filter_map_nothing(d, text);
    lemma_filter_map_nothing(e, text);
    lemma_filter_map_nothing(g, text);
    assert(texts(component_module(comp, bc)) =~= (if bc.synthesis_mode {
        Seq::<Seq<char>>::empty()
    } else {
        seq!["string DATA;"@, "int CODE;"@]
    }));
}

/// The body of a module is made of its sections and nothing else: the variables for the memories
/// and the processes that move their contents, the declarations, the process that sets inputs to
/// zero, the instances, the continuous assignments, and the process for the checks.
pub proof fn law_module_is_its_sections(comp: Component, bc: BackendConf)
    ensures
        ({
            let m = component_module(comp, bc);
            let ps = processes(m);
            let moving = memory_processes(bc);
            let setting = moving + initial_processes(bc);
            &&& m.name == comp.name@
            &&& ps.len() == setting + check_processes(bc)
            &&& m.body == texts(m).map_values(|t: Seq<char>| StmtView::RawStr(t)) + process_stmts(
                ps.take(moving),
            ) + declarations(m).map_values(|d: DeclView| StmtView::Decl(d)) + process_stmts(
                ps.subrange(moving, setting),
            ) + instantiations(m).map_values(
                |i: InstanceView| StmtView::Parallel(ParallelView::Inst(i)),
            ) + continuous(m).map_values(
                |a: (ExprView, ExprView)| StmtView::Parallel(ParallelView::Assign(a.0, a.1)),
            ) + process_stmts(ps.skip(setting))
        }),
        texts(component_module(comp, bc)) == (if bc.synthesis_mode {
            Seq::<Seq<char>>::empty()
        } else {
            seq!["string DATA;"@, "int CODE;"@]
        }),
{
    lemma_sections(comp, bc);
    let m = component_module(comp, bc);
    let ps = processes(m);
    let moving = memory_processes(bc);
    let setting = moving + initial_processes(bc);
    let asgns = comp.continuous_assignments@;
    let a = memory_part(comp, bc);
    let b = wire_stmts(cell_wires(comp.cells@));
    let c = initial_part(comp, bc);
    let d = instance_stmts(instances(comp.cells@));
    let e = assigns(asgns, driven(asgns));
    let g = check_part(comp, bc);
    assert(a =~= texts(m).map_values(|t: Seq<char>| StmtView::RawStr(t)) + process_stmts(
        ps.take(moving),
    ));
    assert(b =~= declarations(m).map_values(|d: DeclView| StmtView::Decl(d)));
    assert(c =~= process_stmts(ps.subrange(moving, setting)));
    assert(d =~= instantiations(m).map_values(
        |i: InstanceView| StmtView::Parallel(ParallelView::Inst(i)),
    ));
    assert(e =~= continuous(m).map_values(
        |a: (ExprView, ExprView)| StmtView::Parallel(ParallelView::Assign(a.0, a.1)),
    ));
    assert(g =~= process_stmts(ps.skip(setting)));
}

/// When the processes of a module run: those for the memories before and after the simulation, the
/// one that sets inputs to zero before it, and the checks on the rising edge of `clk`, or whenever
/// a guard changes where no port has that name.
pub proof fn law_processes_run_when_they_should(comp: Component, bc: BackendConf)
    ensures
        !bc.synthesis_mode ==> {
            let ps = processes(component_module(comp, bc));
            let ports = comp.signature.ports@;
            let clocked = exists|i: int|
                0 <= i < ports.len() && (#[trigger] ports[i]).name@ == "clk"@;
            &&& ps[0].kind is Initial && ps[0].event is None
            &&& ps[1].kind is Final && ps[1].event is None
            &&& clocked <==> ps.last().kind is AlwaysFF
            &&& !clocked <==> ps.last().kind is AlwaysComb
            &&& clocked ==> ps.last().event == Some(SequentialView::Posedge(ExprView::Ref("clk"@)))
            &&& !clocked ==> ps.last().event is None
            &&& !bc.enable_verification ==> ps.last().body.len() == 0
        },
        bc.initialize_inputs ==> {
            let p = processes(component_module(comp, bc))[memory_processes(bc)];
            p.kind is Initial && p.event is None
        },
{
    lemma_sections(comp, bc);
}

} // verus!
