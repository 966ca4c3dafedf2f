//! The SystemVerilog syntax trees that the backend builds.
//!
//! The trees themselves are those of the `vast` crate, which also prints them. Verus does not look
//! inside a value of `vast`, so this module says what such a value holds: one spec type for each
//! kind of node, one name for what a node of that kind holds, and one function for each call into
//! `vast` that the backend makes, with a contract over those names. Everything in this module that
//! is not a spec type is believed without proof.

use vast::v17::ast as v;
use vstd::prelude::*;

verus! {

//==========================================
//        What the nodes hold
//==========================================

/// How the digits of a literal are read.
pub enum Radix {
    Dec,
    Bin,
}

/// An operator with two operands.
pub enum Binop {
    BitOr,
    BitAnd,
    Equal,
    NotEqual,
    Gt,
    Lt,
    Geq,
    Leq,
}

/// An expression.
pub enum ExprView {
    /// A name.
    Ref(Seq<char>),
    /// A plain integer.
    Int(i32),
    /// A literal of a given width in bits, with its digits.
    ULit(u32, Radix, Seq<char>),
    /// A quoted string.
    Str(Seq<char>),
    /// A hierarchical name, its parts joined by dots.
    IPath(Seq<char>),
    /// The bitwise complement.
    Not(Box<ExprView>),
    Binop(Binop, Box<ExprView>, Box<ExprView>),
    /// `condition ? when it holds : when it does not`.
    Mux(Box<ExprView>, Box<ExprView>, Box<ExprView>),
    /// A concatenation, its parts in the order in which they were added. The part that was added
    /// last is printed first.
    Concat(Seq<ExprView>),
    /// A call of a function or a system task.
    Call(Seq<char>, Seq<ExprView>),
}

/// A statement inside a process.
pub enum SequentialView {
    /// A blocking assignment.
    BlkAssign(ExprView, ExprView),
    /// An expression on its own.
    SeqExpr(ExprView),
    /// A conditional without an alternative.
    If(ExprView, Seq<SequentialView>),
    /// A rising edge, as what a process waits for.
    Posedge(ExprView),
}

/// When a process runs.
pub enum ProcessKind {
    AlwaysComb,
    AlwaysFF,
    Initial,
    Final,
}

/// A process: when it runs, the event that it waits for, and what it does.
#[verifier::ext_equal]
pub struct ProcessView {
    pub kind: ProcessKind,
    pub event: Option<SequentialView>,
    pub body: Seq<SequentialView>,
}

/// An instance of a module: its own name, that of the module, and what its parameters and its
/// ports are bound to.
#[verifier::ext_equal]
pub struct InstanceView {
    pub id: Seq<char>,
    pub prim: Seq<char>,
    pub params: Map<Seq<char>, ExprView>,
    pub ports: Map<Seq<char>, ExprView>,
}

/// What runs side by side in a module.
pub enum ParallelView {
    Inst(InstanceView),
    /// A continuous assignment: the target, and what drives it.
    Assign(ExprView, ExprView),
    Process(ProcessView),
}

/// The declaration of a `logic` signal: its name and its width.
pub struct DeclView {
    pub name: Seq<char>,
    pub width: u64,
}

/// A statement of a module.
pub enum StmtView {
    Decl(DeclView),
    Parallel(ParallelView),
    /// Text that is printed as it stands.
    RawStr(Seq<char>),
}

/// A port of a module.
pub enum ModulePortView {
    Input(DeclView),
    Output(DeclView),
}

/// A module: its name, its ports and its body.
#[verifier::ext_equal]
pub struct ModuleView {
    pub name: Seq<char>,
    pub ports: Seq<ModulePortView>,
    pub body: Seq<StmtView>,
}

impl ModulePortView {
    /// The signal behind the port.
    pub open spec fn decl(self) -> DeclView {
        match self {
            ModulePortView::Input(d) => d,
            ModulePortView::Output(d) => d,
        }
    }
}

/// The module declares no signal of width zero. Printing one panics.
pub open spec fn printable(m: ModuleView) -> bool {
    &&& forall|i: int| 0 <= i < m.ports.len() ==> (#[trigger] m.ports[i]).decl().width > 0
    &&& forall|i: int|
        0 <= i < m.body.len() ==> ((#[trigger] m.body[i]) matches StmtView::Decl(d) ==> d.width > 0)
}

//==========================================
//        The types of `vast`
//==========================================

/// `vast::v17::ast::Expr`.
#[verifier::external_type_specification]
#[verifier::external_body]
pub struct ExExpr(v::Expr);

/// `vast::v17::ast::ExprConcat`.
#[verifier::external_type_specification]
#[verifier::external_body]
pub struct ExExprConcat(v::ExprConcat);

/// `vast::v17::ast::Sequential`.
#[verifier::external_type_specification]
#[verifier::external_body]
pub struct ExSequential(v::Sequential);

/// `vast::v17::ast::SequentialIfElse`.
#[verifier::external_type_specification]
#[verifier::external_body]
pub struct ExSequentialIfElse(v::SequentialIfElse);

/// `vast::v17::ast::ParallelProcess`.
#[verifier::external_type_specification]
#[verifier::external_body]
pub struct ExParallelProcess(v::ParallelProcess);

/// `vast::v17::ast::Instance`.
#[verifier::external_type_specification]
#[verifier::external_body]
pub struct ExInstance(v::Instance);

/// `vast::v17::ast::Parallel`.
#[verifier::external_type_specification]
#[verifier::external_body]
pub struct ExParallel(v::Parallel);

/// `vast::v17::ast::Decl`.
#[verifier::external_type_specification]
#[verifier::external_body]
pub struct ExDecl(v::Decl);

/// A statement of a module: a `vast::v17::ast::Stmt`. That name stands for an instance of a generic
/// type that `vast` keeps to itself.
#[verifier::external_body]
pub struct Stmt {
    inner: v::Stmt,
}

/// A module: a `vast::v17::ast::Module`. That name stands for an instance of a generic type that
/// `vast` keeps to itself.
#[verifier::external_body]
pub struct Module {
    inner: v::Module,
}

/// What an expression holds.
pub uninterp spec fn expr_view(e: v::Expr) -> ExprView;

/// The parts of a concatenation, in the order in which they were added.
pub uninterp spec fn concat_parts(c: v::ExprConcat) -> Seq<ExprView>;

/// What a statement inside a process holds.
pub uninterp spec fn sequential_view(s: v::Sequential) -> SequentialView;

/// The condition of a conditional.
pub uninterp spec fn if_cond(i: v::SequentialIfElse) -> ExprView;

/// The statements of a conditional.
pub uninterp spec fn if_body(i: v::SequentialIfElse) -> Seq<SequentialView>;

/// What a process holds.
pub uninterp spec fn process_view(p: v::ParallelProcess) -> ProcessView;

/// What an instance holds.
pub uninterp spec fn instance_view(i: v::Instance) -> InstanceView;

/// What a parallel statement holds.
pub uninterp spec fn parallel_view(p: v::Parallel) -> ParallelView;

/// What a declaration holds.
pub uninterp spec fn decl_view(d: v::Decl) -> DeclView;

/// What a statement of a module holds.
pub uninterp spec fn stmt_view(s: Stmt) -> StmtView;

/// What a module holds.
pub uninterp spec fn module_view(m: Module) -> ModuleView;

/// The text that `vast` prints for a module that holds `m`.
pub uninterp spec fn module_text(m: ModuleView) -> Seq<char>;

/// What each of several expressions holds.
pub open spec fn expr_views(es: Seq<v::Expr>) -> Seq<ExprView> {
    es.map_values(|e: v::Expr| expr_view(e))
}

/// What each of several statements of a module holds.
pub open spec fn stmt_views(ss: Seq<Stmt>) -> Seq<StmtView> {
    ss.map_values(|s: Stmt| stmt_view(s))
}

//==========================================
//        Expressions
//==========================================

/// Calls `Expr::new_ref`. The contract claims that the expression is the name handed in.
#[verifier::external_body]
pub(crate) fn new_ref(name: &str) -> (e: v::Expr)
    ensures
        expr_view(e) == ExprView::Ref(name@),
{
    v::Expr::new_ref(name)
}

/// Calls `Expr::new_int`. The contract claims that the expression is the integer handed in.
#[verifier::external_body]
pub(crate) fn new_int(value: i32) -> (e: v::Expr)
    ensures
        expr_view(e) == ExprView::Int(value),
{
    v::Expr::new_int(value)
}

/// Calls `Expr::new_str`. The contract claims that the expression is the string handed in.
#[verifier::external_body]
pub(crate) fn new_str(value: &str) -> (e: v::Expr)
    ensures
        expr_view(e) == ExprView::Str(value@),
{
    v::Expr::new_str(value)
}

/// Calls `Expr::new_ulit_dec`, which panics on width zero. The contract claims that the
/// expression is the decimal literal of that width with those digits.
#[verifier::external_body]
pub(crate) fn new_ulit_dec(width: u32, value: &str) -> (e: v::Expr)
    requires
        width > 0,
    ensures
        expr_view(e) == ExprView::ULit(width, Radix::Dec, value@),
{
    v::Expr::new_ulit_dec(width, value)
}

/// Calls `Expr::new_ulit_bin`, which panics on width zero. The contract claims that the
/// expression is the binary literal of that width with those digits.
#[verifier::external_body]
pub(crate) fn new_ulit_bin(width: u32, value: &str) -> (e: v::Expr)
    requires
        width > 0,
    ensures
        expr_view(e) == ExprView::ULit(width, Radix::Bin, value@),
{
    v::Expr::new_ulit_bin(width, value)
}

/// Calls `Expr::new_bit_or`. The contract claims that the expression is that operator applied
/// to the two operands, in their order.
#[verifier::external_body]
pub(crate) fn new_bit_or(lhs: v::Expr, rhs: v::Expr) -> (e: v::Expr)
    ensures
        expr_view(e) == ExprView::Binop(
            Binop::BitOr,
            Box::new(expr_view(lhs)),
            Box::new(expr_view(rhs)),
        ),
{
    v::Expr::new_bit_or(lhs, rhs)
}

/// Calls `Expr::new_bit_and`. The contract claims that the expression is that operator applied
/// to the two operands, in their order.
#[verifier::external_body]
pub(crate) fn new_bit_and(lhs: v::Expr, rhs: v::Expr) -> (e: v::Expr)
    ensures
        expr_view(e) == ExprView::Binop(
            Binop::BitAnd,
            Box::new(expr_view(lhs)),
            Box::new(expr_view(rhs)),
        ),
{
    v::Expr::new_bit_and(lhs, rhs)
}

/// Calls `Expr::new_eq`. The contract claims that the expression is that operator applied to
/// the two operands, in their order.
#[verifier::external_body]
pub(crate) fn new_eq(lhs: v::Expr, rhs: v::Expr) -> (e: v::Expr)
    ensures
        expr_view(e) == ExprView::Binop(
            Binop::Equal,
            Box::new(expr_view(lhs)),
            Box::new(expr_view(rhs)),
        ),
{
    v::Expr::new_eq(lhs, rhs)
}

/// Calls `Expr::new_neq`. The contract claims that the expression is that operator applied to
/// the two operands, in their order.
#[verifier::external_body]
pub(crate) fn new_neq(lhs: v::Expr, rhs: v::Expr) -> (e: v::Expr)
    ensures
        expr_view(e) == ExprView::Binop(
            Binop::NotEqual,
            Box::new(expr_view(lhs)),
            Box::new(expr_view(rhs)),
        ),
{
    v::Expr::new_neq(lhs, rhs)
}

/// Calls `Expr::new_gt`. The contract claims that the expression is that operator applied to
/// the two operands, in their order.
#[verifier::external_body]
pub(crate) fn new_gt(lhs: v::Expr, rhs: v::Expr) -> (e: v::Expr)
    ensures
        expr_view(e) == ExprView::Binop(
            Binop::Gt,
            Box::new(expr_view(lhs)),
            Box::new(expr_view(rhs)),
        ),
{
    v::Expr::new_gt(lhs, rhs)
}

/// Calls `Expr::new_lt`. The contract claims that the expression is that operator applied to
/// the two operands, in their order.
#[verifier::external_body]
pub(crate) fn new_lt(lhs: v::Expr, rhs: v::Expr) -> (e: v::Expr)
    ensures
        expr_view(e) == ExprView::Binop(
            Binop::Lt,
            Box::new(expr_view(lhs)),
            Box::new(expr_view(rhs)),
        ),
{
    v::Expr::new_lt(lhs, rhs)
}

/// Calls `Expr::new_geq`. The contract claims that the expression is that operator applied to
/// the two operands, in their order.
#[verifier::external_body]
pub(crate) fn new_geq(lhs: v::Expr, rhs: v::Expr) -> (e: v::Expr)
    ensures
        expr_view(e) == ExprView::Binop(
            Binop::Geq,
            Box::new(expr_view(lhs)),
            Box::new(expr_view(rhs)),
        ),
{
    v::Expr::new_geq(lhs, rhs)
}

/// Calls `Expr::new_leq`. The contract claims that the expression is that operator applied to
/// the two operands, in their order.
#[verifier::external_body]
pub(crate) fn new_leq(lhs: v::Expr, rhs: v::Expr) -> (e: v::Expr)
    ensures
        expr_view(e) == ExprView::Binop(
            Binop::Leq,
            Box::new(expr_view(lhs)),
            Box::new(expr_view(rhs)),
        ),
{
    v::Expr::new_leq(lhs, rhs)
}

/// Calls `Expr::new_not`. The contract claims that the expression is the bitwise complement of
/// the operand.
#[verifier::external_body]
pub(crate) fn new_not(operand: v::Expr) -> (e: v::Expr)
    ensures
        expr_view(e) == ExprView::Not(Box::new(expr_view(operand))),
{
    v::Expr::new_not(operand)
}

/// Calls `Expr::new_mux`. The contract claims that the expression is the choice by `cond`
/// between `tru` and `fal`.
#[verifier::external_body]
pub(crate) fn new_mux(cond: v::Expr, tru: v::Expr, fal: v::Expr) -> (e: v::Expr)
    ensures
        expr_view(e) == ExprView::Mux(
            Box::new(expr_view(cond)),
            Box::new(expr_view(tru)),
            Box::new(expr_view(fal)),
        ),
{
    v::Expr::new_mux(cond, tru, fal)
}

/// Calls `Expr::new_call`. The contract claims that the expression is a call by that name,
/// with those arguments in their order.
#[verifier::external_body]
pub(crate) fn new_call(name: &str, params: Vec<v::Expr>) -> (e: v::Expr)
    ensures
        expr_view(e) == ExprView::Call(name@, expr_views(params@)),
{
    v::Expr::new_call(name, params)
}

/// Calls `Expr::new_ipath`, which takes the path apart at its dots. The contract claims that
/// the expression is the hierarchical name whose parts, joined by dots, read as `path` does.
#[verifier::external_body]
pub(crate) fn new_ipath(path: &str) -> (e: v::Expr)
    ensures
        expr_view(e) == ExprView::IPath(path@),
{
    v::Expr::new_ipath(path)
}

/// Calls `ExprConcat::default`. The contract claims that the concatenation has no parts.
#[verifier::external_body]
pub(crate) fn new_concat() -> (c: v::ExprConcat)
    ensures
        concat_parts(c) == Seq::<ExprView>::empty(),
{
    v::ExprConcat::default()
}

/// Calls `ExprConcat::add_expr`. The contract claims that the part is added behind the others.
#[verifier::external_body]
pub(crate) fn concat_add_expr(c: &mut v::ExprConcat, expr: v::Expr)
    ensures
        concat_parts(*final(c)) == concat_parts(*old(c)).push(expr_view(expr)),
{
    c.add_expr(expr)
}

/// Makes an `Expr::Concat`. The contract claims that the expression is the concatenation of
/// the parts of `c`.
#[verifier::external_body]
pub(crate) fn concat_expr(c: v::ExprConcat) -> (e: v::Expr)
    ensures
        expr_view(e) == ExprView::Concat(concat_parts(c)),
{
    v::Expr::Concat(c)
}

//==========================================
//        Processes
//==========================================

/// Calls `Sequential::new_blk_assign`. The contract claims that the statement is the blocking
/// assignment of `rexpr` to `lexpr`.
#[verifier::external_body]
pub(crate) fn new_blk_assign(lexpr: v::Expr, rexpr: v::Expr) -> (s: v::Sequential)
    ensures
        sequential_view(s) == SequentialView::BlkAssign(expr_view(lexpr), expr_view(rexpr)),
{
    v::Sequential::new_blk_assign(lexpr, rexpr)
}

/// Calls `Sequential::new_seqexpr`. The contract claims that the statement is the expression
/// on its own.
#[verifier::external_body]
pub(crate) fn new_seqexpr(expr: v::Expr) -> (s: v::Sequential)
    ensures
        sequential_view(s) == SequentialView::SeqExpr(expr_view(expr)),
{
    v::Sequential::new_seqexpr(expr)
}

/// Calls `SequentialIfElse::new`. The contract claims that the conditional has that condition
/// and no statements.
#[verifier::external_body]
pub(crate) fn new_if(cond: v::Expr) -> (i: v::SequentialIfElse)
    ensures
        if_cond(i) == expr_view(cond),
        if_body(i) == Seq::<SequentialView>::empty(),
{
    v::SequentialIfElse::new(cond)
}

/// Calls `SequentialIfElse::add_seq`. The contract claims that the statement is added behind
/// the others, and that the condition stays.
#[verifier::external_body]
pub(crate) fn if_add_seq(i: &mut v::SequentialIfElse, seq: v::Sequential)
    ensures
        if_cond(*final(i)) == if_cond(*old(i)),
        if_body(*final(i)) == if_body(*old(i)).push(sequential_view(seq)),
{
    i.add_seq(seq);
}

/// Makes a `Sequential::If`. The contract claims that the statement is the conditional.
#[verifier::external_body]
pub(crate) fn if_sequential(i: v::SequentialIfElse) -> (s: v::Sequential)
    ensures
        sequential_view(s) == SequentialView::If(if_cond(i), if_body(i)),
{
    v::Sequential::If(i)
}

/// Makes a `Sequential::Event` with `EventTy::Posedge`. The contract claims that the event is the
/// rising edge of `expr`.
#[verifier::external_body]
pub(crate) fn new_posedge(expr: v::Expr) -> (s: v::Sequential)
    ensures
        sequential_view(s) == SequentialView::Posedge(expr_view(expr)),
{
    v::Sequential::Event(v::EventTy::Posedge, expr)
}

/// Calls `ParallelProcess::new_always_comb`. The contract claims that the process always runs,
/// and that it has no event and no statements.
#[verifier::external_body]
pub(crate) fn new_always_comb() -> (p: v::ParallelProcess)
    ensures
        process_view(p) == (ProcessView {
            kind: ProcessKind::AlwaysComb,
            event: None,
            body: Seq::<SequentialView>::empty(),
        }),
{
    v::ParallelProcess::new_always_comb()
}

/// Calls `ParallelProcess::new_always_ff`. The contract claims that the process runs whenever its
/// event happens, and that it has no event yet and no statements.
#[verifier::external_body]
pub(crate) fn new_always_ff() -> (p: v::ParallelProcess)
    ensures
        process_view(p) == (ProcessView {
            kind: ProcessKind::AlwaysFF,
            event: None,
            body: Seq::<SequentialView>::empty(),
        }),
{
    v::ParallelProcess::new_always_ff()
}

/// Calls `ParallelProcess::set_event`. The contract claims that the process waits for that event,
/// and that the rest of it stays.
#[verifier::external_body]
pub(crate) fn process_set_event(p: &mut v::ParallelProcess, event: v::Sequential)
    ensures
        process_view(*final(p)) == (ProcessView {
            kind: process_view(*old(p)).kind,
            event: Some(sequential_view(event)),
            body: process_view(*old(p)).body,
        }),
{
    p.set_event(event);
}

/// Calls `ParallelProcess::new_initial`. The contract claims that the process runs at the
/// start, and that it has no event and no statements.
#[verifier::external_body]
pub(crate) fn new_initial() -> (p: v::ParallelProcess)
    ensures
        process_view(p) == (ProcessView {
            kind: ProcessKind::Initial,
            event: None,
            body: Seq::<SequentialView>::empty(),
        }),
{
    v::ParallelProcess::new_initial()
}

/// Calls `ParallelProcess::new_final`. The contract claims that the process runs at the end,
/// and that it has no event and no statements.
#[verifier::external_body]
pub(crate) fn new_final() -> (p: v::ParallelProcess)
    ensures
        process_view(p) == (ProcessView {
            kind: ProcessKind::Final,
            event: None,
            body: Seq::<SequentialView>::empty(),
        }),
{
    v::ParallelProcess::new_final()
}

/// Calls `ParallelProcess::add_seq`. The contract claims that the statement is added behind
/// the others, and that the process still runs when it did.
#[verifier::external_body]
pub(crate) fn process_add_seq(p: &mut v::ParallelProcess, seq: v::Sequential)
    ensures
        process_view(*final(p)) == (ProcessView {
            kind: process_view(*old(p)).kind,
            event: process_view(*old(p)).event,
            body: process_view(*old(p)).body.push(sequential_view(seq)),
        }),
{
    p.add_seq(seq);
}

//==========================================
//        Instances
//==========================================

/// Calls `Instance::new`. The contract claims that the instance has that name, is one of that
/// module, and has neither parameters nor ports.
#[verifier::external_body]
pub(crate) fn new_instance(id: &str, prim: &str) -> (i: v::Instance)
    ensures
        instance_view(i) == (InstanceView {
            id: id@,
            prim: prim@,
            params: Map::empty(),
            ports: Map::empty(),
        }),
{
    v::Instance::new(id, prim)
}

/// Calls `Instance::add_param`. The contract claims that the parameter is bound to the value,
/// in place of what it was bound to before, and that nothing else changes.
#[verifier::external_body]
pub(crate) fn instance_add_param(i: &mut v::Instance, param: &str, value: v::Expr)
    ensures
        instance_view(*final(i)) == (InstanceView {
            params: instance_view(*old(i)).params.insert(param@, expr_view(value)),
            ..instance_view(*old(i))
        }),
{
    i.add_param(param, value)
}

/// Calls `Instance::connect`. The contract claims that the port is bound to the expression, in
/// place of what it was bound to before, and that nothing else changes.
#[verifier::external_body]
pub(crate) fn instance_connect(i: &mut v::Instance, port: &str, expr: v::Expr)
    ensures
        instance_view(*final(i)) == (InstanceView {
            ports: instance_view(*old(i)).ports.insert(port@, expr_view(expr)),
            ..instance_view(*old(i))
        }),
{
    i.connect(port, expr)
}

//==========================================
//        Statements and modules
//==========================================

/// Makes a `Parallel::ParAssign`. The contract claims that `rexpr` drives `lexpr`.
#[verifier::external_body]
pub(crate) fn new_par_assign(lexpr: v::Expr, rexpr: v::Expr) -> (p: v::Parallel)
    ensures
        parallel_view(p) == ParallelView::Assign(expr_view(lexpr), expr_view(rexpr)),
{
    v::Parallel::ParAssign(lexpr, rexpr)
}

/// Calls `Parallel::new_process`. The contract claims that the statement is the process.
#[verifier::external_body]
pub(crate) fn new_process(process: v::ParallelProcess) -> (p: v::Parallel)
    ensures
        parallel_view(p) == ParallelView::Process(process_view(process)),
{
    v::Parallel::new_process(process)
}

/// Calls `Decl::new_logic`, which panics on width zero. The contract claims that the
/// declaration is that of a `logic` signal of that name and width.
#[verifier::external_body]
pub(crate) fn new_logic(name: &str, width: u64) -> (d: v::Decl)
    requires
        width > 0,
    ensures
        decl_view(d) == (DeclView { name: name@, width }),
{
    v::Decl::new_logic(name, width)
}

impl Stmt {
    /// Calls `Stmt::new_parallel`. The contract claims that the statement is the parallel one.
    #[verifier::external_body]
    pub(crate) fn new_parallel(par: v::Parallel) -> (s: Stmt)
        ensures
            stmt_view(s) == StmtView::Parallel(parallel_view(par)),
    {
        Stmt { inner: v::Stmt::new_parallel(par) }
    }

    /// Calls `Stmt::new_rawstr`. The contract claims that the statement is the text handed in.
    #[verifier::external_body]
    pub(crate) fn new_rawstr(s: String) -> (stmt: Stmt)
        ensures
            stmt_view(stmt) == StmtView::RawStr(s@),
    {
        Stmt { inner: v::Stmt::new_rawstr(s) }
    }
}

impl Module {
    /// Calls `Module::new`. The contract claims that the module has that name, no ports and an
    /// empty body.
    #[verifier::external_body]
    pub(crate) fn new(name: &str) -> (m: Module)
        ensures
            module_view(m) == (ModuleView { name: name@, ports: Seq::empty(), body: Seq::empty() }),
    {
        Module { inner: v::Module::new(name) }
    }

    /// Calls `Module::add_input`. The contract claims that an input port of that name and width is
    /// added behind the other ports, and that nothing else changes.
    #[verifier::external_body]
    pub(crate) fn add_input(&mut self, name: &str, width: u64)
        ensures
            module_view(*final(self)) == (ModuleView {
                ports: module_view(*old(self)).ports.push(
                    ModulePortView::Input(DeclView { name: name@, width }),
                ),
                ..module_view(*old(self))
            }),
    {
        self.inner.add_input(name, width);
    }

    /// Calls `Module::add_output`. The contract claims that an output port of that name and width
    /// is added behind the other ports, and that nothing else changes.
    #[verifier::external_body]
    pub(crate) fn add_output(&mut self, name: &str, width: u64)
        ensures
            module_view(*final(self)) == (ModuleView {
                ports: module_view(*old(self)).ports.push(
                    ModulePortView::Output(DeclView { name: name@, width }),
                ),
                ..module_view(*old(self))
            }),
    {
        self.inner.add_output(name, width);
    }

    /// Calls `Module::add_stmt`. The contract claims that the statement is added behind the
    /// others, and that nothing else changes.
    #[verifier::external_body]
    pub(crate) fn add_stmt(&mut self, stmt: Stmt)
        ensures
            module_view(*final(self)) == (ModuleView {
                body: module_view(*old(self)).body.push(
                    stmt_view(stmt),
                ),
                ..module_view(*old(self))
            }),
    {
        self.inner.add_stmt(stmt.inner);
    }

    /// Calls `Module::add_decl`. The contract claims that the statement is added behind the
    /// others, and that nothing else changes.
    #[verifier::external_body]
    pub(crate) fn add_decl(&mut self, decl: v::Decl)
        ensures
            module_view(*final(self)) == (ModuleView {
                body: module_view(*old(self)).body.push(
                    StmtView::Decl(decl_view(decl)),
                ),
                ..module_view(*old(self))
            }),
    {
        self.inner.add_decl(decl);
    }

    /// Calls `Module::add_instance`. The contract claims that the statement is added behind the
    /// others, and that nothing else changes.
    #[verifier::external_body]
    pub(crate) fn add_instance(&mut self, inst: v::Instance)
        ensures
            module_view(*final(self)) == (ModuleView {
                body: module_view(*old(self)).body.push(
                    StmtView::Parallel(ParallelView::Inst(instance_view(inst))),
                ),
                ..module_view(*old(self))
            }),
    {
        self.inner.add_instance(inst);
    }

    /// Calls `Module::add_process`. The contract claims that the statement is added behind the
    /// others, and that nothing else changes.
    #[verifier::external_body]
    pub(crate) fn add_process(&mut self, process: v::ParallelProcess)
        ensures
            module_view(*final(self)) == (ModuleView {
                body: module_view(*old(self)).body.push(
                    StmtView::Parallel(ParallelView::Process(process_view(process))),
                ),
                ..module_view(*old(self))
            }),
    {
        self.inner.add_process(process);
    }

    /// The text of the module. Calls `to_string`, which `vast` gives a module through `Display`:
    /// it panics on a signal of width zero, and lists the parameters and the ports of an instance
    /// in the order of their names. The contract claims that the text depends on nothing but what
    /// the module holds.
    #[verifier::external_body]
    pub(crate) fn text(&self) -> (s: String)
        requires
            printable(module_view(*self)),
        ensures
            s@ == module_text(module_view(*self)),
    {
        self.inner.to_string()
    }
}

} // verus!
