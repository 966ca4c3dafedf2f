//! How ports and guards are written.

use crate::backend::facts::{
    lemma_filter_map_add, lemma_filter_map_one, lemma_joined_readable,
};
use crate::backend::model::{
    guard_expr, guard_readable, port_expr, port_wire, port_wires, readable, Wire,
};
use crate::backend::validate::{lemma_joined_holes, reads_hole};
use crate::ir::{CellType, Guard, Port, PortComp, PortParent};
use crate::text::{law_decimal_reads_back, number};
use crate::verilog_ast::{Binop, ExprView, Radix};
use vstd::prelude::*;

verus! {

/// The name of the cell or the group that the port belongs to.
pub open spec fn parent_name(p: Port) -> Seq<char> {
    match p.parent {
        PortParent::Cell { name, .. } => name@,
        PortParent::Group { name } => name@,
    }
}

/// The two are the same port of the same parent.
pub open spec fn same_port(p: Port, q: Port) -> bool {
    parent_name(p) == parent_name(q) && p.name@ == q.name@
}

/// The port is one of the component itself.
pub open spec fn own(p: Port) -> bool {
    p.parent matches PortParent::Cell { prototype: CellType::ThisComponent, .. }
}

/// The port belongs to a cell that is one of a primitive or a component.
pub open spec fn of_instance(p: Port) -> bool {
    p.parent matches PortParent::Cell { prototype, .. } && (prototype is Primitive
        || prototype is Component)
}

/// The name that the port has in a module.
pub open spec fn written(p: Port) -> Seq<char> {
    if own(p) {
        p.name@
    } else {
        parent_name(p) + "_"@ + p.name@
    }
}

/// The digits are those of the number, with no zero in front unless it is zero.
pub open spec fn spells(digits: Seq<char>, n: int) -> bool {
    &&& number(digits) == n
    &&& forall|i: int| 0 <= i < digits.len() ==> '0' <= #[trigger] digits[i] <= '9'
    &&& digits.len() > 0
    &&& digits[0] == '0' ==> digits.len() == 1
}

/// A port of a cell is written as the name of the cell and its own, a port of the component itself
/// as its own name, and a constant as a literal of its width with the digits of its value.
pub proof fn law_port_is_written_by_name_or_value(p: Port)
    requires
        p.parent is Cell,
    ensures
        own(p) || of_instance(p) ==> port_expr(p) == ExprView::Ref(written(p)),
        p.parent matches PortParent::Cell { prototype: CellType::Constant { val, width }, .. } ==> {
            &&& port_expr(p) is ULit
            &&& port_expr(p)->ULit_0 == width as u32
            &&& port_expr(p)->ULit_1 is Dec
            &&& spells(port_expr(p)->ULit_2, val as int)
        },
{
    if let PortParent::Cell { prototype: CellType::Constant { val, .. }, .. } = p.parent {
        law_decimal_reads_back(val as nat);
    }
}

/// Which ports can be written: all that belong to a cell, but for constants without a width.
pub proof fn law_ports_of_cells_can_be_written(p: Port)
    ensures
        p.parent is Group ==> !readable(p),
        own(p) || of_instance(p) ==> readable(p),
        p.parent matches PortParent::Cell { prototype: CellType::Constant { width, .. }, .. } ==> (
        readable(p) <==> width as u32 > 0),
{
}

/// Two ports that a module declares separately are written the same only where their names say so.
pub proof fn law_ports_of_a_cell_are_told_apart(p: Port, q: Port)
    requires
        of_instance(p),
        of_instance(q),
        parent_name(p) == parent_name(q),
    ensures
        port_expr(p) == port_expr(q) <==> p.name@ == q.name@,
{
    if port_expr(p) == port_expr(q) {
        let front = parent_name(p) + "_"@;
        assert(written(p) == written(q));
        assert((front + p.name@).skip(front.len() as int) =~= p.name@);
        assert((front + q.name@).skip(front.len() as int) =~= q.name@);
    }
}

/// A guard is written part by part, with the operator of each part.
pub proof fn law_guard_is_written_part_by_part(
    l: Guard,
    r: Guard,
    op: PortComp,
    p: Port,
    q: Port,
)
    ensures
        guard_expr(Guard::Or(Box::new(l), Box::new(r))) == ExprView::Binop(
            Binop::BitOr,
            Box::new(guard_expr(l)),
            Box::new(guard_expr(r)),
        ),
        guard_expr(Guard::And(Box::new(l), Box::new(r))) == ExprView::Binop(
            Binop::BitAnd,
            Box::new(guard_expr(l)),
            Box::new(guard_expr(r)),
        ),
        guard_expr(Guard::Not(Box::new(l))) == ExprView::Not(Box::new(guard_expr(l))),
        guard_expr(Guard::Port(p)) == port_expr(p),
        guard_expr(Guard::True) == ExprView::ULit(1, Radix::Bin, seq!['1']),
        guard_expr(Guard::CompOp(op, p, q)) is Binop,
        *guard_expr(Guard::CompOp(op, p, q))->Binop_1 == port_expr(p),
        *guard_expr(Guard::CompOp(op, p, q))->Binop_2 == port_expr(q),
        match guard_expr(Guard::CompOp(op, p, q))->Binop_0 {
            Binop::Equal => op is Eq,
            Binop::NotEqual => op is Neq,
            Binop::Gt => op is Gt,
            Binop::Lt => op is Lt,
            Binop::Geq => op is Geq,
            Binop::Leq => op is Leq,
            _ => false,
        },
{
    reveal_with_fuel(guard_expr, 2);
}

/// A guard reads a hole exactly where one of its parts does.
pub proof fn law_hole_is_found_in_every_part(l: Guard, r: Guard, op: PortComp, p: Port, q: Port)
    ensures
        reads_hole(Guard::Or(Box::new(l), Box::new(r))) <==> reads_hole(l) || reads_hole(r),
        reads_hole(Guard::And(Box::new(l), Box::new(r))) <==> reads_hole(l) || reads_hole(r),
        reads_hole(Guard::Not(Box::new(l))) <==> reads_hole(l),
        reads_hole(Guard::CompOp(op, p, q)) <==> p.parent is Group || q.parent is Group,
        reads_hole(Guard::Port(p)) <==> p.parent is Group,
        !reads_hole(Guard::True),
{
    let or = Guard::Or(Box::new(l), Box::new(r));
    let and = Guard::And(Box::new(l), Box::new(r));
    let not = Guard::Not(Box::new(l));
    lemma_joined_holes(or, l, r);
    lemma_joined_holes(and, l, r);
    assert(not.ports() == l.ports());
    let cmp = Guard::CompOp(op, p, q);
    assert(cmp.ports() == seq![p, q]);
    assert(cmp.ports()[0] == p && cmp.ports()[1] == q);
    let port = Guard::Port(p);
    assert(port.ports() == seq![p]);
    assert(port.ports()[0] == p);
    assert(Guard::True.ports().len() == 0);
}

/// A guard can be written exactly where each of its parts can.
pub proof fn law_guard_can_be_written_where_its_parts_can(
    l: Guard,
    r: Guard,
    op: PortComp,
    p: Port,
    q: Port,
)
    ensures
        guard_readable(Guard::Or(Box::new(l), Box::new(r))) <==> guard_readable(l)
            && guard_readable(r),
        guard_readable(Guard::And(Box::new(l), Box::new(r))) <==> guard_readable(l)
            && guard_readable(r),
        guard_readable(Guard::Not(Box::new(l))) <==> guard_readable(l),
        guard_readable(Guard::CompOp(op, p, q)) <==> readable(p) && readable(q),
        guard_readable(Guard::Port(p)) <==> readable(p),
        guard_readable(Guard::True),
{
    lemma_joined_readable(Guard::Or(Box::new(l), Box::new(r)), l, r);
    lemma_joined_readable(Guard::And(Box::new(l), Box::new(r)), l, r);
    assert(Guard::Not(Box::new(l)).ports() == l.ports());
    let cmp = Guard::CompOp(op, p, q);
    assert(cmp.ports() == seq![p, q]);
    assert(cmp.ports()[0] == p && cmp.ports()[1] == q);
    let port = Guard::Port(p);
    assert(port.ports() == seq![p]);
    assert(port.ports()[0] == p);
    assert(Guard::True.ports().len() == 0);
}

/// The ports of a cell get their wires one after the other: one for each port of an instance, with
/// the name that the port is written as, its width and its direction, and none for any other.
pub proof fn law_wires_follow_the_ports(ports: Seq<Port>, p: Port)
    ensures
        port_wires(Seq::empty()) == Seq::<Wire>::empty(),
        port_wires(ports.push(p)) == (if of_instance(p) {
            port_wires(ports).push((written(p), p.width, p.direction))
        } else {
            port_wires(ports)
        }),
{
    reveal(Seq::filter_map);
    let f = |p: Port| port_wire(p);
    assert(ports.push(p) =~= ports + seq![p]);
    lemma_filter_map_add(ports, seq![p], f);
    lemma_filter_map_one(p, f);
    if of_instance(p) {
        assert(port_wires(ports) + seq![(written(p), p.width, p.direction)] =~= port_wires(
            ports,
        ).push((written(p), p.width, p.direction)));
    } else {
        assert(port_wires(ports) + Seq::<Wire>::empty() =~= port_wires(ports));
    }
}

/// The name of a port is made of that of its parent and its own.
pub proof fn law_port_name_is_parent_and_port(p: Port)
    ensures
        p.spec_canonical() == (parent_name(p), p.name@),
{
}

} // verus!
