//! Which programs the SystemVerilog backend accepts.

use crate::errors::{CalyxResult, Error, ErrorView, Pos};
use crate::ir::{Assignment, Component, Control, Group, Guard};
use vstd::prelude::*;

verus! {

/// What a result says.
pub open spec fn result_view(r: CalyxResult<()>) -> Result<(), ErrorView> {
    match r {
        Ok(()) => Ok(()),
        Err(e) => Err(e@),
    }
}

/// The guard reads a hole.
pub open spec fn reads_hole(g: Guard) -> bool {
    exists|i: int| 0 <= i < g.ports().len() && (#[trigger] g.ports()[i]).hole()
}

/// The assignment drives a hole, or its guard reads one.
pub open spec fn uses_hole(a: Assignment) -> bool {
    a.dst.hole() || reads_hole(a.guard)
}

/// The assignments of the groups, in their order.
pub open spec fn group_assignments(groups: Seq<Group>) -> Seq<Assignment>
    decreases groups.len(),
{
    if groups.len() == 0 {
        Seq::empty()
    } else {
        group_assignments(groups.drop_last()) + groups.last().assignments@
    }
}

/// The `i`th assignment uses a hole, and none before it does.
pub open spec fn first_use(asgns: Seq<Assignment>, i: int) -> bool {
    &&& 0 <= i < asgns.len()
    &&& uses_hole(asgns[i])
    &&& forall|j: int| 0 <= j < i ==> !uses_hole(#[trigger] asgns[j])
}

/// The error for a component with groups.
pub open spec fn groups_error(pos: Option<Pos>) -> ErrorView {
    ErrorView::MalformedStructure { msg: "Groups / Holes can not be turned into Verilog"@, pos }
}

/// The place of the port that the first of the assignments drives.
pub open spec fn first_pos(asgns: Seq<Assignment>) -> Option<Pos> {
    if asgns.len() == 0 {
        None
    } else {
        asgns[0].dst.attributes.span
    }
}

/// What is said of the groups of a component: an error if there are any. It is about the first
/// assignment that uses a hole, and where none does, about the first assignment.
pub open spec fn structure_result(groups: Seq<Group>) -> Result<(), ErrorView> {
    let asgns = group_assignments(groups);
    if groups.len() == 0 {
        Ok(())
    } else if exists|i: int| first_use(asgns, i) {
        Err(groups_error(asgns[choose|i: int| first_use(asgns, i)].dst.attributes.span))
    } else {
        Err(groups_error(first_pos(asgns)))
    }
}

/// What is said of the control of a component.
pub open spec fn control_result(ctrl: Control) -> Result<(), ErrorView> {
    if ctrl is Empty {
        Ok(())
    } else {
        Err(
            ErrorView::MalformedStructure {
                msg: "Control must be empty"@,
                pos: ctrl.spec_attributes().span,
            },
        )
    }
}

/// What is said of a component: of its groups, and where they are in order, of its control.
pub open spec fn component_result(comp: Component) -> Result<(), ErrorView> {
    match structure_result(comp.groups@) {
        Err(e) => Err(e),
        Ok(()) => control_result(comp.control),
    }
}

/// What is said of the components: what is said of the first that is not in order.
pub open spec fn program_result(comps: Seq<Component>) -> Result<(), ErrorView>
    decreases comps.len(),
{
    if comps.len() == 0 {
        Ok(())
    } else {
        match program_result(comps.drop_last()) {
            Err(e) => Err(e),
            Ok(()) => component_result(comps.last()),
        }
    }
}

/// Checks that there are no holes being used in a guard.
pub fn validate_guard(guard: &Guard) -> (valid: bool)
    ensures
        valid == !reads_hole(*guard),
    decreases *guard,
{
    match guard {
        Guard::Or(l, r) | Guard::And(l, r) => {
            proof {
                lemma_joined_holes(*guard, **l, **r);
            }
            validate_guard(l) && validate_guard(r)
        },
        Guard::CompOp(_, l, r) => {
            assert(guard.ports()[0] == *l && guard.ports()[1] == *r);
            !l.is_hole() && !r.is_hole()
        },
        Guard::Not(inner) => {
            assert(guard.ports() == inner.ports());
            validate_guard(inner)
        },
        Guard::Port(port) => {
            assert(guard.ports()[0] == *port);
            !port.is_hole()
        },
        Guard::True => {
            assert(guard.ports().len() == 0);
            true
        },
    }
}

/// A guard that joins two reads a hole where one of the two does.
pub(crate) proof fn lemma_joined_holes(g: Guard, l: Guard, r: Guard)
    requires
        g.ports() == l.ports() + r.ports(),
    ensures
        reads_hole(g) <==> reads_hole(l) || reads_hole(r),
{
    let n = l.ports().len() as int;
    if reads_hole(g) {
        let i = choose|i: int| 0 <= i < g.ports().len() && (#[trigger] g.ports()[i]).hole();
        if i < n {
            assert(l.ports()[i].hole());
        } else {
            assert(r.ports()[i - n].hole());
        }
    }
    if reads_hole(l) {
        let i = choose|i: int| 0 <= i < l.ports().len() && (#[trigger] l.ports()[i]).hole();
        assert(g.ports()[i].hole());
    }
    if reads_hole(r) {
        let i = choose|i: int| 0 <= i < r.ports().len() && (#[trigger] r.ports()[i]).hole();
        assert(g.ports()[n + i].hole());
    }
}

/// The assignments of the first groups are the first of the assignments of all.
pub(crate) proof fn lemma_group_assignments_take(groups: Seq<Group>, i: int, j: int)
    requires
        0 <= i < groups.len(),
        0 <= j < groups[i].assignments@.len(),
    ensures
        group_assignments(groups.take(i)).len() + j < group_assignments(groups).len(),
        group_assignments(groups)[group_assignments(groups.take(i)).len() + j]
            == groups[i].assignments@[j],
        forall|k: int|
            0 <= k < group_assignments(groups.take(i)).len() ==> (#[trigger] group_assignments(
                groups,
            )[k]) == group_assignments(groups.take(i))[k],
    decreases groups.len(),
{
    let rest = groups.drop_last();
    if i < rest.len() {
        assert(rest.take(i) =~= groups.take(i));
        lemma_group_assignments_take(rest, i, j);
    } else {
        assert(groups.take(i) =~= rest);
    }
}

/// The error for a component with groups.
fn malformed_groups(pos: Option<Pos>) -> (e: Error)
    ensures
        e@ == groups_error(pos),
{
    Error::malformed_structure(
        "Groups / Holes can not be turned into Verilog".to_string(),
    ).with_pos(pos)
}

/// Returns `Ok` if there are no groups defined. The error for groups is about the first assignment
/// that drives a hole or reads one in its guard, and where none does, about the first assignment.
pub fn validate_structure(groups: &Vec<Group>) -> (r: CalyxResult<()>)
    ensures
        result_view(r) == structure_result(groups@),
        r is Ok <==> groups@.len() == 0,
        forall|i: int| #[trigger]
            first_use(group_assignments(groups@), i) ==> result_view(r) == Err::<(), ErrorView>(
                groups_error(group_assignments(groups@)[i].dst.attributes.span),
            ),
{
    if groups.len() == 0 {
        return Ok(());
    }
    let ghost all = group_assignments(groups@);
    let mut found = false;
    let mut pos: Option<Pos> = None;
    let mut i: usize = 0;
    while i < groups.len()
        invariant
            i <= groups@.len(),
            groups@.len() > 0,
            all == group_assignments(groups@),
            found == (group_assignments(groups@.take(i as int)).len() > 0),
            pos == first_pos(group_assignments(groups@.take(i as int))),
            forall|k: int|
                0 <= k < group_assignments(groups@.take(i as int)).len() ==> !uses_hole(
                    #[trigger] group_assignments(groups@.take(i as int))[k],
                ),
        decreases groups@.len() - i,
    {
        let ghost seen = group_assignments(groups@.take(i as int));
        let asgns = &groups[i].assignments;
        if !found && asgns.len() > 0 {
            pos = asgns[0].dst.attributes.span;
            found = true;
        }
        let mut j: usize = 0;
        while j < asgns.len()
            invariant
                i < groups@.len(),
                j <= asgns@.len(),
                groups@.len() > 0,
                asgns@ == groups@[i as int].assignments@,
                all == group_assignments(groups@),
                seen == group_assignments(groups@.take(i as int)),
                forall|k: int| 0 <= k < seen.len() ==> !uses_hole(#[trigger] seen[k]),
                forall|k: int| 0 <= k < j ==> !uses_hole(#[trigger] asgns@[k]),
            decreases asgns@.len() - j,
        {
            let asgn = &asgns[j];
            if asgn.dst.is_hole() || !validate_guard(&asgn.guard) {
                proof {
                    lemma_group_assignments_take(groups@, i as int, j as int);
                    let at = seen.len() + j as int;
                    assert forall|k: int| 0 <= k < at implies !uses_hole(#[trigger] all[k]) by {
                        if k >= seen.len() {
                            lemma_group_assignments_take(groups@, i as int, k - seen.len());
                        }
                    }
                    assert(first_use(all, at));
                    let chosen = choose|n: int| first_use(all, n);
                    assert(first_use(all, chosen));
                    assert(chosen == at);
                }
                return Err(malformed_groups(asgn.dst.attributes.span));
            }
            j += 1;
        }
        assert(groups@.take(i + 1).drop_last() =~= groups@.take(i as int));
        i += 1;
    }
    assert(groups@.take(i as int) =~= groups@);
    Err(malformed_groups(pos))
}

/// Returns `Ok` if the control of a component is empty.
pub fn validate_control(ctrl: &Control) -> (r: CalyxResult<()>)
    ensures
        result_view(r) == control_result(*ctrl),
{
    match ctrl {
        Control::Empty { .. } => Ok(()),
        c => Err(
            Error::malformed_structure("Control must be empty".to_string()).with_pos(
                c.attributes().span,
            ),
        ),
    }
}

/// Returns `Ok` if every component of the program is in order.
pub fn validate_components(comps: &Vec<Component>) -> (r: CalyxResult<()>)
    ensures
        result_view(r) == program_result(comps@),
{
    let mut i: usize = 0;
    while i < comps.len()
        invariant
            i <= comps@.len(),
            program_result(comps@.take(i as int)) is Ok,
        decreases comps@.len() - i,
    {
        assert(comps@.take(i + 1).drop_last() =~= comps@.take(i as int));
        if let Err(e) = validate_structure(&comps[i].groups) {
            proof {
                lemma_first_error(comps@, i as int);
            }
            return Err(e);
        }
        if let Err(e) = validate_control(&comps[i].control) {
            proof {
                lemma_first_error(comps@, i as int);
            }
            return Err(e);
        }
        i += 1;
    }
    assert(comps@.take(i as int) =~= comps@);
    Ok(())
}

/// What is said of the first component that is not in order is said of all of them.
pub(crate) proof fn lemma_first_error(comps: Seq<Component>, i: int)
    requires
        0 <= i < comps.len(),
        program_result(comps.take(i)) is Ok,
        component_result(comps[i]) is Err,
    ensures
        program_result(comps) == component_result(comps[i]),
    decreases comps.len(),
{
    let rest = comps.drop_last();
    if i < rest.len() {
        assert(rest.take(i) =~= comps.take(i));
        lemma_first_error(rest, i);
    } else {
        assert(rest =~= comps.take(i));
    }
}

} // verus!
