//! What drives the ports, and what is checked of them.

use crate::backend::facts::{
    ascending, derefs, group_names, holds_drivers, lemma_driven, lemma_drivers_name,
    lemma_name_lt_irreflexive, DrivenPort,
};
use crate::backend::laws::ports::{parent_name, same_port, written};
use crate::backend::laws::sections::{continuous, lemma_sections, processes};
use crate::backend::laws::{
    law_first_active_assignment_drives, law_inactive_port_is_zero, selected,
};
use crate::backend::model::{
    assign, checks, component_module, disjoint_check, driven, drivers, guard_expr, guard_exprs,
    mux_chain, name_lt, port_check, port_expr, zero, PortName,
};
use crate::ir::{Assignment, BackendConf, Component, Port};
use crate::text::{law_decimal_reads_back, text_lt};
use crate::verilog_ast::{ExprView, ParallelView, Radix, SequentialView};
use vstd::prelude::*;

verus! {

/// `places` are those of all assignments to the port that the `k`th drives, from first to last.
pub open spec fn lists_drivers(asgns: Seq<Assignment>, k: int, places: Seq<int>) -> bool {
    &&& 0 <= k < asgns.len()
    &&& forall|i: int|
        0 <= i < places.len() ==> 0 <= #[trigger] places[i] < asgns.len() && same_port(
            asgns[places[i]].dst,
            asgns[k].dst,
        )
    &&& forall|i: int, j: int|
        0 <= i < j < places.len() ==> #[trigger] places[i] < #[trigger] places[j]
    &&& forall|m: int|
        0 <= m < asgns.len() && same_port((#[trigger] asgns[m]).dst, asgns[k].dst)
            ==> places.contains(m)
}

/// The `k`th assignment is the first to the port that it drives.
pub open spec fn first_to_port(asgns: Seq<Assignment>, k: int) -> bool {
    &&& 0 <= k < asgns.len()
    &&& forall|m: int| 0 <= m < k ==> !same_port((#[trigger] asgns[m]).dst, asgns[k].dst)
}

/// The `k`th assignment is the first to its port, and not the only one.
pub open spec fn first_of_several(asgns: Seq<Assignment>, k: int) -> bool {
    &&& first_to_port(asgns, k)
    &&& exists|m: int|
        k < m < asgns.len() && same_port((#[trigger] asgns[m]).dst, asgns[k].dst)
}

/// The name of one port comes before that of the other: by the parents, and for the same parent by
/// the ports.
pub open spec fn named_before(p: Port, q: Port) -> bool {
    text_lt(parent_name(p), parent_name(q)) || (parent_name(p) == parent_name(q) && text_lt(
        p.name@,
        q.name@,
    ))
}

/// The guard of the `i`th of the assignments at `places` holds, and that of none before it.
pub open spec fn first_active(
    asgns: Seq<Assignment>,
    places: Seq<int>,
    holds: spec_fn(ExprView) -> bool,
    i: int,
) -> bool {
    &&& 0 <= i < places.len()
    &&& holds(guard_expr(asgns[places[i]].guard))
    &&& forall|j: int| 0 <= j < i ==> !holds(guard_expr(asgns[#[trigger] places[j]].guard))
}

/// No guard of the assignments at `places` holds.
pub open spec fn none_active(
    asgns: Seq<Assignment>,
    places: Seq<int>,
    holds: spec_fn(ExprView) -> bool,
) -> bool {
    forall|j: int| 0 <= j < places.len() ==> !holds(guard_expr(asgns[#[trigger] places[j]].guard))
}

/// A continuous assignment does what the assignments at `places` ask for: its target is the port
/// that they drive, and it gets the source of the first whose guard holds, and zero, in the width
/// of the port, where none does.
pub open spec fn does(
    stmt: (ExprView, ExprView),
    asgns: Seq<Assignment>,
    places: Seq<int>,
) -> bool {
    let dst = asgns[places[0]].dst;
    &&& stmt.0 == port_expr(dst)
    &&& forall|holds: spec_fn(ExprView) -> bool, i: int| #[trigger]
        first_active(asgns, places, holds, i) ==> selected(stmt.1, holds) == port_expr(
            asgns[places[i]].src,
        )
    &&& forall|holds: spec_fn(ExprView) -> bool| #[trigger]
        none_active(asgns, places, holds) ==> selected(stmt.1, holds) == ExprView::ULit(
            dst.width as u32,
            Radix::Dec,
            seq!['0'],
        )
}

/// A statement reports where two of the guards of the assignments at `places` hold at once.
pub open spec fn checks_guards(
    stmt: SequentialView,
    asgns: Seq<Assignment>,
    places: Seq<int>,
) -> bool {
    exists|guards: Seq<ExprView>|
        {
            &&& guards.len() == places.len()
            &&& forall|i: int|
                0 <= i < places.len() ==> #[trigger] guards[i] == guard_expr(
                    asgns[places[i]].guard,
                )
            &&& stmt == #[trigger] report(guards, asgns[places[0]].dst)
        }
}

/// The statement that reports a conflict on `dst` unless at most one of the guards holds.
pub open spec fn report(guards: Seq<ExprView>, dst: Port) -> SequentialView {
    SequentialView::If(
        ExprView::Not(
            Box::new(ExprView::Call("$onehot0"@, seq![ExprView::Concat(guards)])),
        ),
        seq![
            SequentialView::SeqExpr(
                ExprView::Call(
                    "$error"@,
                    seq![ExprView::Str("Multiple assignments to "@ + written(dst))],
                ),
            ),
        ],
    )
}

/// The names of ports are equal exactly where the ports are the same.
proof fn lemma_same_port(p: Port, q: Port)
    ensures
        same_port(p, q) <==> p.spec_canonical() == q.spec_canonical(),
        named_before(p, q) <==> name_lt(p.spec_canonical(), q.spec_canonical()),
{
}

/// The assignments that drive the port of a name are those at the places where it is driven.
proof fn lemma_drivers_at(asgns: Seq<Assignment>, name: PortName, places: Seq<int>)
    requires
        forall|i: int|
            0 <= i < places.len() ==> 0 <= #[trigger] places[i] < asgns.len()
                && asgns[places[i]].dst.spec_canonical() == name,
        forall|i: int, j: int|
            0 <= i < j < places.len() ==> #[trigger] places[i] < #[trigger] places[j],
        forall|m: int|
            0 <= m < asgns.len() && (#[trigger] asgns[m]).dst.spec_canonical() == name
                ==> places.contains(m),
    ensures
        drivers(asgns, name) == places.map_values(|m: int| asgns[m]),
    decreases asgns.len(),
{
    reveal(Seq::filter);
    if asgns.len() == 0 {
        if places.len() > 0 {
            assert(0 <= places[0] < asgns.len());
        }
        assert(drivers(asgns, name) =~= places.map_values(|m: int| asgns[m]));
    } else {
        let rest = asgns.drop_last();
        let n = asgns.len() - 1;
        if asgns[n].dst.spec_canonical() == name {
            assert(places.contains(n));
            let at = places.index_of(n);
            assert(places[at] == n);
            assert(at == places.len() - 1) by {
                if at < places.len() - 1 {
                    assert(places[at] < places[places.len() - 1]);
                }
            }
            let front = places.drop_last();
            assert forall|m: int|
                0 <= m < rest.len() && (#[trigger] rest[m]).dst.spec_canonical()
                    == name implies front.contains(m) by {
                assert(asgns[m] == rest[m]);
                let i = places.index_of(m);
                assert(places[i] == m);
                assert(front[i] == m);
            }
            assert forall|i: int| 0 <= i < front.len() implies 0 <= #[trigger] front[i]
                < rest.len() && rest[front[i]].dst.spec_canonical() == name by {
                assert(front[i] == places[i]);
                assert(places[i] < places[at]);
            }
            lemma_drivers_at(rest, name, front);
            assert(drivers(asgns, name) == drivers(rest, name).push(asgns[n]));
            assert(drivers(asgns, name) =~= places.map_values(|m: int| asgns[m]));
        } else {
            assert forall|i: int| 0 <= i < places.len() implies 0 <= #[trigger] places[i]
                < rest.len() && rest[places[i]].dst.spec_canonical() == name by {
                assert(places[i] != n);
            }
            assert forall|m: int|
                0 <= m < rest.len() && (#[trigger] rest[m]).dst.spec_canonical()
                    == name implies places.contains(m) by {
                assert(asgns[m] == rest[m]);
            }
            lemma_drivers_at(rest, name, places);
            assert(drivers(asgns, name) == drivers(rest, name));
            assert(drivers(asgns, name) =~= places.map_values(|m: int| asgns[m]));
        }
    }
}

/// The places of all assignments to a port can be listed.
pub proof fn law_drivers_can_be_listed(asgns: Seq<Assignment>, k: int) -> (places: Seq<int>)
    requires
        0 <= k < asgns.len(),
    ensures
        lists_drivers(asgns, k, places),
        places.len() > 0,
{
    let places = lemma_places(asgns, asgns[k].dst);
    assert(places.contains(k));
    places
}

/// The places of the assignments to a port.
proof fn lemma_places(asgns: Seq<Assignment>, dst: Port) -> (places: Seq<int>)
    ensures
        forall|i: int|
            0 <= i < places.len() ==> 0 <= #[trigger] places[i] < asgns.len() && same_port(
                asgns[places[i]].dst,
                dst,
            ),
        forall|i: int, j: int|
            0 <= i < j < places.len() ==> #[trigger] places[i] < #[trigger] places[j],
        forall|m: int|
            0 <= m < asgns.len() && same_port((#[trigger] asgns[m]).dst, dst) ==> places.contains(
                m,
            ),
    decreases asgns.len(),
{
    if asgns.len() == 0 {
        Seq::empty()
    } else {
        let rest = asgns.drop_last();
        let n = asgns.len() - 1;
        let front = lemma_places(rest, dst);
        let places = if same_port(asgns[n].dst, dst) {
            front.push(n)
        } else {
            front
        };
        assert forall|i: int| 0 <= i < places.len() implies 0 <= #[trigger] places[i]
            < asgns.len() && same_port(asgns[places[i]].dst, dst) by {
            if i < front.len() {
                assert(places[i] == front[i]);
                assert(rest[front[i]] == asgns[front[i]]);
            }
        }
        assert forall|i: int, j: int| 0 <= i < j < places.len() implies #[trigger] places[i]
            < #[trigger] places[j] by {
            assert(places[i] == front[i]);
            if j < front.len() {
                assert(places[j] == front[j]);
            }
        }
        assert forall|m: int|
            0 <= m < asgns.len() && same_port(
                (#[trigger] asgns[m]).dst,
                dst,
            ) implies places.contains(m) by {
            if m < n {
                assert(rest[m] == asgns[m]);
                assert(front.contains(m));
                assert(places[front.index_of(m)] == m);
            } else {
                assert(places[front.len() as int] == n);
            }
        }
        places
    }
}

/// The first of the assignments to the port of a driven name.
pub(crate) proof fn lemma_first_to_name(asgns: Seq<Assignment>, name: PortName) -> (k: int)
    requires
        drivers(asgns, name).len() > 0,
    ensures
        first_to_port(asgns, k),
        asgns[k].dst.spec_canonical() == name,
{
    lemma_drivers_name(asgns, name, 0);
    let at = asgns.index_of(drivers(asgns, name)[0]);
    let places = law_drivers_can_be_listed(asgns, at);
    let k = places[0];
    lemma_same_port(asgns[k].dst, asgns[at].dst);
    assert forall|m: int| 0 <= m < k implies !same_port(
        (#[trigger] asgns[m]).dst,
        asgns[k].dst,
    ) by {
        if same_port(asgns[m].dst, asgns[k].dst) {
            assert(places.contains(m));
            let i = places.index_of(m);
            assert(places[i] == m);
            if i > 0 {
                assert(places[0] < places[i]);
            }
        }
    }
    k
}

/// The assignments to the port of a name are those at the places that are listed.
pub(crate) proof fn lemma_listed(asgns: Seq<Assignment>, k: int, places: Seq<int>)
    requires
        lists_drivers(asgns, k, places),
    ensures
        drivers(asgns, asgns[k].dst.spec_canonical()) == places.map_values(|m: int| asgns[m]),
        places.len() > 0,
        first_to_port(asgns, k) ==> places[0] == k,
{
    let name = asgns[k].dst.spec_canonical();
    assert forall|i: int| 0 <= i < places.len() implies 0 <= #[trigger] places[i] < asgns.len()
        && asgns[places[i]].dst.spec_canonical() == name by {
        lemma_same_port(asgns[places[i]].dst, asgns[k].dst);
    }
    assert forall|m: int|
        0 <= m < asgns.len() && (#[trigger] asgns[m]).dst.spec_canonical()
            == name implies places.contains(m) by {
        lemma_same_port(asgns[m].dst, asgns[k].dst);
    }
    lemma_drivers_at(asgns, name, places);
    assert(places.contains(k));
    let at = places.index_of(k);
    assert(places[at] == k);
    if first_to_port(asgns, k) && at > 0 {
        assert(places[0] < places[at]);
        assert(same_port(asgns[places[0]].dst, asgns[k].dst));
    }
}

/// The statement for the drivers of a port does what they ask for.
proof fn lemma_chain_does(asgns: Seq<Assignment>, places: Seq<int>)
    requires
        places.len() > 0,
    ensures
        ({
            let ds = places.map_values(|m: int| asgns[m]);
            does(
                (port_expr(ds[0].dst), mux_chain(ds, zero(ds[0].dst.width as u32))),
                asgns,
                places,
            )
        }),
{
    let ds = places.map_values(|m: int| asgns[m]);
    let width = ds[0].dst.width as u32;
    let rhs = mux_chain(ds, zero(width));
    assert(ds[0] == asgns[places[0]]);
    law_decimal_reads_back(0);
    assert forall|holds: spec_fn(ExprView) -> bool, i: int| #[trigger]
        first_active(asgns, places, holds, i) implies selected(rhs, holds) == port_expr(
        asgns[places[i]].src,
    ) by {
        assert(ds[i] == asgns[places[i]]);
        assert forall|j: int| 0 <= j < i implies !holds(guard_expr((#[trigger] ds[j]).guard)) by {
            assert(ds[j] == asgns[places[j]]);
        }
        law_first_active_assignment_drives(ds, width, holds, i);
    }
    assert forall|holds: spec_fn(ExprView) -> bool| #[trigger]
        none_active(asgns, places, holds) implies selected(rhs, holds) == ExprView::ULit(
        width,
        Radix::Dec,
        seq!['0'],
    ) by {
        assert forall|j: int| 0 <= j < ds.len() implies !holds(
            guard_expr((#[trigger] ds[j]).guard),
        ) by {
            assert(ds[j] == asgns[places[j]]);
        }
        law_inactive_port_is_zero(ds, width, holds);
    }
}

/// The first assignments to the ports of ascending names.
proof fn lemma_firsts(asgns: Seq<Assignment>, names: Seq<PortName>) -> (firsts: Seq<int>)
    requires
        ascending(names),
        forall|t: int| 0 <= t < names.len() ==> drivers(asgns, #[trigger] names[t]).len() > 0,
    ensures
        firsts.len() == names.len(),
        forall|t: int|
            0 <= t < firsts.len() ==> first_to_port(asgns, #[trigger] firsts[t])
                && asgns[firsts[t]].dst.spec_canonical() == names[t],
        forall|t: int, u: int|
            0 <= t < u < firsts.len() ==> named_before(
                asgns[#[trigger] firsts[t]].dst,
                asgns[#[trigger] firsts[u]].dst,
            ),
{
    let firsts = Seq::new(
        names.len(),
        |t: int|
            choose|k: int| #[trigger]
                first_to_port(asgns, k) && asgns[k].dst.spec_canonical() == names[t],
    );
    assert forall|t: int| 0 <= t < firsts.len() implies first_to_port(asgns, #[trigger] firsts[t])
        && asgns[firsts[t]].dst.spec_canonical() == names[t] by {
        assert(drivers(asgns, names[t]).len() > 0);
        let k = lemma_first_to_name(asgns, names[t]);
        assert(first_to_port(asgns, k) && asgns[k].dst.spec_canonical() == names[t]);
    }
    assert forall|t: int, u: int| 0 <= t < u < firsts.len() implies named_before(
        asgns[#[trigger] firsts[t]].dst,
        asgns[#[trigger] firsts[u]].dst,
    ) by {
        assert(name_lt(names[t], names[u]));
        lemma_same_port(asgns[firsts[t]].dst, asgns[firsts[u]].dst);
    }
    firsts
}

/// Only one assignment is the first to a port.
proof fn lemma_one_first(asgns: Seq<Assignment>, k: int, m: int)
    requires
        first_to_port(asgns, k),
        first_to_port(asgns, m),
        same_port(asgns[k].dst, asgns[m].dst),
    ensures
        k == m,
{
    if k < m {
        assert(same_port(asgns[k].dst, asgns[m].dst));
    } else if m < k {
        assert(same_port(asgns[m].dst, asgns[k].dst));
    }
}

/// A module drives each port that has an assignment by one statement, made of all its assignments,
/// and drives nothing else. The statements come in the order of the names of the ports: `firsts`
/// are the places of the first assignments to them.
pub proof fn law_each_port_is_driven_by_all_its_assignments(
    comp: Component,
    bc: BackendConf,
) -> (firsts: Seq<int>)
    ensures
        ({
            let asgns = comp.continuous_assignments@;
            let stmts = continuous(component_module(comp, bc));
            &&& stmts.len() == firsts.len()
            &&& forall|t: int|
                0 <= t < firsts.len() ==> first_to_port(asgns, #[trigger] firsts[t])
            &&& forall|k: int| #[trigger] first_to_port(asgns, k) ==> firsts.contains(k)
            &&& forall|t: int, u: int|
                0 <= t < u < firsts.len() ==> named_before(
                    asgns[#[trigger] firsts[t]].dst,
                    asgns[#[trigger] firsts[u]].dst,
                )
            &&& forall|t: int, places: Seq<int>|
                0 <= t < firsts.len() && #[trigger] lists_drivers(asgns, firsts[t], places)
                    ==> does(stmts[t], asgns, places)
        }),
{
    lemma_sections(comp, bc);
    let asgns = comp.continuous_assignments@;
    let names = driven(asgns);
    lemma_driven(asgns);
    assert forall|t: int| 0 <= t < names.len() implies drivers(asgns, #[trigger] names[t]).len()
        > 0 by {
        assert(names.contains(names[t]));
    }
    let firsts = lemma_firsts(asgns, names);
    let stmts = continuous(component_module(comp, bc));
    assert forall|k: int| #[trigger] first_to_port(asgns, k) implies firsts.contains(k) by {
        let name = asgns[k].dst.spec_canonical();
        let places = law_drivers_can_be_listed(asgns, k);
        lemma_listed(asgns, k, places);
        assert(names.contains(name));
        let t = names.index_of(name);
        assert(names[t] == name);
        lemma_same_port(asgns[firsts[t]].dst, asgns[k].dst);
        lemma_one_first(asgns, firsts[t], k);
        assert(firsts[t] == k);
    }
    assert forall|t: int, places: Seq<int>|
        0 <= t < firsts.len() && #[trigger] lists_drivers(asgns, firsts[t], places) implies does(
        stmts[t],
        asgns,
        places,
    ) by {
        lemma_listed(asgns, firsts[t], places);
        lemma_chain_does(asgns, places);
        assert(drivers(asgns, names[t]) == places.map_values(|m: int| asgns[m]));
    }
    firsts
}

/// A port is driven by exactly one statement, as long as no port of another name is written in the
/// same way. It does what all the assignments to the port ask for.
pub proof fn law_one_statement_drives_a_port(
    comp: Component,
    bc: BackendConf,
    k: int,
    places: Seq<int>,
)
    requires
        first_to_port(comp.continuous_assignments@, k),
        lists_drivers(comp.continuous_assignments@, k, places),
        forall|m: int|
            0 <= m < comp.continuous_assignments@.len() && !same_port(
                (#[trigger] comp.continuous_assignments@[m]).dst,
                comp.continuous_assignments@[k].dst,
            ) ==> port_expr(comp.continuous_assignments@[m].dst) != port_expr(
                comp.continuous_assignments@[k].dst,
            ),
    ensures
        ({
            let asgns = comp.continuous_assignments@;
            let stmts = continuous(component_module(comp, bc));
            exists|s: int|
                {
                    &&& 0 <= s < stmts.len()
                    &&& does(#[trigger] stmts[s], asgns, places)
                    &&& forall|t: int|
                        0 <= t < stmts.len() && (#[trigger] stmts[t]).0 == port_expr(asgns[k].dst)
                            ==> t == s
                }
        }),
{
    let asgns = comp.continuous_assignments@;
    let stmts = continuous(component_module(comp, bc));
    let firsts = law_each_port_is_driven_by_all_its_assignments(comp, bc);
    assert(firsts.contains(k));
    let s = firsts.index_of(k);
    assert(firsts[s] == k);
    assert(lists_drivers(asgns, firsts[s], places));
    assert(does(stmts[s], asgns, places));
    assert forall|t: int|
        0 <= t < stmts.len() && (#[trigger] stmts[t]).0 == port_expr(asgns[k].dst) implies t
        == s by {
        let f = firsts[t];
        assert(first_to_port(asgns, f));
        let others = law_drivers_can_be_listed(asgns, f);
        lemma_listed(asgns, f, others);
        assert(lists_drivers(asgns, firsts[t], others));
        assert(does(stmts[t], asgns, others));
        assert(same_port(asgns[f].dst, asgns[k].dst));
        lemma_one_first(asgns, f, k);
        lemma_same_port(asgns[f].dst, asgns[k].dst);
        lemma_name_lt_irreflexive(asgns[k].dst.spec_canonical());
        if t < s {
            assert(named_before(asgns[firsts[t]].dst, asgns[firsts[s]].dst));
        } else if s < t {
            assert(named_before(asgns[firsts[s]].dst, asgns[firsts[t]].dst));
        }
    }
}

/// Assignments that are grouped by port: one group for each port that has one, in the order of the
/// names, with all the assignments to the port in their order, and the port of the first.
pub proof fn law_groups_hold_all_assignments(asgns: Seq<Assignment>, groups: Seq<DrivenPort>)
    requires
        group_names(groups) == driven(asgns),
        forall|t: int|
            0 <= t < groups.len() ==> holds_drivers(
                asgns,
                #[trigger] groups[t],
                driven(asgns)[t],
            ),
    ensures
        forall|k: int| #[trigger]
            first_to_port(asgns, k) ==> exists|t: int|
                0 <= t < groups.len() && *(#[trigger] groups[t]).0 == asgns[k].dst,
        forall|t: int, k: int, places: Seq<int>|
            0 <= t < groups.len() && #[trigger] lists_drivers(asgns, k, places) && same_port(
                *(#[trigger] groups[t]).0,
                asgns[k].dst,
            ) ==> {
                &&& groups[t].1@.len() == places.len()
                &&& *groups[t].0 == asgns[places[0]].dst
                &&& forall|i: int|
                    0 <= i < places.len() ==> *(#[trigger] groups[t].1@[i]) == asgns[places[i]]
            },
        forall|t: int, u: int|
            0 <= t < u < groups.len() ==> named_before(
                *(#[trigger] groups[t]).0,
                *(#[trigger] groups[u]).0,
            ),
{
    let names = driven(asgns);
    lemma_driven(asgns);
    assert(group_names(groups).len() == groups.len());
    assert forall|t: int| 0 <= t < groups.len() implies (#[trigger] groups[t]).0.spec_canonical()
        == names[t] by {
        assert(group_names(groups)[t] == groups[t].0.spec_canonical());
    }
    assert forall|k: int| #[trigger] first_to_port(asgns, k) implies exists|t: int|
        0 <= t < groups.len() && *(#[trigger] groups[t]).0 == asgns[k].dst by {
        let places = law_drivers_can_be_listed(asgns, k);
        lemma_listed(asgns, k, places);
        let name = asgns[k].dst.spec_canonical();
        assert(names.contains(name));
        let t = names.index_of(name);
        assert(names[t] == name);
        assert(holds_drivers(asgns, groups[t], names[t]));
        assert(derefs(groups[t].1@)[0] == *groups[t].1@[0]);
        assert(*groups[t].0 == asgns[k].dst);
    }
    assert forall|t: int, k: int, places: Seq<int>|
        0 <= t < groups.len() && #[trigger] lists_drivers(asgns, k, places) && same_port(
            *(#[trigger] groups[t]).0,
            asgns[k].dst,
        ) implies {
        &&& groups[t].1@.len() == places.len()
        &&& *groups[t].0 == asgns[places[0]].dst
        &&& forall|i: int|
            0 <= i < places.len() ==> *(#[trigger] groups[t].1@[i]) == asgns[places[i]]
    } by {
        lemma_same_port(*groups[t].0, asgns[k].dst);
        lemma_listed(asgns, k, places);
        assert(holds_drivers(asgns, groups[t], names[t]));
        let members = derefs(groups[t].1@);
        assert(members == places.map_values(|m: int| asgns[m]));
        assert(members.len() == groups[t].1@.len());
        assert(members[0] == *groups[t].1@[0]);
        assert forall|i: int| 0 <= i < places.len() implies *(#[trigger] groups[t].1@[i])
            == asgns[places[i]] by {
            assert(members[i] == asgns[places[i]]);
        }
    }
    assert forall|t: int, u: int| 0 <= t < u < groups.len() implies named_before(
        *(#[trigger] groups[t]).0,
        *(#[trigger] groups[u]).0,
    ) by {
        assert(name_lt(names[t], names[u]));
        lemma_same_port(*groups[t].0, *groups[u].0);
    }
}

/// One more assignment in front takes its source while its guard holds, and leaves the rest as it
/// was otherwise. Without assignments the port is zero.
pub proof fn law_assignment_in_front_comes_first(
    dst: Port,
    asgn: Assignment,
    rest: Seq<Assignment>,
)
    ensures
        assign(dst, Seq::empty()) == ParallelView::Assign(
            port_expr(dst),
            ExprView::ULit(dst.width as u32, Radix::Dec, seq!['0']),
        ),
        assign(dst, rest) is Assign,
        assign(dst, seq![asgn] + rest) == ParallelView::Assign(
            port_expr(dst),
            ExprView::Mux(
                Box::new(guard_expr(asgn.guard)),
                Box::new(port_expr(asgn.src)),
                Box::new(assign(dst, rest)->Assign_1),
            ),
        ),
{
    law_decimal_reads_back(0);
    assert((seq![asgn] + rest).drop_first() =~= rest);
    assert((seq![asgn] + rest)[0] == asgn);
}

/// The names with several drivers, and the checks on them.
proof fn lemma_several(asgns: Seq<Assignment>, names: Seq<PortName>) -> (several: Seq<PortName>)
    requires
        ascending(names),
    ensures
        ascending(several),
        forall|t: int|
            0 <= t < several.len() ==> drivers(asgns, #[trigger] several[t]).len() > 1
                && names.contains(several[t]),
        forall|n: PortName|
            names.contains(n) && drivers(asgns, n).len() > 1 ==> #[trigger] several.contains(n),
        checks(asgns, names).len() == several.len(),
        forall|t: int|
            0 <= t < several.len() ==> Some(checks(asgns, names)[t]) == disjoint_check(
                drivers(asgns, #[trigger] several[t])[0].dst,
                drivers(asgns, several[t]),
            ),
    decreases names.len(),
{
    reveal(Seq::filter_map);
    if names.len() == 0 {
        Seq::empty()
    } else {
        let rest = names.drop_last();
        let last = names.last();
        let front = lemma_several(asgns, rest);
        let ds = drivers(asgns, last);
        assert(port_check(asgns, last) == disjoint_check(ds[0].dst, ds));
        let several = if ds.len() > 1 {
            front.push(last)
        } else {
            front
        };
        assert forall|i: int, j: int| 0 <= i < j < several.len() implies name_lt(
            #[trigger] several[i],
            #[trigger] several[j],
        ) by {
            assert(several[i] == front[i]);
            if j < front.len() {
                assert(several[j] == front[j]);
            } else {
                assert(rest.contains(front[i]));
                let x = rest.index_of(front[i]);
                assert(names[x] == front[i]);
                assert(name_lt(names[x], names[names.len() - 1]));
            }
        }
        assert forall|t: int| 0 <= t < several.len() implies drivers(
            asgns,
            #[trigger] several[t],
        ).len() > 1 && names.contains(several[t]) by {
            if t < front.len() {
                assert(several[t] == front[t]);
                assert(rest.contains(front[t]));
                assert(names[rest.index_of(front[t])] == front[t]);
            } else {
                assert(names[names.len() - 1] == last);
            }
        }
        assert forall|n: PortName|
            names.contains(n) && drivers(asgns, n).len() > 1 implies #[trigger] several.contains(
            n,
        ) by {
            let x = names.index_of(n);
            assert(names[x] == n);
            if x < rest.len() {
                assert(rest[x] == n);
                assert(front.contains(n));
                assert(several[front.index_of(n)] == n);
            } else {
                assert(several[front.len() as int] == last);
            }
        }
        assert(checks(asgns, names).len() == several.len());
        assert forall|t: int| 0 <= t < several.len() implies Some(checks(asgns, names)[t])
            == disjoint_check(
            drivers(asgns, #[trigger] several[t])[0].dst,
            drivers(asgns, several[t]),
        ) by {
            if t < front.len() {
                assert(several[t] == front[t]);
                assert(checks(asgns, names)[t] == checks(asgns, rest)[t]);
            }
        }
        several
    }
}

/// With verification on, a module for simulation checks each port that has more than one
/// assignment, looks at the guards of all of them, and checks nothing else. The checks come in the
/// order of the names of the ports: `firsts` are the places of the first assignments to them.
pub proof fn law_each_contended_port_is_checked(
    comp: Component,
    bc: BackendConf,
) -> (firsts: Seq<int>)
    requires
        bc.enable_verification,
        !bc.synthesis_mode,
    ensures
        ({
            let asgns = comp.continuous_assignments@;
            let stmts = processes(component_module(comp, bc)).last().body;
            &&& stmts.len() == firsts.len()
            &&& forall|t: int|
                0 <= t < firsts.len() ==> first_of_several(asgns, #[trigger] firsts[t])
            &&& forall|k: int| #[trigger] first_of_several(asgns, k) ==> firsts.contains(k)
            &&& forall|t: int, u: int|
                0 <= t < u < firsts.len() ==> named_before(
                    asgns[#[trigger] firsts[t]].dst,
                    asgns[#[trigger] firsts[u]].dst,
                )
            &&& forall|t: int, places: Seq<int>|
                0 <= t < firsts.len() && #[trigger] lists_drivers(asgns, firsts[t], places)
                    ==> checks_guards(stmts[t], asgns, places)
        }),
{
    lemma_sections(comp, bc);
    let asgns = comp.continuous_assignments@;
    let stmts = processes(component_module(comp, bc)).last().body;
    lemma_driven(asgns);
    assert(stmts == checks(asgns, driven(asgns)));
    let several = lemma_several(asgns, driven(asgns));
    let firsts = lemma_firsts(asgns, several);
    assert forall|t: int| 0 <= t < firsts.len() implies first_of_several(
        asgns,
        #[trigger] firsts[t],
    ) by {
        let k = firsts[t];
        assert(drivers(asgns, several[t]).len() > 1);
        let places = law_drivers_can_be_listed(asgns, k);
        lemma_listed(asgns, k, places);
        assert(places.len() == drivers(asgns, several[t]).len());
        assert(places[0] < places[1]);
        assert(same_port(asgns[places[1]].dst, asgns[k].dst));
    }
    assert forall|k: int| #[trigger] first_of_several(asgns, k) implies firsts.contains(k) by {
        let m = choose|m: int|
            k < m < asgns.len() && same_port((#[trigger] asgns[m]).dst, asgns[k].dst);
        let places = law_drivers_can_be_listed(asgns, k);
        lemma_listed(asgns, k, places);
        assert(places.contains(m));
        assert(places[places.index_of(m)] == m);
        assert(places.len() > 1);
        let name = asgns[k].dst.spec_canonical();
        assert(drivers(asgns, name).len() == places.len());
        assert(driven(asgns).contains(name));
        assert(several.contains(name));
        let t = several.index_of(name);
        assert(several[t] == name);
        lemma_same_port(asgns[firsts[t]].dst, asgns[k].dst);
        lemma_one_first(asgns, firsts[t], k);
        assert(firsts[t] == k);
    }
    assert forall|t: int, places: Seq<int>|
        0 <= t < firsts.len() && #[trigger] lists_drivers(
            asgns,
            firsts[t],
            places,
        ) implies checks_guards(stmts[t], asgns, places) by {
        lemma_listed(asgns, firsts[t], places);
        let ds = drivers(asgns, several[t]);
        assert(ds == places.map_values(|m: int| asgns[m]));
        assert(ds[0] == asgns[places[0]]);
        let guards = guard_exprs(ds);
        assert forall|i: int| 0 <= i < places.len() implies #[trigger] guards[i] == guard_expr(
            asgns[places[i]].guard,
        ) by {
            assert(ds[i] == asgns[places[i]]);
        }
        assert(ds.len() > 1);
        assert(stmts[t] == report(guards, asgns[places[0]].dst));
    }
    firsts
}

/// A port with more than one assignment has a check on all its guards in the last process of the
/// module.
pub proof fn law_contended_port_has_its_check(
    comp: Component,
    bc: BackendConf,
    k: int,
    places: Seq<int>,
)
    requires
        bc.enable_verification,
        !bc.synthesis_mode,
        lists_drivers(comp.continuous_assignments@, k, places),
        places.len() > 1,
    ensures
        ({
            let stmts = processes(component_module(comp, bc)).last().body;
            exists|s: int|
                0 <= s < stmts.len() && checks_guards(
                    #[trigger] stmts[s],
                    comp.continuous_assignments@,
                    places,
                )
        }),
{
    let asgns = comp.continuous_assignments@;
    let stmts = processes(component_module(comp, bc)).last().body;
    let firsts = law_each_contended_port_is_checked(comp, bc);
    let f = places[0];
    assert(places[0] < places[1]);
    assert(same_port(asgns[places[1]].dst, asgns[f].dst));
    assert(lists_drivers(asgns, f, places));
    assert forall|m: int| 0 <= m < f implies !same_port(
        (#[trigger] asgns[m]).dst,
        asgns[f].dst,
    ) by {
        if same_port(asgns[m].dst, asgns[f].dst) {
            assert(places.contains(m));
            let i = places.index_of(m);
            assert(places[i] == m);
            if i > 0 {
                assert(places[0] < places[i]);
            }
        }
    }
    assert(first_of_several(asgns, f));
    assert(firsts.contains(f));
    let s = firsts.index_of(f);
    assert(firsts[s] == f);
    assert(lists_drivers(asgns, firsts[s], places));
    assert(checks_guards(stmts[s], asgns, places));
}

/// No guard is looked at where a port has a single assignment, and the guards of two or more are
/// all looked at, in their order.
pub proof fn law_check_grows_with_the_assignments(
    dst: Port,
    asgns: Seq<Assignment>,
    guards: Seq<ExprView>,
)
    requires
        guards.len() == asgns.len(),
        forall|i: int|
            0 <= i < asgns.len() ==> #[trigger] guards[i] == guard_expr(asgns[i].guard),
    ensures
        disjoint_check(dst, asgns) == (if asgns.len() > 1 {
            Some(report(guards, dst))
        } else {
            None
        }),
{
    assert(guards =~= guard_exprs(asgns));
}

} // verus!
