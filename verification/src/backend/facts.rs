//! Facts about the model: the order of the driven ports, the assignments that drive each, and the
//! ports of guards.

use crate::backend::model::{
    driven, drivers, guard_readable, insert_name, name_lt, readable, PortName,
};
use crate::ir::{Assignment, Guard, Port};
use crate::text::{
    lemma_text_lt_irreflexive, lemma_text_lt_total, lemma_text_lt_transitive, text_lt,
};
use vstd::prelude::*;

verus! {

/// The names are in ascending order, and none occurs twice.
pub open spec fn ascending(names: Seq<PortName>) -> bool {
    forall|i: int, j: int|
        0 <= i < j < names.len() ==> name_lt(#[trigger] names[i], #[trigger] names[j])
}

/// No name comes before itself.
pub proof fn lemma_name_lt_irreflexive(a: PortName)
    ensures
        !name_lt(a, a),
{
    lemma_text_lt_irreflexive(a.0);
    lemma_text_lt_irreflexive(a.1);
}

/// Of two different names one comes before the other.
pub proof fn lemma_name_lt_total(a: PortName, b: PortName)
    requires
        a != b,
    ensures
        name_lt(a, b) || name_lt(b, a),
{
    if a.0 != b.0 {
        lemma_text_lt_total(a.0, b.0);
    } else {
        lemma_text_lt_total(a.1, b.1);
    }
}

/// A name that comes before a second one comes before all that the second one comes before.
pub proof fn lemma_name_lt_transitive(a: PortName, b: PortName, c: PortName)
    requires
        name_lt(a, b),
        name_lt(b, c),
    ensures
        name_lt(a, c),
{
    if text_lt(a.0, b.0) && text_lt(b.0, c.0) {
        lemma_text_lt_transitive(a.0, b.0, c.0);
    } else if a.0 == b.0 && b.0 == c.0 && !text_lt(a.0, c.0) {
        lemma_text_lt_irreflexive(a.0);
        lemma_text_lt_transitive(a.1, b.1, c.1);
    }
}

/// Two ascending sequences of the same names are equal.
pub proof fn lemma_ascending_unique(a: Seq<PortName>, b: Seq<PortName>)
    requires
        ascending(a),
        ascending(b),
        forall|n: PortName| a.contains(n) <==> b.contains(n),
    ensures
        a == b,
    decreases a.len(),
{
    if a.len() == 0 {
        if b.len() > 0 {
            assert(b.contains(b[0]));
        }
        assert(a =~= b);
    } else {
        let x = a.last();
        assert(a.contains(x));
        let ix = b.index_of(x);
        assert(0 <= ix < b.len() && b[ix] == x);
        let y = b.last();
        assert(b.contains(y));
        let iy = a.index_of(y);
        assert(0 <= iy < a.len() && a[iy] == y);
        if x != y {
            assert(name_lt(a[iy], a[a.len() - 1]));
            assert(name_lt(b[ix], b[b.len() - 1]));
            lemma_name_lt_transitive(x, y, x);
            lemma_name_lt_irreflexive(x);
        }
        let a0 = a.drop_last();
        let b0 = b.drop_last();
        assert forall|n: PortName| a0.contains(n) <==> b0.contains(n) by {
            if a0.contains(n) {
                let i = a0.index_of(n);
                assert(a[i] == n);
                assert(name_lt(a[i], a[a.len() - 1]));
                lemma_name_lt_irreflexive(x);
                assert(a.contains(n));
                let j = b.index_of(n);
                assert(b[j] == n && 0 <= j < b.len());
                assert(b0[j] == n);
            }
            if b0.contains(n) {
                let i = b0.index_of(n);
                assert(b[i] == n);
                assert(name_lt(b[i], b[b.len() - 1]));
                lemma_name_lt_irreflexive(x);
                assert(b.contains(n));
                let j = a.index_of(n);
                assert(a[j] == n && 0 <= j < a.len());
                assert(a0[j] == n);
            }
        }
        lemma_ascending_unique(a0, b0);
        assert(a =~= a0.push(x));
        assert(b =~= b0.push(y));
    }
}

/// A name that is put among ascending names leaves them ascending, and adds no other.
proof fn lemma_insert_name(names: Seq<PortName>, name: PortName)
    requires
        ascending(names),
    ensures
        ascending(insert_name(names, name)),
        forall|n: PortName| #[trigger]
            insert_name(names, name).contains(n) <==> names.contains(n) || n == name,
    decreases names.len(),
{
    let out = insert_name(names, name);
    if names.len() == 0 {
        assert(out[0] == name);
    } else if name == names.last() {
        assert(names.contains(names.last()));
    } else if name_lt(names.last(), name) {
        assert forall|i: int, j: int| 0 <= i < j < out.len() implies name_lt(
            #[trigger] out[i],
            #[trigger] out[j],
        ) by {
            if j == names.len() && i < names.len() - 1 {
                lemma_name_lt_transitive(names[i], names.last(), name);
            }
        }
        assert forall|n: PortName| #[trigger] out.contains(n) <==> names.contains(n) || n
            == name by {
            if names.contains(n) {
                assert(out[names.index_of(n)] == n);
            }
            assert(out[names.len() as int] == name);
        }
    } else {
        let rest = names.drop_last();
        let last = names.last();
        lemma_insert_name(rest, name);
        lemma_name_lt_total(name, last);
        let front = insert_name(rest, name);
        assert forall|i: int, j: int| 0 <= i < j < out.len() implies name_lt(
            #[trigger] out[i],
            #[trigger] out[j],
        ) by {
            if j == front.len() {
                assert(front.contains(front[i]));
                if front[i] != name {
                    let k = rest.index_of(front[i]);
                    assert(name_lt(names[k], names[names.len() - 1]));
                }
            }
        }
        assert forall|n: PortName| #[trigger] out.contains(n) <==> names.contains(n) || n
            == name by {
            if names.contains(n) {
                let k = names.index_of(n);
                if k < rest.len() {
                    assert(rest[k] == n);
                    assert(front.contains(n));
                    assert(out[front.index_of(n)] == n);
                } else {
                    assert(out[front.len() as int] == n);
                }
            }
            if n == name {
                assert(front.contains(n));
                assert(out[front.index_of(n)] == n);
            }
            if out.contains(n) {
                let k = out.index_of(n);
                if k < front.len() {
                    assert(front.contains(front[k]));
                    if rest.contains(n) {
                        assert(names[rest.index_of(n)] == n);
                    }
                } else {
                    assert(names[names.len() - 1] == n);
                }
            }
        }
    }
}

/// The assignments to a port, with one assignment more.
pub proof fn lemma_drivers_push(asgns: Seq<Assignment>, asgn: Assignment, name: PortName)
    ensures
        drivers(asgns.push(asgn), name) == if asgn.dst.spec_canonical() == name {
            drivers(asgns, name).push(asgn)
        } else {
            drivers(asgns, name)
        },
{
    reveal(Seq::filter);
    assert(asgns.push(asgn).drop_last() =~= asgns);
}

/// An assignment drives the port that it is an assignment to.
pub proof fn lemma_drivers_name(asgns: Seq<Assignment>, name: PortName, i: int)
    requires
        0 <= i < drivers(asgns, name).len(),
    ensures
        drivers(asgns, name)[i].dst.spec_canonical() == name,
        asgns.contains(drivers(asgns, name)[i]),
{
    let pred = |a: Assignment| a.dst.spec_canonical() == name;
    asgns.lemma_filter_pred(pred, i);
    assert(drivers(asgns, name).contains(drivers(asgns, name)[i]));
    asgns.lemma_filter_contains_rev(pred, drivers(asgns, name)[i]);
}

/// The names of the driven ports are in ascending order, and they are those of the ports that have
/// a driver.
pub proof fn lemma_driven(asgns: Seq<Assignment>)
    ensures
        ascending(driven(asgns)),
        forall|n: PortName| #[trigger]
            driven(asgns).contains(n) <==> drivers(asgns, n).len() > 0,
    decreases asgns.len(),
{
    reveal(Seq::filter);
    if asgns.len() > 0 {
        let rest = asgns.drop_last();
        let name = asgns.last().dst.spec_canonical();
        lemma_driven(rest);
        lemma_insert_name(driven(rest), name);
        assert forall|n: PortName| #[trigger] driven(asgns).contains(n) <==> drivers(asgns, n).len()
            > 0 by {
            assert(asgns =~= rest.push(asgns.last()));
            lemma_drivers_push(rest, asgns.last(), n);
            assert(driven(rest).contains(n) <==> drivers(rest, n).len() > 0);
        }
    }
}

/// The names of the driven ports depend on nothing but which ports have a driver.
pub proof fn lemma_driven_unique(asgns: Seq<Assignment>, names: Seq<PortName>)
    requires
        ascending(names),
        forall|n: PortName| #[trigger] names.contains(n) <==> drivers(asgns, n).len() > 0,
    ensures
        names == driven(asgns),
{
    lemma_driven(asgns);
    assert forall|n: PortName| names.contains(n) <==> driven(asgns).contains(n) by {
        assert(names.contains(n) <==> drivers(asgns, n).len() > 0);
        assert(driven(asgns).contains(n) <==> drivers(asgns, n).len() > 0);
    }
    lemma_ascending_unique(names, driven(asgns));
}

/// A port, and assignments that drive it.
pub type DrivenPort<'a> = (&'a Port, Vec<&'a Assignment>);

/// The assignments behind the references.
pub open spec fn derefs(asgns: Seq<&Assignment>) -> Seq<Assignment> {
    asgns.map_values(|a: &Assignment| *a)
}

/// `group` holds all of `asgns` that drive the port of this name, with the port of the first.
pub open spec fn holds_drivers(asgns: Seq<Assignment>, group: DrivenPort, name: PortName) -> bool {
    &&& derefs(group.1@) == drivers(asgns, name)
    &&& group.1@.len() > 0
    &&& *group.0 == group.1@[0].dst
}

/// The names of the ports of the groups.
pub open spec fn group_names(groups: Seq<DrivenPort>) -> Seq<PortName> {
    groups.map_values(|g: DrivenPort| g.0.spec_canonical())
}

/// The groups hold the assignments, one group for each driven port, in ascending order.
pub open spec fn grouped(asgns: Seq<Assignment>, groups: Seq<DrivenPort>) -> bool {
    &&& ascending(group_names(groups))
    &&& forall|i: int|
        0 <= i < groups.len() ==> holds_drivers(
            asgns,
            #[trigger] groups[i],
            groups[i].0.spec_canonical(),
        )
    &&& forall|i: int|
        0 <= i < asgns.len() ==> group_names(groups).contains(
            (#[trigger] asgns[i]).dst.spec_canonical(),
        )
}

/// The names of the groups are those of the ports that have a driver.
pub proof fn lemma_grouped_names(asgns: Seq<Assignment>, groups: Seq<DrivenPort>)
    requires
        grouped(asgns, groups),
    ensures
        forall|n: PortName| #[trigger]
            group_names(groups).contains(n) <==> drivers(asgns, n).len() > 0,
{
    let names = group_names(groups);
    assert forall|n: PortName| #[trigger] names.contains(n) <==> drivers(asgns, n).len() > 0 by {
        if names.contains(n) {
            let i = names.index_of(n);
            assert(holds_drivers(asgns, groups[i], groups[i].0.spec_canonical()));
            assert(derefs(groups[i].1@).len() == groups[i].1@.len());
        }
        if drivers(asgns, n).len() > 0 {
            lemma_drivers_name(asgns, n, 0);
            let a = drivers(asgns, n)[0];
            let k = asgns.index_of(a);
            assert(asgns[k] == a);
        }
    }
}

/// One more assignment to the port of the last group goes into that group.
pub proof fn lemma_grouped_extend(
    asgns: Seq<Assignment>,
    groups: Seq<DrivenPort>,
    asgn: Assignment,
    last: DrivenPort,
)
    requires
        groups.len() > 0,
        grouped(asgns, groups),
        asgn.dst.spec_canonical() == groups.last().0.spec_canonical(),
        last.0 == groups.last().0,
        derefs(last.1@) == derefs(groups.last().1@).push(asgn),
        last.1@.len() == groups.last().1@.len() + 1,
        last.1@[0] == groups.last().1@[0],
    ensures
        grouped(asgns.push(asgn), groups.drop_last().push(last)),
{
    let all = asgns.push(asgn);
    let out = groups.drop_last().push(last);
    assert(group_names(out) =~= group_names(groups));
    assert forall|i: int| 0 <= i < out.len() implies holds_drivers(
        all,
        #[trigger] out[i],
        out[i].0.spec_canonical(),
    ) by {
        assert(holds_drivers(asgns, groups[i], groups[i].0.spec_canonical()));
        lemma_drivers_push(asgns, asgn, out[i].0.spec_canonical());
        if i < groups.len() - 1 {
            let names = group_names(groups);
            assert(name_lt(names[i], names[groups.len() - 1]));
            lemma_name_lt_irreflexive(names[i]);
        }
    }
    assert forall|i: int| 0 <= i < all.len() implies group_names(out).contains(
        (#[trigger] all[i]).dst.spec_canonical(),
    ) by {
        if i < asgns.len() {
            assert(group_names(groups).contains(asgns[i].dst.spec_canonical()));
        } else {
            assert(group_names(out)[out.len() - 1] == asgn.dst.spec_canonical());
        }
    }
}

/// One more assignment to a port whose name comes behind all the others makes a group of its own.
pub proof fn lemma_grouped_fresh(
    asgns: Seq<Assignment>,
    groups: Seq<DrivenPort>,
    asgn: Assignment,
    last: DrivenPort,
)
    requires
        grouped(asgns, groups),
        groups.len() > 0 ==> name_lt(
            groups.last().0.spec_canonical(),
            asgn.dst.spec_canonical(),
        ),
        *last.0 == asgn.dst,
        derefs(last.1@) == seq![asgn],
        last.1@.len() == 1,
    ensures
        grouped(asgns.push(asgn), groups.push(last)),
{
    let all = asgns.push(asgn);
    let out = groups.push(last);
    let name = asgn.dst.spec_canonical();
    let names = group_names(groups);
    assert(group_names(out) =~= names.push(name));
    assert forall|i: int| 0 <= i < names.len() implies name_lt(#[trigger] names[i], name) by {
        if i < names.len() - 1 {
            lemma_name_lt_transitive(names[i], names[names.len() - 1], name);
        }
    }
    lemma_grouped_names(asgns, groups);
    assert(drivers(asgns, name) =~= Seq::empty()) by {
        if names.contains(name) {
            lemma_name_lt_irreflexive(name);
        }
    }
    assert forall|i: int| 0 <= i < out.len() implies holds_drivers(
        all,
        #[trigger] out[i],
        out[i].0.spec_canonical(),
    ) by {
        lemma_drivers_push(asgns, asgn, out[i].0.spec_canonical());
        if i < groups.len() {
            assert(holds_drivers(asgns, groups[i], groups[i].0.spec_canonical()));
            assert(name_lt(names[i], name));
            lemma_name_lt_irreflexive(name);
        } else {
            assert(derefs(last.1@)[0] == *last.1@[0]);
            assert(Seq::<Assignment>::empty().push(asgn) =~= seq![asgn]);
        }
    }
    assert forall|i: int| 0 <= i < all.len() implies group_names(out).contains(
        (#[trigger] all[i]).dst.spec_canonical(),
    ) by {
        if i < asgns.len() {
            let n = asgns[i].dst.spec_canonical();
            assert(names.contains(n));
            assert(group_names(out)[names.index_of(n)] == n);
        } else {
            assert(group_names(out)[groups.len() as int] == name);
        }
    }
}

/// A guard that joins two can be read where both can.
pub proof fn lemma_joined_readable(g: Guard, l: Guard, r: Guard)
    requires
        g.ports() == l.ports() + r.ports(),
    ensures
        guard_readable(g) <==> guard_readable(l) && guard_readable(r),
{
    let n = l.ports().len() as int;
    if guard_readable(g) {
        assert forall|i: int| 0 <= i < n implies readable(#[trigger] l.ports()[i]) by {
            assert(readable(g.ports()[i]));
        }
        assert forall|i: int| 0 <= i < r.ports().len() implies readable(
            #[trigger] r.ports()[i],
        ) by {
            assert(readable(g.ports()[n + i]));
        }
    }
    if guard_readable(l) && guard_readable(r) {
        assert forall|i: int| 0 <= i < g.ports().len() implies readable(
            #[trigger] g.ports()[i],
        ) by {
            if i < n {
                assert(readable(l.ports()[i]));
            } else {
                assert(readable(r.ports()[i - n]));
            }
        }
    }
}

/// What is made of two sequences, one behind the other, is what is made of each.
pub proof fn lemma_filter_map_add<A, B>(s: Seq<A>, t: Seq<A>, f: spec_fn(A) -> Option<B>)
    ensures
        (s + t).filter_map(f) == s.filter_map(f) + t.filter_map(f),
    decreases t.len(),
{
    reveal(Seq::filter_map);
    if t.len() == 0 {
        assert(s + t =~= s);
        assert(s.filter_map(f) + t.filter_map(f) =~= s.filter_map(f));
    } else {
        lemma_filter_map_add(s, t.drop_last(), f);
        assert((s + t).drop_last() =~= s + t.drop_last());
        assert((s + t).last() == t.last());
        match f(t.last()) {
            Some(b) => {
                assert(s.filter_map(f) + t.drop_last().filter_map(f) + seq![b] =~= s.filter_map(f)
                    + (t.drop_last().filter_map(f) + seq![b]));
            },
            None => {},
        }
    }
}

/// Nothing is made of items none of which gives anything.
pub proof fn lemma_filter_map_nothing<A, B>(s: Seq<A>, f: spec_fn(A) -> Option<B>)
    requires
        forall|i: int| 0 <= i < s.len() ==> f(#[trigger] s[i]) is None,
    ensures
        s.filter_map(f) == Seq::<B>::empty(),
    decreases s.len(),
{
    reveal(Seq::filter_map);
    if s.len() > 0 {
        lemma_filter_map_nothing(s.drop_last(), f);
        assert(f(s[s.len() - 1]) is None);
    }
}

/// Where every item gives something, all of it is there, in the same order.
pub proof fn lemma_filter_map_every<A, B>(s: Seq<A>, f: spec_fn(A) -> Option<B>, t: Seq<B>)
    requires
        s.len() == t.len(),
        forall|i: int| 0 <= i < s.len() ==> f(#[trigger] s[i]) == Some(t[i]),
    ensures
        s.filter_map(f) == t,
    decreases s.len(),
{
    reveal(Seq::filter_map);
    if s.len() == 0 {
        assert(t =~= Seq::empty());
    } else {
        lemma_filter_map_every(s.drop_last(), f, t.drop_last());
        assert(f(s[s.len() - 1]) == Some(t[t.len() - 1]));
        assert(t.drop_last() + seq![t.last()] =~= t);
    }
}

/// What a single item gives.
pub proof fn lemma_filter_map_one<A, B>(a: A, f: spec_fn(A) -> Option<B>)
    ensures
        seq![a].filter_map(f) == (match f(a) {
            Some(b) => seq![b],
            None => Seq::empty(),
        }),
{
    match f(a) {
        Some(b) => lemma_filter_map_every(seq![a], f, seq![b]),
        None => lemma_filter_map_nothing(seq![a], f),
    }
}

} // verus!
