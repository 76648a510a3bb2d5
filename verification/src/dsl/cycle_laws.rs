//! The cycle search finds cycles, and misses none.
use vstd::prelude::*;

use crate::dsl::cycles::{
    cycle_diags, cycle_error, fallbacks_of, searched, visited, visited_all, SearchV,
};
use crate::dsl::error::DiagnosticV;
use crate::dsl::ir::IrNodesV;
use crate::dsl::node::{NodeId, NodeV};
use crate::ordmap::{
    ascending, has_key, lemma_lookup_at, lemma_lookup_none, lemma_put_ascending, lemma_put_lookup,
    lookup, put,
};
use crate::text::Text;

verus! {

/// Whether `b` is a fallback of `a` that exists.
pub open spec fn edge(nodes: IrNodesV, a: Text, b: Text) -> bool {
    fallbacks_of(nodes, a).contains(b) && has_key::<NodeId, NodeV>(nodes, b)
}

/// Whether each node of `p` has the next one as a fallback.
pub open spec fn is_path(nodes: IrNodesV, p: Seq<Text>) -> bool {
    forall|i: int| 0 <= i < p.len() - 1 ==> edge(nodes, #[trigger] p[i], p[i + 1])
}

/// Whether `p` is a path that ends where it starts.
pub open spec fn is_cycle(nodes: IrNodesV, p: Seq<Text>) -> bool {
    is_path(nodes, p) && p.len() >= 2 && p[0] == p.last()
}

spec fn mark(st: SearchV, k: Text) -> Option<bool> {
    lookup::<NodeId, bool>(st.marks, k)
}

spec fn rep(st: SearchV, k: Text) -> bool {
    has_key::<NodeId, ()>(st.reported, k)
}

/// A node that needs no further visit: it is done, or it is on the way here and
/// has been reported.
spec fn settled(st: SearchV, k: Text) -> bool {
    mark(st, k) == Some(true) || (mark(st, k) == Some(false) && rep(st, k))
}

spec fn all_done(st: SearchV, p: Seq<Text>) -> bool {
    forall|i: int| 0 <= i < p.len() ==> mark(st, #[trigger] p[i]) == Some(true)
}

spec fn some_reported(st: SearchV, p: Seq<Text>) -> bool {
    exists|i: int| 0 <= i < p.len() && rep(st, #[trigger] p[i])
}

spec fn on_cycle(nodes: IrNodesV, d: DiagnosticV) -> bool {
    exists|p: Seq<Text>| #[trigger] is_cycle(nodes, p) && d == cycle_error(p[0])
}

spec fn tidy(st: SearchV) -> bool {
    &&& ascending::<NodeId, bool>(st.marks)
    &&& ascending::<NodeId, ()>(st.reported)
    &&& forall|k: Text| rep(st, k) ==> st.diags.contains(#[trigger] cycle_error(k))
}

/// What holds between visits, `s` being the nodes on the way here.
spec fn search_inv(nodes: IrNodesV, st: SearchV, s: Seq<Text>) -> bool {
    &&& tidy(st)
    &&& is_path(nodes, s)
    &&& forall|k: Text| (#[trigger] mark(st, k) == Some(false)) <==> s.contains(k)
    &&& forall|k: Text, b: Text|
        mark(st, k) == Some(true) && #[trigger] edge(nodes, k, b) ==> settled(st, b)
    &&& forall|p: Seq<Text>|
        #[trigger] is_cycle(nodes, p) && all_done(st, p) ==> some_reported(st, p)
    &&& forall|j: int| 0 <= j < st.diags.len() ==> on_cycle(nodes, #[trigger] st.diags[j])
}

spec fn grows(a: SearchV, b: SearchV) -> bool {
    &&& forall|k: Text|
        #![trigger mark(b, k)]
        (mark(a, k) is Some ==> mark(b, k) == mark(a, k)) && (mark(a, k) is None ==> mark(b, k)
            != Some(false))
    &&& forall|k: Text| #![trigger rep(b, k)] rep(a, k) ==> rep(b, k)
}

/// The number of nodes not met yet among the first `n`.
spec fn unmet(nodes: IrNodesV, st: SearchV, n: int) -> nat
    decreases n,
{
    if n <= 0 {
        0
    } else {
        unmet(nodes, st, n - 1) + if mark(st, nodes[n - 1].0) is None {
            1nat
        } else {
            0nat
        }
    }
}

proof fn lemma_unmet_shrinks(nodes: IrNodesV, a: SearchV, b: SearchV, n: int)
    requires
        grows(a, b),
    ensures
        unmet(nodes, b, n) <= unmet(nodes, a, n),
    decreases n,
{
    if n > 0 {
        lemma_unmet_shrinks(nodes, a, b, n - 1);
        let m = mark(b, nodes[n - 1].0);
    }
}

proof fn lemma_unmet_drops(nodes: IrNodesV, st: SearchV, id: Text, n: int)
    requires
        ascending::<NodeId, bool>(st.marks),
        mark(st, id) is None,
        0 <= n <= nodes.len(),
    ensures
        ({
            let entered = SearchV { marks: put::<NodeId, bool>(st.marks, id, false), ..st };
            &&& unmet(nodes, entered, n) <= unmet(nodes, st, n)
            &&& (exists|i: int| 0 <= i < n && (#[trigger] nodes[i]).0 == id) ==> unmet(
                nodes,
                entered,
                n,
            ) < unmet(nodes, st, n)
        }),
    decreases n,
{
    let entered = SearchV { marks: put::<NodeId, bool>(st.marks, id, false), ..st };
    if n > 0 {
        lemma_unmet_drops(nodes, st, id, n - 1);
        lemma_put_lookup::<NodeId, bool>(st.marks, id, false, nodes[n - 1].0);
    }
}

proof fn lemma_grows_trans(a: SearchV, b: SearchV, c: SearchV)
    requires
        grows(a, b),
        grows(b, c),
    ensures
        grows(a, c),
{
    assert forall|k: Text|
        #![trigger mark(c, k)]
        (mark(a, k) is Some ==> mark(c, k) == mark(a, k)) && (mark(a, k) is None ==> mark(c, k)
            != Some(false)) by {
        let m = mark(b, k);
    }
    assert forall|k: Text| #![trigger rep(c, k)] rep(a, k) implies rep(c, k) by {
        let r = rep(b, k);
    }
}

/// A node on the way here that is met again closes a cycle.
proof fn lemma_meet_again(nodes: IrNodesV, id: Text, st: SearchV, s: Seq<Text>)
    requires
        search_inv(nodes, st, s),
        mark(st, id) == Some(false),
        edge(nodes, s.last(), id),
    ensures
        on_cycle(nodes, cycle_error(id)),
{
    assert(s.contains(id));
    let i = s.index_of(id);
    let p = s.skip(i).push(id);
    assert forall|j: int| 0 <= j < p.len() - 1 implies edge(nodes, #[trigger] p[j], p[j + 1]) by {
        assert(p[j] == s[i + j]);
        if j + 1 < p.len() - 1 {
            assert(p[j + 1] == s[i + j + 1]);
        }
    }
    assert(is_cycle(nodes, p));
    assert(p[0] == id);
}

proof fn lemma_report(nodes: IrNodesV, id: Text, st: SearchV, s: Seq<Text>)
    requires
        search_inv(nodes, st, s),
        mark(st, id) == Some(false),
        s.len() > 0,
        edge(nodes, s.last(), id),
        !rep(st, id),
    ensures
        ({
            let t = SearchV {
                marks: st.marks,
                reported: put::<NodeId, ()>(st.reported, id, ()),
                diags: st.diags.push(cycle_error(id)),
            };
            search_inv(nodes, t, s) && grows(st, t) && settled(t, id)
        }),
{
    let t = SearchV {
        marks: st.marks,
        reported: put::<NodeId, ()>(st.reported, id, ()),
        diags: st.diags.push(cycle_error(id)),
    };
    lemma_meet_again(nodes, id, st, s);
    lemma_put_ascending::<NodeId, ()>(st.reported, id, ());
    assert forall|k: Text| #![trigger rep(t, k)] rep(t, k) == (rep(st, k) || k == id) by {
        lemma_put_lookup::<NodeId, ()>(st.reported, id, (), k);
    }
    assert forall|k: Text| #![trigger mark(t, k)] mark(t, k) == mark(st, k) by {}
    assert forall|k: Text| rep(t, k) implies t.diags.contains(#[trigger] cycle_error(k)) by {
        if k == id {
            assert(t.diags[st.diags.len() as int] == cycle_error(k));
        } else {
            assert(rep(st, k));
            let j = st.diags.index_of(cycle_error(k));
            assert(t.diags[j] == cycle_error(k));
        }
    }
    assert forall|k: Text| (#[trigger] mark(t, k) == Some(false)) <==> s.contains(k) by {
        assert(mark(t, k) == mark(st, k));
    }
    assert forall|k: Text, b: Text|
        mark(t, k) == Some(true) && #[trigger] edge(nodes, k, b) implies settled(t, b) by {
        assert(mark(st, k) == Some(true));
        assert(settled(st, b));
        assert(rep(st, b) ==> rep(t, b));
        assert(mark(t, b) == mark(st, b));
    }
    assert forall|p: Seq<Text>|
        #[trigger] is_cycle(nodes, p) && all_done(t, p) implies some_reported(t, p) by {
        assert(all_done(st, p)) by {
            assert forall|i: int| 0 <= i < p.len() implies mark(st, #[trigger] p[i]) == Some(
                true,
            ) by {
                assert(mark(t, p[i]) == Some(true));
            }
        }
        let i = choose|i: int| 0 <= i < p.len() && rep(st, #[trigger] p[i]);
        assert(rep(t, p[i]));
    }
    assert forall|j: int| 0 <= j < t.diags.len() implies on_cycle(nodes, #[trigger] t.diags[j]) by {
        if j < st.diags.len() {
            assert(t.diags[j] == st.diags[j]);
        }
    }
}

proof fn lemma_enter(nodes: IrNodesV, id: Text, st: SearchV, s: Seq<Text>)
    requires
        search_inv(nodes, st, s),
        mark(st, id) is None,
        s.len() > 0 ==> edge(nodes, s.last(), id),
    ensures
        ({
            let t = SearchV { marks: put::<NodeId, bool>(st.marks, id, false), ..st };
            &&& search_inv(nodes, t, s.push(id))
            &&& mark(t, id) == Some(false)
            &&& forall|k: Text| k != id ==> #[trigger] mark(t, k) == mark(st, k)
            &&& forall|k: Text| #[trigger] rep(t, k) == rep(st, k)
        }),
{
    let t = SearchV { marks: put::<NodeId, bool>(st.marks, id, false), ..st };
    lemma_put_ascending::<NodeId, bool>(st.marks, id, false);
    assert forall|k: Text|
        #![trigger mark(t, k)]
        mark(t, k) == (if k == id {
            Some(false)
        } else {
            mark(st, k)
        }) by {
        lemma_put_lookup::<NodeId, bool>(st.marks, id, false, k);
    }
    assert forall|k: Text| #[trigger] rep(t, k) == rep(st, k) by {}
    assert(tidy(t)) by {
        assert forall|k: Text| rep(t, k) implies t.diags.contains(#[trigger] cycle_error(k)) by {
            assert(rep(st, k));
        }
    }
    let u = s.push(id);
    assert(is_path(nodes, u)) by {
        assert forall|i: int| 0 <= i < u.len() - 1 implies edge(nodes, #[trigger] u[i], u[i + 1]) by {
            assert(u[i] == s[i]);
            if i + 1 < s.len() {
                assert(u[i + 1] == s[i + 1]);
            }
        }
    }
    assert forall|k: Text| (#[trigger] mark(t, k) == Some(false)) <==> u.contains(k) by {
        if s.contains(k) {
            let i = s.index_of(k);
            assert(u[i] == k);
        }
        if u.contains(k) && k != id {
            let i = u.index_of(k);
            assert(s[i] == k);
        }
        assert(u[s.len() as int] == id);
        let m = mark(st, k);
    }
    assert forall|k: Text, b: Text|
        mark(t, k) == Some(true) && #[trigger] edge(nodes, k, b) implies settled(t, b) by {
        assert(mark(st, k) == Some(true));
        assert(settled(st, b));
        assert(mark(t, b) == mark(st, b));
        assert(rep(t, b) == rep(st, b));
    }
    assert forall|p: Seq<Text>|
        #[trigger] is_cycle(nodes, p) && all_done(t, p) implies some_reported(t, p) by {
        assert(all_done(st, p)) by {
            assert forall|i: int| 0 <= i < p.len() implies mark(st, #[trigger] p[i]) == Some(
                true,
            ) by {
                assert(mark(t, p[i]) == Some(true));
            }
        }
        let i = choose|i: int| 0 <= i < p.len() && rep(st, #[trigger] p[i]);
        assert(rep(t, p[i]));
    }
    assert forall|j: int| 0 <= j < t.diags.len() implies on_cycle(nodes, #[trigger] t.diags[j]) by {
        assert(t.diags[j] == st.diags[j]);
    }
}

proof fn lemma_leave(nodes: IrNodesV, id: Text, left: SearchV, s: Seq<Text>)
    requires
        search_inv(nodes, left, s.push(id)),
        !s.contains(id),
        forall|b: Text| #[trigger] edge(nodes, id, b) ==> settled(left, b),
    ensures
        ({
            let t = SearchV { marks: put::<NodeId, bool>(left.marks, id, true), ..left };
            &&& search_inv(nodes, t, s)
            &&& mark(t, id) == Some(true)
            &&& forall|k: Text| k != id ==> #[trigger] mark(t, k) == mark(left, k)
            &&& forall|k: Text| #[trigger] rep(t, k) == rep(left, k)
        }),
{
    let t = SearchV { marks: put::<NodeId, bool>(left.marks, id, true), ..left };
    let u = s.push(id);
    lemma_put_ascending::<NodeId, bool>(left.marks, id, true);
    assert forall|k: Text|
        #![trigger mark(t, k)]
        mark(t, k) == (if k == id {
            Some(true)
        } else {
            mark(left, k)
        }) by {
        lemma_put_lookup::<NodeId, bool>(left.marks, id, true, k);
    }
    assert forall|k: Text| #[trigger] rep(t, k) == rep(left, k) by {}
    assert(tidy(t)) by {
        assert forall|k: Text| rep(t, k) implies t.diags.contains(#[trigger] cycle_error(k)) by {
            assert(rep(left, k));
        }
    }
    assert(is_path(nodes, s)) by {
        assert forall|i: int| 0 <= i < s.len() - 1 implies edge(nodes, #[trigger] s[i], s[i + 1]) by {
            assert(u[i] == s[i] && u[i + 1] == s[i + 1]);
        }
    }
    assert(u[s.len() as int] == id);
    assert(u.contains(id));
    assert(mark(left, id) == Some(false));
    assert forall|k: Text| (#[trigger] mark(t, k) == Some(false)) <==> s.contains(k) by {
        if s.contains(k) {
            let i = s.index_of(k);
            assert(u[i] == k);
            assert(u.contains(k));
            assert(mark(left, k) == Some(false));
        }
        if k != id && mark(left, k) == Some(false) {
            assert(u.contains(k));
            let i = u.index_of(k);
            assert(s[i] == k);
        }
    }
    assert forall|k: Text, b: Text|
        mark(t, k) == Some(true) && #[trigger] edge(nodes, k, b) implies settled(t, b) by {
        if k != id {
            assert(mark(left, k) == Some(true));
        }
        assert(settled(left, b));
        assert(mark(t, b) == Some(true) || mark(t, b) == mark(left, b));
        assert(rep(t, b) == rep(left, b));
    }
    assert forall|p: Seq<Text>|
        #[trigger] is_cycle(nodes, p) && all_done(t, p) implies some_reported(t, p) by {
        if p.contains(id) {
            let i = p.index_of(id);
            let m = if i > 0 {
                i
            } else {
                p.len() - 1
            };
            assert(p[m] == id);
            let q = p[m - 1];
            assert(edge(nodes, q, p[m - 1 + 1]));
            assert(mark(t, q) == Some(true));
            if q != id {
                assert(mark(left, q) == Some(true));
            }
            assert(settled(left, id));
            assert(rep(t, p[m]));
        } else {
            assert(all_done(left, p)) by {
                assert forall|i: int| 0 <= i < p.len() implies mark(left, #[trigger] p[i]) == Some(
                    true,
                ) by {
                    assert(p.contains(p[i]));
                    assert(mark(t, p[i]) == Some(true));
                }
            }
            let i = choose|i: int| 0 <= i < p.len() && rep(left, #[trigger] p[i]);
            assert(rep(t, p[i]));
        }
    }
    assert forall|j: int| 0 <= j < t.diags.len() implies on_cycle(nodes, #[trigger] t.diags[j]) by {
        assert(t.diags[j] == left.diags[j]);
    }
}

proof fn lemma_visited(fuel: nat, nodes: IrNodesV, id: Text, st: SearchV, s: Seq<Text>)
    requires
        search_inv(nodes, st, s),
        has_key::<NodeId, NodeV>(nodes, id),
        fuel >= unmet(nodes, st, nodes.len() as int),
        s.len() > 0 ==> edge(nodes, s.last(), id),
    ensures
        search_inv(nodes, visited(fuel, nodes, id, st), s),
        grows(st, visited(fuel, nodes, id, st)),
        settled(visited(fuel, nodes, id, st), id),
    decreases fuel, 0nat,
{
    let t = visited(fuel, nodes, id, st);
    match mark(st, id) {
        Some(true) => {},
        Some(false) => {
            assert(s.contains(id));
            if !rep(st, id) {
                lemma_report(nodes, id, st, s);
            }
        },
        None => {
            let entered = SearchV { marks: put::<NodeId, bool>(st.marks, id, false), ..st };
            lemma_lookup_none::<NodeId, NodeV>(nodes, id);
            lemma_unmet_drops(nodes, st, id, nodes.len() as int);
            assert(exists|i: int| 0 <= i < nodes.len() && (#[trigger] nodes[i]).0 == id);
            lemma_enter(nodes, id, st, s);
            let targets = fallbacks_of(nodes, id);
            let left = visited_all((fuel - 1) as nat, nodes, targets, targets.len(), entered);
            assert(s.push(id).last() == id);
            lemma_visited_all((fuel - 1) as nat, nodes, id, targets.len(), entered, s.push(id));
            assert(!s.contains(id)) by {
                assert(mark(st, id) != Some(false));
            }
            assert forall|b: Text| #[trigger] edge(nodes, id, b) implies settled(left, b) by {
                let j = targets.index_of(b);
                assert(targets[j] == b);
            }
            lemma_leave(nodes, id, left, s);
            assert forall|k: Text|
                #![trigger mark(t, k)]
                (mark(st, k) is Some ==> mark(t, k) == mark(st, k)) && (mark(st, k) is None
                    ==> mark(t, k) != Some(false)) by {
                let (a, b) = (mark(entered, k), mark(left, k));
            }
            assert forall|k: Text| #![trigger rep(t, k)] rep(st, k) implies rep(t, k) by {
                let (a, b) = (rep(entered, k), rep(left, k));
            }
        },
    }
}

proof fn lemma_visited_all(fuel: nat, nodes: IrNodesV, id: Text, n: nat, st: SearchV, s: Seq<Text>)
    requires
        search_inv(nodes, st, s),
        fuel >= unmet(nodes, st, nodes.len() as int),
        s.len() > 0,
        s.last() == id,
        n <= fallbacks_of(nodes, id).len(),
    ensures
        ({
            let targets = fallbacks_of(nodes, id);
            let t = visited_all(fuel, nodes, targets, n, st);
            &&& search_inv(nodes, t, s)
            &&& grows(st, t)
            &&& forall|j: int|
                0 <= j < n && has_key::<NodeId, NodeV>(nodes, #[trigger] targets[j]) ==> settled(
                    t,
                    targets[j],
                )
        }),
    decreases fuel, n + 1,
{
    let targets = fallbacks_of(nodes, id);
    let t = visited_all(fuel, nodes, targets, n, st);
    if n > 0 {
        let before = visited_all(fuel, nodes, targets, (n - 1) as nat, st);
        lemma_visited_all(fuel, nodes, id, (n - 1) as nat, st, s);
        lemma_unmet_shrinks(nodes, st, before, nodes.len() as int);
        let next = targets[n - 1];
        if has_key::<NodeId, NodeV>(nodes, next) {
            assert(targets.contains(next));
            lemma_visited(fuel, nodes, next, before, s);
            lemma_grows_trans(st, before, t);
        }
        assert forall|j: int|
            0 <= j < n && has_key::<NodeId, NodeV>(nodes, #[trigger] targets[j]) implies settled(
            t,
            targets[j],
        ) by {
            if j < n - 1 {
                assert(settled(before, targets[j]));
                let (a, b) = (mark(t, targets[j]), rep(t, targets[j]));
            }
        }
    } else {
        assert(grows(st, t));
    }
}

proof fn lemma_searched(nodes: IrNodesV, n: int)
    requires
        ascending::<NodeId, NodeV>(nodes),
        0 <= n <= nodes.len(),
    ensures
        search_inv(nodes, searched(nodes, n), Seq::empty()),
        forall|i: int| 0 <= i < n ==> mark(searched(nodes, n), (#[trigger] nodes[i]).0) == Some(true),
    decreases n,
{
    let s = Seq::<Text>::empty();
    let t = searched(nodes, n);
    if n <= 0 {
        assert forall|k: Text| #![trigger mark(t, k)] mark(t, k) is None by {}
        assert forall|k: Text| #![trigger rep(t, k)] !rep(t, k) by {}
        assert forall|p: Seq<Text>|
            #[trigger] is_cycle(nodes, p) && all_done(t, p) implies some_reported(t, p) by {
            assert(mark(t, p[0]) == Some(true));
        }
    } else {
        let u = searched(nodes, n - 1);
        lemma_searched(nodes, n - 1);
        lemma_lookup_at::<NodeId, NodeV>(nodes, n - 1);
        lemma_unmet_bound(nodes, u, nodes.len() as int);
        lemma_visited(nodes.len(), nodes, nodes[n - 1].0, u, s);
        assert forall|i: int| 0 <= i < n implies mark(t, (#[trigger] nodes[i]).0) == Some(true) by {
            if i < n - 1 {
                assert(mark(u, nodes[i].0) == Some(true));
            } else {
                assert(!s.contains(nodes[i].0));
                let m = mark(t, nodes[i].0);
            }
        }
    }
}

proof fn lemma_unmet_bound(nodes: IrNodesV, st: SearchV, n: int)
    requires
        0 <= n,
    ensures
        unmet(nodes, st, n) <= n,
    decreases n,
{
    if n > 0 {
        lemma_unmet_bound(nodes, st, n - 1);
    }
}

/// Every cycle of the fallback graph passes through a node that is reported.
pub proof fn law_every_cycle_is_reported(nodes: IrNodesV, p: Seq<Text>)
    requires
        ascending::<NodeId, NodeV>(nodes),
        is_cycle(nodes, p),
    ensures
        exists|i: int|
            0 <= i < p.len() && cycle_diags(nodes).contains(cycle_error(#[trigger] p[i])),
{
    let n = nodes.len() as int;
    let t = searched(nodes, n);
    lemma_searched(nodes, n);
    assert(all_done(t, p)) by {
        assert forall|i: int| 0 <= i < p.len() implies mark(t, #[trigger] p[i]) == Some(true) by {
            let m = if i > 0 {
                i
            } else {
                p.len() - 1
            };
            assert(p[m] == p[i]);
            assert(edge(nodes, p[m - 1], p[m - 1 + 1]));
            lemma_lookup_none::<NodeId, NodeV>(nodes, p[m]);
            let j = choose|j: int| 0 <= j < nodes.len() && (#[trigger] nodes[j]).0 == p[m];
            assert(mark(t, nodes[j].0) == Some(true));
        }
    }
    let i = choose|i: int| 0 <= i < p.len() && rep(t, #[trigger] p[i]);
    assert(cycle_diags(nodes).contains(cycle_error(p[i])));
}

/// Every report names a node that a cycle of the fallback graph starts from.
pub proof fn law_every_report_is_a_cycle(nodes: IrNodesV, j: int)
    requires
        ascending::<NodeId, NodeV>(nodes),
        0 <= j < cycle_diags(nodes).len(),
    ensures
        exists|p: Seq<Text>|
            #[trigger] is_cycle(nodes, p) && cycle_diags(nodes)[j] == cycle_error(p[0]),
{
    lemma_searched(nodes, nodes.len() as int);
    let t = searched(nodes, nodes.len() as int);
    assert(on_cycle(nodes, t.diags[j]));
}

} // verus!
