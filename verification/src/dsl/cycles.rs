//! Detecting cycles in the fallback graph of a mapping.
use vstd::prelude::*;

use crate::dsl::error::{node_error, Diagnostic, DiagnosticV};
use crate::dsl::ir::{IrNodesV, MappingIr};
use crate::dsl::node::{NodeId, NodeV, SourceNode};
use crate::ordmap::{has_key, lookup, put, OrdMap};
use crate::text::Text;

verus! {

/// The state of the search.
#[verifier::ext_equal]
pub struct SearchV {
    /// The nodes met: whether each is done, or still being visited.
    pub marks: Seq<(Text, bool)>,
    /// The nodes reported.
    pub reported: Seq<(Text, ())>,
    /// The reports.
    pub diags: Seq<DiagnosticV>,
}

/// The report of a cycle.
pub open spec fn cycle_error(id: Text) -> DiagnosticV {
    node_error("E033"@, id, "fallback cycle detected through `"@ + id + "`"@)
}

/// The search after a visit of `id`, at most `fuel` unmet nodes deep: a node met
/// while it is being visited closes a cycle and is reported once.
pub open spec fn visited(fuel: nat, nodes: IrNodesV, id: Text, st: SearchV) -> SearchV
    decreases fuel, 0nat,
{
    match lookup::<NodeId, bool>(st.marks, id) {
        Some(true) => st,
        Some(false) => if has_key::<NodeId, ()>(st.reported, id) {
            st
        } else {
            SearchV {
                marks: st.marks,
                reported: put::<NodeId, ()>(st.reported, id, ()),
                diags: st.diags.push(cycle_error(id)),
            }
        },
        None => if fuel == 0 {
            st
        } else {
            let entered = SearchV { marks: put::<NodeId, bool>(st.marks, id, false), ..st };
            let targets = fallbacks_of(nodes, id);
            let left = visited_all((fuel - 1) as nat, nodes, targets, targets.len(), entered);
            SearchV { marks: put::<NodeId, bool>(left.marks, id, true), ..left }
        },
    }
}

/// The search after visits of the first `n` targets that are nodes.
pub open spec fn visited_all(
    fuel: nat,
    nodes: IrNodesV,
    targets: Seq<Text>,
    n: nat,
    st: SearchV,
) -> SearchV
    decreases fuel, n + 1,
{
    if n == 0 || n > targets.len() {
        st
    } else {
        let before = visited_all(fuel, nodes, targets, (n - 1) as nat, st);
        let next = targets[n - 1];
        if has_key::<NodeId, NodeV>(nodes, next) {
            visited(fuel, nodes, next, before)
        } else {
            before
        }
    }
}

/// The fallbacks of a node, none if it does not exist.
pub open spec fn fallbacks_of(nodes: IrNodesV, id: Text) -> Seq<Text> {
    match lookup::<NodeId, NodeV>(nodes, id) {
        Some(n) => n.fallbacks,
        None => Seq::empty(),
    }
}

/// The search after visits of the first `n` nodes.
pub open spec fn searched(nodes: IrNodesV, n: int) -> SearchV
    decreases n,
{
    if n <= 0 {
        SearchV { marks: Seq::empty(), reported: Seq::empty(), diags: Seq::empty() }
    } else {
        visited(nodes.len(), nodes, nodes[n - 1].0, searched(nodes, n - 1))
    }
}

/// The reports of all cycles, in the order in which a depth-first search in id
/// order closes them.
pub open spec fn cycle_diags(nodes: IrNodesV) -> Seq<DiagnosticV> {
    searched(nodes, nodes.len() as int).diags
}

/// The search in progress.
struct Search {
    marks: OrdMap<NodeId, bool>,
    reported: OrdMap<NodeId, ()>,
    diags: Vec<Diagnostic>,
}

impl Search {
    spec fn state(&self) -> SearchV {
        SearchV {
            marks: self.marks@,
            reported: self.reported@,
            diags: self.diags.deep_view(),
        }
    }

    /// Visits a node.
    fn visit(&mut self, nodes: &OrdMap<NodeId, SourceNode>, id: &NodeId, fuel: usize)
        ensures
            final(self).state() == visited(fuel as nat, nodes@, id@, old(self).state()),
        decreases fuel,
    {
        match self.marks.get(id) {
            Some(done) => {
                if !*done && !self.reported.contains_key(id) {
                    let ghost before = self.diags.deep_view();
                    self.reported.insert(id.clone(), ());
                    let mut message = "fallback cycle detected through `".to_string();
                    message.push_str(id.as_str());
                    message.push_str("`");
                    let d = Diagnostic::about("E033", id.as_str(), message);
                    self.diags.push(d);
                    assert(self.diags.deep_view() =~= before.push(d@));
                }
                return;
            },
            None => {},
        }
        if fuel == 0 {
            return;
        }
        self.marks.insert(id.clone(), false);
        let ghost entered = self.state();
        let ghost targets = fallbacks_of(nodes@, id@);
        if let Some(node) = nodes.get(id) {
            let mut i: usize = 0;
            while i < node.fallbacks.len()
                invariant
                    i <= node.fallbacks.len(),
                    fuel > 0,
                    targets == node.fallbacks.deep_view(),
                    self.state() == visited_all(
                        (fuel - 1) as nat,
                        nodes@,
                        targets,
                        i as nat,
                        entered,
                    ),
                decreases node.fallbacks.len() - i,
            {
                let next = &node.fallbacks[i];
                assert(targets[i as int] == next@);
                if nodes.contains_key(next) {
                    self.visit(nodes, next, fuel - 1);
                }
                i += 1;
            }
        }
        self.marks.insert(id.clone(), true);
    }
}

/// Reports the cycles of the fallback graph.
pub fn check_fallback_cycles(ir: &MappingIr) -> (r: Vec<Diagnostic>)
    ensures
        r.deep_view() == cycle_diags(ir@.nodes),
{
    let mut search = Search { marks: OrdMap::new(), reported: OrdMap::new(), diags: Vec::new() };
    assert(search.diags.deep_view() =~= Seq::<DiagnosticV>::empty());
    let mut i: usize = 0;
    while i < ir.nodes.len()
        invariant
            i <= ir@.nodes.len(),
            search.state() == searched(ir@.nodes, i as int),
        decreases ir@.nodes.len() - i,
    {
        search.visit(&ir.nodes, ir.nodes.key_at(i), ir.nodes.len());
        i += 1;
    }
    search.diags
}

} // verus!
