//! Which directories load, and that cycles are reported once.
use vstd::prelude::*;

use crate::dsl::cycles::{
    cycle_diags, cycle_error, fallbacks_of, searched, visited, visited_all, SearchV,
};
use crate::dsl::ir::IrNodesV;
use crate::dsl::loader::{assembled, chain_of, collected, loaded, slug, ByIdV, SourceFile};
use crate::dsl::meta::meta_id;
use crate::dsl::node::{NodeId, NodeV};
use crate::dsl::parse::{mapping_of, ParsedV};
use crate::ordmap::{
    ascending, has_key, lemma_put_ascending, lemma_put_lookup, lemma_slot, lookup, put,
};
use crate::text::Text;

verus! {

/// Whether a file can be read and holds a mapping.
pub open spec fn holds_mapping(f: SourceFile) -> bool {
    f.text is Ok && mapping_of(f.text->Ok_0@) is Ok
}

/// The mapping of a file.
pub open spec fn mapping_in(f: SourceFile) -> ParsedV {
    mapping_of(f.text->Ok_0@)->Ok_0
}

/// The id of the mapping of a file.
pub open spec fn id_in(f: SourceFile) -> Text {
    meta_id(mapping_in(f).meta)
}

/// Whether the first files each hold a mapping, with different ids.
pub open spec fn all_hold(files: Seq<SourceFile>, n: int) -> bool {
    &&& forall|i: int| 0 <= i < n ==> holds_mapping(#[trigger] files[i])
    &&& forall|i: int, j: int|
        0 <= i < j < n ==> id_in(#[trigger] files[i]) != id_in(#[trigger] files[j])
}

/// Whether one of the first files has a mapping with an id.
pub open spec fn some_file(files: Seq<SourceFile>, n: int, id: Text) -> bool {
    exists|i: int| 0 <= i < n && id_in(#[trigger] files[i]) == id
}

proof fn lemma_found(files: Seq<SourceFile>, n: int, id: Text)
    requires
        0 <= n <= files.len(),
        collected(files, n) is Ok,
    ensures
        collected(files, n)->Ok_0.len() == n,
        ascending::<String, ParsedV>(collected(files, n)->Ok_0),
        lookup::<String, ParsedV>(collected(files, n)->Ok_0, id) is Some <==> some_file(
            files,
            n,
            id,
        ),
        forall|i: int|
            0 <= i < n && id_in(#[trigger] files[i]) == id ==> lookup::<String, ParsedV>(
                collected(files, n)->Ok_0,
                id,
            ) == Some(mapping_in(files[i])),
    decreases n,
{
    if n == 0 {
        assert(lookup::<String, ParsedV>(Seq::<(Text, ParsedV)>::empty(), id) is None);
    } else {
        lemma_found(files, n - 1, id);
        let f = files[n - 1];
        let acc = collected(files, n - 1)->Ok_0;
        let m = mapping_in(f);
        lemma_slot::<String, ParsedV>(acc, id_in(f));
        lemma_put_ascending::<String, ParsedV>(acc, id_in(f), m);
        lemma_put_lookup::<String, ParsedV>(acc, id_in(f), m, id);
        if id == id_in(f) {
            assert(id_in(files[n - 1]) == id);
            assert(!some_file(files, n - 1, id));
        } else if some_file(files, n, id) {
            let i = choose|i: int| 0 <= i < n && id_in(#[trigger] files[i]) == id;
            assert(i < n - 1);
            assert(some_file(files, n - 1, id));
        }
    }
}

proof fn lemma_collected(files: Seq<SourceFile>, n: int)
    requires
        0 <= n <= files.len(),
    ensures
        collected(files, n) is Ok <==> all_hold(files, n),
    decreases n,
{
    if n > 0 {
        lemma_collected(files, n - 1);
        let f = files[n - 1];
        if all_hold(files, n) {
            assert(all_hold(files, n - 1));
            assert(holds_mapping(files[n - 1]));
            let acc = collected(files, n - 1)->Ok_0;
            lemma_found(files, n - 1, id_in(f));
            if some_file(files, n - 1, id_in(f)) {
                let i = choose|i: int| 0 <= i < n - 1 && id_in(#[trigger] files[i]) == id_in(f);
                assert(id_in(files[i]) != id_in(files[n - 1]));
            }
            assert(!has_key::<String, ParsedV>(acc, id_in(f)));
        }
        if collected(files, n) is Ok {
            lemma_found(files, n - 1, id_in(f));
            assert(!some_file(files, n - 1, id_in(f)));
            assert forall|i: int, j: int| 0 <= i < j < n implies id_in(#[trigger] files[i])
                != id_in(#[trigger] files[j]) by {
                if j == n - 1 && id_in(files[i]) == id_in(f) {
                    assert(some_file(files, n - 1, id_in(f)));
                }
            }
        }
    }
}

/// The mappings of a directory are collected if, and only if, every file can be read and
/// holds a mapping, and no two have the same id; each is then found under its id.
pub proof fn law_every_file_holds_a_mapping(files: Seq<SourceFile>, i: int)
    requires
        0 <= i < files.len(),
    ensures
        collected(files, files.len() as int) is Ok <==> all_hold(files, files.len() as int),
        collected(files, files.len() as int) matches Ok(by_id) ==> by_id.len() == files.len()
            && lookup::<String, ParsedV>(by_id, id_in(files[i])) == Some(mapping_in(files[i])),
{
    lemma_collected(files, files.len() as int);
    if collected(files, files.len() as int) is Ok {
        lemma_found(files, files.len() as int, id_in(files[i]));
    }
}

/// Whether the enabled ones of the first mappings have names, and different ones, and
/// every one of them has its chain.
pub open spec fn all_stand(by_id: ByIdV, n: int) -> bool {
    &&& forall|i: int| 0 <= i < n ==> chain_of(by_id, (#[trigger] by_id[i]).0) is Ok
    &&& forall|i: int|
        0 <= i < n && !(#[trigger] by_id[i]).1.meta.disabled ==> slug(by_id[i].1.meta.doc_format)
            is Ok
    &&& forall|i: int, j: int|
        0 <= i < j < n && !(#[trigger] by_id[i]).1.meta.disabled
            && !(#[trigger] by_id[j]).1.meta.disabled ==> slug(by_id[i].1.meta.doc_format) != slug(
            by_id[j].1.meta.doc_format,
        )
}

proof fn lemma_assembled(by_id: ByIdV, n: int, s: Text)
    requires
        0 <= n <= by_id.len(),
    ensures
        assembled(by_id, n) is Ok <==> all_stand(by_id, n),
        assembled(by_id, n) matches Ok(spokes) ==> ascending::<String, Seq<ParsedV>>(spokes) && (
        has_key::<String, Seq<ParsedV>>(spokes, s) <==> exists|i: int|
            0 <= i < n && !(#[trigger] by_id[i]).1.meta.disabled && slug(
                by_id[i].1.meta.doc_format,
            ) == Ok::<Text, Text>(s)),
    decreases n,
{
    if n == 0 {
        assert(!has_key::<String, Seq<ParsedV>>(Seq::<(Text, Seq<ParsedV>)>::empty(), s));
    } else {
        lemma_assembled(by_id, n - 1, s);
        let (id, m) = by_id[n - 1];
        let name = slug(m.meta.doc_format);
        if assembled(by_id, n - 1) is Ok {
            let acc = assembled(by_id, n - 1)->Ok_0;
            if !m.meta.disabled && name is Ok {
                lemma_assembled(by_id, n - 1, name->Ok_0);
                if has_key::<String, Seq<ParsedV>>(acc, name->Ok_0) {
                    let i = choose|i: int|
                        0 <= i < n - 1 && !(#[trigger] by_id[i]).1.meta.disabled && slug(
                            by_id[i].1.meta.doc_format,
                        ) == name;
                    assert(!by_id[n - 1].1.meta.disabled);
                    assert(!all_stand(by_id, n));
                } else {
                    assert forall|i: int, j: int|
                        0 <= i < j < n && !(#[trigger] by_id[i]).1.meta.disabled
                            && !(#[trigger] by_id[j]).1.meta.disabled implies slug(
                        by_id[i].1.meta.doc_format,
                    ) != slug(by_id[j].1.meta.doc_format) by {
                        if j == n - 1 && slug(by_id[i].1.meta.doc_format) == name {
                            assert(has_key::<String, Seq<ParsedV>>(acc, name->Ok_0));
                        }
                    }
                    if chain_of(by_id, id) is Ok {
                        let c = chain_of(by_id, id)->Ok_0;
                        lemma_put_ascending::<String, Seq<ParsedV>>(acc, name->Ok_0, c);
                        lemma_put_lookup::<String, Seq<ParsedV>>(acc, name->Ok_0, c, s);
                        assert(lookup::<String, Seq<ParsedV>>(acc, s) is Some <==> has_key::<
                            String,
                            Seq<ParsedV>,
                        >(acc, s));
                        assert(all_stand(by_id, n));
                        if s == name->Ok_0 {
                            assert(!by_id[n - 1].1.meta.disabled);
                        }
                    } else {
                        assert(chain_of(by_id, by_id[n - 1].0) is Err);
                    }
                }
            } else if !m.meta.disabled {
                assert(slug(by_id[n - 1].1.meta.doc_format) is Err);
            } else if chain_of(by_id, id) is Ok {
                assert(all_stand(by_id, n));
            } else {
                assert(chain_of(by_id, by_id[n - 1].0) is Err);
            }
        } else {
            if all_stand(by_id, n) {
                assert(all_stand(by_id, n - 1));
            }
        }
    }
}

/// A directory loads if, and only if, it has a mapping, every file holds one with an id of
/// its own, every mapping has its chain, and the enabled ones have names of their own.
pub proof fn law_directories_load_when_all_is_sound(dir: Text, files: Seq<SourceFile>)
    ensures
        loaded(dir, files) is Ok <==> files.len() > 0 && all_hold(files, files.len() as int)
            && all_stand(
            collected(files, files.len() as int)->Ok_0,
            collected(files, files.len() as int)->Ok_0.len() as int,
        ),
        loaded(dir, files) matches Ok(l) ==> l.files.len() == files.len() && forall|i: int|
            0 <= i < files.len() ==> #[trigger] l.files[i] == files[i].path@,
{
    let n = files.len() as int;
    lemma_collected(files, n);
    if collected(files, n) is Ok {
        lemma_found(files, n, Seq::empty());
        let by_id = collected(files, n)->Ok_0;
        lemma_assembled(by_id, by_id.len() as int, Seq::empty());
    }
}

// ---------------------------------------------------------------------------
// Cycles
// ---------------------------------------------------------------------------

/// Whether every report is on a node that counts as reported, and no two are on the same.
spec fn once(st: SearchV) -> bool {
    &&& ascending::<NodeId, ()>(st.reported)
    &&& forall|i: int|
        0 <= i < st.diags.len() ==> ((#[trigger] st.diags[i]).source_node matches Some(x)
            && has_key::<NodeId, ()>(st.reported, x))
    &&& forall|i: int, j: int|
        0 <= i < j < st.diags.len() ==> (#[trigger] st.diags[i]).source_node != (
        #[trigger] st.diags[j]).source_node
}

proof fn lemma_visited(fuel: nat, nodes: IrNodesV, id: Text, st: SearchV)
    requires
        once(st),
    ensures
        once(visited(fuel, nodes, id, st)),
    decreases fuel, 0nat,
{
    let t = visited(fuel, nodes, id, st);
    match lookup::<NodeId, bool>(st.marks, id) {
        Some(true) => {},
        Some(false) => {
            if !has_key::<NodeId, ()>(st.reported, id) {
                lemma_put_ascending::<NodeId, ()>(st.reported, id, ());
                assert forall|x: Text|
                    #![trigger has_key::<NodeId, ()>(t.reported, x)]
                    has_key::<NodeId, ()>(t.reported, x) <==> x == id || has_key::<NodeId, ()>(
                        st.reported,
                        x,
                    ) by {
                    lemma_put_lookup::<NodeId, ()>(st.reported, id, (), x);
                    assert(lookup::<NodeId, ()>(t.reported, x) is Some <==> has_key::<NodeId, ()>(
                        t.reported,
                        x,
                    ));
                }
                assert forall|i: int| 0 <= i < t.diags.len() implies ((
                #[trigger] t.diags[i]).source_node matches Some(x) && has_key::<NodeId, ()>(
                    t.reported,
                    x,
                )) by {
                    if i < st.diags.len() {
                        assert(t.diags[i] == st.diags[i]);
                        let x = st.diags[i].source_node->0;
                        assert(has_key::<NodeId, ()>(st.reported, x));
                        assert(has_key::<NodeId, ()>(t.reported, x));
                    } else {
                        assert(t.diags[i] == cycle_error(id));
                        assert(has_key::<NodeId, ()>(t.reported, id));
                    }
                }
                assert forall|i: int, j: int| 0 <= i < j < t.diags.len() implies (
                #[trigger] t.diags[i]).source_node != (#[trigger] t.diags[j]).source_node by {
                    assert(t.diags[i] == st.diags[i]);
                    if j < st.diags.len() {
                        assert(t.diags[j] == st.diags[j]);
                    } else {
                        assert(t.diags[j] == cycle_error(id));
                        assert(has_key::<NodeId, ()>(st.reported, st.diags[i].source_node->0));
                    }
                }
            }
        },
        None => {
            if fuel > 0 {
                let entered = SearchV { marks: put::<NodeId, bool>(st.marks, id, false), ..st };
                let targets = fallbacks_of(nodes, id);
                assert(once(entered));
                lemma_visited_all((fuel - 1) as nat, nodes, targets, targets.len(), entered);
            }
        },
    }
}

proof fn lemma_visited_all(
    fuel: nat,
    nodes: IrNodesV,
    targets: Seq<Text>,
    n: nat,
    st: SearchV,
)
    requires
        once(st),
    ensures
        once(visited_all(fuel, nodes, targets, n, st)),
    decreases fuel, n + 1,
{
    if n > 0 && n <= targets.len() {
        lemma_visited_all(fuel, nodes, targets, (n - 1) as nat, st);
        let before = visited_all(fuel, nodes, targets, (n - 1) as nat, st);
        if has_key::<NodeId, NodeV>(nodes, targets[n - 1]) {
            lemma_visited(fuel, nodes, targets[n - 1], before);
        }
    }
}

proof fn lemma_searched(nodes: IrNodesV, n: int)
    ensures
        once(searched(nodes, n)),
    decreases n,
{
    if n > 0 {
        lemma_searched(nodes, n - 1);
        lemma_visited(nodes.len(), nodes, nodes[n - 1].0, searched(nodes, n - 1));
    }
}

/// No node is reported twice for a cycle of fallbacks.
pub proof fn law_cycles_are_reported_once(nodes: IrNodesV, i: int, j: int)
    requires
        0 <= i < j < cycle_diags(nodes).len(),
    ensures
        cycle_diags(nodes)[i].source_node != cycle_diags(nodes)[j].source_node,
{
    lemma_searched(nodes, nodes.len() as int);
}

} // verus!
