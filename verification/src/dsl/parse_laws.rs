//! What a mapping file says, table by table.
use vstd::prelude::*;

use crate::dsl::decode::{
    bool_value, op_value, ops_upto, ops_value, policy_value, size_value, text_value, texts_upto,
    texts_value, type_value,
};
use crate::dsl::meta::MetaV;
use crate::dsl::multiple::MultiplePolicy;
use crate::dsl::node::{empty_raw, NodeId, RawV};
use crate::dsl::normalize::NormalizeOp;
use crate::dsl::parse::{
    document_mapping, entry, flat, flat_children, has_own, meta_entries, meta_set, meta_value,
    raw_fields, raw_known, raw_set, top_nodes, MetaDraftV, NodesV,
};
use crate::dsl::types::{law_type_keyword_round_trip, type_keyword, MappingType};
use crate::dsl::value::TomlV;
use crate::ordmap::{ascending, lemma_put_ascending, lemma_put_lookup, lookup, put};
use crate::text::Text;

verus! {

// ---------------------------------------------------------------------------
// Values
// ---------------------------------------------------------------------------

/// A text is read from a string or from a date; a truth value and a size only from what
/// they are; and a size is not negative.
pub proof fn law_values_are_read_as_written(v: TomlV, t: Text, b: bool, n: usize)
    ensures
        text_value(v) == Ok::<Text, Text>(t) <==> v == TomlV::Text(t) || v == TomlV::Datetime(t),
        bool_value(v) == Ok::<bool, Text>(b) <==> v == TomlV::Boolean(b),
        size_value(v) == Ok::<usize, Text>(n) <==> (v matches TomlV::Integer(i) && i == n),
{
}

proof fn lemma_texts(items: Seq<TomlV>)
    ensures
        texts_upto(items) is Ok <==> forall|i: int|
            0 <= i < items.len() ==> text_value(#[trigger] items[i]) is Ok,
        texts_upto(items) matches Ok(ts) ==> ts.len() == items.len() && forall|i: int|
            0 <= i < items.len() ==> text_value(items[i]) == Ok::<Text, Text>(#[trigger] ts[i]),
    decreases items.len(),
{
    if items.len() > 0 {
        let head = items.drop_last();
        lemma_texts(head);
        assert forall|i: int| 0 <= i < head.len() implies head[i] == #[trigger] items[i] by {}
        if texts_upto(head) is Ok {
            if text_value(items.last()) is Ok {
                let ts = texts_upto(items)->Ok_0;
                let hs = texts_upto(head)->Ok_0;
                assert forall|i: int| 0 <= i < items.len() implies text_value(items[i]) == Ok::<
                    Text,
                    Text,
                >(#[trigger] ts[i]) by {
                    if i < head.len() {
                        assert(ts[i] == hs[i]);
                        assert(head[i] == items[i]);
                    }
                }
            } else {
                assert(text_value(items[items.len() - 1]) is Err);
            }
        } else {
            let i = choose|i: int|
                0 <= i < head.len() && !(text_value(#[trigger] head[i]) is Ok);
            assert(text_value(items[i]) is Err);
        }
    }
}

/// A list of texts is read from an array of them, all of them and in order, and from
/// nothing else.
pub proof fn law_lists_of_texts_are_read_in_order(v: TomlV, ts: Seq<Text>)
    ensures
        texts_value(v) == Ok::<Seq<Text>, Text>(ts) <==> (v matches TomlV::Array(items)
            && items.len() == ts.len() && forall|i: int|
            0 <= i < items.len() ==> (#[trigger] items[i] == TomlV::Text(ts[i]) || items[i]
                == TomlV::Datetime(ts[i]))),
{
    if let TomlV::Array(items) = v {
        lemma_texts(items);
        if texts_value(v) == Ok::<Seq<Text>, Text>(ts) {
            assert forall|i: int| 0 <= i < items.len() implies (#[trigger] items[i] == TomlV::Text(
                ts[i],
            ) || items[i] == TomlV::Datetime(ts[i])) by {
                assert(text_value(items[i]) == Ok::<Text, Text>(ts[i]));
            }
        }
        if items.len() == ts.len() && forall|i: int|
            0 <= i < items.len() ==> (#[trigger] items[i] == TomlV::Text(ts[i]) || items[i]
                == TomlV::Datetime(ts[i])) {
            let us = texts_upto(items)->Ok_0;
            assert forall|i: int| 0 <= i < items.len() implies us[i] == ts[i] by {
                assert(text_value(items[i]) == Ok::<Text, Text>(us[i]));
            }
            assert(us =~= ts);
        }
    }
}

/// The keyword of a choice among values.
pub open spec fn policy_name(p: MultiplePolicy) -> Text {
    match p {
        MultiplePolicy::Error => "error"@,
        MultiplePolicy::First => "first"@,
        MultiplePolicy::Join => "join"@,
    }
}

/// The keyword of a normalization step.
pub open spec fn op_name(op: NormalizeOp) -> Text {
    match op {
        NormalizeOp::Trim => "trim"@,
        NormalizeOp::Uppercase => "uppercase"@,
        NormalizeOp::Lowercase => "lowercase"@,
        NormalizeOp::EmptyAsMissing => "empty_as_missing"@,
    }
}

/// A type, a choice among values and a normalization step are read from their keywords,
/// and from no other text.
pub proof fn law_keywords_are_read(w: Text, ty: MappingType, p: MultiplePolicy, op: NormalizeOp)
    ensures
        type_value(TomlV::Text(type_keyword(ty))) == Ok::<MappingType, Text>(ty),
        policy_value(TomlV::Text(w)) == Ok::<MultiplePolicy, Text>(p) <==> w == policy_name(p),
        op_value(TomlV::Text(w)) == Ok::<NormalizeOp, Text>(op) <==> w == op_name(op),
        type_value(TomlV::Text(w)) == Ok::<MappingType, Text>(ty) ==> w == type_keyword(ty),
{
    law_type_keyword_round_trip(ty);
    reveal_strlit("error");
    reveal_strlit("first");
    reveal_strlit("join");
    reveal_strlit("trim");
    reveal_strlit("uppercase");
    reveal_strlit("lowercase");
    reveal_strlit("empty_as_missing");
    assert("error"@.len() == 5 && "first"@.len() == 5 && "join"@.len() == 4);
    assert("error"@[0] == 'e' && "first"@[0] == 'f');
    assert("trim"@.len() == 4 && "uppercase"@.len() == 9 && "lowercase"@.len() == 9);
    assert("uppercase"@[0] == 'u' && "lowercase"@[0] == 'l');
    assert("empty_as_missing"@.len() == 16);
}

proof fn lemma_ops(items: Seq<TomlV>)
    ensures
        ops_upto(items) matches Ok(ops) ==> ops.len() == items.len() && forall|i: int|
            0 <= i < items.len() ==> op_value(items[i]) == Ok::<NormalizeOp, Text>(
                #[trigger] ops[i],
            ),
        (forall|i: int| 0 <= i < items.len() ==> op_value(#[trigger] items[i]) is Ok) ==> ops_upto(
            items,
        ) is Ok,
    decreases items.len(),
{
    if items.len() > 0 {
        let head = items.drop_last();
        lemma_ops(head);
        assert forall|i: int| 0 <= i < head.len() implies head[i] == #[trigger] items[i] by {}
        if ops_upto(items) is Ok {
            let ops = ops_upto(items)->Ok_0;
            let hs = ops_upto(head)->Ok_0;
            assert forall|i: int| 0 <= i < items.len() implies op_value(items[i]) == Ok::<
                NormalizeOp,
                Text,
            >(#[trigger] ops[i]) by {
                if i < head.len() {
                    assert(ops[i] == hs[i]);
                    assert(head[i] == items[i]);
                }
            }
        }
        if forall|i: int| 0 <= i < items.len() ==> op_value(#[trigger] items[i]) is Ok {
            assert forall|i: int| 0 <= i < head.len() implies op_value(#[trigger] head[i]) is Ok by {
                assert(head[i] == items[i]);
            }
            assert(op_value(items[items.len() - 1]) is Ok);
        }
    }
}

/// The normalization steps of a node are read in the order in which they are written.
pub proof fn law_steps_are_read_in_order(items: Seq<TomlV>, ops: Seq<NormalizeOp>)
    requires
        items.len() == ops.len(),
        forall|i: int|
            0 <= i < items.len() ==> #[trigger] items[i] == TomlV::Text(op_name(ops[i])),
    ensures
        ops_value(TomlV::Array(items)) == Ok::<Seq<NormalizeOp>, Text>(ops),
{
    assert forall|i: int| 0 <= i < items.len() implies op_value(#[trigger] items[i]) == Ok::<
        NormalizeOp,
        Text,
    >(ops[i]) by {
        law_keywords_are_read(
            op_name(ops[i]),
            MappingType::String,
            MultiplePolicy::First,
            ops[i],
        );
    }
    lemma_ops(items);
    let read = ops_upto(items)->Ok_0;
    assert forall|i: int| 0 <= i < items.len() implies read[i] == ops[i] by {
        assert(op_value(items[i]) == Ok::<NormalizeOp, Text>(read[i]));
    }
    assert(read =~= ops);
}

// ---------------------------------------------------------------------------
// Nodes
// ---------------------------------------------------------------------------

/// Whether a node shows the value that its table gives a field.
pub open spec fn shows(n: RawV, key: Text, v: TomlV) -> bool {
    &&& key == "xml"@ ==> n.xml is Some && text_value(v) == Ok::<Text, Text>(n.xml->0)
    &&& key == "type"@ ==> n.ty is Some && type_value(v) == Ok::<MappingType, Text>(n.ty->0)
    &&& key == "canonical_key"@ ==> n.canonical_key is Some && text_value(v) == Ok::<Text, Text>(
        n.canonical_key->0,
    )
    &&& key == "required"@ ==> n.required is Some && bool_value(v) == Ok::<bool, Text>(
        n.required->0,
    )
    &&& key == "fallbacks"@ ==> n.fallbacks is Some && texts_value(v) == Ok::<Seq<Text>, Text>(
        n.fallbacks->0,
    )
    &&& key == "description"@ ==> n.description is Some && text_value(v) == Ok::<Text, Text>(
        n.description->0,
    )
    &&& key == "min_items"@ ==> n.min_items is Some && size_value(v) == Ok::<usize, Text>(
        n.min_items->0,
    )
    &&& key == "multiple"@ ==> n.multiple is Some && policy_value(v) == Ok::<MultiplePolicy, Text>(
        n.multiple->0,
    )
    &&& key == "join_with"@ ==> n.join_with is Some && text_value(v) == Ok::<Text, Text>(
        n.join_with->0,
    )
    &&& key == "normalize"@ ==> n.normalize is Some && ops_value(v) == Ok::<
        Seq<NormalizeOp>,
        Text,
    >(n.normalize->0)
    &&& key == "adapter"@ ==> n.adapter is Some && text_value(v) == Ok::<Text, Text>(n.adapter->0)
    &&& key == "constant"@ ==> n.constant is Some && text_value(v) == Ok::<Text, Text>(
        n.constant->0,
    )
    &&& key == "clone_of"@ ==> n.clone_of is Some && text_value(v) == Ok::<Text, Text>(
        n.clone_of->0,
    )
    &&& key == "disabled"@ ==> n.disabled is Some && bool_value(v) == Ok::<bool, Text>(
        n.disabled->0,
    )
}

/// Whether a table gives a field a value.
pub open spec fn gives(entries: Seq<(Text, TomlV)>, key: Text) -> bool {
    exists|i: int|
        0 <= i < entries.len() && (#[trigger] entries[i]).0 == key && !(entries[i].1 is Table)
}

/// Whether a node has no more fields than its table gives values to.
pub open spec fn shows_no_more(n: RawV, entries: Seq<(Text, TomlV)>) -> bool {
    &&& n.xml is Some ==> gives(entries, "xml"@)
    &&& n.ty is Some ==> gives(entries, "type"@)
    &&& n.canonical_key is Some ==> gives(entries, "canonical_key"@)
    &&& n.required is Some ==> gives(entries, "required"@)
    &&& n.fallbacks is Some ==> gives(entries, "fallbacks"@)
    &&& n.description is Some ==> gives(entries, "description"@)
    &&& n.min_items is Some ==> gives(entries, "min_items"@)
    &&& n.multiple is Some ==> gives(entries, "multiple"@)
    &&& n.join_with is Some ==> gives(entries, "join_with"@)
    &&& n.normalize is Some ==> gives(entries, "normalize"@)
    &&& n.adapter is Some ==> gives(entries, "adapter"@)
    &&& n.constant is Some ==> gives(entries, "constant"@)
    &&& n.clone_of is Some ==> gives(entries, "clone_of"@)
    &&& n.disabled is Some ==> gives(entries, "disabled"@)
}

/// Whether no key stands twice in a table.
pub open spec fn keys_differ(entries: Seq<(Text, TomlV)>) -> bool {
    forall|i: int, j: int|
        0 <= i < j < entries.len() ==> (#[trigger] entries[i]).0 != (#[trigger] entries[j]).0
}

proof fn lemma_set_keeps(acc: RawV, k: Text, v: TomlV, key: Text, w: TomlV)
    requires
        raw_set(acc, k, v) is Ok,
        k != key,
        shows(acc, key, w),
    ensures
        shows(raw_set(acc, k, v)->Ok_0, key, w),
{
}

proof fn lemma_set_shows(acc: RawV, k: Text, v: TomlV)
    requires
        raw_set(acc, k, v) is Ok,
    ensures
        shows(raw_set(acc, k, v)->Ok_0, k, v),
{
    lemma_fields_differ();
}

proof fn lemma_fields_differ()
    ensures
        "xml"@.len() == 3,
        "type"@.len() == 4,
        "canonical_key"@.len() == 13,
        "required"@.len() == 8,
        "required"@[0] == 'r',
        "fallbacks"@.len() == 9,
        "fallbacks"@[0] == 'f',
        "description"@.len() == 11,
        "min_items"@.len() == 9,
        "min_items"@[0] == 'm',
        "multiple"@.len() == 8,
        "multiple"@[0] == 'm',
        "join_with"@.len() == 9,
        "join_with"@[0] == 'j',
        "normalize"@.len() == 9,
        "normalize"@[0] == 'n',
        "adapter"@.len() == 7,
        "constant"@.len() == 8,
        "constant"@[0] == 'c',
        "constant"@[1] == 'o',
        "clone_of"@.len() == 8,
        "clone_of"@[0] == 'c',
        "clone_of"@[1] == 'l',
        "disabled"@.len() == 8,
        "disabled"@[0] == 'd',
{
    reveal_strlit("xml");
    reveal_strlit("type");
    reveal_strlit("canonical_key");
    reveal_strlit("required");
    reveal_strlit("fallbacks");
    reveal_strlit("description");
    reveal_strlit("min_items");
    reveal_strlit("multiple");
    reveal_strlit("join_with");
    reveal_strlit("normalize");
    reveal_strlit("adapter");
    reveal_strlit("constant");
    reveal_strlit("clone_of");
    reveal_strlit("disabled");
}

proof fn lemma_gives_more(entries: Seq<(Text, TomlV)>)
    requires
        entries.len() > 0,
    ensures
        forall|key: Text| #[trigger] gives(entries.drop_last(), key) ==> gives(entries, key),
{
    let head = entries.drop_last();
    assert forall|key: Text| #[trigger] gives(head, key) implies gives(entries, key) by {
        let i = choose|i: int|
            0 <= i < head.len() && (#[trigger] head[i]).0 == key && !(head[i].1 is Table);
        assert(entries[i] == head[i]);
    }
}

/// A node has the fields that its table gives values to, each with its own value, and no
/// others. Entries that are tables themselves are no fields.
pub proof fn law_fields_are_those_of_the_table(entries: Seq<(Text, TomlV)>)
    requires
        keys_differ(entries),
        raw_fields(entries) is Ok,
    ensures
        forall|i: int|
            0 <= i < entries.len() && !((#[trigger] entries[i]).1 is Table) ==> raw_known(
                entries[i].0,
            ) && shows(raw_fields(entries)->Ok_0, entries[i].0, entries[i].1),
        shows_no_more(raw_fields(entries)->Ok_0, entries),
    decreases entries.len(),
{
    if entries.len() > 0 {
        let head = entries.drop_last();
        assert forall|i: int, j: int| 0 <= i < j < head.len() implies (#[trigger] head[i]).0 != (
        #[trigger] head[j]).0 by {
            assert(head[i] == entries[i] && head[j] == entries[j]);
        }
        law_fields_are_those_of_the_table(head);
        let acc = raw_fields(head)->Ok_0;
        let n = raw_fields(entries)->Ok_0;
        let last = entries.last();
        lemma_gives_more(entries);
        assert forall|i: int|
            0 <= i < entries.len() && !((#[trigger] entries[i]).1 is Table) implies raw_known(
            entries[i].0,
        ) && shows(n, entries[i].0, entries[i].1) by {
            if i < head.len() {
                assert(head[i] == entries[i]);
                if !(last.1 is Table) {
                    assert(entries[i].0 != entries[entries.len() - 1].0);
                    lemma_set_keeps(acc, last.0, last.1, entries[i].0, entries[i].1);
                }
            } else {
                lemma_set_shows(acc, last.0, last.1);
            }
        }
        if !(last.1 is Table) {
            assert(entries[entries.len() - 1] == last);
            assert(gives(entries, last.0));
        }
    }
}

/// A table that holds nothing but fields, each with a value of its kind, is read.
pub proof fn law_well_formed_fields_are_read(entries: Seq<(Text, TomlV)>)
    ensures
        raw_fields(entries) is Ok <==> forall|i: int|
            0 <= i < entries.len() && !((#[trigger] entries[i]).1 is Table) ==> raw_known(
                entries[i].0,
            ) && raw_set(empty_raw(), entries[i].0, entries[i].1) is Ok,
    decreases entries.len(),
{
    if entries.len() > 0 {
        let head = entries.drop_last();
        law_well_formed_fields_are_read(head);
        assert forall|i: int| 0 <= i < head.len() implies head[i] == #[trigger] entries[i] by {}
        let last = entries.last();
        assert(entries[entries.len() - 1] == last);
        if raw_fields(head) is Ok {
            let acc = raw_fields(head)->Ok_0;
            assert(raw_set(acc, last.0, last.1) is Ok <==> raw_set(empty_raw(), last.0, last.1)
                is Ok);
        } else {
            let i = choose|i: int|
                0 <= i < head.len() && !((#[trigger] head[i]).1 is Table) && !(raw_known(head[i].0)
                    && raw_set(empty_raw(), head[i].0, head[i].1) is Ok);
            assert(entries[i] == head[i]);
        }
    }
}

// ---------------------------------------------------------------------------
// The tree of nodes
// ---------------------------------------------------------------------------

/// Whether a table, which stands under an id, writes a node under another: the table
/// itself if it has a field of its own, or a table inside it.
pub open spec fn writes(id: Text, t: Seq<(Text, TomlV)>, node: Text) -> bool
    decreases t,
{
    (node == id && has_own(t)) || exists|i: int|
        0 <= i < t.len() && (#[trigger] t[i]).1 is Table && (t[i].1 matches TomlV::Table(child)
            && writes(id + "."@ + t[i].0, child, node))
}

/// Whether one of the first tables inside a table writes a node.
pub open spec fn child_writes(id: Text, t: Seq<(Text, TomlV)>, n: int, node: Text) -> bool {
    exists|i: int|
        0 <= i < n && (#[trigger] t[i]).1 is Table && (t[i].1 matches TomlV::Table(child) && writes(
            id + "."@ + t[i].0,
            child,
            node,
        ))
}

proof fn lemma_flat(id: Text, t: Seq<(Text, TomlV)>, nodes: NodesV, node: Text)
    requires
        ascending::<NodeId, RawV>(nodes),
        flat(id, t, nodes) is Ok,
    ensures
        ascending::<NodeId, RawV>(flat(id, t, nodes)->Ok_0),
        lookup::<NodeId, RawV>(flat(id, t, nodes)->Ok_0, node) is Some <==> lookup::<NodeId, RawV>(
            nodes,
            node,
        ) is Some || writes(id, t, node),
        !writes(id, t, node) ==> lookup::<NodeId, RawV>(flat(id, t, nodes)->Ok_0, node)
            == lookup::<NodeId, RawV>(nodes, node),
    decreases t, t.len() + 1,
{
    let start = if has_own(t) {
        put::<NodeId, RawV>(nodes, id, raw_fields(t)->Ok_0)
    } else {
        nodes
    };
    if has_own(t) {
        lemma_put_ascending::<NodeId, RawV>(nodes, id, raw_fields(t)->Ok_0);
        lemma_put_lookup::<NodeId, RawV>(nodes, id, raw_fields(t)->Ok_0, node);
    }
    lemma_flat_children(id, t, t.len(), start, node);
    assert(writes(id, t, node) <==> (node == id && has_own(t)) || child_writes(
        id,
        t,
        t.len() as int,
        node,
    ));
}

proof fn lemma_flat_children(id: Text, t: Seq<(Text, TomlV)>, n: nat, nodes: NodesV, node: Text)
    requires
        ascending::<NodeId, RawV>(nodes),
        n <= t.len(),
        flat_children(id, t, n, nodes) is Ok,
    ensures
        ascending::<NodeId, RawV>(flat_children(id, t, n, nodes)->Ok_0),
        lookup::<NodeId, RawV>(flat_children(id, t, n, nodes)->Ok_0, node) is Some <==> lookup::<
            NodeId,
            RawV,
        >(nodes, node) is Some || child_writes(id, t, n as int, node),
        !child_writes(id, t, n as int, node) ==> lookup::<NodeId, RawV>(
            flat_children(id, t, n, nodes)->Ok_0,
            node,
        ) == lookup::<NodeId, RawV>(nodes, node),
    decreases t, n,
{
    if n > 0 {
        let m = (n - 1) as nat;
        lemma_flat_children(id, t, m, nodes, node);
        let acc = flat_children(id, t, m, nodes)->Ok_0;
        assert(child_writes(id, t, n as int, node) <==> child_writes(id, t, m as int, node) || (t[n
            - 1].1 matches TomlV::Table(child) && writes(id + "."@ + t[n - 1].0, child, node))) by {
            if t[n - 1].1 is Table && writes(id + "."@ + t[n - 1].0, t[n - 1].1->Table_0, node) {
                assert(t[n - 1].1 is Table);
                assert(child_writes(id, t, n as int, node));
            }
        }
        if let TomlV::Table(child) = t[n - 1].1 {
            assert(decreases_to!(t => t[n - 1]));
            assert(decreases_to!(t[n - 1] => t[n - 1].1));
            assert(decreases_to!(t[n - 1].1 => child));
            lemma_flat(id + "."@ + t[n - 1].0, child, acc, node);
        }
    }
}

/// Whether a document writes a node: a table at its top, but for the meta table, or a
/// table inside one.
pub open spec fn document_writes(entries: Seq<(Text, TomlV)>, node: Text) -> bool {
    exists|i: int|
        0 <= i < entries.len() && (#[trigger] entries[i]).0 != "meta"@ && (entries[i].1
            matches TomlV::Table(t) && writes(entries[i].0, t, node))
}

proof fn lemma_top(entries: Seq<(Text, TomlV)>, node: Text)
    requires
        top_nodes(entries) is Ok,
    ensures
        ascending::<NodeId, RawV>(top_nodes(entries)->Ok_0),
        lookup::<NodeId, RawV>(top_nodes(entries)->Ok_0, node) is Some <==> document_writes(
            entries,
            node,
        ),
        forall|i: int|
            0 <= i < entries.len() && (#[trigger] entries[i]).0 != "meta"@ ==> entries[i].1 is Table,
    decreases entries.len(),
{
    if entries.len() == 0 {
        assert(lookup::<NodeId, RawV>(Seq::<(Text, RawV)>::empty(), node) is None);
    } else {
        let head = entries.drop_last();
        lemma_top(head, node);
        let acc = top_nodes(head)->Ok_0;
        let last = entries.last();
        assert(entries[entries.len() - 1] == last);
        if last.0 != "meta"@ {
            lemma_flat(last.0, last.1->Table_0, acc, node);
        }
        assert forall|i: int|
            0 <= i < entries.len() && (#[trigger] entries[i]).0 != "meta"@ implies entries[i].1
            is Table by {
            if i < head.len() {
                assert(head[i] == entries[i]);
            }
        }
        if document_writes(head, node) {
            let i = choose|i: int|
                0 <= i < head.len() && (#[trigger] head[i]).0 != "meta"@ && (head[i].1
                    matches TomlV::Table(t) && writes(head[i].0, t, node));
            assert(entries[i] == head[i]);
        }
        if document_writes(entries, node) {
            let i = choose|i: int|
                0 <= i < entries.len() && (#[trigger] entries[i]).0 != "meta"@ && (entries[i].1
                    matches TomlV::Table(t) && writes(entries[i].0, t, node));
            if i < head.len() {
                assert(entries[i] == head[i]);
            }
        }
    }
}

/// A mapping file has the nodes that its tables write, under the names of the tables with
/// dots between them, and no others; everything at its top is a table.
pub proof fn law_nodes_are_those_of_the_tables(root: Seq<(Text, TomlV)>, node: Text)
    requires
        document_mapping(root) is Ok,
    ensures
        lookup::<NodeId, RawV>(document_mapping(root)->Ok_0.nodes, node) is Some
            <==> document_writes(root, node),
        ascending::<NodeId, RawV>(document_mapping(root)->Ok_0.nodes),
        forall|i: int|
            0 <= i < root.len() && (#[trigger] root[i]).0 != "meta"@ ==> root[i].1 is Table,
{
    lemma_top(root, node);
}

/// Whether a draft of the meta table shows the value that the table gives a field.
pub open spec fn draft_shows(d: MetaDraftV, key: Text, v: TomlV) -> bool {
    &&& key == "doc_format"@ ==> d.doc_format is Some && text_value(v) == Ok::<Text, Text>(d.doc_format->0)
    &&& key == "format_version"@ ==> d.format_version is Some && text_value(v) == Ok::<Text, Text>(d.format_version->0)
    &&& key == "mapping_version"@ ==> d.mapping_version is Some && text_value(v) == Ok::<Text, Text>(d.mapping_version->0)
    &&& key == "canonical_model"@ ==> d.canonical_model is Some && text_value(v) == Ok::<Text, Text>(d.canonical_model->0)
    &&& key == "root"@ ==> d.root is Some && text_value(v) == Ok::<Text, Text>(d.root->0)
    &&& key == "source_model"@ ==> d.source_model is Some && text_value(v) == Ok::<Text, Text>(d.source_model->0)
    &&& key == "detect"@ ==> d.detect is Some && texts_value(v) == Ok::<Seq<Text>, Text>(d.detect->0)
    &&& key == "inherits"@ ==> d.inherits is Some && text_value(v) == Ok::<Text, Text>(d.inherits->0)
    &&& key == "disabled"@ ==> d.disabled is Some && bool_value(v) == Ok::<bool, Text>(d.disabled->0)
    &&& key == "description"@ ==> d.description is Some && text_value(v) == Ok::<Text, Text>(d.description->0)
}

/// Whether the meta table has no more fields than were given values.
pub open spec fn draft_shows_no_more(d: MetaDraftV, entries: Seq<(Text, TomlV)>) -> bool {
    &&& d.doc_format is Some ==> names(entries, "doc_format"@)
    &&& d.format_version is Some ==> names(entries, "format_version"@)
    &&& d.mapping_version is Some ==> names(entries, "mapping_version"@)
    &&& d.canonical_model is Some ==> names(entries, "canonical_model"@)
    &&& d.root is Some ==> names(entries, "root"@)
    &&& d.source_model is Some ==> names(entries, "source_model"@)
    &&& d.detect is Some ==> names(entries, "detect"@)
    &&& d.inherits is Some ==> names(entries, "inherits"@)
    &&& d.disabled is Some ==> names(entries, "disabled"@)
    &&& d.description is Some ==> names(entries, "description"@)
}

/// Whether a table has an entry with a key.
pub open spec fn names(entries: Seq<(Text, TomlV)>, key: Text) -> bool {
    exists|i: int| 0 <= i < entries.len() && (#[trigger] entries[i]).0 == key
}

proof fn lemma_meta_set_keeps(acc: MetaDraftV, k: Text, v: TomlV, key: Text, w: TomlV)
    requires
        meta_set(acc, k, v) is Ok,
        k != key,
        draft_shows(acc, key, w),
    ensures
        draft_shows(meta_set(acc, k, v)->Ok_0, key, w),
{
}

proof fn lemma_meta_set_shows(acc: MetaDraftV, k: Text, v: TomlV)
    requires
        meta_set(acc, k, v) is Ok,
    ensures
        draft_shows(meta_set(acc, k, v)->Ok_0, k, v),
{
    reveal_strlit("doc_format");
    reveal_strlit("format_version");
    reveal_strlit("mapping_version");
    reveal_strlit("canonical_model");
    reveal_strlit("root");
    reveal_strlit("source_model");
    reveal_strlit("detect");
    reveal_strlit("inherits");
    reveal_strlit("disabled");
    reveal_strlit("description");
    assert("doc_format"@.len() == 10);
    assert("format_version"@.len() == 14);
    assert("mapping_version"@.len() == 15);
    assert("canonical_model"@.len() == 15);
    assert("root"@.len() == 4);
    assert("source_model"@.len() == 12);
    assert("detect"@.len() == 6);
    assert("inherits"@.len() == 8);
    assert("disabled"@.len() == 8);
    assert("description"@.len() == 11);
    assert("mapping_version"@[0] == 'm' && "canonical_model"@[0] == 'c');
    assert("inherits"@[0] == 'i' && "disabled"@[0] == 'd');
}

proof fn lemma_meta_entries(entries: Seq<(Text, TomlV)>)
    requires
        keys_differ(entries),
        meta_entries(entries) is Ok,
    ensures
        forall|i: int|
            0 <= i < entries.len() ==> draft_shows(
                meta_entries(entries)->Ok_0,
                (#[trigger] entries[i]).0,
                entries[i].1,
            ),
        draft_shows_no_more(meta_entries(entries)->Ok_0, entries),
    decreases entries.len(),
{
    if entries.len() > 0 {
        let head = entries.drop_last();
        assert forall|i: int, j: int| 0 <= i < j < head.len() implies (#[trigger] head[i]).0 != (
        #[trigger] head[j]).0 by {
            assert(head[i] == entries[i] && head[j] == entries[j]);
        }
        lemma_meta_entries(head);
        let acc = meta_entries(head)->Ok_0;
        let last = entries.last();
        assert forall|i: int| 0 <= i < entries.len() implies draft_shows(
            meta_entries(entries)->Ok_0,
            (#[trigger] entries[i]).0,
            entries[i].1,
        ) by {
            if i < head.len() {
                assert(head[i] == entries[i]);
                assert(entries[i].0 != entries[entries.len() - 1].0);
                lemma_meta_set_keeps(acc, last.0, last.1, entries[i].0, entries[i].1);
            } else {
                lemma_meta_set_shows(acc, last.0, last.1);
            }
        }
        assert forall|key: Text| #[trigger] names(head, key) implies names(entries, key) by {
            let i = choose|i: int| 0 <= i < head.len() && (#[trigger] head[i]).0 == key;
            assert(entries[i] == head[i]);
        }
        assert(entries[entries.len() - 1] == last);
        assert(names(entries, last.0));
    }
}

/// Whether the meta table shows the value that the file gives a field.
pub open spec fn meta_shows(m: MetaV, key: Text, v: TomlV) -> bool {
    &&& key == "doc_format"@ ==> text_value(v) == Ok::<Text, Text>(m.doc_format)
    &&& key == "format_version"@ ==> text_value(v) == Ok::<Text, Text>(m.format_version)
    &&& key == "mapping_version"@ ==> text_value(v) == Ok::<Text, Text>(m.mapping_version)
    &&& key == "canonical_model"@ ==> text_value(v) == Ok::<Text, Text>(m.canonical_model)
    &&& key == "root"@ ==> m.root is Some && text_value(v) == Ok::<Text, Text>(m.root->0)
    &&& key == "source_model"@ ==> m.source_model is Some && text_value(v) == Ok::<Text, Text>(
        m.source_model->0,
    )
    &&& key == "detect"@ ==> texts_value(v) == Ok::<Seq<Text>, Text>(m.detect)
    &&& key == "inherits"@ ==> m.inherits is Some && text_value(v) == Ok::<Text, Text>(
        m.inherits->0,
    )
    &&& key == "disabled"@ ==> bool_value(v) == Ok::<bool, Text>(m.disabled)
    &&& key == "description"@ ==> m.description is Some && text_value(v) == Ok::<Text, Text>(
        m.description->0,
    )
}

/// The meta table has the values that the file gives its fields. What the file does not
/// name is missing, empty or false; and it names what the format is, its version, the
/// version of the mapping and the canonical model.
pub proof fn law_meta_is_that_of_the_file(entries: Seq<(Text, TomlV)>)
    requires
        keys_differ(entries),
        meta_value(TomlV::Table(entries)) is Ok,
    ensures
        ({
            let m = meta_value(TomlV::Table(entries))->Ok_0;
            &&& forall|i: int|
                0 <= i < entries.len() ==> meta_shows(m, (#[trigger] entries[i]).0, entries[i].1)
            &&& names(entries, "doc_format"@) && names(entries, "format_version"@)
            &&& names(entries, "mapping_version"@) && names(entries, "canonical_model"@)
            &&& m.root is Some ==> names(entries, "root"@)
            &&& m.source_model is Some ==> names(entries, "source_model"@)
            &&& m.detect.len() > 0 ==> names(entries, "detect"@)
            &&& m.inherits is Some ==> names(entries, "inherits"@)
            &&& m.disabled ==> names(entries, "disabled"@)
            &&& m.description is Some ==> names(entries, "description"@)
        }),
{
    lemma_meta_entries(entries);
    let d = meta_entries(entries)->Ok_0;
    let m = meta_value(TomlV::Table(entries))->Ok_0;
    assert forall|i: int| 0 <= i < entries.len() implies meta_shows(
        m,
        (#[trigger] entries[i]).0,
        entries[i].1,
    ) by {
        assert(draft_shows(d, entries[i].0, entries[i].1));
    }
}

proof fn lemma_writes_longer(id: Text, t: Seq<(Text, TomlV)>, node: Text)
    requires
        writes(id, t, node),
    ensures
        id.is_prefix_of(node),
    decreases t,
{
    if !(node == id && has_own(t)) {
        let i = choose|i: int|
            0 <= i < t.len() && (#[trigger] t[i]).1 is Table && (t[i].1 matches TomlV::Table(child)
                && writes(id + "."@ + t[i].0, child, node));
        assert(decreases_to!(t => t[i]));
        assert(decreases_to!(t[i] => t[i].1));
        assert(decreases_to!(t[i].1 => t[i].1->Table_0));
        let inner = id + "."@ + t[i].0;
        lemma_writes_longer(inner, t[i].1->Table_0, node);
        assert(id =~= node.subrange(0, id.len() as int)) by {
            assert(inner =~= node.subrange(0, inner.len() as int));
            assert forall|k: int| 0 <= k < id.len() implies id[k] == node[k] by {
                assert(inner[k] == node.subrange(0, inner.len() as int)[k]);
            }
        }
    }
}

/// The nodes that a table writes stand under its own name: the table itself with its own
/// fields, and under the name and a dot those of the tables inside it. Nothing else
/// changes.
pub proof fn law_tables_write_under_their_name(
    id: Text,
    t: Seq<(Text, TomlV)>,
    nodes: NodesV,
    node: Text,
)
    requires
        ascending::<NodeId, RawV>(nodes),
        flat(id, t, nodes) is Ok,
    ensures
        has_own(t) ==> raw_fields(t) is Ok && lookup::<NodeId, RawV>(
            flat(id, t, nodes)->Ok_0,
            id,
        ) == Some(raw_fields(t)->Ok_0),
        !id.is_prefix_of(node) ==> lookup::<NodeId, RawV>(flat(id, t, nodes)->Ok_0, node)
            == lookup::<NodeId, RawV>(nodes, node),
        lookup::<NodeId, RawV>(nodes, node) is Some ==> lookup::<NodeId, RawV>(
            flat(id, t, nodes)->Ok_0,
            node,
        ) is Some,
{
    lemma_flat(id, t, nodes, node);
    if writes(id, t, node) {
        lemma_writes_longer(id, t, node);
    }
    if has_own(t) {
        let n = raw_fields(t)->Ok_0;
        let start = put::<NodeId, RawV>(nodes, id, n);
        lemma_put_ascending::<NodeId, RawV>(nodes, id, n);
        lemma_put_lookup::<NodeId, RawV>(nodes, id, n, id);
        lemma_flat_children(id, t, t.len(), start, id);
        if child_writes(id, t, t.len() as int, id) {
            let i = choose|i: int|
                0 <= i < t.len() && (#[trigger] t[i]).1 is Table && (t[i].1
                    matches TomlV::Table(child) && writes(id + "."@ + t[i].0, child, id));
            lemma_writes_longer(id + "."@ + t[i].0, t[i].1->Table_0, id);
            reveal_strlit(".");
        }
    }
}

/// Without a meta table there is no mapping, and the first entry of that name is the one
/// that counts.
pub proof fn law_meta_table_is_needed(root: Seq<(Text, TomlV)>, i: int)
    ensures
        !names(root, "meta"@) ==> document_mapping(root) is Err,
        0 <= i < root.len() && root[i].0 == "meta"@ && (forall|j: int|
            0 <= j < i ==> (#[trigger] root[j]).0 != "meta"@) && document_mapping(root) is Ok
            ==> meta_value(root[i].1) == Ok::<MetaV, Text>(document_mapping(root)->Ok_0.meta),
{
    if !names(root, "meta"@) {
        lemma_no_entry(root, "meta"@);
    }
    if 0 <= i < root.len() && root[i].0 == "meta"@ && (forall|j: int|
        0 <= j < i ==> (#[trigger] root[j]).0 != "meta"@) {
        lemma_entry(root, "meta"@, i);
    }
}

proof fn lemma_entry(entries: Seq<(Text, TomlV)>, key: Text, i: int)
    requires
        0 <= i < entries.len(),
        entries[i].0 == key,
        forall|j: int| 0 <= j < i ==> (#[trigger] entries[j]).0 != key,
    ensures
        entry(entries, key) == Some(entries[i].1),
    decreases i,
{
    if i > 0 {
        let rest = entries.drop_first();
        assert(entries[0].0 != key);
        assert forall|j: int| 0 <= j < i - 1 implies (#[trigger] rest[j]).0 != key by {
            assert(entries[j + 1] == rest[j]);
        }
        lemma_entry(rest, key, i - 1);
    }
}

proof fn lemma_no_entry(entries: Seq<(Text, TomlV)>, key: Text)
    requires
        !names(entries, key),
    ensures
        entry(entries, key) is None,
    decreases entries.len(),
{
    if entries.len() > 0 {
        let rest = entries.drop_first();
        if names(rest, key) {
            let i = choose|i: int| 0 <= i < rest.len() && (#[trigger] rest[i]).0 == key;
            assert(entries[i + 1] == rest[i]);
        }
        assert(entries[0].0 != key);
        lemma_no_entry(rest, key);
    }
}

} // verus!
