//! What holds of every synthesized source model: each node is placed or reported,
//! and the paths of those that are placed resolve in it.
use vstd::prelude::*;

use crate::dsl::error::{DiagnosticV, Severity};
use crate::dsl::node::{lemma_nearest, NodeId, RawV};
use crate::dsl::parse::NodesV;
use crate::dsl::source_model::meta::{FieldV, FieldsV, ModelV, StructsV};
use crate::dsl::source_model::resolve::{resolved_from, walk};
use crate::dsl::source_model::synth::{
    camel, conflicts, container_field, element_name, element_path_of, end_with, fields_of,
    has_below, inserted, is_attribute, is_coll, item_struct, laid_path, lay, lemma_split_grows,
    place, scope_base, scope_in, snake, snake_upto, step_into, synth, synth_step, synth_upto,
    text_field, with_field, with_struct, Laid, SynthV,
};
use crate::dsl::types::MappingType;
use crate::ordmap::{
    ascending, lemma_lookup_at, lemma_lookup_none, lemma_put_ascending, lemma_put_lookup, lookup,
    put,
};
use crate::text::{join, lemma_split_join, lemma_split_pieces, split, Text};

verus! {

/// Whether structs and fields stand in the order of their names.
pub open spec fn in_order(structs: StructsV) -> bool {
    &&& ascending::<String, FieldsV>(structs)
    &&& forall|i: int|
        0 <= i < structs.len() ==> ascending::<String, FieldV>((#[trigger] structs[i]).1)
}

/// The field `field` of the struct `name`.
pub open spec fn field_at(structs: StructsV, name: Text, field: Text) -> Option<FieldV> {
    match lookup::<String, FieldsV>(structs, name) {
        None => None,
        Some(fields) => lookup::<String, FieldV>(fields, field),
    }
}

/// Whether `b` has every struct that `a` has.
pub open spec fn keeps(a: StructsV, b: StructsV) -> bool {
    forall|name: Text|
        (#[trigger] lookup::<String, FieldsV>(a, name)) is Some ==> lookup::<String, FieldsV>(
            b,
            name,
        ) is Some
}

/// Whether `b` has every struct and declares every field that `a` does, and
/// declares it the same.
pub open spec fn grows(a: StructsV, b: StructsV) -> bool {
    &&& keeps(a, b)
    &&& forall|name: Text, field: Text|
        (#[trigger] field_at(a, name, field)) is Some ==> field_at(b, name, field) == field_at(
            a,
            name,
            field,
        )
}

/// Setting the fields of a struct keeps every struct.
proof fn lemma_put_keeps(structs: StructsV, name: Text, fields: FieldsV)
    requires
        ascending::<String, FieldsV>(structs),
    ensures
        keeps(structs, put::<String, FieldsV>(structs, name, fields)),
{
    let after = put::<String, FieldsV>(structs, name, fields);
    assert forall|n: Text|
        (#[trigger] lookup::<String, FieldsV>(structs, n)) is Some implies lookup::<
        String,
        FieldsV,
    >(after, n) is Some by {
        lemma_put_lookup::<String, FieldsV>(structs, name, fields, n);
    }
}

proof fn lemma_grows_on(a: StructsV, b: StructsV, c: StructsV)
    requires
        grows(a, b),
        grows(b, c),
    ensures
        grows(a, c),
{
    assert forall|n: Text| (#[trigger] lookup::<String, FieldsV>(a, n)) is Some implies lookup::<
        String,
        FieldsV,
    >(c, n) is Some by {
        assert(lookup::<String, FieldsV>(b, n) is Some);
    }
    assert forall|n: Text, q: Text| (#[trigger] field_at(a, n, q)) is Some implies field_at(
        c,
        n,
        q,
    ) == field_at(a, n, q) by {
        assert(field_at(b, n, q) == field_at(a, n, q));
    }
}

/// Whether the fields `parts` lead from struct to struct along `names`.
spec fn trail(structs: StructsV, names: Seq<Text>, parts: Seq<Text>) -> bool {
    &&& names.len() == parts.len() + 1
    &&& forall|i: int|
        #![trigger parts[i]]
        0 <= i < parts.len() ==> (field_at(structs, names[i], parts[i]) matches Some(f) && f.ty
            == Some(names[i + 1]))
}

/// A trail of structs that ends in a declared field resolves.
proof fn lemma_trail_resolves(
    structs: StructsV,
    names: Seq<Text>,
    parts: Seq<Text>,
    field: Text,
    repeated: bool,
    optional: bool,
)
    requires
        trail(structs, names, parts),
        field_at(structs, names.last(), field) is Some,
    ensures
        walk(structs, names[0], parts.push(field), repeated, optional) matches Ok(r)
            && r.is_struct == (field_at(structs, names.last(), field)->0.ty is Some),
    decreases parts.len(),
{
    let all = parts.push(field);
    if parts.len() > 0 {
        let f = field_at(structs, names[0], parts[0])->0;
        assert(f.ty == Some(names[1]));
        let names2 = names.drop_first();
        let parts2 = parts.drop_first();
        assert forall|i: int|
            #![trigger parts2[i]]
            0 <= i < parts2.len() implies (field_at(structs, names2[i], parts2[i]) matches Some(g)
            && g.ty == Some(names2[i + 1])) by {
            assert(parts2[i] == parts[i + 1]);
        }
        assert(names2.last() == names.last());
        lemma_trail_resolves(
            structs,
            names2,
            parts2,
            field,
            repeated || f.repeated,
            optional || f.optional,
        );
        assert(all.drop_first() =~= parts2.push(field));
        assert(all[0] == parts[0]);
    }
}

proof fn lemma_trail_grows(a: StructsV, b: StructsV, names: Seq<Text>, parts: Seq<Text>)
    requires
        trail(a, names, parts),
        grows(a, b),
    ensures
        trail(b, names, parts),
{
    assert forall|i: int|
        #![trigger parts[i]]
        0 <= i < parts.len() implies (field_at(b, names[i], parts[i]) matches Some(f) && f.ty
        == Some(names[i + 1])) by {
        assert(field_at(a, names[i], parts[i]) is Some);
    }
}

/// Declaring a field that does not conflict keeps every other one.
proof fn lemma_with_field(structs: StructsV, name: Text, field: Text, f: FieldV)
    requires
        in_order(structs),
        !conflicts(structs, name, field, f),
    ensures
        in_order(with_field(structs, name, field, f)),
        grows(structs, with_field(structs, name, field, f)),
        field_at(with_field(structs, name, field, f), name, field) == Some(f),
{
    let fields = fields_of(structs, name);
    let fields2 = put::<String, FieldV>(fields, field, f);
    let structs2 = with_field(structs, name, field, f);
    lemma_lookup_none::<String, FieldsV>(structs, name);
    assert(ascending::<String, FieldV>(fields));
    lemma_put_ascending::<String, FieldV>(fields, field, f);
    lemma_put_ascending::<String, FieldsV>(structs, name, fields2);
    lemma_put_keeps(structs, name, fields2);
    lemma_put_lookup::<String, FieldsV>(structs, name, fields2, name);
    lemma_put_lookup::<String, FieldV>(fields, field, f, field);
    assert forall|n: Text, q: Text| (#[trigger] field_at(structs, n, q)) is Some implies field_at(
        structs2,
        n,
        q,
    ) == field_at(structs, n, q) by {
        lemma_put_lookup::<String, FieldsV>(structs, name, fields2, n);
        if n == name {
            lemma_put_lookup::<String, FieldV>(fields, field, f, q);
        }
    }
    lemma_values_in_order(structs, name, fields2);
}

/// Setting a struct whose fields are in order keeps all fields in order.
proof fn lemma_values_in_order(structs: StructsV, name: Text, fields: FieldsV)
    requires
        in_order(structs),
        ascending::<String, FieldV>(fields),
    ensures
        in_order(put::<String, FieldsV>(structs, name, fields)),
{
    let after = put::<String, FieldsV>(structs, name, fields);
    lemma_put_ascending::<String, FieldsV>(structs, name, fields);
    assert forall|i: int| 0 <= i < after.len() implies ascending::<String, FieldV>(
        (#[trigger] after[i]).1,
    ) by {
        let q = after[i].0;
        lemma_lookup_at::<String, FieldsV>(after, i);
        lemma_put_lookup::<String, FieldsV>(structs, name, fields, q);
        lemma_lookup_none::<String, FieldsV>(structs, q);
    }
}

proof fn lemma_with_struct(structs: StructsV, name: Text)
    requires
        in_order(structs),
    ensures
        in_order(with_struct(structs, name)),
        grows(structs, with_struct(structs, name)),
{
    let none: FieldsV = Seq::empty();
    lemma_values_in_order(structs, name, none);
    lemma_put_keeps(structs, name, none);
    assert forall|n: Text, q: Text| (#[trigger] field_at(structs, n, q)) is Some implies field_at(
        with_struct(structs, name),
        n,
        q,
    ) == field_at(structs, n, q) by {
        lemma_put_lookup::<String, FieldsV>(structs, name, none, n);
        lemma_lookup_none::<String, FieldsV>(structs, name);
        if n == name {
            let i = choose|i: int| 0 <= i < structs.len() && (#[trigger] structs[i]).0 == name;
            lemma_lookup_at::<String, FieldsV>(structs, i);
        }
    }
}

/// What holds of a path being laid from `base` over the structs `before`.
spec fn sound(before: StructsV, base: Text, l: Laid) -> bool {
    &&& in_order(l.structs)
    &&& grows(before, l.structs)
    &&& l.failed is None ==> exists|names: Seq<Text>|
        #[trigger] trail(l.structs, names, l.parts) && names[0] == base && names.last() == l.current
    &&& forall|i: int| 0 <= i < l.parts.len() ==> !(#[trigger] l.parts[i]).contains('.')
}

/// What holds of a path that ends in a field, which holds a struct or not.
spec fn ended(before: StructsV, base: Text, l: Laid, nested: bool) -> bool {
    &&& in_order(l.structs)
    &&& grows(before, l.structs)
    &&& l.failed is None ==> leads(l.structs, base, l.parts, nested)
}

/// Whether a struct has a field that holds a struct or not.
spec fn has_field(structs: StructsV, name: Text, field: Text, nested: bool) -> bool {
    field_at(structs, name, field) matches Some(f) && (f.ty is Some) == nested
}

/// Whether the parts lead from `base` to a field that holds a struct or not.
spec fn leads(structs: StructsV, base: Text, parts: Seq<Text>, nested: bool) -> bool {
    &&& parts.len() > 0
    &&& forall|i: int| 0 <= i < parts.len() ==> !(#[trigger] parts[i]).contains('.')
    &&& exists|names: Seq<Text>|
        #[trigger] trail(structs, names, parts.drop_last()) && names[0] == base && has_field(
            structs,
            names.last(),
            parts.last(),
            nested,
        )
}

proof fn lemma_end_with(before: StructsV, base: Text, l: Laid, field: Text, f: FieldV)
    requires
        sound(before, base, l),
        !field.contains('.'),
    ensures
        ended(before, base, end_with(l, field, f), f.ty is Some),
{
    let m = end_with(l, field, f);
    if l.failed is None && m.failed is None {
        lemma_with_field(l.structs, l.current, field, f);
        let names = choose|names: Seq<Text>|
            #[trigger] trail(l.structs, names, l.parts) && names[0] == base && names.last()
                == l.current;
        lemma_trail_grows(l.structs, m.structs, names, l.parts);
        assert(m.parts.drop_last() =~= l.parts);
        lemma_grows_on(before, l.structs, m.structs);
    }
}

proof fn lemma_step_into(before: StructsV, base: Text, l: Laid, field: Text, f: FieldV, name: Text)
    requires
        sound(before, base, l),
        !field.contains('.'),
        f.ty == Some(name),
    ensures
        sound(before, base, step_into(l, field, f, name)),
        ended(before, base, step_into(l, field, f, name), true),
{
    let e = end_with(l, field, f);
    lemma_end_with(before, base, l, field, f);
    let m = step_into(l, field, f, name);
    if e.failed is None {
        lemma_with_field(l.structs, l.current, field, f);
        lemma_with_struct(e.structs, name);
        let names = choose|names: Seq<Text>|
            #[trigger] trail(l.structs, names, l.parts) && names[0] == base && names.last()
                == l.current;
        lemma_trail_grows(l.structs, e.structs, names, l.parts);
        lemma_trail_grows(e.structs, m.structs, names, l.parts);
        let names2 = names.push(name);
        assert(field_at(e.structs, l.current, field) == Some(f));
        assert(field_at(m.structs, l.current, field) == Some(f));
        assert forall|i: int|
            #![trigger m.parts[i]]
            0 <= i < m.parts.len() implies (field_at(m.structs, names2[i], m.parts[i]) matches Some(
            g,
        ) && g.ty == Some(names2[i + 1])) by {
            if i < l.parts.len() {
                assert(m.parts[i] == l.parts[i]);
            }
        }
        assert(trail(m.structs, names2, m.parts));
        assert(m.parts.drop_last() =~= l.parts);
        assert(trail(m.structs, names, m.parts.drop_last()));
        lemma_grows_on(before, e.structs, m.structs);
    }
}

/// A field name holds no dot where its element name holds none.
proof fn lemma_snake_undotted(s: Text, n: int)
    requires
        0 <= n <= s.len(),
        !s.contains('.'),
    ensures
        !snake_upto(s, n).contains('.'),
    decreases n,
{
    if n > 0 {
        lemma_snake_undotted(s, n - 1);
        let head = snake_upto(s, n - 1);
        let out = snake_upto(s, n);
        assert(s.contains(s[n - 1]));
        if out.contains('.') {
            let i = choose|i: int| 0 <= i < out.len() && out[i] == '.';
            if i < head.len() {
                assert(head[i] == '.');
            }
        }
    }
}

proof fn lemma_lay(structs: StructsV, base: Text, segs: Seq<Text>)
    requires
        in_order(structs),
        forall|i: int| 0 <= i < segs.len() ==> !(#[trigger] segs[i]).contains('.'),
    ensures
        sound(structs, base, lay(structs, base, segs)),
    decreases segs.len(),
{
    if segs.len() == 0 {
        let l = lay(structs, base, segs);
        assert(trail(l.structs, seq![base], l.parts));
    } else {
        let front = segs.drop_last();
        let seg = segs.last();
        assert forall|i: int| 0 <= i < front.len() implies !(#[trigger] front[i]).contains('.') by {
            assert(front[i] == segs[i]);
        }
        lemma_lay(structs, base, front);
        lemma_snake_undotted(seg, seg.len() as int);
        let l = lay(structs, base, front);
        let f = container_field(seg);
        lemma_step_into(structs, base, l, snake(seg), f, f.ty->0);
        assert(lay(structs, base, segs) =~= step_into(l, snake(seg), f, f.ty->0));
    }
}

proof fn lemma_value_undotted()
    ensures
        !"value"@.contains('.'),
{
    reveal_strlit("value");
}

proof fn lemma_inserted(
    structs: StructsV,
    base: Text,
    segs: Seq<Text>,
    node: RawV,
    ty: MappingType,
    below: bool,
    id: Text,
)
    requires
        in_order(structs),
        segs.len() > 0,
        forall|i: int| 0 <= i < segs.len() ==> !(#[trigger] segs[i]).contains('.'),
    ensures
        ended(
            structs,
            base,
            inserted(structs, base, segs, node, ty, below, id),
            ty == MappingType::Collection,
        ),
{
    let front = segs.drop_last();
    let last = segs.last();
    assert forall|i: int| 0 <= i < front.len() implies !(#[trigger] front[i]).contains('.') by {
        assert(front[i] == segs[i]);
    }
    lemma_lay(structs, base, front);
    lemma_snake_undotted(last, last.len() as int);
    lemma_value_undotted();
    let l = lay(structs, base, front);
    lemma_place(structs, base, l, last, node, ty, below, id);
}

proof fn lemma_place(
    before: StructsV,
    base: Text,
    l: Laid,
    last: Text,
    node: RawV,
    ty: MappingType,
    below: bool,
    id: Text,
)
    requires
        sound(before, base, l),
        !snake(last).contains('.'),
        !"value"@.contains('.'),
    ensures
        ended(before, base, place(l, last, node, ty, below, id), ty == MappingType::Collection),
{
    let field = snake(last);
    let xml = element_name(node, last);
    if ty == MappingType::Collection {
        let f = FieldV { optional: false, repeated: true, ty: Some(item_struct(id)), xml };
        lemma_step_into(before, base, l, field, f, item_struct(id));
    } else if node.xml is Some && is_attribute(node.xml->0) {
        let f = FieldV { optional: true, repeated: false, ty: None, xml: node.xml };
        lemma_end_with(before, base, l, field, f);
    } else if node.xml == Some("$text"@) {
        lemma_end_with(before, base, l, "value"@, text_field());
    } else if below {
        let f = FieldV { optional: false, repeated: false, ty: Some(camel(last)), xml };
        lemma_step_into(before, base, l, field, f, camel(last));
        lemma_end_with(before, base, step_into(l, field, f, camel(last)), "value"@, text_field());
    } else {
        let multi = node.multiple is Some;
        let f = FieldV { optional: !multi, repeated: multi, ty: None, xml };
        lemma_end_with(before, base, l, field, f);
    }
}

/// The element path of a node holds no dots.
proof fn lemma_element_path(active: NodesV, id: Text, root: Text)
    ensures
        ({
            let path = element_path_of(id, scope_in(active, id), root);
            forall|i: int| 0 <= i < path.len() ==> !(#[trigger] path[i]).contains('.')
        }),
{
    let scope = scope_in(active, id);
    let segs = split(id, '.');
    let path = element_path_of(id, scope, root);
    lemma_split_pieces(id, '.');
    lemma_nearest(id, |a: Text| is_coll(active, a));
    if let Some(coll) = scope {
        assert(id.take(coll.len() as int) =~= coll) by {
            let n = coll.len() as int;
            assert(id.subrange(0, n + 1) =~= coll.push('.'));
            assert(id.take(n) =~= id.subrange(0, n + 1).take(n));
        }
        lemma_split_grows(id, coll.len() as int, '.');
    }
    assert forall|i: int| 0 <= i < path.len() implies !(#[trigger] path[i]).contains('.') by {
        assert(path[i] == segs[i + segs.len() - path.len()]);
    }
}

/// Whether a node's path is that of parts that lead from its scope's struct to a
/// field that holds a struct or not.
spec fn path_leads(structs: StructsV, base: Text, path: Text, nested: bool) -> bool {
    exists|parts: Seq<Text>|
        #[trigger] leads(structs, base, parts, nested) && path == join(parts, "."@)
}

/// Whether everything synthesized so far fits together.
spec fn coherent(active: NodesV, root: Text, acc: SynthV) -> bool {
    &&& in_order(acc.structs)
    &&& lookup::<String, FieldsV>(acc.structs, root) is Some
    &&& ascending::<NodeId, Text>(acc.paths)
    &&& forall|id: Text|
        (#[trigger] lookup::<NodeId, Text>(acc.paths, id)) is Some ==> path_leads(
            acc.structs,
            scope_base(scope_in(active, id), root),
            lookup::<NodeId, Text>(acc.paths, id)->0,
            is_coll(active, id),
        )
}

proof fn lemma_path_grows(a: StructsV, b: StructsV, base: Text, path: Text, nested: bool)
    requires
        path_leads(a, base, path, nested),
        grows(a, b),
    ensures
        path_leads(b, base, path, nested),
{
    let parts = choose|parts: Seq<Text>|
        #[trigger] leads(a, base, parts, nested) && path == join(parts, "."@);
    let names = choose|names: Seq<Text>|
        #[trigger] trail(a, names, parts.drop_last()) && names[0] == base && has_field(
            a,
            names.last(),
            parts.last(),
            nested,
        );
    lemma_trail_grows(a, b, names, parts.drop_last());
    assert(field_at(a, names.last(), parts.last()) is Some);
    assert(leads(b, base, parts, nested));
}

proof fn lemma_synth_step(acc: SynthV, active: NodesV, i: int, root: Text)
    requires
        ascending::<NodeId, RawV>(active),
        coherent(active, root, acc),
        0 <= i < active.len(),
    ensures
        coherent(active, root, synth_step(acc, active, i, root)),
{
    let (id, node) = active[i];
    lemma_lookup_at::<NodeId, RawV>(active, i);
    let after = synth_step(acc, active, i, root);
    if node.ty is Some {
        let scope = scope_in(active, id);
        let segs = element_path_of(id, scope, root);
        let base = scope_base(scope, root);
        if segs.len() > 0 {
            lemma_element_path(active, id, root);
            lemma_inserted(acc.structs, base, segs, node, node.ty->0, has_below(active, id), id);
            let l = inserted(
                acc.structs,
                base,
                segs,
                node,
                node.ty->0,
                has_below(active, id),
                id,
            );
            if l.failed is None {
                lemma_put_ascending::<NodeId, Text>(acc.paths, id, laid_path(l));
            }
            assert forall|q: Text|
                (#[trigger] lookup::<NodeId, Text>(after.paths, q)) is Some implies path_leads(
                after.structs,
                scope_base(scope_in(active, q), root),
                lookup::<NodeId, Text>(after.paths, q)->0,
                is_coll(active, q),
            ) by {
                if l.failed is None {
                    lemma_put_lookup::<NodeId, Text>(acc.paths, id, laid_path(l), q);
                }
                if l.failed is None && q == id {
                    assert(leads(after.structs, base, l.parts, is_coll(active, id)));
                } else {
                    lemma_path_grows(
                        acc.structs,
                        after.structs,
                        scope_base(scope_in(active, q), root),
                        lookup::<NodeId, Text>(acc.paths, q)->0,
                        is_coll(active, q),
                    );
                }
            }
        }
    }
}

proof fn lemma_synth(active: NodesV, root: Text, n: int)
    requires
        ascending::<NodeId, RawV>(active),
        0 <= n <= active.len(),
    ensures
        coherent(active, root, synth_upto(active, root, n)),
    decreases n,
{
    if n == 0 {
        let none: StructsV = Seq::empty();
        lemma_values_in_order(none, root, Seq::empty());
        lemma_put_lookup::<String, FieldsV>(none, root, Seq::empty(), root);
    } else {
        lemma_synth(active, root, n - 1);
        lemma_synth_step(synth_upto(active, root, n - 1), active, n - 1, root);
    }
}

/// The synthesized model has the root struct.
pub proof fn law_root_is_synthesized(active: NodesV, root: Text)
    requires
        ascending::<NodeId, RawV>(active),
    ensures
        lookup::<String, FieldsV>(synth(active, root).structs, root) is Some,
{
    lemma_synth(active, root, active.len() as int);
}

/// Every path that the synthesis gives a node resolves in the synthesized model
/// from the struct of the node's scope, unless the path is empty. It leads to a
/// struct exactly where the node is a collection.
pub proof fn law_synthesized_paths_resolve(active: NodesV, root: Text, model: ModelV, id: Text)
    requires
        ascending::<NodeId, RawV>(active),
        model.structs == synth(active, root).structs,
        lookup::<NodeId, Text>(synth(active, root).paths, id) matches Some(p) && p.len() > 0,
    ensures
        resolved_from(
            model,
            scope_base(scope_in(active, id), root),
            lookup::<NodeId, Text>(synth(active, root).paths, id)->0,
        ) matches Ok(r) && r.is_struct == is_coll(active, id),
{
    lemma_synth(active, root, active.len() as int);
    let structs = model.structs;
    let base = scope_base(scope_in(active, id), root);
    let path = lookup::<NodeId, Text>(synth(active, root).paths, id)->0;
    let nested = is_coll(active, id);
    assert(path_leads(structs, base, path, nested));
    let parts = choose|parts: Seq<Text>|
        #[trigger] leads(structs, base, parts, nested) && path == join(parts, "."@);
    let names = choose|names: Seq<Text>|
        #[trigger] trail(structs, names, parts.drop_last()) && names[0] == base && has_field(
            structs,
            names.last(),
            parts.last(),
            nested,
        );
    lemma_trail_resolves(structs, names, parts.drop_last(), parts.last(), false, false);
    assert(parts.drop_last().push(parts.last()) =~= parts);
    reveal_strlit(".");
    assert("."@ =~= seq!['.']);
    lemma_split_join(parts, '.');
}

/// Whether no part is empty.
spec fn filled(parts: Seq<Text>) -> bool {
    forall|i: int| 0 <= i < parts.len() ==> (#[trigger] parts[i]).len() > 0
}

/// A field name is not empty where its element name is not.
proof fn lemma_snake_filled(s: Text, n: int)
    requires
        0 < n <= s.len(),
    ensures
        snake_upto(s, n).len() > 0,
{
}

proof fn lemma_lay_filled(structs: StructsV, base: Text, segs: Seq<Text>)
    requires
        filled(segs),
    ensures
        filled(lay(structs, base, segs).parts),
    decreases segs.len(),
{
    if segs.len() > 0 {
        let front = segs.drop_last();
        assert forall|i: int| 0 <= i < front.len() implies (#[trigger] front[i]).len() > 0 by {
            assert(front[i] == segs[i]);
        }
        lemma_lay_filled(structs, base, front);
        let seg = segs.last();
        assert(segs[segs.len() - 1].len() > 0);
        lemma_snake_filled(seg, seg.len() as int);
        let (l, m) = (lay(structs, base, front), lay(structs, base, segs));
        assert forall|i: int| 0 <= i < m.parts.len() implies (#[trigger] m.parts[i]).len() > 0 by {
            if i < l.parts.len() {
                assert(m.parts[i] == l.parts[i]);
            }
        }
    }
}

proof fn lemma_end_filled(l: Laid, field: Text, f: FieldV)
    requires
        filled(l.parts),
        field.len() > 0,
    ensures
        filled(end_with(l, field, f).parts),
{
    let m = end_with(l, field, f);
    assert forall|i: int| 0 <= i < m.parts.len() implies (#[trigger] m.parts[i]).len() > 0 by {
        if i < l.parts.len() {
            assert(m.parts[i] == l.parts[i]);
        }
    }
}

proof fn lemma_inserted_filled(
    structs: StructsV,
    base: Text,
    segs: Seq<Text>,
    node: RawV,
    ty: MappingType,
    below: bool,
    id: Text,
)
    requires
        segs.len() > 0,
        filled(segs),
    ensures
        filled(inserted(structs, base, segs, node, ty, below, id).parts),
{
    let (front, last) = (segs.drop_last(), segs.last());
    assert forall|i: int| 0 <= i < front.len() implies (#[trigger] front[i]).len() > 0 by {
        assert(front[i] == segs[i]);
    }
    lemma_lay_filled(structs, base, front);
    assert(segs[segs.len() - 1].len() > 0);
    lemma_snake_filled(last, last.len() as int);
    reveal_strlit("value");
    let l = lay(structs, base, front);
    let field = snake(last);
    let xml = element_name(node, last);
    let multi = node.multiple is Some;
    lemma_end_filled(
        l,
        field,
        FieldV { optional: false, repeated: true, ty: Some(item_struct(id)), xml },
    );
    lemma_end_filled(l, field, FieldV { optional: true, repeated: false, ty: None, xml: node.xml });
    lemma_end_filled(l, "value"@, text_field());
    let inner = FieldV { optional: false, repeated: false, ty: Some(camel(last)), xml };
    lemma_end_filled(l, field, inner);
    lemma_end_filled(step_into(l, field, inner, camel(last)), "value"@, text_field());
    lemma_end_filled(l, field, FieldV { optional: !multi, repeated: multi, ty: None, xml });
}

/// Whether no segment of an id is empty.
pub open spec fn no_empty_segment(id: Text) -> bool {
    forall|i: int| 0 <= i < split(id, '.').len() ==> (#[trigger] split(id, '.')[i]).len() > 0
}

proof fn lemma_paths_filled(active: NodesV, root: Text, n: int, id: Text)
    requires
        ascending::<NodeId, RawV>(active),
        0 <= n <= active.len(),
        no_empty_segment(id),
        lookup::<NodeId, Text>(synth_upto(active, root, n).paths, id) is Some,
    ensures
        lookup::<NodeId, Text>(synth_upto(active, root, n).paths, id)->0.len() > 0,
    decreases n,
{
    if n > 0 {
        let acc = synth_upto(active, root, n - 1);
        let (q, node) = active[n - 1];
        lemma_synth(active, root, n - 1);
        let scope = scope_in(active, q);
        let segs = element_path_of(q, scope, root);
        let base = scope_base(scope, root);
        if node.ty is Some && segs.len() > 0 {
            let l = inserted(
                acc.structs,
                base,
                segs,
                node,
                node.ty->0,
                has_below(active, q),
                q,
            );
            lemma_put_lookup::<NodeId, Text>(acc.paths, q, laid_path(l), id);
            if q == id && l.failed is None {
                lemma_element_path(active, id, root);
                lemma_path_segments(active, id, root);
                lemma_inserted(acc.structs, base, segs, node, node.ty->0, has_below(active, q), q);
                lemma_inserted_filled(
                    acc.structs,
                    base,
                    segs,
                    node,
                    node.ty->0,
                    has_below(active, q),
                    q,
                );
                assert(l.parts[l.parts.len() - 1].len() > 0);
            } else {
                lemma_paths_filled(active, root, n - 1, id);
            }
        } else {
            lemma_paths_filled(active, root, n - 1, id);
        }
    }
}

/// The element path of a node is made of the last segments of its id.
proof fn lemma_path_segments(active: NodesV, id: Text, root: Text)
    requires
        no_empty_segment(id),
    ensures
        filled(element_path_of(id, scope_in(active, id), root)),
{
    let scope = scope_in(active, id);
    let segs = split(id, '.');
    let path = element_path_of(id, scope, root);
    lemma_nearest(id, |a: Text| is_coll(active, a));
    if let Some(coll) = scope {
        assert(id.take(coll.len() as int) =~= coll) by {
            let n = coll.len() as int;
            assert(id.subrange(0, n + 1) =~= coll.push('.'));
            assert(id.take(n) =~= id.subrange(0, n + 1).take(n));
        }
        lemma_split_grows(id, coll.len() as int, '.');
    }
    assert forall|i: int| 0 <= i < path.len() implies (#[trigger] path[i]).len() > 0 by {
        assert(path[i] == segs[i + segs.len() - path.len()]);
    }
}

/// A node without an empty segment in its id has no empty path, so its path
/// resolves.
pub proof fn law_paths_of_named_nodes_resolve(active: NodesV, root: Text, model: ModelV, id: Text)
    requires
        ascending::<NodeId, RawV>(active),
        model.structs == synth(active, root).structs,
        no_empty_segment(id),
        lookup::<NodeId, Text>(synth(active, root).paths, id) is Some,
    ensures
        resolved_from(
            model,
            scope_base(scope_in(active, id), root),
            lookup::<NodeId, Text>(synth(active, root).paths, id)->0,
        ) matches Ok(r) && r.is_struct == is_coll(active, id),
{
    lemma_paths_filled(active, root, active.len() as int, id);
    law_synthesized_paths_resolve(active, root, model, id);
}

/// How many of the first `n` diagnostics are about a node.
pub open spec fn reports_on(diags: Seq<DiagnosticV>, id: Text, n: int) -> nat
    decreases n,
{
    if n <= 0 {
        0
    } else {
        reports_on(diags, id, n - 1) + if diags[n - 1].source_node == Some(id) {
            1nat
        } else {
            0nat
        }
    }
}

/// Whether a node is accounted for: one with a type has a path or one report, and
/// not both; one without a type has neither.
pub open spec fn accounted(s: SynthV, id: Text, node: RawV) -> bool {
    let placed = lookup::<NodeId, Text>(s.paths, id) is Some;
    let reports = reports_on(s.diags, id, s.diags.len() as int);
    if node.ty is None {
        !placed && reports == 0
    } else {
        (placed && reports == 0) || (!placed && reports == 1)
    }
}

/// Whether an id has left nothing behind.
spec fn unseen(s: SynthV, id: Text) -> bool {
    lookup::<NodeId, Text>(s.paths, id) is None && reports_on(
        s.diags,
        id,
        s.diags.len() as int,
    ) == 0
}

proof fn lemma_reports_take(diags: Seq<DiagnosticV>, d: DiagnosticV, id: Text, n: int)
    requires
        0 <= n <= diags.len(),
    ensures
        reports_on(diags.push(d), id, n) == reports_on(diags, id, n),
    decreases n,
{
    if n > 0 {
        lemma_reports_take(diags, d, id, n - 1);
        assert(diags.push(d)[n - 1] == diags[n - 1]);
    }
}

/// One step of the synthesis touches the node it is about and no other.
proof fn lemma_step_accounts(acc: SynthV, active: NodesV, i: int, root: Text, id: Text)
    requires
        ascending::<NodeId, RawV>(active),
        coherent(active, root, acc),
        0 <= i < active.len(),
    ensures
        ({
            let after = synth_step(acc, active, i, root);
            &&& id != active[i].0 ==> lookup::<NodeId, Text>(after.paths, id) == lookup::<
                NodeId,
                Text,
            >(acc.paths, id) && reports_on(after.diags, id, after.diags.len() as int)
                == reports_on(acc.diags, id, acc.diags.len() as int)
            &&& id == active[i].0 && unseen(acc, id) ==> accounted(after, id, active[i].1)
        }),
{
    let (q, node) = active[i];
    let after = synth_step(acc, active, i, root);
    if node.ty is Some {
        let scope = scope_in(active, q);
        let segs = element_path_of(q, scope, root);
        let l = inserted(
            acc.structs,
            scope_base(scope, root),
            segs,
            node,
            node.ty->0,
            has_below(active, q),
            q,
        );
        if segs.len() > 0 && l.failed is None {
            lemma_put_lookup::<NodeId, Text>(acc.paths, q, laid_path(l), id);
        } else {
            let d = after.diags.last();
            assert(after.diags =~= acc.diags.push(d));
            assert(d.source_node == Some(q));
            lemma_reports_take(acc.diags, d, id, acc.diags.len() as int);
        }
    }
}

proof fn lemma_accounts(active: NodesV, root: Text, n: int, k: int)
    requires
        ascending::<NodeId, RawV>(active),
        0 <= n <= active.len(),
        0 <= k < active.len(),
    ensures
        k < n ==> accounted(synth_upto(active, root, n), active[k].0, active[k].1),
        k >= n ==> unseen(synth_upto(active, root, n), active[k].0),
    decreases n,
{
    let id = active[k].0;
    if n > 0 {
        lemma_accounts(active, root, n - 1, k);
        lemma_synth(active, root, n - 1);
        lemma_step_accounts(synth_upto(active, root, n - 1), active, n - 1, root, id);
        lemma_lookup_at::<NodeId, RawV>(active, k);
        lemma_lookup_at::<NodeId, RawV>(active, n - 1);
    }
}

/// Every node with a type is either given a path or reported by one error, never
/// both; a node without a type is neither.
pub proof fn law_nodes_are_placed_or_reported(active: NodesV, root: Text, k: int)
    requires
        ascending::<NodeId, RawV>(active),
        0 <= k < active.len(),
    ensures
        accounted(synth(active, root), active[k].0, active[k].1),
{
    lemma_accounts(active, root, active.len() as int, k);
}

/// Whether an id is that of one of the first `n` nodes.
pub open spec fn known_id(active: NodesV, n: int, id: Text) -> bool {
    exists|k: int| 0 <= k < n && (#[trigger] active[k]).0 == id
}

proof fn lemma_only_nodes(active: NodesV, root: Text, n: int, id: Text)
    requires
        ascending::<NodeId, RawV>(active),
        0 <= n <= active.len(),
        !known_id(active, n, id),
    ensures
        unseen(synth_upto(active, root, n), id),
    decreases n,
{
    if n > 0 {
        assert(!known_id(active, n - 1, id)) by {
            if known_id(active, n - 1, id) {
                let k = choose|k: int| 0 <= k < n - 1 && (#[trigger] active[k]).0 == id;
                assert(active[k].0 == id);
            }
        }
        lemma_only_nodes(active, root, n - 1, id);
        lemma_synth(active, root, n - 1);
        assert(active[n - 1].0 != id);
        lemma_step_accounts(synth_upto(active, root, n - 1), active, n - 1, root, id);
    }
}

/// Nothing but the nodes is given a path or reported.
pub proof fn law_only_nodes_are_placed_or_reported(active: NodesV, root: Text, id: Text)
    requires
        ascending::<NodeId, RawV>(active),
        !known_id(active, active.len() as int, id),
    ensures
        lookup::<NodeId, Text>(synth(active, root).paths, id) is None,
        reports_on(synth(active, root).diags, id, synth(active, root).diags.len() as int) == 0,
{
    lemma_only_nodes(active, root, active.len() as int, id);
}

/// Every report of the synthesis is an error with the code E024 about a node.
pub proof fn law_synthesis_reports_are_errors(active: NodesV, root: Text, n: int, j: int)
    requires
        0 <= n <= active.len(),
        0 <= j < synth_upto(active, root, n).diags.len(),
    ensures
        synth_upto(active, root, n).diags[j].code == "E024"@,
        synth_upto(active, root, n).diags[j].severity == Severity::Error,
        synth_upto(active, root, n).diags[j].source_node is Some,
    decreases n,
{
    if n > 0 {
        let acc = synth_upto(active, root, n - 1);
        if j < acc.diags.len() {
            law_synthesis_reports_are_errors(active, root, n - 1, j);
        }
    }
}

/// Whether a node is the value of an element that has others inside it.
pub open spec fn valued_container(node: RawV, ty: MappingType, below: bool) -> bool {
    ty != MappingType::Collection && below && node.xml != Some("$text"@) && !(node.xml is Some
        && is_attribute(node.xml->0))
}

/// A node that is placed has a field in the struct where its elements end. A collection is
/// a list of its items, a value that may occur many times is a list of texts, and any other
/// value is optional; an element that has others inside it is a struct with its text in it.
/// The field has the XML name that the node gives, or that of the element.
pub proof fn law_nodes_become_fields(
    l: Laid,
    last: Text,
    node: RawV,
    ty: MappingType,
    below: bool,
    id: Text,
)
    requires
        in_order(l.structs),
        l.failed is None,
        place(l, last, node, ty, below, id).failed is None,
    ensures
        ({
            let p = place(l, last, node, ty, below, id);
            let name = p.parts[l.parts.len() as int];
            let field = field_at(p.structs, l.current, name);
            let inside = valued_container(node, ty, below);
            &&& field is Some
            &&& name == (if ty != MappingType::Collection && node.xml == Some("$text"@) {
                "value"@
            } else {
                snake(last)
            })
            &&& ty == MappingType::Collection ==> node.multiple is None && field->0.repeated
                && field->0.ty == Some(item_struct(id)) && p.current == item_struct(id)
            &&& ty != MappingType::Collection ==> (field->0.repeated <==> node.multiple is Some)
            &&& ty != MappingType::Collection ==> (field->0.ty is Some <==> inside)
            &&& ty != MappingType::Collection && !inside ==> (field->0.optional <==> node.multiple
                is None)
            &&& node.xml is Some ==> field->0.xml == node.xml
            &&& node.xml is None ==> field->0.xml == Some(last)
            &&& inside ==> field->0.ty == Some(camel(last)) && field_at(
                p.structs,
                camel(last),
                "value"@,
            ) == Some(text_field())
            &&& p.parts.len() == l.parts.len() + if inside {
                2int
            } else {
                1int
            }
            &&& grows(l.structs, p.structs)
        }),
{
    let p = place(l, last, node, ty, below, id);
    if ty == MappingType::Collection {
        let f = FieldV {
            optional: false,
            repeated: true,
            ty: Some(item_struct(id)),
            xml: element_name(node, last),
        };
        lemma_with_field(l.structs, l.current, snake(last), f);
        let m = end_with(l, snake(last), f);
        lemma_with_struct(m.structs, item_struct(id));
        lemma_grows_on(l.structs, m.structs, p.structs);
        assert(field_at(m.structs, l.current, snake(last)) == Some(f));
    } else if node.xml is Some && is_attribute(node.xml->0) {
        let f = FieldV { optional: true, repeated: false, ty: None, xml: node.xml };
        assert(node.xml != Some("$text"@)) by {
            reveal_strlit("$text");
            reveal_strlit("@");
            if node.xml == Some("$text"@) {
                assert("$text"@.subrange(0, 1)[0] == "@"@[0]);
            }
        }
        lemma_with_field(l.structs, l.current, snake(last), f);
    } else if node.xml == Some("$text"@) {
        lemma_with_field(l.structs, l.current, "value"@, text_field());
    } else if below {
        let f = FieldV {
            optional: false,
            repeated: false,
            ty: Some(camel(last)),
            xml: element_name(node, last),
        };
        lemma_with_field(l.structs, l.current, snake(last), f);
        let m = end_with(l, snake(last), f);
        assert(field_at(m.structs, l.current, snake(last)) == Some(f));
        lemma_with_struct(m.structs, camel(last));
        let c = with_struct(m.structs, camel(last));
        lemma_with_field(c, camel(last), "value"@, text_field());
        lemma_grows_on(l.structs, m.structs, c);
        lemma_grows_on(l.structs, c, p.structs);
        lemma_grows_on(m.structs, c, p.structs);
    } else {
        let multi = node.multiple is Some;
        let f = FieldV {
            optional: !multi,
            repeated: multi,
            ty: None,
            xml: element_name(node, last),
        };
        lemma_with_field(l.structs, l.current, snake(last), f);
    }
}

/// Only a plain element may occur many times: a collection, an attribute, the text of an
/// element and an element that has others inside it are refused.
pub proof fn law_only_plain_elements_repeat(
    l: Laid,
    last: Text,
    node: RawV,
    ty: MappingType,
    below: bool,
    id: Text,
)
    requires
        node.multiple is Some,
        ty == MappingType::Collection || below || (node.xml matches Some(x) && (is_attribute(x) || x
            == "$text"@)),
    ensures
        place(l, last, node, ty, below, id).failed is Some,
        l.failed is None ==> place(l, last, node, ty, below, id).structs == l.structs,
{
}

} // verus!
