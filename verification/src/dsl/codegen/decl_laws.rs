//! What generated names, declarations and normalization chains are.
use vstd::prelude::*;

use crate::dsl::codegen::access::{normalized, seg_of, step_call};
use crate::dsl::codegen::hub::{field_decl, hub_text, item_struct_text, item_structs, scope_decls};
use crate::dsl::codegen::naming::{field_of, field_upto, item_of, rust_type_of};
use crate::dsl::codegen::source::{
    empty_check, empty_checks, serde_parts, source_field, source_fields, source_type, struct_text,
    structs_text,
};
use crate::dsl::codegen::whole_laws::{cat, lemma_cat_push};
use crate::dsl::hub::{inside, CFieldV, HubV, ScopeV};
use crate::dsl::normalize::NormalizeOp;
use crate::dsl::parse_laws::op_name;
use crate::dsl::source_model::meta::{FieldV, FieldsV, StructsV};
use crate::dsl::types::MappingType;
use crate::text::{ascii_lower, is_upper, join, lower, quoted, Text};

verus! {

// ---------------------------------------------------------------------------
// Names
// ---------------------------------------------------------------------------

proof fn lemma_field_upto(s: Text, n: int)
    requires
        0 <= n <= s.len(),
    ensures
        field_upto(s, n).filter(|c: char| c != '_') == ascii_lower(s.take(n)).filter(
            |c: char| c != '_',
        ),
        forall|i: int|
            0 <= i < field_upto(s, n).len() ==> !is_upper(#[trigger] field_upto(s, n)[i]),
    decreases n,
{
    let keep = |c: char| c != '_';
    reveal(Seq::filter);
    if n == 0 {
        assert(ascii_lower(s.take(0)) =~= Seq::<char>::empty());
        assert(field_upto(s, 0) =~= Seq::<char>::empty());
    } else {
        lemma_field_upto(s, n - 1);
        let c = s[n - 1];
        let head = field_upto(s, n - 1);
        let all = field_upto(s, n);
        assert(ascii_lower(s.take(n)) =~= ascii_lower(s.take(n - 1)).push(lower(c)));
        let small = ascii_lower(s.take(n - 1)).push(lower(c));
        assert(small.drop_last() =~= ascii_lower(s.take(n - 1)));
        assert(small.filter(keep) == if lower(c) != '_' {
            ascii_lower(s.take(n - 1)).filter(keep).push(lower(c))
        } else {
            ascii_lower(s.take(n - 1)).filter(keep)
        });
        if is_upper(c) && n > 1 {
            let mid = head.push('_');
            assert(mid.drop_last() =~= head);
            assert(mid.filter(keep) == head.filter(keep));
            assert(all.drop_last() =~= mid);
        } else {
            assert(all.drop_last() =~= head);
        }
        assert forall|i: int| 0 <= i < all.len() implies !is_upper(#[trigger] all[i]) by {
            if i < head.len() {
                assert(all[i] == head[i]);
            }
        }
    }
}

/// A field is named like its key: but for underscores it is the key in small letters.
pub proof fn law_fields_are_named_like_their_keys(key: Text)
    ensures
        field_of(key).filter(|c: char| c != '_') == ascii_lower(key).filter(|c: char| c != '_'),
        forall|i: int| 0 <= i < field_of(key).len() ==> !is_upper(#[trigger] field_of(key)[i]),
{
    lemma_field_upto(key, key.len() as int);
    assert(key.take(key.len() as int) =~= key);
}

proof fn lemma_field_behind(a: Text, b: Text, n: int)
    requires
        a.len() > 0,
        0 <= n <= b.len(),
    ensures
        field_upto(a + b, a.len() + n) == field_of(a) + field_tail(b, n),
    decreases n,
{
    if n == 0 {
        lemma_field_front(a, b, a.len() as int);
        assert(field_of(a) + field_tail(b, 0) =~= field_of(a));
    } else {
        lemma_field_behind(a, b, n - 1);
        assert((a + b)[a.len() + n - 1] == b[n - 1]);
        assert(field_upto(a + b, a.len() + n) =~= field_of(a) + field_tail(b, n));
    }
}

proof fn lemma_field_front(a: Text, b: Text, n: int)
    requires
        0 <= n <= a.len(),
    ensures
        field_upto(a + b, n) == field_upto(a, n),
    decreases n,
{
    if n > 0 {
        lemma_field_front(a, b, n - 1);
        assert((a + b)[n - 1] == a[n - 1]);
    }
}

/// The part of a field's name for the characters behind the first of a key.
pub open spec fn field_tail(s: Text, n: int) -> Text
    decreases n,
{
    if n <= 0 {
        Seq::empty()
    } else {
        field_tail(s, n - 1) + (if is_upper(s[n - 1]) {
            seq!['_', lower(s[n - 1])]
        } else {
            seq![lower(s[n - 1])]
        })
    }
}

/// A word behind a key starts a new part of the field's name: an underscore stands before
/// its capital, and before no other letter; a capital at the front has none.
pub proof fn law_words_of_a_key_are_parted(a: Text, capital: char, rest: Text)
    requires
        a.len() > 0,
        is_upper(capital),
        forall|i: int| 0 <= i < rest.len() ==> !is_upper(#[trigger] rest[i]),
    ensures
        field_of(a + seq![capital] + rest) == field_of(a) + seq!['_', lower(capital)] + ascii_lower(
            rest,
        ),
        field_of(seq![capital] + rest) == seq![lower(capital)] + ascii_lower(rest),
{
    let word = seq![capital] + rest;
    assert(a + seq![capital] + rest =~= a + word);
    lemma_field_behind(a, word, word.len() as int);
    assert(field_tail(word, 0) =~= Seq::<char>::empty());
    assert(field_tail(word, 1) =~= seq!['_', lower(capital)]);
    lemma_tail_small(word, rest, seq!['_', lower(capital)], rest.len() as int);
    assert(field_of(a + seq![capital] + rest) =~= field_of(a) + seq!['_', lower(capital)]
        + ascii_lower(rest));
    let one = seq![capital];
    lemma_field_behind(one, rest, rest.len() as int);
    assert(field_upto(one, 0) =~= Seq::<char>::empty());
    assert(field_of(one) =~= seq![lower(capital)]);
    assert(field_tail(rest, 0) =~= Seq::<char>::empty());
    lemma_tail_plain(rest, rest.len() as int);
    assert(rest.take(rest.len() as int) =~= rest);
}

proof fn lemma_tail_plain(s: Text, n: int)
    requires
        0 <= n <= s.len(),
        forall|i: int| 0 <= i < s.len() ==> !is_upper(#[trigger] s[i]),
    ensures
        field_tail(s, n) == ascii_lower(s.take(n)),
    decreases n,
{
    if n > 0 {
        lemma_tail_plain(s, n - 1);
        assert(ascii_lower(s.take(n)) =~= ascii_lower(s.take(n - 1)) + seq![lower(s[n - 1])]);
    } else {
        assert(ascii_lower(s.take(0)) =~= Seq::<char>::empty());
    }
}

proof fn lemma_tail_small(word: Text, rest: Text, front: Text, n: int)
    requires
        0 <= n <= rest.len(),
        word.len() == rest.len() + 1,
        forall|i: int| 0 <= i < rest.len() ==> #[trigger] word[i + 1] == rest[i],
        forall|i: int| 0 <= i < rest.len() ==> !is_upper(#[trigger] rest[i]),
        field_tail(word, 1) == front,
    ensures
        field_tail(word, n + 1) == front + ascii_lower(rest.take(n)),
        n == rest.len() ==> field_tail(word, n + 1) == front + ascii_lower(rest),
    decreases n,
{
    if n > 0 {
        lemma_tail_small(word, rest, front, n - 1);
        assert(word[(n - 1) + 1] == rest[n - 1]);
        assert(ascii_lower(rest.take(n)) =~= ascii_lower(rest.take(n - 1)) + seq![
            lower(rest[n - 1]),
        ]);
        assert(field_tail(word, n + 1) =~= front + ascii_lower(rest.take(n)));
    } else {
        assert(front + ascii_lower(rest.take(0)) =~= front);
    }
    assert(rest.take(rest.len() as int) =~= rest);
}

// ---------------------------------------------------------------------------
// Normalization
// ---------------------------------------------------------------------------

/// Each normalization step is a call of the runtime's function of that name: on the value
/// that is there, but for the one that can make it missing.
pub proof fn law_steps_call_their_function(op: NormalizeOp)
    ensures
        op != NormalizeOp::EmptyAsMissing ==> step_call(op) == ".map(normalize::"@ + op_name(op)
            + ")"@,
        op == NormalizeOp::EmptyAsMissing ==> step_call(op) == ".and_then(normalize::"@ + op_name(
            op,
        ) + ")"@,
{
    reveal_strlit(".map(normalize::");
    reveal_strlit(".and_then(normalize::");
    reveal_strlit(")");
    reveal_strlit("trim");
    reveal_strlit("uppercase");
    reveal_strlit("lowercase");
    reveal_strlit("empty_as_missing");
    reveal_strlit(".map(normalize::trim)");
    reveal_strlit(".map(normalize::uppercase)");
    reveal_strlit(".map(normalize::lowercase)");
    reveal_strlit(".and_then(normalize::empty_as_missing)");
    assert(".map(normalize::trim)"@ =~= ".map(normalize::"@ + "trim"@ + ")"@);
    assert(".map(normalize::uppercase)"@ =~= ".map(normalize::"@ + "uppercase"@ + ")"@);
    assert(".map(normalize::lowercase)"@ =~= ".map(normalize::"@ + "lowercase"@ + ")"@);
    assert(".and_then(normalize::empty_as_missing)"@ =~= ".and_then(normalize::"@
        + "empty_as_missing"@ + ")"@);
}

/// The steps are called one after the other, each once and in their order, on the value
/// that was moved or on a copy of the value that was borrowed.
pub proof fn law_steps_are_called_in_order(access: Text, ops: Seq<NormalizeOp>, owned: bool)
    ensures
        normalized(access, ops, owned, ops.len() as int) == (if owned {
            access
        } else {
            access + ".map(CompactString::from)"@
        }) + cat(ops.map_values(|op: NormalizeOp| step_call(op))),
{
    lemma_steps(access, ops, owned, ops.len() as int);
    assert(ops.take(ops.len() as int) =~= ops);
}

proof fn lemma_steps(access: Text, ops: Seq<NormalizeOp>, owned: bool, n: int)
    requires
        0 <= n <= ops.len(),
    ensures
        normalized(access, ops, owned, n) == (if owned {
            access
        } else {
            access + ".map(CompactString::from)"@
        }) + cat(ops.take(n).map_values(|op: NormalizeOp| step_call(op))),
    decreases n,
{
    let f = |op: NormalizeOp| step_call(op);
    let start = if owned {
        access
    } else {
        access + ".map(CompactString::from)"@
    };
    if n == 0 {
        assert(ops.take(0).map_values(f) =~= Seq::<Text>::empty());
        assert(start + cat(Seq::<Text>::empty()) =~= start);
    } else {
        lemma_steps(access, ops, owned, n - 1);
        let before = ops.take(n - 1).map_values(f);
        let x = step_call(ops[n - 1]);
        assert(ops.take(n).map_values(f) =~= before.push(x));
        lemma_cat_push(before, x);
        assert(start + cat(before) + x =~= start + (cat(before) + x));
    }
}

// ---------------------------------------------------------------------------
// The hub
// ---------------------------------------------------------------------------

/// The fields of a hub that stand in a scope.
pub open spec fn fields_in(hub: HubV, scope: ScopeV) -> Seq<CFieldV>
    decreases hub.len(),
{
    if hub.len() == 0 {
        Seq::empty()
    } else if hub[0].1.scope == scope {
        seq![hub[0].1] + fields_in(hub.drop_first(), scope)
    } else {
        fields_in(hub.drop_first(), scope)
    }
}

/// The declaration of a field in a struct of the hub.
pub open spec fn declared_field(f: CFieldV) -> Text {
    "    pub "@ + field_of(f.key) + (if f.is_collection {
        ": Vec<"@ + item_of(f.key) + ">,\n"@
    } else {
        ": Option<"@ + rust_type_of(f.ty) + ">,\n"@
    })
}

proof fn lemma_fields_in_push(hub: HubV, scope: ScopeV)
    requires
        hub.len() > 0,
    ensures
        fields_in(hub, scope) == if hub.last().1.scope == scope {
            fields_in(hub.drop_last(), scope).push(hub.last().1)
        } else {
            fields_in(hub.drop_last(), scope)
        },
    decreases hub.len(),
{
    if hub.len() > 1 {
        lemma_fields_in_push(hub.drop_first(), scope);
        assert(hub.drop_first().drop_last() =~= hub.drop_last().drop_first());
        assert(hub.drop_last()[0] == hub[0]);
        assert(hub.drop_first().last() == hub.last());
        let rest = fields_in(hub.drop_last().drop_first(), scope);
        assert((seq![hub[0].1] + rest).push(hub.last().1) =~= seq![hub[0].1] + rest.push(
            hub.last().1,
        ));
    } else {
        let none = hub.drop_first();
        assert(none.len() == 0);
        assert(hub.drop_last() =~= none);
        assert(fields_in(none, scope) =~= Seq::<CFieldV>::empty());
        assert(seq![hub[0].1] + fields_in(none, scope) =~= fields_in(none, scope).push(hub[0].1));
    }
}

proof fn lemma_scope_decls(t: Text, hub: HubV, scope: ScopeV, n: int)
    requires
        0 <= n <= hub.len(),
    ensures
        scope_decls(t, hub, scope, n) == t + cat(
            fields_in(hub.take(n), scope).map_values(|f: CFieldV| declared_field(f)),
        ),
    decreases n,
{
    let d = |f: CFieldV| declared_field(f);
    if n == 0 {
        assert(fields_in(hub.take(0), scope).map_values(d) =~= Seq::<Text>::empty());
        assert(t + cat(Seq::<Text>::empty()) =~= t);
    } else {
        lemma_scope_decls(t, hub, scope, n - 1);
        lemma_fields_in_push(hub.take(n), scope);
        assert(hub.take(n).drop_last() =~= hub.take(n - 1));
        assert(hub.take(n).last() == hub[n - 1]);
        let f = hub[n - 1].1;
        if f.scope == scope {
            let before = fields_in(hub.take(n - 1), scope);
            assert(before.push(f).map_values(d) =~= before.map_values(d).push(declared_field(f)));
            lemma_cat_push(
                before.map_values(d),
                declared_field(f),
            );
            let u = t + cat(before.map_values(d));
            assert(field_decl(u, f) =~= u + declared_field(f));
            assert(u + declared_field(f) =~= t + (cat(before.map_values(d)) + declared_field(f)));
        }
    }
}

/// The struct of a scope declares every hub field of that scope once, in order, and
/// nothing else: a collection as a list of its items, a value as an option.
pub proof fn law_structs_declare_the_fields_of_their_scope(t: Text, hub: HubV, scope: ScopeV)
    ensures
        scope_decls(t, hub, scope, hub.len() as int) == t + cat(
            fields_in(hub, scope).map_values(|f: CFieldV| declared_field(f)),
        ),
        forall|i: int|
            0 <= i < fields_in(hub, scope).len() ==> (#[trigger] fields_in(hub, scope)[i]).scope
                == scope,
{
    lemma_scope_decls(t, hub, scope, hub.len() as int);
    assert(hub.take(hub.len() as int) =~= hub);
    lemma_fields_in_scope(hub, scope);
}

proof fn lemma_fields_in_scope(hub: HubV, scope: ScopeV)
    ensures
        forall|i: int|
            0 <= i < fields_in(hub, scope).len() ==> (#[trigger] fields_in(hub, scope)[i]).scope
                == scope,
    decreases hub.len(),
{
    if hub.len() > 0 {
        lemma_fields_in_scope(hub.drop_first(), scope);
    }
}

/// The collections of a hub.
pub open spec fn collections_in(hub: HubV) -> Seq<CFieldV>
    decreases hub.len(),
{
    if hub.len() == 0 {
        Seq::empty()
    } else if hub.last().1.is_collection {
        collections_in(hub.drop_last()).push(hub.last().1)
    } else {
        collections_in(hub.drop_last())
    }
}

/// The struct of the items of a collection: it declares the fields inside the collection.
pub open spec fn item_struct_decl(hub: HubV, f: CFieldV) -> Text {
    "\n/// One item of the `"@ + f.key
        + "` canonical collection.\n#[derive(Debug, Clone, Default, PartialEq)]\npub struct "@
        + item_of(f.key) + " {\n"@ + cat(
        fields_in(hub, inside(f.scope, f.key)).map_values(|g: CFieldV| declared_field(g)),
    ) + "}\n"@
}

proof fn lemma_item_structs(t: Text, hub: HubV, n: int)
    requires
        0 <= n <= hub.len(),
    ensures
        item_structs(t, hub, n) == t + cat(
            collections_in(hub.take(n)).map_values(|f: CFieldV| item_struct_decl(hub, f)),
        ),
    decreases n,
{
    let d = |f: CFieldV| item_struct_decl(hub, f);
    if n == 0 {
        assert(collections_in(hub.take(0)).map_values(d) =~= Seq::<Text>::empty());
        assert(t + cat(Seq::<Text>::empty()) =~= t);
    } else {
        lemma_item_structs(t, hub, n - 1);
        assert(hub.take(n).drop_last() =~= hub.take(n - 1));
        assert(hub.take(n).last() == hub[n - 1]);
        let f = hub[n - 1].1;
        if f.is_collection {
            let before = collections_in(hub.take(n - 1));
            assert(before.push(f).map_values(d) =~= before.map_values(d).push(
                item_struct_decl(hub, f),
            ));
            lemma_cat_push(
                before.map_values(d),
                item_struct_decl(hub, f),
            );
            let u = t + cat(before.map_values(d));
            let head = u + "\n/// One item of the `"@ + f.key
                + "` canonical collection.\n#[derive(Debug, Clone, Default, PartialEq)]\npub struct "@
                + item_of(f.key) + " {\n"@;
            law_structs_declare_the_fields_of_their_scope(head, hub, inside(f.scope, f.key));
            assert(item_struct_text(u, hub, f) =~= u + item_struct_decl(hub, f));
            assert(u + item_struct_decl(hub, f) =~= t + (cat(before.map_values(d))
                + item_struct_decl(hub, f)));
        }
    }
}

/// The generated hub is the struct of the root and, behind it, one struct for the items of
/// each collection, in order; each declares the fields of its scope.
pub proof fn law_hub_has_a_struct_for_each_scope(hub: HubV)
    ensures
        hub_text(hub) == "// Generated canonical hub. Do not edit by hand.\n\n"@
            + "use compact_str::CompactString;\n"@ + "use rust_decimal::Decimal;\n\n"@
            + "/// The canonical invoice hub (union of every spoke's canonical keys).\n"@
            + "#[derive(Debug, Clone, Default, PartialEq)]\n"@ + "pub struct MainKey {\n"@ + cat(
            fields_in(hub, None).map_values(|f: CFieldV| declared_field(f)),
        ) + "}\n"@ + cat(
            collections_in(hub).map_values(|f: CFieldV| item_struct_decl(hub, f)),
        ),
{
    let head = "// Generated canonical hub. Do not edit by hand.\n\n"@
        + "use compact_str::CompactString;\n"@ + "use rust_decimal::Decimal;\n\n"@
        + "/// The canonical invoice hub (union of every spoke's canonical keys).\n"@
        + "#[derive(Debug, Clone, Default, PartialEq)]\n"@ + "pub struct MainKey {\n"@;
    law_structs_declare_the_fields_of_their_scope(head, hub, None);
    let t = scope_decls(head, hub, None, hub.len() as int) + "}\n"@;
    lemma_item_structs(t, hub, hub.len() as int);
    assert(hub.take(hub.len() as int) =~= hub);
}

/// Decimal and truth values have types of their own in the hub; everything else is text.
pub proof fn law_hub_types(ty: MappingType)
    ensures
        rust_type_of(ty) == "Decimal"@ <==> ty == MappingType::Decimal,
        rust_type_of(ty) == "bool"@ <==> ty == MappingType::Boolean,
        rust_type_of(ty) == "CompactString"@ <==> ty != MappingType::Decimal && ty
            != MappingType::Boolean,
{
    reveal_strlit("Decimal");
    reveal_strlit("bool");
    reveal_strlit("CompactString");
    assert("Decimal"@.len() == 7 && "bool"@.len() == 4 && "CompactString"@.len() == 13);
}

// ---------------------------------------------------------------------------
// The source structs
// ---------------------------------------------------------------------------

/// What a path takes for optional is declared as an option, what it takes for repeated as
/// a list, and anything else as a text; a missing option or list is left out of a document
/// and counts as empty.
pub proof fn law_declared_types_agree_with_paths(name: Text, f: FieldV)
    requires
        !(f.repeated && f.optional),
    ensures
        "Option<"@.is_prefix_of(source_type(f)) <==> seg_of(name, f).optional,
        "Vec<"@.is_prefix_of(source_type(f)) <==> seg_of(name, f).repeated,
        !seg_of(name, f).optional && !seg_of(name, f).repeated ==> source_type(f)
            == "CompactString"@,
        serde_parts(f).contains("default"@) <==> seg_of(name, f).optional || seg_of(
            name,
            f,
        ).repeated,
        seg_of(name, f).optional <==> empty_check(name, f) == "self."@ + name
            + ".as_ref().map_or(true, |value| value.is_empty())"@,
        !seg_of(name, f).optional <==> empty_check(name, f) == "self."@ + name + ".is_empty()"@,
        f.xml matches Some(x) ==> serde_parts(f).len() > 0 && serde_parts(f)[0] == "rename = "@
            + quoted(x),
{
    reveal_strlit("Option<");
    reveal_strlit("Vec<");
    reveal_strlit("Vec<CompactString>");
    reveal_strlit("Option<CompactString>");
    reveal_strlit("CompactString");
    reveal_strlit("Option<Box<");
    reveal_strlit("default");
    reveal_strlit("rename = ");
    reveal_strlit("skip_serializing_if = \"Vec::is_empty\"");
    reveal_strlit("skip_serializing_if = \"Option::is_none\"");
    reveal_strlit(".is_empty()");
    reveal_strlit(".as_ref().map_or(true, |value| value.is_empty())");
    let t = source_type(f);
    if f.ty is None {
        assert("Vec<CompactString>"@.subrange(0, 4) =~= "Vec<"@);
        assert("Option<CompactString>"@.subrange(0, 7) =~= "Option<"@);
        assert("Vec<CompactString>"@[0] == 'V' && "Option<CompactString>"@[0] == 'O');
        assert("CompactString"@[0] == 'C');
    } else if f.repeated {
        assert(t.subrange(0, 4) =~= "Vec<"@);
        assert(t[0] == 'V');
    } else {
        assert(t.subrange(0, 7) =~= "Option<"@);
        assert(t[0] == 'O');
    }
    if "Option<"@.is_prefix_of(t) {
        assert(t.subrange(0, 7)[0] == 'O');
    }
    if "Vec<"@.is_prefix_of(t) {
        assert(t.subrange(0, 4)[0] == 'V');
    }
    let parts = serde_parts(f);
    let k: int = if f.xml is Some {
        1
    } else {
        0
    };
    if f.repeated || f.optional || f.ty is Some {
        assert(parts[k] == "default"@);
        assert(parts.contains("default"@));
    } else if parts.contains("default"@) {
        let i = choose|i: int| 0 <= i < parts.len() && parts[i] == "default"@;
        assert(parts[i] == parts[0]);
        assert(parts[0][0] == 'r' && "default"@[0] == 'd');
    }
    let a = "self."@ + name + ".is_empty()"@;
    let b = "self."@ + name + ".as_ref().map_or(true, |value| value.is_empty())"@;
    assert(a.len() != b.len());
}

/// The declarations of the fields of a struct, each once and in order.
pub open spec fn field_decls(fields: FieldsV) -> Text {
    cat(fields.map_values(|f: (Text, FieldV)| source_field(Seq::empty(), f.0, f.1)))
}

proof fn lemma_source_fields(t: Text, fields: FieldsV, n: int)
    requires
        0 <= n <= fields.len(),
    ensures
        source_fields(t, fields, n) == t + field_decls(fields.take(n)),
    decreases n,
{
    let d = |f: (Text, FieldV)| source_field(Seq::empty(), f.0, f.1);
    if n == 0 {
        assert(fields.take(0).map_values(d) =~= Seq::<Text>::empty());
        assert(t + cat(Seq::<Text>::empty()) =~= t);
    } else {
        lemma_source_fields(t, fields, n - 1);
        let before = fields.take(n - 1).map_values(d);
        let x = source_field(Seq::empty(), fields[n - 1].0, fields[n - 1].1);
        assert(fields.take(n).map_values(d) =~= before.push(x));
        lemma_cat_push(before, x);
        let u = t + cat(before);
        assert(source_field(u, fields[n - 1].0, fields[n - 1].1) =~= u + x);
        assert(u + x =~= t + (cat(before) + x));
    }
}

/// The emptiness checks of the fields of a struct, joined by `and`.
pub open spec fn checks_of(fields: FieldsV) -> Text {
    "        "@ + join(
        fields.map_values(|f: (Text, FieldV)| empty_check(f.0, f.1)),
        "\n            && "@,
    ) + "\n"@
}

proof fn lemma_empty_checks(t: Text, fields: FieldsV, n: int)
    requires
        0 < n <= fields.len(),
    ensures
        empty_checks(t, fields, n) == t + checks_of(fields.take(n)),
    decreases n,
{
    let d = |f: (Text, FieldV)| empty_check(f.0, f.1);
    let parts = fields.take(n).map_values(d);
    reveal_strlit("\n");
    reveal_strlit("            && ");
    reveal_strlit("\n            && ");
    assert("\n            && "@ =~= "\n"@ + "            && "@);
    if n == 1 {
        assert(parts =~= seq![empty_check(fields[0].0, fields[0].1)]);
        assert(empty_checks(t, fields, n) =~= t + checks_of(fields.take(n)));
    } else {
        lemma_empty_checks(t, fields, n - 1);
        let before = fields.take(n - 1).map_values(d);
        let x = empty_check(fields[n - 1].0, fields[n - 1].1);
        assert(parts.drop_last() =~= before);
        assert(parts.last() == x);
        let j = join(before, "\n            && "@);
        assert(join(parts, "\n            && "@) == j + "\n            && "@ + x);
        assert(empty_checks(t, fields, n) =~= t + ("        "@ + (j + "\n            && "@ + x)
            + "\n"@));
    }
}

/// A source struct declares every one of its fields once and in order, and it is empty if,
/// and only if, every one of them is.
pub proof fn law_source_structs_have_every_field(t: Text, name: Text, fields: FieldsV)
    requires
        fields.len() > 0,
    ensures
        struct_text(t, name, fields) == t
            + "#[derive(Debug, Clone, Default, PartialEq, Eq, Serialize, Deserialize)]\npub struct "@
            + name + " {\n"@ + field_decls(fields) + "}\n"@ + "impl "@ + name
            + " {\n    pub fn is_empty(&self) -> bool {\n"@ + checks_of(fields) + "    }\n}\n"@,
{
    let n = fields.len() as int;
    assert(fields.take(n) =~= fields);
    let head = t
        + "#[derive(Debug, Clone, Default, PartialEq, Eq, Serialize, Deserialize)]\npub struct "@
        + name + " {\n"@;
    lemma_source_fields(head, fields, n);
    let u = source_fields(head, fields, n) + "}\n"@;
    let v = u + "impl "@ + name + " {\n    pub fn is_empty(&self) -> bool {\n"@;
    lemma_empty_checks(v, fields, n);
}

/// Every source struct is declared, in order, each behind the one before it.
pub proof fn law_every_source_struct_is_declared(
    t: Text,
    structs: StructsV,
    name: Text,
    fields: FieldsV,
)
    ensures
        structs_text(t, structs.push((name, fields)), structs.len() as int + 1) == struct_text(
            structs_text(t, structs, structs.len() as int),
            name,
            fields,
        ) + "\n"@,
{
    lemma_structs_same(t, structs, structs.push((name, fields)), structs.len() as int);
    assert(structs.push((name, fields))[structs.len() as int] == (name, fields));
}

proof fn lemma_structs_same(t: Text, a: StructsV, b: StructsV, n: int)
    requires
        n <= a.len(),
        n <= b.len(),
        forall|i: int| 0 <= i < n ==> #[trigger] a[i] == b[i],
    ensures
        structs_text(t, a, n) == structs_text(t, b, n),
    decreases n,
{
    if n > 0 {
        lemma_structs_same(t, a, b, n - 1);
        assert(a[n - 1] == b[n - 1]);
    }
}

} // verus!
