//! Synthesizing the source model of a spoke from its nodes: the ids mirror the
//! XML element tree.
use vstd::prelude::*;

use crate::dsl::error::{node_error, Diagnostic, DiagnosticV};
use crate::dsl::meta::clone_opt;
use crate::dsl::node::{descends_from, nearest, NodeId, RawNode, RawV, Scope};
use crate::dsl::parse::NodesV;
use crate::dsl::source_model::meta::{
    FieldMeta, FieldType, FieldV, FieldsV, ModelV, SourceModelMeta, StructMeta, StructsV,
};
use crate::dsl::types::MappingType;
use crate::ordmap::{has_key, lookup, put, OrdMap};
use crate::text::{
    char_is_digit, char_is_lower, char_is_upper, char_lower, char_upper, chars_of, is_digit,
    is_lower, is_upper, join, join_strings, lower, same, split, starts_with, upper, Text,
};

verus! {

// ---------------------------------------------------------------------------
// Names
// ---------------------------------------------------------------------------

/// Whether an underscore goes before the character at `i`: it is a capital that
/// follows a small letter or digit, or that a small letter follows.
pub open spec fn word_break(s: Text, i: int) -> bool {
    i > 0 && is_upper(s[i]) && ((is_lower(s[i - 1]) || is_digit(s[i - 1])) || (i + 1 < s.len()
        && is_lower(s[i + 1])))
}

/// The field name of the first `n` characters of an element name.
pub open spec fn snake_upto(s: Text, n: int) -> Text
    decreases n,
{
    if n <= 0 {
        Seq::empty()
    } else {
        let head = snake_upto(s, n - 1);
        if word_break(s, n - 1) {
            head.push('_').push(lower(s[n - 1]))
        } else {
            head.push(lower(s[n - 1]))
        }
    }
}

/// The field name of an element name: words in small letters joined by
/// underscores, an acronym counting as one word.
pub open spec fn snake(s: Text) -> Text {
    snake_upto(s, s.len() as int)
}

/// The struct name of the first `n` characters of an element name.
pub open spec fn camel_upto(s: Text, n: int) -> Text
    decreases n,
{
    if n <= 0 {
        Seq::empty()
    } else {
        let head = camel_upto(s, n - 1);
        let c = s[n - 1];
        if c == '_' {
            head
        } else if n == 1 || s[n - 2] == '_' {
            head.push(upper(c))
        } else {
            head.push(c)
        }
    }
}

/// The struct name of an element name: underscores dropped, and the first letter
/// of each word between them capitalised.
pub open spec fn camel(s: Text) -> Text {
    camel_upto(s, s.len() as int)
}

/// The name of the struct of a collection's items.
pub open spec fn item_struct(coll: Text) -> Text {
    camel(split(coll, '.').last())
}

/// The field name of an element name.
pub fn snake_case(s: &str) -> (out: String)
    ensures
        out@ == snake(s@),
{
    let chars = chars_of(s);
    let mut out = String::new();
    let mut i: usize = 0;
    while i < chars.len()
        invariant
            i <= chars.len(),
            out@ == snake_upto(chars@, i as int),
        decreases chars.len() - i,
    {
        let c = chars[i];
        if i > 0 && char_is_upper(c) {
            let prev_lower = char_is_lower(chars[i - 1]) || char_is_digit(chars[i - 1]);
            let next_lower = i + 1 < chars.len() && char_is_lower(chars[i + 1]);
            if prev_lower || next_lower {
                out.push('_');
            }
        }
        out.push(char_lower(c));
        i += 1;
    }
    out
}

/// The struct name of an element name.
pub fn camel_case(s: &str) -> (out: String)
    ensures
        out@ == camel(s@),
{
    let chars = chars_of(s);
    let mut out = String::new();
    let mut i: usize = 0;
    while i < chars.len()
        invariant
            i <= chars.len(),
            out@ == camel_upto(chars@, i as int),
        decreases chars.len() - i,
    {
        let c = chars[i];
        if c != '_' {
            if i == 0 || chars[i - 1] == '_' {
                out.push(char_upper(c));
            } else {
                out.push(c);
            }
        }
        i += 1;
    }
    out
}

/// The name of the struct of a collection's items.
pub fn item_struct_name(coll: &NodeId) -> (out: String)
    ensures
        out@ == item_struct(coll@),
{
    let segs = coll.segments();
    assert(segs@.last()@ == segs.deep_view().last());
    camel_case(segs[segs.len() - 1].as_str())
}

// ---------------------------------------------------------------------------
// What the synthesis yields
// ---------------------------------------------------------------------------

/// The struct that the fields of a scope start from.
pub open spec fn scope_base(scope: Option<Text>, root: Text) -> Text {
    match scope {
        None => root,
        Some(coll) => item_struct(coll),
    }
}

/// The element path of a node below its scope.
pub open spec fn element_path_of(id: Text, scope: Option<Text>, root: Text) -> Seq<Text> {
    let segs = split(id, '.');
    match scope {
        None => if segs.len() > 0 && segs[0] == root {
            segs.skip(1)
        } else {
            segs
        },
        Some(coll) => segs.skip(split(coll, '.').len() as int),
    }
}

/// Whether a map of nodes has one below `id`.
pub open spec fn has_below(active: NodesV, id: Text) -> bool {
    exists|i: int| 0 <= i < active.len() && descends_from((#[trigger] active[i]).0, id)
}

/// The fields of a struct, none if the struct is not there yet.
pub open spec fn fields_of(structs: StructsV, name: Text) -> FieldsV {
    match lookup::<String, FieldsV>(structs, name) {
        Some(f) => f,
        None => Seq::empty(),
    }
}

/// The structs with `name` among them.
pub open spec fn with_struct(structs: StructsV, name: Text) -> StructsV {
    if has_key::<String, FieldsV>(structs, name) {
        structs
    } else {
        put::<String, FieldsV>(structs, name, Seq::empty())
    }
}

/// Whether a field is declared already, and differently.
pub open spec fn conflicts(structs: StructsV, name: Text, field: Text, f: FieldV) -> bool {
    lookup::<String, FieldV>(fields_of(structs, name), field) matches Some(g) && g != f
}

/// The structs with the field declared.
pub open spec fn with_field(structs: StructsV, name: Text, field: Text, f: FieldV) -> StructsV {
    put::<String, FieldsV>(
        structs,
        name,
        put::<String, FieldV>(fields_of(structs, name), field, f),
    )
}

/// The error for a field that is declared in two ways.
pub open spec fn conflict_text(name: Text, field: Text) -> Text {
    "synthesized field `"@ + name + "."@ + field + "` is defined two incompatible ways"@
}

/// How far a path has been laid: the structs so far, the struct it has reached,
/// the field names on the way, and what stopped it, if anything.
#[verifier::ext_equal]
pub struct Laid {
    pub structs: StructsV,
    pub current: Text,
    pub parts: Seq<Text>,
    pub failed: Option<Text>,
}

/// The field of an element that only contains others.
pub open spec fn container_field(seg: Text) -> FieldV {
    FieldV { optional: false, repeated: false, ty: Some(camel(seg)), xml: Some(seg) }
}

/// Lays the containers `segs` from the struct `base`.
pub open spec fn lay(structs: StructsV, base: Text, segs: Seq<Text>) -> Laid
    decreases segs.len(),
{
    if segs.len() == 0 {
        Laid { structs, current: base, parts: Seq::empty(), failed: None }
    } else {
        let l = lay(structs, base, segs.drop_last());
        let seg = segs.last();
        if l.failed is Some {
            l
        } else if conflicts(l.structs, l.current, snake(seg), container_field(seg)) {
            Laid { failed: Some(conflict_text(l.current, snake(seg))), ..l }
        } else {
            Laid {
                structs: with_struct(
                    with_field(l.structs, l.current, snake(seg), container_field(seg)),
                    camel(seg),
                ),
                current: camel(seg),
                parts: l.parts.push(snake(seg)),
                failed: None,
            }
        }
    }
}

/// Adds one field at the end of a laid path.
pub open spec fn end_with(l: Laid, field: Text, f: FieldV) -> Laid {
    if l.failed is Some {
        l
    } else if conflicts(l.structs, l.current, field, f) {
        Laid { failed: Some(conflict_text(l.current, field)), ..l }
    } else {
        Laid {
            structs: with_field(l.structs, l.current, field, f),
            parts: l.parts.push(field),
            ..l
        }
    }
}

/// Refuses a laid path.
pub open spec fn refuse(l: Laid, message: Text) -> Laid {
    if l.failed is Some {
        l
    } else {
        Laid { failed: Some(message), ..l }
    }
}

/// Adds a struct-typed field at the end of a laid path and steps into the struct.
pub open spec fn step_into(l: Laid, field: Text, f: FieldV, name: Text) -> Laid {
    let m = end_with(l, field, f);
    if m.failed is Some {
        m
    } else {
        Laid { structs: with_struct(m.structs, name), current: name, ..m }
    }
}

/// The XML name of a node's element.
pub open spec fn element_name(node: RawV, last: Text) -> Option<Text> {
    match node.xml {
        Some(x) => Some(x),
        None => Some(last),
    }
}

/// The text field of an element.
pub open spec fn text_field() -> FieldV {
    FieldV { optional: true, repeated: false, ty: None, xml: Some("$text"@) }
}

/// Whether an XML name is that of an attribute.
pub open spec fn is_attribute(xml: Text) -> bool {
    "@"@.is_prefix_of(xml)
}

/// Adds the node itself at the end of its laid containers: a collection, an
/// attribute, the text of the element, an element with a value and children, or
/// a plain element.
pub open spec fn place(
    l: Laid,
    last: Text,
    node: RawV,
    ty: MappingType,
    below: bool,
    id: Text,
) -> Laid {
    let multi = node.multiple is Some;
    if ty == MappingType::Collection {
        if multi {
            refuse(
                l,
                "`multiple` is not valid on a collection node (a collection already repeats)"@,
            )
        } else {
            step_into(
                l,
                snake(last),
                FieldV {
                    optional: false,
                    repeated: true,
                    ty: Some(item_struct(id)),
                    xml: element_name(node, last),
                },
                item_struct(id),
            )
        }
    } else if node.xml is Some && is_attribute(node.xml->0) {
        if multi {
            refuse(
                l,
                "`multiple` is not valid on an attribute leaf (an XML attribute cannot repeat)"@,
            )
        } else {
            end_with(
                l,
                snake(last),
                FieldV { optional: true, repeated: false, ty: None, xml: node.xml },
            )
        }
    } else if node.xml == Some("$text"@) {
        if multi {
            refuse(l, "`multiple` is not valid on a `$text` leaf (element text cannot repeat)"@)
        } else {
            end_with(l, "value"@, text_field())
        }
    } else if below {
        if multi {
            refuse(
                l,
                "`multiple` is not valid on a valued container (model the repetition as a collection instead)"@,
            )
        } else {
            end_with(
                step_into(
                    l,
                    snake(last),
                    FieldV {
                        optional: false,
                        repeated: false,
                        ty: Some(camel(last)),
                        xml: element_name(node, last),
                    },
                    camel(last),
                ),
                "value"@,
                text_field(),
            )
        }
    } else {
        end_with(
            l,
            snake(last),
            FieldV { optional: !multi, repeated: multi, ty: None, xml: element_name(node, last) },
        )
    }
}

/// Adds a node with a non-empty element path below the struct `base`.
pub open spec fn inserted(
    structs: StructsV,
    base: Text,
    segs: Seq<Text>,
    node: RawV,
    ty: MappingType,
    below: bool,
    id: Text,
) -> Laid {
    place(lay(structs, base, segs.drop_last()), segs.last(), node, ty, below, id)
}

/// The dotted path of a laid path.
pub open spec fn laid_path(l: Laid) -> Text {
    join(l.parts, "."@)
}

/// What the synthesis has yielded so far.
#[verifier::ext_equal]
pub struct SynthV {
    pub structs: StructsV,
    pub paths: Seq<(Text, Text)>,
    pub diags: Seq<DiagnosticV>,
}

/// Whether a node is a collection.
pub open spec fn is_coll(active: NodesV, id: Text) -> bool {
    lookup::<NodeId, RawV>(active, id) matches Some(n) && n.ty == Some(MappingType::Collection)
}

/// The scope of a node: the nearest collection above it.
pub open spec fn scope_in(active: NodesV, id: Text) -> Option<Text> {
    nearest(id, |a: Text| is_coll(active, a))
}

/// An error of the synthesis.
pub open spec fn synth_error(id: Text, message: Text) -> DiagnosticV {
    node_error("E024"@, id, message)
}

/// The synthesis with one more node; a node without a type is left out.
pub open spec fn synth_step(acc: SynthV, active: NodesV, i: int, root: Text) -> SynthV {
    let (id, node) = active[i];
    match node.ty {
        None => acc,
        Some(ty) => {
            let scope = scope_in(active, id);
            let segs = element_path_of(id, scope, root);
            if segs.len() == 0 {
                SynthV {
                    diags: acc.diags.push(
                        synth_error(
                            id,
                            "node `"@ + id + "` has no element path under its scope"@,
                        ),
                    ),
                    ..acc
                }
            } else {
                let l = inserted(
                    acc.structs,
                    scope_base(scope, root),
                    segs,
                    node,
                    ty,
                    has_below(active, id),
                    id,
                );
                match l.failed {
                    None => SynthV {
                        structs: l.structs,
                        paths: put::<NodeId, Text>(acc.paths, id, laid_path(l)),
                        ..acc
                    },
                    Some(message) => SynthV {
                        structs: l.structs,
                        diags: acc.diags.push(synth_error(id, message)),
                        ..acc
                    },
                }
            }
        },
    }
}

/// The synthesis of the first `n` nodes.
pub open spec fn synth_upto(active: NodesV, root: Text, n: int) -> SynthV
    decreases n,
{
    if n <= 0 {
        SynthV {
            structs: put::<String, FieldsV>(Seq::empty(), root, Seq::empty()),
            paths: Seq::empty(),
            diags: Seq::empty(),
        }
    } else {
        synth_step(synth_upto(active, root, n - 1), active, n - 1, root)
    }
}

/// The synthesis of all nodes.
pub open spec fn synth(active: NodesV, root: Text) -> SynthV {
    synth_upto(active, root, active.len() as int)
}

// ---------------------------------------------------------------------------
// The synthesis
// ---------------------------------------------------------------------------

/// The path being laid for one node.
struct Laying {
    current: String,
    parts: Vec<String>,
}

/// Declares a field of a struct, or says how it is declared already.
fn upsert_field(
    structs: &mut OrdMap<String, StructMeta>,
    struct_name: &str,
    field: &str,
    meta: FieldMeta,
) -> (r: Result<(), String>)
    ensures
        conflicts(old(structs)@, struct_name@, field@, meta@) ==> final(structs)@ == old(structs)@
            && (r matches Err(e) && e@ == conflict_text(struct_name@, field@)),
        !conflicts(old(structs)@, struct_name@, field@, meta@) ==> r is Ok && final(structs)@
            == with_field(old(structs)@, struct_name@, field@, meta@),
{
    let name = struct_name.to_string();
    let mut entry = match structs.get(&name) {
        Some(s) => s.clone(),
        None => StructMeta::default(),
    };
    let field_name = field.to_string();
    if let Some(existing) = entry.fields.get(&field_name) {
        if !existing.alike(&meta) {
            let mut message = "synthesized field `".to_string();
            message.push_str(struct_name);
            message.push_str(".");
            message.push_str(field);
            message.push_str("` is defined two incompatible ways");
            return Err(message);
        }
    }
    entry.fields.insert(field_name, meta);
    structs.insert(name, entry);
    Ok(())
}

/// Makes sure that a struct is there.
fn ensure_struct(structs: &mut OrdMap<String, StructMeta>, name: &str)
    ensures
        final(structs)@ == with_struct(old(structs)@, name@),
{
    let key = name.to_string();
    if !structs.contains_key(&key) {
        structs.insert(key, StructMeta::default());
    }
}

/// The XML name of a node's element.
fn rename_of(node: &RawNode, last: &str) -> (r: Option<String>)
    ensures
        r.deep_view() == element_name(node@, last@),
{
    match &node.xml {
        Some(x) => Some(x.clone()),
        None => Some(last.to_string()),
    }
}

/// The text field of an element.
fn new_text_field() -> (f: FieldMeta)
    ensures
        f@ == text_field(),
{
    FieldMeta {
        optional: true,
        repeated: false,
        ty: FieldType::Scalar,
        xml: Some("$text".to_string()),
    }
}

/// The state of a path that has been laid without failing.
spec fn laid_so_far(structs: StructsV, l: Laying) -> Laid {
    Laid { structs, current: l.current@, parts: l.parts.deep_view(), failed: None }
}

/// Adds one field at the end of a laid path.
fn finish(structs: &mut OrdMap<String, StructMeta>, laying: &mut Laying, field: &str, f: FieldMeta) -> (r:
    Result<(), String>)
    ensures
        ({
            let l = end_with(laid_so_far(old(structs)@, *old(laying)), field@, f@);
            &&& final(structs)@ == l.structs
            &&& match r {
                Ok(_) => l == laid_so_far(final(structs)@, *final(laying)),
                Err(e) => l.failed == Some(e@),
            }
        }),
{
    match upsert_field(structs, laying.current.as_str(), field, f) {
        Err(e) => Err(e),
        Ok(()) => {
            let ghost before = laying.parts.deep_view();
            laying.parts.push(field.to_string());
            assert(laying.parts.deep_view() =~= before.push(field@));
            Ok(())
        },
    }
}

/// Adds a struct-typed field at the end of a laid path and steps into the struct.
fn enter(
    structs: &mut OrdMap<String, StructMeta>,
    laying: &mut Laying,
    field: &str,
    f: FieldMeta,
    name: String,
) -> (r: Result<(), String>)
    ensures
        ({
            let l = step_into(laid_so_far(old(structs)@, *old(laying)), field@, f@, name@);
            &&& final(structs)@ == l.structs
            &&& match r {
                Ok(_) => l == laid_so_far(final(structs)@, *final(laying)),
                Err(e) => l.failed == Some(e@),
            }
        }),
{
    match finish(structs, laying, field, f) {
        Err(e) => Err(e),
        Ok(()) => {
            ensure_struct(structs, name.as_str());
            laying.current = name;
            Ok(())
        },
    }
}

/// A path that failed early stays failed.
proof fn lemma_lay_fail(structs: StructsV, base: Text, segs: Seq<Text>, n: int)
    requires
        0 <= n <= segs.len(),
        lay(structs, base, segs.take(n)).failed is Some,
    ensures
        lay(structs, base, segs) == lay(structs, base, segs.take(n)),
    decreases segs.len() - n,
{
    if n < segs.len() {
        assert(segs.take(n + 1).drop_last() =~= segs.take(n));
        lemma_lay_fail(structs, base, segs, n + 1);
    } else {
        assert(segs.take(n) =~= segs);
    }
}

/// Lays the containers of a node: every segment but the last.
fn lay_containers(
    structs: &mut OrdMap<String, StructMeta>,
    base: &str,
    segments: &Vec<String>,
) -> (r: Result<Laying, String>)
    requires
        segments@.len() > 0,
    ensures
        ({
            let l = lay(old(structs)@, base@, segments.deep_view().drop_last());
            &&& final(structs)@ == l.structs
            &&& match r {
                Ok(laying) => l == laid_so_far(final(structs)@, laying),
                Err(e) => l.failed == Some(e@),
            }
        }),
{
    let ghost start = structs@;
    let ghost segs = segments.deep_view().drop_last();
    let mut laying = Laying { current: base.to_string(), parts: Vec::new() };
    let mut i: usize = 0;
    assert(laid_so_far(structs@, laying) =~= lay(start, base@, segs.take(0)));
    while i < segments.len() - 1
        invariant
            i < segments.len(),
            segs == segments.deep_view().drop_last(),
            start == old(structs)@,
            laid_so_far(structs@, laying) == lay(start, base@, segs.take(i as int)),
        decreases segments.len() - i,
    {
        let seg = segments[i].as_str();
        proof {
            assert(segs.take(i + 1).drop_last() =~= segs.take(i as int));
            assert(segs.take(i + 1).last() == seg@);
        }
        let field = snake_case(seg);
        let struct_name = camel_case(seg);
        let meta = FieldMeta {
            optional: false,
            repeated: false,
            ty: FieldType::Struct(struct_name.clone()),
            xml: Some(seg.to_string()),
        };
        match enter(structs, &mut laying, field.as_str(), meta, struct_name) {
            Ok(()) => {},
            Err(e) => {
                proof {
                    assert(lay(start, base@, segs.take(i + 1)).failed == Some(e@));
                    lemma_lay_fail(start, base@, segs, i + 1);
                }
                return Err(e);
            },
        }
        i += 1;
    }
    assert(segs.take(segs.len() as int) =~= segs);
    Ok(laying)
}

/// Whether a map of nodes has one below `id`.
fn has_descendant(active: &OrdMap<NodeId, RawNode>, id: &NodeId) -> (r: bool)
    ensures
        r == has_below(active@, id@),
{
    let mut i: usize = 0;
    while i < active.len()
        invariant
            i <= active@.len(),
            forall|j: int| 0 <= j < i ==> !descends_from((#[trigger] active@[j]).0, id@),
        decreases active@.len() - i,
    {
        if active.key_at(i).is_descendant_of(id) {
            assert(descends_from(active@[i as int].0, id@));
            return true;
        }
        i += 1;
    }
    false
}

/// Adds a node to the structs and yields its dotted path, or says why it cannot
/// be added.
fn insert_node(
    structs: &mut OrdMap<String, StructMeta>,
    base: &str,
    segments: &Vec<String>,
    node: &RawNode,
    ty: MappingType,
    active: &OrdMap<NodeId, RawNode>,
    id: &NodeId,
) -> (r: Result<String, String>)
    requires
        segments@.len() > 0,
    ensures
        ({
            let l = inserted(
                old(structs)@,
                base@,
                segments.deep_view(),
                node@,
                ty,
                has_below(active@, id@),
                id@,
            );
            &&& final(structs)@ == l.structs
            &&& match r {
                Ok(path) => l.failed is None && path@ == laid_path(l),
                Err(e) => l.failed == Some(e@),
            }
        }),
{
    let mut laying = match lay_containers(structs, base, segments) {
        Err(e) => {
            return Err(e);
        },
        Ok(l) => l,
    };
    let last = segments[segments.len() - 1].as_str();
    assert(last@ == segments.deep_view().last());
    let multi = node.multiple.is_some();
    if ty == MappingType::Collection {
        if multi {
            return Err(
                "`multiple` is not valid on a collection node (a collection already repeats)".to_string(),
            );
        }
        let item = item_struct_name(id);
        let meta = FieldMeta {
            optional: false,
            repeated: true,
            ty: FieldType::Struct(item.clone()),
            xml: rename_of(node, last),
        };
        return match enter(structs, &mut laying, snake_case(last).as_str(), meta, item) {
            Err(e) => Err(e),
            Ok(()) => Ok(join_strings(&laying.parts, ".")),
        };
    }
    let attribute = match &node.xml {
        Some(x) => starts_with(x.as_str(), "@"),
        None => false,
    };
    if attribute {
        if multi {
            return Err(
                "`multiple` is not valid on an attribute leaf (an XML attribute cannot repeat)".to_string(),
            );
        }
        let meta = FieldMeta {
            optional: true,
            repeated: false,
            ty: FieldType::Scalar,
            xml: clone_opt(&node.xml),
        };
        return match finish(structs, &mut laying, snake_case(last).as_str(), meta) {
            Err(e) => Err(e),
            Ok(()) => Ok(join_strings(&laying.parts, ".")),
        };
    }
    let element_text = match &node.xml {
        Some(x) => same(x.as_str(), "$text"),
        None => false,
    };
    if element_text {
        if multi {
            return Err(
                "`multiple` is not valid on a `$text` leaf (element text cannot repeat)".to_string(),
            );
        }
        return match finish(structs, &mut laying, "value", new_text_field()) {
            Err(e) => Err(e),
            Ok(()) => Ok(join_strings(&laying.parts, ".")),
        };
    }
    if has_descendant(active, id) {
        if multi {
            return Err(
                "`multiple` is not valid on a valued container (model the repetition as a collection instead)".to_string(),
            );
        }
        let struct_name = camel_case(last);
        let meta = FieldMeta {
            optional: false,
            repeated: false,
            ty: FieldType::Struct(struct_name.clone()),
            xml: rename_of(node, last),
        };
        match enter(structs, &mut laying, snake_case(last).as_str(), meta, struct_name) {
            Err(e) => {
                return Err(e);
            },
            Ok(()) => {},
        }
        return match finish(structs, &mut laying, "value", new_text_field()) {
            Err(e) => Err(e),
            Ok(()) => Ok(join_strings(&laying.parts, ".")),
        };
    }
    let meta = FieldMeta {
        optional: !multi,
        repeated: multi,
        ty: FieldType::Scalar,
        xml: rename_of(node, last),
    };
    match finish(structs, &mut laying, snake_case(last).as_str(), meta) {
        Err(e) => Err(e),
        Ok(()) => Ok(join_strings(&laying.parts, ".")),
    }
}

/// The struct that the fields of a scope start from.
fn scope_struct(scope: &Scope, root: &str) -> (s: String)
    ensures
        s@ == scope_base(scope@, root@),
{
    match scope {
        Scope::Root => root.to_string(),
        Scope::Collection(coll) => item_struct_name(coll),
    }
}

/// The segments from `from` on.
fn segments_from(segs: &Vec<String>, from: usize) -> (out: Vec<String>)
    ensures
        from <= segs@.len() ==> out.deep_view() == segs.deep_view().skip(from as int),
{
    let mut out: Vec<String> = Vec::new();
    let mut i: usize = from;
    while i < segs.len()
        invariant
            from <= segs@.len() ==> from <= i <= segs.len(),
            from > segs@.len() ==> i == from,
            from <= segs@.len() ==> out.deep_view() =~= segs.deep_view().subrange(
                from as int,
                i as int,
            ),
        decreases segs.len() - i,
    {
        let ghost before = out.deep_view();
        out.push(segs[i].clone());
        assert(out.deep_view() =~= before.push(segs.deep_view()[i as int]));
        i += 1;
    }
    assert(from <= segs@.len() ==> segs.deep_view().subrange(from as int, segs@.len() as int)
        =~= segs.deep_view().skip(from as int));
    out
}

/// The element path of a node below its scope.
fn element_path(id: &NodeId, scope: &Scope, root: &str) -> (r: Vec<String>)
    requires
        scope@ matches Some(coll) ==> split(coll, '.').len() <= split(id@, '.').len(),
    ensures
        r.deep_view() == element_path_of(id@, scope@, root@),
{
    let segs = id.segments();
    assert(segs.deep_view()[0] == segs@[0]@);
    match scope {
        Scope::Root => {
            if same(segs[0].as_str(), root) {
                segments_from(&segs, 1)
            } else {
                segs
            }
        },
        Scope::Collection(coll) => {
            let skip = coll.segments().len();
            segments_from(&segs, skip)
        },
    }
}

/// A prefix of a text has no more segments than the text.
pub proof fn lemma_split_grows(s: Text, n: int, sep: char)
    requires
        0 <= n <= s.len(),
    ensures
        split(s.take(n), sep).len() <= split(s, sep).len(),
    decreases s.len(),
{
    if n < s.len() {
        lemma_split_grows(s.drop_last(), n, sep);
        assert(s.drop_last().take(n) =~= s.take(n));
        crate::text::lemma_split_nonempty(s.drop_last(), sep);
    } else {
        assert(s.take(n) =~= s);
    }
}

/// Synthesizes the source model of a spoke: the model, the path of every node
/// that has one, and an error for each node that cannot be placed.
pub fn synthesize_source_model(
    active: &OrdMap<NodeId, RawNode>,
    root: &str,
    model_id: &str,
) -> (r: (SourceModelMeta, OrdMap<NodeId, String>, Vec<Diagnostic>))
    ensures
        ({
            let s = synth(active@, root@);
            &&& r.0@ == (ModelV { model_id: model_id@, root: root@, structs: s.structs })
            &&& r.1@ == s.paths
            &&& r.2.deep_view() == s.diags
        }),
{
    let mut structs: OrdMap<String, StructMeta> = OrdMap::new();
    structs.insert(root.to_string(), StructMeta::default());
    let mut paths: OrdMap<NodeId, String> = OrdMap::new();
    let mut diags: Vec<Diagnostic> = Vec::new();
    let mut i: usize = 0;
    assert(diags.deep_view() =~= Seq::<DiagnosticV>::empty());
    while i < active.len()
        invariant
            i <= active@.len(),
            structs@ == synth_upto(active@, root@, i as int).structs,
            paths@ == synth_upto(active@, root@, i as int).paths,
            diags.deep_view() == synth_upto(active@, root@, i as int).diags,
        decreases active@.len() - i,
    {
        let id = active.key_at(i);
        let node = active.value_at(i);
        let ghost before = diags.deep_view();
        if let Some(ty) = node.ty {
            let holds_items = |a: &NodeId| -> (b: bool)
                ensures
                    b == is_coll(active@, a@),
                { is_collection_node(active, a) };
            let scope = id.nearest_collection_scope(holds_items);
            proof {
                let p = |a: Text| is_coll(active@, a);
                assert(scope@ == nearest(id@, p));
                crate::dsl::node::lemma_nearest(id@, p);
                if let Some(coll) = scope@ {
                    assert(id@.take(coll.len() as int) =~= coll) by {
                        assert(id@.subrange(0, (coll.len() + 1) as int) =~= coll.push('.'));
                        assert forall|j: int| 0 <= j < coll.len() implies id@[j] == coll[j] by {
                            assert(id@.subrange(0, (coll.len() + 1) as int)[j] == coll.push('.')[j]);
                        }
                    }
                    lemma_split_grows(id@, coll.len() as int, '.');
                }
            }
            let base = scope_struct(&scope, root);
            let segments = element_path(id, &scope, root);
            if segments.len() == 0 {
                let mut message = "node `".to_string();
                message.push_str(id.as_str());
                message.push_str("` has no element path under its scope");
                let d = Diagnostic::about("E024", id.as_str(), message);
                diags.push(d);
                assert(diags.deep_view() =~= before.push(d@));
            } else {
                match insert_node(&mut structs, base.as_str(), &segments, node, ty, active, id) {
                    Ok(path) => {
                        paths.insert(id.clone(), path);
                    },
                    Err(message) => {
                        let d = Diagnostic::about("E024", id.as_str(), message);
                        diags.push(d);
                        assert(diags.deep_view() =~= before.push(d@));
                    },
                }
            }
        }
        i += 1;
    }
    (
        SourceModelMeta { model_id: model_id.to_string(), root: root.to_string(), structs },
        paths,
        diags,
    )
}

/// Whether a node is a collection.
pub fn is_collection_node(active: &OrdMap<NodeId, RawNode>, id: &NodeId) -> (r: bool)
    ensures
        r == is_coll(active@, id@),
{
    match active.get(id) {
        Some(n) => match n.ty {
            Some(ty) => ty == MappingType::Collection,
            None => false,
        },
        None => false,
    }
}

} // verus!
