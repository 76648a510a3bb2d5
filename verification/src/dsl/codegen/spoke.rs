//! Whole generated modules: a spoke, a shared source model, and the plan that
//! keeps a set of spokes from repeating each other.
use vstd::prelude::*;

use crate::dsl::codegen::append::{
    lemma_reader_code, lemma_source_section_text, lemma_writer_code,
};
use crate::dsl::codegen::plan::{generable, joins, plays, GenCtx, MappingPlan, Role};
use crate::dsl::codegen::read::{generate_read, reader_code};
use crate::dsl::codegen::source::{source_section, source_section_text};
use crate::dsl::codegen::write::{generate_write, writer_code};
use crate::dsl::ir::{IrV, MappingIr};
use crate::dsl::multiple::MultiplePolicy;
use crate::dsl::node::Scope;
use crate::dsl::source_model::meta::{ModelV, SourceModelMeta};
use crate::text::{chars_of, decimal, decimal_of, join, join_strings, same, string_of, Text};

verus! {

/// The text `t` with the imports of a mapper module.
pub open spec fn imports_text(t: Text, hub_module: Text) -> Text {
    let t = t + "use std::str::FromStr as _;\n"@;
    let t = t + "use compact_str::{CompactString, ToCompactString as _};\n"@;
    let t = t + "use rust_decimal::Decimal;\n"@;
    let t = t
        + "use einvoice_transformator::result::{MappingDiagnostic, MappingResult, Severity};\n"@;
    let t = t + "use einvoice_transformator::{adapter, normalize, validate};\n"@;
    t + "use "@ + hub_module + "::*;\n"@
}

/// Generates the imports of a mapper module.
fn mapper_imports(out: &mut String, hub_module: &str)
    ensures
        final(out)@ == imports_text(old(out)@, hub_module@),
{
    out.push_str("use std::str::FromStr as _;\n");
    out.push_str("use compact_str::{CompactString, ToCompactString as _};\n");
    out.push_str("use rust_decimal::Decimal;\n");
    out.push_str(
        "use einvoice_transformator::result::{MappingDiagnostic, MappingResult, Severity};\n",
    );
    out.push_str("use einvoice_transformator::{adapter, normalize, validate};\n");
    out.push_str("use ");
    out.push_str(hub_module);
    out.push_str("::*;\n");
}

/// The text `t` with the reader and the writer of a spoke.
pub open spec fn mappers_text(t: Text, ir: IrV, model: ModelV) -> Text {
    writer_code(reader_code(t, ir.nodes, model, model.root) + "\n"@, ir.nodes, model, model.root)
}

/// Generates the reader and the writer of a spoke.
fn mapper_section(out: &mut String, ir: &MappingIr, source: &SourceModelMeta)
    requires
        generable(ir@.nodes),
    ensures
        final(out)@ == mappers_text(old(out)@, ir@, source@),
{
    let plan = MappingPlan::build(ir);
    let ctx = GenCtx { ir, source, plan: &plan };
    generate_read(out, &ctx, source.root.as_str());
    out.push_str("\n");
    generate_write(out, &ctx, source.root.as_str());
}

/// The text `t` with the line that names a mapping and its version.
pub open spec fn mapping_line(t: Text, ir: IrV) -> Text {
    t + "// Mapping: "@ + ir.meta.doc_format + " v"@ + ir.meta.mapping_version + "\n"@
}

/// Generates the line that names a mapping and its version.
fn name_mapping(out: &mut String, ir: &MappingIr)
    ensures
        final(out)@ == mapping_line(old(out)@, ir@),
{
    out.push_str("// Mapping: ");
    out.push_str(ir.meta.doc_format.as_str());
    out.push_str(" v");
    out.push_str(ir.meta.mapping_version.as_str());
    out.push_str("\n");
}

/// Whether code can be generated for a mapping.
pub fn can_generate(ir: &MappingIr) -> (r: bool)
    ensures
        r == generable(ir@.nodes),
{
    let ghost nodes = ir@.nodes;
    let mut i: usize = 0;
    while i < ir.nodes.len()
        invariant
            i <= nodes.len(),
            nodes == ir@.nodes,
            forall|j: int|
                0 <= j < i ==> (#[trigger] nodes[j]).1.id == nodes[j].0 && (
                nodes[j].1.scope matches Some(c) ==> c.len() < nodes[j].0.len()) && (plays(
                    nodes[j].1,
                    Role::Scalar,
                ) ==> joins(nodes[j].1)),
        decreases nodes.len() - i,
    {
        let id = ir.nodes.key_at(i);
        let node = ir.nodes.value_at(i);
        assert(nodes[i as int] == (id@, node@));
        let nested = match &node.scope {
            Scope::Root => true,
            Scope::Collection(c) => chars_of(c.as_str()).len() < chars_of(id.as_str()).len(),
        };
        let unjoined = match node.multiple {
            Some(MultiplePolicy::Join) => node.join_with.is_none(),
            _ => false,
        };
        if !same(node.id.as_str(), id.as_str()) || !nested || (unjoined && !node.is_collection()
            && !node.is_helper()) {
            return false;
        }
        i += 1;
    }
    true
}

/// The module of a spoke.
#[verifier::opaque]
pub open spec fn spoke_text(ir: IrV, model: ModelV, hub_module: Text) -> Text {
    let t = "// Generated spoke mapper. Do not edit by hand.\n"@;
    let t = t + "// Source model: "@ + model.model_id + "\n"@;
    let t = mapping_line(t, ir);
    let t = t + "\n"@;
    let t = t + "use serde::{Deserialize, Serialize};\n"@;
    let t = imports_text(t, hub_module);
    let t = t + "\n"@;
    let t = source_section_text(t, model);
    let t = t + "\n"@;
    mappers_text(t, ir, model)
}

/// Generates the module of a spoke: its typed source structs and the mappers
/// between them and the hub in `hub_module`.
pub fn generate_spoke(ir: &MappingIr, source: &SourceModelMeta, hub_module: &str) -> (out: String)
    requires
        generable(ir@.nodes),
    ensures
        out@ == spoke_text(ir@, source@, hub_module@),
{
    reveal(spoke_text);
    let mut out = "// Generated spoke mapper. Do not edit by hand.\n".to_string();
    out.push_str("// Source model: ");
    out.push_str(source.model_id.as_str());
    out.push_str("\n");
    name_mapping(&mut out, ir);
    out.push_str("\n");
    out.push_str("use serde::{Deserialize, Serialize};\n");
    mapper_imports(&mut out, hub_module);
    out.push_str("\n");
    source_section(&mut out, source);
    out.push_str("\n");
    mapper_section(&mut out, ir, source);
    out
}

/// The module that holds only a source model.
#[verifier::opaque]
pub open spec fn source_module_text(model: ModelV) -> Text {
    let t = "// Generated shared source model. Do not edit by hand.\n"@;
    let t = t + "// Source model: "@ + model.model_id + "\n"@;
    let t = t + "\n"@;
    let t = t + "use compact_str::CompactString;\n"@;
    let t = t + "use serde::{Deserialize, Serialize};\n\n"@;
    source_section_text(t, model)
}

/// Generates the module that holds only a source model: its typed structs and
/// their XML input and output.
pub fn generate_source_module(source: &SourceModelMeta) -> (out: String)
    ensures
        out@ == source_module_text(source@),
{
    reveal(source_module_text);
    let mut out = "// Generated shared source model. Do not edit by hand.\n".to_string();
    out.push_str("// Source model: ");
    out.push_str(source.model_id.as_str());
    out.push_str("\n");
    out.push_str("\n");
    out.push_str("use compact_str::CompactString;\n");
    out.push_str("use serde::{Deserialize, Serialize};\n\n");
    source_section(&mut out, source);
    out
}

/// The module of a spoke whose structs stand in another module.
#[verifier::opaque]
pub open spec fn mapper_module_text(
    ir: IrV,
    model: ModelV,
    hub_module: Text,
    structs_module: Text,
) -> Text {
    let t = "// Generated spoke mapper. Do not edit by hand.\n"@;
    let t = t + "// Source model: "@ + model.model_id + " (structs shared)\n"@;
    let t = mapping_line(t, ir);
    let t = t + "\n"@;
    let t = t + "pub use "@ + structs_module + "::*;\n"@;
    let t = t + "\n"@;
    let t = imports_text(t, hub_module);
    let t = t + "\n"@;
    mappers_text(t, ir, model)
}

/// Generates the module of a spoke whose structs stand in `structs_module`.
pub fn generate_mapper_module(
    ir: &MappingIr,
    source: &SourceModelMeta,
    hub_module: &str,
    structs_module: &str,
) -> (out: String)
    requires
        generable(ir@.nodes),
    ensures
        out@ == mapper_module_text(ir@, source@, hub_module@, structs_module@),
{
    reveal(mapper_module_text);
    let mut out = "// Generated spoke mapper. Do not edit by hand.\n".to_string();
    out.push_str("// Source model: ");
    out.push_str(source.model_id.as_str());
    out.push_str(" (structs shared)\n");
    name_mapping(&mut out, ir);
    out.push_str("\n");
    out.push_str("pub use ");
    out.push_str(structs_module);
    out.push_str("::*;\n");
    out.push_str("\n");
    mapper_imports(&mut out, hub_module);
    out.push_str("\n");
    mapper_section(&mut out, ir, source);
    out
}

/// The generated modules of a set of spokes.
#[derive(Debug)]
pub struct SpokeDedupPlan {
    /// The shared source models: module name and module text.
    pub shared_modules: Vec<(String, String)>,
    /// What stands for each spoke, in the order of the spokes.
    pub modules: Vec<SpokeModule>,
}

/// What stands for one spoke.
#[derive(Debug)]
pub enum SpokeModule {
    /// A module with this text.
    Emit(String),
    /// The module of the earlier spoke with this slug.
    Alias(String),
}

/// The model of a [`SpokeModule`].
pub enum ModuleV {
    Emit(Text),
    Alias(Text),
}

impl DeepView for SpokeModule {
    type V = ModuleV;

    open spec fn deep_view(&self) -> ModuleV {
        match self {
            SpokeModule::Emit(t) => ModuleV::Emit(t@),
            SpokeModule::Alias(t) => ModuleV::Alias(t@),
        }
    }
}

/// The least position, from `i` on, at which an empty line follows; the length if
/// there is none.
pub open spec fn blank_from(t: Text, i: int) -> int
    decreases t.len() - i,
{
    if i + 1 >= t.len() {
        t.len() as int
    } else if t[i] == '\n' && t[i + 1] == '\n' {
        i
    } else {
        blank_from(t, i + 1)
    }
}

/// What a module holds behind its first empty line: everything but the comment
/// block that names it.
pub open spec fn body_of(t: Text) -> Text {
    let i = blank_from(t, 0);
    if i < t.len() {
        t.subrange(i + 2, t.len() as int)
    } else {
        t
    }
}

/// What a module holds behind its first empty line.
fn body(text: &str) -> (out: String)
    ensures
        out@ == body_of(text@),
{
    let chars = chars_of(text);
    let mut i: usize = 0;
    while i < chars.len() && !(chars.len() - i > 1 && chars[i] == '\n' && chars[i + 1] == '\n')
        invariant
            i <= chars.len(),
            chars@ == text@,
            blank_from(text@, 0) == blank_from(text@, i as int),
        decreases chars.len() - i,
    {
        i += 1;
    }
    if i < chars.len() {
        string_of(&chars, i + 2, chars.len())
    } else {
        text.to_string()
    }
}

/// What a module that names `id` and then has an empty line keeps of the name in its
/// body: nothing, unless the name holds an empty line or ends in a line feed.
pub open spec fn kept_of_name(id: Text) -> Text {
    body_of(id + "\n\n"@)
}

/// Whether a name has no empty line in it and does not end in a line feed.
pub open spec fn on_lines(id: Text) -> bool {
    forall|i: int|
        0 <= i < id.len() && #[trigger] id[i] == '\n' ==> i + 1 < id.len() && id[i + 1] != '\n'
}

proof fn lemma_blank_from(t: Text, i: int, k: int)
    requires
        0 <= i <= k,
        k + 1 < t.len(),
        t[k] == '\n' && t[k + 1] == '\n',
        forall|j: int| i <= j < k ==> !(#[trigger] t[j] == '\n' && t[j + 1] == '\n'),
    ensures
        blank_from(t, i) == k,
    decreases k - i,
{
    if i < k {
        lemma_blank_from(t, i + 1, k);
    }
}

proof fn lemma_blank_found(t: Text, i: int)
    requires
        0 <= i <= t.len(),
    ensures
        i <= blank_from(t, i) <= t.len(),
        blank_from(t, i) < t.len() ==> blank_from(t, i) + 1 < t.len() && t[blank_from(t, i)]
            == '\n' && t[blank_from(t, i) + 1] == '\n',
        forall|j: int|
            i <= j < blank_from(t, i) && j + 1 < t.len() ==> !(#[trigger] t[j] == '\n' && t[j + 1]
                == '\n'),
    decreases t.len() - i,
{
    if i + 1 < t.len() && !(t[i] == '\n' && t[i + 1] == '\n') {
        lemma_blank_found(t, i + 1);
    }
}

/// A name without an empty line is not in the body of a module that it names.
pub proof fn law_names_are_not_in_bodies(id: Text)
    requires
        on_lines(id),
    ensures
        kept_of_name(id) == Seq::<char>::empty(),
{
    reveal_strlit("\n\n");
    let t = id + "\n\n"@;
    let k = id.len() as int;
    assert forall|j: int| 0 <= j < k implies !(#[trigger] t[j] == '\n' && t[j + 1] == '\n') by {
        assert(t[j] == id[j]);
        if id[j] == '\n' {
            assert(t[j + 1] == id[j + 1]);
        }
    }
    lemma_blank_from(t, 0, k);
    assert(body_of(t) =~= Seq::<char>::empty());
}

/// The body of a module that begins with one line, the name `id` in the next, and an
/// empty line.
proof fn lemma_body_behind_name(head: Text, id: Text, rest: Text)
    requires
        head.len() > 0,
        head.last() != '\n',
        forall|j: int|
            0 <= j < head.len() - 1 ==> !(#[trigger] head[j] == '\n' && head[j + 1] == '\n'),
    ensures
        body_of(head + id + "\n\n"@ + rest) == kept_of_name(id) + rest,
{
    reveal_strlit("\n\n");
    let named = id + "\n\n"@;
    let t = head + id + "\n\n"@ + rest;
    let h = head.len() as int;
    assert(t =~= head + named + rest);
    lemma_blank_found(named, 0);
    let k = blank_from(named, 0);
    assert(k < named.len()) by {
        let last = named.len() - 2;
        assert(named[last] == '\n' && named[last + 1] == '\n');
    }
    assert forall|j: int| 0 <= j < h + k implies !(#[trigger] t[j] == '\n' && t[j + 1] == '\n') by {
        if j < h - 1 {
            assert(t[j] == head[j] && t[j + 1] == head[j + 1]);
        } else if j == h - 1 {
            assert(t[j] == head[j]);
        } else {
            assert(t[j] == named[j - h]);
            assert(t[j + 1] == named[j - h + 1]);
        }
    }
    assert(t[h + k] == named[k] && t[h + k + 1] == named[k + 1]);
    lemma_blank_from(t, 0, h + k);
    assert(body_of(t) =~= body_of(named) + rest);
}

/// What a module that holds only a source model holds behind the comments that name
/// it.
pub open spec fn source_module_rest(model: ModelV) -> Text {
    "use compact_str::CompactString;\nuse serde::{Deserialize, Serialize};\n\n"@
        + source_section_text(Seq::empty(), model)
}

/// The body of the module that holds only a source model.
proof fn lemma_source_module_body(model: ModelV)
    ensures
        body_of(source_module_text(model)) == kept_of_name(model.model_id) + source_module_rest(
            model,
        ),
{
    reveal(source_module_text);
    reveal_strlit("// Generated shared source model. Do not edit by hand.\n");
    reveal_strlit("// Source model: ");
    reveal_strlit("\n");
    reveal_strlit("\n\n");
    reveal_strlit("use compact_str::CompactString;\n");
    reveal_strlit("use serde::{Deserialize, Serialize};\n\n");
    reveal_strlit("use compact_str::CompactString;\nuse serde::{Deserialize, Serialize};\n\n");
    let one = "// Generated shared source model. Do not edit by hand.\n"@;
    let two = "// Source model: "@;
    let head = one + two;
    let before = one + two + model.model_id + "\n"@ + "\n"@ + "use compact_str::CompactString;\n"@
        + "use serde::{Deserialize, Serialize};\n\n"@;
    lemma_source_section_text(before, Seq::empty(), model);
    assert(before + Seq::<char>::empty() =~= before);
    let section = source_section_text(Seq::empty(), model);
    let rest = source_module_rest(model);
    assert("\n"@ + "\n"@ =~= "\n\n"@);
    assert("use compact_str::CompactString;\n"@ + "use serde::{Deserialize, Serialize};\n\n"@
        =~= "use compact_str::CompactString;\nuse serde::{Deserialize, Serialize};\n\n"@);
    assert(source_module_text(model) == before + section);
    assert(before + section =~= head + model.model_id + "\n\n"@ + rest);
    lemma_body_behind_name(head, model.model_id, rest);
}

/// Source models with the same root and the same structs, whatever their names, have
/// modules that are the same behind the first empty line, as long as the names leave
/// the same behind there; names without an empty line leave nothing.
pub proof fn law_equal_sources_have_equal_bodies(a: ModelV, b: ModelV)
    requires
        a.root == b.root,
        a.structs == b.structs,
        kept_of_name(a.model_id) == kept_of_name(b.model_id),
    ensures
        body_of(source_module_text(a)) == body_of(source_module_text(b)),
        on_lines(a.model_id) ==> body_of(source_module_text(a)) == source_module_rest(a),
{
    lemma_source_module_body(a);
    lemma_source_module_body(b);
    if on_lines(a.model_id) {
        law_names_are_not_in_bodies(a.model_id);
        assert(kept_of_name(a.model_id) + source_module_rest(a) =~= source_module_rest(a));
    }
}

/// What the module of a spoke has before its source section.
pub open spec fn spoke_head(ir: IrV, model: ModelV, hub_module: Text) -> Text {
    let t = "// Generated spoke mapper. Do not edit by hand.\n"@;
    let t = t + "// Source model: "@ + model.model_id + "\n"@;
    let t = mapping_line(t, ir);
    let t = t + "\n"@;
    let t = t + "use serde::{Deserialize, Serialize};\n"@;
    imports_text(t, hub_module) + "\n"@
}

/// What the module of a source model has before its source section.
pub open spec fn source_module_head(model: ModelV) -> Text {
    "// Generated shared source model. Do not edit by hand.\n"@ + "// Source model: "@
        + model.model_id + "\n"@ + "\n"@ + "use compact_str::CompactString;\n"@
        + "use serde::{Deserialize, Serialize};\n\n"@
}

/// What the module of a spoke whose structs stand in another module has before its
/// mappers.
pub open spec fn mapper_module_head(
    ir: IrV,
    model: ModelV,
    hub_module: Text,
    structs_module: Text,
) -> Text {
    let t = "// Generated spoke mapper. Do not edit by hand.\n"@;
    let t = t + "// Source model: "@ + model.model_id + " (structs shared)\n"@;
    let t = mapping_line(t, ir);
    let t = t + "\n"@;
    let t = t + "pub use "@ + structs_module + "::*;\n"@;
    let t = t + "\n"@;
    imports_text(t, hub_module) + "\n"@
}

/// The module of a source model and the module of the mappers on it carry together
/// just what the module of the spoke carries: behind their heads, the one has the
/// source section of the spoke, and the other its mappers.
pub proof fn law_two_modules_carry_the_spoke(
    ir: IrV,
    model: ModelV,
    hub_module: Text,
    structs_module: Text,
)
    requires
        generable(ir.nodes),
    ensures
        ({
            let section = source_section_text(Seq::empty(), model);
            let mappers = mappers_text(Seq::empty(), ir, model);
            &&& spoke_text(ir, model, hub_module) == spoke_head(ir, model, hub_module) + section
                + "\n"@ + mappers
            &&& source_module_text(model) == source_module_head(model) + section
            &&& mapper_module_text(ir, model, hub_module, structs_module) == mapper_module_head(
                ir,
                model,
                hub_module,
                structs_module,
            ) + mappers
        }),
{
    reveal(spoke_text);
    reveal(source_module_text);
    reveal(mapper_module_text);
    let none = Seq::<char>::empty();
    let section = source_section_text(none, model);
    let whole = spoke_head(ir, model, hub_module);
    let alone = source_module_head(model);
    let split = mapper_module_head(ir, model, hub_module, structs_module);
    lemma_source_section_text(whole, none, model);
    lemma_source_section_text(alone, none, model);
    assert(whole + none =~= whole);
    assert(alone + none =~= alone);
    assert(split + none =~= split);
    let behind = whole + section + "\n"@;
    assert(behind + none =~= behind);
    lemma_mappers_text(behind, none, ir, model);
    lemma_mappers_text(split, none, ir, model);
}

proof fn lemma_put_behind(s: Text, x: Text, y: Text)
    ensures
        (s + x) + y == s + (x + y),
{
    assert((s + x) + y =~= s + (x + y));
}

/// The mappers of a spoke do not depend on what stands before them.
proof fn lemma_mappers_text(s: Text, t: Text, ir: IrV, model: ModelV)
    requires
        generable(ir.nodes),
    ensures
        mappers_text(s + t, ir, model) == s + mappers_text(t, ir, model),
{
    lemma_reader_code(s, t, ir.nodes, model, model.root);
    let r = reader_code(t, ir.nodes, model, model.root);
    lemma_put_behind(s, r, "\n"@);
    lemma_writer_code(s, r + "\n"@, ir.nodes, model, model.root);
}

/// The first position of a list that holds `x`, from `i` on.
pub open spec fn first_from(list: Seq<Text>, x: Text, i: int) -> int
    decreases list.len() - i,
{
    if i >= list.len() || list[i] == x {
        i
    } else {
        first_from(list, x, i + 1)
    }
}

/// The first position of a list that holds the same as position `i`.
pub open spec fn first_like(list: Seq<Text>, i: int) -> int {
    first_from(list, list[i], 0)
}

/// The first position that holds `x` comes before every other one that does.
proof fn lemma_first_from(list: Seq<Text>, x: Text, i: int)
    requires
        0 <= i <= list.len(),
    ensures
        i <= first_from(list, x, i) <= list.len(),
        first_from(list, x, i) < list.len() ==> list[first_from(list, x, i)] == x,
        forall|j: int| i <= j < first_from(list, x, i) ==> #[trigger] list[j] != x,
    decreases list.len() - i,
{
    if i < list.len() && list[i] != x {
        lemma_first_from(list, x, i + 1);
    }
}

/// The first position of a list that holds the same as position `i`.
fn first_alike(list: &Vec<String>, i: usize) -> (k: usize)
    requires
        i < list@.len(),
    ensures
        k == first_like(list.deep_view(), i as int),
        k <= i,
        list.deep_view()[k as int] == list.deep_view()[i as int],
{
    let ghost views = list.deep_view();
    assert(views[i as int] == list@[i as int]@);
    let mut k: usize = 0;
    while k < i && !same(list[k].as_str(), list[i].as_str())
        invariant
            k <= i < list@.len(),
            views == list.deep_view(),
            first_from(views, views[i as int], 0) == first_from(views, views[i as int], k as int),
            views[i as int] == list@[i as int]@,
        decreases i - k,
    {
        assert(views[k as int] == list@[k as int]@);
        k += 1;
    }
    assert(views[k as int] == list@[k as int]@);
    k
}

/// The slugs of those of the first `n` spokes whose source model has the body `x`.
pub open spec fn sharers(slugs: Seq<Text>, bodies: Seq<Text>, x: Text, n: int) -> Seq<Text>
    decreases n,
{
    if n <= 0 {
        Seq::empty()
    } else if bodies[n - 1] == x {
        sharers(slugs, bodies, x, n - 1).push(slugs[n - 1])
    } else {
        sharers(slugs, bodies, x, n - 1)
    }
}

/// Whether the source model of spoke `i` is shared, and `i` is the first to have
/// it.
pub open spec fn leads(slugs: Seq<Text>, bodies: Seq<Text>, i: int) -> bool {
    first_like(bodies, i) == i && sharers(slugs, bodies, bodies[i], bodies.len() as int).len() >= 2
}

/// How many shared source models the first `n` spokes lead.
pub open spec fn led(slugs: Seq<Text>, bodies: Seq<Text>, n: int) -> nat
    decreases n,
{
    if n <= 0 {
        0
    } else if leads(slugs, bodies, n - 1) {
        led(slugs, bodies, n - 1) + 1
    } else {
        led(slugs, bodies, n - 1)
    }
}

/// The name of the shared source model that spoke `i` leads.
pub open spec fn shared_name(slugs: Seq<Text>, bodies: Seq<Text>, i: int) -> Text {
    "shared_"@ + decimal(led(slugs, bodies, i))
}

/// The text of the shared source model that spoke `i` leads.
pub open spec fn shared_text(slugs: Seq<Text>, bodies: Seq<Text>, i: int) -> Text {
    "// Generated shared source model. Do not edit by hand.\n// Shared by: "@ + join(
        sharers(slugs, bodies, bodies[i], bodies.len() as int),
        ", "@,
    ) + "\n\n"@ + bodies[i]
}

/// The shared source models that the first `n` spokes lead, in order.
pub open spec fn shared_upto(slugs: Seq<Text>, bodies: Seq<Text>, n: int) -> Seq<(Text, Text)>
    decreases n,
{
    if n <= 0 {
        Seq::empty()
    } else if leads(slugs, bodies, n - 1) {
        shared_upto(slugs, bodies, n - 1).push(
            (shared_name(slugs, bodies, n - 1), shared_text(slugs, bodies, n - 1)),
        )
    } else {
        shared_upto(slugs, bodies, n - 1)
    }
}

/// The model of a set of spokes: slug, mapping and source model.
pub type SpokesV = Seq<(Text, IrV, ModelV)>;

/// The model of a set of spokes.
pub open spec fn spokes_view(spokes: Seq<(&str, &MappingIr, &SourceModelMeta)>) -> SpokesV {
    Seq::new(spokes.len(), |i: int| (spokes[i].0@, spokes[i].1@, spokes[i].2@))
}

/// The slugs of a set of spokes.
pub open spec fn slugs_of(spokes: SpokesV) -> Seq<Text> {
    Seq::new(spokes.len(), |i: int| spokes[i].0)
}

/// The bodies of the source models of a set of spokes.
pub open spec fn bodies_of(spokes: SpokesV) -> Seq<Text> {
    Seq::new(spokes.len(), |i: int| body_of(source_module_text(spokes[i].2)))
}

/// The module of a spoke: on its own, or on a shared source model.
pub open spec fn module_text(
    ir: IrV,
    model: ModelV,
    hub_module: Text,
    shared: Option<Text>,
) -> Text {
    match shared {
        Some(name) => mapper_module_text(ir, model, hub_module, "super::"@ + name),
        None => spoke_text(ir, model, hub_module),
    }
}

/// Generates the module of a spoke: on its own, or on a shared source model.
fn generate_module(
    ir: &MappingIr,
    source: &SourceModelMeta,
    hub_module: &str,
    shared: &Option<String>,
) -> (out: String)
    requires
        generable(ir@.nodes),
    ensures
        out@ == module_text(ir@, source@, hub_module@, shared.deep_view()),
{
    match shared {
        Some(name) => {
            let mut path = "super::".to_string();
            path.push_str(name.as_str());
            generate_mapper_module(ir, source, hub_module, path.as_str())
        },
        None => generate_spoke(ir, source, hub_module),
    }
}

/// The name of the source model that spoke `i` leads, if it leads one.
pub open spec fn led_name(slugs: Seq<Text>, bodies: Seq<Text>, i: int) -> Option<Text> {
    if leads(slugs, bodies, i) {
        Some(shared_name(slugs, bodies, i))
    } else {
        None
    }
}

/// The module of spoke `i`, whether or not it repeats an earlier one.
pub open spec fn code_of(spokes: SpokesV, hub_module: Text, i: int) -> Text {
    let slugs = slugs_of(spokes);
    let bodies = bodies_of(spokes);
    let (_, ir, model) = spokes[i];
    module_text(ir, model, hub_module, led_name(slugs, bodies, first_like(bodies, i)))
}

/// The bodies of the modules of a set of spokes.
pub open spec fn code_bodies(spokes: SpokesV, hub_module: Text) -> Seq<Text> {
    Seq::new(spokes.len(), |i: int| body_of(code_of(spokes, hub_module, i)))
}

/// What stands for spoke `i`: its module, or the first spoke whose module has the
/// same body.
pub open spec fn module_of(spokes: SpokesV, hub_module: Text, i: int) -> ModuleV {
    let first = first_like(code_bodies(spokes, hub_module), i);
    if first == i {
        ModuleV::Emit(code_of(spokes, hub_module, i))
    } else {
        ModuleV::Alias(spokes[first].0)
    }
}

/// An alias names an earlier spoke whose module is emitted, with the same body.
pub proof fn law_alias_is_emitted(spokes: SpokesV, hub_module: Text, i: int)
    requires
        0 <= i < spokes.len(),
        module_of(spokes, hub_module, i) is Alias,
    ensures
        exists|j: int|
            0 <= j < i && module_of(spokes, hub_module, i) == ModuleV::Alias(
                (#[trigger] spokes[j]).0,
            ) && module_of(spokes, hub_module, j) == ModuleV::Emit(code_of(spokes, hub_module, j))
                && body_of(code_of(spokes, hub_module, j)) == body_of(
                code_of(spokes, hub_module, i),
            ),
{
    let codes = code_bodies(spokes, hub_module);
    let j = first_like(codes, i);
    lemma_first_from(codes, codes[i], 0);
    assert(codes[j] == codes[i]);
    assert(spokes[j].0 == spokes[j].0);
}

/// No two emitted modules have the same body.
pub proof fn law_emitted_differ(spokes: SpokesV, hub_module: Text, i: int, j: int)
    requires
        0 <= i < j < spokes.len(),
        module_of(spokes, hub_module, i) is Emit,
        module_of(spokes, hub_module, j) is Emit,
    ensures
        body_of(code_of(spokes, hub_module, i)) != body_of(code_of(spokes, hub_module, j)),
{
    let codes = code_bodies(spokes, hub_module);
    lemma_first_from(codes, codes[j], 0);
    assert(codes[i] != codes[j]);
}

/// The slugs of the spokes whose source model has the body `x`.
fn sharers_of(slugs: &Vec<String>, bodies: &Vec<String>, x: &str) -> (r: Vec<String>)
    requires
        slugs@.len() == bodies@.len(),
    ensures
        r.deep_view() == sharers(
            slugs.deep_view(),
            bodies.deep_view(),
            x@,
            bodies@.len() as int,
        ),
{
    let ghost s = slugs.deep_view();
    let ghost b = bodies.deep_view();
    let mut r: Vec<String> = Vec::new();
    let mut i: usize = 0;
    assert(r.deep_view() =~= Seq::<Text>::empty());
    while i < bodies.len()
        invariant
            i <= bodies@.len(),
            slugs@.len() == bodies@.len(),
            s == slugs.deep_view(),
            b == bodies.deep_view(),
            r.deep_view() == sharers(s, b, x@, i as int),
        decreases bodies.len() - i,
    {
        assert(b[i as int] == bodies@[i as int]@ && s[i as int] == slugs@[i as int]@);
        if same(bodies[i].as_str(), x) {
            let ghost before = r.deep_view();
            r.push(slugs[i].clone());
            assert(r.deep_view() =~= before.push(s[i as int]));
        }
        i += 1;
    }
    r
}

/// The model of a list of named modules.
pub open spec fn named_view(list: Seq<(String, String)>) -> Seq<(Text, Text)> {
    Seq::new(list.len(), |i: int| (list[i].0@, list[i].1@))
}

/// The shared source models, and for each spoke the name of the one it leads.
fn shared_models(slugs: &Vec<String>, bodies: &Vec<String>) -> (r: (
    Vec<(String, String)>,
    Vec<Option<String>>,
))
    requires
        slugs@.len() == bodies@.len(),
    ensures
        named_view(r.0@) == shared_upto(
            slugs.deep_view(),
            bodies.deep_view(),
            bodies@.len() as int,
        ),
        r.1@.len() == bodies@.len(),
        forall|i: int|
            0 <= i < bodies@.len() ==> (#[trigger] r.1@[i]).deep_view() == led_name(
                slugs.deep_view(),
                bodies.deep_view(),
                i,
            ),
{
    let ghost s = slugs.deep_view();
    let ghost b = bodies.deep_view();
    let mut modules: Vec<(String, String)> = Vec::new();
    let mut names: Vec<Option<String>> = Vec::new();
    let mut count: usize = 0;
    let mut i: usize = 0;
    assert(named_view(modules@) =~= Seq::<(Text, Text)>::empty());
    while i < bodies.len()
        invariant
            i <= bodies@.len(),
            slugs@.len() == bodies@.len(),
            s == slugs.deep_view(),
            b == bodies.deep_view(),
            count <= i,
            count == led(s, b, i as int),
            names@.len() == i,
            named_view(modules@) == shared_upto(s, b, i as int),
            forall|j: int|
                0 <= j < i ==> (#[trigger] names@[j]).deep_view() == led_name(s, b, j),
        decreases bodies.len() - i,
    {
        assert(b[i as int] == bodies@[i as int]@);
        let same_source = sharers_of(slugs, bodies, bodies[i].as_str());
        let leader = first_alike(bodies, i) == i && same_source.len() >= 2;
        if leader {
            let mut name = "shared_".to_string();
            name.push_str(decimal_of(count as u64).as_str());
            let mut text =
                "// Generated shared source model. Do not edit by hand.\n// Shared by: ".to_string();
            text.push_str(join_strings(&same_source, ", ").as_str());
            text.push_str("\n\n");
            text.push_str(bodies[i].as_str());
            let ghost before = modules@;
            let entry = (name.clone(), text);
            modules.push(entry);
            assert(named_view(modules@) =~= named_view(before).push((name@, text@)));
            names.push(Some(name));
            count += 1;
        } else {
            names.push(None);
        }
        i += 1;
    }
    (modules, names)
}

/// The slugs of a set of spokes and the bodies of their source models.
fn slugs_and_bodies(spokes: &[(&str, &MappingIr, &SourceModelMeta)]) -> (r: (
    Vec<String>,
    Vec<String>,
))
    ensures
        r.0.deep_view() == slugs_of(spokes_view(spokes@)),
        r.1.deep_view() == bodies_of(spokes_view(spokes@)),
        r.0@.len() == spokes@.len(),
        r.1@.len() == spokes@.len(),
{
    let ghost v = spokes_view(spokes@);
    let ghost s = slugs_of(v);
    let ghost b = bodies_of(v);
    let mut slugs: Vec<String> = Vec::new();
    let mut bodies: Vec<String> = Vec::new();
    let mut i: usize = 0;
    while i < spokes.len()
        invariant
            i <= spokes@.len(),
            v == spokes_view(spokes@),
            s == slugs_of(v),
            b == bodies_of(v),
            slugs.deep_view() =~= s.take(i as int),
            bodies.deep_view() =~= b.take(i as int),
        decreases spokes.len() - i,
    {
        let ghost before = (slugs.deep_view(), bodies.deep_view());
        let (slug, _, source) = spokes[i];
        slugs.push(slug.to_string());
        bodies.push(body(generate_source_module(source).as_str()));
        proof {
            assert(v[i as int].0 == slug@ && v[i as int].2 == source@);
            assert(slugs.deep_view() =~= before.0.push(s[i as int]));
            assert(bodies.deep_view() =~= before.1.push(b[i as int]));
        }
        i += 1;
    }
    assert(slugs.deep_view() =~= s);
    assert(bodies.deep_view() =~= b);
    assert(slugs@.len() == s.len() && bodies@.len() == b.len());
    (slugs, bodies)
}

/// The source models that the first `n` spokes lead: module name and module text,
/// with the comments that name the source model of the first spoke that has it.
pub open spec fn shared_sources_upto(spokes: SpokesV, n: int) -> Seq<(Text, Text)>
    decreases n,
{
    let (slugs, bodies) = (slugs_of(spokes), bodies_of(spokes));
    if n <= 0 {
        Seq::empty()
    } else if leads(slugs, bodies, n - 1) {
        shared_sources_upto(spokes, n - 1).push(
            (shared_name(slugs, bodies, n - 1), source_module_text(spokes[n - 1].2)),
        )
    } else {
        shared_sources_upto(spokes, n - 1)
    }
}

/// The source models that spokes share: module name and module text, as the first
/// spoke that has it writes it.
pub fn shared_sources(spokes: &[(&str, &MappingIr, &SourceModelMeta)]) -> (r: Vec<
    (String, String),
>)
    ensures
        named_view(r@) == shared_sources_upto(spokes_view(spokes@), spokes@.len() as int),
{
    let ghost v = spokes_view(spokes@);
    let (slugs, bodies) = slugs_and_bodies(spokes);
    let (_, names) = shared_models(&slugs, &bodies);
    let mut r: Vec<(String, String)> = Vec::new();
    let mut i: usize = 0;
    assert(named_view(r@) =~= Seq::<(Text, Text)>::empty());
    while i < spokes.len()
        invariant
            i <= spokes@.len(),
            v == spokes_view(spokes@),
            names@.len() == spokes@.len(),
            forall|i: int|
                0 <= i < spokes@.len() ==> (#[trigger] names@[i]).deep_view() == led_name(
                    slugs_of(v),
                    bodies_of(v),
                    i,
                ),
            named_view(r@) == shared_sources_upto(v, i as int),
        decreases spokes.len() - i,
    {
        assert(v[i as int].2 == spokes@[i as int].2@);
        assert(names@[i as int].deep_view() == led_name(slugs_of(v), bodies_of(v), i as int));
        if let Some(name) = &names[i] {
            let ghost before = r@;
            let entry = (name.clone(), generate_source_module(spokes[i].2));
            r.push(entry);
            assert(named_view(r@) =~= named_view(before).push((entry.0@, entry.1@)));
        }
        i += 1;
    }
    r
}

/// The shared source models of a plan and those of the spokes have the same names.
pub proof fn law_shared_names_agree(spokes: SpokesV, n: int)
    requires
        0 <= n <= spokes.len(),
    ensures
        shared_upto(slugs_of(spokes), bodies_of(spokes), n).len() == shared_sources_upto(
            spokes,
            n,
        ).len(),
        forall|i: int|
            0 <= i < shared_sources_upto(spokes, n).len() ==> (#[trigger] shared_sources_upto(
                spokes,
                n,
            )[i]).0 == shared_upto(slugs_of(spokes), bodies_of(spokes), n)[i].0,
    decreases n,
{
    if n > 0 {
        law_shared_names_agree(spokes, n - 1);
    }
}

/// Plans the modules of a set of spokes, in order: spokes whose source models have
/// the same text share one module for them, and a spoke whose module would repeat
/// an earlier one is an alias of it.
pub fn plan_spoke_dedup(
    spokes: &[(&str, &MappingIr, &SourceModelMeta)],
    hub_module: &str,
) -> (plan: SpokeDedupPlan)
    requires
        forall|i: int| 0 <= i < spokes@.len() ==> generable((#[trigger] spokes@[i]).1@.nodes),
    ensures
        named_view(plan.shared_modules@) == shared_upto(
            slugs_of(spokes_view(spokes@)),
            bodies_of(spokes_view(spokes@)),
            spokes@.len() as int,
        ),
        plan.modules@.len() == spokes@.len(),
        forall|i: int|
            0 <= i < spokes@.len() ==> (#[trigger] plan.modules@[i]).deep_view() == module_of(
                spokes_view(spokes@),
                hub_module@,
                i,
            ),
{
    let ghost v = spokes_view(spokes@);
    let ghost s = slugs_of(v);
    let ghost b = bodies_of(v);
    let (slugs, bodies) = slugs_and_bodies(spokes);
    let (shared_modules, names) = shared_models(&slugs, &bodies);
    let ghost codes = code_bodies(v, hub_module@);
    let mut seen: Vec<String> = Vec::new();
    let mut modules: Vec<SpokeModule> = Vec::new();
    let mut i: usize = 0;
    while i < spokes.len()
        invariant
            i <= spokes@.len(),
            v == spokes_view(spokes@),
            s == slugs_of(v),
            b == bodies_of(v),
            codes == code_bodies(v, hub_module@),
            slugs.deep_view() == s,
            bodies.deep_view() == b,
            slugs@.len() == spokes@.len(),
            bodies@.len() == spokes@.len(),
            forall|i: int| 0 <= i < spokes@.len() ==> generable((#[trigger] spokes@[i]).1@.nodes),
            names@.len() == spokes@.len(),
            forall|i: int|
                0 <= i < spokes@.len() ==> (#[trigger] names@[i]).deep_view() == led_name(s, b, i),
            seen.deep_view() =~= codes.take(i as int),
            modules@.len() == i,
            forall|j: int|
                0 <= j < i ==> (#[trigger] modules@[j]).deep_view() == module_of(
                    v,
                    hub_module@,
                    j,
                ),
        decreases spokes.len() - i,
    {
        let (slug, ir, source) = spokes[i];
        assert(v[i as int] == (slug@, ir@, source@));
        assert(generable(spokes@[i as int].1@.nodes));
        let first = first_alike(&bodies, i);
        let code = generate_module(ir, source, hub_module, &names[first]);
        assert(names@[first as int].deep_view() == led_name(s, b, first as int));
        assert(code@ == code_of(v, hub_module@, i as int));
        let ghost before = seen.deep_view();
        seen.push(body(code.as_str()));
        assert(seen.deep_view() =~= before.push(codes[i as int]));
        let canonical = first_alike(&seen, i);
        proof {
            lemma_first_take(codes, i + 1, i as int);
            assert(seen.deep_view() =~= codes.take(i + 1));
        }
        if canonical == i {
            modules.push(SpokeModule::Emit(code));
        } else {
            assert(s[canonical as int] == slugs@[canonical as int]@);
            modules.push(SpokeModule::Alias(slugs[canonical].clone()));
        }
        i += 1;
    }
    SpokeDedupPlan { shared_modules, modules }
}

/// The first position like `i` is found in any part that holds `i`.
proof fn lemma_first_take(list: Seq<Text>, n: int, i: int)
    requires
        0 <= i < n <= list.len(),
    ensures
        first_like(list.take(n), i) == first_like(list, i),
{
    let part = list.take(n);
    lemma_first_from(list, list[i], 0);
    lemma_first_from(part, list[i], 0);
    let a = first_like(list, i);
    let c = first_like(part, i);
    assert(part[i] == list[i]);
    if a < c {
        assert(part[a] == list[a]);
    }
    if c < a {
        assert(list[c] == part[c]);
    }
}

} // verus!
