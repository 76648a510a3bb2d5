//! The generated registry: the modules of the spokes, the enum over them, and the
//! dispatch to their mappers.
use vstd::prelude::*;

use crate::dsl::clean_laws::{
    law_clean_compile_finds_nothing, law_clean_mapping_is_sound, node_sound,
};
use crate::dsl::codegen::hub::{generate_hub, hub_text};
use crate::dsl::codegen::plan::{generable, joins, plays, Role};
use crate::dsl::codegen::spoke::{
    module_of, named_view, plan_spoke_dedup, shared_sources, shared_sources_upto, spokes_view,
    ModuleV, SpokeModule, SpokesV,
};
use crate::dsl::compile::{
    adapter_names, any_error, compile, compiled, irs_upto, lemma_ir_keys, lemma_source_keys,
    lemma_spokes_built, named, CompileOutput, CompileV, SpokeInput,
};
use crate::dsl::devtool::directory_output;
use crate::dsl::error::{severity_word, DiagnosticV, Severity};
use crate::dsl::ir::{ir_of, scopes_ascend, IrV, MappingIr};
use crate::dsl::loader::{
    law_loaded_chains_are_not_empty, law_loaded_ids_differ, loaded, SourceFile,
};
use crate::dsl::parse::ParsedV;
use crate::dsl::source_model::meta::{ModelV, SourceModelMeta};
use crate::engine::keys::{law_unused_is_defined_elsewhere, view_of};
use crate::engine::spoke::{spoke_of, Spoke, SpokeV};
use crate::ordmap::{
    ascending, lemma_lookup_at, lemma_put_push, lookup, Key, TextSet, TextSetV,
};
use crate::text::{
    char_is_alnum, char_upper, chars_of, is_alnum, join, join_strings, lines, lines_of, quote,
    quoted, upper, Text,
};

verus! {

/// The first `n` characters in words that begin with an upper-case letter, without
/// what stands between the words.
pub open spec fn pascal_upto(s: Text, n: int) -> Text
    decreases n,
{
    if n <= 0 {
        Seq::empty()
    } else if !is_alnum(s[n - 1]) {
        pascal_upto(s, n - 1)
    } else if n == 1 || !is_alnum(s[n - 2]) {
        pascal_upto(s, n - 1).push(upper(s[n - 1]))
    } else {
        pascal_upto(s, n - 1).push(s[n - 1])
    }
}

/// A format name as the name of an enum variant: `ubl-invoice` is `UblInvoice`.
pub fn pascal_of(doc_format: &str) -> (out: String)
    ensures
        out@ == pascal_upto(doc_format@, doc_format@.len() as int),
{
    let chars = chars_of(doc_format);
    let mut out = String::new();
    let mut at_word_start = true;
    let mut i: usize = 0;
    assert(out@ =~= Seq::<char>::empty());
    while i < chars.len()
        invariant
            i <= chars.len(),
            chars@ == doc_format@,
            at_word_start == (i == 0 || !is_alnum(chars@[i - 1])),
            out@ == pascal_upto(doc_format@, i as int),
        decreases chars.len() - i,
    {
        let c = chars[i];
        if char_is_alnum(c) {
            if at_word_start {
                out.push(char_upper(c));
            } else {
                out.push(c);
            }
            at_word_start = false;
        } else {
            at_word_start = true;
        }
        i += 1;
    }
    out
}

/// One spoke of the registry.
#[derive(Debug, PartialEq, Eq)]
pub struct SpokeEntry {
    /// The name of its module.
    pub slug: String,
    /// Its enum variant.
    pub variant: String,
    /// What the engine knows of it.
    pub spoke: Spoke,
}

/// The model of a [`SpokeEntry`].
#[verifier::ext_equal]
pub struct EntryV {
    pub slug: Text,
    pub variant: Text,
    pub spoke: SpokeV,
}

impl View for SpokeEntry {
    type V = EntryV;

    open spec fn view(&self) -> EntryV {
        EntryV { slug: self.slug@, variant: self.variant@, spoke: self.spoke@ }
    }
}

impl DeepView for SpokeEntry {
    type V = EntryV;

    open spec fn deep_view(&self) -> EntryV {
        self@
    }
}

/// Whether every compiled spoke has its source model.
pub open spec fn paired(out: CompileV) -> bool {
    forall|i: int|
        0 <= i < out.irs.len() ==> lookup::<String, ModelV>(
            out.sources,
            (#[trigger] out.irs[i]).0,
        ) is Some
}

/// The source model of a compiled spoke.
pub open spec fn source_at(out: CompileV, i: int) -> ModelV {
    lookup::<String, ModelV>(out.sources, out.irs[i].0)->0
}

/// The registry entry of a compiled spoke.
pub open spec fn entry_at(out: CompileV, i: int) -> EntryV {
    let (slug, ir) = out.irs[i];
    EntryV {
        slug,
        variant: pascal_upto(ir.meta.doc_format, ir.meta.doc_format.len() as int),
        spoke: spoke_of(ir, source_at(out, i)),
    }
}

/// The registry entries of a compilation.
pub open spec fn entries_of(out: CompileV) -> Seq<EntryV> {
    Seq::new(out.irs.len(), |i: int| entry_at(out, i))
}

/// The registry entries of a compilation, in the order of their slugs.
pub fn collect_spokes(out: &CompileOutput) -> (r: Vec<SpokeEntry>)
    requires
        paired(out@),
        forall|i: int| 0 <= i < out@.irs.len() ==> scopes_ascend((#[trigger] out@.irs[i]).1.nodes),
    ensures
        r.deep_view() == entries_of(out@),
{
    let ghost all = entries_of(out@);
    let mut r: Vec<SpokeEntry> = Vec::new();
    let mut i: usize = 0;
    while i < out.irs.len()
        invariant
            i <= out@.irs.len(),
            all == entries_of(out@),
            paired(out@),
            forall|i: int|
                0 <= i < out@.irs.len() ==> scopes_ascend((#[trigger] out@.irs[i]).1.nodes),
            r.deep_view() =~= all.take(i as int),
        decreases out@.irs.len() - i,
    {
        let slug = out.irs.key_at(i);
        let ir = out.irs.value_at(i);
        assert(out@.irs[i as int] == (slug@, ir@));
        if let Some(source) = out.sources.get(slug) {
            let ghost before = r.deep_view();
            let entry = SpokeEntry {
                slug: slug.clone(),
                variant: pascal_of(ir.meta.doc_format.as_str()),
                spoke: Spoke::of(ir, source),
            };
            assert(entry@ =~= entry_at(out@, i as int));
            r.push(entry);
            assert(r.deep_view() =~= before.push(all[i as int]));
        }
        i += 1;
    }
    assert(all.take(i as int) =~= all);
    r
}

/// The lines on the errors among the first `n` diagnostics.
pub open spec fn error_lines(diags: Seq<DiagnosticV>, n: int) -> Seq<Text>
    decreases n,
{
    if n <= 0 {
        Seq::empty()
    } else {
        let d = diags[n - 1];
        if d.severity == Severity::Error {
            error_lines(diags, n - 1).push(
                "["@ + severity_word(d.severity) + "] "@ + d.code + " ("@ + match d.source_node {
                    Some(node) => node,
                    None => "-"@,
                } + "): "@ + d.message,
            )
        } else {
            error_lines(diags, n - 1)
        }
    }
}

/// Success, or a text with every error.
pub open spec fn cleanness(diags: Seq<DiagnosticV>) -> Result<(), Text> {
    if any_error(diags) {
        Err(
            "mappings did not compile clean:\n"@ + join(
                error_lines(diags, diags.len() as int),
                "\n"@,
            ),
        )
    } else {
        Ok(())
    }
}

/// Succeeds on a compilation without errors; else says which there are.
pub fn assert_clean(out: &CompileOutput) -> (r: Result<(), String>)
    ensures
        match r {
            Ok(_) => cleanness(out@.diags) == Ok::<(), Text>(()),
            Err(m) => cleanness(out@.diags) == Err::<(), Text>(m@),
        },
{
    let ghost diags = out@.diags;
    let mut found: Vec<String> = Vec::new();
    let mut i: usize = 0;
    assert(found.deep_view() =~= Seq::<Text>::empty());
    while i < out.diagnostics.len()
        invariant
            i <= out.diagnostics.len(),
            diags == out.diagnostics.deep_view(),
            found.deep_view() == error_lines(diags, i as int),
        decreases out.diagnostics.len() - i,
    {
        let d = &out.diagnostics[i];
        assert(diags[i as int] == d@);
        if d.severity == Severity::Error {
            let mut line = "[".to_string();
            line.push_str(d.severity.as_str());
            line.push_str("] ");
            line.push_str(d.code.as_str());
            line.push_str(" (");
            match &d.source_node {
                Some(node) => line.push_str(node.as_str()),
                None => line.push_str("-"),
            }
            line.push_str("): ");
            line.push_str(d.message.as_str());
            let ghost before = found.deep_view();
            found.push(line);
            assert(found.deep_view() =~= before.push(line@));
        }
        i += 1;
    }
    if out.has_errors() {
        let mut message = "mappings did not compile clean:\n".to_string();
        message.push_str(join_strings(&found, "\n").as_str());
        Err(message)
    } else {
        Ok(())
    }
}

/// The literals of a list of texts.
pub open spec fn literals(list: Seq<Text>) -> Seq<Text> {
    Seq::new(list.len(), |i: int| quoted(list[i]))
}

/// The literals of a list of texts, separated by commas.
fn literal_list(list: &Vec<String>) -> (out: String)
    ensures
        out@ == join(literals(list.deep_view()), ", "@),
{
    let ghost all = literals(list.deep_view());
    let mut r: Vec<String> = Vec::new();
    let mut i: usize = 0;
    while i < list.len()
        invariant
            i <= list.len(),
            all == literals(list.deep_view()),
            r.deep_view() =~= all.take(i as int),
        decreases list.len() - i,
    {
        let ghost before = r.deep_view();
        r.push(quote(list[i].as_str()));
        assert(all[i as int] == quoted(list@[i as int]@));
        assert(r.deep_view() =~= before.push(all[i as int]));
        i += 1;
    }
    assert(all.take(i as int) =~= all);
    join_strings(&r, ", ")
}

/// The text `t` with the modules of the first `n` shared source models.
pub open spec fn shared_mods_text(t: Text, shared: Seq<Text>, n: int) -> Text
    decreases n,
{
    if n <= 0 {
        t
    } else {
        let t = shared_mods_text(t, shared, n - 1);
        let t = t + "mod "@ + shared[n - 1] + " {\n"@;
        let t = t + "    include!(concat!(env!(\"OUT_DIR\"), \"/"@ + shared[n - 1] + ".rs\"));\n"@;
        let t = t + "}\n\n"@;
        t
    }
}

/// Generates the modules of the shared source models.
fn shared_mods(out: &mut String, shared: &Vec<String>)
    ensures
        final(out)@ == shared_mods_text(old(out)@, shared.deep_view(), shared@.len() as int),
{
    let ghost t = out@;
    let mut i: usize = 0;
    while i < shared.len()
        invariant
            i <= shared.len(),
            out@ == shared_mods_text(t, shared.deep_view(), i as int),
        decreases shared.len() - i,
    {
        assert(shared.deep_view()[i as int] == shared@[i as int]@);
        out.push_str("mod ");
        out.push_str(shared[i].as_str());
        out.push_str(" {\n");
        out.push_str("    include!(concat!(env!(\"OUT_DIR\"), \"/");
        out.push_str(shared[i].as_str());
        out.push_str(".rs\"));\n");
        out.push_str("}\n\n");
        i += 1;
    }
}

/// The text `t` with the modules of the first `n` spokes.
pub open spec fn spoke_mods_text(
    t: Text,
    entries: Seq<EntryV>,
    modules: Seq<ModuleV>,
    n: int,
) -> Text
    decreases n,
{
    if n <= 0 {
        t
    } else {
        let t = spoke_mods_text(t, entries, modules, n - 1);
        let t = t + "pub mod "@ + entries[n - 1].slug + " {\n"@;
        let t = match modules[n - 1] {
            ModuleV::Alias(canonical) => t + "    pub use super::"@ + canonical + "::*;\n"@,
            ModuleV::Emit(_) => t + "    include!(concat!(env!(\"OUT_DIR\"), \"/"@ + entries[n - 1].slug
                + ".rs\"));\n"@,
        };
        let t = t + "}\n\n"@;
        t
    }
}

/// Generates the modules of the spokes.
fn spoke_mods(out: &mut String, entries: &Vec<SpokeEntry>, modules: &Vec<SpokeModule>)
    requires
        modules@.len() == entries@.len(),
    ensures
        final(out)@ == spoke_mods_text(
            old(out)@,
            entries.deep_view(),
            modules.deep_view(),
            entries@.len() as int,
        ),
{
    let ghost t = out@;
    let mut i: usize = 0;
    while i < entries.len()
        invariant
            i <= entries.len(),
            modules@.len() == entries@.len(),
            out@ == spoke_mods_text(t, entries.deep_view(), modules.deep_view(), i as int),
        decreases entries.len() - i,
    {
        let entry = &entries[i];
        assert(entries.deep_view()[i as int] == entry@);
        assert(modules.deep_view()[i as int] == modules@[i as int].deep_view());
        out.push_str("pub mod ");
        out.push_str(entry.slug.as_str());
        out.push_str(" {\n");
        match &modules[i] {
            SpokeModule::Alias(canonical) => {
                out.push_str("    pub use super::");
                out.push_str(canonical.as_str());
                out.push_str("::*;\n");
            },
            SpokeModule::Emit(_) => {
                out.push_str("    include!(concat!(env!(\"OUT_DIR\"), \"/");
                out.push_str(entry.slug.as_str());
                out.push_str(".rs\"));\n");
            },
        }
        out.push_str("}\n\n");
        i += 1;
    }
}

/// The text `t` with the enum variants of the first `n` spokes.
pub open spec fn variants_text(t: Text, entries: Seq<EntryV>, n: int) -> Text
    decreases n,
{
    if n <= 0 {
        t
    } else {
        let t = variants_text(t, entries, n - 1);
        let t = t + "    /// `"@ + entries[n - 1].spoke.name + "`\n"@;
        let t = t + "    "@ + entries[n - 1].variant + ",\n"@;
        t
    }
}

/// Generates the enum variants of the spokes.
fn variants(out: &mut String, entries: &Vec<SpokeEntry>)
    ensures
        final(out)@ == variants_text(old(out)@, entries.deep_view(), entries@.len() as int),
{
    let ghost t = out@;
    let mut i: usize = 0;
    while i < entries.len()
        invariant
            i <= entries.len(),
            out@ == variants_text(t, entries.deep_view(), i as int),
        decreases entries.len() - i,
    {
        let entry = &entries[i];
        assert(entries.deep_view()[i as int] == entry@);
        out.push_str("    /// `");
        out.push_str(entry.spoke.name());
        out.push_str("`\n");
        out.push_str("    ");
        out.push_str(entry.variant.as_str());
        out.push_str(",\n");
        i += 1;
    }
}

/// The text `t` with the first `n` variants in a list.
pub open spec fn all_text(t: Text, entries: Seq<EntryV>, n: int) -> Text
    decreases n,
{
    if n <= 0 {
        t
    } else {
        let t = all_text(t, entries, n - 1);
        let t = t + "        Spoke::"@ + entries[n - 1].variant + ",\n"@;
        t
    }
}

/// Generates the variants in a list.
fn all_list(out: &mut String, entries: &Vec<SpokeEntry>)
    ensures
        final(out)@ == all_text(old(out)@, entries.deep_view(), entries@.len() as int),
{
    let ghost t = out@;
    let mut i: usize = 0;
    while i < entries.len()
        invariant
            i <= entries.len(),
            out@ == all_text(t, entries.deep_view(), i as int),
        decreases entries.len() - i,
    {
        let entry = &entries[i];
        assert(entries.deep_view()[i as int] == entry@);
        out.push_str("        Spoke::");
        out.push_str(entry.variant.as_str());
        out.push_str(",\n");
        i += 1;
    }
}

/// The text `t` with the match arms of the first `n` spokes to their values.
pub open spec fn value_arms(t: Text, entries: Seq<EntryV>, values: Seq<Text>, n: int) -> Text
    decreases n,
{
    if n <= 0 {
        t
    } else {
        let t = value_arms(t, entries, values, n - 1);
        let t = t + "            Spoke::"@ + entries[n - 1].variant + " => "@
            + quoted(values[n - 1]) + ",\n"@;
        t
    }
}

/// Generates the match arms of the spokes to their values.
fn push_value_arms(out: &mut String, entries: &Vec<SpokeEntry>, values: &Vec<String>)
    requires
        values@.len() == entries@.len(),
    ensures
        final(out)@ == value_arms(
            old(out)@,
            entries.deep_view(),
            values.deep_view(),
            entries@.len() as int,
        ),
{
    let ghost t = out@;
    let mut i: usize = 0;
    while i < entries.len()
        invariant
            i <= entries.len(),
            values@.len() == entries@.len(),
            out@ == value_arms(t, entries.deep_view(), values.deep_view(), i as int),
        decreases entries.len() - i,
    {
        let entry = &entries[i];
        assert(entries.deep_view()[i as int] == entry@);
        assert(values.deep_view()[i as int] == values@[i as int]@);
        out.push_str("            Spoke::");
        out.push_str(entry.variant.as_str());
        out.push_str(" => ");
        out.push_str(quote(values[i].as_str()).as_str());
        out.push_str(",\n");
        i += 1;
    }
}

/// The text `t` with the match arms of the first `n` spokes to their lists.
pub open spec fn list_arms(t: Text, entries: Seq<EntryV>, lists: Seq<Seq<Text>>, n: int) -> Text
    decreases n,
{
    if n <= 0 {
        t
    } else {
        let t = list_arms(t, entries, lists, n - 1);
        let t = t + "            Spoke::"@ + entries[n - 1].variant + " => &["@
            + join(literals(lists[n - 1]), ", "@) + "],\n"@;
        t
    }
}

/// Generates the match arms of the spokes to their lists.
fn push_list_arms(out: &mut String, entries: &Vec<SpokeEntry>, lists: &Vec<Vec<String>>)
    requires
        lists@.len() == entries@.len(),
    ensures
        final(out)@ == list_arms(
            old(out)@,
            entries.deep_view(),
            lists.deep_view(),
            entries@.len() as int,
        ),
{
    let ghost t = out@;
    let mut i: usize = 0;
    while i < entries.len()
        invariant
            i <= entries.len(),
            lists@.len() == entries@.len(),
            out@ == list_arms(t, entries.deep_view(), lists.deep_view(), i as int),
        decreases entries.len() - i,
    {
        let entry = &entries[i];
        assert(entries.deep_view()[i as int] == entry@);
        assert(lists.deep_view()[i as int] == lists@[i as int].deep_view());
        out.push_str("            Spoke::");
        out.push_str(entry.variant.as_str());
        out.push_str(" => &[");
        out.push_str(literal_list(&lists[i]).as_str());
        out.push_str("],\n");
        i += 1;
    }
}

/// The text `t` with the reading arms of the first `n` spokes.
pub open spec fn read_arms(t: Text, entries: Seq<EntryV>, n: int) -> Text
    decreases n,
{
    if n <= 0 {
        t
    } else {
        let t = read_arms(t, entries, n - 1);
        let t = t + "        Spoke::"@ + entries[n - 1].variant
            + " => {\n            let source = "@ + entries[n - 1].slug
            + "::from_xml(bytes)?;\n            Ok("@ + entries[n - 1].slug
            + "::read(source))\n        }\n"@;
        t
    }
}

/// Generates the reading arms of the spokes.
fn push_read_arms(out: &mut String, entries: &Vec<SpokeEntry>)
    ensures
        final(out)@ == read_arms(old(out)@, entries.deep_view(), entries@.len() as int),
{
    let ghost t = out@;
    let mut i: usize = 0;
    while i < entries.len()
        invariant
            i <= entries.len(),
            out@ == read_arms(t, entries.deep_view(), i as int),
        decreases entries.len() - i,
    {
        let entry = &entries[i];
        assert(entries.deep_view()[i as int] == entry@);
        out.push_str("        Spoke::");
        out.push_str(entry.variant.as_str());
        out.push_str(" => {\n            let source = ");
        out.push_str(entry.slug.as_str());
        out.push_str("::from_xml(bytes)?;\n            Ok(");
        out.push_str(entry.slug.as_str());
        out.push_str("::read(source))\n        }\n");
        i += 1;
    }
}

/// The text `t` with the writing arms of the first `n` spokes.
pub open spec fn write_arms(t: Text, entries: Seq<EntryV>, n: int) -> Text
    decreases n,
{
    if n <= 0 {
        t
    } else {
        let t = write_arms(t, entries, n - 1);
        let t = t + "        Spoke::"@ + entries[n - 1].variant
            + " => {\n            let written = "@ + entries[n - 1].slug
            + "::write(hub);\n            let xml = match written.value {\n                Some(source) => Some("@
            + entries[n - 1].slug
            + "::to_xml(&source)?),\n                None => None,\n            };\n            Ok(MappingResult::new(xml, written.diagnostics))\n        }\n"@;
        t
    }
}

/// Generates the writing arms of the spokes.
fn push_write_arms(out: &mut String, entries: &Vec<SpokeEntry>)
    ensures
        final(out)@ == write_arms(old(out)@, entries.deep_view(), entries@.len() as int),
{
    let ghost t = out@;
    let mut i: usize = 0;
    while i < entries.len()
        invariant
            i <= entries.len(),
            out@ == write_arms(t, entries.deep_view(), i as int),
        decreases entries.len() - i,
    {
        let entry = &entries[i];
        assert(entries.deep_view()[i as int] == entry@);
        out.push_str("        Spoke::");
        out.push_str(entry.variant.as_str());
        out.push_str(" => {\n            let written = ");
        out.push_str(entry.slug.as_str());
        out.push_str("::write(hub);\n            let xml = match written.value {\n                Some(source) => Some(");
        out.push_str(entry.slug.as_str());
        out.push_str("::to_xml(&source)?),\n                None => None,\n            };\n            Ok(MappingResult::new(xml, written.diagnostics))\n        }\n");
        i += 1;
    }
}

/// The text `t` with the first `n` lines of a doc comment.
pub open spec fn doc_lines(t: Text, all: Seq<Text>, n: int) -> Text
    decreases n,
{
    if n <= 0 {
        t
    } else {
        let t = doc_lines(t, all, n - 1);
        let t = t + "    /// "@ + all[n - 1] + "\n"@;
        t
    }
}

/// Generates the lines of a doc comment.
fn push_doc(out: &mut String, all: &Vec<String>)
    ensures
        final(out)@ == doc_lines(old(out)@, all.deep_view(), all@.len() as int),
{
    let ghost t = out@;
    let mut i: usize = 0;
    while i < all.len()
        invariant
            i <= all.len(),
            out@ == doc_lines(t, all.deep_view(), i as int),
        decreases all.len() - i,
    {
        assert(all.deep_view()[i as int] == all@[i as int]@);
        out.push_str("    /// ");
        out.push_str(all[i].as_str());
        out.push_str("\n");
        i += 1;
    }
}

/// The text `t` with an accessor that gives a text for each spoke.
pub open spec fn str_accessor(
    t: Text,
    entries: Seq<EntryV>,
    method: Text,
    doc: Text,
    values: Seq<Text>,
) -> Text
{
    let t = doc_lines(t, lines(doc), lines(doc).len() as int);
    let t = t + "    pub fn "@ + method + "(self) -> &'static str {\n"@;
    let t = t + "        match self {\n"@;
    let t = value_arms(t, entries, values, entries.len() as int);
    let t = t + "        }\n"@;
    let t = t + "    }\n\n"@;
    t
}

/// Generates an accessor that gives a text for each spoke.
fn emit_str_accessor(
    out: &mut String,
    entries: &Vec<SpokeEntry>,
    method: &str,
    doc: &str,
    values: &Vec<String>,
)
    requires
        values@.len() == entries@.len(),
    ensures
        final(out)@ == str_accessor(
            old(out)@,
            entries.deep_view(),
            method@,
            doc@,
            values.deep_view(),
        ),
{
    let doc_text = lines_of(doc);
    assert(doc_text@.len() == doc_text.deep_view().len());
    push_doc(out, &doc_text);
    out.push_str("    pub fn ");
    out.push_str(method);
    out.push_str("(self) -> &'static str {\n");
    out.push_str("        match self {\n");
    push_value_arms(out, entries, values);
    out.push_str("        }\n");
    out.push_str("    }\n\n");
}

/// The text `t` with an accessor that gives a list for each spoke.
pub open spec fn list_accessor(
    t: Text,
    entries: Seq<EntryV>,
    method: Text,
    lists: Seq<Seq<Text>>,
) -> Text
{
    let t = t + "    pub fn "@ + method + "(self) -> &'static [&'static str] {\n"@;
    let t = t + "        match self {\n"@;
    let t = list_arms(t, entries, lists, entries.len() as int);
    let t = t + "        }\n"@;
    let t = t + "    }\n"@;
    t
}

/// Generates an accessor that gives a list for each spoke.
fn emit_key_accessor(
    out: &mut String,
    entries: &Vec<SpokeEntry>,
    method: &str,
    lists: &Vec<Vec<String>>,
)
    requires
        lists@.len() == entries@.len(),
    ensures
        final(out)@ == list_accessor(old(out)@, entries.deep_view(), method@, lists.deep_view()),
{
    out.push_str("    pub fn ");
    out.push_str(method);
    out.push_str("(self) -> &'static [&'static str] {\n");
    out.push_str("        match self {\n");
    push_list_arms(out, entries, lists);
    out.push_str("        }\n");
    out.push_str("    }\n");
}

/// The names of the entries.
pub open spec fn entry_names(entries: Seq<EntryV>) -> Seq<Text> {
    Seq::new(entries.len(), |i: int| entries[i].spoke.name)
}

/// The names of the entries.
fn names_of_entries(entries: &Vec<SpokeEntry>) -> (r: Vec<String>)
    ensures
        r.deep_view() == entry_names(entries.deep_view()),
        r@.len() == entries@.len(),
{
    let ghost all = entry_names(entries.deep_view());
    let mut r: Vec<String> = Vec::new();
    let mut i: usize = 0;
    while i < entries.len()
        invariant
            i <= entries.len(),
            all == entry_names(entries.deep_view()),
            r.deep_view() =~= all.take(i as int),
            r@.len() == i,
        decreases entries.len() - i,
    {
        let ghost before = r.deep_view();
        r.push(entries[i].spoke.name.clone());
        assert(all[i as int] == entries@[i as int]@.spoke.name);
        assert(r.deep_view() =~= before.push(all[i as int]));
        i += 1;
    }
    assert(all.take(i as int) =~= all);
    r
}

/// The roots of the entries.
pub open spec fn entry_roots(entries: Seq<EntryV>) -> Seq<Text> {
    Seq::new(entries.len(), |i: int| entries[i].spoke.root)
}

/// The roots of the entries.
fn roots_of_entries(entries: &Vec<SpokeEntry>) -> (r: Vec<String>)
    ensures
        r.deep_view() == entry_roots(entries.deep_view()),
        r@.len() == entries@.len(),
{
    let ghost all = entry_roots(entries.deep_view());
    let mut r: Vec<String> = Vec::new();
    let mut i: usize = 0;
    while i < entries.len()
        invariant
            i <= entries.len(),
            all == entry_roots(entries.deep_view()),
            r.deep_view() =~= all.take(i as int),
            r@.len() == i,
        decreases entries.len() - i,
    {
        let ghost before = r.deep_view();
        r.push(entries[i].spoke.root.clone());
        assert(all[i as int] == entries@[i as int]@.spoke.root);
        assert(r.deep_view() =~= before.push(all[i as int]));
        i += 1;
    }
    assert(all.take(i as int) =~= all);
    r
}

/// The markers texts of the entries.
pub open spec fn entry_markers(entries: Seq<EntryV>) -> Seq<Seq<Text>> {
    Seq::new(entries.len(), |i: int| entries[i].spoke.markers)
}

/// The markers texts of the entries.
fn markers_of_entries(entries: &Vec<SpokeEntry>) -> (r: Vec<Vec<String>>)
    ensures
        r.deep_view() == entry_markers(entries.deep_view()),
        r@.len() == entries@.len(),
{
    let ghost all = entry_markers(entries.deep_view());
    let mut r: Vec<Vec<String>> = Vec::new();
    let mut i: usize = 0;
    while i < entries.len()
        invariant
            i <= entries.len(),
            all == entry_markers(entries.deep_view()),
            r.deep_view() =~= all.take(i as int),
            r@.len() == i,
        decreases entries.len() - i,
    {
        let ghost before = r.deep_view();
        let list = crate::dsl::meta::clone_strings(&entries[i].spoke.detect_markers);
        assert(list.deep_view() =~= entries@[i as int]@.spoke.markers);
        r.push(list);
        assert(all[i as int] == entries@[i as int]@.spoke.markers);
        assert(r.deep_view() =~= before.push(all[i as int]));
        i += 1;
    }
    assert(all.take(i as int) =~= all);
    r
}

/// The covered texts of the entries.
pub open spec fn entry_covered(entries: Seq<EntryV>) -> Seq<Seq<Text>> {
    Seq::new(entries.len(), |i: int| entries[i].spoke.covered)
}

/// The covered texts of the entries.
fn covered_of_entries(entries: &Vec<SpokeEntry>) -> (r: Vec<Vec<String>>)
    ensures
        r.deep_view() == entry_covered(entries.deep_view()),
        r@.len() == entries@.len(),
{
    let ghost all = entry_covered(entries.deep_view());
    let mut r: Vec<Vec<String>> = Vec::new();
    let mut i: usize = 0;
    while i < entries.len()
        invariant
            i <= entries.len(),
            all == entry_covered(entries.deep_view()),
            r.deep_view() =~= all.take(i as int),
            r@.len() == i,
        decreases entries.len() - i,
    {
        let ghost before = r.deep_view();
        let list = crate::dsl::meta::clone_strings(&entries[i].spoke.covered_keys);
        assert(list.deep_view() =~= entries@[i as int]@.spoke.covered);
        r.push(list);
        assert(all[i as int] == entries@[i as int]@.spoke.covered);
        assert(r.deep_view() =~= before.push(all[i as int]));
        i += 1;
    }
    assert(all.take(i as int) =~= all);
    r
}

/// The required texts of the entries.
pub open spec fn entry_required(entries: Seq<EntryV>) -> Seq<Seq<Text>> {
    Seq::new(entries.len(), |i: int| entries[i].spoke.required)
}

/// The required texts of the entries.
fn required_of_entries(entries: &Vec<SpokeEntry>) -> (r: Vec<Vec<String>>)
    ensures
        r.deep_view() == entry_required(entries.deep_view()),
        r@.len() == entries@.len(),
{
    let ghost all = entry_required(entries.deep_view());
    let mut r: Vec<Vec<String>> = Vec::new();
    let mut i: usize = 0;
    while i < entries.len()
        invariant
            i <= entries.len(),
            all == entry_required(entries.deep_view()),
            r.deep_view() =~= all.take(i as int),
            r@.len() == i,
        decreases entries.len() - i,
    {
        let ghost before = r.deep_view();
        let list = crate::dsl::meta::clone_strings(&entries[i].spoke.required_keys);
        assert(list.deep_view() =~= entries@[i as int]@.spoke.required);
        r.push(list);
        assert(all[i as int] == entries@[i as int]@.spoke.required);
        assert(r.deep_view() =~= before.push(all[i as int]));
        i += 1;
    }
    assert(all.take(i as int) =~= all);
    r
}

/// The text `t` with the head of the registry and its modules.
pub open spec fn registry_head(
    t: Text,
    entries: Seq<EntryV>,
    shared: Seq<Text>,
    modules: Seq<ModuleV>,
) -> Text
{
    let t = t + "// Generated spoke registry + dispatch. Do not edit by hand.\n"@;
    let t = t + "// One entry per `mappings/*.toml`; names derive from `[meta].doc_format`.\n\n"@;
    let t = t + "use einvoice_transformator::result::MappingResult;\n"@;
    let t = t + "use hub::MainKey;\n\n"@;
    let t = shared_mods_text(t, shared, shared.len() as int);
    let t = spoke_mods_text(t, entries, modules, entries.len() as int);
    t
}

/// Generates the head of the registry and its modules.
fn push_head(
    out: &mut String,
    entries: &Vec<SpokeEntry>,
    shared: &Vec<String>,
    modules: &Vec<SpokeModule>,
)
    requires
        modules@.len() == entries@.len(),
    ensures
        final(out)@ == registry_head(
            old(out)@,
            entries.deep_view(),
            shared.deep_view(),
            modules.deep_view(),
        ),
{
    out.push_str("// Generated spoke registry + dispatch. Do not edit by hand.\n");
    out.push_str("// One entry per `mappings/*.toml`; names derive from `[meta].doc_format`.\n\n");
    out.push_str("use einvoice_transformator::result::MappingResult;\n");
    out.push_str("use hub::MainKey;\n\n");
    shared_mods(out, shared);
    spoke_mods(out, entries, modules);
}

/// The text `t` with the enum over the spokes and the list of its variants.
pub open spec fn registry_enum(t: Text, entries: Seq<EntryV>) -> Text
{
    let t = t + "/// A source/target format handled by a generated mapper.\n"@;
    let t = t + "///\n"@;
    let t = t + "/// Variants are generated from each `mappings/*.toml`'s `[meta].doc_format`.\n"@;
    let t = t + "#[derive(Debug, Clone, Copy, PartialEq, Eq)]\n"@;
    let t = t + "pub enum Spoke {\n"@;
    let t = variants_text(t, entries, entries.len() as int);
    let t = t + "}\n\n"@;
    let t = t + "impl Spoke {\n"@;
    let t = t + "    /// Every spoke compiled into this build, in slug order.\n"@;
    let t = t + "    pub const ALL: &'static [Spoke] = &[\n"@;
    let t = all_text(t, entries, entries.len() as int);
    let t = t + "    ];\n\n"@;
    t
}

/// Generates the enum over the spokes and the list of its variants.
fn push_enum(out: &mut String, entries: &Vec<SpokeEntry>)
    ensures
        final(out)@ == registry_enum(old(out)@, entries.deep_view()),
{
    out.push_str("/// A source/target format handled by a generated mapper.\n");
    out.push_str("///\n");
    out.push_str("/// Variants are generated from each `mappings/*.toml`'s `[meta].doc_format`.\n");
    out.push_str("#[derive(Debug, Clone, Copy, PartialEq, Eq)]\n");
    out.push_str("pub enum Spoke {\n");
    variants(out, entries);
    out.push_str("}\n\n");
    out.push_str("impl Spoke {\n");
    out.push_str("    /// Every spoke compiled into this build, in slug order.\n");
    out.push_str("    pub const ALL: &'static [Spoke] = &[\n");
    all_list(out, entries);
    out.push_str("    ];\n\n");
}

/// The text `t` with the accessors of the enum.
pub open spec fn registry_accessors(t: Text, entries: Seq<EntryV>) -> Text
{
    let t = str_accessor(
        t,
        entries,
        "name"@,
        "The spoke's display id (its source-model id from `[meta]`)."@,
        entry_names(entries),
    );
    let t = t
        + "    /// Case-insensitive discriminator substrings from `[meta].detect`.\n    ///\n    /// A document matching one of a spoke's markers is recognized as that\n    /// format in preference to a base format that declares none.\n"@;
    let t = list_accessor(t, entries, "detect_markers"@, entry_markers(entries));
    let t = t + "\n"@;
    let t = str_accessor(
        t,
        entries,
        "root"@,
        "The document's root XML element name, from `[meta].root`.\n\nThe primary discriminator for source auto-detection: a document is\nnarrowed to the spokes sharing its root before markers disambiguate."@,
        entry_roots(entries),
    );
    let t = t + "    /// Every canonical hub field this spoke maps, as scope-qualified labels.\n"@;
    let t = list_accessor(t, entries, "covered_keys"@, entry_covered(entries));
    let t = t + "    /// The canonical hub fields this spoke marks `required`, as labels.\n"@;
    let t = list_accessor(t, entries, "required_keys"@, entry_required(entries));
    let t = t + "}\n\n"@;
    t
}

/// Generates the accessors of the enum.
fn push_accessors(out: &mut String, entries: &Vec<SpokeEntry>)
    ensures
        final(out)@ == registry_accessors(old(out)@, entries.deep_view()),
{
    emit_str_accessor(
        out,
        entries,
        "name",
        "The spoke's display id (its source-model id from `[meta]`).",
        &names_of_entries(entries),
    );
    out.push_str("    /// Case-insensitive discriminator substrings from `[meta].detect`.\n    ///\n    /// A document matching one of a spoke's markers is recognized as that\n    /// format in preference to a base format that declares none.\n");
    emit_key_accessor(out, entries, "detect_markers", &markers_of_entries(entries));
    out.push_str("\n");
    emit_str_accessor(
        out,
        entries,
        "root",
        "The document's root XML element name, from `[meta].root`.\n\nThe primary discriminator for source auto-detection: a document is\nnarrowed to the spokes sharing its root before markers disambiguate.",
        &roots_of_entries(entries),
    );
    out.push_str("    /// Every canonical hub field this spoke maps, as scope-qualified labels.\n");
    emit_key_accessor(out, entries, "covered_keys", &covered_of_entries(entries));
    out.push_str("    /// The canonical hub fields this spoke marks `required`, as labels.\n");
    emit_key_accessor(out, entries, "required_keys", &required_of_entries(entries));
    out.push_str("}\n\n");
}

/// The text `t` with the dispatch to the mappers.
pub open spec fn registry_dispatch(t: Text, entries: Seq<EntryV>) -> Text
{
    let t = t + "/// Deserializes `bytes` for `spoke` and runs its generated reader.\n"@;
    let t = t
        + "pub fn read(spoke: Spoke, bytes: &[u8]) -> Result<MappingResult<MainKey>, quick_xml::DeError> {\n"@;
    let t = t + "    match spoke {\n"@;
    let t = read_arms(t, entries, entries.len() as int);
    let t = t + "    }\n"@;
    let t = t + "}\n\n"@;
    let t = t + "/// Runs `spoke`'s generated writer over `hub` and serializes to XML.\n"@;
    let t = t
        + "pub fn write(spoke: Spoke, hub: MainKey) -> Result<MappingResult<String>, quick_xml::SeError> {\n"@;
    let t = t + "    match spoke {\n"@;
    let t = write_arms(t, entries, entries.len() as int);
    let t = t + "    }\n"@;
    let t = t + "}\n"@;
    t
}

/// Generates the dispatch to the mappers.
fn push_dispatch(out: &mut String, entries: &Vec<SpokeEntry>)
    ensures
        final(out)@ == registry_dispatch(old(out)@, entries.deep_view()),
{
    out.push_str("/// Deserializes `bytes` for `spoke` and runs its generated reader.\n");
    out.push_str("pub fn read(spoke: Spoke, bytes: &[u8]) -> Result<MappingResult<MainKey>, quick_xml::DeError> {\n");
    out.push_str("    match spoke {\n");
    push_read_arms(out, entries);
    out.push_str("    }\n");
    out.push_str("}\n\n");
    out.push_str("/// Runs `spoke`'s generated writer over `hub` and serializes to XML.\n");
    out.push_str("pub fn write(spoke: Spoke, hub: MainKey) -> Result<MappingResult<String>, quick_xml::SeError> {\n");
    out.push_str("    match spoke {\n");
    push_write_arms(out, entries);
    out.push_str("    }\n");
    out.push_str("}\n");
}

/// The registry module.
pub open spec fn dispatch_text(
    entries: Seq<EntryV>,
    shared: Seq<Text>,
    modules: Seq<ModuleV>,
) -> Text {
    let t = registry_head(Seq::empty(), entries, shared, modules);
    let t = registry_enum(t, entries);
    let t = registry_accessors(t, entries);
    registry_dispatch(t, entries)
}

/// Generates the registry module: the modules of the shared source models and of the
/// spokes, the enum over the spokes, its accessors, and the dispatch to the mappers.
pub fn generate_dispatch(
    entries: &Vec<SpokeEntry>,
    shared: &Vec<String>,
    modules: &Vec<SpokeModule>,
) -> (out: String)
    requires
        modules@.len() == entries@.len(),
    ensures
        out@ == dispatch_text(entries.deep_view(), shared.deep_view(), modules.deep_view()),
{
    let mut out = String::new();
    assert(out@ =~= Seq::<char>::empty());
    push_head(&mut out, entries, shared, modules);
    push_enum(&mut out, entries);
    push_accessors(&mut out, entries);
    push_dispatch(&mut out, entries);
    out
}

// ---------------------------------------------------------------------------
// What compiles without errors can be generated
// ---------------------------------------------------------------------------

/// Whatever compiles without errors can be generated, and each of its spokes has a
/// source model.
pub proof fn law_clean_compile_can_be_generated(
    spokes: Seq<(Text, Seq<ParsedV>)>,
    adapters: TextSetV,
)
    requires
        forall|i: int| 0 <= i < spokes.len() ==> (#[trigger] spokes[i]).1.len() > 0,
    ensures
        paired(compiled(spokes, adapters)),
        !any_error(compiled(spokes, adapters).diags) ==> forall|j: int|
            0 <= j < compiled(spokes, adapters).irs.len() ==> generable(
                (#[trigger] compiled(spokes, adapters).irs[j]).1.nodes,
            ),
{
    let n = spokes.len() as int;
    let out = compiled(spokes, adapters);
    lemma_ir_keys(spokes, n);
    lemma_source_keys(spokes, n);
    lemma_spokes_built(spokes, n);
    assert forall|i: int| 0 <= i < out.irs.len() implies lookup::<String, ModelV>(
        out.sources,
        (#[trigger] out.irs[i]).0,
    ) is Some by {
        assert(named(spokes, n, out.irs[i].0));
    }
    if !any_error(out.diags) {
        assert forall|j: int| 0 <= j < out.irs.len() implies generable(
            (#[trigger] out.irs[j]).1.nodes,
        ) by {
            let ir = out.irs[j].1;
            assert(named(spokes, n, out.irs[j].0));
            let k = choose|k: int| 0 <= k < n && (#[trigger] spokes[k]).0 == out.irs[j].0;
            lemma_lookup_at::<String, IrV>(out.irs, j);
            let model = lookup::<String, ModelV>(out.sources, spokes[k].0)->0;
            law_clean_compile_finds_nothing(spokes, adapters, k);
            law_clean_mapping_is_sound(ir, model, adapters);
            assert forall|i: int|
                0 <= i < ir.nodes.len() && plays((#[trigger] ir.nodes[i]).1, Role::Scalar) implies joins(
                ir.nodes[i].1,
            ) by {
                assert(node_sound(ir.nodes[i].1, ir, model, adapters));
            }
        }
    }
}

// ---------------------------------------------------------------------------
// The generated files
// ---------------------------------------------------------------------------

/// The spokes of a compilation, as the generator takes them.
pub open spec fn generator_spokes(out: CompileV) -> SpokesV {
    Seq::new(out.irs.len(), |i: int| (out.irs[i].0, out.irs[i].1, source_at(out, i)))
}

/// What stands for each spoke.
pub open spec fn generator_modules(out: CompileV) -> Seq<ModuleV> {
    Seq::new(
        out.irs.len(),
        |i: int| module_of(generator_spokes(out), "super::hub"@, i),
    )
}

/// The shared source models: module name and module text.
pub open spec fn generator_shared(out: CompileV) -> Seq<(Text, Text)> {
    shared_sources_upto(generator_spokes(out), out.irs.len() as int)
}

/// The names of a list of modules.
pub open spec fn module_names(list: Seq<(Text, Text)>) -> Seq<Text> {
    Seq::new(list.len(), |i: int| list[i].0)
}

/// The files of the first `n` shared source models, behind those in `files`.
pub open spec fn shared_files(
    files: Seq<(Text, Text)>,
    shared: Seq<(Text, Text)>,
    n: int,
) -> Seq<(Text, Text)>
    decreases n,
{
    if n <= 0 {
        files
    } else {
        shared_files(files, shared, n - 1).push((shared[n - 1].0 + ".rs"@, shared[n - 1].1))
    }
}

/// The files of those of the first `n` spokes that have a module of their own,
/// behind those in `files`.
pub open spec fn module_files(
    files: Seq<(Text, Text)>,
    entries: Seq<EntryV>,
    modules: Seq<ModuleV>,
    n: int,
) -> Seq<(Text, Text)>
    decreases n,
{
    if n <= 0 {
        files
    } else {
        let files = module_files(files, entries, modules, n - 1);
        match modules[n - 1] {
            ModuleV::Emit(text) => files.push((entries[n - 1].slug + ".rs"@, text)),
            ModuleV::Alias(_) => files,
        }
    }
}

/// The generated files of a compilation without errors: the hub, the shared source
/// models, the modules of the spokes, and the registry.
pub open spec fn files_of(out: CompileV) -> Seq<(Text, Text)> {
    let entries = entries_of(out);
    let modules = generator_modules(out);
    let shared = generator_shared(out);
    let files = seq![("hub.rs"@, hub_text(out.hub))];
    let files = shared_files(files, shared, shared.len() as int);
    let files = module_files(files, entries, modules, entries.len() as int);
    files.push(("spokes.rs"@, dispatch_text(entries, module_names(shared), modules)))
}

/// Appends a file.
fn push_file(files: &mut Vec<(String, String)>, name: String, text: String)
    ensures
        named_view(final(files)@) == named_view(old(files)@).push((name@, text@)),
{
    let ghost before = files@;
    let file = (name, text);
    files.push(file);
    assert(named_view(files@) =~= named_view(before).push((name@, text@)));
}

/// The file name of a module.
fn file_name(module: &str) -> (out: String)
    ensures
        out@ == module@ + ".rs"@,
{
    let mut out = module.to_string();
    out.push_str(".rs");
    out
}

/// The generated files of a compilation without errors.
pub fn generate_files(out: &CompileOutput) -> (r: Vec<(String, String)>)
    requires
        paired(out@),
        forall|i: int| 0 <= i < out@.irs.len() ==> generable((#[trigger] out@.irs[i]).1.nodes),
    ensures
        named_view(r@) == files_of(out@),
{
    let ghost view = out@;
    let ghost all = generator_spokes(view);
    let entries = collect_spokes(out);
    let mut spokes: Vec<(&str, &MappingIr, &SourceModelMeta)> = Vec::new();
    let mut i: usize = 0;
    while i < out.irs.len()
        invariant
            i <= out@.irs.len(),
            view == out@,
            all == generator_spokes(view),
            paired(view),
            forall|i: int| 0 <= i < view.irs.len() ==> generable((#[trigger] view.irs[i]).1.nodes),
            spokes@.len() == i,
            spokes_view(spokes@) =~= all.take(i as int),
            forall|k: int| 0 <= k < spokes@.len() ==> generable((#[trigger] spokes@[k]).1@.nodes),
        decreases out@.irs.len() - i,
    {
        let slug = out.irs.key_at(i);
        let ir = out.irs.value_at(i);
        assert(view.irs[i as int] == (slug@, ir@));
        assert(lookup::<String, ModelV>(view.sources, view.irs[i as int].0) is Some);
        if let Some(source) = out.sources.get(slug) {
            let ghost before = spokes@;
            spokes.push((slug.as_str(), ir, source));
            proof {
                assert(spokes_view(spokes@) =~= spokes_view(before).push(all[i as int]));
                assert forall|k: int| 0 <= k < spokes@.len() implies generable(
                    (#[trigger] spokes@[k]).1@.nodes,
                ) by {
                    if k < i {
                        assert(spokes@[k] == before[k]);
                    }
                }
            }
        }
        i += 1;
    }
    assert(spokes_view(spokes@) =~= all);
    let plan = plan_spoke_dedup(spokes.as_slice(), "super::hub");
    let ghost shared = generator_shared(view);
    let ghost modules = generator_modules(view);
    assert(plan.modules.deep_view() =~= modules) by {
        assert forall|k: int| 0 <= k < modules.len() implies plan.modules.deep_view()[k]
            == modules[k] by {
            assert(plan.modules@[k].deep_view() == module_of(all, "super::hub"@, k));
        }
    }
    let sources = shared_sources(spokes.as_slice());
    assert(named_view(sources@) == shared);
    assert(entries@.len() == entries.deep_view().len());
    assert(plan.modules@.len() == entries@.len());
    let mut files: Vec<(String, String)> = Vec::new();
    assert(named_view(files@) =~= Seq::<(Text, Text)>::empty());
    push_file(&mut files, "hub.rs".to_string(), generate_hub(&out.hub));
    let ghost first = seq![("hub.rs"@, hub_text(view.hub))];
    assert(named_view(files@) =~= first);
    let mut names: Vec<String> = Vec::new();
    let mut i: usize = 0;
    while i < sources.len()
        invariant
            i <= sources@.len(),
            named_view(sources@) == shared,
            named_view(files@) == shared_files(first, shared, i as int),
            names.deep_view() =~= module_names(shared).take(i as int),
        decreases sources@.len() - i,
    {
        let ghost before = names.deep_view();
        let (name, text) = (&sources[i].0, &sources[i].1);
        assert(shared[i as int] == (name@, text@));
        push_file(&mut files, file_name(name.as_str()), text.clone());
        names.push(name.clone());
        assert(names.deep_view() =~= before.push(module_names(shared)[i as int]));
        i += 1;
    }
    assert(shared.len() == sources@.len());
    assert(names.deep_view() =~= module_names(shared));
    let ghost second = named_view(files@);
    let ghost ents = entries.deep_view();
    let mut i: usize = 0;
    while i < entries.len()
        invariant
            i <= entries@.len(),
            plan.modules@.len() == entries@.len(),
            plan.modules.deep_view() == modules,
            ents == entries.deep_view(),
            named_view(files@) == module_files(second, ents, modules, i as int),
        decreases entries@.len() - i,
    {
        assert(modules[i as int] == plan.modules@[i as int].deep_view());
        assert(ents[i as int] == entries@[i as int]@);
        match &plan.modules[i] {
            SpokeModule::Emit(text) => {
                push_file(&mut files, file_name(entries[i].slug.as_str()), text.clone());
            },
            SpokeModule::Alias(_) => {},
        }
        i += 1;
    }
    let registry = generate_dispatch(&entries, &names, &plan.modules);
    push_file(&mut files, "spokes.rs".to_string(), registry);
    files
}

/// The generated files of a set of spokes, or the errors of its compilation.
pub open spec fn built(spokes: Seq<(Text, Seq<ParsedV>)>, adapters: TextSetV) -> Result<
    Seq<(Text, Text)>,
    Text,
> {
    let out = compiled(spokes, adapters);
    match cleanness(out.diags) {
        Ok(_) => Ok(files_of(out)),
        Err(m) => Err(m),
    }
}

/// Compiles a set of spokes and generates its files; where anything is an error,
/// nothing is generated.
pub fn build(spokes: &[SpokeInput], adapters: &TextSet) -> (r: Result<
    Vec<(String, String)>,
    String,
>)
    requires
        forall|i: int| 0 <= i < spokes@.len() ==> (#[trigger] spokes@[i]).chain@.len() > 0,
    ensures
        match r {
            Ok(files) => built(spokes.deep_view(), adapters@) == Ok::<Seq<(Text, Text)>, Text>(
                named_view(files@),
            ),
            Err(m) => built(spokes.deep_view(), adapters@) == Err::<Seq<(Text, Text)>, Text>(m@),
        },
{
    let out = compile(spokes, adapters);
    if let Err(m) = assert_clean(&out) {
        return Err(m);
    }
    proof {
        let views = spokes.deep_view();
        assert forall|i: int| 0 <= i < views.len() implies (#[trigger] views[i]).1.len() > 0 by {
            assert(spokes@[i].chain@.len() > 0);
        }
        law_clean_compile_can_be_generated(views, adapters@);
    }
    Ok(generate_files(&out))
}

// ---------------------------------------------------------------------------
// The spokes of a load
// ---------------------------------------------------------------------------

/// What the engine knows of the spokes that a set of spokes compiles to.
pub open spec fn registered(spokes: Seq<(Text, Seq<ParsedV>)>, adapters: TextSetV) -> Seq<SpokeV> {
    entries_of(compiled(spokes, adapters)).map_values(|e: EntryV| e.spoke)
}

/// Spokes that stand in the order of their slugs are compiled one for one.
proof fn lemma_irs_in_order(spokes: Seq<(Text, Seq<ParsedV>)>, n: int)
    requires
        ascending::<String, Seq<ParsedV>>(spokes),
        0 <= n <= spokes.len(),
    ensures
        irs_upto(spokes, n).len() == n,
        forall|i: int|
            0 <= i < n ==> #[trigger] irs_upto(spokes, n)[i] == (spokes[i].0, ir_of(spokes[i].1)),
    decreases n,
{
    if n > 0 {
        lemma_irs_in_order(spokes, n - 1);
        let before = irs_upto(spokes, n - 1);
        let (id, chain) = spokes[n - 1];
        assert forall|i: int| 0 <= i < before.len() implies <String as Key>::before(
            (#[trigger] before[i]).0,
            id,
        ) by {
            assert(<String as Key>::before(spokes[i].0, spokes[n - 1].0));
        }
        lemma_put_push::<String, IrV>(before, id, ir_of(chain));
    }
}

/// The spokes that a load registers have different names.
pub proof fn law_loaded_names_differ(
    dir: Text,
    files: Seq<SourceFile>,
    adapters: TextSetV,
    a: int,
    b: int,
)
    requires
        loaded(dir, files) is Ok,
        0 <= a < b < registered(loaded(dir, files)->Ok_0.spokes, adapters).len(),
    ensures
        registered(loaded(dir, files)->Ok_0.spokes, adapters)[a].name != registered(
            loaded(dir, files)->Ok_0.spokes,
            adapters,
        )[b].name,
{
    let spokes = loaded(dir, files)->Ok_0.spokes;
    law_loaded_chains_are_not_empty(dir, files);
    lemma_irs_in_order(spokes, spokes.len() as int);
    law_loaded_ids_differ(dir, files, a, b);
    let irs = compiled(spokes, adapters).irs;
    assert(irs[a] == (spokes[a].0, ir_of(spokes[a].1)));
    assert(irs[b] == (spokes[b].0, ir_of(spokes[b].1)));
}

/// A key that a spoke of a load does not map is defined by another one, and not by
/// itself.
pub proof fn law_loaded_unused_is_defined_elsewhere(
    dir: Text,
    files: Seq<SourceFile>,
    adapters: TextSetV,
    k: int,
    i: int,
)
    requires
        loaded(dir, files) is Ok,
        0 <= k < registered(loaded(dir, files)->Ok_0.spokes, adapters).len(),
        ({
            let spokes = registered(loaded(dir, files)->Ok_0.spokes, adapters);
            0 <= i < view_of(spokes, spokes[k]).unused.len()
        }),
    ensures
        ({
            let spokes = registered(loaded(dir, files)->Ok_0.spokes, adapters);
            let unused = view_of(spokes, spokes[k]).unused[i];
            unused.1.len() > 0 && !unused.1.contains(spokes[k].name)
        }),
{
    let spokes = registered(loaded(dir, files)->Ok_0.spokes, adapters);
    assert forall|a: int, b: int| 0 <= a < b < spokes.len() implies (#[trigger] spokes[a]).name != (
    #[trigger] spokes[b]).name by {
        law_loaded_names_differ(dir, files, adapters, a, b);
    }
    law_unused_is_defined_elsewhere(spokes, k, i);
}

/// The build fails exactly where the developer check does: what `check` accepts is
/// built, and what it refuses is not.
pub proof fn law_build_agrees_with_check(spokes: Seq<(Text, Seq<ParsedV>)>)
    ensures
        built(spokes, adapter_names()) is Ok <==> directory_output(
            Ok::<Seq<(Text, Seq<ParsedV>)>, Text>(spokes),
            true,
        ).exit_code == 0,
{
}

} // verus!
