//! What the registry holds of every spoke.
use vstd::prelude::*;

use crate::dsl::codegen::spoke::ModuleV;
use crate::dsl::compile::any_error;
use crate::dsl::error::{DiagnosticV, Severity};
use crate::engine::keys::{
    covered_lines, info_cells, info_rows, spoke_keys_text, starred, unused_lines, KeyInfoV,
    SpokeKeysV,
};
use crate::engine::registry::{
    cleanness, dispatch_text, doc_lines, entry_covered, entry_markers, entry_names, entry_required,
    entry_roots, error_lines, list_accessor, list_arms, literals, module_files, read_arms,
    registry_accessors, registry_enum, registry_head, shared_files, spoke_mods_text, str_accessor,
    value_arms, write_arms, EntryV,
};
use crate::text::{decimal, has, join, lemma_has_inside, lemma_has_self, lines, quoted, Text};

verus! {

/// Whether a text goes on with whatever another text holds.
spec fn goes_on(a: Text, b: Text) -> bool {
    exists|rest: Text| #[trigger] (a + rest) == b
}

proof fn lemma_on(a: Text, rest: Text)
    ensures
        goes_on(a, a + rest),
{
}

proof fn lemma_on_same(a: Text)
    ensures
        goes_on(a, a),
{
    assert(a + Seq::<char>::empty() =~= a);
}

proof fn lemma_on_on(a: Text, b: Text, c: Text)
    requires
        goes_on(a, b),
        goes_on(b, c),
    ensures
        goes_on(a, c),
{
    let x = choose|x: Text| #[trigger] (a + x) == b;
    let y = choose|y: Text| #[trigger] (b + y) == c;
    assert(a + (x + y) =~= c);
}

proof fn lemma_still_has(a: Text, b: Text, p: Text)
    requires
        has(a, p),
        goes_on(a, b),
    ensures
        has(b, p),
{
    let x = choose|x: Text| #[trigger] (a + x) == b;
    lemma_has_inside(Seq::empty(), a, x, p);
    assert(Seq::<char>::empty() + a + x =~= b);
}

proof fn lemma_ends_with(t: Text, p: Text)
    ensures
        has(t + p, p),
{
    lemma_has_self(p);
    lemma_has_inside(t, p, Seq::empty(), p);
    assert(t + p + Seq::<char>::empty() =~= t + p);
}

// ---------------------------------------------------------------------------
// Arms
// ---------------------------------------------------------------------------

/// The arm that reads a document with the module of its spoke.
pub open spec fn read_arm(e: EntryV) -> Text {
    "        Spoke::"@ + e.variant + " => {\n            let source = "@ + e.slug
        + "::from_xml(bytes)?;\n            Ok("@ + e.slug + "::read(source))\n        }\n"@
}

/// The arm that gives a text of a spoke.
pub open spec fn value_arm(e: EntryV, value: Text) -> Text {
    "            Spoke::"@ + e.variant + " => "@ + quoted(value) + ",\n"@
}

/// The arm that gives a list of texts of a spoke.
pub open spec fn list_arm(e: EntryV, list: Seq<Text>) -> Text {
    "            Spoke::"@ + e.variant + " => &["@ + join(literals(list), ", "@) + "],\n"@
}

proof fn lemma_read_arms(t: Text, entries: Seq<EntryV>, n: int, i: int)
    requires
        0 <= i < n <= entries.len(),
    ensures
        has(read_arms(t, entries, n), read_arm(entries[i])),
    decreases n,
{
    let before = read_arms(t, entries, n - 1);
    let arm = read_arm(entries[n - 1]);
    assert(read_arms(t, entries, n) =~= before + arm);
    if i < n - 1 {
        lemma_read_arms(t, entries, n - 1, i);
        lemma_on(before, arm);
        lemma_still_has(before, before + arm, read_arm(entries[i]));
    } else {
        lemma_ends_with(before, arm);
    }
}

proof fn lemma_write_arms(t: Text, entries: Seq<EntryV>, n: int, i: int)
    requires
        0 <= i < n <= entries.len(),
    ensures
        has(
            write_arms(t, entries, n),
            "        Spoke::"@ + entries[i].variant + " => {\n            let written = "@
                + entries[i].slug + "::write(hub);\n"@,
        ),
        has(
            write_arms(t, entries, n),
            "Some("@ + entries[i].slug + "::to_xml(&source)?),\n"@,
        ),
    decreases n,
{
    let before = write_arms(t, entries, n - 1);
    let all = write_arms(t, entries, n);
    let e = entries[n - 1];
    let first = "        Spoke::"@ + e.variant + " => {\n            let written = "@ + e.slug
        + "::write(hub);\n"@;
    let middle = "            let xml = match written.value {\n                "@;
    let second = "Some("@ + e.slug + "::to_xml(&source)?),\n"@;
    let end =
        "                None => None,\n            };\n            Ok(MappingResult::new(xml, written.diagnostics))\n        }\n"@;
    reveal_strlit("::write(hub);\n            let xml = match written.value {\n                Some(source) => Some(");
    reveal_strlit("::write(hub);\n");
    reveal_strlit("            let xml = match written.value {\n                ");
    reveal_strlit("Some(source) => ");
    reveal_strlit("Some(");
    reveal_strlit("::to_xml(&source)?),\n                None => None,\n            };\n            Ok(MappingResult::new(xml, written.diagnostics))\n        }\n");
    reveal_strlit("::to_xml(&source)?),\n");
    reveal_strlit("                None => None,\n            };\n            Ok(MappingResult::new(xml, written.diagnostics))\n        }\n");
    assert("::write(hub);\n            let xml = match written.value {\n                Some(source) => Some("@
        =~= "::write(hub);\n"@ + "            let xml = match written.value {\n                "@
        + "Some(source) => "@ + "Some("@);
    assert("::to_xml(&source)?),\n                None => None,\n            };\n            Ok(MappingResult::new(xml, written.diagnostics))\n        }\n"@
        =~= "::to_xml(&source)?),\n"@ + end);
    assert(all =~= (before + first) + (middle + "Some(source) => "@) + second + end);
    if i < n - 1 {
        lemma_write_arms(t, entries, n - 1, i);
        lemma_on(before, first + (middle + "Some(source) => "@) + second + end);
        assert(before + (first + (middle + "Some(source) => "@) + second + end) =~= all);
        lemma_still_has(
            before,
            all,
            "        Spoke::"@ + entries[i].variant + " => {\n            let written = "@
                + entries[i].slug + "::write(hub);\n"@,
        );
        lemma_still_has(before, all, "Some("@ + entries[i].slug + "::to_xml(&source)?),\n"@);
    } else {
        lemma_has_self(first);
        lemma_has_inside(before, first, (middle + "Some(source) => "@) + second + end, first);
        assert(before + first + ((middle + "Some(source) => "@) + second + end) =~= all);
        lemma_has_self(second);
        lemma_has_inside(before + first + (middle + "Some(source) => "@), second, end, second);
        assert(before + first + (middle + "Some(source) => "@) + second + end =~= all);
    }
}

proof fn lemma_value_arms(t: Text, entries: Seq<EntryV>, values: Seq<Text>, n: int, i: int)
    requires
        0 <= i < n <= entries.len(),
    ensures
        has(value_arms(t, entries, values, n), value_arm(entries[i], values[i])),
    decreases n,
{
    let before = value_arms(t, entries, values, n - 1);
    let arm = value_arm(entries[n - 1], values[n - 1]);
    assert(value_arms(t, entries, values, n) =~= before + arm);
    if i < n - 1 {
        lemma_value_arms(t, entries, values, n - 1, i);
        lemma_on(before, arm);
        lemma_still_has(before, before + arm, value_arm(entries[i], values[i]));
    } else {
        lemma_ends_with(before, arm);
    }
}

proof fn lemma_list_arms(t: Text, entries: Seq<EntryV>, lists: Seq<Seq<Text>>, n: int, i: int)
    requires
        0 <= i < n <= entries.len(),
    ensures
        has(list_arms(t, entries, lists, n), list_arm(entries[i], lists[i])),
    decreases n,
{
    let before = list_arms(t, entries, lists, n - 1);
    let arm = list_arm(entries[n - 1], lists[n - 1]);
    assert(list_arms(t, entries, lists, n) =~= before + arm);
    if i < n - 1 {
        lemma_list_arms(t, entries, lists, n - 1, i);
        lemma_on(before, arm);
        lemma_still_has(before, before + arm, list_arm(entries[i], lists[i]));
    } else {
        lemma_ends_with(before, arm);
    }
}

/// An accessor of the registry gives each spoke its own value.
pub proof fn law_accessors_give_each_spoke_its_own(
    t: Text,
    entries: Seq<EntryV>,
    method: Text,
    doc: Text,
    i: int,
)
    requires
        0 <= i < entries.len(),
    ensures
        has(
            str_accessor(t, entries, method, doc, entry_names(entries)),
            value_arm(entries[i], entries[i].spoke.name),
        ),
        has(
            str_accessor(t, entries, method, doc, entry_roots(entries)),
            value_arm(entries[i], entries[i].spoke.root),
        ),
        has(
            list_accessor(t, entries, method, entry_markers(entries)),
            list_arm(entries[i], entries[i].spoke.markers),
        ),
        has(
            list_accessor(t, entries, method, entry_covered(entries)),
            list_arm(entries[i], entries[i].spoke.covered),
        ),
        has(
            list_accessor(t, entries, method, entry_required(entries)),
            list_arm(entries[i], entries[i].spoke.required),
        ),
{
    lemma_str_accessor(t, entries, method, doc, entry_names(entries), i);
    lemma_str_accessor(t, entries, method, doc, entry_roots(entries), i);
    lemma_list_accessor(t, entries, method, entry_markers(entries), i);
    lemma_list_accessor(t, entries, method, entry_covered(entries), i);
    lemma_list_accessor(t, entries, method, entry_required(entries), i);
}

proof fn lemma_str_accessor(
    t: Text,
    entries: Seq<EntryV>,
    method: Text,
    doc: Text,
    values: Seq<Text>,
    i: int,
)
    requires
        0 <= i < entries.len(),
    ensures
        has(str_accessor(t, entries, method, doc, values), value_arm(entries[i], values[i])),
{
    let head = doc_lines(t, lines(doc), lines(doc).len() as int) + "    pub fn "@ + method
        + "(self) -> &'static str {\n"@ + "        match self {\n"@;
    lemma_value_arms(head, entries, values, entries.len() as int, i);
    let arms = value_arms(head, entries, values, entries.len() as int);
    lemma_on(arms, "        }\n"@ + "    }\n\n"@);
    assert(arms + ("        }\n"@ + "    }\n\n"@) =~= str_accessor(
        t,
        entries,
        method,
        doc,
        values,
    ));
    lemma_still_has(
        arms,
        str_accessor(t, entries, method, doc, values),
        value_arm(entries[i], values[i]),
    );
}

proof fn lemma_list_accessor(
    t: Text,
    entries: Seq<EntryV>,
    method: Text,
    lists: Seq<Seq<Text>>,
    i: int,
)
    requires
        0 <= i < entries.len(),
    ensures
        has(list_accessor(t, entries, method, lists), list_arm(entries[i], lists[i])),
{
    let head = t + "    pub fn "@ + method + "(self) -> &'static [&'static str] {\n"@
        + "        match self {\n"@;
    lemma_list_arms(head, entries, lists, entries.len() as int, i);
    let arms = list_arms(head, entries, lists, entries.len() as int);
    lemma_on(arms, "        }\n"@ + "    }\n"@);
    assert(arms + ("        }\n"@ + "    }\n"@) =~= list_accessor(t, entries, method, lists));
    lemma_still_has(
        arms,
        list_accessor(t, entries, method, lists),
        list_arm(entries[i], lists[i]),
    );
}

proof fn lemma_write_on(t: Text, entries: Seq<EntryV>, n: int)
    ensures
        goes_on(t, write_arms(t, entries, n)),
    decreases n,
{
    if n <= 0 {
        lemma_on_same(t);
    } else {
        lemma_write_on(t, entries, n - 1);
        let before = write_arms(t, entries, n - 1);
        let e = entries[n - 1];
        let rest = "        Spoke::"@ + e.variant + " => {\n            let written = "@ + e.slug
            + "::write(hub);\n            let xml = match written.value {\n                Some(source) => Some("@
            + e.slug
            + "::to_xml(&source)?),\n                None => None,\n            };\n            Ok(MappingResult::new(xml, written.diagnostics))\n        }\n"@;
        assert(before + rest =~= write_arms(t, entries, n));
        lemma_on(before, rest);
        lemma_on_on(t, before, write_arms(t, entries, n));
    }
}

/// The registry reads the documents of every spoke with the module of that spoke, and
/// writes them with it.
pub proof fn law_every_spoke_is_dispatched_to_its_module(
    entries: Seq<EntryV>,
    shared: Seq<Text>,
    modules: Seq<ModuleV>,
    i: int,
)
    requires
        0 <= i < entries.len(),
    ensures
        has(dispatch_text(entries, shared, modules), read_arm(entries[i])),
        has(
            dispatch_text(entries, shared, modules),
            "        Spoke::"@ + entries[i].variant + " => {\n            let written = "@
                + entries[i].slug + "::write(hub);\n"@,
        ),
        has(
            dispatch_text(entries, shared, modules),
            "Some("@ + entries[i].slug + "::to_xml(&source)?),\n"@,
        ),
{
    let n = entries.len() as int;
    let whole = dispatch_text(entries, shared, modules);
    let t = registry_head(Seq::empty(), entries, shared, modules);
    let t = registry_enum(t, entries);
    let t = registry_accessors(t, entries);
    let head = t + "/// Deserializes `bytes` for `spoke` and runs its generated reader.\n"@
        + "pub fn read(spoke: Spoke, bytes: &[u8]) -> Result<MappingResult<MainKey>, quick_xml::DeError> {\n"@
        + "    match spoke {\n"@;
    let reads = read_arms(head, entries, n);
    let between = "    }\n"@ + "}\n\n"@
        + "/// Runs `spoke`'s generated writer over `hub` and serializes to XML.\n"@
        + "pub fn write(spoke: Spoke, hub: MainKey) -> Result<MappingResult<String>, quick_xml::SeError> {\n"@
        + "    match spoke {\n"@;
    let middle = reads + "    }\n"@ + "}\n\n"@
        + "/// Runs `spoke`'s generated writer over `hub` and serializes to XML.\n"@
        + "pub fn write(spoke: Spoke, hub: MainKey) -> Result<MappingResult<String>, quick_xml::SeError> {\n"@
        + "    match spoke {\n"@;
    assert(middle =~= reads + between);
    let writes = write_arms(middle, entries, n);
    assert(whole =~= writes + ("    }\n"@ + "}\n"@));
    lemma_read_arms(head, entries, n, i);
    lemma_write_arms(middle, entries, n, i);
    lemma_on(reads, between);
    lemma_write_on(middle, entries, n);
    lemma_on(writes, "    }\n"@ + "}\n"@);
    lemma_on_on(reads, middle, writes);
    lemma_on_on(reads, writes, whole);
    lemma_still_has(reads, whole, read_arm(entries[i]));
    lemma_still_has(
        writes,
        whole,
        "        Spoke::"@ + entries[i].variant + " => {\n            let written = "@
            + entries[i].slug + "::write(hub);\n"@,
    );
    lemma_still_has(writes, whole, "Some("@ + entries[i].slug + "::to_xml(&source)?),\n"@);
}

/// Every spoke has a module, under its own name: its own code, or that of the spoke that
/// has the same.
pub proof fn law_every_spoke_has_a_module(
    t: Text,
    entries: Seq<EntryV>,
    modules: Seq<ModuleV>,
    n: int,
    i: int,
)
    requires
        0 <= i < n <= entries.len(),
        n <= modules.len(),
    ensures
        has(
            spoke_mods_text(t, entries, modules, n),
            "pub mod "@ + entries[i].slug + " {\n"@ + (match modules[i] {
                ModuleV::Alias(other) => "    pub use super::"@ + other + "::*;\n"@,
                ModuleV::Emit(_) => "    include!(concat!(env!(\"OUT_DIR\"), \"/"@ + entries[i].slug
                    + ".rs\"));\n"@,
            }) + "}\n\n"@,
        ),
    decreases n,
{
    let before = spoke_mods_text(t, entries, modules, n - 1);
    let all = spoke_mods_text(t, entries, modules, n);
    let last = module_decl(entries[n - 1], modules[n - 1]);
    assert(all =~= before + last);
    if i < n - 1 {
        law_every_spoke_has_a_module(t, entries, modules, n - 1, i);
        lemma_on(before, last);
        lemma_still_has(before, all, module_decl(entries[i], modules[i]));
    } else {
        lemma_ends_with(before, last);
    }
}

spec fn module_decl(e: EntryV, m: ModuleV) -> Text {
    "pub mod "@ + e.slug + " {\n"@ + (match m {
        ModuleV::Alias(other) => "    pub use super::"@ + other + "::*;\n"@,
        ModuleV::Emit(_) => "    include!(concat!(env!(\"OUT_DIR\"), \"/"@ + e.slug + ".rs\"));\n"@,
    }) + "}\n\n"@
}

/// Every module of its own is a file named after its spoke, every shared source model one
/// named after it, and the files that were there stay in front.
pub proof fn law_modules_are_files(
    files: Seq<(Text, Text)>,
    entries: Seq<EntryV>,
    modules: Seq<ModuleV>,
    shared: Seq<(Text, Text)>,
    n: int,
    k: int,
)
    requires
        0 <= n <= entries.len(),
        n <= modules.len(),
        0 <= k <= shared.len(),
    ensures
        forall|i: int|
            0 <= i < n && (#[trigger] modules[i]) is Emit ==> module_files(
                files,
                entries,
                modules,
                n,
            ).contains((entries[i].slug + ".rs"@, modules[i]->Emit_0)),
        files.is_prefix_of(module_files(files, entries, modules, n)),
        files.is_prefix_of(shared_files(files, shared, k)),
        shared_files(files, shared, k).len() == files.len() + k,
        forall|i: int|
            0 <= i < k ==> shared_files(files, shared, k)[files.len() + i] == (
                (#[trigger] shared[i]).0 + ".rs"@,
                shared[i].1,
            ),
    decreases n, k,
{
    if n > 0 {
        law_modules_are_files(files, entries, modules, shared, n - 1, k);
        let before = module_files(files, entries, modules, n - 1);
        let all = module_files(files, entries, modules, n);
        assert(files =~= all.subrange(0, files.len() as int)) by {
            assert(files =~= before.subrange(0, files.len() as int));
            assert forall|j: int| 0 <= j < files.len() implies files[j] == all[j] by {
                assert(before.subrange(0, files.len() as int)[j] == before[j]);
            }
        }
        assert forall|i: int| 0 <= i < n && (#[trigger] modules[i]) is Emit implies all.contains(
            (entries[i].slug + ".rs"@, modules[i]->Emit_0),
        ) by {
            let want = (entries[i].slug + ".rs"@, modules[i]->Emit_0);
            if i < n - 1 {
                let j = choose|j: int| 0 <= j < before.len() && before[j] == want;
                assert(all[j] == want);
            } else {
                assert(all[all.len() - 1] == want);
            }
        }
    } else if k > 0 {
        law_modules_are_files(files, entries, modules, shared, n, k - 1);
        let before = shared_files(files, shared, k - 1);
        let all = shared_files(files, shared, k);
        assert(files =~= all.subrange(0, files.len() as int)) by {
            assert(files =~= before.subrange(0, files.len() as int));
            assert forall|j: int| 0 <= j < files.len() implies files[j] == all[j] by {
                assert(before.subrange(0, files.len() as int)[j] == before[j]);
            }
        }
    } else {
        assert(files =~= files.subrange(0, files.len() as int));
    }
}

// ---------------------------------------------------------------------------
// Errors
// ---------------------------------------------------------------------------

/// Whether a diagnostic is an error.
pub open spec fn is_error(d: DiagnosticV) -> bool {
    d.severity == Severity::Error
}

/// A compilation with errors is refused with a line for each of them, in order, and one
/// without is not: warnings do not count.
pub proof fn law_errors_are_listed(diags: Seq<DiagnosticV>, d: DiagnosticV)
    ensures
        cleanness(diags) is Ok <==> forall|i: int|
            0 <= i < diags.len() ==> !is_error(#[trigger] diags[i]),
        error_lines(diags.push(d), diags.len() as int + 1) == (if is_error(d) {
            error_lines(diags, diags.len() as int).push(
                "["@ + "error"@ + "] "@ + d.code + " ("@ + (match d.source_node {
                    Some(node) => node,
                    None => "-"@,
                }) + "): "@ + d.message,
            )
        } else {
            error_lines(diags, diags.len() as int)
        }),
        cleanness(diags) is Err ==> error_lines(diags, diags.len() as int).len() > 0,
{
    lemma_errors_same(diags, diags.push(d), diags.len() as int);
    if any_error(diags) {
        let i = choose|i: int|
            0 <= i < diags.len() && (#[trigger] diags[i]).severity == Severity::Error;
        assert(is_error(diags[i]));
        lemma_errors_counted(diags, diags.len() as int, i);
    }
}

proof fn lemma_errors_counted(diags: Seq<DiagnosticV>, n: int, i: int)
    requires
        0 <= i < n <= diags.len(),
        is_error(diags[i]),
    ensures
        error_lines(diags, n).len() > 0,
    decreases n,
{
    if i < n - 1 {
        lemma_errors_counted(diags, n - 1, i);
    }
}

proof fn lemma_errors_same(a: Seq<DiagnosticV>, b: Seq<DiagnosticV>, n: int)
    requires
        n <= a.len(),
        n <= b.len(),
        forall|i: int| 0 <= i < n ==> #[trigger] a[i] == b[i],
    ensures
        error_lines(a, n) == error_lines(b, n),
    decreases n,
{
    if n > 0 {
        lemma_errors_same(a, b, n - 1);
        assert(a[n - 1] == b[n - 1]);
    }
}

// ---------------------------------------------------------------------------
// Key listings
// ---------------------------------------------------------------------------

proof fn lemma_starred(info: KeyInfoV, n: int)
    requires
        0 <= n <= info.defined_by.len(),
    ensures
        starred(info, n).len() == n,
        forall|i: int|
            0 <= i < n ==> #[trigger] starred(info, n)[i] == info.defined_by[i] + (if
            info.required_by.contains(info.defined_by[i]) {
                "*"@
            } else {
                Seq::<char>::empty()
            }),
    decreases n,
{
    if n > 0 {
        lemma_starred(info, n - 1);
        let before = starred(info, n - 1);
        let all = starred(info, n);
        assert forall|i: int| 0 <= i < n implies #[trigger] all[i] == info.defined_by[i] + (if
        info.required_by.contains(info.defined_by[i]) {
            "*"@
        } else {
            Seq::<char>::empty()
        }) by {
            if i < n - 1 {
                assert(all[i] == before[i]);
            } else {
                let name = info.defined_by[n - 1];
                assert(name + Seq::<char>::empty() =~= name);
            }
        }
    }
}

/// The list of keys has a row for each key: the key, how many spokes map it, and their
/// names, with a star behind the name of each that requires it.
pub proof fn law_key_rows_name_the_spokes(infos: Seq<KeyInfoV>, i: int, j: int)
    requires
        0 <= i < infos.len(),
        0 <= j < infos[i].defined_by.len(),
    ensures
        info_rows(infos).len() == infos.len(),
        info_rows(infos)[i][0] == infos[i].key,
        info_rows(infos)[i][1] == decimal(infos[i].defined_by.len()),
        exists|names: Seq<Text>|
            #[trigger] join(names, ", "@) == info_rows(infos)[i][2] && names.len()
                == infos[i].defined_by.len() && (infos[i].required_by.contains(
                infos[i].defined_by[j],
            ) ==> names[j] == infos[i].defined_by[j] + "*"@) && (!infos[i].required_by.contains(
                infos[i].defined_by[j],
            ) ==> names[j] == infos[i].defined_by[j]),
{
    let info = infos[i];
    let n = info.defined_by.len() as int;
    lemma_starred(info, n);
    let names = starred(info, n);
    assert(info_rows(infos)[i] == info_cells(info));
    assert(join(names, ", "@) == info_cells(info)[2]);
    assert(names[j] == info.defined_by[j] + (if info.required_by.contains(info.defined_by[j]) {
        "*"@
    } else {
        Seq::<char>::empty()
    }));
    assert(info.defined_by[j] + Seq::<char>::empty() =~= info.defined_by[j]);
}

proof fn lemma_covered(t: Text, covered: Seq<(Text, bool)>, n: int, i: int)
    requires
        0 <= i < n <= covered.len(),
    ensures
        has(
            covered_lines(t, covered, n),
            "  ✓ "@ + covered[i].0 + (if covered[i].1 {
                " (required)\n"@
            } else {
                "\n"@
            }),
        ),
    decreases n,
{
    let before = covered_lines(t, covered, n - 1);
    let all = covered_lines(t, covered, n);
    let line = "  ✓ "@ + covered[n - 1].0 + (if covered[n - 1].1 {
        " (required)\n"@
    } else {
        "\n"@
    });
    assert(all =~= before + line);
    if i < n - 1 {
        lemma_covered(t, covered, n - 1, i);
        lemma_on(before, line);
        lemma_still_has(
            before,
            all,
            "  ✓ "@ + covered[i].0 + (if covered[i].1 {
                " (required)\n"@
            } else {
                "\n"@
            }),
        );
    } else {
        lemma_ends_with(before, line);
    }
}

proof fn lemma_unused(t: Text, unused: Seq<(Text, Seq<Text>)>, n: int, i: int)
    requires
        0 <= i < n <= unused.len(),
    ensures
        has(
            unused_lines(t, unused, n),
            "  · "@ + unused[i].0 + " — defined by: "@ + join(unused[i].1, ", "@) + "\n"@,
        ),
    decreases n,
{
    let before = unused_lines(t, unused, n - 1);
    let all = unused_lines(t, unused, n);
    let line = "  · "@ + unused[n - 1].0 + " — defined by: "@ + join(unused[n - 1].1, ", "@)
        + "\n"@;
    assert(all =~= before + line);
    if i < n - 1 {
        lemma_unused(t, unused, n - 1, i);
        lemma_on(before, line);
        lemma_still_has(
            before,
            all,
            "  · "@ + unused[i].0 + " — defined by: "@ + join(unused[i].1, ", "@) + "\n"@,
        );
    } else {
        lemma_ends_with(before, line);
    }
}

proof fn lemma_unused_on(t: Text, unused: Seq<(Text, Seq<Text>)>, n: int)
    ensures
        goes_on(t, unused_lines(t, unused, n)),
    decreases n,
{
    if n <= 0 {
        lemma_on_same(t);
    } else {
        lemma_unused_on(t, unused, n - 1);
        let before = unused_lines(t, unused, n - 1);
        let line = "  · "@ + unused[n - 1].0 + " — defined by: "@ + join(unused[n - 1].1, ", "@)
            + "\n"@;
        assert(unused_lines(t, unused, n) =~= before + line);
        lemma_on(before, line);
        lemma_on_on(t, before, before + line);
    }
}

/// The view of a spoke lists every key that it maps, marked where it requires the key, and
/// every key that it does not map, with the spokes that do.
pub proof fn law_views_list_every_key(v: SpokeKeysV, i: int, j: int)
    requires
        0 <= i < v.covered.len(),
        0 <= j < v.unused.len(),
    ensures
        has(
            spoke_keys_text(v),
            "  ✓ "@ + v.covered[i].0 + (if v.covered[i].1 {
                " (required)\n"@
            } else {
                "\n"@
            }),
        ),
        has(
            spoke_keys_text(v),
            "  · "@ + v.unused[j].0 + " — defined by: "@ + join(v.unused[j].1, ", "@) + "\n"@,
        ),
{
    let t = "main keys for "@ + v.spoke + " — "@ + decimal(v.covered.len()) + " covered, "@
        + decimal(v.unused.len()) + " unused of "@ + decimal(v.covered.len() + v.unused.len())
        + " total\n"@;
    let t = t + "\nCOVERED (mapped in this spoke):\n"@;
    let a = covered_lines(t, v.covered, v.covered.len() as int);
    let title =
        "\nUNUSED (defined by other spokes, not mapped here — candidates to add):\n"@;
    let b = a + title;
    let all = unused_lines(b, v.unused, v.unused.len() as int);
    assert(all == spoke_keys_text(v));
    lemma_covered(t, v.covered, v.covered.len() as int, i);
    lemma_on(a, title);
    lemma_unused_on(b, v.unused, v.unused.len() as int);
    lemma_on_on(a, b, all);
    lemma_still_has(
        a,
        all,
        "  ✓ "@ + v.covered[i].0 + (if v.covered[i].1 {
            " (required)\n"@
        } else {
            "\n"@
        }),
    );
    lemma_unused(b, v.unused, v.unused.len() as int, j);
}

} // verus!
