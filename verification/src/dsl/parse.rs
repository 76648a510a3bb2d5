//! Parsing a mapping file: the `[meta]` table and the tree of source nodes.
use vstd::prelude::*;

use crate::dsl::decode::{
    bool_value, decode_bool, decode_ops, decode_policy, decode_size, decode_text, decode_texts,
    decode_type, ops_value, policy_value, size_value, text_value, texts_value, type_value,
    wrong_type, wrong_type_error,
};
use crate::dsl::error::{config_msg, ConfigError, ConfigErrorV};
use crate::dsl::meta::{MappingMeta, MetaV};
use crate::dsl::node::{empty_raw, NodeId, RawNode, RawV};
use crate::dsl::value::{lemma_tree, toml_document, toml_parse, TomlV, TomlValue};
use crate::ordmap::{put, OrdMap};
use crate::text::{decimal, decimal_of, outcome, same, Text};

verus! {

/// A mapping file: its meta table and its nodes by id.
#[derive(Debug)]
pub struct ParsedMapping {
    /// The `[meta]` table.
    pub meta: MappingMeta,
    /// The nodes, by id.
    pub nodes: OrdMap<NodeId, RawNode>,
}

/// The nodes of a mapping file, in id order.
pub type NodesV = Seq<(Text, RawV)>;

/// The model of a [`ParsedMapping`].
#[verifier::ext_equal]
pub struct ParsedV {
    pub meta: MetaV,
    pub nodes: NodesV,
}

impl View for ParsedMapping {
    type V = ParsedV;

    open spec fn view(&self) -> ParsedV {
        ParsedV { meta: self.meta@, nodes: self.nodes@ }
    }
}

impl DeepView for ParsedMapping {
    type V = ParsedV;

    open spec fn deep_view(&self) -> ParsedV {
        self@
    }
}

/// A copy of a node map.
pub fn clone_nodes(m: &OrdMap<NodeId, RawNode>) -> (r: OrdMap<NodeId, RawNode>)
    ensures
        r@ == m@,
{
    let mut r: OrdMap<NodeId, RawNode> = OrdMap::new();
    m.sorted();
    let mut i: usize = 0;
    while i < m.len()
        invariant
            i <= m@.len(),
            crate::ordmap::ascending::<NodeId, RawV>(m@),
            r@ =~= m@.take(i as int),
        decreases m@.len() - i,
    {
        r.sorted();
        proof {
            crate::ordmap::lemma_put_last::<NodeId, RawV>(m@, i as int);
        }
        r.insert(m.key_at(i).clone(), m.value_at(i).clone());
        i += 1;
    }
    r
}

impl Clone for ParsedMapping {
    fn clone(&self) -> (r: ParsedMapping)
        ensures
            r@ == self@,
    {
        ParsedMapping { meta: self.meta.clone(), nodes: clone_nodes(&self.nodes) }
    }
}

// ---------------------------------------------------------------------------
// What a table means
// ---------------------------------------------------------------------------

/// The report of a decoding error, with the key of the value if it has one.
pub open spec fn decode_report(message: Text, key: Option<Text>) -> Text {
    match key {
        None => message + "\n"@,
        Some(k) => message + "\n"@ + "in `"@ + k + "`\n"@,
    }
}

/// The error for a key that names no field.
pub open spec fn unknown_field(key: Text, expected: Text) -> Text {
    "unknown field `"@ + key + "`, expected "@ + expected
}

/// Whether a key names a field of a node.
pub open spec fn raw_known(key: Text) -> bool {
    key == "xml"@ || key == "type"@ || key == "canonical_key"@ || key == "required"@ || key == "fallbacks"@ || key == "description"@ || key == "min_items"@ || key == "multiple"@ || key == "join_with"@ || key == "normalize"@ || key == "adapter"@ || key == "constant"@ || key == "clone_of"@ || key == "disabled"@
}

/// The node `acc` with the field `key` set from a value.
pub open spec fn raw_set(acc: RawV, key: Text, v: TomlV) -> Result<RawV, Text> {
    if key == "xml"@ {
        match text_value(v) {
            Ok(x) => Ok(RawV { xml: Some(x), ..acc }),
            Err(e) => Err(e),
        }
    } else if key == "type"@ {
        match type_value(v) {
            Ok(x) => Ok(RawV { ty: Some(x), ..acc }),
            Err(e) => Err(e),
        }
    } else if key == "canonical_key"@ {
        match text_value(v) {
            Ok(x) => Ok(RawV { canonical_key: Some(x), ..acc }),
            Err(e) => Err(e),
        }
    } else if key == "required"@ {
        match bool_value(v) {
            Ok(x) => Ok(RawV { required: Some(x), ..acc }),
            Err(e) => Err(e),
        }
    } else if key == "fallbacks"@ {
        match texts_value(v) {
            Ok(x) => Ok(RawV { fallbacks: Some(x), ..acc }),
            Err(e) => Err(e),
        }
    } else if key == "description"@ {
        match text_value(v) {
            Ok(x) => Ok(RawV { description: Some(x), ..acc }),
            Err(e) => Err(e),
        }
    } else if key == "min_items"@ {
        match size_value(v) {
            Ok(x) => Ok(RawV { min_items: Some(x), ..acc }),
            Err(e) => Err(e),
        }
    } else if key == "multiple"@ {
        match policy_value(v) {
            Ok(x) => Ok(RawV { multiple: Some(x), ..acc }),
            Err(e) => Err(e),
        }
    } else if key == "join_with"@ {
        match text_value(v) {
            Ok(x) => Ok(RawV { join_with: Some(x), ..acc }),
            Err(e) => Err(e),
        }
    } else if key == "normalize"@ {
        match ops_value(v) {
            Ok(x) => Ok(RawV { normalize: Some(x), ..acc }),
            Err(e) => Err(e),
        }
    } else if key == "adapter"@ {
        match text_value(v) {
            Ok(x) => Ok(RawV { adapter: Some(x), ..acc }),
            Err(e) => Err(e),
        }
    } else if key == "constant"@ {
        match text_value(v) {
            Ok(x) => Ok(RawV { constant: Some(x), ..acc }),
            Err(e) => Err(e),
        }
    } else if key == "clone_of"@ {
        match text_value(v) {
            Ok(x) => Ok(RawV { clone_of: Some(x), ..acc }),
            Err(e) => Err(e),
        }
    } else if key == "disabled"@ {
        match bool_value(v) {
            Ok(x) => Ok(RawV { disabled: Some(x), ..acc }),
            Err(e) => Err(e),
        }
    } else {
        Ok(acc)
    }
}

/// The node `acc` with one more entry of its table.
pub open spec fn raw_step(acc: RawV, key: Text, v: TomlV) -> Result<RawV, Text> {
    if v is Table {
        Ok(acc)
    } else if !raw_known(key) {
        Err(
            decode_report(
                unknown_field(
                    key,
                    "one of `xml`, `type`, `canonical_key`, `required`, `fallbacks`, `description`, `min_items`, `multiple`, `join_with`, `normalize`, `adapter`, `constant`, `clone_of`, `disabled`"@,
                ),
                None,
            ),
        )
    } else {
        match raw_set(acc, key, v) {
            Ok(n) => Ok(n),
            Err(e) => Err(decode_report(e, Some(key))),
        }
    }
}

/// The node that the entries of a table write; entries that are tables are not
/// fields but child nodes.
pub open spec fn raw_fields(entries: Seq<(Text, TomlV)>) -> Result<RawV, Text>
    decreases entries.len(),
{
    if entries.len() == 0 {
        Ok(empty_raw())
    } else {
        match raw_fields(entries.drop_last()) {
            Err(e) => Err(e),
            Ok(acc) => raw_step(acc, entries.last().0, entries.last().1),
        }
    }
}

/// Whether a table has an entry that is not a table.
pub open spec fn has_own(entries: Seq<(Text, TomlV)>) -> bool {
    exists|i: int| 0 <= i < entries.len() && !((#[trigger] entries[i]).1 is Table)
}

/// `nodes` with the node `id` that the table writes, if it writes any field, and
/// all nodes below it.
pub open spec fn flat(id: Text, t: Seq<(Text, TomlV)>, nodes: NodesV) -> Result<NodesV, Text>
    decreases t, t.len() + 1,
{
    if has_own(t) {
        match raw_fields(t) {
            Err(e) => Err("in node `"@ + id + "`: "@ + e),
            Ok(n) => flat_children(id, t, t.len(), put::<NodeId, RawV>(nodes, id, n)),
        }
    } else {
        flat_children(id, t, t.len(), nodes)
    }
}

/// `nodes` with the nodes of the first `n` entries of a table that are tables.
pub open spec fn flat_children(
    id: Text,
    t: Seq<(Text, TomlV)>,
    n: nat,
    nodes: NodesV,
) -> Result<NodesV, Text>
    decreases t, n,
{
    if n == 0 || n > t.len() {
        Ok(nodes)
    } else {
        match flat_children(id, t, (n - 1) as nat, nodes) {
            Err(e) => Err(e),
            Ok(acc) => match t[n - 1].1 {
                TomlV::Table(child) => flat(id + "."@ + t[n - 1].0, child, acc),
                _ => Ok(acc),
            },
        }
    }
}

/// The `[meta]` fields read so far.
struct MetaDraft {
    doc_format: Option<String>,
    format_version: Option<String>,
    mapping_version: Option<String>,
    canonical_model: Option<String>,
    root: Option<String>,
    source_model: Option<String>,
    detect: Option<Vec<String>>,
    inherits: Option<String>,
    disabled: Option<bool>,
    description: Option<String>,
}

/// The model of a [`MetaDraft`].
#[verifier::ext_equal]
pub struct MetaDraftV {
    pub doc_format: Option<Text>,
    pub format_version: Option<Text>,
    pub mapping_version: Option<Text>,
    pub canonical_model: Option<Text>,
    pub root: Option<Text>,
    pub source_model: Option<Text>,
    pub detect: Option<Seq<Text>>,
    pub inherits: Option<Text>,
    pub disabled: Option<bool>,
    pub description: Option<Text>,
}

impl DeepView for MetaDraft {
    type V = MetaDraftV;

    closed spec fn deep_view(&self) -> MetaDraftV {
        MetaDraftV {
            doc_format: self.doc_format.deep_view(),
            format_version: self.format_version.deep_view(),
            mapping_version: self.mapping_version.deep_view(),
            canonical_model: self.canonical_model.deep_view(),
            root: self.root.deep_view(),
            source_model: self.source_model.deep_view(),
            detect: self.detect.deep_view(),
            inherits: self.inherits.deep_view(),
            disabled: self.disabled,
            description: self.description.deep_view(),
        }
    }
}

/// No `[meta]` field read yet.
pub open spec fn empty_draft() -> MetaDraftV {
    MetaDraftV {
        doc_format: None,
        format_version: None,
        mapping_version: None,
        canonical_model: None,
        root: None,
        source_model: None,
        detect: None,
        inherits: None,
        disabled: None,
        description: None,
    }
}

/// Whether a key names a `[meta]` field.
pub open spec fn meta_known(key: Text) -> bool {
    key == "doc_format"@ || key == "format_version"@ || key == "mapping_version"@ || key == "canonical_model"@ || key == "root"@ || key == "source_model"@ || key == "detect"@ || key == "inherits"@ || key == "disabled"@ || key == "description"@
}

/// The draft `acc` with the field `key` set from a value.
pub open spec fn meta_set(acc: MetaDraftV, key: Text, v: TomlV) -> Result<MetaDraftV, Text> {
    if key == "doc_format"@ {
        match text_value(v) {
            Ok(x) => Ok(MetaDraftV { doc_format: Some(x), ..acc }),
            Err(e) => Err(e),
        }
    } else if key == "format_version"@ {
        match text_value(v) {
            Ok(x) => Ok(MetaDraftV { format_version: Some(x), ..acc }),
            Err(e) => Err(e),
        }
    } else if key == "mapping_version"@ {
        match text_value(v) {
            Ok(x) => Ok(MetaDraftV { mapping_version: Some(x), ..acc }),
            Err(e) => Err(e),
        }
    } else if key == "canonical_model"@ {
        match text_value(v) {
            Ok(x) => Ok(MetaDraftV { canonical_model: Some(x), ..acc }),
            Err(e) => Err(e),
        }
    } else if key == "root"@ {
        match text_value(v) {
            Ok(x) => Ok(MetaDraftV { root: Some(x), ..acc }),
            Err(e) => Err(e),
        }
    } else if key == "source_model"@ {
        match text_value(v) {
            Ok(x) => Ok(MetaDraftV { source_model: Some(x), ..acc }),
            Err(e) => Err(e),
        }
    } else if key == "detect"@ {
        match texts_value(v) {
            Ok(x) => Ok(MetaDraftV { detect: Some(x), ..acc }),
            Err(e) => Err(e),
        }
    } else if key == "inherits"@ {
        match text_value(v) {
            Ok(x) => Ok(MetaDraftV { inherits: Some(x), ..acc }),
            Err(e) => Err(e),
        }
    } else if key == "disabled"@ {
        match bool_value(v) {
            Ok(x) => Ok(MetaDraftV { disabled: Some(x), ..acc }),
            Err(e) => Err(e),
        }
    } else if key == "description"@ {
        match text_value(v) {
            Ok(x) => Ok(MetaDraftV { description: Some(x), ..acc }),
            Err(e) => Err(e),
        }
    } else {
        Ok(acc)
    }
}

/// The draft `acc` with one more entry of the table.
pub open spec fn meta_step(acc: MetaDraftV, key: Text, v: TomlV) -> Result<MetaDraftV, Text> {
    if !meta_known(key) {
        Err(
            decode_report(
                unknown_field(
                    key,
                    "one of `doc_format`, `format_version`, `mapping_version`, `canonical_model`, `root`, `source_model`, `detect`, `inherits`, `disabled`, `description`"@,
                ),
                None,
            ),
        )
    } else {
        match meta_set(acc, key, v) {
            Ok(n) => Ok(n),
            Err(e) => Err(decode_report(e, Some(key))),
        }
    }
}

/// The draft that the entries of a table give.
pub open spec fn meta_entries(entries: Seq<(Text, TomlV)>) -> Result<MetaDraftV, Text>
    decreases entries.len(),
{
    if entries.len() == 0 {
        Ok(empty_draft())
    } else {
        match meta_entries(entries.drop_last()) {
            Err(e) => Err(e),
            Ok(acc) => meta_step(acc, entries.last().0, entries.last().1),
        }
    }
}

/// The `[meta]` fields in the order of their declaration.
pub open spec fn meta_field_name(i: int) -> Text {
    if i == 0 {
        "doc_format"@
    } else if i == 1 {
        "format_version"@
    } else if i == 2 {
        "mapping_version"@
    } else if i == 3 {
        "canonical_model"@
    } else if i == 4 {
        "root"@
    } else if i == 5 {
        "source_model"@
    } else if i == 6 {
        "detect"@
    } else if i == 7 {
        "inherits"@
    } else if i == 8 {
        "disabled"@
    } else {
        "description"@
    }
}

/// The draft that a list of values gives, one value for each field in turn.
pub open spec fn meta_items(items: Seq<TomlV>) -> Result<MetaDraftV, Text>
    decreases items.len(),
{
    if items.len() == 0 {
        Ok(empty_draft())
    } else {
        match meta_items(items.drop_last()) {
            Err(e) => Err(e),
            Ok(acc) => match meta_set(acc, meta_field_name(items.len() - 1), items.last()) {
                Ok(n) => Ok(n),
                Err(e) => Err(decode_report(e, None)),
            },
        }
    }
}

/// The meta table of a draft: the first four fields must be there, the others
/// have defaults.
pub open spec fn meta_finish(d: MetaDraftV) -> Result<MetaV, Text> {
    if d.doc_format is None {
        Err(decode_report("missing field `doc_format`"@, None))
    } else if d.format_version is None {
        Err(decode_report("missing field `format_version`"@, None))
    } else if d.mapping_version is None {
        Err(decode_report("missing field `mapping_version`"@, None))
    } else if d.canonical_model is None {
        Err(decode_report("missing field `canonical_model`"@, None))
    } else {
        Ok(
            MetaV {
                doc_format: d.doc_format->0,
                format_version: d.format_version->0,
                mapping_version: d.mapping_version->0,
                canonical_model: d.canonical_model->0,
                root: d.root,
                source_model: d.source_model,
                detect: match d.detect {
                    Some(v) => v,
                    None => Seq::empty(),
                },
                inherits: d.inherits,
                disabled: d.disabled == Some(true),
                description: d.description,
            },
        )
    }
}

/// The error for a list of the wrong length.
pub open spec fn wrong_length(n: nat, expected: Text) -> Text {
    "invalid length "@ + decimal(n) + ", expected "@ + expected
}

/// The meta table a value writes: a table of fields, or the list of their
/// values.
pub open spec fn meta_value(v: TomlV) -> Result<MetaV, Text> {
    match v {
        TomlV::Table(entries) => match meta_entries(entries) {
            Err(e) => Err(e),
            Ok(d) => meta_finish(d),
        },
        TomlV::Array(items) => {
            let n = items.len();
            let used = if n <= 10 {
                items
            } else {
                items.take(10)
            };
            match meta_items(used) {
                Err(e) => Err(e),
                Ok(d) => if n < 4 {
                    Err(
                        decode_report(
                            wrong_length(n, "struct MappingMeta with 10 elements"@),
                            None,
                        ),
                    )
                } else if n > 10 {
                    Err(decode_report(wrong_length(n, "fewer elements in array"@), None))
                } else {
                    meta_finish(d)
                },
            }
        },
        _ => Err(decode_report(wrong_type(v, "struct MappingMeta"@), None)),
    }
}

/// The value of the first entry with a key.
pub open spec fn entry(entries: Seq<(Text, TomlV)>, key: Text) -> Option<TomlV>
    decreases entries.len(),
{
    if entries.len() == 0 {
        None
    } else if entries[0].0 == key {
        Some(entries[0].1)
    } else {
        entry(entries.drop_first(), key)
    }
}

/// The nodes that the top-level entries write, apart from `meta`.
pub open spec fn top_nodes(entries: Seq<(Text, TomlV)>) -> Result<NodesV, Text>
    decreases entries.len(),
{
    if entries.len() == 0 {
        Ok(Seq::empty())
    } else {
        match top_nodes(entries.drop_last()) {
            Err(e) => Err(e),
            Ok(acc) => {
                let (key, v) = entries.last();
                if key == "meta"@ {
                    Ok(acc)
                } else {
                    match v {
                        TomlV::Table(t) => flat(key, t, acc),
                        _ => Err(
                            "top-level key `"@ + key
                                + "` must be a source-node table, not a bare value"@,
                        ),
                    }
                }
            },
        }
    }
}

/// The mapping that a TOML document writes.
pub open spec fn document_mapping(root: Seq<(Text, TomlV)>) -> Result<ParsedV, ConfigErrorV> {
    match entry(root, "meta"@) {
        None => Err(config_msg("missing required [meta] table"@)),
        Some(m) => match meta_value(m) {
            Err(e) => Err(config_msg(e)),
            Ok(meta) => match top_nodes(root) {
                Err(e) => Err(config_msg(e)),
                Ok(nodes) => Ok(ParsedV { meta, nodes }),
            },
        },
    }
}

/// The mapping that a text writes.
pub open spec fn mapping_of(src: Text) -> Result<ParsedV, ConfigErrorV> {
    match toml_document(src) {
        Err((message, span)) => Err(ConfigErrorV { message, span }),
        Ok(root) => document_mapping(root),
    }
}

// ---------------------------------------------------------------------------
// Failing prefixes
// ---------------------------------------------------------------------------

proof fn lemma_raw_fields_fail(entries: Seq<(Text, TomlV)>, n: int)
    requires
        0 <= n <= entries.len(),
        raw_fields(entries.take(n)) is Err,
    ensures
        raw_fields(entries) == raw_fields(entries.take(n)),
    decreases entries.len() - n,
{
    if n < entries.len() {
        assert(entries.take(n + 1).drop_last() =~= entries.take(n));
        lemma_raw_fields_fail(entries, n + 1);
    } else {
        assert(entries.take(n) =~= entries);
    }
}

proof fn lemma_meta_entries_fail(entries: Seq<(Text, TomlV)>, n: int)
    requires
        0 <= n <= entries.len(),
        meta_entries(entries.take(n)) is Err,
    ensures
        meta_entries(entries) == meta_entries(entries.take(n)),
    decreases entries.len() - n,
{
    if n < entries.len() {
        assert(entries.take(n + 1).drop_last() =~= entries.take(n));
        lemma_meta_entries_fail(entries, n + 1);
    } else {
        assert(entries.take(n) =~= entries);
    }
}

proof fn lemma_meta_items_fail(items: Seq<TomlV>, n: int)
    requires
        0 <= n <= items.len(),
        meta_items(items.take(n)) is Err,
    ensures
        meta_items(items) == meta_items(items.take(n)),
    decreases items.len() - n,
{
    if n < items.len() {
        assert(items.take(n + 1).drop_last() =~= items.take(n));
        lemma_meta_items_fail(items, n + 1);
    } else {
        assert(items.take(n) =~= items);
    }
}

proof fn lemma_top_nodes_fail(entries: Seq<(Text, TomlV)>, n: int)
    requires
        0 <= n <= entries.len(),
        top_nodes(entries.take(n)) is Err,
    ensures
        top_nodes(entries) == top_nodes(entries.take(n)),
    decreases entries.len() - n,
{
    if n < entries.len() {
        assert(entries.take(n + 1).drop_last() =~= entries.take(n));
        lemma_top_nodes_fail(entries, n + 1);
    } else {
        assert(entries.take(n) =~= entries);
    }
}

proof fn lemma_flat_children_fail(id: Text, t: Seq<(Text, TomlV)>, n: nat, nodes: NodesV)
    requires
        n <= t.len(),
        flat_children(id, t, n, nodes) is Err,
    ensures
        flat_children(id, t, t.len(), nodes) == flat_children(id, t, n, nodes),
    decreases t.len() - n,
{
    if n < t.len() {
        assert(flat_children(id, t, n + 1, nodes) == flat_children(id, t, n, nodes));
        lemma_flat_children_fail(id, t, n + 1, nodes);
    }
}

// ---------------------------------------------------------------------------
// The parser
// ---------------------------------------------------------------------------

/// The report of a decoding error.
fn report(message: String, key: Option<&str>) -> (out: String)
    ensures
        out@ == decode_report(
            message@,
            match key {
                Some(k) => Some(k@),
                None => None,
            },
        ),
{
    let mut out = message;
    out.push_str("\n");
    if let Some(k) = key {
        out.push_str("in `");
        out.push_str(k);
        out.push_str("`\n");
    }
    out
}

/// The error for a key that names no field.
fn unknown_field_error(key: &str, expected: &str) -> (out: String)
    ensures
        out@ == unknown_field(key@, expected@),
{
    let mut out = "unknown field `".to_string();
    out.push_str(key);
    out.push_str("`, expected ");
    out.push_str(expected);
    out
}

/// The node `acc` with the field `key` set from a value.
fn set_raw(acc: RawNode, key: &str, v: &TomlValue) -> (r: Result<RawNode, String>)
    ensures
        outcome(r) == raw_set(acc@, key@, v@),
{
    if same(key, "xml") {
        match decode_text(v) {
            Ok(x) => Ok(RawNode { xml: Some(x), ..acc }),
            Err(e) => Err(e),
        }
    } else if same(key, "type") {
        match decode_type(v) {
            Ok(x) => Ok(RawNode { ty: Some(x), ..acc }),
            Err(e) => Err(e),
        }
    } else if same(key, "canonical_key") {
        match decode_text(v) {
            Ok(x) => Ok(RawNode { canonical_key: Some(x), ..acc }),
            Err(e) => Err(e),
        }
    } else if same(key, "required") {
        match decode_bool(v) {
            Ok(x) => Ok(RawNode { required: Some(x), ..acc }),
            Err(e) => Err(e),
        }
    } else if same(key, "fallbacks") {
        match decode_texts(v) {
            Ok(x) => Ok(RawNode { fallbacks: Some(x), ..acc }),
            Err(e) => Err(e),
        }
    } else if same(key, "description") {
        match decode_text(v) {
            Ok(x) => Ok(RawNode { description: Some(x), ..acc }),
            Err(e) => Err(e),
        }
    } else if same(key, "min_items") {
        match decode_size(v) {
            Ok(x) => Ok(RawNode { min_items: Some(x), ..acc }),
            Err(e) => Err(e),
        }
    } else if same(key, "multiple") {
        match decode_policy(v) {
            Ok(x) => Ok(RawNode { multiple: Some(x), ..acc }),
            Err(e) => Err(e),
        }
    } else if same(key, "join_with") {
        match decode_text(v) {
            Ok(x) => Ok(RawNode { join_with: Some(x), ..acc }),
            Err(e) => Err(e),
        }
    } else if same(key, "normalize") {
        match decode_ops(v) {
            Ok(x) => Ok(RawNode { normalize: Some(x), ..acc }),
            Err(e) => Err(e),
        }
    } else if same(key, "adapter") {
        match decode_text(v) {
            Ok(x) => Ok(RawNode { adapter: Some(x), ..acc }),
            Err(e) => Err(e),
        }
    } else if same(key, "constant") {
        match decode_text(v) {
            Ok(x) => Ok(RawNode { constant: Some(x), ..acc }),
            Err(e) => Err(e),
        }
    } else if same(key, "clone_of") {
        match decode_text(v) {
            Ok(x) => Ok(RawNode { clone_of: Some(x), ..acc }),
            Err(e) => Err(e),
        }
    } else if same(key, "disabled") {
        match decode_bool(v) {
            Ok(x) => Ok(RawNode { disabled: Some(x), ..acc }),
            Err(e) => Err(e),
        }
    } else {
        Ok(acc)
    }
}

/// The node that the entries of a table write.
pub fn decode_raw(entries: &Vec<(String, TomlValue)>) -> (r: Result<RawNode, String>)
    ensures
        outcome(r) == raw_fields(entries.deep_view()),
{
    let ghost views = entries.deep_view();
    let mut acc = RawNode::default();
    let mut i: usize = 0;
    while i < entries.len()
        invariant
            i <= entries.len(),
            views == entries.deep_view(),
            raw_fields(views.take(i as int)) == Ok::<RawV, Text>(acc@),
        decreases entries.len() - i,
    {
        proof {
            assert(views.take(i + 1).drop_last() =~= views.take(i as int));
            assert(views[i as int] == (entries@[i as int].0@, entries@[i as int].1@));
        }
        let key = entries[i].0.as_str();
        match &entries[i].1 {
            TomlValue::Table(_) => {},
            v => {
                let known = same(key, "xml") || same(key, "type") || same(key, "canonical_key") || same(key, "required") || same(key, "fallbacks") || same(key, "description") || same(key, "min_items") || same(key, "multiple") || same(key, "join_with") || same(key, "normalize") || same(key, "adapter") || same(key, "constant") || same(key, "clone_of") || same(
                    key,
                    "disabled",
                );
                if !known {
                    proof {
                        lemma_raw_fields_fail(views, i + 1);
                    }
                    return Err(
                        report(
                            unknown_field_error(
                                key,
                                "one of `xml`, `type`, `canonical_key`, `required`, `fallbacks`, `description`, `min_items`, `multiple`, `join_with`, `normalize`, `adapter`, `constant`, `clone_of`, `disabled`",
                            ),
                            None,
                        ),
                    );
                }
                match set_raw(acc, key, v) {
                    Ok(n) => {
                        acc = n;
                    },
                    Err(e) => {
                        proof {
                            lemma_raw_fields_fail(views, i + 1);
                        }
                        return Err(report(e, Some(key)));
                    },
                }
            },
        }
        i += 1;
    }
    assert(views.take(entries.len() as int) =~= views);
    Ok(acc)
}

/// Whether a table has an entry that is not a table.
fn owns(entries: &Vec<(String, TomlValue)>) -> (r: bool)
    ensures
        r == has_own(entries.deep_view()),
{
    let ghost views = entries.deep_view();
    let mut i: usize = 0;
    while i < entries.len()
        invariant
            i <= entries.len(),
            views == entries.deep_view(),
            forall|j: int| 0 <= j < i ==> (#[trigger] views[j]).1 is Table,
        decreases entries.len() - i,
    {
        assert(views[i as int] == (entries@[i as int].0@, entries@[i as int].1@));
        match &entries[i].1 {
            TomlValue::Table(_) => {},
            _ => {
                assert(!(views[i as int].1 is Table));
                return true;
            },
        }
        i += 1;
    }
    false
}

/// Adds to `nodes` the node `id` that the table writes, if it writes any field,
/// and all nodes below it.
fn flatten(
    id: &NodeId,
    table: &Vec<(String, TomlValue)>,
    nodes: &mut OrdMap<NodeId, RawNode>,
) -> (r: Result<(), ConfigError>)
    ensures
        match flat(id@, table.deep_view(), old(nodes)@) {
            Ok(m) => r is Ok && final(nodes)@ == m,
            Err(e) => r matches Err(c) && c@ == config_msg(e),
        },
    decreases *table,
{
    if owns(table) {
        match decode_raw(table) {
            Err(e) => {
                let mut message = "in node `".to_string();
                message.push_str(id.as_str());
                message.push_str("`: ");
                message.push_str(e.as_str());
                return Err(ConfigError::msg(message));
            },
            Ok(node) => {
                nodes.insert(id.clone(), node);
            },
        }
    }
    let ghost start = nodes@;
    let ghost views = table.deep_view();
    let mut i: usize = 0;
    while i < table.len()
        invariant
            i <= table.len(),
            views == table.deep_view(),
            flat(id@, views, old(nodes)@) == flat_children(id@, views, views.len(), start),
            flat_children(id@, views, i as nat, start) == Ok::<NodesV, Text>(nodes@),
        decreases table.len() - i,
    {
        proof {
            assert(views[i as int] == (table@[i as int].0@, table@[i as int].1@));
            lemma_tree(table@[i as int].1);
        }
        match &table[i].1 {
            TomlValue::Table(child) => {
                let mut child_id = id.as_str().to_string();
                child_id.push_str(".");
                child_id.push_str(table[i].0.as_str());
                let child_id = NodeId::new(child_id.as_str());
                proof {
                    assert(decreases_to!(*table => table@));
                    assert(decreases_to!(table@ => table@[i as int]));
                    assert(decreases_to!(table@[i as int] => table@[i as int].1));
                    assert(decreases_to!(table@[i as int].1 => table@[i as int].1->Table_0));
                }
                match flatten(&child_id, child, nodes) {
                    Ok(()) => {},
                    Err(e) => {
                        proof {
                            lemma_flat_children_fail(id@, views, (i + 1) as nat, start);
                        }
                        return Err(e);
                    },
                }
            },
            _ => {},
        }
        i += 1;
    }
    Ok(())
}

/// The draft `acc` with the field `key` set from a value.
fn set_meta(acc: MetaDraft, key: &str, v: &TomlValue) -> (r: Result<MetaDraft, String>)
    ensures
        outcome(r) == meta_set(acc.deep_view(), key@, v@),
{
    if same(key, "doc_format") {
        match decode_text(v) {
            Ok(x) => Ok(MetaDraft { doc_format: Some(x), ..acc }),
            Err(e) => Err(e),
        }
    } else if same(key, "format_version") {
        match decode_text(v) {
            Ok(x) => Ok(MetaDraft { format_version: Some(x), ..acc }),
            Err(e) => Err(e),
        }
    } else if same(key, "mapping_version") {
        match decode_text(v) {
            Ok(x) => Ok(MetaDraft { mapping_version: Some(x), ..acc }),
            Err(e) => Err(e),
        }
    } else if same(key, "canonical_model") {
        match decode_text(v) {
            Ok(x) => Ok(MetaDraft { canonical_model: Some(x), ..acc }),
            Err(e) => Err(e),
        }
    } else if same(key, "root") {
        match decode_text(v) {
            Ok(x) => Ok(MetaDraft { root: Some(x), ..acc }),
            Err(e) => Err(e),
        }
    } else if same(key, "source_model") {
        match decode_text(v) {
            Ok(x) => Ok(MetaDraft { source_model: Some(x), ..acc }),
            Err(e) => Err(e),
        }
    } else if same(key, "detect") {
        match decode_texts(v) {
            Ok(x) => Ok(MetaDraft { detect: Some(x), ..acc }),
            Err(e) => Err(e),
        }
    } else if same(key, "inherits") {
        match decode_text(v) {
            Ok(x) => Ok(MetaDraft { inherits: Some(x), ..acc }),
            Err(e) => Err(e),
        }
    } else if same(key, "disabled") {
        match decode_bool(v) {
            Ok(x) => Ok(MetaDraft { disabled: Some(x), ..acc }),
            Err(e) => Err(e),
        }
    } else if same(key, "description") {
        match decode_text(v) {
            Ok(x) => Ok(MetaDraft { description: Some(x), ..acc }),
            Err(e) => Err(e),
        }
    } else {
        Ok(acc)
    }
}

/// A draft with no field read yet.
fn new_draft() -> (d: MetaDraft)
    ensures
        d.deep_view() == empty_draft(),
{
    MetaDraft {
        doc_format: None,
        format_version: None,
        mapping_version: None,
        canonical_model: None,
        root: None,
        source_model: None,
        detect: None,
        inherits: None,
        disabled: None,
        description: None,
    }
}

/// The draft that the entries of a table give.
fn decode_meta_entries(entries: &Vec<(String, TomlValue)>) -> (r: Result<MetaDraft, String>)
    ensures
        outcome(r) == meta_entries(entries.deep_view()),
{
    let ghost views = entries.deep_view();
    let mut acc = new_draft();
    let mut i: usize = 0;
    while i < entries.len()
        invariant
            i <= entries.len(),
            views == entries.deep_view(),
            meta_entries(views.take(i as int)) == Ok::<MetaDraftV, Text>(acc.deep_view()),
        decreases entries.len() - i,
    {
        proof {
            assert(views.take(i + 1).drop_last() =~= views.take(i as int));
            assert(views[i as int] == (entries@[i as int].0@, entries@[i as int].1@));
        }
        let key = entries[i].0.as_str();
        let known = same(key, "doc_format") || same(key, "format_version") || same(key, "mapping_version") || same(key, "canonical_model") || same(key, "root") || same(key, "source_model") || same(key, "detect") || same(key, "inherits") || same(key, "disabled") || same(
            key,
            "description",
        );
        if !known {
            proof {
                lemma_meta_entries_fail(views, i + 1);
            }
            return Err(
                report(
                    unknown_field_error(
                        key,
                        "one of `doc_format`, `format_version`, `mapping_version`, `canonical_model`, `root`, `source_model`, `detect`, `inherits`, `disabled`, `description`",
                    ),
                    None,
                ),
            );
        }
        match set_meta(acc, key, &entries[i].1) {
            Ok(n) => {
                acc = n;
            },
            Err(e) => {
                proof {
                    lemma_meta_entries_fail(views, i + 1);
                }
                return Err(report(e, Some(key)));
            },
        }
        i += 1;
    }
    assert(views.take(entries.len() as int) =~= views);
    Ok(acc)
}

/// The `[meta]` fields in the order of their declaration.
fn name_of_meta_field(i: usize) -> (s: &'static str)
    ensures
        s@ == meta_field_name(i as int),
{
    if i == 0 {
        "doc_format"
    } else if i == 1 {
        "format_version"
    } else if i == 2 {
        "mapping_version"
    } else if i == 3 {
        "canonical_model"
    } else if i == 4 {
        "root"
    } else if i == 5 {
        "source_model"
    } else if i == 6 {
        "detect"
    } else if i == 7 {
        "inherits"
    } else if i == 8 {
        "disabled"
    } else {
        "description"
    }
}

/// The draft that the first `n` values of a list give.
fn decode_meta_items(items: &Vec<TomlValue>, n: usize) -> (r: Result<MetaDraft, String>)
    requires
        n <= items.len(),
    ensures
        outcome(r) == meta_items(items.deep_view().take(n as int)),
{
    let mut acc = new_draft();
    let mut i: usize = 0;
    let ghost used = items.deep_view().take(n as int);
    while i < n
        invariant
            i <= n <= items.len(),
            used == items.deep_view().take(n as int),
            meta_items(used.take(i as int)) == Ok::<MetaDraftV, Text>(acc.deep_view()),
        decreases n - i,
    {
        proof {
            assert(used.take(i + 1).drop_last() =~= used.take(i as int));
            assert(used[i as int] == items@[i as int]@);
        }
        match set_meta(acc, name_of_meta_field(i), &items[i]) {
            Ok(d) => {
                acc = d;
            },
            Err(e) => {
                proof {
                    lemma_meta_items_fail(used, i + 1);
                }
                return Err(report(e, None));
            },
        }
        i += 1;
    }
    assert(used.take(n as int) =~= used);
    Ok(acc)
}

/// The meta table of a draft.
fn finish_meta(d: MetaDraft) -> (r: Result<MappingMeta, String>)
    ensures
        outcome(r) == meta_finish(d.deep_view()),
{
    if d.doc_format.is_none() {
        Err(report("missing field `doc_format`".to_string(), None))
    } else if d.format_version.is_none() {
        Err(report("missing field `format_version`".to_string(), None))
    } else if d.mapping_version.is_none() {
        Err(report("missing field `mapping_version`".to_string(), None))
    } else if d.canonical_model.is_none() {
        Err(report("missing field `canonical_model`".to_string(), None))
    } else {
        let detect = match d.detect {
            Some(v) => v,
            None => Vec::new(),
        };
        let m = MappingMeta {
            doc_format: d.doc_format.unwrap(),
            format_version: d.format_version.unwrap(),
            mapping_version: d.mapping_version.unwrap(),
            canonical_model: d.canonical_model.unwrap(),
            root: d.root,
            source_model: d.source_model,
            detect,
            inherits: d.inherits,
            disabled: d.disabled.unwrap_or(false),
            description: d.description,
        };
        assert(m@ =~= meta_finish(d.deep_view())->Ok_0);
        Ok(m)
    }
}

/// The error for a list of the wrong length.
fn wrong_length_error(n: usize, expected: &str) -> (out: String)
    ensures
        out@ == wrong_length(n as nat, expected@),
{
    let mut out = "invalid length ".to_string();
    out.push_str(decimal_of(n as u64).as_str());
    out.push_str(", expected ");
    out.push_str(expected);
    out
}

/// The meta table a value writes.
pub fn decode_meta(v: &TomlValue) -> (r: Result<MappingMeta, String>)
    ensures
        outcome(r) == meta_value(v@),
{
    proof {
        lemma_tree(*v);
    }
    match v {
        TomlValue::Table(entries) => match decode_meta_entries(entries) {
            Err(e) => Err(e),
            Ok(d) => finish_meta(d),
        },
        TomlValue::Array(items) => {
            let n = items.len();
            let count: usize = if n <= 10 {
                n
            } else {
                10
            };
            proof {
                if n <= 10 {
                    assert(items.deep_view().take(n as int) =~= items.deep_view());
                }
            }
            match decode_meta_items(items, count) {
                Err(e) => Err(e),
                Ok(d) => {
                    if n < 4 {
                        Err(
                            report(
                                wrong_length_error(n, "struct MappingMeta with 10 elements"),
                                None,
                            ),
                        )
                    } else if n > 10 {
                        Err(report(wrong_length_error(n, "fewer elements in array"), None))
                    } else {
                        finish_meta(d)
                    }
                },
            }
        },
        _ => Err(report(wrong_type_error(v, "struct MappingMeta"), None)),
    }
}

/// The mapping that a TOML document writes.
///
/// # Errors
///
/// An error for a missing or malformed `meta` entry, for a top-level entry that
/// is no table, and for a node with an unknown or ill-typed field.
pub fn parse_document(root: &Vec<(String, TomlValue)>) -> (r: Result<ParsedMapping, ConfigError>)
    ensures
        outcome(r) == document_mapping(root.deep_view()),
{
    let ghost views = root.deep_view();
    let mut at: usize = 0;
    assert(views.skip(0) =~= views);
    while at < root.len() && !same(root[at].0.as_str(), "meta")
        invariant
            at <= root.len(),
            views == root.deep_view(),
            entry(views, "meta"@) == entry(views.skip(at as int), "meta"@),
        decreases root.len() - at,
    {
        proof {
            assert(views.skip(at as int).drop_first() =~= views.skip(at + 1));
            assert(views[at as int] == (root@[at as int].0@, root@[at as int].1@));
        }
        at += 1;
    }
    if at == root.len() {
        return Err(ConfigError::msg("missing required [meta] table".to_string()));
    }
    assert(views[at as int] == (root@[at as int].0@, root@[at as int].1@));
    let meta = match decode_meta(&root[at].1) {
        Err(e) => {
            return Err(ConfigError::msg(e));
        },
        Ok(m) => m,
    };
    let mut nodes: OrdMap<NodeId, RawNode> = OrdMap::new();
    let mut i: usize = 0;
    while i < root.len()
        invariant
            i <= root.len(),
            views == root.deep_view(),
            at < root.len(),
            entry(views, "meta"@) == Some(root@[at as int].1@),
            meta_value(root@[at as int].1@) == Ok::<MetaV, Text>(meta@),
            top_nodes(views.take(i as int)) == Ok::<NodesV, Text>(nodes@),
        decreases root.len() - i,
    {
        proof {
            assert(views.take(i + 1).drop_last() =~= views.take(i as int));
            assert(views[i as int] == (root@[i as int].0@, root@[i as int].1@));
            lemma_tree(root@[i as int].1);
        }
        let key = root[i].0.as_str();
        if !same(key, "meta") {
            match &root[i].1 {
                TomlValue::Table(t) => {
                    match flatten(&NodeId::new(key), t, &mut nodes) {
                        Ok(()) => {},
                        Err(e) => {
                            proof {
                                lemma_top_nodes_fail(views, i + 1);
                            }
                            return Err(e);
                        },
                    }
                },
                _ => {
                    proof {
                        lemma_top_nodes_fail(views, i + 1);
                    }
                    let mut message = "top-level key `".to_string();
                    message.push_str(key);
                    message.push_str("` must be a source-node table, not a bare value");
                    return Err(ConfigError::msg(message));
                },
            }
        }
        i += 1;
    }
    assert(views.take(root.len() as int) =~= views);
    Ok(ParsedMapping { meta, nodes })
}

/// The entries of the root table of a TOML document.
///
/// # Errors
///
/// The error of the TOML parser with its byte range.
pub fn parse_toml(src: &str) -> (r: Result<Vec<(String, TomlValue)>, ConfigError>)
    ensures
        match toml_document(src@) {
            Ok(root) => r matches Ok(t) && t.deep_view() == root,
            Err((message, span)) => r matches Err(e) && e@ == (ConfigErrorV { message, span }),
        },
{
    match toml_parse(src) {
        Err(e) => Err(ConfigError { message: e.message, span: e.span }),
        Ok(root) => Ok(root),
    }
}

/// Parses a mapping file.
///
/// # Errors
///
/// The error of the TOML parser with its byte range, or an error of
/// [`parse_document`].
pub fn parse_mapping(src: &str) -> (r: Result<ParsedMapping, ConfigError>)
    ensures
        outcome(r) == mapping_of(src@),
{
    match parse_toml(src) {
        Err(e) => Err(e),
        Ok(root) => parse_document(&root),
    }
}

} // verus!
