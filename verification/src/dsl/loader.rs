//! Assembling spokes from a set of mapping files: ids, inheritance chains and
//! slugs.
use vstd::prelude::*;

use crate::dsl::error::{config_msg, ConfigError};
use crate::dsl::meta::meta_id;
use crate::dsl::parse::{mapping_of, parse_mapping, ParsedMapping, ParsedV};
use crate::ordmap::{
    ascending, has_key, lemma_lookup_at, lemma_lookup_none, lemma_put_ascending, lemma_put_lookup,
    lookup, member, put, Key, OrdMap, TextSet,
};
use crate::text::{
    char_is_alnum, char_is_digit, char_lower, chars_of, is_alnum, is_digit, lemma_rfind, lower, lt,
    rfind, same, string_of, Text,
};

verus! {

/// A spoke ready to compile: its slug and its inheritance chain, from the base
/// to the leaf.
#[derive(Debug)]
pub struct LoadedSpoke {
    /// The module name of the spoke.
    pub slug: String,
    /// The chain of mappings.
    pub chain: Vec<ParsedMapping>,
}

impl DeepView for LoadedSpoke {
    type V = (Text, Seq<ParsedV>);

    open spec fn deep_view(&self) -> (Text, Seq<ParsedV>) {
        (self.slug@, self.chain.deep_view())
    }
}

/// Every spoke of a directory, and the files it was read from.
#[derive(Debug)]
pub struct LoadOutput {
    /// The spokes, in slug order.
    pub spokes: Vec<LoadedSpoke>,
    /// The mapping files.
    pub files: Vec<String>,
}

/// The model of a [`LoadOutput`].
#[verifier::ext_equal]
pub struct LoadV {
    pub spokes: Seq<(Text, Seq<ParsedV>)>,
    pub files: Seq<Text>,
}

impl DeepView for LoadOutput {
    type V = LoadV;

    open spec fn deep_view(&self) -> LoadV {
        LoadV { spokes: self.spokes.deep_view(), files: self.files.deep_view() }
    }
}

/// A mapping file: its path, and its text or why it could not be read.
pub struct SourceFile {
    /// The path as shown in messages.
    pub path: String,
    /// The text, or the error of reading it.
    pub text: Result<String, String>,
}

/// Mappings by id.
pub type ByIdV = Seq<(Text, ParsedV)>;

// ---------------------------------------------------------------------------
// Slugs
// ---------------------------------------------------------------------------

/// The first `n` characters of a document format with letters and digits in
/// small letters, and each run of other characters as one underscore.
pub open spec fn slug_upto(s: Text, n: int) -> Text
    decreases n,
{
    if n <= 0 {
        Seq::empty()
    } else {
        let head = slug_upto(s, n - 1);
        if is_alnum(s[n - 1]) {
            head.push(lower(s[n - 1]))
        } else if n > 1 && !is_alnum(s[n - 2]) {
            head
        } else {
            head.push('_')
        }
    }
}

/// A text without an underscore at either end.
pub open spec fn strip_underscores(s: Text) -> Text {
    let a = if s.len() > 0 && s[0] == '_' {
        s.drop_first()
    } else {
        s
    };
    if a.len() > 0 && a.last() == '_' {
        a.drop_last()
    } else {
        a
    }
}

/// The slug of a document format, if it yields an identifier.
pub open spec fn slug(doc_format: Text) -> Result<Text, Text> {
    let s = strip_underscores(slug_upto(doc_format, doc_format.len() as int));
    if s.len() == 0 || is_digit(s[0]) {
        Err("doc_format `"@ + doc_format + "` does not yield a valid Rust identifier"@)
    } else {
        Ok(s)
    }
}

/// The module name of a document format.
///
/// # Errors
///
/// An error if nothing is left of the format, or what is left starts with a
/// digit.
pub fn slug_of(doc_format: &str) -> (r: Result<String, ConfigError>)
    ensures
        match slug(doc_format@) {
            Ok(s) => r matches Ok(o) && o@ == s,
            Err(e) => r matches Err(c) && c@ == config_msg(e),
        },
{
    let chars = chars_of(doc_format);
    let mut raw: Vec<char> = Vec::new();
    let mut i: usize = 0;
    while i < chars.len()
        invariant
            i <= chars.len(),
            raw@ == slug_upto(chars@, i as int),
        decreases chars.len() - i,
    {
        if char_is_alnum(chars[i]) {
            raw.push(char_lower(chars[i]));
        } else if i == 0 || char_is_alnum(chars[i - 1]) {
            raw.push('_');
        }
        i += 1;
    }
    let mut from: usize = 0;
    let mut to: usize = raw.len();
    if from < to && raw[from] == '_' {
        from += 1;
    }
    if from < to && raw[to - 1] == '_' {
        to -= 1;
    }
    let ghost s = strip_underscores(raw@);
    assert(raw@.subrange(from as int, to as int) =~= s);
    if from == to || char_is_digit(raw[from]) {
        let mut message = "doc_format `".to_string();
        message.push_str(doc_format);
        message.push_str("` does not yield a valid Rust identifier");
        return Err(ConfigError::msg(message));
    }
    Ok(string_of(&raw, from, to))
}

/// A slug is made of small letters, digits and underscores, and starts with a
/// small letter.
pub proof fn law_slug_is_identifier(doc_format: Text)
    requires
        slug(doc_format) is Ok,
    ensures
        ({
            let s = slug(doc_format)->Ok_0;
            &&& s.len() > 0
            &&& crate::text::is_lower(s[0])
            &&& forall|i: int|
                0 <= i < s.len() ==> crate::text::is_lower(#[trigger] s[i]) || is_digit(s[i])
                    || s[i] == '_'
        }),
{
    let raw = slug_upto(doc_format, doc_format.len() as int);
    lemma_slug_chars(doc_format, doc_format.len() as int);
    let s = slug(doc_format)->Ok_0;
    let off: int = if raw.len() > 0 && raw[0] == '_' {
        1
    } else {
        0
    };
    assert forall|i: int| 0 <= i < s.len() implies crate::text::is_lower(#[trigger] s[i])
        || is_digit(s[i]) || s[i] == '_' by {
        assert(s[i] == raw[i + off]);
    }
    assert(s[0] == raw[off]);
}

/// The slug of a slug is itself.
pub proof fn law_slug_of_slug(doc_format: Text)
    requires
        slug(doc_format) is Ok,
    ensures
        slug(slug(doc_format)->Ok_0) == slug(doc_format),
{
    let raw = slug_upto(doc_format, doc_format.len() as int);
    let s = slug(doc_format)->Ok_0;
    lemma_slug_chars(doc_format, doc_format.len() as int);
    law_slug_is_identifier(doc_format);
    let off: int = if raw.len() > 0 && raw[0] == '_' {
        1
    } else {
        0
    };
    assert forall|i: int| 0 <= i < s.len() implies #[trigger] s[i] == raw[i + off] by {}
    assert forall|i: int| 0 <= i < s.len() - 1 && #[trigger] s[i] == '_' implies s[i + 1]
        != '_' by {
        assert(raw[i + off] == '_');
        assert(s[i + 1] == raw[i + 1 + off]);
    }
    if s.last() == '_' {
        assert(s[s.len() - 1] == raw[s.len() - 1 + off]);
    }
    lemma_slug_again(s, s.len() as int);
    assert(s.take(s.len() as int) =~= s);
}

/// The slug of small letters, digits and single underscores is the text itself.
proof fn lemma_slug_again(s: Text, n: int)
    requires
        0 <= n <= s.len(),
        s.len() > 0 ==> s[0] != '_',
        forall|i: int|
            0 <= i < s.len() ==> crate::text::is_lower(#[trigger] s[i]) || is_digit(s[i]) || s[i]
                == '_',
        forall|i: int| 0 <= i < s.len() - 1 && #[trigger] s[i] == '_' ==> s[i + 1] != '_',
    ensures
        slug_upto(s, n) == s.take(n),
    decreases n,
{
    if n > 0 {
        lemma_slug_again(s, n - 1);
        assert(s.take(n) =~= s.take(n - 1).push(s[n - 1]));
        if n > 1 && s[n - 2] == '_' {
            assert(s[n - 2 + 1] != '_');
        }
    } else {
        assert(s.take(0) =~= Seq::<char>::empty());
    }
}

proof fn lemma_slug_chars(s: Text, n: int)
    requires
        0 <= n <= s.len(),
    ensures
        forall|i: int|
            0 <= i < slug_upto(s, n).len() ==> crate::text::is_lower(
                #[trigger] slug_upto(s, n)[i],
            ) || is_digit(slug_upto(s, n)[i]) || slug_upto(s, n)[i] == '_',
        n > 0 && is_alnum(s[n - 1]) ==> slug_upto(s, n).len() > 0 && slug_upto(s, n).last() != '_',
        forall|i: int|
            0 <= i < slug_upto(s, n).len() - 1 && #[trigger] slug_upto(s, n)[i] == '_'
                ==> slug_upto(s, n)[i + 1] != '_',
    decreases n,
{
    if n > 0 {
        lemma_slug_chars(s, n - 1);
        let a = slug_upto(s, n - 1);
        let b = slug_upto(s, n);
        assert forall|i: int| 0 <= i < b.len() implies crate::text::is_lower(#[trigger] b[i])
            || is_digit(b[i]) || b[i] == '_' by {
            if i < a.len() {
                assert(b[i] == a[i]);
            }
        }
        assert forall|i: int| 0 <= i < b.len() - 1 && #[trigger] b[i] == '_' implies b[i + 1]
            != '_' by {
            if i + 1 < a.len() {
                assert(b[i] == a[i] && b[i + 1] == a[i + 1]);
            } else if b.len() > a.len() {
                assert(b[i] == a.last());
            } else {
                assert(b[i] == a[i]);
            }
        }
    }
}

// ---------------------------------------------------------------------------
// Inheritance chains
// ---------------------------------------------------------------------------

/// The error for a chain that comes back to a mapping.
pub open spec fn cycle_text(id: Text) -> Text {
    "inheritance cycle through mapping id `"@ + id + "`"@
}

/// The error for a parent that does not exist.
pub open spec fn unknown_parent_text(leaf: Text, parent: Text) -> Text {
    "mapping `"@ + leaf + "` inherits unknown parent `"@ + parent + "`"@
}

/// The ids from the leaf to the base, `ids` having been passed and `cur` being
/// next.
pub open spec fn chain_ids(by_id: ByIdV, leaf: Text, cur: Text, ids: Seq<Text>) -> Result<
    Seq<Text>,
    Text,
>
    decreases by_id.len() + 1 - ids.len(),
{
    if ids.contains(cur) || ids.len() > by_id.len() {
        Err(cycle_text(cur))
    } else {
        match lookup::<String, ParsedV>(by_id, cur) {
            None => Err(unknown_parent_text(leaf, cur)),
            Some(m) => match m.meta.inherits {
                None => Ok(ids.push(cur)),
                Some(parent) => chain_ids(by_id, leaf, parent, ids.push(cur)),
            },
        }
    }
}

/// The mappings of a list of ids, from the last to the first.
pub open spec fn mappings_reversed(by_id: ByIdV, ids: Seq<Text>) -> Seq<ParsedV>
    decreases ids.len(),
{
    if ids.len() == 0 {
        Seq::empty()
    } else {
        seq![lookup::<String, ParsedV>(by_id, ids.last())->0] + mappings_reversed(
            by_id,
            ids.drop_last(),
        )
    }
}

/// The inheritance chain of a mapping, from the base to the leaf.
pub open spec fn chain_of(by_id: ByIdV, leaf: Text) -> Result<Seq<ParsedV>, Text> {
    match chain_ids(by_id, leaf, leaf, Seq::empty()) {
        Err(e) => Err(e),
        Ok(ids) => Ok(mappings_reversed(by_id, ids)),
    }
}

/// Distinct ids of mappings are no more than there are mappings.
proof fn lemma_distinct_ids(by_id: ByIdV, ids: Seq<Text>)
    requires
        ids.no_duplicates(),
        forall|i: int| 0 <= i < ids.len() ==> has_key::<String, ParsedV>(by_id, #[trigger] ids[i]),
    ensures
        ids.len() <= by_id.len(),
{
    broadcast use vstd::seq_lib::seq_to_set_is_finite;

    let keys = by_id.map_values(|e: (Text, ParsedV)| e.0);
    ids.unique_seq_to_set();
    keys.lemma_cardinality_of_set();
    assert(ids.to_set().subset_of(keys.to_set())) by {
        assert forall|k: Text| ids.to_set().contains(k) implies keys.to_set().contains(k) by {
            let i = ids.index_of(k);
            assert(has_key::<String, ParsedV>(by_id, ids[i]));
            crate::ordmap::lemma_lookup_none::<String, ParsedV>(by_id, k);
            let j = choose|j: int| 0 <= j < by_id.len() && (#[trigger] by_id[j]).0 == k;
            assert(keys[j] == k);
        }
    }
    vstd::set_lib::lemma_len_subset(ids.to_set(), keys.to_set());
}

/// Whether a list holds a text.
pub fn holds(list: &Vec<String>, t: &str) -> (r: bool)
    ensures
        r == list.deep_view().contains(t@),
{
    let mut i: usize = 0;
    while i < list.len()
        invariant
            i <= list.len(),
            forall|j: int| 0 <= j < i ==> list.deep_view()[j] != t@,
        decreases list.len() - i,
    {
        if same(list[i].as_str(), t) {
            assert(list.deep_view()[i as int] == t@);
            return true;
        }
        i += 1;
    }
    false
}

/// The mappings of a list of ids, from the last to the first.
fn mappings_from_last(by_id: &OrdMap<String, ParsedMapping>, ids: &Vec<String>) -> (r: Vec<
    ParsedMapping,
>)
    requires
        forall|i: int|
            0 <= i < ids@.len() ==> has_key::<String, ParsedV>(
                by_id@,
                #[trigger] ids.deep_view()[i],
            ),
    ensures
        r.deep_view() == mappings_reversed(by_id@, ids.deep_view()),
{
    let ghost all = ids.deep_view();
    let mut r: Vec<ParsedMapping> = Vec::new();
    let mut i: usize = ids.len();
    assert(all.take(i as int) =~= all);
    assert(r.deep_view() + mappings_reversed(by_id@, all) =~= mappings_reversed(by_id@, all));
    while i > 0
        invariant
            i <= ids.len(),
            all == ids.deep_view(),
            forall|k: int|
                0 <= k < ids@.len() ==> has_key::<String, ParsedV>(
                    by_id@,
                    #[trigger] ids.deep_view()[k],
                ),
            r.deep_view() + mappings_reversed(by_id@, all.take(i as int)) == mappings_reversed(
                by_id@,
                all,
            ),
        decreases i,
    {
        i -= 1;
        let ghost before = r.deep_view();
        assert(has_key::<String, ParsedV>(by_id@, all[i as int]));
        if let Some(m) = by_id.get(&ids[i]) {
            r.push(m.clone());
            proof {
                assert(all.take(i + 1).drop_last() =~= all.take(i as int));
                assert(all.take(i + 1).last() == all[i as int]);
                assert(r.deep_view() =~= before.push(m@));
                let rest = mappings_reversed(by_id@, all.take(i as int));
                assert(before + (seq![m@] + rest) =~= before.push(m@) + rest);
            }
        }
    }
    assert(r.deep_view() + mappings_reversed(by_id@, all.take(0)) =~= r.deep_view());
    r
}

/// The inheritance chain of a mapping, from the base to the leaf.
fn resolve_chain(leaf: &str, by_id: &OrdMap<String, ParsedMapping>) -> (r: Result<
    Vec<ParsedMapping>,
    ConfigError,
>)
    ensures
        match chain_of(by_id@, leaf@) {
            Ok(c) => r matches Ok(o) && o.deep_view() == c,
            Err(e) => r matches Err(c) && c@ == config_msg(e),
        },
{
    let mut ids: Vec<String> = Vec::new();
    let mut cur = leaf.to_string();
    assert(ids.deep_view() =~= Seq::<Text>::empty());
    loop
        invariant
            chain_ids(by_id@, leaf@, leaf@, Seq::empty()) == chain_ids(
                by_id@,
                leaf@,
                cur@,
                ids.deep_view(),
            ),
            ids.deep_view().no_duplicates(),
            forall|i: int|
                0 <= i < ids@.len() ==> has_key::<String, ParsedV>(
                    by_id@,
                    #[trigger] ids.deep_view()[i],
                ),
        decreases by_id@.len() + 1 - ids@.len(),
    {
        proof {
            lemma_distinct_ids(by_id@, ids.deep_view());
        }
        if holds(&ids, cur.as_str()) {
            let mut message = "inheritance cycle through mapping id `".to_string();
            message.push_str(cur.as_str());
            message.push_str("`");
            return Err(ConfigError::msg(message));
        }
        let mapping = match by_id.get(&cur) {
            None => {
                let mut message = "mapping `".to_string();
                message.push_str(leaf);
                message.push_str("` inherits unknown parent `");
                message.push_str(cur.as_str());
                message.push_str("`");
                return Err(ConfigError::msg(message));
            },
            Some(m) => m,
        };
        let ghost before = ids.deep_view();
        ids.push(cur.clone());
        proof {
            assert(ids.deep_view() =~= before.push(cur@));
            assert(before.push(cur@).no_duplicates());
            lemma_distinct_ids(by_id@, ids.deep_view());
        }
        match &mapping.meta.inherits {
            Some(parent) => {
                cur = parent.clone();
            },
            None => {
                return Ok(mappings_from_last(by_id, &ids));
            },
        }
    }
}

/// An inheritance chain is never empty, ends with the mapping it is for, and
/// begins with one that inherits from none.
pub proof fn law_chain_ends_with_leaf(by_id: ByIdV, leaf: Text)
    requires
        chain_of(by_id, leaf) is Ok,
    ensures
        ({
            let c = chain_of(by_id, leaf)->Ok_0;
            &&& c.len() > 0
            &&& lookup::<String, ParsedV>(by_id, leaf) == Some(c.last())
            &&& c[0].meta.inherits is None
        }),
{
    lemma_chain_ids(by_id, leaf, leaf, Seq::empty());
    let ids = chain_ids(by_id, leaf, leaf, Seq::empty())->Ok_0;
    lemma_reversed_ends(by_id, ids);
}

proof fn lemma_chain_ids(by_id: ByIdV, leaf: Text, cur: Text, ids: Seq<Text>)
    requires
        chain_ids(by_id, leaf, cur, ids) is Ok,
    ensures
        ({
            let all = chain_ids(by_id, leaf, cur, ids)->Ok_0;
            &&& all.len() > ids.len()
            &&& all.take(ids.len() as int) == ids
            &&& all[ids.len() as int] == cur
            &&& lookup::<String, ParsedV>(by_id, all.last()) matches Some(m)
                && m.meta.inherits is None
            &&& lookup::<String, ParsedV>(by_id, cur) is Some
        }),
    decreases by_id.len() + 1 - ids.len(),
{
    let m = lookup::<String, ParsedV>(by_id, cur)->0;
    let all = chain_ids(by_id, leaf, cur, ids)->Ok_0;
    match m.meta.inherits {
        None => {
            assert(ids.push(cur).take(ids.len() as int) =~= ids);
        },
        Some(parent) => {
            lemma_chain_ids(by_id, leaf, parent, ids.push(cur));
            let longer = all.take((ids.len() + 1) as int);
            assert(longer == ids.push(cur));
            assert(all.take(ids.len() as int) =~= longer.take(ids.len() as int));
            assert(ids.push(cur).take(ids.len() as int) =~= ids);
            assert(all[ids.len() as int] == longer[ids.len() as int]);
        },
    }
}

proof fn lemma_reversed_ends(by_id: ByIdV, ids: Seq<Text>)
    requires
        ids.len() > 0,
    ensures
        mappings_reversed(by_id, ids).len() == ids.len(),
        mappings_reversed(by_id, ids).last() == lookup::<String, ParsedV>(by_id, ids[0])->0,
        mappings_reversed(by_id, ids)[0] == lookup::<String, ParsedV>(by_id, ids.last())->0,
    decreases ids.len(),
{
    if ids.len() > 1 {
        lemma_reversed_ends(by_id, ids.drop_last());
    } else {
        assert(mappings_reversed(by_id, ids.drop_last()) =~= Seq::empty());
    }
}

// ---------------------------------------------------------------------------
// Loading
// ---------------------------------------------------------------------------

/// The id of a mapping.
pub fn mapping_id(mapping: &ParsedMapping) -> (s: String)
    ensures
        s@ == meta_id(mapping@.meta),
{
    mapping.meta.id()
}

/// The mappings of the first `n` files by id, or the first thing that is wrong.
pub open spec fn collected(files: Seq<SourceFile>, n: int) -> Result<ByIdV, Text>
    decreases n,
{
    if n <= 0 {
        Ok(Seq::empty())
    } else {
        match collected(files, n - 1) {
            Err(e) => Err(e),
            Ok(acc) => {
                let path = files[n - 1].path@;
                match files[n - 1].text {
                    Err(e) => Err("cannot read `"@ + path + "`: "@ + e@),
                    Ok(src) => match mapping_of(src@) {
                        Err(e) => Err(path + ": "@ + e.message),
                        Ok(m) => if has_key::<String, ParsedV>(acc, meta_id(m.meta)) {
                            Err(
                                "two spokes share the same mapping id `"@ + meta_id(m.meta) + "`"@,
                            )
                        } else {
                            Ok(put::<String, ParsedV>(acc, meta_id(m.meta), m))
                        },
                    },
                }
            },
        }
    }
}

/// The spokes of the first `n` mappings by slug, or the first thing that is
/// wrong. A disabled mapping is no spoke, but its chain must hold too.
pub open spec fn assembled(by_id: ByIdV, n: int) -> Result<Seq<(Text, Seq<ParsedV>)>, Text>
    decreases n,
{
    if n <= 0 {
        Ok(Seq::empty())
    } else {
        match assembled(by_id, n - 1) {
            Err(e) => Err(e),
            Ok(acc) => {
                let (id, m) = by_id[n - 1];
                if m.meta.disabled {
                    match chain_of(by_id, id) {
                        Err(e) => Err(e),
                        Ok(_) => Ok(acc),
                    }
                } else {
                    match slug(m.meta.doc_format) {
                        Err(e) => Err(e),
                        Ok(s) => if has_key::<String, Seq<ParsedV>>(acc, s) {
                            Err(
                                "two spokes derive the same name `"@ + s + "` from doc_format `"@
                                    + m.meta.doc_format + "`"@,
                            )
                        } else {
                            match chain_of(by_id, id) {
                                Err(e) => Err(e),
                                Ok(c) => Ok(put::<String, Seq<ParsedV>>(acc, s, c)),
                            }
                        },
                    }
                }
            },
        }
    }
}

/// The paths of a list of files.
pub open spec fn paths_of(files: Seq<SourceFile>) -> Seq<Text> {
    files.map_values(|f: SourceFile| f.path@)
}

/// What a directory with these files loads to.
pub open spec fn loaded(dir: Text, files: Seq<SourceFile>) -> Result<LoadV, Text> {
    match collected(files, files.len() as int) {
        Err(e) => Err(e),
        Ok(by_id) => if by_id.len() == 0 {
            Err("no `*.toml` spokes found in `"@ + dir + "`"@)
        } else {
            match assembled(by_id, by_id.len() as int) {
                Err(e) => Err(e),
                Ok(spokes) => Ok(LoadV { spokes, files: paths_of(files) }),
            }
        },
    }
}

proof fn lemma_collected_fail(files: Seq<SourceFile>, n: int)
    requires
        0 <= n <= files.len(),
        collected(files, n) is Err,
    ensures
        collected(files, files.len() as int) == collected(files, n),
    decreases files.len() - n,
{
    if n < files.len() {
        assert(collected(files, n + 1) == collected(files, n));
        lemma_collected_fail(files, n + 1);
    }
}

proof fn lemma_assembled_fail(by_id: ByIdV, n: int)
    requires
        0 <= n <= by_id.len(),
        assembled(by_id, n) is Err,
    ensures
        assembled(by_id, by_id.len() as int) == assembled(by_id, n),
    decreases by_id.len() - n,
{
    if n < by_id.len() {
        assert(assembled(by_id, n + 1) == assembled(by_id, n));
        lemma_assembled_fail(by_id, n + 1);
    }
}

proof fn lemma_assembled_chains(by_id: ByIdV, n: int)
    requires
        0 <= n <= by_id.len(),
        assembled(by_id, n) is Ok,
    ensures
        ascending::<String, Seq<ParsedV>>(assembled(by_id, n)->Ok_0),
        forall|i: int|
            0 <= i < assembled(by_id, n)->Ok_0.len() ==> (#[trigger] assembled(
                by_id,
                n,
            )->Ok_0[i]).1.len() > 0,
    decreases n,
{
    if n > 0 {
        lemma_assembled_chains(by_id, n - 1);
        let acc = assembled(by_id, n - 1)->Ok_0;
        let (id, m) = by_id[n - 1];
        if !m.meta.disabled {
            let s = slug(m.meta.doc_format)->Ok_0;
            let c = chain_of(by_id, id)->Ok_0;
            law_chain_ends_with_leaf(by_id, id);
            let after = put::<String, Seq<ParsedV>>(acc, s, c);
            lemma_put_ascending::<String, Seq<ParsedV>>(acc, s, c);
            assert forall|i: int| 0 <= i < after.len() implies (#[trigger] after[i]).1.len()
                > 0 by {
                lemma_lookup_at::<String, Seq<ParsedV>>(after, i);
                lemma_put_lookup::<String, Seq<ParsedV>>(acc, s, c, after[i].0);
                lemma_lookup_none::<String, Seq<ParsedV>>(acc, after[i].0);
            }
        }
    }
}

/// Every spoke that a directory loads to has a chain with a mapping in it, and
/// the spokes stand in slug order.
pub proof fn law_loaded_chains_are_not_empty(dir: Text, files: Seq<SourceFile>)
    requires
        loaded(dir, files) is Ok,
    ensures
        ascending::<String, Seq<ParsedV>>(loaded(dir, files)->Ok_0.spokes),
        forall|i: int|
            0 <= i < loaded(dir, files)->Ok_0.spokes.len() ==> (#[trigger] loaded(
                dir,
                files,
            )->Ok_0.spokes[i]).1.len() > 0,
{
    let by_id = collected(files, files.len() as int)->Ok_0;
    lemma_assembled_chains(by_id, by_id.len() as int);
}

/// Whether a spoke is that of an enabled mapping.
pub open spec fn spoke_of_mapping(
    by_id: ByIdV,
    i: int,
    spoke: (Text, Seq<ParsedV>),
) -> bool {
    &&& !by_id[i].1.meta.disabled
    &&& slug(by_id[i].1.meta.doc_format) == Ok::<Text, Text>(spoke.0)
    &&& chain_of(by_id, by_id[i].0) == Ok::<Seq<ParsedV>, Text>(spoke.1)
}

/// Whether a spoke is that of one of the first `n` mappings.
pub open spec fn comes_from(by_id: ByIdV, n: int, spoke: (Text, Seq<ParsedV>)) -> bool {
    exists|i: int| 0 <= i < n && #[trigger] spoke_of_mapping(by_id, i, spoke)
}

proof fn lemma_assembled_spokes(by_id: ByIdV, n: int)
    requires
        0 <= n <= by_id.len(),
        assembled(by_id, n) is Ok,
    ensures
        ascending::<String, Seq<ParsedV>>(assembled(by_id, n)->Ok_0),
        forall|i: int| 0 <= i < n ==> chain_of(by_id, (#[trigger] by_id[i]).0) is Ok,
        forall|i: int|
            0 <= i < n && !(#[trigger] by_id[i]).1.meta.disabled ==> slug(
                by_id[i].1.meta.doc_format,
            ) is Ok && chain_of(by_id, by_id[i].0) is Ok && lookup::<String, Seq<ParsedV>>(
                assembled(by_id, n)->Ok_0,
                slug(by_id[i].1.meta.doc_format)->Ok_0,
            ) == Some(chain_of(by_id, by_id[i].0)->Ok_0),
        forall|j: int|
            0 <= j < assembled(by_id, n)->Ok_0.len() ==> comes_from(
                by_id,
                n,
                #[trigger] assembled(by_id, n)->Ok_0[j],
            ),
    decreases n,
{
    if n > 0 {
        lemma_assembled_spokes(by_id, n - 1);
        let acc = assembled(by_id, n - 1)->Ok_0;
        let after = assembled(by_id, n)->Ok_0;
        let (id, m) = by_id[n - 1];
        if m.meta.disabled {
            assert forall|j: int| 0 <= j < after.len() implies comes_from(
                by_id,
                n,
                #[trigger] after[j],
            ) by {
                assert(comes_from(by_id, n - 1, acc[j]));
                let i = choose|i: int|
                    0 <= i < n - 1 && #[trigger] spoke_of_mapping(by_id, i, acc[j]);
                assert(spoke_of_mapping(by_id, i, after[j]));
            }
        } else {
            let s = slug(m.meta.doc_format)->Ok_0;
            let c = chain_of(by_id, id)->Ok_0;
            lemma_put_ascending::<String, Seq<ParsedV>>(acc, s, c);
            assert forall|i: int|
                0 <= i < n && !(#[trigger] by_id[i]).1.meta.disabled implies slug(
                by_id[i].1.meta.doc_format,
            ) is Ok && chain_of(by_id, by_id[i].0) is Ok && lookup::<String, Seq<ParsedV>>(
                after,
                slug(by_id[i].1.meta.doc_format)->Ok_0,
            ) == Some(chain_of(by_id, by_id[i].0)->Ok_0) by {
                let q = slug(by_id[i].1.meta.doc_format)->Ok_0;
                lemma_put_lookup::<String, Seq<ParsedV>>(acc, s, c, q);
            }
            assert forall|j: int| 0 <= j < after.len() implies comes_from(
                by_id,
                n,
                #[trigger] after[j],
            ) by {
                lemma_lookup_at::<String, Seq<ParsedV>>(after, j);
                lemma_put_lookup::<String, Seq<ParsedV>>(acc, s, c, after[j].0);
                if after[j].0 == s {
                    assert(spoke_of_mapping(by_id, n - 1, after[j]));
                } else {
                    lemma_lookup_none::<String, Seq<ParsedV>>(acc, after[j].0);
                    let p = choose|p: int|
                        0 <= p < acc.len() && (#[trigger] acc[p]).0 == after[j].0 && Some(acc[p].1)
                            == lookup::<String, Seq<ParsedV>>(acc, after[j].0);
                    assert(comes_from(by_id, n - 1, acc[p]));
                    let i = choose|i: int|
                        0 <= i < n - 1 && #[trigger] spoke_of_mapping(by_id, i, acc[p]);
                    assert(spoke_of_mapping(by_id, i, after[j]));
                }
            }
        }
    }
}

/// A directory loads to one spoke for each of its enabled mappings, under the slug
/// of its document format and with its inheritance chain, and to no others: a
/// disabled mapping is no spoke.
pub proof fn law_enabled_mappings_are_spokes(dir: Text, files: Seq<SourceFile>)
    requires
        loaded(dir, files) is Ok,
    ensures
        ({
            let by_id = collected(files, files.len() as int)->Ok_0;
            let spokes = loaded(dir, files)->Ok_0.spokes;
            &&& forall|i: int|
                0 <= i < by_id.len() && !(#[trigger] by_id[i]).1.meta.disabled ==> slug(
                    by_id[i].1.meta.doc_format,
                ) is Ok && chain_of(by_id, by_id[i].0) is Ok && lookup::<String, Seq<ParsedV>>(
                    spokes,
                    slug(by_id[i].1.meta.doc_format)->Ok_0,
                ) == Some(chain_of(by_id, by_id[i].0)->Ok_0)
            &&& forall|j: int|
                0 <= j < spokes.len() ==> comes_from(
                    by_id,
                    by_id.len() as int,
                    #[trigger] spokes[j],
                )
        }),
{
    let by_id = collected(files, files.len() as int)->Ok_0;
    lemma_assembled_spokes(by_id, by_id.len() as int);
}

/// Where a directory loads, every mapping has an inheritance chain: no mapping, not
/// even a disabled one, inherits from one that does not exist or from itself in a
/// circle.
pub proof fn law_every_chain_holds(dir: Text, files: Seq<SourceFile>)
    requires
        loaded(dir, files) is Ok,
    ensures
        ({
            let by_id = collected(files, files.len() as int)->Ok_0;
            forall|i: int|
                0 <= i < by_id.len() ==> chain_of(by_id, (#[trigger] by_id[i]).0) is Ok
        }),
{
    let by_id = collected(files, files.len() as int)->Ok_0;
    lemma_assembled_spokes(by_id, by_id.len() as int);
}

/// A mapping that inherits from one that does not exist keeps a directory from
/// loading, whether it is disabled or not.
pub proof fn law_unknown_parent_is_fatal(dir: Text, files: Seq<SourceFile>, i: int)
    requires
        collected(files, files.len() as int) is Ok,
        0 <= i < collected(files, files.len() as int)->Ok_0.len(),
        ({
            let by_id = collected(files, files.len() as int)->Ok_0;
            &&& by_id[i].1.meta.inherits is Some
            &&& lookup::<String, ParsedV>(by_id, by_id[i].1.meta.inherits->0) is None
        }),
    ensures
        loaded(dir, files) is Err,
{
    let by_id = collected(files, files.len() as int)->Ok_0;
    let (id, m) = by_id[i];
    let parent = m.meta.inherits->0;
    if loaded(dir, files) is Ok {
        law_every_chain_holds(dir, files);
        lemma_collected(files, files.len() as int);
        lemma_lookup_at::<String, ParsedV>(by_id, i);
        assert(chain_of(by_id, by_id[i].0) is Ok);
        lemma_chain_ids(by_id, id, parent, Seq::empty().push(id));
    }
}

/// Whether a mapping stands under its id in a chain of inheritance.
pub open spec fn linked(by_id: ByIdV, below: ParsedV, above: ParsedV) -> bool {
    &&& below.meta.inherits == Some(meta_id(above.meta))
    &&& lookup::<String, ParsedV>(by_id, meta_id(above.meta)) == Some(above)
}

/// Every mapping of a chain but the first inherits from the one before it.
pub proof fn law_chain_follows_inherits(files: Seq<SourceFile>, leaf: Text)
    requires
        collected(files, files.len() as int) is Ok,
        chain_of(collected(files, files.len() as int)->Ok_0, leaf) is Ok,
    ensures
        ({
            let by_id = collected(files, files.len() as int)->Ok_0;
            let c = chain_of(by_id, leaf)->Ok_0;
            &&& c[0].meta.inherits is None
            &&& forall|i: int| 0 < i < c.len() ==> linked(by_id, #[trigger] c[i], c[i - 1])
        }),
{
    let by_id = collected(files, files.len() as int)->Ok_0;
    law_chain_ends_with_leaf(by_id, leaf);
    lemma_collected(files, files.len() as int);
    lemma_chain_links(by_id, leaf, leaf, Seq::empty());
    let ids = chain_ids(by_id, leaf, leaf, Seq::empty())->Ok_0;
    let c = chain_of(by_id, leaf)->Ok_0;
    lemma_reversed_at(by_id, ids);
    assert forall|i: int| 0 < i < c.len() implies linked(by_id, #[trigger] c[i], c[i - 1]) by {
        let j = ids.len() - 1 - i;
        assert(steps_to(by_id, ids[j], ids[j + 1]));
        assert(c[i] == lookup::<String, ParsedV>(by_id, ids[j])->0);
        assert(c[i - 1] == lookup::<String, ParsedV>(by_id, ids[j + 1])->0);
        lemma_lookup_none::<String, ParsedV>(by_id, ids[j + 1]);
        let p = choose|p: int|
            0 <= p < by_id.len() && (#[trigger] by_id[p]).0 == ids[j + 1] && Some(by_id[p].1)
                == lookup::<String, ParsedV>(by_id, ids[j + 1]);
        assert(meta_id(by_id[p].1.meta) == by_id[p].0);
    }
}

/// The mappings that the spokes of a load stand for have different ids.
pub proof fn law_loaded_ids_differ(dir: Text, files: Seq<SourceFile>, a: int, b: int)
    requires
        loaded(dir, files) is Ok,
        0 <= a < b < loaded(dir, files)->Ok_0.spokes.len(),
    ensures
        ({
            let spokes = loaded(dir, files)->Ok_0.spokes;
            &&& spokes[a].1.len() > 0 && spokes[b].1.len() > 0
            &&& meta_id(spokes[a].1.last().meta) != meta_id(spokes[b].1.last().meta)
        }),
{
    let by_id = collected(files, files.len() as int)->Ok_0;
    let n = by_id.len() as int;
    let spokes = loaded(dir, files)->Ok_0.spokes;
    law_enabled_mappings_are_spokes(dir, files);
    law_loaded_chains_are_not_empty(dir, files);
    lemma_collected(files, files.len() as int);
    assert(comes_from(by_id, n, spokes[a]) && comes_from(by_id, n, spokes[b]));
    let i = choose|i: int| 0 <= i < n && #[trigger] spoke_of_mapping(by_id, i, spokes[a]);
    let j = choose|j: int| 0 <= j < n && #[trigger] spoke_of_mapping(by_id, j, spokes[b]);
    law_chain_ends_with_leaf(by_id, by_id[i].0);
    law_chain_ends_with_leaf(by_id, by_id[j].0);
    lemma_lookup_at::<String, ParsedV>(by_id, i);
    lemma_lookup_at::<String, ParsedV>(by_id, j);
    assert(meta_id(by_id[i].1.meta) == by_id[i].0);
    assert(meta_id(by_id[j].1.meta) == by_id[j].0);
    assert(<String as Key>::before(spokes[a].0, spokes[b].0));
    <String as Key>::irreflexive(spokes[a].0);
}

/// Whether `id` is that of a mapping that inherits from `parent`, which exists.
spec fn steps_to(by_id: ByIdV, id: Text, parent: Text) -> bool {
    &&& lookup::<String, ParsedV>(by_id, id) matches Some(m) && m.meta.inherits == Some(parent)
    &&& lookup::<String, ParsedV>(by_id, parent) is Some
}

proof fn lemma_chain_links(by_id: ByIdV, leaf: Text, cur: Text, ids: Seq<Text>)
    requires
        chain_ids(by_id, leaf, cur, ids) is Ok,
        ids.len() > 0 ==> lookup::<String, ParsedV>(by_id, ids.last()) is Some && lookup::<
            String,
            ParsedV,
        >(by_id, ids.last())->0.meta.inherits == Some(cur),
        forall|j: int|
            0 <= j < ids.len() - 1 ==> #[trigger] steps_to(by_id, ids[j], ids[j + 1]),
    ensures
        ({
            let all = chain_ids(by_id, leaf, cur, ids)->Ok_0;
            forall|j: int|
                0 <= j < all.len() - 1 ==> #[trigger] steps_to(by_id, all[j], all[j + 1])
        }),
    decreases by_id.len() + 1 - ids.len(),
{
    let m = lookup::<String, ParsedV>(by_id, cur)->0;
    let grown = ids.push(cur);
    assert forall|j: int| 0 <= j < grown.len() - 1 implies #[trigger] steps_to(
        by_id,
        grown[j],
        grown[j + 1],
    ) by {
        if j < ids.len() - 1 {
            assert(steps_to(by_id, ids[j], ids[j + 1]));
        } else {
            assert(grown[j] == ids.last());
        }
    }
    match m.meta.inherits {
        None => {},
        Some(parent) => {
            lemma_chain_links(by_id, leaf, parent, grown);
        },
    }
}

proof fn lemma_reversed_at(by_id: ByIdV, ids: Seq<Text>)
    ensures
        mappings_reversed(by_id, ids).len() == ids.len(),
        forall|i: int|
            0 <= i < ids.len() ==> #[trigger] mappings_reversed(by_id, ids)[i] == lookup::<
                String,
                ParsedV,
            >(by_id, ids[ids.len() - 1 - i])->0,
    decreases ids.len(),
{
    if ids.len() > 0 {
        let rest = ids.drop_last();
        lemma_reversed_at(by_id, rest);
        let all = mappings_reversed(by_id, ids);
        assert forall|i: int| 0 <= i < ids.len() implies #[trigger] all[i] == lookup::<
            String,
            ParsedV,
        >(by_id, ids[ids.len() - 1 - i])->0 by {
            if i > 0 {
                assert(all[i] == mappings_reversed(by_id, rest)[i - 1]);
                assert(rest[rest.len() - 1 - (i - 1)] == ids[ids.len() - 1 - i]);
            }
        }
    }
}

/// The collected mappings ascend by id, and each stands under its own.
proof fn lemma_collected(files: Seq<SourceFile>, n: int)
    requires
        0 <= n <= files.len(),
        collected(files, n) is Ok,
    ensures
        ascending::<String, ParsedV>(collected(files, n)->Ok_0),
        forall|i: int|
            0 <= i < collected(files, n)->Ok_0.len() ==> (#[trigger] collected(
                files,
                n,
            )->Ok_0[i]).0 == meta_id(collected(files, n)->Ok_0[i].1.meta),
    decreases n,
{
    if n > 0 {
        lemma_collected(files, n - 1);
        let acc = collected(files, n - 1)->Ok_0;
        let m = mapping_of(files[n - 1].text->Ok_0@)->Ok_0;
        let id = meta_id(m.meta);
        let after = put::<String, ParsedV>(acc, id, m);
        assert(after == collected(files, n)->Ok_0);
        lemma_put_ascending::<String, ParsedV>(acc, id, m);
        assert forall|i: int| 0 <= i < after.len() implies (#[trigger] after[i]).0 == meta_id(
            after[i].1.meta,
        ) by {
            lemma_lookup_at::<String, ParsedV>(after, i);
            lemma_put_lookup::<String, ParsedV>(acc, id, m, after[i].0);
            lemma_lookup_none::<String, ParsedV>(acc, after[i].0);
        }
    }
}

/// Whether a file holds a mapping: `toml` is the extension of its name. A name that
/// only begins with a dot has no extension.
pub open spec fn is_mapping_file(name: Text) -> bool {
    rfind(name, '.') > 0 && name.skip(rfind(name, '.') + 1) == "toml"@
}

/// Whether a file holds a mapping.
fn has_mapping_name(name: &str) -> (r: bool)
    ensures
        r == is_mapping_file(name@),
{
    let chars = chars_of(name);
    proof {
        lemma_rfind(name@, '.');
    }
    let mut i: usize = chars.len();
    while i > 0 && chars[i - 1] != '.'
        invariant
            i <= chars@.len(),
            chars@ == name@,
            forall|j: int| i <= j < chars@.len() ==> chars@[j] != '.',
        decreases i,
    {
        i -= 1;
    }
    if i < 2 {
        return false;
    }
    let extension = string_of(&chars, i, chars.len());
    assert(rfind(name@, '.') == i - 1);
    assert(extension@ =~= name@.skip(i as int));
    same(extension.as_str(), "toml")
}

/// Whether each text of a list precedes the next.
pub open spec fn texts_ascend(list: Seq<Text>) -> bool {
    forall|i: int, j: int| 0 <= i < j < list.len() ==> lt(#[trigger] list[i], #[trigger] list[j])
}

/// The mapping files among the entries of a directory, sorted.
pub fn mapping_files(names: Vec<String>) -> (r: Vec<String>)
    ensures
        texts_ascend(r.deep_view()),
        forall|name: Text| #[trigger]
            r.deep_view().contains(name) <==> names.deep_view().contains(name)
                && is_mapping_file(name),
{
    let ghost all = names.deep_view();
    let mut kept: TextSet = OrdMap::new();
    let mut i: usize = 0;
    while i < names.len()
        invariant
            i <= names.len(),
            all == names.deep_view(),
            forall|name: Text| #[trigger]
                member(kept@, name) <==> all.take(i as int).contains(name)
                    && is_mapping_file(name),
        decreases names.len() - i,
    {
        kept.sorted();
        let ghost before = kept@;
        let ghost this = names@[i as int]@;
        let keep = has_mapping_name(names[i].as_str());
        if keep {
            kept.insert(names[i].clone(), ());
        }
        proof {
            let (a, b) = (all.take(i as int), all.take(i + 1));
            assert(b =~= a.push(this));
            assert forall|name: Text| #[trigger]
                member(kept@, name) <==> b.contains(name) && is_mapping_file(name) by {
                if keep {
                    lemma_put_lookup::<String, ()>(before, this, (), name);
                }
                assert(member(before, name) <==> a.contains(name) && is_mapping_file(name));
                if a.contains(name) {
                    let k = a.index_of(name);
                    assert(b[k] == name);
                }
                if b.contains(name) && name != this {
                    let k = b.index_of(name);
                    assert(a[k] == name);
                }
                assert(b[i as int] == this);
            }
        }
        i += 1;
    }
    assert(all.take(i as int) =~= all);
    kept.sorted();
    let mut r: Vec<String> = Vec::new();
    let mut k: usize = 0;
    while k < kept.len()
        invariant
            k <= kept@.len(),
            r@.len() == k,
            forall|j: int| 0 <= j < k ==> #[trigger] r.deep_view()[j] == kept@[j].0,
        decreases kept@.len() - k,
    {
        let ghost before = r.deep_view();
        r.push(kept.key_at(k).clone());
        assert(r.deep_view() =~= before.push(kept@[k as int].0));
        k += 1;
    }
    proof {
        let out = r.deep_view();
        assert forall|a: int, b: int| 0 <= a < b < out.len() implies lt(
            #[trigger] out[a],
            #[trigger] out[b],
        ) by {
            assert(<String as Key>::before(kept@[a].0, kept@[b].0));
        }
        assert forall|name: Text| #[trigger]
            out.contains(name) <==> all.contains(name) && is_mapping_file(name) by {
            assert(member(kept@, name) <==> all.contains(name) && is_mapping_file(name));
            lemma_lookup_none::<String, ()>(kept@, name);
            if out.contains(name) {
                let j = out.index_of(name);
                lemma_lookup_at::<String, ()>(kept@, j);
            }
            if member(kept@, name) {
                let j = choose|j: int| 0 <= j < kept@.len() && (#[trigger] kept@[j]).0 == name;
                assert(out[j] == name);
            }
        }
    }
    r
}

/// The mappings of all files by id.
fn collect(files: &Vec<SourceFile>) -> (r: Result<OrdMap<String, ParsedMapping>, ConfigError>)
    ensures
        match collected(files@, files@.len() as int) {
            Ok(m) => r matches Ok(o) && o@ == m,
            Err(e) => r matches Err(c) && c@ == config_msg(e),
        },
{
    let mut by_id: OrdMap<String, ParsedMapping> = OrdMap::new();
    let mut i: usize = 0;
    while i < files.len()
        invariant
            i <= files.len(),
            collected(files@, i as int) == Ok::<ByIdV, Text>(by_id@),
        decreases files.len() - i,
    {
        let path = files[i].path.as_str();
        match &files[i].text {
            Err(e) => {
                proof {
                    lemma_collected_fail(files@, i + 1);
                }
                let mut message = "cannot read `".to_string();
                message.push_str(path);
                message.push_str("`: ");
                message.push_str(e.as_str());
                return Err(ConfigError::msg(message));
            },
            Ok(src) => match parse_mapping(src.as_str()) {
                Err(e) => {
                    proof {
                        lemma_collected_fail(files@, i + 1);
                    }
                    let mut message = path.to_string();
                    message.push_str(": ");
                    message.push_str(e.message.as_str());
                    return Err(ConfigError::msg(message));
                },
                Ok(mapping) => {
                    let id = mapping_id(&mapping);
                    if by_id.contains_key(&id) {
                        proof {
                            lemma_collected_fail(files@, i + 1);
                        }
                        let mut message = "two spokes share the same mapping id `".to_string();
                        message.push_str(id.as_str());
                        message.push_str("`");
                        return Err(ConfigError::msg(message));
                    }
                    by_id.insert(id, mapping);
                },
            },
        }
        i += 1;
    }
    Ok(by_id)
}

/// The spokes of the mappings by slug.
fn assemble(by_id: &OrdMap<String, ParsedMapping>) -> (r: Result<
    OrdMap<String, Vec<ParsedMapping>>,
    ConfigError,
>)
    ensures
        match assembled(by_id@, by_id@.len() as int) {
            Ok(m) => r matches Ok(o) && o@ == m,
            Err(e) => r matches Err(c) && c@ == config_msg(e),
        },
{
    let mut spokes: OrdMap<String, Vec<ParsedMapping>> = OrdMap::new();
    let mut i: usize = 0;
    while i < by_id.len()
        invariant
            i <= by_id@.len(),
            assembled(by_id@, i as int) == Ok::<Seq<(Text, Seq<ParsedV>)>, Text>(spokes@),
        decreases by_id@.len() - i,
    {
        let mapping = by_id.value_at(i);
        if mapping.meta.disabled {
            if let Err(e) = resolve_chain(by_id.key_at(i).as_str(), by_id) {
                proof {
                    lemma_assembled_fail(by_id@, i + 1);
                }
                return Err(e);
            }
        } else {
            let name = match slug_of(mapping.meta.doc_format.as_str()) {
                Err(e) => {
                    proof {
                        lemma_assembled_fail(by_id@, i + 1);
                    }
                    return Err(e);
                },
                Ok(s) => s,
            };
            if spokes.contains_key(&name) {
                proof {
                    lemma_assembled_fail(by_id@, i + 1);
                }
                let mut message = "two spokes derive the same name `".to_string();
                message.push_str(name.as_str());
                message.push_str("` from doc_format `");
                message.push_str(mapping.meta.doc_format.as_str());
                message.push_str("`");
                return Err(ConfigError::msg(message));
            }
            match resolve_chain(by_id.key_at(i).as_str(), by_id) {
                Err(e) => {
                    proof {
                        lemma_assembled_fail(by_id@, i + 1);
                    }
                    return Err(e);
                },
                Ok(chain) => {
                    spokes.insert(name, chain);
                },
            }
        }
        i += 1;
    }
    Ok(spokes)
}

/// A copy of an inheritance chain.
fn clone_chain(chain: &Vec<ParsedMapping>) -> (r: Vec<ParsedMapping>)
    ensures
        r.deep_view() == chain.deep_view(),
{
    let mut r: Vec<ParsedMapping> = Vec::new();
    let mut i: usize = 0;
    while i < chain.len()
        invariant
            i <= chain.len(),
            r.deep_view() =~= chain.deep_view().take(i as int),
        decreases chain.len() - i,
    {
        let ghost before = r.deep_view();
        r.push(chain[i].clone());
        assert(r.deep_view() =~= before.push(chain.deep_view()[i as int]));
        i += 1;
    }
    assert(chain.deep_view().take(chain.len() as int) =~= chain.deep_view());
    r
}

/// Loads the spokes of a directory from its mapping files, given in the order of
/// their paths.
///
/// # Errors
///
/// An error for a file that cannot be read or parsed, for two mappings with one
/// id, for a directory without mappings, for a document format without a slug,
/// for two spokes with one slug, and for a broken inheritance chain, that of a
/// disabled mapping included.
pub fn load_files(dir: &str, files: &Vec<SourceFile>) -> (r: Result<LoadOutput, ConfigError>)
    ensures
        match loaded(dir@, files@) {
            Ok(l) => r matches Ok(o) && o.deep_view() == l,
            Err(e) => r matches Err(c) && c@ == config_msg(e),
        },
        r matches Ok(o) ==> forall|i: int|
            0 <= i < o.spokes@.len() ==> (#[trigger] o.spokes@[i]).chain@.len() > 0,
{
    let by_id = match collect(files) {
        Err(e) => {
            return Err(e);
        },
        Ok(m) => m,
    };
    if by_id.is_empty() {
        let mut message = "no `*.toml` spokes found in `".to_string();
        message.push_str(dir);
        message.push_str("`");
        return Err(ConfigError::msg(message));
    }
    let by_slug = match assemble(&by_id) {
        Err(e) => {
            return Err(e);
        },
        Ok(m) => m,
    };
    let mut spokes: Vec<LoadedSpoke> = Vec::new();
    let mut i: usize = 0;
    while i < by_slug.len()
        invariant
            i <= by_slug@.len(),
            spokes.deep_view() =~= by_slug@.take(i as int),
        decreases by_slug@.len() - i,
    {
        let ghost before = spokes.deep_view();
        let s = LoadedSpoke {
            slug: by_slug.key_at(i).clone(),
            chain: clone_chain(by_slug.value_at(i)),
        };
        spokes.push(s);
        assert(spokes.deep_view() =~= before.push(by_slug@[i as int]));
        i += 1;
    }
    assert(by_slug@.take(by_slug@.len() as int) =~= by_slug@);
    proof {
        law_loaded_chains_are_not_empty(dir@, files@);
        assert forall|k: int| 0 <= k < spokes@.len() implies (#[trigger] spokes@[k]).chain@.len()
            > 0 by {
            assert(spokes.deep_view()[k].1 == spokes@[k].chain.deep_view());
        }
    }
    let mut paths: Vec<String> = Vec::new();
    let mut j: usize = 0;
    while j < files.len()
        invariant
            j <= files.len(),
            paths.deep_view() =~= paths_of(files@).take(j as int),
        decreases files.len() - j,
    {
        let ghost before = paths.deep_view();
        paths.push(files[j].path.clone());
        assert(paths.deep_view() =~= before.push(files@[j as int].path@));
        j += 1;
    }
    assert(paths_of(files@).take(files@.len() as int) =~= paths_of(files@));
    Ok(LoadOutput { spokes, files: paths })
}

} // verus!
