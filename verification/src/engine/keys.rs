//! The canonical keys of a set of spokes, and one spoke's view of them.
use vstd::prelude::*;

use crate::engine::analysis::{lemma_set_of, set_of, text_set};
use crate::engine::spoke::{members, members_of, Spoke, SpokeV};
use crate::engine::table::{aligned, table_text};
use crate::ordmap::{ascending, lookup, member, put, with_member, OrdMap, TextSet, TextSetV};
use crate::text::{decimal, decimal_of, join, join_strings, lt, same, Text};

verus! {

/// The spokes that map a key, and those that require it.
pub struct KeyUse {
    pub definers: TextSet,
    pub requirers: TextSet,
}

/// The spokes that map a key, and those that require it.
#[verifier::ext_equal]
pub struct KeyUseV {
    pub definers: TextSetV,
    pub requirers: TextSetV,
}

impl DeepView for KeyUse {
    type V = KeyUseV;

    open spec fn deep_view(&self) -> KeyUseV {
        KeyUseV { definers: self.definers@, requirers: self.requirers@ }
    }
}

/// Keys and their use, sorted by key.
pub type VocabularyV = Seq<(Text, KeyUseV)>;

/// The use of a key that no spoke maps.
pub open spec fn unused() -> KeyUseV {
    KeyUseV { definers: Seq::empty(), requirers: Seq::empty() }
}

/// The use of a key.
pub open spec fn use_of(v: VocabularyV, key: Text) -> KeyUseV {
    match lookup::<String, KeyUseV>(v, key) {
        Some(u) => u,
        None => unused(),
    }
}

/// The use of a key, with one more spoke that maps it.
pub open spec fn used_by(u: KeyUseV, name: Text, required: bool) -> KeyUseV {
    KeyUseV {
        definers: with_member(u.definers, name),
        requirers: if required {
            with_member(u.requirers, name)
        } else {
            u.requirers
        },
    }
}

/// The vocabulary `v` with the first `n` keys that a spoke maps.
pub open spec fn with_keys(v: VocabularyV, spoke: SpokeV, n: int) -> VocabularyV
    decreases n,
{
    if n <= 0 {
        v
    } else {
        let v = with_keys(v, spoke, n - 1);
        let key = spoke.covered[n - 1];
        put::<String, KeyUseV>(
            v,
            key,
            used_by(use_of(v, key), spoke.name, spoke.required.contains(key)),
        )
    }
}

/// The vocabulary of the first `n` spokes.
pub open spec fn vocabulary(spokes: Seq<SpokeV>, n: int) -> VocabularyV
    decreases n,
{
    if n <= 0 {
        Seq::empty()
    } else {
        with_keys(
            vocabulary(spokes, n - 1),
            spokes[n - 1],
            spokes[n - 1].covered.len() as int,
        )
    }
}

/// One canonical key and the spokes that map and require it.
#[derive(Debug, PartialEq, Eq)]
pub struct KeyInfo {
    /// The label of the key.
    pub key: String,
    /// The names of the spokes that map it, sorted.
    pub defined_by: Vec<String>,
    /// The names of the spokes that require it, sorted.
    pub required_by: Vec<String>,
}

/// The model of a [`KeyInfo`].
#[verifier::ext_equal]
pub struct KeyInfoV {
    pub key: Text,
    pub defined_by: Seq<Text>,
    pub required_by: Seq<Text>,
}

impl View for KeyInfo {
    type V = KeyInfoV;

    open spec fn view(&self) -> KeyInfoV {
        KeyInfoV {
            key: self.key@,
            defined_by: self.defined_by.deep_view(),
            required_by: self.required_by.deep_view(),
        }
    }
}

impl DeepView for KeyInfo {
    type V = KeyInfoV;

    open spec fn deep_view(&self) -> KeyInfoV {
        self@
    }
}

/// The vocabulary as a list of keys.
pub open spec fn infos_of(v: VocabularyV) -> Seq<KeyInfoV> {
    Seq::new(
        v.len(),
        |i: int|
            KeyInfoV {
                key: v[i].0,
                defined_by: members(v[i].1.definers),
                required_by: members(v[i].1.requirers),
            },
    )
}

/// Every canonical key that one of the spokes maps, in order.
pub open spec fn hub_keys_of(spokes: Seq<SpokeV>) -> Seq<KeyInfoV> {
    infos_of(vocabulary(spokes, spokes.len() as int))
}

/// A copy of a set.
fn copy_set(s: &TextSet) -> (r: TextSet)
    ensures
        r@ == s@,
{
    let mut r: TextSet = OrdMap::new();
    s.sorted();
    let mut i: usize = 0;
    while i < s.len()
        invariant
            i <= s@.len(),
            ascending::<String, ()>(s@),
            r@ =~= s@.take(i as int),
        decreases s@.len() - i,
    {
        proof {
            crate::ordmap::lemma_put_last::<String, ()>(s@, i as int);
        }
        r.insert(s.key_at(i).clone(), ());
        i += 1;
    }
    assert(s@.take(i as int) =~= s@);
    r
}

/// Adds the keys that a spoke maps to the vocabulary.
fn add_spoke(acc: &mut OrdMap<String, KeyUse>, spoke: &Spoke)
    ensures
        final(acc)@ == with_keys(old(acc)@, spoke@, spoke@.covered.len() as int),
{
    let ghost start = acc@;
    let required = text_set(spoke.required_keys());
    let covered = spoke.covered_keys();
    let mut i: usize = 0;
    proof {
        lemma_set_of(spoke@.required);
    }
    while i < covered.len()
        invariant
            i <= covered.len(),
            covered.deep_view() == spoke@.covered,
            required@ == set_of(spoke@.required),
            forall|t: Text|
                #[trigger] member(set_of(spoke@.required), t) == spoke@.required.contains(t),
            acc@ == with_keys(start, spoke@, i as int),
        decreases covered.len() - i,
    {
        let key = &covered[i];
        assert(spoke@.covered[i as int] == key@);
        assert(member(required@, key@) == spoke@.required.contains(key@));
        let (mut definers, mut requirers) = match acc.get(key) {
            Some(u) => (copy_set(&u.definers), copy_set(&u.requirers)),
            None => (OrdMap::new(), OrdMap::new()),
        };
        definers.insert(spoke.name.clone(), ());
        if required.contains_key(key) {
            requirers.insert(spoke.name.clone(), ());
        }
        acc.insert(key.clone(), KeyUse { definers, requirers });
        i += 1;
    }
}

/// Builds the list of canonical keys.
fn build_hub_keys(spokes: &[Spoke]) -> (r: Vec<KeyInfo>)
    ensures
        r.deep_view() == hub_keys_of(spokes.deep_view()),
{
    let ghost views = spokes.deep_view();
    let mut acc: OrdMap<String, KeyUse> = OrdMap::new();
    let mut i: usize = 0;
    while i < spokes.len()
        invariant
            i <= spokes.len(),
            views == spokes.deep_view(),
            acc@ == vocabulary(views, i as int),
        decreases spokes.len() - i,
    {
        assert(views[i as int] == spokes@[i as int]@);
        add_spoke(&mut acc, &spokes[i]);
        i += 1;
    }
    let ghost all = infos_of(acc@);
    let mut r: Vec<KeyInfo> = Vec::new();
    let mut i: usize = 0;
    while i < acc.len()
        invariant
            i <= acc@.len(),
            all == infos_of(acc@),
            r.deep_view() =~= all.take(i as int),
        decreases acc@.len() - i,
    {
        let ghost before = r.deep_view();
        let u = acc.value_at(i);
        r.push(
            KeyInfo {
                key: acc.key_at(i).clone(),
                defined_by: members_of(&u.definers),
                required_by: members_of(&u.requirers),
            },
        );
        assert(r.deep_view() =~= before.push(all[i as int]));
        i += 1;
    }
    assert(all.take(i as int) =~= all);
    r
}

/// Every canonical key that one of the spokes maps, with the spokes that map and
/// require it, sorted by key.
pub fn hub_keys(spokes: &[Spoke]) -> (r: Vec<KeyInfo>)
    ensures
        r.deep_view() == hub_keys_of(spokes.deep_view()),
{
    build_hub_keys(spokes)
}

/// Whether one of the first `n` spokes maps a key.
pub open spec fn mapped(spokes: Seq<SpokeV>, n: int, key: Text) -> bool {
    exists|i: int| 0 <= i < n && (#[trigger] spokes[i]).covered.contains(key)
}

/// Whether one of the first `n` spokes has this name and maps a key.
pub open spec fn maps(spokes: Seq<SpokeV>, n: int, name: Text, key: Text) -> bool {
    exists|i: int|
        0 <= i < n && (#[trigger] spokes[i]).name == name && spokes[i].covered.contains(key)
}

/// Whether one of the first `n` spokes has this name and maps and requires a key.
pub open spec fn demands(spokes: Seq<SpokeV>, n: int, name: Text, key: Text) -> bool {
    exists|i: int|
        0 <= i < n && (#[trigger] spokes[i]).name == name && spokes[i].covered.contains(key)
            && spokes[i].required.contains(key)
}

/// Whether the sets of a vocabulary are sorted.
pub open spec fn sorted_uses(v: VocabularyV) -> bool {
    &&& ascending::<String, KeyUseV>(v)
    &&& forall|key: Text|
        ascending::<String, ()>((#[trigger] use_of(v, key)).definers) && ascending::<String, ()>(
            use_of(v, key).requirers,
        )
}

/// What adding the first `n` keys of a spoke does to the use of a key.
proof fn lemma_with_keys(v: VocabularyV, spoke: SpokeV, n: int, key: Text, name: Text)
    requires
        0 <= n <= spoke.covered.len(),
        sorted_uses(v),
    ensures
        sorted_uses(with_keys(v, spoke, n)),
        lookup::<String, KeyUseV>(with_keys(v, spoke, n), key) is Some <==> lookup::<
            String,
            KeyUseV,
        >(v, key) is Some || spoke.covered.take(n).contains(key),
        member(use_of(with_keys(v, spoke, n), key).definers, name) <==> member(
            use_of(v, key).definers,
            name,
        ) || (name == spoke.name && spoke.covered.take(n).contains(key)),
        member(use_of(with_keys(v, spoke, n), key).requirers, name) <==> member(
            use_of(v, key).requirers,
            name,
        ) || (name == spoke.name && spoke.covered.take(n).contains(key)
            && spoke.required.contains(key)),
    decreases n,
{
    if n > 0 {
        lemma_with_keys(v, spoke, n - 1, key, name);
        let a = with_keys(v, spoke, n - 1);
        let b = with_keys(v, spoke, n);
        let k = spoke.covered[n - 1];
        let u = used_by(use_of(a, k), spoke.name, spoke.required.contains(k));
        crate::ordmap::lemma_put_ascending::<String, KeyUseV>(a, k, u);
        crate::ordmap::lemma_put_lookup::<String, KeyUseV>(a, k, u, key);
        crate::ordmap::lemma_put_lookup::<String, ()>(use_of(a, k).definers, spoke.name, (), name);
        crate::ordmap::lemma_put_lookup::<String, ()>(
            use_of(a, k).requirers,
            spoke.name,
            (),
            name,
        );
        crate::ordmap::lemma_put_ascending::<String, ()>(use_of(a, k).definers, spoke.name, ());
        crate::ordmap::lemma_put_ascending::<String, ()>(use_of(a, k).requirers, spoke.name, ());
        assert forall|q: Text|
            ascending::<String, ()>((#[trigger] use_of(b, q)).definers) && ascending::<String, ()>(
                use_of(b, q).requirers,
            ) by {
            crate::ordmap::lemma_put_lookup::<String, KeyUseV>(a, k, u, q);
            assert(ascending::<String, ()>(use_of(a, q).definers));
        }
        lemma_take_contains(spoke.covered, n, key);
    } else {
        assert(spoke.covered.take(0) =~= Seq::<Text>::empty());
    }
}

/// What one more text adds to the first texts of a list.
proof fn lemma_take_contains(list: Seq<Text>, n: int, x: Text)
    requires
        0 < n <= list.len(),
    ensures
        list.take(n).contains(x) == (list.take(n - 1).contains(x) || list[n - 1] == x),
{
    if list.take(n).contains(x) {
        let i = list.take(n).index_of(x);
        if i < n - 1 {
            assert(list.take(n - 1)[i] == x);
        }
    }
    if list.take(n - 1).contains(x) {
        let i = list.take(n - 1).index_of(x);
        assert(list.take(n)[i] == x);
    }
    if list[n - 1] == x {
        assert(list.take(n)[n - 1] == x);
    }
}

/// What the vocabulary of the first `n` spokes says of a key and a name.
proof fn lemma_vocabulary(spokes: Seq<SpokeV>, n: int, key: Text, name: Text)
    requires
        0 <= n <= spokes.len(),
    ensures
        sorted_uses(vocabulary(spokes, n)),
        lookup::<String, KeyUseV>(vocabulary(spokes, n), key) is Some <==> mapped(spokes, n, key),
        member(use_of(vocabulary(spokes, n), key).definers, name) <==> maps(spokes, n, name, key),
        member(use_of(vocabulary(spokes, n), key).requirers, name) <==> demands(
            spokes,
            n,
            name,
            key,
        ),
    decreases n,
{
    if n > 0 {
        lemma_vocabulary(spokes, n - 1, key, name);
        let spoke = spokes[n - 1];
        lemma_with_keys(
            vocabulary(spokes, n - 1),
            spoke,
            spoke.covered.len() as int,
            key,
            name,
        );
        assert(spoke.covered.take(spoke.covered.len() as int) =~= spoke.covered);
        if mapped(spokes, n - 1, key) {
            let i = choose|i: int| 0 <= i < n - 1 && (#[trigger] spokes[i]).covered.contains(key);
            assert(spokes[i].covered.contains(key));
        }
        if maps(spokes, n - 1, name, key) {
            let i = choose|i: int|
                0 <= i < n - 1 && (#[trigger] spokes[i]).name == name
                    && spokes[i].covered.contains(key);
            assert(spokes[i].name == name);
        }
        if demands(spokes, n - 1, name, key) {
            let i = choose|i: int|
                0 <= i < n - 1 && (#[trigger] spokes[i]).name == name
                    && spokes[i].covered.contains(key) && spokes[i].required.contains(key);
            assert(spokes[i].name == name);
        }
        assert(spokes[n - 1] == spoke);
    }
}

/// The list of canonical keys is the union of what the spokes map.
pub proof fn law_hub_keys_are_the_union(spokes: Seq<SpokeV>, key: Text)
    ensures
        (exists|i: int|
            0 <= i < hub_keys_of(spokes).len() && (#[trigger] hub_keys_of(spokes)[i]).key == key)
            <==> mapped(spokes, spokes.len() as int, key),
{
    let n = spokes.len() as int;
    let v = vocabulary(spokes, n);
    lemma_vocabulary(spokes, n, key, key);
    crate::ordmap::lemma_slot::<String, KeyUseV>(v, key);
    if mapped(spokes, n, key) {
        let i = crate::ordmap::slot::<String, KeyUseV>(v, key);
        assert(hub_keys_of(spokes)[i].key == key);
    }
    if exists|i: int|
        0 <= i < hub_keys_of(spokes).len() && (#[trigger] hub_keys_of(spokes)[i]).key == key {
        let i = choose|i: int|
            0 <= i < hub_keys_of(spokes).len() && (#[trigger] hub_keys_of(spokes)[i]).key == key;
        crate::ordmap::lemma_lookup_at::<String, KeyUseV>(v, i);
    }
}

/// The list of canonical keys is strictly sorted, so no key occurs twice.
pub proof fn law_hub_keys_are_sorted(spokes: Seq<SpokeV>, i: int, j: int)
    requires
        0 <= i < j < hub_keys_of(spokes).len(),
    ensures
        crate::text::lt(hub_keys_of(spokes)[i].key, hub_keys_of(spokes)[j].key),
{
    let n = spokes.len() as int;
    lemma_vocabulary(spokes, n, Seq::empty(), Seq::empty());
    let v = vocabulary(spokes, n);
    assert(v[i].0 == hub_keys_of(spokes)[i].key && v[j].0 == hub_keys_of(spokes)[j].key);
}

proof fn lemma_members(s: TextSetV, name: Text)
    requires
        ascending::<String, ()>(s),
    ensures
        members(s).contains(name) <==> member(s, name),
{
    crate::ordmap::lemma_slot::<String, ()>(s, name);
    if member(s, name) {
        assert(members(s)[crate::ordmap::slot::<String, ()>(s, name)] == name);
    }
    if members(s).contains(name) {
        let i = members(s).index_of(name);
        crate::ordmap::lemma_lookup_at::<String, ()>(s, i);
    }
}

/// A key is defined by exactly the names of the spokes that map it, and required
/// by exactly the names of those that also require it.
pub proof fn law_definers_map_the_key(spokes: Seq<SpokeV>, i: int, name: Text)
    requires
        0 <= i < hub_keys_of(spokes).len(),
    ensures
        hub_keys_of(spokes)[i].defined_by.contains(name) <==> maps(
            spokes,
            spokes.len() as int,
            name,
            hub_keys_of(spokes)[i].key,
        ),
        hub_keys_of(spokes)[i].required_by.contains(name) <==> demands(
            spokes,
            spokes.len() as int,
            name,
            hub_keys_of(spokes)[i].key,
        ),
{
    let n = spokes.len() as int;
    let v = vocabulary(spokes, n);
    let key = v[i].0;
    lemma_vocabulary(spokes, n, key, name);
    crate::ordmap::lemma_lookup_at::<String, KeyUseV>(v, i);
    assert(use_of(v, key) == v[i].1);
    lemma_members(v[i].1.definers, name);
    lemma_members(v[i].1.requirers, name);
}

/// Whoever requires a key maps it.
pub proof fn law_required_by_is_within_defined_by(spokes: Seq<SpokeV>, i: int, name: Text)
    requires
        0 <= i < hub_keys_of(spokes).len(),
        hub_keys_of(spokes)[i].required_by.contains(name),
    ensures
        hub_keys_of(spokes)[i].defined_by.contains(name),
{
    law_definers_map_the_key(spokes, i, name);
    let n = spokes.len() as int;
    let key = hub_keys_of(spokes)[i].key;
    let k = choose|k: int|
        0 <= k < n && (#[trigger] spokes[k]).name == name && spokes[k].covered.contains(key)
            && spokes[k].required.contains(key);
    assert(spokes[k].name == name);
}

/// A key that a spoke maps.
#[derive(Debug, Clone, PartialEq, Eq)]
pub struct CoveredKey {
    /// The label of the key.
    pub key: String,
    /// Whether the spoke requires it.
    pub required: bool,
}

impl DeepView for CoveredKey {
    type V = (Text, bool);

    open spec fn deep_view(&self) -> (Text, bool) {
        (self.key@, self.required)
    }
}

/// A key that a spoke does not map.
#[derive(Debug, PartialEq, Eq)]
pub struct UnusedKey {
    /// The label of the key.
    pub key: String,
    /// The names of the spokes that map it.
    pub defined_by: Vec<String>,
}

impl DeepView for UnusedKey {
    type V = (Text, Seq<Text>);

    open spec fn deep_view(&self) -> (Text, Seq<Text>) {
        (self.key@, self.defined_by.deep_view())
    }
}

/// One spoke's view of the canonical keys.
#[derive(Debug, PartialEq, Eq)]
pub struct SpokeKeys {
    /// The name of the spoke.
    pub spoke: String,
    /// The keys it maps, sorted.
    pub covered: Vec<CoveredKey>,
    /// The keys it does not map, sorted.
    pub unused: Vec<UnusedKey>,
}

/// The model of a [`SpokeKeys`].
#[verifier::ext_equal]
pub struct SpokeKeysV {
    pub spoke: Text,
    pub covered: Seq<(Text, bool)>,
    pub unused: Seq<(Text, Seq<Text>)>,
}

impl View for SpokeKeys {
    type V = SpokeKeysV;

    open spec fn view(&self) -> SpokeKeysV {
        SpokeKeysV {
            spoke: self.spoke@,
            covered: self.covered.deep_view(),
            unused: self.unused.deep_view(),
        }
    }
}

/// Those of the first `n` keys that a spoke maps, with whether it requires them.
pub open spec fn covered_upto(infos: Seq<KeyInfoV>, spoke: SpokeV, n: int) -> Seq<(Text, bool)>
    decreases n,
{
    if n <= 0 {
        Seq::empty()
    } else if spoke.covered.contains(infos[n - 1].key) {
        covered_upto(infos, spoke, n - 1).push(
            (infos[n - 1].key, spoke.required.contains(infos[n - 1].key)),
        )
    } else {
        covered_upto(infos, spoke, n - 1)
    }
}

/// Those of the first `n` keys that a spoke does not map, with those that do.
pub open spec fn unused_upto(infos: Seq<KeyInfoV>, spoke: SpokeV, n: int) -> Seq<(Text, Seq<Text>)>
    decreases n,
{
    if n <= 0 {
        Seq::empty()
    } else if spoke.covered.contains(infos[n - 1].key) {
        unused_upto(infos, spoke, n - 1)
    } else {
        unused_upto(infos, spoke, n - 1).push((infos[n - 1].key, infos[n - 1].defined_by))
    }
}

/// One spoke's view of the canonical keys of a set of spokes.
pub open spec fn view_of(spokes: Seq<SpokeV>, spoke: SpokeV) -> SpokeKeysV {
    let infos = hub_keys_of(spokes);
    SpokeKeysV {
        spoke: spoke.name,
        covered: covered_upto(infos, spoke, infos.len() as int),
        unused: unused_upto(infos, spoke, infos.len() as int),
    }
}

/// A copy of a list of texts.
fn copy_list(v: &Vec<String>) -> (r: Vec<String>)
    ensures
        r.deep_view() == v.deep_view(),
{
    crate::dsl::meta::clone_strings(v)
}

/// One spoke's view of the canonical keys: what it maps, and what it does not.
pub fn spoke_keys(spokes: &[Spoke], spoke: &Spoke) -> (r: SpokeKeys)
    ensures
        r@ == view_of(spokes.deep_view(), spoke@),
        r.covered@.len() + r.unused@.len() <= usize::MAX,
{
    let covers = text_set(spoke.covered_keys());
    let requires_set = text_set(spoke.required_keys());
    let infos = hub_keys(spokes);
    let ghost all = infos.deep_view();
    proof {
        lemma_set_of(spoke@.covered);
        lemma_set_of(spoke@.required);
    }
    let mut covered: Vec<CoveredKey> = Vec::new();
    let mut unused: Vec<UnusedKey> = Vec::new();
    let mut i: usize = 0;
    assert(covered.deep_view() =~= Seq::<(Text, bool)>::empty());
    assert(unused.deep_view() =~= Seq::<(Text, Seq<Text>)>::empty());
    while i < infos.len()
        invariant
            i <= infos.len(),
            all == infos.deep_view(),
            covers@ == set_of(spoke@.covered),
            requires_set@ == set_of(spoke@.required),
            forall|t: Text|
                #[trigger] member(set_of(spoke@.covered), t) == spoke@.covered.contains(t),
            forall|t: Text|
                #[trigger] member(set_of(spoke@.required), t) == spoke@.required.contains(t),
            covered.deep_view() == covered_upto(all, spoke@, i as int),
            unused.deep_view() == unused_upto(all, spoke@, i as int),
        decreases infos.len() - i,
    {
        let info = &infos[i];
        assert(all[i as int] == info@);
        assert(member(covers@, info.key@) == spoke@.covered.contains(info.key@));
        assert(member(requires_set@, info.key@) == spoke@.required.contains(info.key@));
        if covers.contains_key(&info.key) {
            let ghost before = covered.deep_view();
            let required = requires_set.contains_key(&info.key);
            covered.push(CoveredKey { key: info.key.clone(), required });
            assert(covered.deep_view() =~= before.push((info.key@, required)));
        } else {
            let ghost before = unused.deep_view();
            unused.push(
                UnusedKey { key: info.key.clone(), defined_by: copy_list(&info.defined_by) },
            );
            assert(unused.deep_view() =~= before.push((info.key@, info@.defined_by)));
        }
        i += 1;
    }
    proof {
        lemma_split_len(all, spoke@, all.len() as int);
        assert(covered@.len() == covered.deep_view().len());
        assert(unused@.len() == unused.deep_view().len());
    }
    SpokeKeys { spoke: spoke.name.clone(), covered, unused }
}

proof fn lemma_split_len(infos: Seq<KeyInfoV>, spoke: SpokeV, n: int)
    requires
        0 <= n <= infos.len(),
    ensures
        covered_upto(infos, spoke, n).len() + unused_upto(infos, spoke, n).len() == n,
        forall|j: int|
            0 <= j < covered_upto(infos, spoke, n).len() ==> spoke.covered.contains(
                (#[trigger] covered_upto(infos, spoke, n)[j]).0,
            ) && covered_upto(infos, spoke, n)[j].1 == spoke.required.contains(
                covered_upto(infos, spoke, n)[j].0,
            ),
        forall|j: int|
            0 <= j < unused_upto(infos, spoke, n).len() ==> !spoke.covered.contains(
                (#[trigger] unused_upto(infos, spoke, n)[j]).0,
            ) && exists|i: int|
                0 <= i < n && (#[trigger] infos[i]).key == unused_upto(infos, spoke, n)[j].0
                    && infos[i].defined_by == unused_upto(infos, spoke, n)[j].1,
    decreases n,
{
    if n > 0 {
        lemma_split_len(infos, spoke, n - 1);
        let a = unused_upto(infos, spoke, n - 1);
        let b = unused_upto(infos, spoke, n);
        assert forall|j: int| 0 <= j < b.len() implies !spoke.covered.contains(
            (#[trigger] b[j]).0,
        ) && exists|i: int|
            0 <= i < n && (#[trigger] infos[i]).key == b[j].0 && infos[i].defined_by == b[j].1 by {
            if j < a.len() {
                assert(b[j] == a[j]);
                let i = choose|i: int|
                    0 <= i < n - 1 && (#[trigger] infos[i]).key == a[j].0 && infos[i].defined_by
                        == a[j].1;
                assert(infos[i].key == b[j].0);
            } else {
                assert(infos[n - 1].key == b[j].0);
            }
        }
        let c = covered_upto(infos, spoke, n - 1);
        let d = covered_upto(infos, spoke, n);
        assert forall|j: int| 0 <= j < d.len() implies spoke.covered.contains((#[trigger] d[j]).0)
            && d[j].1 == spoke.required.contains(d[j].0) by {
            if j < c.len() {
                assert(d[j] == c[j]);
            }
        }
    }
}

/// The keys that a spoke maps and those that it does not together are all
/// canonical keys, and none is both.
pub proof fn law_spoke_keys_partition_the_hub(spokes: Seq<SpokeV>, spoke: SpokeV)
    ensures
        view_of(spokes, spoke).covered.len() + view_of(spokes, spoke).unused.len() == hub_keys_of(
            spokes,
        ).len(),
        forall|i: int, j: int|
            0 <= i < view_of(spokes, spoke).covered.len() && 0 <= j < view_of(
                spokes,
                spoke,
            ).unused.len() ==> (#[trigger] view_of(spokes, spoke).covered[i]).0 != (
            #[trigger] view_of(spokes, spoke).unused[j]).0,
{
    let infos = hub_keys_of(spokes);
    lemma_split_len(infos, spoke, infos.len() as int);
}

proof fn lemma_split_order(infos: Seq<KeyInfoV>, spoke: SpokeV, n: int)
    requires
        0 <= n <= infos.len(),
        forall|i: int, j: int|
            0 <= i < j < infos.len() ==> lt((#[trigger] infos[i]).key, (#[trigger] infos[j]).key),
    ensures
        forall|i: int, j: int|
            0 <= i < j < covered_upto(infos, spoke, n).len() ==> lt(
                (#[trigger] covered_upto(infos, spoke, n)[i]).0,
                (#[trigger] covered_upto(infos, spoke, n)[j]).0,
            ),
        forall|i: int, j: int|
            0 <= i < j < unused_upto(infos, spoke, n).len() ==> lt(
                (#[trigger] unused_upto(infos, spoke, n)[i]).0,
                (#[trigger] unused_upto(infos, spoke, n)[j]).0,
            ),
        forall|j: int|
            n < infos.len() && 0 <= j < covered_upto(infos, spoke, n).len() ==> lt(
                (#[trigger] covered_upto(infos, spoke, n)[j]).0,
                infos[n].key,
            ),
        forall|j: int|
            n < infos.len() && 0 <= j < unused_upto(infos, spoke, n).len() ==> lt(
                (#[trigger] unused_upto(infos, spoke, n)[j]).0,
                infos[n].key,
            ),
    decreases n,
{
    if n > 0 {
        lemma_split_order(infos, spoke, n - 1);
        let (a, b) = (covered_upto(infos, spoke, n - 1), covered_upto(infos, spoke, n));
        let (c, d) = (unused_upto(infos, spoke, n - 1), unused_upto(infos, spoke, n));
        let last = infos[n - 1].key;
        assert forall|i: int, j: int| 0 <= i < j < b.len() implies lt(
            (#[trigger] b[i]).0,
            (#[trigger] b[j]).0,
        ) by {
            assert(b[i] == a[i]);
            if j < a.len() {
                assert(b[j] == a[j]);
            }
        }
        assert forall|i: int, j: int| 0 <= i < j < d.len() implies lt(
            (#[trigger] d[i]).0,
            (#[trigger] d[j]).0,
        ) by {
            assert(d[i] == c[i]);
            if j < c.len() {
                assert(d[j] == c[j]);
            }
        }
        if n < infos.len() {
            assert(lt(infos[n - 1].key, infos[n].key));
            assert forall|j: int| 0 <= j < b.len() implies lt(
                (#[trigger] b[j]).0,
                infos[n].key,
            ) by {
                if j < a.len() {
                    assert(b[j] == a[j]);
                    crate::text::lemma_lt_transitive(b[j].0, last, infos[n].key);
                }
            }
            assert forall|j: int| 0 <= j < d.len() implies lt(
                (#[trigger] d[j]).0,
                infos[n].key,
            ) by {
                if j < c.len() {
                    assert(d[j] == c[j]);
                    crate::text::lemma_lt_transitive(d[j].0, last, infos[n].key);
                }
            }
        }
    }
}

/// Both lists of a view are strictly sorted by key.
pub proof fn law_views_are_sorted(spokes: Seq<SpokeV>, spoke: SpokeV)
    ensures
        forall|i: int, j: int|
            0 <= i < j < view_of(spokes, spoke).covered.len() ==> lt(
                (#[trigger] view_of(spokes, spoke).covered[i]).0,
                (#[trigger] view_of(spokes, spoke).covered[j]).0,
            ),
        forall|i: int, j: int|
            0 <= i < j < view_of(spokes, spoke).unused.len() ==> lt(
                (#[trigger] view_of(spokes, spoke).unused[i]).0,
                (#[trigger] view_of(spokes, spoke).unused[j]).0,
            ),
{
    let infos = hub_keys_of(spokes);
    assert forall|i: int, j: int| 0 <= i < j < infos.len() implies lt(
        (#[trigger] infos[i]).key,
        (#[trigger] infos[j]).key,
    ) by {
        law_hub_keys_are_sorted(spokes, i, j);
    }
    lemma_split_order(infos, spoke, infos.len() as int);
}

/// Whether a view lists a key as covered.
pub open spec fn lists_covered(covered: Seq<(Text, bool)>, key: Text) -> bool {
    exists|j: int| 0 <= j < covered.len() && (#[trigger] covered[j]).0 == key
}

proof fn lemma_covered_found(infos: Seq<KeyInfoV>, spoke: SpokeV, n: int, i: int)
    requires
        0 <= i < n <= infos.len(),
        spoke.covered.contains(infos[i].key),
    ensures
        lists_covered(covered_upto(infos, spoke, n), infos[i].key),
    decreases n,
{
    let b = covered_upto(infos, spoke, n);
    if i == n - 1 {
        assert(b[b.len() - 1].0 == infos[i].key);
    } else {
        lemma_covered_found(infos, spoke, n - 1, i);
        let a = covered_upto(infos, spoke, n - 1);
        let j = choose|j: int| 0 <= j < a.len() && (#[trigger] a[j]).0 == infos[i].key;
        assert(b[j] == a[j]);
    }
}

/// The covered keys of the view of a spoke of the set are all that it maps, and
/// nothing else.
pub proof fn law_covered_are_all_it_maps(spokes: Seq<SpokeV>, k: int, key: Text)
    requires
        0 <= k < spokes.len(),
    ensures
        lists_covered(view_of(spokes, spokes[k]).covered, key) <==> spokes[k].covered.contains(key),
{
    let spoke = spokes[k];
    let infos = hub_keys_of(spokes);
    lemma_split_len(infos, spoke, infos.len() as int);
    if spoke.covered.contains(key) {
        law_hub_keys_are_the_union(spokes, key);
        assert(mapped(spokes, spokes.len() as int, key));
        let i = choose|i: int| 0 <= i < infos.len() && (#[trigger] infos[i]).key == key;
        lemma_covered_found(infos, spoke, infos.len() as int, i);
    }
}

/// The covered keys of a view are flagged exactly where the spoke requires them.
pub proof fn law_required_flag(spokes: Seq<SpokeV>, spoke: SpokeV, i: int)
    requires
        0 <= i < view_of(spokes, spoke).covered.len(),
    ensures
        spoke.covered.contains(view_of(spokes, spoke).covered[i].0),
        view_of(spokes, spoke).covered[i].1 == spoke.required.contains(
            view_of(spokes, spoke).covered[i].0,
        ),
{
    let infos = hub_keys_of(spokes);
    lemma_split_len(infos, spoke, infos.len() as int);
}

/// A key that a spoke of the set does not map is defined by another one.
pub proof fn law_unused_is_defined_elsewhere(spokes: Seq<SpokeV>, k: int, i: int)
    requires
        0 <= k < spokes.len(),
        0 <= i < view_of(spokes, spokes[k]).unused.len(),
        forall|a: int, b: int|
            0 <= a < b < spokes.len() ==> (#[trigger] spokes[a]).name != (#[trigger] spokes[b]).name,
    ensures
        view_of(spokes, spokes[k]).unused[i].1.len() > 0,
        !view_of(spokes, spokes[k]).unused[i].1.contains(spokes[k].name),
{
    let spoke = spokes[k];
    let infos = hub_keys_of(spokes);
    let n = spokes.len() as int;
    lemma_split_len(infos, spoke, infos.len() as int);
    let u = view_of(spokes, spoke).unused[i];
    let p = choose|p: int|
        0 <= p < infos.len() && (#[trigger] infos[p]).key == u.0 && infos[p].defined_by == u.1;
    law_hub_keys_are_the_union(spokes, u.0);
    assert(mapped(spokes, n, u.0));
    let q = choose|q: int| 0 <= q < n && (#[trigger] spokes[q]).covered.contains(u.0);
    law_definers_map_the_key(spokes, p, spokes[q].name);
    law_definers_map_the_key(spokes, p, spoke.name);
    assert(maps(spokes, n, spokes[q].name, u.0));
    assert(u.1.contains(spokes[q].name));
    if u.1.contains(spoke.name) {
        let w = choose|w: int|
            0 <= w < n && (#[trigger] spokes[w]).name == spoke.name && spokes[w].covered.contains(
                u.0,
            );
        assert(w == k) by {
            if w < k {
                assert(spokes[w].name != spokes[k].name);
            }
            if k < w {
                assert(spokes[k].name != spokes[w].name);
            }
        }
    }
}

/// The first `n` names that define a key, each with a star if it requires it.
pub open spec fn starred(info: KeyInfoV, n: int) -> Seq<Text>
    decreases n,
{
    if n <= 0 {
        Seq::empty()
    } else {
        let name = info.defined_by[n - 1];
        starred(info, n - 1).push(
            if info.required_by.contains(name) {
                name + "*"@
            } else {
                name
            },
        )
    }
}

/// The cells of a key.
pub open spec fn info_cells(info: KeyInfoV) -> Seq<Text> {
    seq![
        info.key,
        decimal(info.defined_by.len()),
        join(starred(info, info.defined_by.len() as int), ", "@),
    ]
}

/// The cells of a list of keys.
pub open spec fn info_rows(infos: Seq<KeyInfoV>) -> Seq<Seq<Text>> {
    Seq::new(infos.len(), |i: int| info_cells(infos[i]))
}

/// The names of the columns.
pub open spec fn info_header() -> Seq<Text> {
    seq!["KEY"@, "DEFINED"@, "SPOKES"@]
}

/// The table of the canonical keys of `count` spokes.
pub open spec fn hub_keys_text(infos: Seq<KeyInfoV>, count: nat) -> Text {
    table_text(info_header(), info_rows(infos)) + "\n"@ + decimal(infos.len())
        + " main keys across "@ + decimal(count) + " spokes. `*` = required by that spoke.\n"@
}

/// Whether a list holds a text.
fn holds(list: &Vec<String>, x: &str) -> (r: bool)
    ensures
        r == list.deep_view().contains(x@),
{
    let ghost views = list.deep_view();
    let mut i: usize = 0;
    while i < list.len()
        invariant
            i <= list.len(),
            views == list.deep_view(),
            forall|j: int| 0 <= j < i ==> #[trigger] views[j] != x@,
        decreases list.len() - i,
    {
        assert(views[i as int] == list@[i as int]@);
        if same(list[i].as_str(), x) {
            return true;
        }
        i += 1;
    }
    false
}

/// The names that define a key, each with a star if it requires it.
fn starred_names(info: &KeyInfo) -> (r: Vec<String>)
    ensures
        r.deep_view() == starred(info@, info@.defined_by.len() as int),
{
    let mut r: Vec<String> = Vec::new();
    let mut i: usize = 0;
    assert(r.deep_view() =~= Seq::<Text>::empty());
    while i < info.defined_by.len()
        invariant
            i <= info.defined_by.len(),
            r.deep_view() == starred(info@, i as int),
        decreases info.defined_by.len() - i,
    {
        let ghost before = r.deep_view();
        let name = &info.defined_by[i];
        assert(info@.defined_by[i as int] == name@);
        let mut label = name.clone();
        if holds(&info.required_by, name.as_str()) {
            label.push_str("*");
        }
        r.push(label);
        assert(r.deep_view() =~= before.push(label@));
        i += 1;
    }
    r
}

/// The cells of a key.
fn cells_of(info: &KeyInfo) -> (cells: Vec<String>)
    ensures
        cells.deep_view() == info_cells(info@),
{
    let mut cells: Vec<String> = Vec::new();
    cells.push(info.key.clone());
    cells.push(decimal_of(info.defined_by.len() as u64));
    cells.push(join_strings(&starred_names(info), ", "));
    assert(cells.deep_view() =~= info_cells(info@));
    cells
}

/// The table of the canonical keys of `spoke_count` spokes.
pub fn render_hub_keys(keys: &[KeyInfo], spoke_count: usize) -> (out: String)
    ensures
        out@ == hub_keys_text(keys.deep_view(), spoke_count as nat),
{
    let ghost views = keys.deep_view();
    let ghost all = info_rows(views);
    let mut header: Vec<String> = Vec::new();
    header.push("KEY".to_string());
    header.push("DEFINED".to_string());
    header.push("SPOKES".to_string());
    assert(header.deep_view() =~= info_header());
    let mut rows: Vec<Vec<String>> = Vec::new();
    let mut i: usize = 0;
    while i < keys.len()
        invariant
            i <= keys.len(),
            views == keys.deep_view(),
            all == info_rows(views),
            rows.deep_view() =~= all.take(i as int),
        decreases keys.len() - i,
    {
        let ghost before = rows.deep_view();
        let cells = cells_of(&keys[i]);
        assert(all[i as int] == info_cells(keys@[i as int]@));
        rows.push(cells);
        assert(rows.deep_view() =~= before.push(all[i as int]));
        i += 1;
    }
    assert(rows.deep_view() =~= all);
    let mut out = aligned(&header, &rows);
    out.push_str("\n");
    out.push_str(decimal_of(keys.len() as u64).as_str());
    out.push_str(" main keys across ");
    out.push_str(decimal_of(spoke_count as u64).as_str());
    out.push_str(" spokes. `*` = required by that spoke.\n");
    out
}

/// The text `t` with the first `n` covered keys.
pub open spec fn covered_lines(t: Text, covered: Seq<(Text, bool)>, n: int) -> Text
    decreases n,
{
    if n <= 0 {
        t
    } else {
        let t = covered_lines(t, covered, n - 1) + "  ✓ "@ + covered[n - 1].0;
        if covered[n - 1].1 {
            t + " (required)\n"@
        } else {
            t + "\n"@
        }
    }
}

/// The text `t` with the first `n` unused keys.
pub open spec fn unused_lines(t: Text, unused: Seq<(Text, Seq<Text>)>, n: int) -> Text
    decreases n,
{
    if n <= 0 {
        t
    } else {
        unused_lines(t, unused, n - 1) + "  · "@ + unused[n - 1].0 + " — defined by: "@ + join(
            unused[n - 1].1,
            ", "@,
        ) + "\n"@
    }
}

/// One spoke's view as text.
pub open spec fn spoke_keys_text(v: SpokeKeysV) -> Text {
    let t = "main keys for "@ + v.spoke + " — "@ + decimal(v.covered.len()) + " covered, "@
        + decimal(v.unused.len()) + " unused of "@ + decimal(v.covered.len() + v.unused.len())
        + " total\n"@;
    let t = t + "\nCOVERED (mapped in this spoke):\n"@;
    let t = if v.covered.len() == 0 {
        t + "  (none)\n"@
    } else {
        t
    };
    let t = covered_lines(t, v.covered, v.covered.len() as int);
    let t = t + "\nUNUSED (defined by other spokes, not mapped here — candidates to add):\n"@;
    let t = if v.unused.len() == 0 {
        t + "  (none)\n"@
    } else {
        t
    };
    unused_lines(t, v.unused, v.unused.len() as int)
}

/// Appends the covered keys.
fn push_covered(out: &mut String, covered: &Vec<CoveredKey>)
    ensures
        final(out)@ == covered_lines(old(out)@, covered.deep_view(), covered@.len() as int),
{
    let ghost t = out@;
    let ghost views = covered.deep_view();
    let mut i: usize = 0;
    while i < covered.len()
        invariant
            i <= covered.len(),
            views == covered.deep_view(),
            out@ == covered_lines(t, views, i as int),
        decreases covered.len() - i,
    {
        assert(views[i as int] == covered@[i as int].deep_view());
        out.push_str("  ✓ ");
        out.push_str(covered[i].key.as_str());
        if covered[i].required {
            out.push_str(" (required)\n");
        } else {
            out.push_str("\n");
        }
        i += 1;
    }
}

/// Appends the unused keys.
fn push_unused(out: &mut String, unused: &Vec<UnusedKey>)
    ensures
        final(out)@ == unused_lines(old(out)@, unused.deep_view(), unused@.len() as int),
{
    let ghost t = out@;
    let ghost views = unused.deep_view();
    let mut i: usize = 0;
    while i < unused.len()
        invariant
            i <= unused.len(),
            views == unused.deep_view(),
            out@ == unused_lines(t, views, i as int),
        decreases unused.len() - i,
    {
        assert(views[i as int] == unused@[i as int].deep_view());
        out.push_str("  · ");
        out.push_str(unused[i].key.as_str());
        out.push_str(" — defined by: ");
        out.push_str(join_strings(&unused[i].defined_by, ", ").as_str());
        out.push_str("\n");
        i += 1;
    }
}

/// One spoke's view as text: the keys it maps, then those it does not.
pub fn render_spoke_keys(view: &SpokeKeys) -> (out: String)
    requires
        view.covered@.len() + view.unused@.len() <= u64::MAX,
    ensures
        out@ == spoke_keys_text(view@),
{
    let covered = view.covered.len() as u64;
    let unused = view.unused.len() as u64;
    let mut out = "main keys for ".to_string();
    out.push_str(view.spoke.as_str());
    out.push_str(" — ");
    out.push_str(decimal_of(covered).as_str());
    out.push_str(" covered, ");
    out.push_str(decimal_of(unused).as_str());
    out.push_str(" unused of ");
    out.push_str(decimal_of(covered + unused).as_str());
    out.push_str(" total\n");
    out.push_str("\nCOVERED (mapped in this spoke):\n");
    if view.covered.len() == 0 {
        out.push_str("  (none)\n");
    }
    push_covered(&mut out, &view.covered);
    out.push_str("\nUNUSED (defined by other spokes, not mapped here — candidates to add):\n");
    if view.unused.len() == 0 {
        out.push_str("  (none)\n");
    }
    push_unused(&mut out, &view.unused);
    out
}

} // verus!
