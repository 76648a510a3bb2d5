//! What holds of every resolution of a name and of every detection of a format.
use vstd::prelude::*;

use crate::engine::cli::detect::{
    alike, answers_to, chosen, detected, marked, resolved, rooted, spoke_from, unmarked,
};
use crate::engine::cli::error::CliErrorV;
use crate::engine::spoke::SpokeV;
use crate::text::{ascii_lower, find, has, lemma_find, Text};

verus! {

/// Whether a document with this `CustomizationID` names a marker of a spoke, in any
/// case.
pub open spec fn names_marker(spoke: SpokeV, customization: Option<Text>) -> bool {
    exists|m: Text|
        #![trigger spoke.markers.contains(m)]
        spoke.markers.contains(m) && has(
            match customization {
                Some(c) => ascii_lower(c),
                None => Seq::empty(),
            },
            ascii_lower(m),
        )
}

/// Whether one spoke alone of a list is chosen by a rule.
pub open spec fn sole(spokes: Seq<SpokeV>, rule: spec_fn(SpokeV) -> bool, k: int) -> bool {
    &&& 0 <= k < spokes.len()
    &&& rule(spokes[k])
    &&& forall|j: int| 0 <= j < spokes.len() && j != k ==> !rule(#[trigger] spokes[j])
}

/// Whether a rule chooses any spoke of a list.
pub open spec fn some_spoke(spokes: Seq<SpokeV>, rule: spec_fn(SpokeV) -> bool) -> bool {
    exists|k: int| 0 <= k < spokes.len() && rule(#[trigger] spokes[k])
}

/// Whether a document is of the `k`-th spoke: that alone has its root element; or it
/// alone of those with the root element is named by a marker; or no marker names one,
/// and it alone of them has no markers.
pub open spec fn is_of(
    spokes: Seq<SpokeV>,
    root: Text,
    customization: Option<Text>,
    k: int,
) -> bool {
    let fits = |s: SpokeV| s.root == root;
    let named = |s: SpokeV| s.root == root && names_marker(s, customization);
    let base = |s: SpokeV| s.root == root && s.markers.len() == 0;
    ||| sole(spokes, fits, k)
    ||| sole(spokes, named, k)
    ||| !some_spoke(spokes, named) && sole(spokes, base, k)
}

proof fn lemma_sole(list: Seq<SpokeV>, rule: spec_fn(SpokeV) -> bool)
    ensures
        list.filter(rule).len() == 0 <==> !some_spoke(list, rule),
        list.filter(rule).len() == 1 <==> exists|k: int| #[trigger] sole(list, rule, k),
        forall|k: int| #[trigger] sole(list, rule, k) ==> list.filter(rule)[0] == list[k],
    decreases list.len(),
{
    reveal(Seq::filter);
    if list.len() > 0 {
        let head = list.drop_last();
        let last = list.len() - 1;
        lemma_sole(head, rule);
        let (a, b) = (head.filter(rule), list.filter(rule));
        assert forall|j: int| 0 <= j < head.len() implies head[j] == list[j] by {}
        if rule(list[last]) {
            assert(some_spoke(list, rule));
            if a.len() == 0 {
                assert forall|j: int| 0 <= j < list.len() && j != last implies !rule(
                    #[trigger] list[j],
                ) by {
                    assert(head[j] == list[j]);
                }
                assert(sole(list, rule, last));
            } else {
                let i = choose|i: int| 0 <= i < head.len() && rule(#[trigger] head[i]);
                assert(rule(list[i]) && i != last);
                assert forall|k: int| !#[trigger] sole(list, rule, k) by {
                    if sole(list, rule, k) {
                        if k == last {
                            assert(!rule(list[i]));
                        } else {
                            assert(!rule(list[last]));
                        }
                    }
                }
            }
        } else {
            if some_spoke(head, rule) {
                let i = choose|i: int| 0 <= i < head.len() && rule(#[trigger] head[i]);
                assert(rule(list[i]));
            }
            if some_spoke(list, rule) {
                let i = choose|i: int| 0 <= i < list.len() && rule(#[trigger] list[i]);
                assert(rule(head[i]));
            }
            assert forall|k: int| #[trigger] sole(list, rule, k) <==> sole(head, rule, k) by {
                if sole(list, rule, k) {
                    assert(rule(head[k]));
                    assert forall|j: int| 0 <= j < head.len() && j != k implies !rule(
                        #[trigger] head[j],
                    ) by {
                        assert(!rule(list[j]));
                    }
                }
                if sole(head, rule, k) {
                    assert(rule(list[k]));
                    assert forall|j: int| 0 <= j < list.len() && j != k implies !rule(
                        #[trigger] list[j],
                    ) by {
                        if j < last {
                            assert(!rule(head[j]));
                        }
                    }
                }
            }
            if b.len() == 1 {
                let k = choose|k: int| #[trigger] sole(head, rule, k);
                assert(sole(list, rule, k));
            }
            assert forall|k: int| #[trigger] sole(list, rule, k) implies b[0] == list[k] by {
                assert(sole(head, rule, k));
            }
        }
        assert forall|k: int| #[trigger] sole(list, rule, k) implies b[0] == list[k] by {
            if rule(list[last]) && k != last {
                assert(!rule(list[last]));
            }
        }
    } else {
        assert forall|k: int| !#[trigger] sole(list, rule, k) by {}
    }
}

proof fn lemma_filters(list: Seq<SpokeV>, p: spec_fn(SpokeV) -> bool, q: spec_fn(SpokeV) -> bool)
    ensures
        list.filter(p).filter(q) == list.filter(|s: SpokeV| p(s) && q(s)),
    decreases list.len(),
{
    reveal(Seq::filter);
    if list.len() > 0 {
        let head = list.drop_last();
        lemma_filters(head, p, q);
        if p(list.last()) {
            let all = head.filter(p).push(list.last());
            assert(all.drop_last() =~= head.filter(p));
        }
    }
}

proof fn lemma_rooted_filter(spokes: Seq<SpokeV>, root: Text, n: int)
    requires
        0 <= n <= spokes.len(),
    ensures
        rooted(spokes, root, n) == spokes.take(n).filter(|s: SpokeV| s.root == root),
    decreases n,
{
    reveal(Seq::filter);
    if n > 0 {
        lemma_rooted_filter(spokes, root, n - 1);
        assert(spokes.take(n).drop_last() =~= spokes.take(n - 1));
    } else {
        assert(spokes.take(0) =~= Seq::<SpokeV>::empty());
    }
}

proof fn lemma_marked_filter(list: Seq<SpokeV>, customization: Option<Text>, n: int)
    requires
        0 <= n <= list.len(),
    ensures
        marked(
            list,
            match customization {
                Some(c) => ascii_lower(c),
                None => Seq::empty(),
            },
            n,
        ) == list.take(n).filter(|s: SpokeV| names_marker(s, customization)),
    decreases n,
{
    reveal(Seq::filter);
    let text = match customization {
        Some(c) => ascii_lower(c),
        None => Seq::empty(),
    };
    if n > 0 {
        lemma_marked_filter(list, customization, n - 1);
        assert(list.take(n).drop_last() =~= list.take(n - 1));
        let s = list[n - 1];
        if crate::engine::cli::detect::marks(s, text) {
            let i = choose|i: int|
                0 <= i < s.markers.len() && has(text, ascii_lower(#[trigger] s.markers[i]));
            assert(s.markers.contains(s.markers[i]));
        }
        if names_marker(s, customization) {
            let m = choose|m: Text|
                #![trigger s.markers.contains(m)]
                s.markers.contains(m) && has(text, ascii_lower(m));
            let i = s.markers.index_of(m);
            assert(s.markers[i] == m);
        }
    } else {
        assert(list.take(0) =~= Seq::<SpokeV>::empty());
    }
}

proof fn lemma_unmarked_filter(list: Seq<SpokeV>, n: int)
    requires
        0 <= n <= list.len(),
    ensures
        unmarked(list, n) == list.take(n).filter(|s: SpokeV| s.markers.len() == 0),
    decreases n,
{
    reveal(Seq::filter);
    if n > 0 {
        lemma_unmarked_filter(list, n - 1);
        assert(list.take(n).drop_last() =~= list.take(n - 1));
    } else {
        assert(list.take(0) =~= Seq::<SpokeV>::empty());
    }
}

/// A format is detected exactly where the document is of one spoke, and it is that
/// spoke; without a root element none is.
pub proof fn law_detection_is_exact(
    spokes: Seq<SpokeV>,
    root: Option<Text>,
    customization: Option<Text>,
)
    ensures
        root is None ==> detected(spokes, root, customization) is Err,
        root is Some ==> (detected(spokes, root, customization) is Ok <==> exists|k: int|
            #[trigger] is_of(spokes, root->0, customization, k)),
        forall|k: int|
            root is Some && #[trigger] is_of(spokes, root->0, customization, k) ==> detected(
                spokes,
                root,
                customization,
            ) == Ok::<SpokeV, CliErrorV>(spokes[k]),
        detected(spokes, root, customization) matches Err(e) ==> e is AmbiguousSource,
{
    if let Some(r) = root {
        let fits = |s: SpokeV| s.root == r;
        let marks = |s: SpokeV| names_marker(s, customization);
        let plain = |s: SpokeV| s.markers.len() == 0;
        let named = |s: SpokeV| s.root == r && names_marker(s, customization);
        let base = |s: SpokeV| s.root == r && s.markers.len() == 0;
        let n = spokes.len() as int;
        assert(spokes.take(n) =~= spokes);
        lemma_rooted_filter(spokes, r, n);
        let c = rooted(spokes, r, n);
        assert(c == spokes.filter(fits));
        assert(c.take(c.len() as int) =~= c);
        lemma_marked_filter(c, customization, c.len() as int);
        lemma_unmarked_filter(c, c.len() as int);
        lemma_filters(spokes, fits, marks);
        lemma_filters(spokes, fits, plain);
        assert((|s: SpokeV| fits(s) && marks(s)) =~= named);
        assert((|s: SpokeV| fits(s) && plain(s)) =~= base);
        lemma_sole(spokes, fits);
        lemma_sole(spokes, named);
        lemma_sole(spokes, base);
        // Whoever is chosen among those with the root has the root.
        assert forall|k: int| #[trigger] sole(spokes, named, k) implies some_spoke(spokes, fits) by {
            assert(fits(spokes[k]));
        }
        assert forall|k: int| #[trigger] sole(spokes, base, k) implies some_spoke(spokes, fits) by {
            assert(fits(spokes[k]));
        }
        if c.len() == 1 {
            let k = choose|k: int| #[trigger] sole(spokes, fits, k);
            assert(is_of(spokes, r, customization, k));
            assert forall|j: int| #[trigger] is_of(spokes, r, customization, j) implies j == k by {
                assert(fits(spokes[j]));
                if j != k {
                    assert(!fits(spokes[j]));
                }
            }
        } else {
            assert forall|j: int| !#[trigger] sole(spokes, fits, j) by {
                if sole(spokes, fits, j) {
                    assert(c.len() == 1);
                }
            }
            let best = chosen(
                c,
                match customization {
                    Some(x) => ascii_lower(x),
                    None => Seq::empty(),
                },
            );
            if c.len() > 0 && best.len() == 1 {
                if some_spoke(spokes, named) {
                    let k = choose|k: int| #[trigger] sole(spokes, named, k);
                    assert(is_of(spokes, r, customization, k));
                } else {
                    let k = choose|k: int| #[trigger] sole(spokes, base, k);
                    assert(is_of(spokes, r, customization, k));
                }
            }
            assert forall|j: int| #[trigger] is_of(spokes, r, customization, j) implies detected(
                spokes,
                root,
                customization,
            ) == Ok::<SpokeV, CliErrorV>(spokes[j]) by {
                if sole(spokes, named, j) {
                    assert(named(spokes[j]));
                    assert(some_spoke(spokes, named));
                }
            }
        }
    }
}

/// Whether a text is a name with or without a version behind a colon: the whole name,
/// or all of it before its first colon, in any case.
pub open spec fn short_or_full(full: Text, name: Text) -> bool {
    ||| ascii_lower(full) == ascii_lower(name)
    ||| exists|i: int|
        0 <= i < full.len() && #[trigger] full[i] == ':' && (forall|j: int|
            0 <= j < i ==> #[trigger] full[j] != ':') && ascii_lower(full.take(i)) == ascii_lower(
            name,
        )
}

proof fn lemma_answers(full: Text, name: Text)
    ensures
        answers_to(full, name) == short_or_full(full, name),
{
    lemma_find(full, ':');
    let i = find(full, ':');
    if i < full.len() && alike(full.take(i), name) {
        assert(full[i] == ':');
    }
    if exists|i: int|
        0 <= i < full.len() && #[trigger] full[i] == ':' && (forall|j: int|
            0 <= j < i ==> #[trigger] full[j] != ':') && ascii_lower(full.take(i)) == ascii_lower(
            name,
        ) {
        let k = choose|i: int|
            0 <= i < full.len() && #[trigger] full[i] == ':' && (forall|j: int|
                0 <= j < i ==> #[trigger] full[j] != ':') && ascii_lower(full.take(i))
                == ascii_lower(name);
        if k < i {
            assert(full[k] != ':');
        } else if i < k {
            assert(full[i] != ':');
        }
    }
}

proof fn lemma_first_answer(spokes: Seq<SpokeV>, name: Text, i: int)
    requires
        0 <= i <= spokes.len(),
    ensures
        i <= spoke_from(spokes, name, i) <= spokes.len(),
        spoke_from(spokes, name, i) < spokes.len() ==> answers_to(
            spokes[spoke_from(spokes, name, i)].name,
            name,
        ),
        forall|j: int|
            i <= j < spoke_from(spokes, name, i) ==> !answers_to((#[trigger] spokes[j]).name, name),
    decreases spokes.len() - i,
{
    if i < spokes.len() && !answers_to(spokes[i].name, name) {
        lemma_first_answer(spokes, name, i + 1);
    }
}

/// A name stands for the first spoke whose full name it is or whose name it is before
/// the version, in any case; where there is none, the format is unknown.
pub proof fn law_resolution_is_exact(spokes: Seq<SpokeV>, name: Text, k: int)
    ensures
        0 <= k < spokes.len() && short_or_full(spokes[k].name, name) && (forall|j: int|
            0 <= j < k ==> !short_or_full((#[trigger] spokes[j]).name, name)) ==> resolved(
            spokes,
            name,
        ) == Ok::<SpokeV, CliErrorV>(spokes[k]),
        (forall|j: int| 0 <= j < spokes.len() ==> !short_or_full((#[trigger] spokes[j]).name, name))
            ==> (resolved(spokes, name) matches Err(e) && e is UnknownFormat),
{
    lemma_first_answer(spokes, name, 0);
    assert forall|j: int| 0 <= j < spokes.len() implies short_or_full(
        (#[trigger] spokes[j]).name,
        name,
    ) == answers_to(spokes[j].name, name) by {
        lemma_answers(spokes[j].name, name);
    }
    let f = spoke_from(spokes, name, 0);
    if 0 <= k < spokes.len() && short_or_full(spokes[k].name, name) && (forall|j: int|
        0 <= j < k ==> !short_or_full((#[trigger] spokes[j]).name, name)) {
        if f < k {
            assert(short_or_full(spokes[f].name, name));
        } else if k < f {
            assert(!answers_to(spokes[k].name, name));
        }
    }
}

} // verus!
