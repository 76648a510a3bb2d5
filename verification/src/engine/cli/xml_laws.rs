//! What holds of every search through the events of a document.
use vstd::prelude::*;

use crate::engine::cli::xml::{customization_of, root_of, EventV};
use crate::text::{trim, Text};

verus! {

/// Whether an event ends the reading of a document.
pub open spec fn ends_reading(e: EventV) -> bool {
    e == EventV::Eof || e == EventV::Failed
}

/// Whether an event is a tag that begins or ends the content of an element.
pub open spec fn is_tag(e: EventV) -> bool {
    e is Start || e is End
}

/// Whether position `i` stands directly inside an element `CustomizationID` that
/// begins at position `j`: no other tag stands between them.
pub open spec fn directly_inside(events: Seq<EventV>, j: int, i: int) -> bool {
    &&& 0 <= j < i
    &&& events[j] == EventV::Start(Some("CustomizationID"@))
    &&& forall|k: int| j < k < i ==> !is_tag(#[trigger] events[k])
}

/// Whether position `i` stands directly inside an element `CustomizationID`.
pub open spec fn in_customization(events: Seq<EventV>, i: int) -> bool {
    exists|j: int| #[trigger] directly_inside(events, j, i)
}

/// Whether a text is more than white space.
pub open spec fn says_something(t: Text) -> bool {
    trim(t).len() > 0
}

/// Whether the search for the `CustomizationID` ends at position `i`: the document
/// ends there or cannot be read on, or a text stands there directly inside a
/// `CustomizationID` that cannot be decoded or says something.
pub open spec fn search_ends(events: Seq<EventV>, i: int) -> bool {
    ||| ends_reading(events[i])
    ||| in_customization(events, i) && (events[i] matches EventV::Text(t) && (t is None
        || says_something(t->0)))
}

/// The `CustomizationID` that is found at the position where the search ends.
pub open spec fn found_at(e: EventV) -> Option<Text> {
    match e {
        EventV::Text(Some(s)) => Some(trim(s)),
        _ => None,
    }
}

/// Whether position `i` is the first at which the search ends.
pub open spec fn first_end(events: Seq<EventV>, i: int) -> bool {
    &&& 0 <= i < events.len()
    &&& search_ends(events, i)
    &&& forall|k: int| 0 <= k < i ==> !#[trigger] search_ends(events, k)
}

proof fn lemma_inside_next(events: Seq<EventV>, n: int)
    requires
        0 <= n < events.len(),
    ensures
        in_customization(events, n + 1) == if events[n] is Start {
            events[n] == EventV::Start(Some("CustomizationID"@))
        } else if events[n] is End {
            false
        } else {
            in_customization(events, n)
        },
{
    if events[n] == EventV::Start(Some("CustomizationID"@)) {
        assert(directly_inside(events, n, n + 1));
    }
    if in_customization(events, n + 1) {
        let j = choose|j: int| #[trigger] directly_inside(events, j, n + 1);
        if j < n {
            assert(!is_tag(events[n]));
            assert(directly_inside(events, j, n));
        }
    }
    if in_customization(events, n) && !is_tag(events[n]) {
        let j = choose|j: int| #[trigger] directly_inside(events, j, n);
        assert(directly_inside(events, j, n + 1));
    }
}

proof fn lemma_search(events: Seq<EventV>, n: int)
    requires
        0 <= n <= events.len(),
        forall|k: int| 0 <= k < n ==> !#[trigger] search_ends(events, k),
    ensures
        forall|i: int|
            n <= i && #[trigger] first_end(events, i) ==> customization_of(
                events.skip(n),
                in_customization(events, n),
            ) == found_at(events[i]),
        (forall|i: int| n <= i < events.len() ==> !#[trigger] search_ends(events, i))
            ==> customization_of(events.skip(n), in_customization(events, n)) is None,
    decreases events.len() - n,
{
    if n < events.len() {
        lemma_inside_next(events, n);
        let rest = events.skip(n);
        assert(rest.drop_first() =~= events.skip(n + 1));
        assert(rest[0] == events[n]);
        if search_ends(events, n) {
            assert forall|i: int| n <= i && #[trigger] first_end(events, i) implies i == n by {
                if i > n {
                    assert(!search_ends(events, n));
                }
            }
        } else {
            assert forall|i: int| n <= i && #[trigger] first_end(events, i) implies n + 1 <= i by {
                if i == n {
                    assert(search_ends(events, n));
                }
            }
            lemma_search(events, n + 1);
        }
    }
}

proof fn lemma_outside_at_first(events: Seq<EventV>)
    ensures
        !in_customization(events, 0),
{
    if in_customization(events, 0) {
        let j = choose|j: int| #[trigger] directly_inside(events, j, 0);
        assert(false);
    }
}

/// The `CustomizationID` of a document is the first text directly inside such an
/// element that says something, trimmed. There is none where, before any such text,
/// the document ends or cannot be read on, or such a text cannot be decoded.
pub proof fn law_customization_is_the_first_text_inside(events: Seq<EventV>, i: int)
    requires
        first_end(events, i),
    ensures
        customization_of(events, false) == found_at(events[i]),
{
    lemma_outside_at_first(events);
    lemma_search(events, 0);
    assert(events.skip(0) =~= events);
}

/// Where no text stands directly inside a `CustomizationID`, none is found.
pub proof fn law_no_customization_without_its_element(events: Seq<EventV>)
    requires
        forall|i: int|
            0 <= i < events.len() && in_customization(events, i) ==> !((#[trigger] events[i]) is Text),
    ensures
        customization_of(events, false) is None,
{
    lemma_outside_at_first(events);
    assert(events.skip(0) =~= events);
    lemma_search(events, 0);
    if exists|i: int| 0 <= i < events.len() && #[trigger] search_ends(events, i) {
        let i = choose|i: int| 0 <= i < events.len() && #[trigger] search_ends(events, i);
        let f = lemma_first(events, i);
        assert(first_end(events, f));
    }
}

proof fn lemma_first(events: Seq<EventV>, i: int) -> (f: int)
    requires
        0 <= i < events.len(),
        search_ends(events, i),
    ensures
        f <= i,
        first_end(events, f),
    decreases i,
{
    if exists|k: int| 0 <= k < i && #[trigger] search_ends(events, k) {
        let k = choose|k: int| 0 <= k < i && #[trigger] search_ends(events, k);
        lemma_first(events, k)
    } else {
        i
    }
}

/// What stands in front of the `CustomizationID` of a document does not matter, as
/// long as the document can be read up to it and no other one says something before.
pub proof fn law_events_in_front_do_not_matter(
    before: Seq<EventV>,
    s: Text,
    rest: Seq<EventV>,
)
    requires
        forall|k: int| 0 <= k < before.len() ==> !#[trigger] search_ends(before, k),
        says_something(s),
    ensures
        customization_of(
            before + seq![EventV::Start(Some("CustomizationID"@)), EventV::Text(Some(s))] + rest,
            false,
        ) == Some(trim(s)),
{
    let start = EventV::Start(Some("CustomizationID"@));
    let all = before + seq![start, EventV::Text(Some(s))] + rest;
    let n = before.len() as int;
    assert(all[n] == start && all[n + 1] == EventV::Text(Some(s)));
    assert(directly_inside(all, n, n + 1));
    assert forall|k: int| 0 <= k < n + 1 implies !#[trigger] search_ends(all, k) by {
        if k < n {
            assert(!search_ends(before, k));
            assert(all[k] == before[k]);
            if in_customization(all, k) {
                let j = choose|j: int| #[trigger] directly_inside(all, j, k);
                assert forall|m: int| j < m < k implies !is_tag(#[trigger] before[m]) by {
                    assert(all[m] == before[m]);
                }
                assert(directly_inside(before, j, k));
            }
        }
    }
    assert(first_end(all, n + 1));
    law_customization_is_the_first_text_inside(all, n + 1);
}

proof fn lemma_root(events: Seq<EventV>, i: int)
    requires
        0 <= i < events.len(),
        forall|k: int|
            0 <= k < i ==> !((#[trigger] events[k]) is Start || events[k] is Empty || ends_reading(
                events[k],
            )),
    ensures
        events[i] is Start ==> root_of(events) == events[i]->Start_0,
        events[i] is Empty ==> root_of(events) == events[i]->Empty_0,
        ends_reading(events[i]) ==> root_of(events) is None,
    decreases i,
{
    if i > 0 {
        let rest = events.drop_first();
        assert(!(events[0] is Start || events[0] is Empty || ends_reading(events[0])));
        assert forall|k: int| 0 <= k < i - 1 implies !((#[trigger] rest[k]) is Start
            || rest[k] is Empty || ends_reading(rest[k])) by {
            assert(rest[k] == events[k + 1]);
        }
        assert(rest[i - 1] == events[i]);
        lemma_root(rest, i - 1);
    }
}

/// The root element is the first element of a document, whatever comments, texts and
/// declarations stand in front of it; there is none where the document ends or cannot
/// be read before its first element.
pub proof fn law_root_is_the_first_element(events: Seq<EventV>, i: int)
    requires
        0 <= i < events.len(),
        forall|k: int|
            0 <= k < i ==> !((#[trigger] events[k]) is Start || events[k] is Empty || ends_reading(
                events[k],
            )),
    ensures
        events[i] matches EventV::Start(name) ==> root_of(events) == name,
        events[i] matches EventV::Empty(name) ==> root_of(events) == name,
        ends_reading(events[i]) ==> root_of(events) is None,
{
    lemma_root(events, i);
}

} // verus!
