//! The signature of an XML document: its root element and its `CustomizationID`.
use vstd::prelude::*;

use quick_xml::events::Event;

use crate::text::{same, trim, trimmed, Text};

verus! {

/// `quick_xml::Reader`, which reads the events of a document one by one.
#[verifier::external_type_specification]
#[verifier::external_body]
#[verifier::reject_recursive_types(R)]
pub struct ExReader<R>(quick_xml::Reader<R>);

/// One event of an XML document. A name is the local one; a name or a text that
/// cannot be decoded is absent.
#[derive(Debug, Clone, PartialEq, Eq)]
pub enum XmlEvent {
    /// A start tag.
    Start(Option<String>),
    /// An empty-element tag.
    Empty(Option<String>),
    /// Character data, unescaped.
    Text(Option<String>),
    /// An end tag.
    End,
    /// Anything else.
    Other,
    /// The end of the document.
    Eof,
    /// The document cannot be read on.
    Failed,
}

/// The model of an [`XmlEvent`].
pub enum EventV {
    Start(Option<Text>),
    Empty(Option<Text>),
    Text(Option<Text>),
    End,
    Other,
    Eof,
    Failed,
}

impl DeepView for XmlEvent {
    type V = EventV;

    open spec fn deep_view(&self) -> EventV {
        match self {
            XmlEvent::Start(n) => EventV::Start(n.deep_view()),
            XmlEvent::Empty(n) => EventV::Empty(n.deep_view()),
            XmlEvent::Text(t) => EventV::Text(t.deep_view()),
            XmlEvent::End => EventV::End,
            XmlEvent::Other => EventV::Other,
            XmlEvent::Eof => EventV::Eof,
            XmlEvent::Failed => EventV::Failed,
        }
    }
}

/// The events of a document, up to and with the first that is its end or a failure.
pub uninterp spec fn xml_events(bytes: Seq<u8>) -> Seq<EventV>;

/// The events that a reader has still to give, up to and with the first that is the
/// end of the document or a failure.
pub uninterp spec fn pending(reader: quick_xml::Reader<&[u8]>) -> Seq<EventV>;

/// Whether nothing comes after an event.
pub open spec fn is_last(e: EventV) -> bool {
    e is Eof || e is Failed
}

/// Whether a list of events ends with its only last one.
pub open spec fn ends_once(events: Seq<EventV>) -> bool {
    &&& events.len() > 0
    &&& forall|i: int| 0 <= i < events.len() ==> is_last(#[trigger] events[i]) == (i == events.len() - 1)
}

/// `quick_xml::Reader::from_reader`: a reader at the start of a document. Which
/// events it will give depends on the bytes alone; they end at the end of the
/// document or where it cannot be read.
#[verifier::external_body]
fn event_reader(bytes: &[u8]) -> (r: quick_xml::Reader<&[u8]>)
    ensures
        pending(r) == xml_events(bytes@),
        ends_once(pending(r)),
{
    quick_xml::Reader::from_reader(bytes)
}

/// `quick_xml::Reader::read_event_into`: gives the next event and moves past it.
/// Nothing is said of a reader that has given its last event: it may give the end of
/// the document again, or read on behind a failure.
#[verifier::external_body]
fn next_event(reader: &mut quick_xml::Reader<&[u8]>) -> (e: XmlEvent)
    requires
        pending(*old(reader)).len() > 0,
    ensures
        e.deep_view() == pending(*old(reader))[0],
        !is_last(e.deep_view()) ==> pending(*final(reader)) == pending(*old(reader)).drop_first(),
{
    let name = |n: &[u8]| std::str::from_utf8(n).ok().map(str::to_string);
    match reader.read_event_into(&mut Vec::new()) {
        Ok(Event::Start(e)) => XmlEvent::Start(name(e.local_name().as_ref())),
        Ok(Event::Empty(e)) => XmlEvent::Empty(name(e.local_name().as_ref())),
        Ok(Event::Text(t)) => XmlEvent::Text(t.unescape().ok().map(|c| c.into_owned())),
        Ok(Event::End(_)) => XmlEvent::End,
        Ok(Event::Eof) => XmlEvent::Eof,
        Ok(_) => XmlEvent::Other,
        Err(_) => XmlEvent::Failed,
    }
}

/// The name of the first element, if there is one and its name can be decoded.
pub open spec fn root_of(events: Seq<EventV>) -> Option<Text>
    decreases events.len(),
{
    if events.len() == 0 {
        None
    } else {
        match events[0] {
            EventV::Start(n) => n,
            EventV::Empty(n) => n,
            EventV::Eof => None,
            EventV::Failed => None,
            _ => root_of(events.drop_first()),
        }
    }
}

/// What the search for the root element does at one event: it goes on, or it ends
/// with a name or without one.
pub open spec fn root_at(e: EventV) -> Option<Option<Text>> {
    match e {
        EventV::Start(n) => Some(n),
        EventV::Empty(n) => Some(n),
        EventV::Eof => Some(None),
        EventV::Failed => Some(None),
        _ => None,
    }
}

/// What the search for the root element does at one event.
pub fn root_step(e: XmlEvent) -> (r: Option<Option<String>>)
    ensures
        r.deep_view() == root_at(e.deep_view()),
{
    match e {
        XmlEvent::Start(n) => Some(n),
        XmlEvent::Empty(n) => Some(n),
        XmlEvent::Eof => Some(None),
        XmlEvent::Failed => Some(None),
        _ => None,
    }
}

/// The local name of the root element of a document.
pub fn root_element(bytes: &[u8]) -> (r: Option<String>)
    ensures
        r.deep_view() == root_of(xml_events(bytes@)),
{
    let mut reader = event_reader(bytes);
    loop
        invariant
            ends_once(pending(reader)),
            root_of(xml_events(bytes@)) == root_of(pending(reader)),
        decreases pending(reader).len(),
    {
        let ghost before = pending(reader);
        let event = next_event(&mut reader);
        if let Some(found) = root_step(event) {
            return found;
        }
        proof {
            assert(!is_last(before[0]));
            assert forall|i: int| 0 <= i < pending(reader).len() implies is_last(
                #[trigger] pending(reader)[i],
            ) == (i == pending(reader).len() - 1) by {
                assert(pending(reader)[i] == before[i + 1]);
            }
        }
    }
}

/// What a text inside a `CustomizationID` element says: its trimmed form, if it is
/// not empty.
pub open spec fn marked_text(t: Text) -> Option<Text> {
    if trim(t).len() == 0 {
        None
    } else {
        Some(trim(t))
    }
}

/// The first text that is not empty directly inside a `CustomizationID` element,
/// trimmed; `inside` says whether the events begin inside such an element.
pub open spec fn customization_of(events: Seq<EventV>, inside: bool) -> Option<Text>
    decreases events.len(),
{
    if events.len() == 0 {
        None
    } else {
        let rest = events.drop_first();
        match events[0] {
            EventV::Start(n) => customization_of(rest, n == Some("CustomizationID"@)),
            EventV::Text(t) => if !inside {
                customization_of(rest, inside)
            } else {
                match t {
                    None => None,
                    Some(s) => match marked_text(s) {
                        Some(m) => Some(m),
                        None => customization_of(rest, inside),
                    },
                }
            },
            EventV::End => customization_of(rest, false),
            EventV::Eof => None,
            EventV::Failed => None,
            _ => customization_of(rest, inside),
        }
    }
}

/// What the search for the `CustomizationID` does at one event: it goes on inside
/// or outside such an element, or it ends with a text or without one.
#[derive(Debug, Clone, PartialEq, Eq)]
pub enum Search {
    /// Goes on, inside such an element or not.
    Inside(bool),
    /// Ends.
    Found(Option<String>),
}

/// The model of a [`Search`].
pub enum SearchV {
    Inside(bool),
    Found(Option<Text>),
}

impl DeepView for Search {
    type V = SearchV;

    open spec fn deep_view(&self) -> SearchV {
        match self {
            Search::Inside(b) => SearchV::Inside(*b),
            Search::Found(t) => SearchV::Found(t.deep_view()),
        }
    }
}

/// What the search for the `CustomizationID` does at one event.
pub open spec fn customization_at(e: EventV, inside: bool) -> SearchV {
    match e {
        EventV::Start(n) => SearchV::Inside(n == Some("CustomizationID"@)),
        EventV::Text(t) => if !inside {
            SearchV::Inside(false)
        } else {
            match t {
                None => SearchV::Found(None),
                Some(s) => match marked_text(s) {
                    Some(m) => SearchV::Found(Some(m)),
                    None => SearchV::Inside(true),
                },
            }
        },
        EventV::End => SearchV::Inside(false),
        EventV::Eof => SearchV::Found(None),
        EventV::Failed => SearchV::Found(None),
        _ => SearchV::Inside(inside),
    }
}

/// What the search for the `CustomizationID` does at one event.
pub fn customization_step(e: XmlEvent, inside: bool) -> (r: Search)
    ensures
        r.deep_view() == customization_at(e.deep_view(), inside),
{
    match e {
        XmlEvent::Start(n) => {
            let here = match &n {
                Some(name) => same(name.as_str(), "CustomizationID"),
                None => false,
            };
            Search::Inside(here)
        },
        XmlEvent::Text(t) => {
            if !inside {
                return Search::Inside(false);
            }
            match t {
                None => Search::Found(None),
                Some(s) => {
                    let text = trimmed(s.as_str());
                    if text.as_str().is_empty() {
                        Search::Inside(true)
                    } else {
                        Search::Found(Some(text))
                    }
                },
            }
        },
        XmlEvent::End => Search::Inside(false),
        XmlEvent::Eof => Search::Found(None),
        XmlEvent::Failed => Search::Found(None),
        _ => Search::Inside(inside),
    }
}

/// The text of the `CustomizationID` of a document, trimmed and unescaped.
pub fn customization_id(bytes: &[u8]) -> (r: Option<String>)
    ensures
        r.deep_view() == customization_of(xml_events(bytes@), false),
{
    let mut reader = event_reader(bytes);
    let mut inside = false;
    loop
        invariant
            ends_once(pending(reader)),
            customization_of(xml_events(bytes@), false) == customization_of(
                pending(reader),
                inside,
            ),
        decreases pending(reader).len(),
    {
        let ghost before = pending(reader);
        let event = next_event(&mut reader);
        match customization_step(event, inside) {
            Search::Found(text) => {
                return text;
            },
            Search::Inside(here) => {
                inside = here;
            },
        }
        proof {
            assert(!is_last(before[0]));
            assert forall|i: int| 0 <= i < pending(reader).len() implies is_last(
                #[trigger] pending(reader)[i],
            ) == (i == pending(reader).len() - 1) by {
                assert(pending(reader)[i] == before[i + 1]);
            }
        }
    }
}

} // verus!
