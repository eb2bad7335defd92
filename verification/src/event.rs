//! The event source: the document as a sequence of JSON events.

use json_event_parser::{JsonEvent, JsonSyntaxError, SliceJsonParser};
use vstd::prelude::*;

verus! {

/// One step of a JSON document, with its text owned.
#[derive(Debug, PartialEq, Eq)]
pub enum Event {
    String(String),
    Number(String),
    Boolean(bool),
    Null,
    StartArray,
    EndArray,
    StartObject,
    EndObject,
    ObjectKey(String),
    Eof,
}

/// What an [`Event`] stands for in contracts.
pub enum EventView {
    String(Seq<char>),
    Number(Seq<char>),
    Boolean(bool),
    Null,
    StartArray,
    EndArray,
    StartObject,
    EndObject,
    ObjectKey(Seq<char>),
    Eof,
}

impl View for Event {
    type V = EventView;

    open spec fn view(&self) -> EventView {
        match self {
            Event::String(s) => EventView::String(s@),
            Event::Number(s) => EventView::Number(s@),
            Event::Boolean(b) => EventView::Boolean(*b),
            Event::Null => EventView::Null,
            Event::StartArray => EventView::StartArray,
            Event::EndArray => EventView::EndArray,
            Event::StartObject => EventView::StartObject,
            Event::EndObject => EventView::EndObject,
            Event::ObjectKey(s) => EventView::ObjectKey(s@),
            Event::Eof => EventView::Eof,
        }
    }
}

#[verifier::external_type_specification]
#[verifier::external_body]
pub struct ExSliceJsonParser<'a>(SliceJsonParser<'a>);

#[verifier::external_type_specification]
#[verifier::external_body]
pub struct ExJsonSyntaxError(JsonSyntaxError);

/// The events that a tokenizer still holds: those that its next calls hand
/// out, in order, before it reports the end of the document or a syntax error.
pub uninterp spec fn upcoming(parser: SliceJsonParser<'_>) -> Seq<EventView>;

/// The events of a whole document: what a fresh tokenizer over `doc` holds.
pub uninterp spec fn json_events(doc: Seq<u8>) -> Seq<EventView>;

/// `SliceJsonParser::new`: a tokenizer at the start of `doc`. It holds the
/// events of `doc`, and no more of them than `doc` has bytes, since every
/// event before the end is read from at least one byte.
#[verifier::external_body]
fn slice_parser<'a>(doc: &'a [u8]) -> (parser: SliceJsonParser<'a>)
    ensures
        upcoming(parser) == json_events(doc@),
        upcoming(parser).len() <= doc@.len(),
{
    SliceJsonParser::new(doc)
}

/// `SliceJsonParser::parse_next`: hands out the first event that the tokenizer
/// holds and keeps the rest. `Eof` or an error come only when it holds none.
#[verifier::external_body]
fn parse_next<'a>(parser: &mut SliceJsonParser<'a>) -> (r: Result<Event, JsonSyntaxError>)
    ensures
        match r {
            Ok(e) => if e is Eof {
                upcoming(*old(parser)).len() == 0
            } else {
                &&& upcoming(*old(parser)).len() > 0
                &&& e@ == upcoming(*old(parser))[0]
                &&& upcoming(*final(parser)) == upcoming(*old(parser)).skip(1)
            },
            Err(_) => upcoming(*old(parser)).len() == 0,
        },
{
    Ok(match parser.parse_next()? {
        JsonEvent::String(s) => Event::String(s.into_owned()),
        JsonEvent::Number(s) => Event::Number(s.into_owned()),
        JsonEvent::Boolean(b) => Event::Boolean(b),
        JsonEvent::Null => Event::Null,
        JsonEvent::StartArray => Event::StartArray,
        JsonEvent::EndArray => Event::EndArray,
        JsonEvent::StartObject => Event::StartObject,
        JsonEvent::EndObject => Event::EndObject,
        JsonEvent::ObjectKey(s) => Event::ObjectKey(s.into_owned()),
        JsonEvent::Eof => Event::Eof,
    })
}

/// A lazy sequence of events over a document held in memory.
pub struct EventSource<'a> {
    parser: SliceJsonParser<'a>,
    ended: bool,
}

impl<'a> EventSource<'a> {
    /// The events still to come.
    pub closed spec fn pending(&self) -> Seq<EventView> {
        if self.ended {
            Seq::empty()
        } else {
            upcoming(self.parser)
        }
    }

    /// A source never holds more events than a machine word counts.
    pub open spec fn wf(&self) -> bool {
        self.pending().len() <= usize::MAX
    }

    /// An event source at the start of `doc`.
    pub fn new(doc: &'a [u8]) -> (source: Self)
        ensures
            source.wf(),
            source.pending() == json_events(doc@),
    {
        // The length of a slice fits a machine word.
        let _ = doc.len();
        EventSource { parser: slice_parser(doc), ended: false }
    }

    /// The next event, or `None` at the end of the input, whether the document
    /// ends there or is broken there. After `None` comes `None` again.
    pub fn next_event(&mut self) -> (r: Option<Event>)
        requires
            old(self).wf(),
        ensures
            final(self).wf(),
            match r {
                Some(e) => {
                    &&& old(self).pending().len() > 0
                    &&& e@ == old(self).pending()[0]
                    &&& final(self).pending() == old(self).pending().skip(1)
                },
                None => old(self).pending().len() == 0 && final(self).pending().len() == 0,
            },
    {
        if self.ended {
            return None;
        }
        match parse_next(&mut self.parser) {
            Ok(Event::Eof) => {
                self.ended = true;
                None
            },
            Ok(e) => Some(e),
            Err(_) => {
                self.ended = true;
                None
            },
        }
    }
}

} // verus!
