//! XML events, their mathematical model, and the trusted reader.

use vstd::prelude::*;
use xml::reader::{EventReader, XmlEvent};

verus! {

/// One XML event, reduced to what the traversal consults: local element
/// names, attribute `(name, value)` pairs, and character data. Every event
/// kind the reader can yield that carries none of these maps to `Other`.
pub enum Event {
    Start { name: String, attrs: Vec<(String, String)> },
    End { name: String },
    Text { text: String },
    Other,
}

/// The mathematical form of an event: character sequences only.
#[verifier::ext_equal]
pub enum Ev {
    Start { name: Seq<char>, attrs: Seq<(Seq<char>, Seq<char>)> },
    End { name: Seq<char> },
    Text { text: Seq<char> },
    Other,
}

impl View for Event {
    type V = Ev;

    open spec fn view(&self) -> Ev {
        match self {
            Event::Start { name, attrs } => Ev::Start { name: name@, attrs: attrs.deep_view() },
            Event::End { name } => Ev::End { name: name@ },
            Event::Text { text } => Ev::Text { text: text@ },
            Event::Other => Ev::Other,
        }
    }
}

impl DeepView for Event {
    type V = Ev;

    open spec fn deep_view(&self) -> Ev {
        self.view()
    }
}

/// What `xml::reader::EventReader` yields for a document text: `Some` of the
/// event sequence when the document parses to its end, `None` when the reader
/// reports an error. Parsing depends on the text alone.
pub uninterp spec fn xml_events_of(text: Seq<char>) -> Option<Seq<Ev>>;

/// Relies on `xml::reader::EventReader`: events come in document order;
/// `next` yields `EndDocument` exactly once after the last content event of a
/// well-formed document, and `Err` on malformed input.
#[verifier::external_body]
pub(crate) fn parse_events(text: &str) -> (r: Result<Vec<Event>, String>)
    ensures
        match r {
            Ok(events) => xml_events_of(text@) == Some(events.deep_view()),
            Err(_) => xml_events_of(text@) is None,
        },
{
    let mut parser = EventReader::from_str(text);
    let mut events = Vec::new();
    loop {
        match parser.next() {
            Ok(XmlEvent::StartElement { name, attributes, .. }) => events.push(Event::Start {
                name: name.local_name,
                attrs: attributes.into_iter().map(|a| (a.name.local_name, a.value)).collect(),
            }),
            Ok(XmlEvent::EndElement { name }) => events.push(Event::End { name: name.local_name }),
            Ok(XmlEvent::Characters(chunk)) => events.push(Event::Text { text: chunk }),
            Ok(XmlEvent::EndDocument) => return Ok(events),
            Ok(_) => events.push(Event::Other),
            Err(e) => return Err(e.to_string()),
        }
    }
}

} // verus!
