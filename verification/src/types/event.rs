//! Events, and the citations of sources that support them.

use crate::text::str_eq;
use vstd::prelude::*;
use vstd::string::*;

verus! {

/// The mention of a source: the pointer to it and, where given, the page.
#[derive(Debug, PartialEq, Eq, Clone)]
pub struct SourceCitation {
    pub xref: String,
    pub page: Option<String>,
}

/// The citation of a source as a mathematical value.
pub struct SourceCitationView {
    pub xref: Seq<char>,
    pub page: Option<Seq<char>>,
}

impl View for SourceCitation {
    type V = SourceCitationView;

    open spec fn view(&self) -> SourceCitationView {
        SourceCitationView { xref: self.xref@, page: self.page.deep_view() }
    }
}

impl DeepView for SourceCitation {
    type V = SourceCitationView;

    open spec fn deep_view(&self) -> SourceCitationView {
        self@
    }
}

/// The mention of a repository: the pointer to it and, where given, the call
/// number.
#[derive(Debug, PartialEq, Eq, Clone)]
pub struct RepoCitation {
    pub xref: String,
    pub call_number: Option<String>,
}

/// The citation of a repository as a mathematical value.
pub struct RepoCitationView {
    pub xref: Seq<char>,
    pub call_number: Option<Seq<char>>,
}

impl View for RepoCitation {
    type V = RepoCitationView;

    open spec fn view(&self) -> RepoCitationView {
        RepoCitationView { xref: self.xref@, call_number: self.call_number.deep_view() }
    }
}

impl DeepView for RepoCitation {
    type V = RepoCitationView;

    open spec fn deep_view(&self) -> RepoCitationView {
        self@
    }
}

/// What an event is. A tag that has no kind of its own is kept as it was
/// written.
#[derive(Debug, PartialEq, Eq, Clone)]
pub enum EventType {
    Adoption,
    Birth,
    Burial,
    Christening,
    Cremation,
    Death,
    Marriage,
    Residence,
    /// The events that a source records, as the source names them.
    SourceData(String),
    Other(String),
}

/// The kind of an event as a mathematical value.
pub enum EventTypeView {
    Adoption,
    Birth,
    Burial,
    Christening,
    Cremation,
    Death,
    Marriage,
    Residence,
    SourceData(Seq<char>),
    Other(Seq<char>),
}

impl View for EventType {
    type V = EventTypeView;

    open spec fn view(&self) -> EventTypeView {
        match self {
            EventType::Adoption => EventTypeView::Adoption,
            EventType::Birth => EventTypeView::Birth,
            EventType::Burial => EventTypeView::Burial,
            EventType::Christening => EventTypeView::Christening,
            EventType::Cremation => EventTypeView::Cremation,
            EventType::Death => EventTypeView::Death,
            EventType::Marriage => EventTypeView::Marriage,
            EventType::Residence => EventTypeView::Residence,
            EventType::SourceData(events) => EventTypeView::SourceData(events@),
            EventType::Other(tag) => EventTypeView::Other(tag@),
        }
    }
}

/// The kind of event that a tag names.
pub open spec fn event_type_of(tag: Seq<char>) -> EventTypeView {
    if tag == "ADOP"@ {
        EventTypeView::Adoption
    } else if tag == "BIRT"@ {
        EventTypeView::Birth
    } else if tag == "BURI"@ {
        EventTypeView::Burial
    } else if tag == "CHR"@ {
        EventTypeView::Christening
    } else if tag == "CREM"@ {
        EventTypeView::Cremation
    } else if tag == "DEAT"@ {
        EventTypeView::Death
    } else if tag == "MARR"@ {
        EventTypeView::Marriage
    } else if tag == "RESI"@ {
        EventTypeView::Residence
    } else {
        EventTypeView::Other(tag)
    }
}

/// Whether a tag under an individual begins an event of that individual's
/// life.
pub open spec fn is_life_event_tag(tag: Seq<char>) -> bool {
    tag == "ADOP"@ || tag == "BIRT"@ || tag == "BAPM"@ || tag == "BARM"@ || tag == "BASM"@ || tag
        == "BLES"@ || tag == "BURI"@ || tag == "CENS"@ || tag == "CHR"@ || tag == "CHRA"@ || tag
        == "CONF"@ || tag == "CREM"@ || tag == "DEAT"@ || tag == "EMIG"@ || tag == "FCOM"@ || tag
        == "GRAD"@ || tag == "IMMI"@ || tag == "NATU"@ || tag == "ORDN"@ || tag == "RETI"@ || tag
        == "RESI"@ || tag == "PROB"@ || tag == "WILL"@ || tag == "EVEN"@
}

/// Whether a tag under an individual begins an event of that individual's
/// life.
pub fn life_event_tag(tag: &str) -> (r: bool)
    ensures
        r == is_life_event_tag(tag@),
{
    str_eq(tag, "ADOP") || str_eq(tag, "BIRT") || str_eq(tag, "BAPM") || str_eq(tag, "BARM")
        || str_eq(tag, "BASM") || str_eq(tag, "BLES") || str_eq(tag, "BURI") || str_eq(
        tag,
        "CENS",
    ) || str_eq(tag, "CHR") || str_eq(tag, "CHRA") || str_eq(tag, "CONF") || str_eq(tag, "CREM")
        || str_eq(tag, "DEAT") || str_eq(tag, "EMIG") || str_eq(tag, "FCOM") || str_eq(
        tag,
        "GRAD",
    ) || str_eq(tag, "IMMI") || str_eq(tag, "NATU") || str_eq(tag, "ORDN") || str_eq(tag, "RETI")
        || str_eq(tag, "RESI") || str_eq(tag, "PROB") || str_eq(tag, "WILL") || str_eq(
        tag,
        "EVEN",
    )
}

impl EventType {
    /// The kind of event that a tag names.
    pub fn from_tag(tag: &str) -> (kind: EventType)
        ensures
            kind@ == event_type_of(tag@),
    {
        if str_eq(tag, "ADOP") {
            EventType::Adoption
        } else if str_eq(tag, "BIRT") {
            EventType::Birth
        } else if str_eq(tag, "BURI") {
            EventType::Burial
        } else if str_eq(tag, "CHR") {
            EventType::Christening
        } else if str_eq(tag, "CREM") {
            EventType::Cremation
        } else if str_eq(tag, "DEAT") {
            EventType::Death
        } else if str_eq(tag, "MARR") {
            EventType::Marriage
        } else if str_eq(tag, "RESI") {
            EventType::Residence
        } else {
            EventType::Other(String::from_str(tag))
        }
    }
}

/// Something that happened: what, when, where, and the sources that say so.
#[derive(Debug, PartialEq, Eq, Clone)]
pub struct Event {
    pub event: EventType,
    pub date: Option<String>,
    pub place: Option<String>,
    pub citations: Vec<SourceCitation>,
}

/// An event as a mathematical value.
pub struct EventView {
    pub event: EventTypeView,
    pub date: Option<Seq<char>>,
    pub place: Option<Seq<char>>,
    pub citations: Seq<SourceCitationView>,
}

impl View for Event {
    type V = EventView;

    open spec fn view(&self) -> EventView {
        EventView {
            event: self.event@,
            date: self.date.deep_view(),
            place: self.place.deep_view(),
            citations: self.citations.deep_view(),
        }
    }
}

impl DeepView for Event {
    type V = EventView;

    open spec fn deep_view(&self) -> EventView {
        self@
    }
}

impl EventView {
    /// An event of the given kind of which nothing else is known.
    pub open spec fn new(event: EventTypeView) -> EventView {
        EventView { event, date: None, place: None, citations: Seq::empty() }
    }
}

impl Event {
    /// An event of the given kind of which nothing else is known.
    pub fn new(etype: EventType) -> (e: Event)
        ensures
            e@ == EventView::new(etype@),
    {
        let e = Event { event: etype, date: None, place: None, citations: Vec::new() };
        assert(e@.citations =~= Seq::empty());
        e
    }

    /// An event of the kind that `tag` names.
    pub fn from_tag(tag: &str) -> (e: Event)
        ensures
            e@ == EventView::new(event_type_of(tag@)),
    {
        Event::new(EventType::from_tag(tag))
    }

    /// Makes the event the record of what a source holds: its kind becomes
    /// the events that the source records, as `recorded` names them.
    pub fn with_source_data(&mut self, recorded: String)
        ensures
            final(self)@ == (EventView {
                event: EventTypeView::SourceData(recorded@),
                ..old(self)@
            }),
    {
        self.event = EventType::SourceData(recorded);
    }

    /// Adds a citation after those the event has.
    pub fn add_citation(&mut self, citation: SourceCitation)
        ensures
            final(self)@ == (EventView {
                citations: old(self)@.citations.push(citation@),
                ..old(self)@
            }),
    {
        self.citations.push(citation);
        assert(self@.citations =~= old(self)@.citations.push(citation@));
    }
}

} // verus!
