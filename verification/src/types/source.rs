//! Sources, repositories and submitters.

use crate::types::address::{Address, AddressView};
use crate::types::event::{Event, EventView, RepoCitation, RepoCitationView};
use vstd::prelude::*;
use vstd::string::*;

verus! {

/// What a source holds: the events it records and the agency that made it.
#[derive(Debug, PartialEq, Eq, Clone)]
pub struct SourceData {
    pub events: Vec<Event>,
    pub agency: Option<String>,
}

/// What a source holds, as a mathematical value.
pub struct SourceDataView {
    pub events: Seq<EventView>,
    pub agency: Option<Seq<char>>,
}

impl View for SourceData {
    type V = SourceDataView;

    open spec fn view(&self) -> SourceDataView {
        SourceDataView { events: self.events.deep_view(), agency: self.agency.deep_view() }
    }
}

impl SourceData {
    /// Adds an event after those the source records.
    pub fn add_event(&mut self, event: Event)
        ensures
            final(self)@ == (SourceDataView {
                events: old(self)@.events.push(event@),
                ..old(self)@
            }),
    {
        self.events.push(event);
        assert(self@.events =~= old(self)@.events.push(event@));
    }
}

/// A source of what the file says.
#[derive(Debug, PartialEq, Eq, Clone)]
pub struct Source {
    pub xref: Option<String>,
    pub data: SourceData,
    pub abbreviation: Option<String>,
    pub title: Option<String>,
    pub repo_citations: Vec<RepoCitation>,
}

/// A source as a mathematical value.
pub struct SourceView {
    pub xref: Option<Seq<char>>,
    pub data: SourceDataView,
    pub abbreviation: Option<Seq<char>>,
    pub title: Option<Seq<char>>,
    pub repo_citations: Seq<RepoCitationView>,
}

impl View for Source {
    type V = SourceView;

    open spec fn view(&self) -> SourceView {
        SourceView {
            xref: self.xref.deep_view(),
            data: self.data@,
            abbreviation: self.abbreviation.deep_view(),
            title: self.title.deep_view(),
            repo_citations: self.repo_citations.deep_view(),
        }
    }
}

impl SourceView {
    /// The source with the given identifier of which nothing else is known.
    pub open spec fn new(xref: Option<Seq<char>>) -> SourceView {
        SourceView {
            xref,
            data: SourceDataView { events: Seq::empty(), agency: None },
            abbreviation: None,
            title: None,
            repo_citations: Seq::empty(),
        }
    }
}

impl Source {
    /// The source with the given identifier of which nothing else is known.
    pub fn new(xref: Option<String>) -> (source: Source)
        ensures
            source@ == SourceView::new(xref.deep_view()),
    {
        let source = Source {
            xref,
            data: SourceData { events: Vec::new(), agency: None },
            abbreviation: None,
            title: None,
            repo_citations: Vec::new(),
        };
        assert(source@.data.events =~= Seq::empty());
        assert(source@.repo_citations =~= Seq::empty());
        source
    }

    /// Adds the citation of a repository after those the source has.
    pub fn add_repo_citation(&mut self, citation: RepoCitation)
        ensures
            final(self)@ == (SourceView {
                repo_citations: old(self)@.repo_citations.push(citation@),
                ..old(self)@
            }),
    {
        self.repo_citations.push(citation);
        assert(self@.repo_citations =~= old(self)@.repo_citations.push(citation@));
    }
}

/// A place where sources are kept.
#[derive(Debug, PartialEq, Eq, Clone)]
pub struct Repository {
    pub xref: Option<String>,
    pub name: Option<String>,
    pub address: Option<Address>,
}

/// A repository as a mathematical value.
pub struct RepositoryView {
    pub xref: Option<Seq<char>>,
    pub name: Option<Seq<char>>,
    pub address: Option<AddressView>,
}

impl View for Repository {
    type V = RepositoryView;

    open spec fn view(&self) -> RepositoryView {
        RepositoryView {
            xref: self.xref.deep_view(),
            name: self.name.deep_view(),
            address: self.address.deep_view(),
        }
    }
}

impl RepositoryView {
    /// The repository with the given identifier of which nothing else is
    /// known.
    pub open spec fn new(xref: Option<Seq<char>>) -> RepositoryView {
        RepositoryView { xref, name: None, address: None }
    }
}

/// Who handed in the file.
#[derive(Debug, PartialEq, Eq, Clone)]
pub struct Submitter {
    pub xref: Option<String>,
    pub name: Option<String>,
    pub address: Option<Address>,
    pub phone: Option<String>,
}

/// A submitter as a mathematical value.
pub struct SubmitterView {
    pub xref: Option<Seq<char>>,
    pub name: Option<Seq<char>>,
    pub address: Option<AddressView>,
    pub phone: Option<Seq<char>>,
}

impl View for Submitter {
    type V = SubmitterView;

    open spec fn view(&self) -> SubmitterView {
        SubmitterView {
            xref: self.xref.deep_view(),
            name: self.name.deep_view(),
            address: self.address.deep_view(),
            phone: self.phone.deep_view(),
        }
    }
}

impl SubmitterView {
    /// The submitter with the given identifier of whom nothing else is
    /// known.
    pub open spec fn new(xref: Option<Seq<char>>) -> SubmitterView {
        SubmitterView { xref, name: None, address: None, phone: None }
    }
}

impl Submitter {
    /// The submitter with the given identifier of whom nothing else is
    /// known.
    pub fn new(xref: Option<String>) -> (submitter: Submitter)
        ensures
            submitter@ == SubmitterView::new(xref.deep_view()),
    {
        Submitter { xref, name: None, address: None, phone: None }
    }
}

} // verus!
