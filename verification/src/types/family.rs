//! Families.

use crate::types::event::{Event, EventView};
use vstd::prelude::*;
use vstd::string::*;

verus! {

/// A family: two partners, their children and what happened to the family.
/// The partners and the children are pointers to individuals.
#[derive(Debug, PartialEq, Eq, Clone)]
pub struct Family {
    pub xref: Option<String>,
    /// The partner that a `HUSB` line names.
    pub individual1: Option<String>,
    /// The partner that a `WIFE` line names.
    pub individual2: Option<String>,
    pub children: Vec<String>,
    pub events: Vec<Event>,
}

/// A family as a mathematical value.
pub struct FamilyView {
    pub xref: Option<Seq<char>>,
    pub individual1: Option<Seq<char>>,
    pub individual2: Option<Seq<char>>,
    pub children: Seq<Seq<char>>,
    pub events: Seq<EventView>,
}

impl View for Family {
    type V = FamilyView;

    open spec fn view(&self) -> FamilyView {
        FamilyView {
            xref: self.xref.deep_view(),
            individual1: self.individual1.deep_view(),
            individual2: self.individual2.deep_view(),
            children: self.children.deep_view(),
            events: self.events.deep_view(),
        }
    }
}

impl DeepView for Family {
    type V = FamilyView;

    open spec fn deep_view(&self) -> FamilyView {
        self@
    }
}

impl FamilyView {
    /// The family with the given identifier of which nothing else is known.
    pub open spec fn new(xref: Option<Seq<char>>) -> FamilyView {
        FamilyView {
            xref,
            individual1: None,
            individual2: None,
            children: Seq::empty(),
            events: Seq::empty(),
        }
    }
}

impl Family {
    /// The family with the given identifier of which nothing else is known.
    pub fn new(xref: Option<String>) -> (f: Family)
        ensures
            f@ == FamilyView::new(xref.deep_view()),
    {
        let f = Family {
            xref,
            individual1: None,
            individual2: None,
            children: Vec::new(),
            events: Vec::new(),
        };
        assert(f@.children =~= Seq::empty());
        assert(f@.events =~= Seq::empty());
        f
    }

    /// Sets the first partner.
    pub fn set_individual1(&mut self, xref: String)
        ensures
            final(self)@ == (FamilyView { individual1: Some(xref@), ..old(self)@ }),
    {
        self.individual1 = Some(xref);
    }

    /// Sets the second partner.
    pub fn set_individual2(&mut self, xref: String)
        ensures
            final(self)@ == (FamilyView { individual2: Some(xref@), ..old(self)@ }),
    {
        self.individual2 = Some(xref);
    }

    /// Adds a child after those the family has.
    pub fn add_child(&mut self, xref: String)
        ensures
            final(self)@ == (FamilyView {
                children: old(self)@.children.push(xref@),
                ..old(self)@
            }),
    {
        self.children.push(xref);
        assert(self@.children =~= old(self)@.children.push(xref@));
    }

    /// Adds an event after those the family has.
    pub fn add_event(&mut self, event: Event)
        ensures
            final(self)@ == (FamilyView { events: old(self)@.events.push(event@), ..old(self)@ }),
    {
        self.events.push(event);
        assert(self@.events =~= old(self)@.events.push(event@));
    }
}

} // verus!
