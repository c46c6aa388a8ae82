//! The document: what a GEDCOM file holds.

use crate::types::family::{Family, FamilyView};
use crate::types::header::{Header, HeaderView};
use crate::types::individual::{Individual, IndividualView};
use vstd::prelude::*;

verus! {

/// The header, the individuals and the families of a file, in the order in
/// which the file gives them. Nothing is checked here: two records may carry
/// the same identifier.
#[derive(Debug, PartialEq, Eq, Clone)]
pub struct GedcomData {
    pub header: Header,
    pub families: Vec<Family>,
    pub individuals: Vec<Individual>,
}

/// A document as a mathematical value.
pub struct GedcomDataView {
    pub header: HeaderView,
    pub families: Seq<FamilyView>,
    pub individuals: Seq<IndividualView>,
}

/// How many records of each sort a document holds.
#[derive(Debug, PartialEq, Eq, Clone, Copy, Structural)]
pub struct Summary {
    pub individuals: usize,
    pub families: usize,
}

impl View for GedcomData {
    type V = GedcomDataView;

    open spec fn view(&self) -> GedcomDataView {
        GedcomDataView {
            header: self.header@,
            families: self.families.deep_view(),
            individuals: self.individuals.deep_view(),
        }
    }
}

impl GedcomDataView {
    /// The document that holds nothing.
    pub open spec fn empty() -> GedcomDataView {
        GedcomDataView {
            header: HeaderView::empty(),
            families: Seq::empty(),
            individuals: Seq::empty(),
        }
    }

    /// This document with one more family at the end.
    pub open spec fn add_family(self, family: FamilyView) -> GedcomDataView {
        GedcomDataView { families: self.families.push(family), ..self }
    }

    /// This document with one more individual at the end.
    pub open spec fn add_individual(self, individual: IndividualView) -> GedcomDataView {
        GedcomDataView { individuals: self.individuals.push(individual), ..self }
    }
}

impl Default for GedcomData {
    fn default() -> (d: GedcomData)
        ensures
            d@ == GedcomDataView::empty(),
    {
        let d = GedcomData {
            header: Header::default(),
            families: Vec::new(),
            individuals: Vec::new(),
        };
        assert(d@.families =~= Seq::empty());
        assert(d@.individuals =~= Seq::empty());
        d
    }
}

impl GedcomData {
    /// Adds a family after those the document has.
    pub fn add_family(&mut self, family: Family)
        ensures
            final(self)@ == old(self)@.add_family(family@),
    {
        self.families.push(family);
        assert(self@.families =~= old(self)@.families.push(family@));
    }

    /// Adds an individual after those the document has.
    pub fn add_individual(&mut self, individual: Individual)
        ensures
            final(self)@ == old(self)@.add_individual(individual@),
    {
        self.individuals.push(individual);
        assert(self@.individuals =~= old(self)@.individuals.push(individual@));
    }

    /// The numbers of individuals and of families.
    pub fn stats(&self) -> (s: Summary)
        ensures
            s.individuals == self@.individuals.len(),
            s.families == self@.families.len(),
    {
        Summary { individuals: self.individuals.len(), families: self.families.len() }
    }
}

} // verus!
