//! Individuals, their names and their links to families.

use crate::text::str_eq;
use crate::types::event::{Event, EventView};
use vstd::prelude::*;
use vstd::string::*;

verus! {

/// The sex of an individual.
#[derive(Debug, PartialEq, Eq, Clone, Copy, Structural)]
pub enum Gender {
    Male,
    Female,
    Nonbinary,
    Unknown,
}

/// Whether a line value is one of the four codes of a sex.
pub open spec fn is_gender_code(value: Seq<char>) -> bool {
    value == "M"@ || value == "F"@ || value == "N"@ || value == "U"@
}

/// The sex that a line value names: `M`, `F`, `N` and `U` name the four, and
/// every other value leaves it unknown.
pub open spec fn gender_of(value: Seq<char>) -> Gender {
    if value == "M"@ {
        Gender::Male
    } else if value == "F"@ {
        Gender::Female
    } else if value == "N"@ {
        Gender::Nonbinary
    } else {
        Gender::Unknown
    }
}

impl Gender {
    /// The sex that a line value names, or nothing where the value is none
    /// of the four codes.
    pub fn from_code(value: &str) -> (g: Option<Gender>)
        ensures
            g is Some <==> is_gender_code(value@),
            g.unwrap_or(Gender::Unknown) == gender_of(value@),
    {
        if str_eq(value, "M") {
            Some(Gender::Male)
        } else if str_eq(value, "F") {
            Some(Gender::Female)
        } else if str_eq(value, "N") {
            Some(Gender::Nonbinary)
        } else if str_eq(value, "U") {
            Some(Gender::Unknown)
        } else {
            None
        }
    }
}

impl Default for Gender {
    fn default() -> (g: Gender)
        ensures
            g == Gender::Unknown,
    {
        Gender::Unknown
    }
}

/// The name of an individual: the name as written, and its parts.
#[derive(Debug, PartialEq, Eq, Clone)]
pub struct Name {
    pub value: Option<String>,
    pub given: Option<String>,
    pub surname: Option<String>,
    pub prefix: Option<String>,
    pub surname_prefix: Option<String>,
    pub suffix: Option<String>,
}

/// A name as a mathematical value.
pub struct NameView {
    pub value: Option<Seq<char>>,
    pub given: Option<Seq<char>>,
    pub surname: Option<Seq<char>>,
    pub prefix: Option<Seq<char>>,
    pub surname_prefix: Option<Seq<char>>,
    pub suffix: Option<Seq<char>>,
}

impl View for Name {
    type V = NameView;

    open spec fn view(&self) -> NameView {
        NameView {
            value: self.value.deep_view(),
            given: self.given.deep_view(),
            surname: self.surname.deep_view(),
            prefix: self.prefix.deep_view(),
            surname_prefix: self.surname_prefix.deep_view(),
            suffix: self.suffix.deep_view(),
        }
    }
}

impl DeepView for Name {
    type V = NameView;

    open spec fn deep_view(&self) -> NameView {
        self@
    }
}

impl NameView {
    /// The name of which nothing is known.
    pub open spec fn empty() -> NameView {
        NameView {
            value: None,
            given: None,
            surname: None,
            prefix: None,
            surname_prefix: None,
            suffix: None,
        }
    }
}

impl Default for Name {
    fn default() -> (n: Name)
        ensures
            n@ == NameView::empty(),
    {
        Name {
            value: None,
            given: None,
            surname: None,
            prefix: None,
            surname_prefix: None,
            suffix: None,
        }
    }
}

/// How an individual belongs to a family.
#[derive(Debug, PartialEq, Eq, Clone, Copy, Structural)]
pub enum FamilyLinkType {
    /// As a spouse: the link came with `FAMS`.
    Spouse,
    /// As a child: the link came with `FAMC`.
    Child,
}

/// The link from an individual to a family.
#[derive(Debug, PartialEq, Eq, Clone)]
pub struct FamilyLink {
    pub xref: String,
    pub kind: FamilyLinkType,
    pub pedigree: Option<String>,
}

/// A link to a family as a mathematical value.
pub struct FamilyLinkView {
    pub xref: Seq<char>,
    pub kind: FamilyLinkType,
    pub pedigree: Option<Seq<char>>,
}

impl View for FamilyLink {
    type V = FamilyLinkView;

    open spec fn view(&self) -> FamilyLinkView {
        FamilyLinkView { xref: self.xref@, kind: self.kind, pedigree: self.pedigree.deep_view() }
    }
}

impl DeepView for FamilyLink {
    type V = FamilyLinkView;

    open spec fn deep_view(&self) -> FamilyLinkView {
        self@
    }
}

/// The kind of link that a tag introduces: `FAMC` that of a child, every
/// other tag that of a spouse.
pub open spec fn link_type_of(tag: Seq<char>) -> FamilyLinkType {
    if tag == "FAMC"@ {
        FamilyLinkType::Child
    } else {
        FamilyLinkType::Spouse
    }
}

impl FamilyLink {
    /// The link to the family `xref` that the tag `tag` introduces.
    pub fn new(xref: String, tag: &str) -> (link: FamilyLink)
        ensures
            link@ == (FamilyLinkView { xref: xref@, kind: link_type_of(tag@), pedigree: None }),
    {
        let kind = if str_eq(tag, "FAMC") {
            FamilyLinkType::Child
        } else {
            FamilyLinkType::Spouse
        };
        FamilyLink { xref, kind, pedigree: None }
    }

    /// Sets the pedigree of the link.
    pub fn set_pedigree(&mut self, pedigree: String)
        ensures
            final(self)@ == (FamilyLinkView { pedigree: Some(pedigree@), ..old(self)@ }),
    {
        self.pedigree = Some(pedigree);
    }
}

/// A line with a user-defined tag, kept as tag and value.
#[derive(Debug, PartialEq, Eq, Clone)]
pub struct CustomData {
    pub tag: String,
    pub value: String,
}

/// A line with a user-defined tag as a mathematical value.
pub struct CustomDataView {
    pub tag: Seq<char>,
    pub value: Seq<char>,
}

impl View for CustomData {
    type V = CustomDataView;

    open spec fn view(&self) -> CustomDataView {
        CustomDataView { tag: self.tag@, value: self.value@ }
    }
}

impl DeepView for CustomData {
    type V = CustomDataView;

    open spec fn deep_view(&self) -> CustomDataView {
        self@
    }
}

/// A person.
#[derive(Debug, PartialEq, Eq, Clone)]
pub struct Individual {
    pub xref: Option<String>,
    pub name: Option<Name>,
    pub sex: Gender,
    pub families: Vec<FamilyLink>,
    pub custom_data: Vec<CustomData>,
    pub last_updated: Option<String>,
    pub events: Vec<Event>,
}

/// An individual as a mathematical value.
pub struct IndividualView {
    pub xref: Option<Seq<char>>,
    pub name: Option<NameView>,
    pub sex: Gender,
    pub families: Seq<FamilyLinkView>,
    pub custom_data: Seq<CustomDataView>,
    pub last_updated: Option<Seq<char>>,
    pub events: Seq<EventView>,
}

impl View for Individual {
    type V = IndividualView;

    open spec fn view(&self) -> IndividualView {
        IndividualView {
            xref: self.xref.deep_view(),
            name: self.name.deep_view(),
            sex: self.sex,
            families: self.families.deep_view(),
            custom_data: self.custom_data.deep_view(),
            last_updated: self.last_updated.deep_view(),
            events: self.events.deep_view(),
        }
    }
}

impl DeepView for Individual {
    type V = IndividualView;

    open spec fn deep_view(&self) -> IndividualView {
        self@
    }
}

impl IndividualView {
    /// The individual with the given identifier of whom nothing else is
    /// known.
    pub open spec fn new(xref: Option<Seq<char>>) -> IndividualView {
        IndividualView {
            xref,
            name: None,
            sex: Gender::Unknown,
            families: Seq::empty(),
            custom_data: Seq::empty(),
            last_updated: None,
            events: Seq::empty(),
        }
    }
}

impl Individual {
    /// The individual with the given identifier of whom nothing else is
    /// known.
    pub fn new(xref: Option<String>) -> (i: Individual)
        ensures
            i@ == IndividualView::new(xref.deep_view()),
    {
        let i = Individual {
            xref,
            name: None,
            sex: Gender::Unknown,
            families: Vec::new(),
            custom_data: Vec::new(),
            last_updated: None,
            events: Vec::new(),
        };
        assert(i@.families =~= Seq::empty());
        assert(i@.custom_data =~= Seq::empty());
        assert(i@.events =~= Seq::empty());
        i
    }

    /// Adds a link to a family after those the individual has.
    pub fn add_family(&mut self, link: FamilyLink)
        ensures
            final(self)@ == (IndividualView {
                families: old(self)@.families.push(link@),
                ..old(self)@
            }),
    {
        self.families.push(link);
        assert(self@.families =~= old(self)@.families.push(link@));
    }

    /// Adds a custom line after those the individual has.
    pub fn add_custom_data(&mut self, data: CustomData)
        ensures
            final(self)@ == (IndividualView {
                custom_data: old(self)@.custom_data.push(data@),
                ..old(self)@
            }),
    {
        self.custom_data.push(data);
        assert(self@.custom_data =~= old(self)@.custom_data.push(data@));
    }

    /// Adds an event after those the individual has.
    pub fn add_event(&mut self, event: Event)
        ensures
            final(self)@ == (IndividualView {
                events: old(self)@.events.push(event@),
                ..old(self)@
            }),
    {
        self.events.push(event);
        assert(self@.events =~= old(self)@.events.push(event@));
    }
}

} // verus!
