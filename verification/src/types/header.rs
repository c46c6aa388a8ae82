//! The header of a file.

use vstd::prelude::*;
use vstd::string::*;

verus! {

/// What a file says about itself. Every part may be missing.
#[derive(Debug, PartialEq, Eq, Clone)]
pub struct Header {
    pub encoding: Option<String>,
    pub copyright: Option<String>,
    pub corporation: Option<String>,
    pub date: Option<String>,
    pub destinations: Vec<String>,
    pub gedcom_version: Option<String>,
    pub language: Option<String>,
    pub filename: Option<String>,
    pub note: Option<String>,
    pub submitter_tag: Option<String>,
    pub submission_tag: Option<String>,
}

/// A header as a mathematical value.
pub struct HeaderView {
    pub encoding: Option<Seq<char>>,
    pub copyright: Option<Seq<char>>,
    pub corporation: Option<Seq<char>>,
    pub date: Option<Seq<char>>,
    pub destinations: Seq<Seq<char>>,
    pub gedcom_version: Option<Seq<char>>,
    pub language: Option<Seq<char>>,
    pub filename: Option<Seq<char>>,
    pub note: Option<Seq<char>>,
    pub submitter_tag: Option<Seq<char>>,
    pub submission_tag: Option<Seq<char>>,
}

impl View for Header {
    type V = HeaderView;

    open spec fn view(&self) -> HeaderView {
        HeaderView {
            encoding: self.encoding.deep_view(),
            copyright: self.copyright.deep_view(),
            corporation: self.corporation.deep_view(),
            date: self.date.deep_view(),
            destinations: self.destinations.deep_view(),
            gedcom_version: self.gedcom_version.deep_view(),
            language: self.language.deep_view(),
            filename: self.filename.deep_view(),
            note: self.note.deep_view(),
            submitter_tag: self.submitter_tag.deep_view(),
            submission_tag: self.submission_tag.deep_view(),
        }
    }
}

impl DeepView for Header {
    type V = HeaderView;

    open spec fn deep_view(&self) -> HeaderView {
        self@
    }
}

impl HeaderView {
    /// The header that says nothing.
    pub open spec fn empty() -> HeaderView {
        HeaderView {
            encoding: None,
            copyright: None,
            corporation: None,
            date: None,
            destinations: Seq::empty(),
            gedcom_version: None,
            language: None,
            filename: None,
            note: None,
            submitter_tag: None,
            submission_tag: None,
        }
    }
}

impl Default for Header {
    fn default() -> (h: Header)
        ensures
            h@ == HeaderView::empty(),
    {
        let h = Header {
            encoding: None,
            copyright: None,
            corporation: None,
            date: None,
            destinations: Vec::new(),
            gedcom_version: None,
            language: None,
            filename: None,
            note: None,
            submitter_tag: None,
            submission_tag: None,
        };
        assert(h@.destinations =~= Seq::empty());
        h
    }
}

impl Header {
    /// Adds a destination after those the header has.
    pub fn add_destination(&mut self, destination: String)
        ensures
            final(self)@ == (HeaderView {
                destinations: old(self)@.destinations.push(destination@),
                ..old(self)@
            }),
    {
        self.destinations.push(destination);
        assert(self@.destinations =~= old(self)@.destinations.push(destination@));
    }
}

} // verus!
