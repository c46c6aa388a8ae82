//! The parts that records are made of: line values, continued texts, names,
//! events, citations, addresses and links to families.

use crate::diagnostic::{Anomaly, Scope};
use crate::state::{lemma_skip_to, lemma_skip_to_nested, ParseState};
use crate::token::TokenView;
use crate::types::address::AddressView;
use crate::types::event::{RepoCitationView, SourceCitationView};
use crate::types::individual::{
    gender_of, is_gender_code, link_type_of, CustomDataView, FamilyLinkView, Gender, NameView,
};
use vstd::prelude::*;

verus! {

/// The value of the current line. The current token is the tag of the line;
/// it is passed over, and so is the line value that follows it. Where no
/// line value follows, the value is empty, this is reported, and the token
/// that stands there stays.
pub open spec fn take_line_value(s: ParseState) -> (Seq<char>, ParseState) {
    let s1 = s.advance();
    match s1.current() {
        TokenView::LineValue(v) => (v, s1.advance()),
        other => (Seq::empty(), s1.warn(Scope::LineValue, Anomaly::MissingLineValue, other)),
    }
}

/// Reading a line value uses the tag and stays inside every scope that the
/// tag is in.
pub proof fn lemma_take_line_value(s: ParseState, level: u8)
    requires
        !s.current().closes(level),
    ensures
        take_line_value(s).1.len() < s.len(),
        take_line_value(s).1.stream.skip_to(level) == s.stream.skip_to(level),
        take_line_value(s).1.stream == s.stream.advance() || take_line_value(s).1.stream
            == s.stream.advance().advance(),
{
    let s1 = s.advance();
    assert(s.stream.skip_to(level) == s1.stream.skip_to(level));
    if s1.current() is LineValue {
        assert(s1.stream.skip_to(level) == s1.stream.advance().skip_to(level));
    }
}

/// The line with a user-defined tag: the tag and the value of the line.
pub open spec fn parse_custom_tag(s: ParseState, tag: Seq<char>) -> (CustomDataView, ParseState) {
    let (value, s1) = take_line_value(s);
    (CustomDataView { tag, value }, s1)
}

/// The sex that a `SEX` line gives. The current token is the tag. A value
/// that is no code of a sex, and a missing value, are reported and leave the
/// sex unknown; a token that is no line value stays.
pub open spec fn parse_gender(s: ParseState) -> (Gender, ParseState) {
    let s1 = s.advance();
    match s1.current() {
        TokenView::LineValue(v) => (
            gender_of(v),
            if is_gender_code(v) {
                s1.advance()
            } else {
                s1.warn(Scope::Individual, Anomaly::UnknownGender, TokenView::LineValue(v)).advance()
            },
        ),
        other => (Gender::Unknown, s1.warn(Scope::Individual, Anomaly::MissingGender, other)),
    }
}

/// Reading a sex uses the tag and stays inside every scope that the tag is
/// in.
pub proof fn lemma_parse_gender(s: ParseState, level: u8)
    requires
        !s.current().closes(level),
    ensures
        parse_gender(s).1.len() < s.len(),
        parse_gender(s).1.stream.skip_to(level) == s.stream.skip_to(level),
{
    let s1 = s.advance();
    assert(s.stream.skip_to(level) == s1.stream.skip_to(level));
    if s1.current() is LineValue {
        assert(s1.stream.skip_to(level) == s1.stream.advance().skip_to(level));
    }
}

/// Whether a tag continues a text.
pub open spec fn is_continuation(tag: Seq<char>) -> bool {
    tag == "CONT"@ || tag == "CONC"@
}

/// A text with one more line: a `CONT` line adds a line feed and its value,
/// a `CONC` line a space and its value.
pub open spec fn continued_with(text: Seq<char>, tag: Seq<char>, value: Seq<char>) -> Seq<char> {
    if tag == "CONT"@ {
        text + seq!['\n'] + value
    } else if tag == "CONC"@ {
        text + seq![' '] + value
    } else {
        text
    }
}

/// The rest of a continued text, from the state after its first line.
/// `text` is the text so far, `cur` the level of the line last read and
/// `start` the level at which the text began. The lines `CONT` and `CONC`
/// add to the text; everything else is reported and skipped.
pub open spec fn continued(s: ParseState, text: Seq<char>, cur: u8, start: u8) -> (Seq<char>, ParseState)
    decreases s.len(),
{
    match s.current() {
        TokenView::EOF => (text, s),
        TokenView::Level(n) => if n <= start {
            (text, s)
        } else {
            continued(s.advance(), text, n, start)
        },
        TokenView::Tag(t) => {
            proof {
                lemma_take_line_value(s, cur);
                lemma_skip_to(s.stream, cur);
            }
            if is_continuation(t) {
                let (v, s1) = take_line_value(s);
                let text2 = continued_with(text, t, v);
                continued(s1, text2, cur, start)
            } else {
                continued(
                    s.warn(Scope::Continuation, Anomaly::UnhandledTag, TokenView::Tag(t)).skip(cur),
                    text,
                    cur,
                    start,
                )
            }
        },
        other => {
            proof {
                lemma_skip_to(s.stream, cur);
            }
            continued(
                s.warn(Scope::Continuation, Anomaly::UnhandledToken, other).skip(cur),
                text,
                cur,
                start,
            )
        },
    }
}

/// The text of a line with the lines that continue it. The current token is
/// the tag of the line, which is at the level `start`.
pub open spec fn take_continued_text(s: ParseState, start: u8) -> (Seq<char>, ParseState) {
    let (value, s1) = take_line_value(s);
    continued(s1, value, start, start)
}

/// Whether a tag names a part of a citation of a source.
pub open spec fn is_citation_part(tag: Seq<char>) -> bool {
    tag == "PAGE"@
}

/// A citation of a source with one more part: a `PAGE` line gives the page.
pub open spec fn citation_with(
    citation: SourceCitationView,
    tag: Seq<char>,
    value: Seq<char>,
) -> SourceCitationView {
    if tag == "PAGE"@ {
        SourceCitationView { page: Some(value), ..citation }
    } else {
        citation
    }
}

/// The rest of a citation of a source: its parts are read, and everything
/// else is reported and skipped.
pub open spec fn citation_loop(s: ParseState, citation: SourceCitationView, cur: u8, start: u8) -> (SourceCitationView, ParseState)
    decreases s.len(),
{
    match s.current() {
        TokenView::EOF => (citation, s),
        TokenView::Level(n) => if n <= start {
            (citation, s)
        } else {
            citation_loop(s.advance(), citation, n, start)
        },
        TokenView::Tag(t) => {
            proof {
                lemma_take_line_value(s, cur);
                lemma_skip_to(s.stream, cur);
            }
            if is_citation_part(t) {
                let (v, s1) = take_line_value(s);
                let citation2 = citation_with(citation, t, v);
                citation_loop(s1, citation2, cur, start)
            } else {
                citation_loop(
                    s.warn(Scope::Citation, Anomaly::UnhandledTag, TokenView::Tag(t)).skip(cur),
                    citation,
                    cur,
                    start,
                )
            }
        },
        other => {
            proof {
                lemma_skip_to(s.stream, cur);
            }
            citation_loop(
                s.warn(Scope::Citation, Anomaly::UnhandledToken, other).skip(cur),
                citation,
                cur,
                start,
            )
        },
    }
}

/// The citation of a source. The current token is the tag of its line,
/// which is at the level `start`; the value of the line is the pointer.
pub open spec fn parse_citation(s: ParseState, start: u8) -> (SourceCitationView, ParseState) {
    let (xref, s1) = take_line_value(s);
    citation_loop(s1, SourceCitationView { xref, page: None }, start, start)
}

/// Whether a tag names a part of a citation of a repository.
pub open spec fn is_repo_citation_part(tag: Seq<char>) -> bool {
    tag == "CALN"@
}

/// A citation of a repository with one more part: a `CALN` line gives the
/// call number.
pub open spec fn repo_citation_with(
    citation: RepoCitationView,
    tag: Seq<char>,
    value: Seq<char>,
) -> RepoCitationView {
    if tag == "CALN"@ {
        RepoCitationView { call_number: Some(value), ..citation }
    } else {
        citation
    }
}

/// The rest of a citation of a repository: its parts are read, and
/// everything else is reported and skipped.
pub open spec fn repo_citation_loop(s: ParseState, citation: RepoCitationView, cur: u8, start: u8) -> (RepoCitationView, ParseState)
    decreases s.len(),
{
    match s.current() {
        TokenView::EOF => (citation, s),
        TokenView::Level(n) => if n <= start {
            (citation, s)
        } else {
            repo_citation_loop(s.advance(), citation, n, start)
        },
        TokenView::Tag(t) => {
            proof {
                lemma_take_line_value(s, cur);
                lemma_skip_to(s.stream, cur);
            }
            if is_repo_citation_part(t) {
                let (v, s1) = take_line_value(s);
                let citation2 = repo_citation_with(citation, t, v);
                repo_citation_loop(s1, citation2, cur, start)
            } else {
                repo_citation_loop(
                    s.warn(Scope::RepoCitation, Anomaly::UnhandledTag, TokenView::Tag(t)).skip(cur),
                    citation,
                    cur,
                    start,
                )
            }
        },
        other => {
            proof {
                lemma_skip_to(s.stream, cur);
            }
            repo_citation_loop(
                s.warn(Scope::RepoCitation, Anomaly::UnhandledToken, other).skip(cur),
                citation,
                cur,
                start,
            )
        },
    }
}

/// The citation of a repository. The current token is the tag of its line,
/// which is at the level `start`; the value of the line is the pointer.
pub open spec fn parse_repo_citation(s: ParseState, start: u8) -> (RepoCitationView, ParseState) {
    let (xref, s1) = take_line_value(s);
    repo_citation_loop(s1, RepoCitationView { xref, call_number: None }, start, start)
}

/// Whether a tag names a part of a link to a family.
pub open spec fn is_family_link_part(tag: Seq<char>) -> bool {
    tag == "PEDI"@
}

/// A link to a family with one more part: a `PEDI` line gives the pedigree.
pub open spec fn family_link_with(
    link: FamilyLinkView,
    tag: Seq<char>,
    value: Seq<char>,
) -> FamilyLinkView {
    if tag == "PEDI"@ {
        FamilyLinkView { pedigree: Some(value), ..link }
    } else {
        link
    }
}

/// The rest of a link to a family: its parts are read, and everything else
/// is reported and skipped.
pub open spec fn family_link_loop(s: ParseState, link: FamilyLinkView, cur: u8, start: u8) -> (FamilyLinkView, ParseState)
    decreases s.len(),
{
    match s.current() {
        TokenView::EOF => (link, s),
        TokenView::Level(n) => if n <= start {
            (link, s)
        } else {
            family_link_loop(s.advance(), link, n, start)
        },
        TokenView::Tag(t) => {
            proof {
                lemma_take_line_value(s, cur);
                lemma_skip_to(s.stream, cur);
            }
            if is_family_link_part(t) {
                let (v, s1) = take_line_value(s);
                let link2 = family_link_with(link, t, v);
                family_link_loop(s1, link2, cur, start)
            } else {
                family_link_loop(
                    s.warn(Scope::FamilyLink, Anomaly::UnhandledTag, TokenView::Tag(t)).skip(cur),
                    link,
                    cur,
                    start,
                )
            }
        },
        other => {
            proof {
                lemma_skip_to(s.stream, cur);
            }
            family_link_loop(
                s.warn(Scope::FamilyLink, Anomaly::UnhandledToken, other).skip(cur),
                link,
                cur,
                start,
            )
        },
    }
}

/// The link from an individual to a family. The current token is the tag of
/// its line, `FAMC` or `FAMS`, which is at the level `start`; `tag` is that
/// tag, and the value of the line is the pointer to the family.
pub open spec fn parse_family_link(s: ParseState, tag: Seq<char>, start: u8) -> (
    FamilyLinkView,
    ParseState,
) {
    let (xref, s1) = take_line_value(s);
    family_link_loop(
        s1,
        FamilyLinkView { xref, kind: link_type_of(tag), pedigree: None },
        start,
        start,
    )
}

/// Whether a tag names a part of a name.
pub open spec fn is_name_part(tag: Seq<char>) -> bool {
    tag == "GIVN"@ || tag == "NPFX"@ || tag == "NSFX"@ || tag == "SPFX"@ || tag == "SURN"@
}

/// A name with one more part: `GIVN` gives the given name, `NPFX` the
/// prefix, `NSFX` the suffix, `SPFX` the prefix of the surname and `SURN` the
/// surname.
pub open spec fn name_with(name: NameView, tag: Seq<char>, value: Seq<char>) -> NameView {
    if tag == "GIVN"@ {
        NameView { given: Some(value), ..name }
    } else if tag == "NPFX"@ {
        NameView { prefix: Some(value), ..name }
    } else if tag == "NSFX"@ {
        NameView { suffix: Some(value), ..name }
    } else if tag == "SPFX"@ {
        NameView { surname_prefix: Some(value), ..name }
    } else if tag == "SURN"@ {
        NameView { surname: Some(value), ..name }
    } else {
        name
    }
}

/// The rest of a name: its parts are read, and everything else is reported
/// and skipped.
pub open spec fn name_loop(s: ParseState, name: NameView, cur: u8, start: u8) -> (NameView, ParseState)
    decreases s.len(),
{
    match s.current() {
        TokenView::EOF => (name, s),
        TokenView::Level(n) => if n <= start {
            (name, s)
        } else {
            name_loop(s.advance(), name, n, start)
        },
        TokenView::Tag(t) => {
            proof {
                lemma_take_line_value(s, cur);
                lemma_skip_to(s.stream, cur);
            }
            if is_name_part(t) {
                let (v, s1) = take_line_value(s);
                let name2 = name_with(name, t, v);
                name_loop(s1, name2, cur, start)
            } else {
                name_loop(
                    s.warn(Scope::Name, Anomaly::UnhandledTag, TokenView::Tag(t)).skip(cur),
                    name,
                    cur,
                    start,
                )
            }
        },
        other => {
            proof {
                lemma_skip_to(s.stream, cur);
            }
            name_loop(
                s.warn(Scope::Name, Anomaly::UnhandledToken, other).skip(cur),
                name,
                cur,
                start,
            )
        },
    }
}

/// The name of an individual. The current token is the tag of its line,
/// which is at the level `start`; the value of the line is the name as
/// written.
pub open spec fn parse_name(s: ParseState, start: u8) -> (NameView, ParseState) {
    let (value, s1) = take_line_value(s);
    name_loop(s1, NameView { value: Some(value), ..NameView::empty() }, start, start)
}

/// Whether a tag names a part of an address.
pub open spec fn is_address_part(tag: Seq<char>) -> bool {
    tag == "CONT"@ || tag == "ADR1"@ || tag == "ADR2"@ || tag == "ADR3"@ || tag == "CITY"@ || tag
        == "STAE"@ || tag == "POST"@ || tag == "CTRY"@
}

/// An address and its text with one more line: a `CONT` line adds a line
/// feed and its value to the text, and the lines `ADR1`, `ADR2`, `ADR3`,
/// `CITY`, `STAE`, `POST` and `CTRY` give the parts.
pub open spec fn address_with(
    address: AddressView,
    text: Seq<char>,
    tag: Seq<char>,
    value: Seq<char>,
) -> (AddressView, Seq<char>) {
    if tag == "CONT"@ {
        (address, text + seq!['\n'] + value)
    } else if tag == "ADR1"@ {
        (AddressView { adr1: Some(value), ..address }, text)
    } else if tag == "ADR2"@ {
        (AddressView { adr2: Some(value), ..address }, text)
    } else if tag == "ADR3"@ {
        (AddressView { adr3: Some(value), ..address }, text)
    } else if tag == "CITY"@ {
        (AddressView { city: Some(value), ..address }, text)
    } else if tag == "STAE"@ {
        (AddressView { state: Some(value), ..address }, text)
    } else if tag == "POST"@ {
        (AddressView { post: Some(value), ..address }, text)
    } else if tag == "CTRY"@ {
        (AddressView { country: Some(value), ..address }, text)
    } else {
        (address, text)
    }
}

/// The rest of an address, with the text of the address so far: its lines
/// are read, and everything else is reported and skipped.
pub open spec fn address_loop(s: ParseState, address: AddressView, text: Seq<char>, cur: u8, start: u8) -> (AddressView, Seq<char>, ParseState)
    decreases s.len(),
{
    match s.current() {
        TokenView::EOF => (address, text, s),
        TokenView::Level(n) => if n <= start {
            (address, text, s)
        } else {
            address_loop(s.advance(), address, text, n, start)
        },
        TokenView::Tag(t) => {
            proof {
                lemma_take_line_value(s, cur);
                lemma_skip_to(s.stream, cur);
            }
            if is_address_part(t) {
                let (v, s1) = take_line_value(s);
                let (address2, text2) = address_with(address, text, t, v);
                address_loop(s1, address2, text2, cur, start)
            } else {
                address_loop(
                    s.warn(Scope::Address, Anomaly::UnhandledTag, TokenView::Tag(t)).skip(cur),
                    address, text,
                    cur,
                    start,
                )
            }
        },
        other => {
            proof {
                lemma_skip_to(s.stream, cur);
            }
            address_loop(
                s.warn(Scope::Address, Anomaly::UnhandledToken, other).skip(cur),
                address, text,
                cur,
                start,
            )
        },
    }
}

/// An address. The current token is the tag of its line, which is at the
/// level `start`. The text of the address is the value of that line, if it
/// has one, with the `CONT` lines under it; an address without text has no
/// value.
pub open spec fn parse_address(s: ParseState, start: u8) -> (AddressView, ParseState) {
    let s1 = s.advance();
    let (first, s2) = match s1.current() {
        TokenView::LineValue(v) => (v, s1.advance()),
        _ => (Seq::empty(), s1),
    };
    let (address, text, s3) = address_loop(s2, AddressView::empty(), first, start, start);
    (
        AddressView {
            value: if text.len() > 0 {
                Some(text)
            } else {
                None
            },
            ..address
        },
        s3,
    )
}

/// Reading a continued text ends where its scope ends.
pub proof fn lemma_continued(s: ParseState, text: Seq<char>, cur: u8, start: u8)
    requires
        start <= cur,
    ensures
        continued(s, text, cur, start).1.stream == s.stream.skip_to(start),
    decreases s.len(),
{
    match s.current() {
        TokenView::EOF => {},
        TokenView::Level(n) => {
            if n > start {
                lemma_continued(s.advance(), text, n, start);
            }
        },
        TokenView::Tag(t) => {
            lemma_take_line_value(s, start);
            lemma_skip_to(s.stream, cur);
            lemma_skip_to_nested(s.stream, cur, start);
            if is_continuation(t) {
                let (v, s1) = take_line_value(s);
                let text2 = continued_with(text, t, v);
                lemma_continued(s1, text2, cur, start);
            } else {
                lemma_continued(
                    s.warn(Scope::Continuation, Anomaly::UnhandledTag, TokenView::Tag(t)).skip(cur),
                    text,
                    cur,
                    start,
                );
            }
        },
        other => {
            lemma_skip_to(s.stream, cur);
            lemma_skip_to_nested(s.stream, cur, start);
            lemma_continued(
                s.warn(Scope::Continuation, Anomaly::UnhandledToken, other).skip(cur),
                text,
                cur,
                start,
            );
        },
    }
}

/// Reading a continued text ends where the scope of its line ends.
pub proof fn lemma_take_continued_text(s: ParseState, start: u8)
    requires
        !s.current().is_boundary(),
    ensures
        take_continued_text(s, start).1.stream == s.stream.skip_to(start),
        take_continued_text(s, start).1.len() < s.len(),
{
    lemma_take_line_value(s, start);
    let (v, s1) = take_line_value(s);
    lemma_continued(s1, v, start, start);
    lemma_skip_to(s.stream, start);
}

/// Reading a citation of a source ends where its scope ends.
pub proof fn lemma_citation_loop(s: ParseState, citation: SourceCitationView, cur: u8, start: u8)
    requires
        start <= cur,
    ensures
        citation_loop(s, citation, cur, start).1.stream == s.stream.skip_to(start),
    decreases s.len(),
{
    match s.current() {
        TokenView::EOF => {},
        TokenView::Level(n) => {
            if n > start {
                lemma_citation_loop(s.advance(), citation, n, start);
            }
        },
        TokenView::Tag(t) => {
            lemma_take_line_value(s, start);
            lemma_skip_to(s.stream, cur);
            lemma_skip_to_nested(s.stream, cur, start);
            if is_citation_part(t) {
                let (v, s1) = take_line_value(s);
                let citation2 = citation_with(citation, t, v);
                lemma_citation_loop(s1, citation2, cur, start);
            } else {
                lemma_citation_loop(
                    s.warn(Scope::Citation, Anomaly::UnhandledTag, TokenView::Tag(t)).skip(cur),
                    citation,
                    cur,
                    start,
                );
            }
        },
        other => {
            lemma_skip_to(s.stream, cur);
            lemma_skip_to_nested(s.stream, cur, start);
            lemma_citation_loop(
                s.warn(Scope::Citation, Anomaly::UnhandledToken, other).skip(cur),
                citation,
                cur,
                start,
            );
        },
    }
}

/// Reading a citation of a source ends where the scope of its line ends.
pub proof fn lemma_parse_citation(s: ParseState, start: u8)
    requires
        !s.current().is_boundary(),
    ensures
        parse_citation(s, start).1.stream == s.stream.skip_to(start),
        parse_citation(s, start).1.len() < s.len(),
{
    lemma_take_line_value(s, start);
    let (v, s1) = take_line_value(s);
    lemma_citation_loop(s1, SourceCitationView { xref: v, page: None }, start, start);
    lemma_skip_to(s.stream, start);
}

/// Reading a citation of a repository ends where its scope ends.
pub proof fn lemma_repo_citation_loop(s: ParseState, citation: RepoCitationView, cur: u8, start: u8)
    requires
        start <= cur,
    ensures
        repo_citation_loop(s, citation, cur, start).1.stream == s.stream.skip_to(start),
    decreases s.len(),
{
    match s.current() {
        TokenView::EOF => {},
        TokenView::Level(n) => {
            if n > start {
                lemma_repo_citation_loop(s.advance(), citation, n, start);
            }
        },
        TokenView::Tag(t) => {
            lemma_take_line_value(s, start);
            lemma_skip_to(s.stream, cur);
            lemma_skip_to_nested(s.stream, cur, start);
            if is_repo_citation_part(t) {
                let (v, s1) = take_line_value(s);
                let citation2 = repo_citation_with(citation, t, v);
                lemma_repo_citation_loop(s1, citation2, cur, start);
            } else {
                lemma_repo_citation_loop(
                    s.warn(Scope::RepoCitation, Anomaly::UnhandledTag, TokenView::Tag(t)).skip(cur),
                    citation,
                    cur,
                    start,
                );
            }
        },
        other => {
            lemma_skip_to(s.stream, cur);
            lemma_skip_to_nested(s.stream, cur, start);
            lemma_repo_citation_loop(
                s.warn(Scope::RepoCitation, Anomaly::UnhandledToken, other).skip(cur),
                citation,
                cur,
                start,
            );
        },
    }
}

/// Reading a citation of a repository ends where the scope of its line ends.
pub proof fn lemma_parse_repo_citation(s: ParseState, start: u8)
    requires
        !s.current().is_boundary(),
    ensures
        parse_repo_citation(s, start).1.stream == s.stream.skip_to(start),
        parse_repo_citation(s, start).1.len() < s.len(),
{
    lemma_take_line_value(s, start);
    let (v, s1) = take_line_value(s);
    lemma_repo_citation_loop(s1, RepoCitationView { xref: v, call_number: None }, start, start);
    lemma_skip_to(s.stream, start);
}

/// Reading a link to a family ends where its scope ends.
pub proof fn lemma_family_link_loop(s: ParseState, link: FamilyLinkView, cur: u8, start: u8)
    requires
        start <= cur,
    ensures
        family_link_loop(s, link, cur, start).1.stream == s.stream.skip_to(start),
    decreases s.len(),
{
    match s.current() {
        TokenView::EOF => {},
        TokenView::Level(n) => {
            if n > start {
                lemma_family_link_loop(s.advance(), link, n, start);
            }
        },
        TokenView::Tag(t) => {
            lemma_take_line_value(s, start);
            lemma_skip_to(s.stream, cur);
            lemma_skip_to_nested(s.stream, cur, start);
            if is_family_link_part(t) {
                let (v, s1) = take_line_value(s);
                let link2 = family_link_with(link, t, v);
                lemma_family_link_loop(s1, link2, cur, start);
            } else {
                lemma_family_link_loop(
                    s.warn(Scope::FamilyLink, Anomaly::UnhandledTag, TokenView::Tag(t)).skip(cur),
                    link,
                    cur,
                    start,
                );
            }
        },
        other => {
            lemma_skip_to(s.stream, cur);
            lemma_skip_to_nested(s.stream, cur, start);
            lemma_family_link_loop(
                s.warn(Scope::FamilyLink, Anomaly::UnhandledToken, other).skip(cur),
                link,
                cur,
                start,
            );
        },
    }
}

/// Reading a link to a family ends where the scope of its line ends.
pub proof fn lemma_parse_family_link(s: ParseState, tag: Seq<char>, start: u8)
    requires
        !s.current().is_boundary(),
    ensures
        parse_family_link(s, tag, start).1.stream == s.stream.skip_to(start),
        parse_family_link(s, tag, start).1.len() < s.len(),
{
    lemma_take_line_value(s, start);
    let (v, s1) = take_line_value(s);
    lemma_family_link_loop(s1, FamilyLinkView { xref: v, kind: link_type_of(tag), pedigree: None }, start, start);
    lemma_skip_to(s.stream, start);
}

/// Reading a name ends where its scope ends.
pub proof fn lemma_name_loop(s: ParseState, name: NameView, cur: u8, start: u8)
    requires
        start <= cur,
    ensures
        name_loop(s, name, cur, start).1.stream == s.stream.skip_to(start),
    decreases s.len(),
{
    match s.current() {
        TokenView::EOF => {},
        TokenView::Level(n) => {
            if n > start {
                lemma_name_loop(s.advance(), name, n, start);
            }
        },
        TokenView::Tag(t) => {
            lemma_take_line_value(s, start);
            lemma_skip_to(s.stream, cur);
            lemma_skip_to_nested(s.stream, cur, start);
            if is_name_part(t) {
                let (v, s1) = take_line_value(s);
                let name2 = name_with(name, t, v);
                lemma_name_loop(s1, name2, cur, start);
            } else {
                lemma_name_loop(
                    s.warn(Scope::Name, Anomaly::UnhandledTag, TokenView::Tag(t)).skip(cur),
                    name,
                    cur,
                    start,
                );
            }
        },
        other => {
            lemma_skip_to(s.stream, cur);
            lemma_skip_to_nested(s.stream, cur, start);
            lemma_name_loop(
                s.warn(Scope::Name, Anomaly::UnhandledToken, other).skip(cur),
                name,
                cur,
                start,
            );
        },
    }
}

/// Reading a name ends where the scope of its line ends.
pub proof fn lemma_parse_name(s: ParseState, start: u8)
    requires
        !s.current().is_boundary(),
    ensures
        parse_name(s, start).1.stream == s.stream.skip_to(start),
        parse_name(s, start).1.len() < s.len(),
{
    lemma_take_line_value(s, start);
    let (v, s1) = take_line_value(s);
    lemma_name_loop(s1, NameView { value: Some(v), ..NameView::empty() }, start, start);
    lemma_skip_to(s.stream, start);
}

/// Reading an address ends where its scope ends.
pub proof fn lemma_address_loop(s: ParseState, address: AddressView, text: Seq<char>, cur: u8, start: u8)
    requires
        start <= cur,
    ensures
        address_loop(s, address, text, cur, start).2.stream == s.stream.skip_to(start),
    decreases s.len(),
{
    match s.current() {
        TokenView::EOF => {},
        TokenView::Level(n) => {
            if n > start {
                lemma_address_loop(s.advance(), address, text, n, start);
            }
        },
        TokenView::Tag(t) => {
            lemma_take_line_value(s, start);
            lemma_skip_to(s.stream, cur);
            lemma_skip_to_nested(s.stream, cur, start);
            if is_address_part(t) {
                let (v, s1) = take_line_value(s);
                let (address2, text2) = address_with(address, text, t, v);
                lemma_address_loop(s1, address2, text2, cur, start);
            } else {
                lemma_address_loop(
                    s.warn(Scope::Address, Anomaly::UnhandledTag, TokenView::Tag(t)).skip(cur),
                    address, text,
                    cur,
                    start,
                );
            }
        },
        other => {
            lemma_skip_to(s.stream, cur);
            lemma_skip_to_nested(s.stream, cur, start);
            lemma_address_loop(
                s.warn(Scope::Address, Anomaly::UnhandledToken, other).skip(cur),
                address, text,
                cur,
                start,
            );
        },
    }
}

/// Reading an address ends where the scope of its line ends.
pub proof fn lemma_parse_address(s: ParseState, start: u8)
    requires
        !s.current().is_boundary(),
    ensures
        parse_address(s, start).1.stream == s.stream.skip_to(start),
        parse_address(s, start).1.len() < s.len(),
{
    let s1 = s.advance();
    assert(s.stream.skip_to(start) == s1.stream.skip_to(start));
    match s1.current() {
        TokenView::LineValue(v) => {
            assert(s1.stream.skip_to(start) == s1.stream.advance().skip_to(start));
            lemma_address_loop(s1.advance(), AddressView::empty(), v, start, start);
        },
        _ => {
            lemma_address_loop(s1, AddressView::empty(), Seq::empty(), start, start);
        },
    }
    lemma_skip_to(s.stream, start);
}

} // verus!
