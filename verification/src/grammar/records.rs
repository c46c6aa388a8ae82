//! The records: events, families, individuals, the header, and the file as
//! a whole.

use crate::diagnostic::{Anomaly, Fault, ParseErrorView, Scope};
use crate::grammar::fields::{
    lemma_parse_citation, lemma_parse_family_link, lemma_parse_gender, lemma_parse_name,
    lemma_take_continued_text, lemma_take_line_value, parse_citation, parse_custom_tag,
    parse_family_link, parse_gender, parse_name, take_continued_text, take_line_value,
};
use crate::state::{has_no_tag, lemma_has_no, lemma_skip_to, lemma_skip_to_nested, ParseState};
use crate::text::eq_ignore_case;
use crate::token::TokenView;
use crate::tree::GedcomDataView;
use crate::types::event::{event_type_of, is_life_event_tag, EventView};
use crate::types::family::FamilyView;
use crate::types::header::HeaderView;
use crate::types::individual::IndividualView;
use vstd::prelude::*;

verus! {

/// Whether a tag names a part of an event that is the value of a line.
pub open spec fn is_event_part(tag: Seq<char>) -> bool {
    tag == "DATE"@ || tag == "PLAC"@
}

/// An event with one more part: `DATE` gives the date, `PLAC` the place.
pub open spec fn event_with(event: EventView, tag: Seq<char>, value: Seq<char>) -> EventView {
    if tag == "DATE"@ {
        EventView { date: Some(value), ..event }
    } else if tag == "PLAC"@ {
        EventView { place: Some(value), ..event }
    } else {
        event
    }
}

/// The rest of an event: its date and place are read, a `SOUR` line begins
/// a citation, and everything else is reported and skipped.
pub open spec fn event_loop(s: ParseState, event: EventView, cur: u8, start: u8) -> (
    EventView,
    ParseState,
)
    decreases s.len(),
{
    match s.current() {
        TokenView::EOF => (event, s),
        TokenView::Level(n) => if n <= start {
            (event, s)
        } else {
            event_loop(s.advance(), event, n, start)
        },
        TokenView::Tag(t) => {
            proof {
                lemma_take_line_value(s, cur);
                lemma_parse_citation(s, cur);
                lemma_skip_to(s.stream, cur);
            }
            if is_event_part(t) {
                let (v, s1) = take_line_value(s);
                event_loop(s1, event_with(event, t, v), cur, start)
            } else if t == "SOUR"@ {
                let (citation, s1) = parse_citation(s, cur);
                event_loop(
                    s1,
                    EventView { citations: event.citations.push(citation), ..event },
                    cur,
                    start,
                )
            } else {
                event_loop(
                    s.warn(Scope::Event, Anomaly::UnhandledTag, TokenView::Tag(t)).skip(cur),
                    event,
                    cur,
                    start,
                )
            }
        },
        other => {
            proof {
                lemma_skip_to(s.stream, cur);
            }
            event_loop(
                s.warn(Scope::Event, Anomaly::UnhandledToken, other).skip(cur),
                event,
                cur,
                start,
            )
        },
    }
}

/// An event. The current token is the tag of its line, which is at the
/// level `start`; `tag` says what kind of event it is.
pub open spec fn parse_event(s: ParseState, tag: Seq<char>, start: u8) -> (EventView, ParseState) {
    event_loop(s.advance(), EventView::new(event_type_of(tag)), start, start)
}

/// Reading an event ends where its scope ends.
pub proof fn lemma_event_loop(s: ParseState, event: EventView, cur: u8, start: u8)
    requires
        start <= cur,
    ensures
        event_loop(s, event, cur, start).1.stream == s.stream.skip_to(start),
    decreases s.len(),
{
    match s.current() {
        TokenView::EOF => {},
        TokenView::Level(n) => {
            if n > start {
                lemma_event_loop(s.advance(), event, n, start);
            }
        },
        TokenView::Tag(t) => {
            lemma_take_line_value(s, start);
            lemma_parse_citation(s, cur);
            lemma_skip_to(s.stream, cur);
            lemma_skip_to_nested(s.stream, cur, start);
            if is_event_part(t) {
                let (v, s1) = take_line_value(s);
                lemma_event_loop(s1, event_with(event, t, v), cur, start);
            } else if t == "SOUR"@ {
                let (citation, s1) = parse_citation(s, cur);
                lemma_event_loop(
                    s1,
                    EventView { citations: event.citations.push(citation), ..event },
                    cur,
                    start,
                );
            } else {
                lemma_event_loop(
                    s.warn(Scope::Event, Anomaly::UnhandledTag, TokenView::Tag(t)).skip(cur),
                    event,
                    cur,
                    start,
                );
            }
        },
        other => {
            lemma_skip_to(s.stream, cur);
            lemma_skip_to_nested(s.stream, cur, start);
            lemma_event_loop(
                s.warn(Scope::Event, Anomaly::UnhandledToken, other).skip(cur),
                event,
                cur,
                start,
            );
        },
    }
}

/// Reading an event ends where the scope of its line ends.
pub proof fn lemma_parse_event(s: ParseState, tag: Seq<char>, start: u8)
    requires
        !s.current().is_boundary(),
    ensures
        parse_event(s, tag, start).1.stream == s.stream.skip_to(start),
        parse_event(s, tag, start).1.len() < s.len(),
{
    lemma_event_loop(s.advance(), EventView::new(event_type_of(tag)), start, start);
    lemma_skip_to(s.stream, start);
}

/// Whether a tag names a part of a family that is the value of a line.
pub open spec fn is_family_part(tag: Seq<char>) -> bool {
    tag == "HUSB"@ || tag == "WIFE"@ || tag == "CHIL"@
}

/// A family with one more part: `HUSB` gives the first partner, `WIFE` the
/// second, and `CHIL` one more child.
pub open spec fn family_with(family: FamilyView, tag: Seq<char>, value: Seq<char>) -> FamilyView {
    if tag == "HUSB"@ {
        FamilyView { individual1: Some(value), ..family }
    } else if tag == "WIFE"@ {
        FamilyView { individual2: Some(value), ..family }
    } else if tag == "CHIL"@ {
        FamilyView { children: family.children.push(value), ..family }
    } else {
        family
    }
}

/// The rest of a family: the partners and the children are read, a `MARR`
/// line begins an event, and everything else is reported and skipped.
pub open spec fn family_loop(s: ParseState, family: FamilyView, cur: u8, start: u8) -> (
    FamilyView,
    ParseState,
)
    decreases s.len(),
{
    match s.current() {
        TokenView::EOF => (family, s),
        TokenView::Level(n) => if n <= start {
            (family, s)
        } else {
            family_loop(s.advance(), family, n, start)
        },
        TokenView::Tag(t) => {
            proof {
                lemma_take_line_value(s, cur);
                lemma_parse_event(s, t, cur);
                lemma_skip_to(s.stream, cur);
            }
            if is_family_part(t) {
                let (v, s1) = take_line_value(s);
                family_loop(s1, family_with(family, t, v), cur, start)
            } else if t == "MARR"@ {
                let (event, s1) = parse_event(s, t, cur);
                family_loop(
                    s1,
                    FamilyView { events: family.events.push(event), ..family },
                    cur,
                    start,
                )
            } else {
                family_loop(
                    s.warn(Scope::Family, Anomaly::UnhandledTag, TokenView::Tag(t)).skip(cur),
                    family,
                    cur,
                    start,
                )
            }
        },
        other => {
            proof {
                lemma_skip_to(s.stream, cur);
            }
            family_loop(
                s.warn(Scope::Family, Anomaly::UnhandledToken, other).skip(cur),
                family,
                cur,
                start,
            )
        },
    }
}

/// A family. The current token is the tag `FAM` of its line, which is at
/// the level `start`; `xref` is the pointer of the line, if it has one.
pub open spec fn parse_family(s: ParseState, start: u8, xref: Option<Seq<char>>) -> (
    FamilyView,
    ParseState,
) {
    family_loop(s.advance(), FamilyView::new(xref), start, start)
}

/// Reading a family ends where its scope ends, and leaves the pointer of
/// the family as it was.
pub proof fn lemma_family_loop(s: ParseState, family: FamilyView, cur: u8, start: u8)
    requires
        start <= cur,
    ensures
        family_loop(s, family, cur, start).1.stream == s.stream.skip_to(start),
        family_loop(s, family, cur, start).0.xref == family.xref,
    decreases s.len(),
{
    match s.current() {
        TokenView::EOF => {},
        TokenView::Level(n) => {
            if n > start {
                lemma_family_loop(s.advance(), family, n, start);
            }
        },
        TokenView::Tag(t) => {
            lemma_take_line_value(s, start);
            lemma_parse_event(s, t, cur);
            lemma_skip_to(s.stream, cur);
            lemma_skip_to_nested(s.stream, cur, start);
            if is_family_part(t) {
                let (v, s1) = take_line_value(s);
                lemma_family_loop(s1, family_with(family, t, v), cur, start);
            } else if t == "MARR"@ {
                let (event, s1) = parse_event(s, t, cur);
                lemma_family_loop(
                    s1,
                    FamilyView { events: family.events.push(event), ..family },
                    cur,
                    start,
                );
            } else {
                lemma_family_loop(
                    s.warn(Scope::Family, Anomaly::UnhandledTag, TokenView::Tag(t)).skip(cur),
                    family,
                    cur,
                    start,
                );
            }
        },
        other => {
            lemma_skip_to(s.stream, cur);
            lemma_skip_to_nested(s.stream, cur, start);
            lemma_family_loop(
                s.warn(Scope::Family, Anomaly::UnhandledToken, other).skip(cur),
                family,
                cur,
                start,
            );
        },
    }
}

/// Reading a family ends where the scope of its line ends, and the family
/// has the pointer of the line.
pub proof fn lemma_parse_family(s: ParseState, start: u8, xref: Option<Seq<char>>)
    requires
        !s.current().is_boundary(),
    ensures
        parse_family(s, start, xref).1.stream == s.stream.skip_to(start),
        parse_family(s, start, xref).1.len() < s.len(),
        parse_family(s, start, xref).0.xref == xref,
{
    lemma_family_loop(s.advance(), FamilyView::new(xref), start, start);
    lemma_skip_to(s.stream, start);
}

/// The error that a `CHAN` line without its date is, met in the current
/// line.
pub open spec fn change_error(s: ParseState) -> ParseErrorView {
    ParseErrorView { fault: Fault::ChangeWithoutDate, line: s.line() }
}

/// The date of the last change and the level of the line that gives it.
/// The current token is the tag `CHAN`, in a line at the level `cur`. The
/// line after it has to be deeper and has to be a `DATE` line, whose value
/// is the date; anything else is an error, and the token that is in the way
/// stays.
pub open spec fn take_change_date(s: ParseState, cur: u8) -> (
    Result<(Seq<char>, u8), ParseErrorView>,
    ParseState,
) {
    let s1 = s.advance();
    match s1.current() {
        TokenView::Level(n) => if n > cur {
            let s2 = s1.advance();
            match s2.current() {
                TokenView::Tag(t) => if t == "DATE"@ {
                    let (v, s3) = take_line_value(s2);
                    (Ok((v, n)), s3)
                } else {
                    (Err(change_error(s2)), s2)
                },
                _ => (Err(change_error(s2)), s2),
            }
        } else {
            (Err(change_error(s1)), s1)
        },
        _ => (Err(change_error(s1)), s1),
    }
}

/// Reading the date of a change uses the `CHAN` tag, stays inside the scope
/// of the `CHAN` line, and gives a level that is deeper than that line.
pub proof fn lemma_take_change_date(s: ParseState, cur: u8, level: u8)
    requires
        !s.current().is_boundary(),
        level <= cur,
    ensures
        take_change_date(s, cur).1.len() < s.len(),
        take_change_date(s, cur).0 is Ok ==> take_change_date(s, cur).1.stream.skip_to(level)
            == s.stream.skip_to(level),
        take_change_date(s, cur).0 matches Ok(found) ==> found.1 > cur,
{
    let s1 = s.advance();
    assert(s.stream.skip_to(level) == s1.stream.skip_to(level));
    match s1.current() {
        TokenView::Level(n) => {
            if n > cur {
                let s2 = s1.advance();
                assert(s1.stream.skip_to(level) == s2.stream.skip_to(level));
                match s2.current() {
                    TokenView::Tag(t) => {
                        lemma_take_line_value(s2, level);
                    },
                    _ => {},
                }
            }
        },
        _ => {},
    }
}

/// The rest of an individual. A `NAME` line begins the name, a `SEX` line
/// gives the sex, the tag of a life event begins an event, `FAMC` and `FAMS`
/// begin a link to a family, and `CHAN` with its `DATE` line gives the date
/// of the last change; a line with a user-defined tag is kept. Everything
/// else is reported and skipped. A `CHAN` line without its date ends the
/// parse.
pub open spec fn individual_loop(s: ParseState, individual: IndividualView, cur: u8, start: u8) -> (
    Result<IndividualView, ParseErrorView>,
    ParseState,
)
    decreases s.len(),
{
    match s.current() {
        TokenView::EOF => (Ok(individual), s),
        TokenView::Level(n) => if n <= start {
            (Ok(individual), s)
        } else {
            individual_loop(s.advance(), individual, n, start)
        },
        TokenView::Tag(t) => {
            proof {
                lemma_parse_name(s, cur);
                lemma_parse_gender(s, cur);
                lemma_parse_event(s, t, cur);
                lemma_parse_family_link(s, t, cur);
                lemma_take_change_date(s, cur, cur);
                lemma_skip_to(s.stream, cur);
            }
            if t == "NAME"@ {
                let (name, s1) = parse_name(s, cur);
                individual_loop(s1, IndividualView { name: Some(name), ..individual }, cur, start)
            } else if t == "SEX"@ {
                let (sex, s1) = parse_gender(s);
                individual_loop(s1, IndividualView { sex, ..individual }, cur, start)
            } else if is_life_event_tag(t) {
                let (event, s1) = parse_event(s, t, cur);
                individual_loop(
                    s1,
                    IndividualView { events: individual.events.push(event), ..individual },
                    cur,
                    start,
                )
            } else if t == "FAMC"@ || t == "FAMS"@ {
                let (link, s1) = parse_family_link(s, t, cur);
                individual_loop(
                    s1,
                    IndividualView { families: individual.families.push(link), ..individual },
                    cur,
                    start,
                )
            } else if t == "CHAN"@ {
                let (found, s1) = take_change_date(s, cur);
                match found {
                    Ok((date, level)) => individual_loop(
                        s1,
                        IndividualView { last_updated: Some(date), ..individual },
                        level,
                        start,
                    ),
                    Err(e) => (Err(e), s1),
                }
            } else {
                individual_loop(
                    s.warn(Scope::Individual, Anomaly::UnhandledTag, TokenView::Tag(t)).skip(cur),
                    individual,
                    cur,
                    start,
                )
            }
        },
        TokenView::CustomTag(t) => {
            proof {
                lemma_take_line_value(s, cur);
            }
            let (data, s1) = parse_custom_tag(s, t);
            individual_loop(
                s1,
                IndividualView { custom_data: individual.custom_data.push(data), ..individual },
                cur,
                start,
            )
        },
        other => {
            proof {
                lemma_skip_to(s.stream, cur);
            }
            individual_loop(
                s.warn(Scope::Individual, Anomaly::UnhandledToken, other).skip(cur),
                individual,
                cur,
                start,
            )
        },
    }
}

/// An individual. The current token is the tag `INDI` of its line, which is
/// at the level `start`; `xref` is the pointer of the line, if it has one.
pub open spec fn parse_individual(s: ParseState, start: u8, xref: Option<Seq<char>>) -> (
    Result<IndividualView, ParseErrorView>,
    ParseState,
) {
    individual_loop(s.advance(), IndividualView::new(xref), start, start)
}

/// Reading an individual ends where its scope ends, unless an error ends
/// it; it never takes tokens back, and it leaves the pointer of the
/// individual as it was. Without a `CHAN` line no error ends it.
pub proof fn lemma_individual_loop(s: ParseState, individual: IndividualView, cur: u8, start: u8)
    requires
        start <= cur,
    ensures
        individual_loop(s, individual, cur, start).0 is Ok ==> individual_loop(
            s,
            individual,
            cur,
            start,
        ).1.stream == s.stream.skip_to(start),
        individual_loop(s, individual, cur, start).1.len() <= s.len(),
        individual_loop(s, individual, cur, start).0 matches Ok(found) ==> found.xref
            == individual.xref,
        has_no_tag(s.stream.tokens, "CHAN"@) ==> individual_loop(s, individual, cur, start).0
            is Ok,
    decreases s.len(),
{
    lemma_has_no(s.stream, cur, "CHAN"@);
    match s.current() {
        TokenView::EOF => {},
        TokenView::Level(n) => {
            if n > start {
                lemma_individual_loop(s.advance(), individual, n, start);
            }
        },
        TokenView::Tag(t) => {
            lemma_parse_name(s, cur);
            lemma_parse_gender(s, cur);
            lemma_parse_gender(s, start);
            lemma_parse_event(s, t, cur);
            lemma_parse_family_link(s, t, cur);
            lemma_take_change_date(s, cur, start);
            lemma_skip_to(s.stream, cur);
            lemma_skip_to_nested(s.stream, cur, start);
            if t == "NAME"@ {
                let (name, s1) = parse_name(s, cur);
                lemma_individual_loop(
                    s1,
                    IndividualView { name: Some(name), ..individual },
                    cur,
                    start,
                );
            } else if t == "SEX"@ {
                let (sex, s1) = parse_gender(s);
                lemma_individual_loop(s1, IndividualView { sex, ..individual }, cur, start);
            } else if is_life_event_tag(t) {
                let (event, s1) = parse_event(s, t, cur);
                lemma_individual_loop(
                    s1,
                    IndividualView { events: individual.events.push(event), ..individual },
                    cur,
                    start,
                );
            } else if t == "FAMC"@ || t == "FAMS"@ {
                let (link, s1) = parse_family_link(s, t, cur);
                lemma_individual_loop(
                    s1,
                    IndividualView { families: individual.families.push(link), ..individual },
                    cur,
                    start,
                );
            } else if t == "CHAN"@ {
                let (found, s1) = take_change_date(s, cur);
                match found {
                    Ok((date, level)) => {
                        lemma_individual_loop(
                            s1,
                            IndividualView { last_updated: Some(date), ..individual },
                            level,
                            start,
                        );
                    },
                    Err(e) => {},
                }
            } else {
                lemma_individual_loop(
                    s.warn(Scope::Individual, Anomaly::UnhandledTag, TokenView::Tag(t)).skip(cur),
                    individual,
                    cur,
                    start,
                );
            }
        },
        TokenView::CustomTag(t) => {
            lemma_take_line_value(s, start);
            let (data, s1) = parse_custom_tag(s, t);
            lemma_individual_loop(
                s1,
                IndividualView { custom_data: individual.custom_data.push(data), ..individual },
                cur,
                start,
            );
        },
        other => {
            lemma_skip_to(s.stream, cur);
            lemma_skip_to_nested(s.stream, cur, start);
            lemma_individual_loop(
                s.warn(Scope::Individual, Anomaly::UnhandledToken, other).skip(cur),
                individual,
                cur,
                start,
            );
        },
    }
}

/// Reading an individual ends where the scope of its line ends, unless an
/// error ends it, and the individual has the pointer of the line. Without
/// a `CHAN` line no error ends it.
pub proof fn lemma_parse_individual(s: ParseState, start: u8, xref: Option<Seq<char>>)
    requires
        !s.current().is_boundary(),
    ensures
        parse_individual(s, start, xref).0 is Ok ==> parse_individual(s, start, xref).1.stream
            == s.stream.skip_to(start),
        parse_individual(s, start, xref).1.len() < s.len(),
        parse_individual(s, start, xref).0 matches Ok(found) ==> found.xref == xref,
        has_no_tag(s.stream.tokens, "CHAN"@) ==> parse_individual(s, start, xref).0 is Ok,
{
    lemma_has_no(s.stream, start, "CHAN"@);
    lemma_individual_loop(s.advance(), IndividualView::new(xref), start, start);
    lemma_skip_to(s.stream, start);
}

/// Whether a warning is due for the form that a `FORM` line of the header
/// names: for every form but `LINEAGE-LINKED`, in whatever case it is
/// written.
pub open spec fn is_known_form(form: Seq<char>) -> bool {
    eq_ignore_case(form, "LINEAGE-LINKED"@)
}

/// The rest of the `GEDC` block of the header, which ends with the first
/// level that is not deeper than 1. `cur` is the level of the line last
/// read. A `VERS` line gives the version, and the form that a `FORM` line
/// names is reported unless it is the known one. Everything else is
/// reported and skipped.
pub open spec fn gedcom_data_loop(s: ParseState, header: HeaderView, cur: u8) -> (
    HeaderView,
    ParseState,
)
    decreases s.len(),
{
    match s.current() {
        TokenView::EOF => (header, s),
        TokenView::Level(n) => if n <= 1 {
            (header, s)
        } else {
            gedcom_data_loop(s.advance(), header, n)
        },
        TokenView::Tag(t) => {
            proof {
                lemma_take_line_value(s, cur);
                lemma_skip_to(s.stream, cur);
            }
            if t == "VERS"@ {
                let (v, s1) = take_line_value(s);
                gedcom_data_loop(s1, HeaderView { gedcom_version: Some(v), ..header }, cur)
            } else if t == "FORM"@ {
                let (v, s1) = take_line_value(s);
                if is_known_form(v) {
                    gedcom_data_loop(s1, header, cur)
                } else {
                    gedcom_data_loop(
                        s1.warn(Scope::Gedcom, Anomaly::UnrecognizedForm, TokenView::LineValue(v)),
                        header,
                        cur,
                    )
                }
            } else {
                gedcom_data_loop(
                    s.warn(Scope::Gedcom, Anomaly::UnhandledTag, TokenView::Tag(t)).skip(cur),
                    header,
                    cur,
                )
            }
        },
        other => {
            proof {
                lemma_skip_to(s.stream, cur);
            }
            gedcom_data_loop(
                s.warn(Scope::Gedcom, Anomaly::UnhandledToken, other).skip(cur),
                header,
                cur,
            )
        },
    }
}

/// The header with what its `GEDC` block says. The current token is the tag
/// `GEDC`, in a line at the level 1.
pub open spec fn parse_gedcom_data(s: ParseState, header: HeaderView) -> (HeaderView, ParseState) {
    gedcom_data_loop(s.advance(), header, 1)
}

/// Reading the `GEDC` block ends where its scope ends.
pub proof fn lemma_gedcom_data_loop(s: ParseState, header: HeaderView, cur: u8)
    requires
        1 <= cur,
    ensures
        gedcom_data_loop(s, header, cur).1.stream == s.stream.skip_to(1),
    decreases s.len(),
{
    match s.current() {
        TokenView::EOF => {},
        TokenView::Level(n) => {
            if n > 1 {
                lemma_gedcom_data_loop(s.advance(), header, n);
            }
        },
        TokenView::Tag(t) => {
            lemma_take_line_value(s, 1);
            lemma_skip_to(s.stream, cur);
            lemma_skip_to_nested(s.stream, cur, 1);
            if t == "VERS"@ {
                let (v, s1) = take_line_value(s);
                lemma_gedcom_data_loop(s1, HeaderView { gedcom_version: Some(v), ..header }, cur);
            } else if t == "FORM"@ {
                let (v, s1) = take_line_value(s);
                if is_known_form(v) {
                    lemma_gedcom_data_loop(s1, header, cur);
                } else {
                    lemma_gedcom_data_loop(
                        s1.warn(Scope::Gedcom, Anomaly::UnrecognizedForm, TokenView::LineValue(v)),
                        header,
                        cur,
                    );
                }
            } else {
                lemma_gedcom_data_loop(
                    s.warn(Scope::Gedcom, Anomaly::UnhandledTag, TokenView::Tag(t)).skip(cur),
                    header,
                    cur,
                );
            }
        },
        other => {
            lemma_skip_to(s.stream, cur);
            lemma_skip_to_nested(s.stream, cur, 1);
            lemma_gedcom_data_loop(
                s.warn(Scope::Gedcom, Anomaly::UnhandledToken, other).skip(cur),
                header,
                cur,
            );
        },
    }
}

/// Reading the `GEDC` block ends where the scope of its line ends.
pub proof fn lemma_parse_gedcom_data(s: ParseState, header: HeaderView)
    requires
        !s.current().is_boundary(),
    ensures
        parse_gedcom_data(s, header).1.stream == s.stream.skip_to(1),
        parse_gedcom_data(s, header).1.len() < s.len(),
{
    lemma_gedcom_data_loop(s.advance(), header, 1);
    lemma_skip_to(s.stream, 1);
}

/// Whether a tag names a part of the header that is the value of a line.
pub open spec fn is_header_part(tag: Seq<char>) -> bool {
    tag == "CHAR"@ || tag == "CORP"@ || tag == "COPR"@ || tag == "DATE"@ || tag == "DEST"@ || tag
        == "LANG"@ || tag == "FILE"@ || tag == "SUBM"@ || tag == "SUBN"@
}

/// The header with one more part: `CHAR` gives the encoding, `CORP` the
/// corporation, `COPR` the copyright, `DATE` the date, `DEST` one more
/// destination, `LANG` the language, `FILE` the file name, `SUBM` the pointer
/// to the submitter and `SUBN` the pointer to the submission.
pub open spec fn header_with(header: HeaderView, tag: Seq<char>, value: Seq<char>) -> HeaderView {
    if tag == "CHAR"@ {
        HeaderView { encoding: Some(value), ..header }
    } else if tag == "CORP"@ {
        HeaderView { corporation: Some(value), ..header }
    } else if tag == "COPR"@ {
        HeaderView { copyright: Some(value), ..header }
    } else if tag == "DATE"@ {
        HeaderView { date: Some(value), ..header }
    } else if tag == "DEST"@ {
        HeaderView { destinations: header.destinations.push(value), ..header }
    } else if tag == "LANG"@ {
        HeaderView { language: Some(value), ..header }
    } else if tag == "FILE"@ {
        HeaderView { filename: Some(value), ..header }
    } else if tag == "SUBM"@ {
        HeaderView { submitter_tag: Some(value), ..header }
    } else if tag == "SUBN"@ {
        HeaderView { submission_tag: Some(value), ..header }
    } else {
        header
    }
}

/// The error that a `TIME` line without a date before it is, met in the
/// current line.
pub open spec fn time_error(s: ParseState) -> ParseErrorView {
    ParseErrorView { fault: Fault::TimeWithoutDate, line: s.line() }
}

/// The rest of the header, which ends with the first level 0. `cur` is the
/// level of the line last read. The parts of the header are read; a `NOTE`
/// line begins a continued text, a `TIME` line adds its value to the date
/// after a space, a `GEDC` line begins its block, and the lines under a
/// `SOUR` line are reported and skipped. Everything else is reported and
/// skipped. A `TIME` line in a header that has no date yet ends the parse.
pub open spec fn header_loop(s: ParseState, header: HeaderView, cur: u8) -> (
    Result<HeaderView, ParseErrorView>,
    ParseState,
)
    decreases s.len(),
{
    match s.current() {
        TokenView::EOF => (Ok(header), s),
        TokenView::Level(n) => if n == 0 {
            (Ok(header), s)
        } else {
            header_loop(s.advance(), header, n)
        },
        TokenView::Tag(t) => {
            proof {
                lemma_take_line_value(s, 1);
                lemma_take_continued_text(s, 1);
                lemma_parse_gedcom_data(s, header);
                lemma_skip_to(s.stream, 1);
                lemma_skip_to(s.stream, cur);
            }
            if t == "NOTE"@ {
                let (note, s1) = take_continued_text(s, 1);
                header_loop(s1, HeaderView { note: Some(note), ..header }, cur)
            } else if t == "TIME"@ {
                match header.date {
                    Some(date) => {
                        let (time, s1) = take_line_value(s);
                        header_loop(
                            s1,
                            HeaderView { date: Some(date + seq![' '] + time), ..header },
                            cur,
                        )
                    },
                    None => (Err(time_error(s)), s),
                }
            } else if t == "GEDC"@ {
                let (header2, s1) = parse_gedcom_data(s, header);
                header_loop(s1, header2, cur)
            } else if t == "SOUR"@ {
                header_loop(
                    s.warn(Scope::Header, Anomaly::SkippedSource, TokenView::Tag(t)).skip(1),
                    header,
                    cur,
                )
            } else if is_header_part(t) {
                let (v, s1) = take_line_value(s);
                header_loop(s1, header_with(header, t, v), cur)
            } else {
                header_loop(
                    s.warn(Scope::Header, Anomaly::UnhandledTag, TokenView::Tag(t)).skip(cur),
                    header,
                    cur,
                )
            }
        },
        other => {
            proof {
                lemma_skip_to(s.stream, cur);
            }
            header_loop(
                s.warn(Scope::Header, Anomaly::UnhandledToken, other).skip(cur),
                header,
                cur,
            )
        },
    }
}

/// The header. The current token is the tag `HEAD`, in a line at the level
/// 0.
pub open spec fn parse_header(s: ParseState) -> (Result<HeaderView, ParseErrorView>, ParseState) {
    header_loop(s.advance(), HeaderView::empty(), 0)
}

/// Reading the header ends where its scope ends, unless an error ends it;
/// it never takes tokens back. Without a `TIME` line no error ends it.
pub proof fn lemma_header_loop(s: ParseState, header: HeaderView, cur: u8)
    ensures
        header_loop(s, header, cur).0 is Ok ==> header_loop(s, header, cur).1.stream
            == s.stream.skip_to(0),
        header_loop(s, header, cur).1.len() <= s.len(),
        has_no_tag(s.stream.tokens, "TIME"@) ==> header_loop(s, header, cur).0 is Ok,
    decreases s.len(),
{
    lemma_has_no(s.stream, cur, "TIME"@);
    lemma_has_no(s.stream, 1, "TIME"@);
    match s.current() {
        TokenView::EOF => {},
        TokenView::Level(n) => {
            if n != 0 {
                lemma_header_loop(s.advance(), header, n);
            }
        },
        TokenView::Tag(t) => {
            lemma_take_line_value(s, 0);
            lemma_take_continued_text(s, 1);
            lemma_parse_gedcom_data(s, header);
            lemma_skip_to(s.stream, 1);
            lemma_skip_to_nested(s.stream, 1, 0);
            lemma_skip_to(s.stream, cur);
            lemma_skip_to_nested(s.stream, cur, 0);
            if t == "NOTE"@ {
                let (note, s1) = take_continued_text(s, 1);
                lemma_header_loop(s1, HeaderView { note: Some(note), ..header }, cur);
            } else if t == "TIME"@ {
                match header.date {
                    Some(date) => {
                        let (time, s1) = take_line_value(s);
                        lemma_header_loop(
                            s1,
                            HeaderView { date: Some(date + seq![' '] + time), ..header },
                            cur,
                        );
                    },
                    None => {},
                }
            } else if t == "GEDC"@ {
                let (header2, s1) = parse_gedcom_data(s, header);
                lemma_header_loop(s1, header2, cur);
            } else if t == "SOUR"@ {
                lemma_header_loop(
                    s.warn(Scope::Header, Anomaly::SkippedSource, TokenView::Tag(t)).skip(1),
                    header,
                    cur,
                );
            } else if is_header_part(t) {
                let (v, s1) = take_line_value(s);
                lemma_header_loop(s1, header_with(header, t, v), cur);
            } else {
                lemma_header_loop(
                    s.warn(Scope::Header, Anomaly::UnhandledTag, TokenView::Tag(t)).skip(cur),
                    header,
                    cur,
                );
            }
        },
        other => {
            lemma_skip_to(s.stream, cur);
            lemma_skip_to_nested(s.stream, cur, 0);
            lemma_header_loop(
                s.warn(Scope::Header, Anomaly::UnhandledToken, other).skip(cur),
                header,
                cur,
            );
        },
    }
}

/// Reading the header ends where the scope of its line ends, unless an
/// error ends it. Without a `TIME` line no error ends it.
pub proof fn lemma_parse_header(s: ParseState)
    requires
        !s.current().is_boundary(),
    ensures
        parse_header(s).0 is Ok ==> parse_header(s).1.stream == s.stream.skip_to(0),
        parse_header(s).1.len() < s.len(),
        has_no_tag(s.stream.tokens, "TIME"@) ==> parse_header(s).0 is Ok,
{
    lemma_has_no(s.stream, 0, "TIME"@);
    lemma_header_loop(s.advance(), HeaderView::empty(), 0);
    lemma_skip_to(s.stream, 0);
}

/// The error that a record without a level is, met in the current line.
pub open spec fn level_error(s: ParseState) -> ParseErrorView {
    ParseErrorView { fault: Fault::MissingLevel, line: s.line() }
}

/// The pointer of a record, if the current token is one; it is passed over.
pub open spec fn take_pointer(s: ParseState) -> (Option<Seq<char>>, ParseState) {
    match s.current() {
        TokenView::Pointer(xref) => (Some(xref), s.advance()),
        _ => (None, s),
    }
}

/// Whether a tag at the top of the file begins a record that is passed over
/// without a report.
pub open spec fn is_passed_record(tag: Seq<char>) -> bool {
    tag == "REPO"@ || tag == "SOUR"@ || tag == "SUBM"@
}

/// What reading one record leads to.
pub enum RecordStep {
    /// The document with the record, where more records may follow.
    Next(GedcomDataView),
    /// The end of the parse: the document, or the error that ended it.
    Done(Result<GedcomDataView, ParseErrorView>),
}

/// One record, from its tag on. `level` is the level of its line, `xref`
/// its pointer, if it has one, and `data` what was read before. `HEAD`
/// begins the header, `FAM` a family and `INDI` an individual, and `TRLR`
/// ends the file. The records `REPO`, `SOUR` and `SUBM` are skipped, and so
/// is every other record, with a report. An error in a record ends the
/// parse.
pub open spec fn record_body(
    s: ParseState,
    level: u8,
    xref: Option<Seq<char>>,
    data: GedcomDataView,
) -> (RecordStep, ParseState) {
    match s.current() {
        TokenView::Tag(t) => {
            if t == "HEAD"@ {
                let (header, s1) = parse_header(s);
                match header {
                    Ok(header) => (RecordStep::Next(GedcomDataView { header, ..data }), s1),
                    Err(e) => (RecordStep::Done(Err(e)), s1),
                }
            } else if t == "FAM"@ {
                let (family, s1) = parse_family(s, level, xref);
                (RecordStep::Next(data.add_family(family)), s1)
            } else if t == "INDI"@ {
                let (individual, s1) = parse_individual(s, level, xref);
                match individual {
                    Ok(individual) => (RecordStep::Next(data.add_individual(individual)), s1),
                    Err(e) => (RecordStep::Done(Err(e)), s1),
                }
            } else if t == "TRLR"@ {
                (RecordStep::Done(Ok(data)), s)
            } else if is_passed_record(t) {
                (RecordStep::Next(data), s.skip(level))
            } else {
                (
                    RecordStep::Next(data),
                    s.warn(Scope::Record, Anomaly::UnhandledTag, TokenView::Tag(t)).skip(level),
                )
            }
        },
        TokenView::CustomTag(t) => {
            let (custom, s1) = parse_custom_tag(
                s.warn(Scope::Record, Anomaly::SkippedCustomTag, TokenView::CustomTag(t)),
                t,
            );
            (RecordStep::Next(data), s1.skip(level))
        },
        other => (
            RecordStep::Next(data),
            s.warn(Scope::Record, Anomaly::UnhandledToken, other).skip(level),
        ),
    }
}

/// The level at which the scope of a record closes: the level of its line,
/// but for the header, which goes on to the first level 0.
pub open spec fn record_scope(s: ParseState, level: u8) -> u8 {
    if s.current() == TokenView::Tag("HEAD"@) {
        0
    } else {
        level
    }
}

/// Reading one record never takes tokens back, and where more records may
/// follow it ends where the scope of the record ends.
pub proof fn lemma_record_body(
    s: ParseState,
    level: u8,
    xref: Option<Seq<char>>,
    data: GedcomDataView,
)
    ensures
        record_body(s, level, xref, data).1.len() <= s.len(),
        record_body(s, level, xref, data).0 is Next ==> record_body(s, level, xref, data).1.stream
            == s.stream.skip_to(record_scope(s, level)),
{
    lemma_skip_to(s.stream, level);
    match s.current() {
        TokenView::Tag(t) => {
            lemma_parse_header(s);
            lemma_parse_family(s, level, xref);
            lemma_parse_individual(s, level, xref);
        },
        TokenView::CustomTag(t) => {
            let s0 = s.warn(Scope::Record, Anomaly::SkippedCustomTag, TokenView::CustomTag(t));
            lemma_take_line_value(s0, level);
            lemma_skip_to(take_line_value(s0).1.stream, level);
        },
        other => {},
    }
}

/// The records of a file, from the level of a record on. `data` is what was
/// read before. Every record begins with a level, a pointer where it has
/// one, and a tag. A token that is no level where a record has to begin
/// ends the parse, and so does what ends the reading of a record.
pub open spec fn record_loop(s: ParseState, data: GedcomDataView) -> (
    Result<GedcomDataView, ParseErrorView>,
    ParseState,
)
    decreases s.len(),
{
    match s.current() {
        TokenView::Level(level) => {
            let (xref, s2) = take_pointer(s.advance());
            let (step, s3) = record_body(s2, level, xref, data);
            proof {
                lemma_record_body(s2, level, xref, data);
            }
            match step {
                RecordStep::Next(data2) => record_loop(s3, data2),
                RecordStep::Done(found) => (found, s3),
            }
        },
        _ => (Err(level_error(s)), s),
    }
}

/// What a file holds: the records from the first token on.
pub open spec fn parse_record(s: ParseState) -> (
    Result<GedcomDataView, ParseErrorView>,
    ParseState,
) {
    record_loop(s, GedcomDataView::empty())
}

} // verus!
