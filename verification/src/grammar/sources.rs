//! The records that tell where the facts come from: sources, repositories
//! and submitters. A file is parsed without them; they are read where a
//! caller asks for them.

use crate::diagnostic::{Anomaly, Scope};
use crate::grammar::fields::{
    lemma_parse_address, lemma_parse_repo_citation, lemma_take_continued_text,
    lemma_take_line_value, parse_address, parse_repo_citation, take_continued_text,
    take_line_value,
};
use crate::grammar::records::{event_loop, lemma_event_loop};
use crate::state::{lemma_skip_to, lemma_skip_to_nested, ParseState};
use crate::token::TokenView;
use crate::types::event::{EventTypeView, EventView};
use crate::types::source::{RepositoryView, SourceDataView, SourceView, SubmitterView};
use vstd::prelude::*;

verus! {

/// The events that a source records. The current token is the tag `EVEN`
/// of their line, which is at the level `start`; the value of the line
/// names the events, and the lines under it say when and where they were.
pub open spec fn parse_source_events(s: ParseState, start: u8) -> (EventView, ParseState) {
    let (recorded, s1) = take_line_value(s);
    event_loop(s1, EventView::new(EventTypeView::SourceData(recorded)), start, start)
}

/// Reading the events of a source ends where the scope of their line ends.
pub proof fn lemma_parse_source_events(s: ParseState, start: u8)
    requires
        !s.current().is_boundary(),
    ensures
        parse_source_events(s, start).1.stream == s.stream.skip_to(start),
        parse_source_events(s, start).1.len() < s.len(),
{
    lemma_take_line_value(s, start);
    let (recorded, s1) = take_line_value(s);
    lemma_event_loop(s1, EventView::new(EventTypeView::SourceData(recorded)), start, start);
    lemma_skip_to(s.stream, start);
}

/// The rest of a source. The `DATA` tag is passed over; under it, an `EVEN`
/// line gives events that the source records and an `AGNC` line the agency.
/// `ABBR` and `TITL` begin continued texts, the abbreviation and the title,
/// and `REPO` begins the citation of a repository. Everything else is
/// reported and skipped.
pub open spec fn source_loop(s: ParseState, source: SourceView, cur: u8, start: u8) -> (
    SourceView,
    ParseState,
)
    decreases s.len(),
{
    match s.current() {
        TokenView::EOF => (source, s),
        TokenView::Level(n) => if n <= start {
            (source, s)
        } else {
            source_loop(s.advance(), source, n, start)
        },
        TokenView::Tag(t) => {
            proof {
                lemma_take_line_value(s, cur);
                lemma_take_continued_text(s, cur);
                lemma_parse_source_events(s, cur);
                lemma_parse_repo_citation(s, cur);
                lemma_skip_to(s.stream, cur);
            }
            if t == "DATA"@ {
                source_loop(s.advance(), source, cur, start)
            } else if t == "EVEN"@ {
                let (event, s1) = parse_source_events(s, cur);
                source_loop(
                    s1,
                    SourceView {
                        data: SourceDataView {
                            events: source.data.events.push(event),
                            ..source.data
                        },
                        ..source
                    },
                    cur,
                    start,
                )
            } else if t == "AGNC"@ {
                let (v, s1) = take_line_value(s);
                source_loop(
                    s1,
                    SourceView {
                        data: SourceDataView { agency: Some(v), ..source.data },
                        ..source
                    },
                    cur,
                    start,
                )
            } else if t == "ABBR"@ {
                let (text, s1) = take_continued_text(s, cur);
                source_loop(s1, SourceView { abbreviation: Some(text), ..source }, cur, start)
            } else if t == "TITL"@ {
                let (text, s1) = take_continued_text(s, cur);
                source_loop(s1, SourceView { title: Some(text), ..source }, cur, start)
            } else if t == "REPO"@ {
                let (citation, s1) = parse_repo_citation(s, cur);
                source_loop(
                    s1,
                    SourceView {
                        repo_citations: source.repo_citations.push(citation),
                        ..source
                    },
                    cur,
                    start,
                )
            } else {
                source_loop(
                    s.warn(Scope::Source, Anomaly::UnhandledTag, TokenView::Tag(t)).skip(cur),
                    source,
                    cur,
                    start,
                )
            }
        },
        other => {
            proof {
                lemma_skip_to(s.stream, cur);
            }
            source_loop(
                s.warn(Scope::Source, Anomaly::UnhandledToken, other).skip(cur),
                source,
                cur,
                start,
            )
        },
    }
}

/// A source. The current token is the tag `SOUR` of its line, which is at
/// the level `start`; `xref` is the pointer of the line, if it has one.
pub open spec fn parse_source(s: ParseState, start: u8, xref: Option<Seq<char>>) -> (
    SourceView,
    ParseState,
) {
    source_loop(s.advance(), SourceView::new(xref), start, start)
}

/// Reading a source ends where its scope ends.
pub proof fn lemma_source_loop(s: ParseState, source: SourceView, cur: u8, start: u8)
    requires
        start <= cur,
    ensures
        source_loop(s, source, cur, start).1.stream == s.stream.skip_to(start),
    decreases s.len(),
{
    match s.current() {
        TokenView::EOF => {},
        TokenView::Level(n) => {
            if n > start {
                lemma_source_loop(s.advance(), source, n, start);
            }
        },
        TokenView::Tag(t) => {
            lemma_take_line_value(s, start);
            lemma_take_continued_text(s, cur);
            lemma_parse_source_events(s, cur);
            lemma_parse_repo_citation(s, cur);
            lemma_skip_to(s.stream, cur);
            lemma_skip_to_nested(s.stream, cur, start);
            if t == "DATA"@ {
                lemma_source_loop(s.advance(), source, cur, start);
            } else if t == "EVEN"@ {
                let (event, s1) = parse_source_events(s, cur);
                lemma_source_loop(
                    s1,
                    SourceView {
                        data: SourceDataView {
                            events: source.data.events.push(event),
                            ..source.data
                        },
                        ..source
                    },
                    cur,
                    start,
                );
            } else if t == "AGNC"@ {
                let (v, s1) = take_line_value(s);
                lemma_source_loop(
                    s1,
                    SourceView {
                        data: SourceDataView { agency: Some(v), ..source.data },
                        ..source
                    },
                    cur,
                    start,
                );
            } else if t == "ABBR"@ {
                let (text, s1) = take_continued_text(s, cur);
                lemma_source_loop(
                    s1,
                    SourceView { abbreviation: Some(text), ..source },
                    cur,
                    start,
                );
            } else if t == "TITL"@ {
                let (text, s1) = take_continued_text(s, cur);
                lemma_source_loop(s1, SourceView { title: Some(text), ..source }, cur, start);
            } else if t == "REPO"@ {
                let (citation, s1) = parse_repo_citation(s, cur);
                lemma_source_loop(
                    s1,
                    SourceView {
                        repo_citations: source.repo_citations.push(citation),
                        ..source
                    },
                    cur,
                    start,
                );
            } else {
                lemma_source_loop(
                    s.warn(Scope::Source, Anomaly::UnhandledTag, TokenView::Tag(t)).skip(cur),
                    source,
                    cur,
                    start,
                );
            }
        },
        other => {
            lemma_skip_to(s.stream, cur);
            lemma_skip_to_nested(s.stream, cur, start);
            lemma_source_loop(
                s.warn(Scope::Source, Anomaly::UnhandledToken, other).skip(cur),
                source,
                cur,
                start,
            );
        },
    }
}

/// Reading a source ends where the scope of its line ends.
pub proof fn lemma_parse_source(s: ParseState, start: u8, xref: Option<Seq<char>>)
    requires
        !s.current().is_boundary(),
    ensures
        parse_source(s, start, xref).1.stream == s.stream.skip_to(start),
        parse_source(s, start, xref).1.len() < s.len(),
{
    lemma_source_loop(s.advance(), SourceView::new(xref), start, start);
    lemma_skip_to(s.stream, start);
}

/// The rest of a repository: a `NAME` line gives its name and an `ADDR`
/// line begins its address. Everything else is reported and skipped.
pub open spec fn repository_loop(s: ParseState, repository: RepositoryView, cur: u8, start: u8) -> (
    RepositoryView,
    ParseState,
)
    decreases s.len(),
{
    match s.current() {
        TokenView::EOF => (repository, s),
        TokenView::Level(n) => if n <= start {
            (repository, s)
        } else {
            repository_loop(s.advance(), repository, n, start)
        },
        TokenView::Tag(t) => {
            proof {
                lemma_take_line_value(s, cur);
                lemma_parse_address(s, cur);
                lemma_skip_to(s.stream, cur);
            }
            if t == "NAME"@ {
                let (v, s1) = take_line_value(s);
                repository_loop(s1, RepositoryView { name: Some(v), ..repository }, cur, start)
            } else if t == "ADDR"@ {
                let (address, s1) = parse_address(s, cur);
                repository_loop(
                    s1,
                    RepositoryView { address: Some(address), ..repository },
                    cur,
                    start,
                )
            } else {
                repository_loop(
                    s.warn(Scope::Repository, Anomaly::UnhandledTag, TokenView::Tag(t)).skip(cur),
                    repository,
                    cur,
                    start,
                )
            }
        },
        other => {
            proof {
                lemma_skip_to(s.stream, cur);
            }
            repository_loop(
                s.warn(Scope::Repository, Anomaly::UnhandledToken, other).skip(cur),
                repository,
                cur,
                start,
            )
        },
    }
}

/// A repository. The current token is the tag `REPO` of its line, which is
/// at the level `start`; `xref` is the pointer of the line, if it has one.
pub open spec fn parse_repository(s: ParseState, start: u8, xref: Option<Seq<char>>) -> (
    RepositoryView,
    ParseState,
) {
    repository_loop(s.advance(), RepositoryView::new(xref), start, start)
}

/// Reading a repository ends where its scope ends.
pub proof fn lemma_repository_loop(s: ParseState, repository: RepositoryView, cur: u8, start: u8)
    requires
        start <= cur,
    ensures
        repository_loop(s, repository, cur, start).1.stream == s.stream.skip_to(start),
    decreases s.len(),
{
    match s.current() {
        TokenView::EOF => {},
        TokenView::Level(n) => {
            if n > start {
                lemma_repository_loop(s.advance(), repository, n, start);
            }
        },
        TokenView::Tag(t) => {
            lemma_take_line_value(s, start);
            lemma_parse_address(s, cur);
            lemma_skip_to(s.stream, cur);
            lemma_skip_to_nested(s.stream, cur, start);
            if t == "NAME"@ {
                let (v, s1) = take_line_value(s);
                lemma_repository_loop(
                    s1,
                    RepositoryView { name: Some(v), ..repository },
                    cur,
                    start,
                );
            } else if t == "ADDR"@ {
                let (address, s1) = parse_address(s, cur);
                lemma_repository_loop(
                    s1,
                    RepositoryView { address: Some(address), ..repository },
                    cur,
                    start,
                );
            } else {
                lemma_repository_loop(
                    s.warn(Scope::Repository, Anomaly::UnhandledTag, TokenView::Tag(t)).skip(cur),
                    repository,
                    cur,
                    start,
                );
            }
        },
        other => {
            lemma_skip_to(s.stream, cur);
            lemma_skip_to_nested(s.stream, cur, start);
            lemma_repository_loop(
                s.warn(Scope::Repository, Anomaly::UnhandledToken, other).skip(cur),
                repository,
                cur,
                start,
            );
        },
    }
}

/// Reading a repository ends where the scope of its line ends.
pub proof fn lemma_parse_repository(s: ParseState, start: u8, xref: Option<Seq<char>>)
    requires
        !s.current().is_boundary(),
    ensures
        parse_repository(s, start, xref).1.stream == s.stream.skip_to(start),
        parse_repository(s, start, xref).1.len() < s.len(),
{
    lemma_repository_loop(s.advance(), RepositoryView::new(xref), start, start);
    lemma_skip_to(s.stream, start);
}

/// The rest of a submitter: a `NAME` line gives the name, a `PHON` line the
/// telephone number, and an `ADDR` line begins the address. Everything else
/// is reported and skipped.
pub open spec fn submitter_loop(s: ParseState, submitter: SubmitterView, cur: u8, start: u8) -> (
    SubmitterView,
    ParseState,
)
    decreases s.len(),
{
    match s.current() {
        TokenView::EOF => (submitter, s),
        TokenView::Level(n) => if n <= start {
            (submitter, s)
        } else {
            submitter_loop(s.advance(), submitter, n, start)
        },
        TokenView::Tag(t) => {
            proof {
                lemma_take_line_value(s, cur);
                lemma_parse_address(s, cur);
                lemma_skip_to(s.stream, cur);
            }
            if t == "NAME"@ {
                let (v, s1) = take_line_value(s);
                submitter_loop(s1, SubmitterView { name: Some(v), ..submitter }, cur, start)
            } else if t == "ADDR"@ {
                let (address, s1) = parse_address(s, cur);
                submitter_loop(
                    s1,
                    SubmitterView { address: Some(address), ..submitter },
                    cur,
                    start,
                )
            } else if t == "PHON"@ {
                let (v, s1) = take_line_value(s);
                submitter_loop(s1, SubmitterView { phone: Some(v), ..submitter }, cur, start)
            } else {
                submitter_loop(
                    s.warn(Scope::Submitter, Anomaly::UnhandledTag, TokenView::Tag(t)).skip(cur),
                    submitter,
                    cur,
                    start,
                )
            }
        },
        other => {
            proof {
                lemma_skip_to(s.stream, cur);
            }
            submitter_loop(
                s.warn(Scope::Submitter, Anomaly::UnhandledToken, other).skip(cur),
                submitter,
                cur,
                start,
            )
        },
    }
}

/// A submitter. The current token is the tag `SUBM` of its line, which is
/// at the level `start`; `xref` is the pointer of the line, if it has one.
pub open spec fn parse_submitter(s: ParseState, start: u8, xref: Option<Seq<char>>) -> (
    SubmitterView,
    ParseState,
) {
    submitter_loop(s.advance(), SubmitterView::new(xref), start, start)
}

/// Reading a submitter ends where its scope ends.
pub proof fn lemma_submitter_loop(s: ParseState, submitter: SubmitterView, cur: u8, start: u8)
    requires
        start <= cur,
    ensures
        submitter_loop(s, submitter, cur, start).1.stream == s.stream.skip_to(start),
    decreases s.len(),
{
    match s.current() {
        TokenView::EOF => {},
        TokenView::Level(n) => {
            if n > start {
                lemma_submitter_loop(s.advance(), submitter, n, start);
            }
        },
        TokenView::Tag(t) => {
            lemma_take_line_value(s, start);
            lemma_parse_address(s, cur);
            lemma_skip_to(s.stream, cur);
            lemma_skip_to_nested(s.stream, cur, start);
            if t == "NAME"@ {
                let (v, s1) = take_line_value(s);
                lemma_submitter_loop(s1, SubmitterView { name: Some(v), ..submitter }, cur, start);
            } else if t == "ADDR"@ {
                let (address, s1) = parse_address(s, cur);
                lemma_submitter_loop(
                    s1,
                    SubmitterView { address: Some(address), ..submitter },
                    cur,
                    start,
                );
            } else if t == "PHON"@ {
                let (v, s1) = take_line_value(s);
                lemma_submitter_loop(
                    s1,
                    SubmitterView { phone: Some(v), ..submitter },
                    cur,
                    start,
                );
            } else {
                lemma_submitter_loop(
                    s.warn(Scope::Submitter, Anomaly::UnhandledTag, TokenView::Tag(t)).skip(cur),
                    submitter,
                    cur,
                    start,
                );
            }
        },
        other => {
            lemma_skip_to(s.stream, cur);
            lemma_skip_to_nested(s.stream, cur, start);
            lemma_submitter_loop(
                s.warn(Scope::Submitter, Anomaly::UnhandledToken, other).skip(cur),
                submitter,
                cur,
                start,
            );
        },
    }
}

/// Reading a submitter ends where the scope of its line ends.
pub proof fn lemma_parse_submitter(s: ParseState, start: u8, xref: Option<Seq<char>>)
    requires
        !s.current().is_boundary(),
    ensures
        parse_submitter(s, start, xref).1.stream == s.stream.skip_to(start),
        parse_submitter(s, start, xref).1.len() < s.len(),
{
    lemma_submitter_loop(s.advance(), SubmitterView::new(xref), start, start);
    lemma_skip_to(s.stream, start);
}

} // verus!
