//! The parser: it reads the tokens of a GEDCOM text and builds the records.

use crate::diagnostic::{result_view, Anomaly, Diagnostic, Fault, ParseError, Scope};
use crate::grammar::fields;
use crate::grammar::records;
use crate::grammar::sources;
use crate::state::{lemma_skip_to, lemma_skip_to_scope_end, scope_len, ParseState, Stream};
use crate::text::{decimal_text, push_decimal, str_eq, str_eq_ignore_case};
use crate::token::{Token, TokenKind};
use crate::tokenizer::{next_cursor, start_cursor, tokens_of, Tokenizer};
use crate::tree::GedcomData;
use crate::types::address::{Address, AddressView};
use crate::types::event::{life_event_tag, Event, EventType, RepoCitation, SourceCitation};
use crate::types::family::Family;
use crate::types::header::Header;
use crate::types::individual::{CustomData, FamilyLink, Gender, Individual, Name, NameView};
use crate::types::source::{Repository, Source, Submitter};
use std::str::Chars;
use vstd::prelude::*;
use vstd::std_specs::iter::IteratorSpec;
use vstd::string::*;

verus! {

/// The state in which the parse of a text begins: the first token is read,
/// and nothing is reported yet.
pub open spec fn start_state(input: Seq<char>) -> ParseState {
    ParseState {
        stream: Stream {
            tokens: tokens_of(input),
            line: next_cursor(input, start_cursor()).line,
        },
        diagnostics: Seq::empty(),
    }
}

/// The parser of a GEDCOM text. It owns the tokenizer and collects the
/// reports of what it got over.
pub struct Parser {
    tokenizer: Tokenizer,
    diagnostics: Vec<Diagnostic>,
}

/// What reading one record leads to.
pub enum RecordOutcome {
    /// The document with the record, where more records may follow.
    Next(GedcomData),
    /// The end of the parse: the document, or the error that ended it.
    Done(Result<GedcomData, ParseError>),
}

impl View for RecordOutcome {
    type V = records::RecordStep;

    open spec fn view(&self) -> records::RecordStep {
        match self {
            RecordOutcome::Next(data) => records::RecordStep::Next(data@),
            RecordOutcome::Done(found) => records::RecordStep::Done(result_view(*found)),
        }
    }
}

impl View for Parser {
    type V = ParseState;

    closed spec fn view(&self) -> ParseState {
        ParseState { stream: self.tokenizer.stream(), diagnostics: self.diagnostics.deep_view() }
    }
}

impl Parser {
    /// The invariant of a parser: that of its tokenizer.
    pub closed spec fn wf(&self) -> bool {
        self.tokenizer.wf()
    }

    /// A parser for the text that `chars` gives, with the first token read.
    /// `chars` has to be an iterator that ends, as every iterator over the
    /// characters of a string is.
    pub fn new(chars: Chars<'_>) -> (parser: Parser)
        requires
            chars.decrease() is Some,
        ensures
            parser.wf(),
            parser@ == start_state(chars.remaining()),
    {
        let mut tokenizer = Tokenizer::new(chars);
        tokenizer.next_token();
        let parser = Parser { tokenizer, diagnostics: Vec::new() };
        proof {
            let input = chars.remaining();
            crate::tokenizer::lemma_next_cursor(input, start_cursor());
            crate::tokenizer::lemma_tokens_step(input, start_cursor());
            assert(parser@.diagnostics =~= Seq::empty());
        }
        parser
    }

    /// A parser for `text`, with the first token read.
    pub fn from_text(text: &str) -> (parser: Parser)
        ensures
            parser.wf(),
            parser@ == start_state(text@),
    {
        Parser::new(text.chars())
    }

    /// The reports made so far, in the order in which they were made.
    pub fn diagnostics(&self) -> (d: &Vec<Diagnostic>)
        ensures
            d.deep_view() == self@.diagnostics,
    {
        &self.diagnostics
    }

    /// Ends the use of the parser and hands out its reports.
    pub fn into_diagnostics(self) -> (d: Vec<Diagnostic>)
        ensures
            d.deep_view() == self@.diagnostics,
    {
        self.diagnostics
    }

    /// The current line as the start of a message: the word `line`, the
    /// number of the line and a colon.
    pub fn dbg(&self) -> (s: String)
        ensures
            s@ == "line "@ + decimal_text(self@.line()) + ":"@,
    {
        let mut s = String::from_str("line ");
        push_decimal(&mut s, self.tokenizer.line());
        s.push(':');
        proof {
            reveal_strlit(":");
            assert(s@ =~= "line "@ + decimal_text(self@.line()) + ":"@);
        }
        s
    }

    /// The number of the current line.
    pub fn line(&self) -> (n: usize)
        ensures
            n == self@.line(),
    {
        self.tokenizer.line()
    }

    /// The sort of the current token.
    pub fn kind(&self) -> (k: TokenKind)
        requires
            self.wf(),
        ensures
            k == self@.current().kind(),
    {
        self.tokenizer.kind()
    }

    /// Whether the current token carries the text `text`.
    pub fn text_is(&self, text: &str) -> (r: bool)
        requires
            self.wf(),
        ensures
            r == (self@.current().text() == text@),
    {
        match self.tokenizer.current() {
            Token::Tag(s) => str_eq(s.as_str(), text),
            Token::LineValue(s) => str_eq(s.as_str(), text),
            Token::Pointer(s) => str_eq(s.as_str(), text),
            Token::CustomTag(s) => str_eq(s.as_str(), text),
            _ => {
                let empty = String::new();
                str_eq(empty.as_str(), text)
            },
        }
    }

    /// A copy of the text that the current token carries.
    pub fn text(&self) -> (s: String)
        requires
            self.wf(),
        ensures
            s@ == self@.current().text(),
    {
        self.tokenizer.current().text()
    }

    /// Goes on to the next token.
    pub fn advance(&mut self)
        requires
            old(self).wf(),
        ensures
            final(self).wf(),
            final(self)@ == old(self)@.advance(),
    {
        self.tokenizer.next_token();
    }

    /// Reports an anomaly that the token `found` caused.
    pub fn report(&mut self, scope: Scope, anomaly: Anomaly, found: Token)
        requires
            old(self).wf(),
        ensures
            final(self).wf(),
            final(self)@ == old(self)@.warn(scope, anomaly, found@),
    {
        let line = self.tokenizer.line();
        let ghost before = self.diagnostics.deep_view();
        let diagnostic = Diagnostic { line, scope, anomaly, found };
        self.diagnostics.push(diagnostic);
        assert(self.diagnostics.deep_view() =~= before.push(diagnostic@));
    }

    /// Reports an anomaly that the current token caused.
    pub fn warn(&mut self, scope: Scope, anomaly: Anomaly)
        requires
            old(self).wf(),
        ensures
            final(self).wf(),
            final(self)@ == old(self)@.warn(scope, anomaly, old(self)@.current()),
    {
        let found = self.tokenizer.current().clone();
        self.report(scope, anomaly, found);
    }

    /// Passes over the rest of the scope that was opened at `level`: goes on
    /// to the first token that closes it, a level that is not deeper than
    /// `level` or the end of the text, and stops there. The tokens passed
    /// over are those before that token and no others. A second call
    /// changes nothing.
    pub fn skip_level(&mut self, level: u8)
        requires
            old(self).wf(),
        ensures
            final(self).wf(),
            final(self)@ == old(self)@.skip(level),
            final(self)@.current().closes(level),
            final(self)@.stream.tokens == old(self)@.stream.tokens.skip(
                scope_len(old(self)@.stream.tokens, level) as int,
            ),
    {
        let ghost goal = self@.skip(level);
        proof {
            lemma_skip_to_scope_end(self@.stream, level);
        }
        loop
            invariant
                self.wf(),
                self@.skip(level) == goal,
            ensures
                self@ == goal,
                self@.current().closes(level),
            decreases self@.len(),
        {
            match self.kind() {
                TokenKind::EOF => {
                    break ;
                },
                TokenKind::Level(n) => {
                    if n <= level {
                        break ;
                    }
                },
                _ => {},
            }
            self.advance();
        }
    }

    /// The value of the current line. The current token is the tag of the
    /// line; it is passed over, and so is the line value that follows it.
    /// Where no line value follows, the value is empty, this is reported,
    /// and the token that stands there stays.
    pub fn take_line_value(&mut self) -> (value: String)
        requires
            old(self).wf(),
        ensures
            final(self).wf(),
            (value@, final(self)@) == fields::take_line_value(old(self)@),
    {
        self.advance();
        match self.kind() {
            TokenKind::LineValue => {
                let value = self.text();
                self.advance();
                value
            },
            _ => {
                self.warn(Scope::LineValue, Anomaly::MissingLineValue);
                String::new()
            },
        }
    }

    /// The line with a user-defined tag: `tag` and the value of the line.
    /// The current token is the tag of the line.
    pub fn parse_custom_tag(&mut self, tag: String) -> (data: CustomData)
        requires
            old(self).wf(),
        ensures
            final(self).wf(),
            (data@, final(self)@) == fields::parse_custom_tag(old(self)@, tag@),
    {
        let value = self.take_line_value();
        CustomData { tag, value }
    }

    /// The sex that a `SEX` line gives: `M` is male, `F` female, `N`
    /// nonbinary and `U` unknown. The current token is the tag. Every other
    /// value, and a missing value, leaves the sex unknown and is reported.
    pub fn parse_gender(&mut self) -> (gender: Gender)
        requires
            old(self).wf(),
        ensures
            final(self).wf(),
            (gender, final(self)@) == fields::parse_gender(old(self)@),
    {
        self.advance();
        match self.kind() {
            TokenKind::LineValue => {
                let value = self.text();
                let gender = match Gender::from_code(value.as_str()) {
                    Some(gender) => gender,
                    None => {
                        self.warn(Scope::Individual, Anomaly::UnknownGender);
                        Gender::Unknown
                    },
                };
                self.advance();
                gender
            },
            _ => {
                self.warn(Scope::Individual, Anomaly::MissingGender);
                Gender::Unknown
            },
        }
    }

    /// The text of a line with the lines that continue it: a `CONT` line
    /// adds a line feed and its value, a `CONC` line a space and its value.
    /// The current token is the tag of the line, which is at the level
    /// `start_level`. Everything else under the line is reported and
    /// skipped.
    pub fn take_continued_text(&mut self, start_level: u8) -> (text: String)
        requires
            old(self).wf(),
        ensures
            final(self).wf(),
            (text@, final(self)@) == fields::take_continued_text(old(self)@, start_level),
            !old(self)@.current().is_boundary() ==> final(self)@.stream
                == old(self)@.stream.skip_to(start_level),
    {
        let ghost goal = fields::take_continued_text(self@, start_level);
        proof {
            if !self@.current().is_boundary() {
                fields::lemma_take_continued_text(self@, start_level);
            }
        }
        let mut text = self.take_line_value();
        let mut current_level = start_level;
        loop
            invariant
                self.wf(),
                start_level <= current_level,
                fields::continued(self@, text@, current_level, start_level) == goal,
            ensures
                self.wf(),
                (text@, self@) == goal,
            decreases self@.len(),
        {
            let ghost before = self@;
            let ghost text_before = text@;
            match self.kind() {
                TokenKind::EOF => {
                    break ;
                },
                TokenKind::Level(n) => {
                    if n <= start_level {
                        break ;
                    }
                    current_level = n;
                    self.advance();
                },
                TokenKind::Tag => {
                    proof {
                        fields::lemma_take_line_value(before, current_level);
                        lemma_skip_to(before.stream, current_level);
                    }
                    if self.text_is("CONT") {
                        let value = self.take_line_value();
                        text.push('\n');
                        text.append(value.as_str());
                        assert(text@ =~= text_before + seq!['\n'] + value@);
                    } else if self.text_is("CONC") {
                        let value = self.take_line_value();
                        text.push(' ');
                        text.append(value.as_str());
                        assert(text@ =~= text_before + seq![' '] + value@);
                    } else {
                        self.warn(Scope::Continuation, Anomaly::UnhandledTag);
                        self.skip_level(current_level);
                    }
                },
                _ => {
                    proof {
                        lemma_skip_to(before.stream, current_level);
                    }
                    self.warn(Scope::Continuation, Anomaly::UnhandledToken);
                    self.skip_level(current_level);
                },
            }
        }
        text
    }

    /// The name of an individual with its parts. The current token is the
    /// tag of its line, which is at the level `start_level`; the value of
    /// the line is the name as written. What is no part of a name is
    /// reported and skipped.
    pub fn parse_name(&mut self, start_level: u8) -> (name: Name)
        requires
            old(self).wf(),
        ensures
            final(self).wf(),
            (name@, final(self)@) == fields::parse_name(old(self)@, start_level),
            !old(self)@.current().is_boundary() ==> final(self)@.stream
                == old(self)@.stream.skip_to(start_level),
    {
        let ghost goal = fields::parse_name(self@, start_level);
        proof {
            if !self@.current().is_boundary() {
                fields::lemma_parse_name(self@, start_level);
            }
        }
        let value = self.take_line_value();
        let mut name = Name::default();
        name.value = Some(value);
        assert(name@ == (NameView { value: Some(value@), ..NameView::empty() }));
        let mut current_level = start_level;
        loop
            invariant
                self.wf(),
                start_level <= current_level,
                fields::name_loop(self@, name@, current_level, start_level) == goal,
            ensures
                self.wf(),
                (name@, self@) == goal,
            decreases self@.len(),
        {
            let ghost before = self@;
            match self.kind() {
                TokenKind::EOF => {
                    break ;
                },
                TokenKind::Level(n) => {
                    if n <= start_level {
                        break ;
                    }
                    current_level = n;
                    self.advance();
                },
                TokenKind::Tag => {
                    proof {
                        fields::lemma_take_line_value(before, current_level);
                        lemma_skip_to(before.stream, current_level);
                    }
                    if self.text_is("GIVN") {
                        name.given = Some(self.take_line_value());
                    } else if self.text_is("NPFX") {
                        name.prefix = Some(self.take_line_value());
                    } else if self.text_is("NSFX") {
                        name.suffix = Some(self.take_line_value());
                    } else if self.text_is("SPFX") {
                        name.surname_prefix = Some(self.take_line_value());
                    } else if self.text_is("SURN") {
                        name.surname = Some(self.take_line_value());
                    } else {
                        self.warn(Scope::Name, Anomaly::UnhandledTag);
                        self.skip_level(current_level);
                    }
                },
                _ => {
                    proof {
                        lemma_skip_to(before.stream, current_level);
                    }
                    self.warn(Scope::Name, Anomaly::UnhandledToken);
                    self.skip_level(current_level);
                },
            }
        }
        name
    }

    /// The citation of a source with its page. The current token is the tag
    /// of its line, which is at the level `start_level`; the value of the
    /// line is the pointer to the source. What is no part of a citation is
    /// reported and skipped.
    pub fn parse_citation(&mut self, start_level: u8) -> (citation: SourceCitation)
        requires
            old(self).wf(),
        ensures
            final(self).wf(),
            (citation@, final(self)@) == fields::parse_citation(old(self)@, start_level),
            !old(self)@.current().is_boundary() ==> final(self)@.stream
                == old(self)@.stream.skip_to(start_level),
    {
        let ghost goal = fields::parse_citation(self@, start_level);
        proof {
            if !self@.current().is_boundary() {
                fields::lemma_parse_citation(self@, start_level);
            }
        }
        let xref = self.take_line_value();
        let mut citation = SourceCitation { xref, page: None };
        let mut current_level = start_level;
        loop
            invariant
                self.wf(),
                start_level <= current_level,
                fields::citation_loop(self@, citation@, current_level, start_level) == goal,
            ensures
                self.wf(),
                (citation@, self@) == goal,
            decreases self@.len(),
        {
            let ghost before = self@;
            match self.kind() {
                TokenKind::EOF => {
                    break ;
                },
                TokenKind::Level(n) => {
                    if n <= start_level {
                        break ;
                    }
                    current_level = n;
                    self.advance();
                },
                TokenKind::Tag => {
                    proof {
                        fields::lemma_take_line_value(before, current_level);
                        lemma_skip_to(before.stream, current_level);
                    }
                    if self.text_is("PAGE") {
                        citation.page = Some(self.take_line_value());
                    } else {
                        self.warn(Scope::Citation, Anomaly::UnhandledTag);
                        self.skip_level(current_level);
                    }
                },
                _ => {
                    proof {
                        lemma_skip_to(before.stream, current_level);
                    }
                    self.warn(Scope::Citation, Anomaly::UnhandledToken);
                    self.skip_level(current_level);
                },
            }
        }
        citation
    }

    /// The citation of a repository with its call number. The current token
    /// is the tag of its line, which is at the level `start_level`; the
    /// value of the line is the pointer to the repository. What is no part
    /// of a citation is reported and skipped.
    pub fn parse_repo_citation(&mut self, start_level: u8) -> (citation: RepoCitation)
        requires
            old(self).wf(),
        ensures
            final(self).wf(),
            (citation@, final(self)@) == fields::parse_repo_citation(old(self)@, start_level),
            !old(self)@.current().is_boundary() ==> final(self)@.stream
                == old(self)@.stream.skip_to(start_level),
    {
        let ghost goal = fields::parse_repo_citation(self@, start_level);
        proof {
            if !self@.current().is_boundary() {
                fields::lemma_parse_repo_citation(self@, start_level);
            }
        }
        let xref = self.take_line_value();
        let mut citation = RepoCitation { xref, call_number: None };
        let mut current_level = start_level;
        loop
            invariant
                self.wf(),
                start_level <= current_level,
                fields::repo_citation_loop(self@, citation@, current_level, start_level) == goal,
            ensures
                self.wf(),
                (citation@, self@) == goal,
            decreases self@.len(),
        {
            let ghost before = self@;
            match self.kind() {
                TokenKind::EOF => {
                    break ;
                },
                TokenKind::Level(n) => {
                    if n <= start_level {
                        break ;
                    }
                    current_level = n;
                    self.advance();
                },
                TokenKind::Tag => {
                    proof {
                        fields::lemma_take_line_value(before, current_level);
                        lemma_skip_to(before.stream, current_level);
                    }
                    if self.text_is("CALN") {
                        citation.call_number = Some(self.take_line_value());
                    } else {
                        self.warn(Scope::RepoCitation, Anomaly::UnhandledTag);
                        self.skip_level(current_level);
                    }
                },
                _ => {
                    proof {
                        lemma_skip_to(before.stream, current_level);
                    }
                    self.warn(Scope::RepoCitation, Anomaly::UnhandledToken);
                    self.skip_level(current_level);
                },
            }
        }
        citation
    }

    /// The link from an individual to a family, with its pedigree. The
    /// current token is the tag of its line, which is at the level
    /// `start_level`; `tag` is that tag, `FAMC` for a child and `FAMS` for
    /// a spouse, and the value of the line is the pointer to the family.
    /// What is no part of a link is reported and skipped.
    pub fn parse_family_link(&mut self, tag: &str, start_level: u8) -> (link: FamilyLink)
        requires
            old(self).wf(),
        ensures
            final(self).wf(),
            (link@, final(self)@) == fields::parse_family_link(old(self)@, tag@, start_level),
            !old(self)@.current().is_boundary() ==> final(self)@.stream
                == old(self)@.stream.skip_to(start_level),
    {
        let ghost goal = fields::parse_family_link(self@, tag@, start_level);
        proof {
            if !self@.current().is_boundary() {
                fields::lemma_parse_family_link(self@, tag@, start_level);
            }
        }
        let xref = self.take_line_value();
        let mut link = FamilyLink::new(xref, tag);
        let mut current_level = start_level;
        loop
            invariant
                self.wf(),
                start_level <= current_level,
                fields::family_link_loop(self@, link@, current_level, start_level) == goal,
            ensures
                self.wf(),
                (link@, self@) == goal,
            decreases self@.len(),
        {
            let ghost before = self@;
            match self.kind() {
                TokenKind::EOF => {
                    break ;
                },
                TokenKind::Level(n) => {
                    if n <= start_level {
                        break ;
                    }
                    current_level = n;
                    self.advance();
                },
                TokenKind::Tag => {
                    proof {
                        fields::lemma_take_line_value(before, current_level);
                        lemma_skip_to(before.stream, current_level);
                    }
                    if self.text_is("PEDI") {
                        let pedigree = self.take_line_value();
                        link.set_pedigree(pedigree);
                    } else {
                        self.warn(Scope::FamilyLink, Anomaly::UnhandledTag);
                        self.skip_level(current_level);
                    }
                },
                _ => {
                    proof {
                        lemma_skip_to(before.stream, current_level);
                    }
                    self.warn(Scope::FamilyLink, Anomaly::UnhandledToken);
                    self.skip_level(current_level);
                },
            }
        }
        link
    }

    /// The rest of an event, the lines under its own: its date, its place and
    /// its citations are added to `event`. The line of the event is at the
    /// level `start_level`. What is no part of an event is reported and
    /// skipped.
    pub fn parse_event_lines(&mut self, event: Event, start_level: u8) -> (out: Event)
        requires
            old(self).wf(),
        ensures
            final(self).wf(),
            (out@, final(self)@) == records::event_loop(
                old(self)@,
                event@,
                start_level,
                start_level,
            ),
            final(self)@.stream == old(self)@.stream.skip_to(start_level),
    {
        let ghost goal = records::event_loop(self@, event@, start_level, start_level);
        proof {
            records::lemma_event_loop(self@, event@, start_level, start_level);
        }
        let mut event = event;
        let mut current_level = start_level;
        loop
            invariant
                self.wf(),
                start_level <= current_level,
                records::event_loop(self@, event@, current_level, start_level) == goal,
            ensures
                self.wf(),
                (event@, self@) == goal,
            decreases self@.len(),
        {
            let ghost before = self@;
            match self.kind() {
                TokenKind::EOF => {
                    break ;
                },
                TokenKind::Level(n) => {
                    if n <= start_level {
                        break ;
                    }
                    current_level = n;
                    self.advance();
                },
                TokenKind::Tag => {
                    proof {
                        fields::lemma_take_line_value(before, current_level);
                        lemma_skip_to(before.stream, current_level);
                        fields::lemma_parse_citation(before, current_level);
                    }
                    if self.text_is("DATE") {
                        event.date = Some(self.take_line_value());
                    } else if self.text_is("PLAC") {
                        event.place = Some(self.take_line_value());
                    } else if self.text_is("SOUR") {
                        let citation = self.parse_citation(current_level);
                        event.add_citation(citation);
                    } else {
                        self.warn(Scope::Event, Anomaly::UnhandledTag);
                        self.skip_level(current_level);
                    }
                },
                _ => {
                    proof {
                        lemma_skip_to(before.stream, current_level);
                    }
                    self.warn(Scope::Event, Anomaly::UnhandledToken);
                    self.skip_level(current_level);
                },
            }
        }
        event
    }

    /// An event with its date, its place and its citations. The current
    /// token is the tag of its line, which is at the level `start_level`;
    /// `tag` is that tag and says what kind of event it is. What is no part
    /// of an event is reported and skipped.
    pub fn parse_event(&mut self, tag: &str, start_level: u8) -> (event: Event)
        requires
            old(self).wf(),
        ensures
            final(self).wf(),
            (event@, final(self)@) == records::parse_event(old(self)@, tag@, start_level),
            !old(self)@.current().is_boundary() ==> final(self)@.stream
                == old(self)@.stream.skip_to(start_level),
    {
        proof {
            if !self@.current().is_boundary() {
                records::lemma_parse_event(self@, tag@, start_level);
            }
        }
        self.advance();
        self.parse_event_lines(Event::from_tag(tag), start_level)
    }

    /// A family with its partners, its children and its events. The current
    /// token is the tag `FAM` of its line, which is at the level
    /// `start_level`; `xref` is the pointer of the line, if it has one. What
    /// is no part of a family is reported and skipped.
    pub fn parse_family(&mut self, start_level: u8, xref: Option<String>) -> (family: Family)
        requires
            old(self).wf(),
        ensures
            final(self).wf(),
            (family@, final(self)@) == records::parse_family(
                old(self)@,
                start_level,
                xref.deep_view(),
            ),
            !old(self)@.current().is_boundary() ==> final(self)@.stream
                == old(self)@.stream.skip_to(start_level),
    {
        let ghost goal = records::parse_family(self@, start_level, xref.deep_view());
        proof {
            if !self@.current().is_boundary() {
                records::lemma_parse_family(self@, start_level, xref.deep_view());
            }
        }
        self.advance();
        let mut family = Family::new(xref);
        let mut current_level = start_level;
        loop
            invariant
                self.wf(),
                start_level <= current_level,
                records::family_loop(self@, family@, current_level, start_level) == goal,
            ensures
                self.wf(),
                (family@, self@) == goal,
            decreases self@.len(),
        {
            let ghost before = self@;
            match self.kind() {
                TokenKind::EOF => {
                    break ;
                },
                TokenKind::Level(n) => {
                    if n <= start_level {
                        break ;
                    }
                    current_level = n;
                    self.advance();
                },
                TokenKind::Tag => {
                    proof {
                        fields::lemma_take_line_value(before, current_level);
                        lemma_skip_to(before.stream, current_level);
                        records::lemma_parse_event(before, before.current().text(), current_level);
                    }
                    if self.text_is("HUSB") {
                        let partner = self.take_line_value();
                        family.set_individual1(partner);
                    } else if self.text_is("WIFE") {
                        let partner = self.take_line_value();
                        family.set_individual2(partner);
                    } else if self.text_is("CHIL") {
                        let child = self.take_line_value();
                        family.add_child(child);
                    } else if self.text_is("MARR") {
                        let event = self.parse_event("MARR", current_level);
                        family.add_event(event);
                    } else {
                        self.warn(Scope::Family, Anomaly::UnhandledTag);
                        self.skip_level(current_level);
                    }
                },
                _ => {
                    proof {
                        lemma_skip_to(before.stream, current_level);
                    }
                    self.warn(Scope::Family, Anomaly::UnhandledToken);
                    self.skip_level(current_level);
                },
            }
        }
        family
    }

    /// An address with its text and its parts. The current token is the tag
    /// of its line, which is at the level `start_level`. The text is the
    /// value of that line, if it has one, and the values of the `CONT` lines
    /// under it, each after a line feed; an address without text has no
    /// value. What is no part of an address is reported and skipped.
    pub fn parse_address(&mut self, start_level: u8) -> (address: Address)
        requires
            old(self).wf(),
        ensures
            final(self).wf(),
            (address@, final(self)@) == fields::parse_address(old(self)@, start_level),
            !old(self)@.current().is_boundary() ==> final(self)@.stream
                == old(self)@.stream.skip_to(start_level),
    {
        let ghost entry = self@;
        proof {
            if !self@.current().is_boundary() {
                fields::lemma_parse_address(self@, start_level);
            }
        }
        self.advance();
        let mut address = Address::default();
        let mut text = String::new();
        match self.kind() {
            TokenKind::LineValue => {
                text = self.text();
                self.advance();
            },
            _ => {},
        }
        let ghost goal = fields::address_loop(
            self@,
            AddressView::empty(),
            text@,
            start_level,
            start_level,
        );
        let mut current_level = start_level;
        loop
            invariant
                self.wf(),
                start_level <= current_level,
                address.value is None,
                fields::address_loop(self@, address@, text@, current_level, start_level) == goal,
            ensures
                self.wf(),
                address.value is None,
                (address@, text@, self@) == goal,
            decreases self@.len(),
        {
            let ghost before = self@;
            let ghost text_before = text@;
            match self.kind() {
                TokenKind::EOF => {
                    break ;
                },
                TokenKind::Level(n) => {
                    if n <= start_level {
                        break ;
                    }
                    current_level = n;
                    self.advance();
                },
                TokenKind::Tag => {
                    proof {
                        fields::lemma_take_line_value(before, current_level);
                        lemma_skip_to(before.stream, current_level);
                    }
                    if self.text_is("CONT") {
                        let value = self.take_line_value();
                        text.push('\n');
                        text.append(value.as_str());
                        assert(text@ =~= text_before + seq!['\n'] + value@);
                    } else if self.text_is("ADR1") {
                        address.adr1 = Some(self.take_line_value());
                    } else if self.text_is("ADR2") {
                        address.adr2 = Some(self.take_line_value());
                    } else if self.text_is("ADR3") {
                        address.adr3 = Some(self.take_line_value());
                    } else if self.text_is("CITY") {
                        address.city = Some(self.take_line_value());
                    } else if self.text_is("STAE") {
                        address.state = Some(self.take_line_value());
                    } else if self.text_is("POST") {
                        address.post = Some(self.take_line_value());
                    } else if self.text_is("CTRY") {
                        address.country = Some(self.take_line_value());
                    } else {
                        self.warn(Scope::Address, Anomaly::UnhandledTag);
                        self.skip_level(current_level);
                    }
                },
                _ => {
                    proof {
                        lemma_skip_to(before.stream, current_level);
                    }
                    self.warn(Scope::Address, Anomaly::UnhandledToken);
                    self.skip_level(current_level);
                },
            }
        }
        let ghost parts = address@;
        if text.as_str().unicode_len() > 0 {
            address.value = Some(text);
        }
        assert(address@ == (AddressView {
            value: if goal.1.len() > 0 {
                Some(goal.1)
            } else {
                None
            },
            ..parts
        }));
        address
    }

    /// The date of the last change and the level of the line that gives
    /// it. The current token is the tag `CHAN`, in a line at the level
    /// `current_level`. The line after it has to be deeper and has to be a
    /// `DATE` line; its value is the date. Anything else is the error
    /// `ChangeWithoutDate`, and the token that is in the way stays.
    pub fn take_change_date(&mut self, current_level: u8) -> (found: Result<
        (String, u8),
        ParseError,
    >)
        requires
            old(self).wf(),
        ensures
            final(self).wf(),
            (
                match found {
                    Ok(pair) => Ok((pair.0@, pair.1)),
                    Err(e) => Err(e@),
                },
                final(self)@,
            ) == records::take_change_date(old(self)@, current_level),
    {
        self.advance();
        match self.kind() {
            TokenKind::Level(n) => {
                if n > current_level {
                    self.advance();
                    match self.kind() {
                        TokenKind::Tag => {
                            if self.text_is("DATE") {
                                let date = self.take_line_value();
                                Ok((date, n))
                            } else {
                                Err(ParseError { fault: Fault::ChangeWithoutDate, line: self.line() })
                            }
                        },
                        _ => Err(
                            ParseError { fault: Fault::ChangeWithoutDate, line: self.line() },
                        ),
                    }
                } else {
                    Err(ParseError { fault: Fault::ChangeWithoutDate, line: self.line() })
                }
            },
            _ => Err(ParseError { fault: Fault::ChangeWithoutDate, line: self.line() }),
        }
    }

    /// An individual with the name, the sex, the events, the links to
    /// families, the date of the last change and the lines with
    /// user-defined tags. The current token is the tag `INDI` of its line,
    /// which is at the level `start_level`; `xref` is the pointer of the
    /// line, if it has one. What is no part of an individual is reported and
    /// skipped. A `CHAN` line that no nested `DATE` line follows is the
    /// error `ChangeWithoutDate`.
    pub fn parse_individual(&mut self, start_level: u8, xref: Option<String>) -> (found: Result<
        Individual,
        ParseError,
    >)
        requires
            old(self).wf(),
        ensures
            final(self).wf(),
            (result_view(found), final(self)@) == records::parse_individual(
                old(self)@,
                start_level,
                xref.deep_view(),
            ),
            found is Ok && !old(self)@.current().is_boundary() ==> final(self)@.stream
                == old(self)@.stream.skip_to(start_level),
    {
        let ghost goal = records::parse_individual(self@, start_level, xref.deep_view());
        proof {
            if !self@.current().is_boundary() {
                records::lemma_parse_individual(self@, start_level, xref.deep_view());
            }
        }
        self.advance();
        let mut individual = Individual::new(xref);
        let mut current_level = start_level;
        let mut failure: Option<ParseError> = None;
        loop
            invariant_except_break
                failure is None,
                records::individual_loop(self@, individual@, current_level, start_level) == goal,
            invariant
                self.wf(),
                start_level <= current_level,
            ensures
                self.wf(),
                goal == (
                    match failure {
                        None => Ok(individual@),
                        Some(e) => Err(e@),
                    },
                    self@,
                ),
            decreases self@.len(),
        {
            let ghost before = self@;
            match self.kind() {
                TokenKind::EOF => {
                    break ;
                },
                TokenKind::Level(n) => {
                    if n <= start_level {
                        break ;
                    }
                    current_level = n;
                    self.advance();
                },
                TokenKind::Tag => {
                    let tag = self.text();
                    proof {
                        fields::lemma_parse_name(before, current_level);
                        fields::lemma_parse_gender(before, current_level);
                        records::lemma_parse_event(before, tag@, current_level);
                        fields::lemma_parse_family_link(before, tag@, current_level);
                        records::lemma_take_change_date(before, current_level, current_level);
                        lemma_skip_to(before.stream, current_level);
                    }
                    if str_eq(tag.as_str(), "NAME") {
                        let name = self.parse_name(current_level);
                        individual.name = Some(name);
                    } else if str_eq(tag.as_str(), "SEX") {
                        individual.sex = self.parse_gender();
                    } else if life_event_tag(tag.as_str()) {
                        let event = self.parse_event(tag.as_str(), current_level);
                        individual.add_event(event);
                    } else if str_eq(tag.as_str(), "FAMC") || str_eq(tag.as_str(), "FAMS") {
                        let link = self.parse_family_link(tag.as_str(), current_level);
                        individual.add_family(link);
                    } else if str_eq(tag.as_str(), "CHAN") {
                        match self.take_change_date(current_level) {
                            Ok(pair) => {
                                individual.last_updated = Some(pair.0);
                                current_level = pair.1;
                            },
                            Err(e) => {
                                failure = Some(e);
                                break ;
                            },
                        }
                    } else {
                        self.warn(Scope::Individual, Anomaly::UnhandledTag);
                        self.skip_level(current_level);
                    }
                },
                TokenKind::CustomTag => {
                    proof {
                        fields::lemma_take_line_value(before, current_level);
                    }
                    let tag = self.text();
                    let data = self.parse_custom_tag(tag);
                    individual.add_custom_data(data);
                },
                _ => {
                    proof {
                        lemma_skip_to(before.stream, current_level);
                    }
                    self.warn(Scope::Individual, Anomaly::UnhandledToken);
                    self.skip_level(current_level);
                },
            }
        }
        match failure {
            Some(e) => Err(e),
            None => Ok(individual),
        }
    }

    /// The header with what its `GEDC` block says: a `VERS` line gives the
    /// version, and a `FORM` line that names another form than
    /// `LINEAGE-LINKED` is reported. The current token is the tag `GEDC`;
    /// the block ends with the first level that is not deeper than 1.
    /// Everything else is reported and skipped.
    pub fn parse_gedcom_data(&mut self, header: Header) -> (out: Header)
        requires
            old(self).wf(),
        ensures
            final(self).wf(),
            (out@, final(self)@) == records::parse_gedcom_data(old(self)@, header@),
            !old(self)@.current().is_boundary() ==> final(self)@.stream
                == old(self)@.stream.skip_to(1),
    {
        let ghost goal = records::parse_gedcom_data(self@, header@);
        proof {
            if !self@.current().is_boundary() {
                records::lemma_parse_gedcom_data(self@, header@);
            }
        }
        let mut header = header;
        self.advance();
        let mut current_level: u8 = 1;
        loop
            invariant
                self.wf(),
                1 <= current_level,
                records::gedcom_data_loop(self@, header@, current_level) == goal,
            ensures
                self.wf(),
                (header@, self@) == goal,
            decreases self@.len(),
        {
            let ghost before = self@;
            match self.kind() {
                TokenKind::EOF => {
                    break ;
                },
                TokenKind::Level(n) => {
                    if n <= 1 {
                        break ;
                    }
                    current_level = n;
                    self.advance();
                },
                TokenKind::Tag => {
                    proof {
                        fields::lemma_take_line_value(before, current_level);
                        lemma_skip_to(before.stream, current_level);
                    }
                    if self.text_is("VERS") {
                        header.gedcom_version = Some(self.take_line_value());
                    } else if self.text_is("FORM") {
                        let form = self.take_line_value();
                        if !str_eq_ignore_case(form.as_str(), "LINEAGE-LINKED") {
                            self.report(
                                Scope::Gedcom,
                                Anomaly::UnrecognizedForm,
                                Token::LineValue(form),
                            );
                        }
                    } else {
                        self.warn(Scope::Gedcom, Anomaly::UnhandledTag);
                        self.skip_level(current_level);
                    }
                },
                _ => {
                    proof {
                        lemma_skip_to(before.stream, current_level);
                    }
                    self.warn(Scope::Gedcom, Anomaly::UnhandledToken);
                    self.skip_level(current_level);
                },
            }
        }
        header
    }

    /// The header of the file. The current token is the tag `HEAD`; the
    /// header ends with the first level 0. A `NOTE` line begins a continued
    /// text, a `TIME` line adds its value to the date after a space, a
    /// `GEDC` line begins its block, and the lines under a `SOUR` line are
    /// reported and skipped. Everything else is reported and skipped. A
    /// `TIME` line in a header that has no date yet is the error
    /// `TimeWithoutDate`.
    pub fn parse_header(&mut self) -> (found: Result<Header, ParseError>)
        requires
            old(self).wf(),
        ensures
            final(self).wf(),
            (result_view(found), final(self)@) == records::parse_header(old(self)@),
            found is Ok && !old(self)@.current().is_boundary() ==> final(self)@.stream
                == old(self)@.stream.skip_to(0),
    {
        let ghost goal = records::parse_header(self@);
        proof {
            if !self@.current().is_boundary() {
                records::lemma_parse_header(self@);
            }
        }
        self.advance();
        let mut header = Header::default();
        let mut current_level: u8 = 0;
        let mut failure: Option<ParseError> = None;
        loop
            invariant_except_break
                failure is None,
                records::header_loop(self@, header@, current_level) == goal,
            invariant
                self.wf(),
            ensures
                self.wf(),
                goal == (
                    match failure {
                        None => Ok(header@),
                        Some(e) => Err(e@),
                    },
                    self@,
                ),
            decreases self@.len(),
        {
            let ghost before = self@;
            let ghost header_before = header@;
            match self.kind() {
                TokenKind::EOF => {
                    break ;
                },
                TokenKind::Level(n) => {
                    if n == 0 {
                        break ;
                    }
                    current_level = n;
                    self.advance();
                },
                TokenKind::Tag => {
                    proof {
                        fields::lemma_take_line_value(before, 1);
                        fields::lemma_take_continued_text(before, 1);
                        records::lemma_parse_gedcom_data(before, header_before);
                        lemma_skip_to(before.stream, 1);
                        lemma_skip_to(before.stream, current_level);
                    }
                    if self.text_is("NOTE") {
                        header.note = Some(self.take_continued_text(1));
                    } else if self.text_is("TIME") {
                        let date = match &header.date {
                            Some(date) => date.clone(),
                            None => {
                                failure = Some(
                                    ParseError { fault: Fault::TimeWithoutDate, line: self.line() },
                                );
                                break ;
                            },
                        };
                        let time = self.take_line_value();
                        let mut moment = date;
                        moment.push(' ');
                        moment.append(time.as_str());
                        assert(moment@ =~= date@ + seq![' '] + time@);
                        header.date = Some(moment);
                    } else if self.text_is("GEDC") {
                        header = self.parse_gedcom_data(header);
                    } else if self.text_is("SOUR") {
                        self.warn(Scope::Header, Anomaly::SkippedSource);
                        self.skip_level(1);
                    } else if self.text_is("CHAR") {
                        header.encoding = Some(self.take_line_value());
                    } else if self.text_is("CORP") {
                        header.corporation = Some(self.take_line_value());
                    } else if self.text_is("COPR") {
                        header.copyright = Some(self.take_line_value());
                    } else if self.text_is("DATE") {
                        header.date = Some(self.take_line_value());
                    } else if self.text_is("DEST") {
                        let destination = self.take_line_value();
                        header.add_destination(destination);
                    } else if self.text_is("LANG") {
                        header.language = Some(self.take_line_value());
                    } else if self.text_is("FILE") {
                        header.filename = Some(self.take_line_value());
                    } else if self.text_is("SUBM") {
                        header.submitter_tag = Some(self.take_line_value());
                    } else if self.text_is("SUBN") {
                        header.submission_tag = Some(self.take_line_value());
                    } else {
                        self.warn(Scope::Header, Anomaly::UnhandledTag);
                        self.skip_level(current_level);
                    }
                },
                _ => {
                    proof {
                        lemma_skip_to(before.stream, current_level);
                    }
                    self.warn(Scope::Header, Anomaly::UnhandledToken);
                    self.skip_level(current_level);
                },
            }
        }
        match failure {
            Some(e) => Err(e),
            None => Ok(header),
        }
    }

    /// The events that a source records, with their date and place. The
    /// current token is the tag `EVEN` of their line, which is at the level
    /// `start_level`; the value of the line names the events.
    pub fn parse_source_events(&mut self, start_level: u8) -> (event: Event)
        requires
            old(self).wf(),
        ensures
            final(self).wf(),
            (event@, final(self)@) == sources::parse_source_events(old(self)@, start_level),
            !old(self)@.current().is_boundary() ==> final(self)@.stream
                == old(self)@.stream.skip_to(start_level),
    {
        proof {
            if !self@.current().is_boundary() {
                sources::lemma_parse_source_events(self@, start_level);
            }
        }
        let recorded = self.take_line_value();
        self.parse_event_lines(Event::new(EventType::SourceData(recorded)), start_level)
    }

    /// A source with the events it records, its agency, its abbreviation,
    /// its title and the repositories that hold it. The current token is
    /// the tag `SOUR` of its line, which is at the level `start_level`;
    /// `xref` is the pointer of the line, if it has one. What is no part of
    /// a source is reported and skipped.
    pub fn parse_source(&mut self, start_level: u8, xref: Option<String>) -> (source: Source)
        requires
            old(self).wf(),
        ensures
            final(self).wf(),
            (source@, final(self)@) == sources::parse_source(
                old(self)@,
                start_level,
                xref.deep_view(),
            ),
            !old(self)@.current().is_boundary() ==> final(self)@.stream
                == old(self)@.stream.skip_to(start_level),
    {
        let ghost goal = sources::parse_source(self@, start_level, xref.deep_view());
        proof {
            if !self@.current().is_boundary() {
                sources::lemma_parse_source(self@, start_level, xref.deep_view());
            }
        }
        self.advance();
        let mut source = Source::new(xref);
        let mut current_level = start_level;
        loop
            invariant
                self.wf(),
                start_level <= current_level,
                sources::source_loop(self@, source@, current_level, start_level) == goal,
            ensures
                self.wf(),
                (source@, self@) == goal,
            decreases self@.len(),
        {
            let ghost before = self@;
            match self.kind() {
                TokenKind::EOF => {
                    break ;
                },
                TokenKind::Level(n) => {
                    if n <= start_level {
                        break ;
                    }
                    current_level = n;
                    self.advance();
                },
                TokenKind::Tag => {
                    proof {
                        fields::lemma_take_line_value(before, current_level);
                        lemma_skip_to(before.stream, current_level);
                        fields::lemma_take_continued_text(before, current_level);
                        sources::lemma_parse_source_events(before, current_level);
                        fields::lemma_parse_repo_citation(before, current_level);
                    }
                    if self.text_is("DATA") {
                        self.advance();
                    } else if self.text_is("EVEN") {
                        let event = self.parse_source_events(current_level);
                        source.data.add_event(event);
                    } else if self.text_is("AGNC") {
                        source.data.agency = Some(self.take_line_value());
                    } else if self.text_is("ABBR") {
                        source.abbreviation = Some(self.take_continued_text(current_level));
                    } else if self.text_is("TITL") {
                        source.title = Some(self.take_continued_text(current_level));
                    } else if self.text_is("REPO") {
                        let citation = self.parse_repo_citation(current_level);
                        source.add_repo_citation(citation);
                    } else {
                        self.warn(Scope::Source, Anomaly::UnhandledTag);
                        self.skip_level(current_level);
                    }
                },
                _ => {
                    proof {
                        lemma_skip_to(before.stream, current_level);
                    }
                    self.warn(Scope::Source, Anomaly::UnhandledToken);
                    self.skip_level(current_level);
                },
            }
        }
        source
    }

    /// A repository with its name and its address. The current token is the
    /// tag `REPO` of its line, which is at the level `start_level`; `xref`
    /// is the pointer of the line, if it has one. What is no part of a
    /// repository is reported and skipped.
    pub fn parse_repository(&mut self, start_level: u8, xref: Option<String>) -> (repository:
        Repository)
        requires
            old(self).wf(),
        ensures
            final(self).wf(),
            (repository@, final(self)@) == sources::parse_repository(
                old(self)@,
                start_level,
                xref.deep_view(),
            ),
            !old(self)@.current().is_boundary() ==> final(self)@.stream
                == old(self)@.stream.skip_to(start_level),
    {
        let ghost goal = sources::parse_repository(self@, start_level, xref.deep_view());
        proof {
            if !self@.current().is_boundary() {
                sources::lemma_parse_repository(self@, start_level, xref.deep_view());
            }
        }
        self.advance();
        let mut repository = Repository { xref, name: None, address: None };
        let mut current_level = start_level;
        loop
            invariant
                self.wf(),
                start_level <= current_level,
                sources::repository_loop(self@, repository@, current_level, start_level) == goal,
            ensures
                self.wf(),
                (repository@, self@) == goal,
            decreases self@.len(),
        {
            let ghost before = self@;
            match self.kind() {
                TokenKind::EOF => {
                    break ;
                },
                TokenKind::Level(n) => {
                    if n <= start_level {
                        break ;
                    }
                    current_level = n;
                    self.advance();
                },
                TokenKind::Tag => {
                    proof {
                        fields::lemma_take_line_value(before, current_level);
                        lemma_skip_to(before.stream, current_level);
                        fields::lemma_parse_address(before, current_level);
                    }
                    if self.text_is("NAME") {
                        repository.name = Some(self.take_line_value());
                    } else if self.text_is("ADDR") {
                        let address = self.parse_address(current_level);
                        repository.address = Some(address);
                    } else {
                        self.warn(Scope::Repository, Anomaly::UnhandledTag);
                        self.skip_level(current_level);
                    }
                },
                _ => {
                    proof {
                        lemma_skip_to(before.stream, current_level);
                    }
                    self.warn(Scope::Repository, Anomaly::UnhandledToken);
                    self.skip_level(current_level);
                },
            }
        }
        repository
    }

    /// A submitter with the name, the address and the telephone number. The
    /// current token is the tag `SUBM` of its line, which is at the level
    /// `start_level`; `xref` is the pointer of the line, if it has one. What
    /// is no part of a submitter is reported and skipped.
    pub fn parse_submitter(&mut self, start_level: u8, xref: Option<String>) -> (submitter:
        Submitter)
        requires
            old(self).wf(),
        ensures
            final(self).wf(),
            (submitter@, final(self)@) == sources::parse_submitter(
                old(self)@,
                start_level,
                xref.deep_view(),
            ),
            !old(self)@.current().is_boundary() ==> final(self)@.stream
                == old(self)@.stream.skip_to(start_level),
    {
        let ghost goal = sources::parse_submitter(self@, start_level, xref.deep_view());
        proof {
            if !self@.current().is_boundary() {
                sources::lemma_parse_submitter(self@, start_level, xref.deep_view());
            }
        }
        self.advance();
        let mut submitter = Submitter::new(xref);
        let mut current_level = start_level;
        loop
            invariant
                self.wf(),
                start_level <= current_level,
                sources::submitter_loop(self@, submitter@, current_level, start_level) == goal,
            ensures
                self.wf(),
                (submitter@, self@) == goal,
            decreases self@.len(),
        {
            let ghost before = self@;
            match self.kind() {
                TokenKind::EOF => {
                    break ;
                },
                TokenKind::Level(n) => {
                    if n <= start_level {
                        break ;
                    }
                    current_level = n;
                    self.advance();
                },
                TokenKind::Tag => {
                    proof {
                        fields::lemma_take_line_value(before, current_level);
                        lemma_skip_to(before.stream, current_level);
                        fields::lemma_parse_address(before, current_level);
                    }
                    if self.text_is("NAME") {
                        submitter.name = Some(self.take_line_value());
                    } else if self.text_is("ADDR") {
                        let address = self.parse_address(current_level);
                        submitter.address = Some(address);
                    } else if self.text_is("PHON") {
                        submitter.phone = Some(self.take_line_value());
                    } else {
                        self.warn(Scope::Submitter, Anomaly::UnhandledTag);
                        self.skip_level(current_level);
                    }
                },
                _ => {
                    proof {
                        lemma_skip_to(before.stream, current_level);
                    }
                    self.warn(Scope::Submitter, Anomaly::UnhandledToken);
                    self.skip_level(current_level);
                },
            }
        }
        submitter
    }

    /// One record, from its tag on. `level` is the level of its line,
    /// `pointer` its pointer, if it has one, and `data` what was read
    /// before. `HEAD` begins the header, `FAM` a family and `INDI` an
    /// individual, and `TRLR` ends the file. The records `REPO`, `SOUR` and
    /// `SUBM` are skipped, and so is every other record, with a report.
    pub fn parse_record_body(&mut self, level: u8, pointer: Option<String>, data: GedcomData) -> (step:
        RecordOutcome)
        requires
            old(self).wf(),
        ensures
            final(self).wf(),
            (step@, final(self)@) == records::record_body(
                old(self)@,
                level,
                pointer.deep_view(),
                data@,
            ),
    {
        let mut data = data;
        match self.kind() {
            TokenKind::Tag => {
                if self.text_is("HEAD") {
                    match self.parse_header() {
                        Ok(header) => {
                            data.header = header;
                            RecordOutcome::Next(data)
                        },
                        Err(e) => RecordOutcome::Done(Err(e)),
                    }
                } else if self.text_is("FAM") {
                    let family = self.parse_family(level, pointer);
                    data.add_family(family);
                    RecordOutcome::Next(data)
                } else if self.text_is("INDI") {
                    match self.parse_individual(level, pointer) {
                        Ok(individual) => {
                            data.add_individual(individual);
                            RecordOutcome::Next(data)
                        },
                        Err(e) => RecordOutcome::Done(Err(e)),
                    }
                } else if self.text_is("TRLR") {
                    RecordOutcome::Done(Ok(data))
                } else if self.text_is("REPO") || self.text_is("SOUR") || self.text_is("SUBM") {
                    self.skip_level(level);
                    RecordOutcome::Next(data)
                } else {
                    self.warn(Scope::Record, Anomaly::UnhandledTag);
                    self.skip_level(level);
                    RecordOutcome::Next(data)
                }
            },
            TokenKind::CustomTag => {
                let tag = self.text();
                self.warn(Scope::Record, Anomaly::SkippedCustomTag);
                let custom = self.parse_custom_tag(tag);
                self.skip_level(level);
                RecordOutcome::Next(data)
            },
            _ => {
                self.warn(Scope::Record, Anomaly::UnhandledToken);
                self.skip_level(level);
                RecordOutcome::Next(data)
            },
        }
    }

    /// What the file holds: the header, the individuals and the families, in
    /// the order of the file. Every record begins with a level, a pointer
    /// where it has one, and a tag. The parse ends well with the `TRLR`
    /// record. Records of other kinds are skipped. Where a record has to
    /// begin and no level stands, the parse ends with the error
    /// `MissingLevel`: so it does where the text ends before `TRLR`. An
    /// error in the header or in an individual ends the parse too.
    pub fn parse_record(&mut self) -> (found: Result<GedcomData, ParseError>)
        requires
            old(self).wf(),
        ensures
            final(self).wf(),
            (result_view(found), final(self)@) == records::parse_record(old(self)@),
    {
        let ghost goal = records::parse_record(self@);
        let mut data = GedcomData::default();
        let mut outcome: Option<Result<GedcomData, ParseError>> = None;
        loop
            invariant_except_break
                outcome is None,
                records::record_loop(self@, data@) == goal,
            invariant
                self.wf(),
            ensures
                self.wf(),
                outcome is Some,
                goal == (result_view(outcome->0), self@),
            decreases self@.len(),
        {
            let ghost before = self@;
            let level = match self.kind() {
                TokenKind::Level(n) => n,
                _ => {
                    outcome = Some(
                        Err(ParseError { fault: Fault::MissingLevel, line: self.line() }),
                    );
                    break ;
                },
            };
            self.advance();
            let mut pointer: Option<String> = None;
            match self.kind() {
                TokenKind::Pointer => {
                    pointer = Some(self.text());
                    self.advance();
                },
                _ => {},
            }
            proof {
                records::lemma_record_body(self@, level, pointer.deep_view(), data@);
            }
            match self.parse_record_body(level, pointer, data) {
                RecordOutcome::Next(more) => {
                    data = more;
                },
                RecordOutcome::Done(found) => {
                    outcome = Some(found);
                    break ;
                },
            }
        }
        outcome.unwrap()
    }
}

/// Parses the text that `chars` gives: what the file holds, or the error
/// that ended the parse, and the reports of what the parser got over.
/// `chars` has to be an iterator that ends, as every iterator over the
/// characters of a string is.
pub fn parse(chars: Chars<'_>) -> (out: (Result<GedcomData, ParseError>, Vec<Diagnostic>))
    requires
        chars.decrease() is Some,
    ensures
        result_view(out.0) == records::parse_record(start_state(chars.remaining())).0,
        out.1.deep_view() == records::parse_record(
            start_state(chars.remaining()),
        ).1.diagnostics,
{
    let mut parser = Parser::new(chars);
    let found = parser.parse_record();
    (found, parser.into_diagnostics())
}

/// Parses `text`: what the file holds, or the error that ended the parse,
/// and the reports of what the parser got over.
pub fn parse_text(text: &str) -> (out: (Result<GedcomData, ParseError>, Vec<Diagnostic>))
    ensures
        result_view(out.0) == records::parse_record(start_state(text@)).0,
        out.1.deep_view() == records::parse_record(start_state(text@)).1.diagnostics,
{
    parse(text.chars())
}

} // verus!
