//! What the parser reports: anomalies it got over, and the errors that end
//! a parse.

use crate::token::{Token, TokenView};
use vstd::prelude::*;

verus! {

/// The part of the grammar in which an anomaly was met.
#[derive(Debug, PartialEq, Eq, Clone, Copy, Structural)]
pub enum Scope {
    /// The records at the top of the file.
    Record,
    Header,
    /// The `GEDC` block of the header.
    Gedcom,
    Individual,
    Family,
    Name,
    Event,
    Address,
    Citation,
    RepoCitation,
    FamilyLink,
    Source,
    Repository,
    Submitter,
    /// A text with `CONT` and `CONC` lines.
    Continuation,
    /// The value of a line.
    LineValue,
}

/// An anomaly that the parser gets over.
#[derive(Debug, PartialEq, Eq, Clone, Copy, Structural)]
pub enum Anomaly {
    /// A tag that has no meaning where it stands; its lines are skipped.
    UnhandledTag,
    /// A token of a sort that cannot stand where it does.
    UnhandledToken,
    /// A user-defined tag at the top of the file; its lines are skipped.
    SkippedCustomTag,
    /// The source block of the header, which is not read.
    SkippedSource,
    /// A sex that is none of `M`, `F`, `N`, `U`; it counts as unknown.
    UnknownGender,
    /// A `SEX` line without a value; the sex counts as unknown.
    MissingGender,
    /// A line without a value where one is needed; the value counts as empty.
    MissingLineValue,
    /// A form other than `LINEAGE-LINKED`.
    UnrecognizedForm,
}

/// A report of an anomaly: where it was met and the token that caused it.
#[derive(Debug, PartialEq, Eq)]
pub struct Diagnostic {
    pub line: usize,
    pub scope: Scope,
    pub anomaly: Anomaly,
    pub found: Token,
}

/// A report as a mathematical value.
pub struct DiagnosticView {
    pub line: nat,
    pub scope: Scope,
    pub anomaly: Anomaly,
    pub found: TokenView,
}

impl View for Diagnostic {
    type V = DiagnosticView;

    open spec fn view(&self) -> DiagnosticView {
        DiagnosticView {
            line: self.line as nat,
            scope: self.scope,
            anomaly: self.anomaly,
            found: self.found@,
        }
    }
}

impl DeepView for Diagnostic {
    type V = DiagnosticView;

    open spec fn deep_view(&self) -> DiagnosticView {
        self@
    }
}

/// Why a parse cannot go on.
#[derive(Debug, PartialEq, Eq, Clone, Copy, Structural)]
pub enum Fault {
    /// A record has to begin with a level, and something else stands there,
    /// or the text ends before its `TRLR` record.
    MissingLevel,
    /// A `TIME` line of the header that no `DATE` line precedes.
    TimeWithoutDate,
    /// A `CHAN` line of an individual that no nested `DATE` line follows.
    ChangeWithoutDate,
}

/// The error that ends a parse, with the number of the line it was met in.
#[derive(Debug, PartialEq, Eq, Clone, Copy, Structural)]
pub struct ParseError {
    pub fault: Fault,
    pub line: usize,
}

/// An error as a mathematical value.
pub struct ParseErrorView {
    pub fault: Fault,
    pub line: nat,
}

impl View for ParseError {
    type V = ParseErrorView;

    open spec fn view(&self) -> ParseErrorView {
        ParseErrorView { fault: self.fault, line: self.line as nat }
    }
}

/// A result with both sides as mathematical values.
pub open spec fn result_view<T: View>(r: Result<T, ParseError>) -> Result<T::V, ParseErrorView> {
    match r {
        Ok(v) => Ok(v@),
        Err(e) => Err(e@),
    }
}

} // verus!
