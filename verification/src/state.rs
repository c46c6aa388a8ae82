//! The state of a parse as a mathematical value: the tokens that are left,
//! the line count and the reports made so far.

use crate::diagnostic::{Anomaly, DiagnosticView, Scope};
use crate::token::TokenView;
use vstd::prelude::*;

verus! {

/// The tokens from the current one on, and the number of the current line.
/// The current token is the first of `tokens`; where none is left, it is
/// `EOF`.
pub struct Stream {
    pub tokens: Seq<TokenView>,
    pub line: nat,
}

impl Stream {
    /// The current token.
    pub open spec fn current(self) -> TokenView {
        if self.tokens.len() > 0 {
            self.tokens[0]
        } else {
            TokenView::EOF
        }
    }

    /// The stream after the current token: the next token becomes current,
    /// and a level begins a new line. At the end nothing changes.
    pub open spec fn advance(self) -> Stream {
        if self.tokens.len() > 0 {
            let rest = self.tokens.drop_first();
            Stream {
                tokens: rest,
                line: if rest.len() > 0 && rest[0] is Level {
                    self.line + 1
                } else {
                    self.line
                },
            }
        } else {
            self
        }
    }

    /// The stream at the end of the scope that was opened at `level`: the
    /// tokens are passed over up to the first that closes the scope, which
    /// stays the current one.
    pub open spec fn skip_to(self, level: u8) -> Stream
        decreases self.tokens.len(),
    {
        if self.current().closes(level) {
            self
        } else {
            self.advance().skip_to(level)
        }
    }

    /// The stream after `n` tokens.
    pub open spec fn advance_by(self, n: nat) -> Stream
        decreases n,
    {
        if n == 0 {
            self
        } else {
            self.advance().advance_by((n - 1) as nat)
        }
    }
}

/// How many tokens at the start of `tokens` lie inside the scope that was
/// opened at `level`: the number of tokens before the first that closes it.
pub open spec fn scope_len(tokens: Seq<TokenView>, level: u8) -> nat
    decreases tokens.len(),
{
    if tokens.len() == 0 || tokens[0].closes(level) {
        0
    } else {
        1 + scope_len(tokens.drop_first(), level)
    }
}

/// The state of a parse.
pub struct ParseState {
    pub stream: Stream,
    pub diagnostics: Seq<DiagnosticView>,
}

impl ParseState {
    /// The current token.
    pub open spec fn current(self) -> TokenView {
        self.stream.current()
    }

    /// The number of the current line.
    pub open spec fn line(self) -> nat {
        self.stream.line
    }

    /// How many tokens are left.
    pub open spec fn len(self) -> nat {
        self.stream.tokens.len()
    }

    /// The state after the current token.
    pub open spec fn advance(self) -> ParseState {
        ParseState { stream: self.stream.advance(), ..self }
    }

    /// The state at the end of the scope that was opened at `level`.
    pub open spec fn skip(self, level: u8) -> ParseState {
        ParseState { stream: self.stream.skip_to(level), ..self }
    }

    /// The state with one more report, made in the current line.
    pub open spec fn warn(self, scope: Scope, anomaly: Anomaly, found: TokenView) -> ParseState {
        ParseState {
            diagnostics: self.diagnostics.push(
                DiagnosticView { line: self.stream.line, scope, anomaly, found },
            ),
            ..self
        }
    }
}

/// Skipping stops at a token that closes the scope and leaves no more
/// tokens than there were; where the current token does not close the
/// scope, it leaves fewer.
pub proof fn lemma_skip_to(s: Stream, level: u8)
    ensures
        s.skip_to(level).current().closes(level),
        s.skip_to(level).tokens.len() <= s.tokens.len(),
        !s.current().closes(level) ==> s.skip_to(level).tokens.len() < s.tokens.len(),
        s.line <= s.skip_to(level).line,
    decreases s.tokens.len(),
{
    if !s.current().closes(level) {
        lemma_skip_to(s.advance(), level);
    }
}

/// Skipping goes to the end of the scope, not before it and not past it:
/// it passes over exactly the tokens before the first that closes the scope.
/// None of the tokens passed over closes the scope, and the token it stops
/// at does, unless the tokens have run out.
pub proof fn lemma_skip_to_scope_end(s: Stream, level: u8)
    ensures
        scope_len(s.tokens, level) <= s.tokens.len(),
        s.skip_to(level) == s.advance_by(scope_len(s.tokens, level)),
        s.skip_to(level).tokens == s.tokens.skip(scope_len(s.tokens, level) as int),
        forall|i: int|
            0 <= i < scope_len(s.tokens, level) ==> !(#[trigger] s.tokens[i]).closes(level),
        scope_len(s.tokens, level) < s.tokens.len() ==> s.tokens[scope_len(
            s.tokens,
            level,
        ) as int].closes(level),
    decreases s.tokens.len(),
{
    if s.tokens.len() == 0 || s.tokens[0].closes(level) {
        assert(s.tokens.skip(0) =~= s.tokens);
    } else {
        let t = s.advance();
        lemma_skip_to_scope_end(t, level);
        let n = scope_len(t.tokens, level);
        assert(s.tokens.skip(n as int + 1) =~= t.tokens.skip(n as int));
        assert forall|i: int| 0 <= i < scope_len(s.tokens, level) implies !(
        #[trigger] s.tokens[i]).closes(level) by {
            if i > 0 {
                assert(s.tokens[i] == t.tokens[i - 1]);
            }
        }
    }
}

/// Skipping twice is skipping once.
pub proof fn lemma_skip_to_idempotent(s: Stream, level: u8)
    ensures
        s.skip_to(level).skip_to(level) == s.skip_to(level),
{
    lemma_skip_to(s, level);
}

/// Skipping to the end of an inner scope and then to the end of the scope
/// around it is skipping to the end of the outer scope.
pub proof fn lemma_skip_to_nested(s: Stream, inner: u8, outer: u8)
    requires
        outer <= inner,
    ensures
        s.skip_to(inner).skip_to(outer) == s.skip_to(outer),
    decreases s.tokens.len(),
{
    if !s.current().closes(inner) {
        lemma_skip_to_nested(s.advance(), inner, outer);
    }
}

/// Whether no token is the tag `tag`.
pub open spec fn has_no_tag(tokens: Seq<TokenView>, tag: Seq<char>) -> bool {
    forall|i: int| 0 <= i < tokens.len() ==> #[trigger] tokens[i] != TokenView::Tag(tag)
}

/// Whether no token is an `EOF`: the tokens end where the sequence ends.
pub open spec fn has_no_end(tokens: Seq<TokenView>) -> bool {
    forall|i: int| 0 <= i < tokens.len() ==> !(#[trigger] tokens[i] is EOF)
}

/// What holds of none of the tokens holds of none of those that are left
/// after a step or after a skip.
pub proof fn lemma_has_no(s: Stream, level: u8, tag: Seq<char>)
    ensures
        has_no_tag(s.tokens, tag) ==> has_no_tag(s.advance().tokens, tag) && has_no_tag(
            s.advance().advance().tokens,
            tag,
        ) && has_no_tag(s.skip_to(level).tokens, tag),
        has_no_end(s.tokens) ==> has_no_end(s.advance().tokens) && has_no_end(
            s.advance().advance().tokens,
        ) && has_no_end(s.skip_to(level).tokens),
{
    lemma_skip_to_scope_end(s, level);
    let n = scope_len(s.tokens, level) as int;
    let t1 = s.advance().tokens;
    let t2 = s.advance().advance().tokens;
    let t3 = s.skip_to(level).tokens;
    if has_no_tag(s.tokens, tag) {
        assert forall|i: int| 0 <= i < t1.len() implies #[trigger] t1[i] != TokenView::Tag(
            tag,
        ) by {
            assert(t1[i] == s.tokens[i + 1]);
        }
        assert forall|i: int| 0 <= i < t2.len() implies #[trigger] t2[i] != TokenView::Tag(
            tag,
        ) by {
            assert(t2[i] == t1[i + 1]);
        }
        assert forall|i: int| 0 <= i < t3.len() implies #[trigger] t3[i] != TokenView::Tag(
            tag,
        ) by {
            assert(t3[i] == s.tokens[i + n]);
        }
    }
    if has_no_end(s.tokens) {
        assert forall|i: int| 0 <= i < t1.len() implies !(#[trigger] t1[i] is EOF) by {
            assert(t1[i] == s.tokens[i + 1]);
        }
        assert forall|i: int| 0 <= i < t2.len() implies !(#[trigger] t2[i] is EOF) by {
            assert(t2[i] == t1[i + 1]);
        }
        assert forall|i: int| 0 <= i < t3.len() implies !(#[trigger] t3[i] is EOF) by {
            assert(t3[i] == s.tokens[i + n]);
        }
    }
}

} // verus!
