//! The tokenizer: it cuts the characters of a GEDCOM text into tokens, one
//! at a time, and counts the lines.

use crate::text::{collect_chars, digit_char, digit_of, digit_value, is_digit, is_newline, is_space, space_char, string_of};
use crate::state::Stream;
use crate::token::{Token, TokenKind, TokenView};
use std::str::Chars;
use vstd::prelude::*;
use vstd::std_specs::iter::IteratorSpec;

verus! {

/// The classes of characters that the tokenizer reads in runs.
#[derive(Debug, PartialEq, Eq, Clone, Copy, Structural)]
pub enum CharClass {
    /// White space inside a line.
    Space,
    /// White space and line feeds.
    Blank,
    /// What a word is made of: neither white space nor a line feed.
    Word,
    /// Everything but the line feed.
    Line,
    /// Decimal digits.
    Digit,
}

/// Whether `c` belongs to `class`.
pub open spec fn in_class(class: CharClass, c: char) -> bool {
    match class {
        CharClass::Space => is_space(c),
        CharClass::Blank => is_space(c) || is_newline(c),
        CharClass::Word => !is_space(c) && !is_newline(c),
        CharClass::Line => !is_newline(c),
        CharClass::Digit => is_digit(c),
    }
}

/// Where the run of characters of `class` that starts at `pos` ends: the
/// first position from `pos` on whose character is not of `class`, or the
/// length of `input`.
pub open spec fn run_end(input: Seq<char>, pos: int, class: CharClass) -> int
    decreases input.len() - pos,
{
    if 0 <= pos < input.len() && in_class(class, input[pos]) {
        run_end(input, pos + 1, class)
    } else {
        pos
    }
}

/// Where the text between `from` and `to` ends once the white space at its
/// end is cut off.
pub open spec fn trim_end(input: Seq<char>, from: int, to: int) -> int
    decreases to - from,
{
    if from < to && 0 < to <= input.len() && is_space(input[to - 1]) {
        trim_end(input, from, to - 1)
    } else {
        to
    }
}

/// The number that a run of decimal digits writes.
pub open spec fn decimal(digits: Seq<char>) -> nat
    decreases digits.len(),
{
    if digits.len() == 0 {
        0
    } else {
        (decimal(digits.drop_last()) * 10 + digit_value(digits.last())) as nat
    }
}

/// The level that a run of decimal digits writes: its number, and 255 where
/// the number is larger than that.
pub open spec fn level_of(digits: Seq<char>) -> u8 {
    if decimal(digits) > 255 {
        255u8
    } else {
        decimal(digits) as u8
    }
}

/// The identifier inside a pointer word: the word without the `@` it begins
/// with and without the `@` at its end, if it has one there.
pub open spec fn pointer_id(word: Seq<char>) -> Seq<char> {
    let body = word.drop_first();
    if body.len() > 0 && body.last() == '@' {
        body.drop_last()
    } else {
        body
    }
}

/// The token that a word stands for: a pointer where it begins with `@`, a
/// custom tag where it begins with an underscore, a tag otherwise.
pub open spec fn word_token(word: Seq<char>) -> TokenView {
    if word.len() > 0 && word[0] == '@' {
        TokenView::Pointer(pointer_id(word))
    } else if word.len() > 0 && word[0] == '_' {
        TokenView::CustomTag(word)
    } else {
        TokenView::Tag(word)
    }
}

/// Where a tokenizer stands: the position of the next unread character, the
/// token it holds and the number of the line it is in.
pub struct Cursor {
    pub pos: int,
    pub token: TokenView,
    pub line: nat,
}

/// One step of the tokenizer.
///
/// White space is passed over, and so are blank lines. After a line feed,
/// or at the very start, a digit begins a level, which also begins a new
/// line of the count; a line that begins with anything else has no level and
/// begins with its word. A word is a pointer, a custom tag or a tag; what
/// follows a tag on its line is the line value, without the white space at
/// its end. At the end of the text the token is `EOF`, and stays so.
pub open spec fn next_cursor(input: Seq<char>, c: Cursor) -> Cursor {
    let p = run_end(input, c.pos, CharClass::Space);
    let crossed = 0 <= p < input.len() && is_newline(input[p]);
    let fresh = crossed || c.token is Start;
    let q = if crossed {
        run_end(input, p, CharClass::Blank)
    } else {
        p
    };
    if c.token is EOF || !(0 <= q < input.len()) {
        Cursor { pos: input.len() as int, token: TokenView::EOF, line: c.line }
    } else if fresh && is_digit(input[q]) {
        let r = run_end(input, q, CharClass::Digit);
        Cursor { pos: r, token: TokenView::Level(level_of(input.subrange(q, r))), line: c.line + 1 }
    } else if !fresh && (c.token is Tag || c.token is CustomTag) {
        let e = run_end(input, q, CharClass::Line);
        let t = trim_end(input, q, e);
        Cursor { pos: e, token: TokenView::LineValue(input.subrange(q, t)), line: c.line }
    } else {
        let e = run_end(input, q, CharClass::Word);
        Cursor { pos: e, token: word_token(input.subrange(q, e)), line: c.line }
    }
}

/// The measure by which the tokens that are left get fewer.
pub open spec fn cursor_measure(input: Seq<char>, c: Cursor) -> int {
    if 0 <= c.pos <= input.len() {
        input.len() - c.pos + if c.token is EOF {
            0int
        } else {
            1int
        }
    } else {
        0
    }
}

/// The tokens from the one the cursor holds to the end of the text; `EOF` is
/// not among them.
pub open spec fn tokens_from(input: Seq<char>, c: Cursor) -> Seq<TokenView>
    decreases cursor_measure(input, c),
{
    if c.token is EOF || !(0 <= c.pos <= input.len()) {
        Seq::empty()
    } else {
        proof {
            lemma_next_cursor(input, c);
        }
        seq![c.token] + tokens_from(input, next_cursor(input, c))
    }
}

/// The cursor of a tokenizer that has read nothing yet.
pub open spec fn start_cursor() -> Cursor {
    Cursor { pos: 0, token: TokenView::Start, line: 0 }
}

/// The tokens of a text.
pub open spec fn tokens_of(input: Seq<char>) -> Seq<TokenView> {
    tokens_from(input, next_cursor(input, start_cursor()))
}

/// A run ends between its start and the end of the text; it holds only
/// characters of its class, and the character after it is not of the class.
pub proof fn lemma_run_end(input: Seq<char>, pos: int, class: CharClass)
    requires
        0 <= pos <= input.len(),
    ensures
        pos <= run_end(input, pos, class) <= input.len(),
        forall|i: int| pos <= i < run_end(input, pos, class) ==> in_class(class, #[trigger] input[i]),
        run_end(input, pos, class) < input.len() ==> !in_class(
            class,
            input[run_end(input, pos, class)],
        ),
    decreases input.len() - pos,
{
    if pos < input.len() && in_class(class, input[pos]) {
        lemma_run_end(input, pos + 1, class);
    }
}

/// Trimming leaves an end between `from` and `to`, and where text is left
/// its last character is no white space.
pub proof fn lemma_trim_end(input: Seq<char>, from: int, to: int)
    requires
        0 <= from <= to <= input.len(),
    ensures
        from <= trim_end(input, from, to) <= to,
        from < trim_end(input, from, to) ==> !is_space(input[trim_end(input, from, to) - 1]),
        !is_space(input[from]) && from < to ==> from < trim_end(input, from, to),
    decreases to - from,
{
    if from < to && is_space(input[to - 1]) {
        lemma_trim_end(input, from, to - 1);
    }
}

/// Every step of the tokenizer goes forward: a token that is not `EOF` has
/// used at least one character, and the line count grows by one with a level
/// and not otherwise.
pub proof fn lemma_next_cursor(input: Seq<char>, c: Cursor)
    requires
        0 <= c.pos <= input.len(),
    ensures
        c.pos <= next_cursor(input, c).pos <= input.len(),
        !(next_cursor(input, c).token is EOF) ==> c.pos < next_cursor(input, c).pos,
        !(next_cursor(input, c).token is Start),
        c.token is EOF ==> next_cursor(input, c).token is EOF,
        next_cursor(input, c).line == c.line + if next_cursor(input, c).token is Level {
            1nat
        } else {
            0nat
        },
        !(c.token is EOF) ==> cursor_measure(input, next_cursor(input, c)) < cursor_measure(
            input,
            c,
        ),
{
    let p = run_end(input, c.pos, CharClass::Space);
    lemma_run_end(input, c.pos, CharClass::Space);
    let crossed = 0 <= p < input.len() && is_newline(input[p]);
    let q = if crossed {
        run_end(input, p, CharClass::Blank)
    } else {
        p
    };
    if crossed {
        lemma_run_end(input, p, CharClass::Blank);
    }
    if 0 <= q < input.len() {
        lemma_run_end(input, q, CharClass::Digit);
        lemma_run_end(input, q, CharClass::Line);
        lemma_run_end(input, q, CharClass::Word);
        assert(!is_space(input[q]));
        assert(!is_newline(input[q]));
    }
}

/// The tokens that are left begin with the token the cursor holds, and one
/// step of the tokenizer drops that token.
pub proof fn lemma_tokens_step(input: Seq<char>, c: Cursor)
    requires
        0 <= c.pos <= input.len(),
    ensures
        c.token is EOF <==> tokens_from(input, c).len() == 0,
        !(c.token is EOF) ==> tokens_from(input, c)[0] == c.token,
        !(c.token is EOF) ==> tokens_from(input, next_cursor(input, c)) == tokens_from(
            input,
            c,
        ).drop_first(),
        c.token is EOF ==> tokens_from(input, next_cursor(input, c)) == tokens_from(input, c),
{
    lemma_next_cursor(input, c);
    if !(c.token is EOF) {
        assert(tokens_from(input, next_cursor(input, c)) =~= tokens_from(input, c).drop_first());
    }
}

/// Among the tokens that are left there is neither `EOF` nor, after the
/// first, the start token.
pub proof fn lemma_tokens_are_proper(input: Seq<char>, c: Cursor)
    requires
        0 <= c.pos <= input.len(),
    ensures
        forall|i: int|
            0 <= i < tokens_from(input, c).len() ==> !(#[trigger] tokens_from(input, c)[i] is EOF),
        forall|i: int|
            1 <= i < tokens_from(input, c).len() ==> !(#[trigger] tokens_from(input, c)[i]
                is Start),
    decreases cursor_measure(input, c),
{
    if !(c.token is EOF) {
        lemma_next_cursor(input, c);
        let next = next_cursor(input, c);
        lemma_tokens_are_proper(input, next);
        lemma_tokens_step(input, next);
        assert forall|i: int| 1 <= i < tokens_from(input, c).len() implies !(
        #[trigger] tokens_from(input, c)[i] is EOF) && !(tokens_from(input, c)[i] is Start) by {
            assert(tokens_from(input, c)[i] == tokens_from(input, next)[i - 1]);
        }
    }
}

/// The tokens of a text are levels, tags, custom tags, pointers and line
/// values: neither `EOF` nor the start token is among them.
pub proof fn lemma_tokens_of_text(input: Seq<char>)
    ensures
        forall|i: int|
            0 <= i < tokens_of(input).len() ==> !(#[trigger] tokens_of(input)[i] is EOF) && !(
            tokens_of(input)[i] is Start),
{
    lemma_next_cursor(input, start_cursor());
    let first = next_cursor(input, start_cursor());
    lemma_tokens_are_proper(input, first);
    lemma_tokens_step(input, first);
}

/// The tokenizer of a GEDCOM text.
pub struct Tokenizer {
    input: Vec<char>,
    pos: usize,
    current_token: Token,
    line: usize,
}

fn class_has(class: CharClass, c: char) -> (r: bool)
    ensures
        r == in_class(class, c),
{
    match class {
        CharClass::Space => space_char(c),
        CharClass::Blank => space_char(c) || c == '\n',
        CharClass::Word => !space_char(c) && c != '\n',
        CharClass::Line => c != '\n',
        CharClass::Digit => digit_char(c),
    }
}

impl Tokenizer {
    /// The text that is being read.
    pub closed spec fn input(&self) -> Seq<char> {
        self.input@
    }

    /// Where the tokenizer stands.
    pub closed spec fn cursor(&self) -> Cursor {
        Cursor { pos: self.pos as int, token: self.current_token@, line: self.line as nat }
    }

    /// The invariant of a tokenizer: it stands inside its text and has
    /// counted no more lines than it has read characters.
    pub closed spec fn wf(&self) -> bool {
        self.line <= self.pos <= self.input.len()
    }

    /// The tokens from the current one to the end of the text.
    pub open spec fn tokens(&self) -> Seq<TokenView> {
        tokens_from(self.input(), self.cursor())
    }

    /// The number of the line the tokenizer is in: the number of levels it
    /// has read.
    pub open spec fn line_number(&self) -> nat {
        self.cursor().line
    }

    /// The tokens that are left, with the number of the current line.
    pub open spec fn stream(&self) -> Stream {
        Stream { tokens: self.tokens(), line: self.line_number() }
    }

    /// A tokenizer at the start of the text that `chars` gives; it holds the
    /// start token.
    pub fn new(chars: Chars<'_>) -> (t: Tokenizer)
        requires
            chars.decrease() is Some,
        ensures
            t.wf(),
            t.input() == chars.remaining(),
            t.cursor() == start_cursor(),
    {
        Tokenizer { input: collect_chars(chars), pos: 0, current_token: Token::Start, line: 0 }
    }

    /// The token the tokenizer holds.
    pub fn current(&self) -> (t: &Token)
        ensures
            t@ == self.cursor().token,
            self.wf() ==> t@ == self.stream().current(),
    {
        proof {
            if self.wf() {
                lemma_tokens_step(self.input(), self.cursor());
            }
        }
        &self.current_token
    }

    /// The sort of the token the tokenizer holds.
    pub fn kind(&self) -> (k: TokenKind)
        ensures
            k == self.cursor().token.kind(),
            self.wf() ==> k == self.stream().current().kind(),
    {
        proof {
            if self.wf() {
                lemma_tokens_step(self.input(), self.cursor());
            }
        }
        self.current_token.kind()
    }

    /// The number of the current line.
    pub fn line(&self) -> (n: usize)
        ensures
            n == self.cursor().line,
    {
        self.line
    }

    /// Whether the end of the text is reached.
    pub fn done(&self) -> (r: bool)
        ensures
            r == (self.cursor().token is EOF),
            self.wf() ==> r == (self.tokens().len() == 0),
    {
        proof {
            if self.wf() {
                lemma_tokens_step(self.input(), self.cursor());
            }
        }
        match self.current_token {
            Token::EOF => true,
            _ => false,
        }
    }

    fn scan(&self, from: usize, class: CharClass) -> (to: usize)
        requires
            from <= self.input.len(),
        ensures
            to == run_end(self.input@, from as int, class),
            from <= to <= self.input.len(),
    {
        let mut i: usize = from;
        while i < self.input.len() && class_has(class, self.input[i])
            invariant
                from <= i <= self.input.len(),
                run_end(self.input@, i as int, class) == run_end(self.input@, from as int, class),
            decreases self.input.len() - i,
        {
            i += 1;
        }
        i
    }

    fn trim(&self, from: usize, to: usize) -> (end: usize)
        requires
            from <= to <= self.input.len(),
        ensures
            end == trim_end(self.input@, from as int, to as int),
            from <= end <= to,
    {
        let mut i: usize = to;
        while from < i && space_char(self.input[i - 1])
            invariant
                from <= i <= to <= self.input.len(),
                trim_end(self.input@, from as int, i as int) == trim_end(
                    self.input@,
                    from as int,
                    to as int,
                ),
            decreases i,
        {
            i -= 1;
        }
        i
    }

    fn read_level(&self, from: usize, to: usize) -> (n: u8)
        requires
            from <= to <= self.input.len(),
            forall|i: int| from <= i < to ==> is_digit(#[trigger] self.input@[i]),
        ensures
            n == level_of(self.input@.subrange(from as int, to as int)),
    {
        let mut acc: u8 = 0;
        let mut i: usize = from;
        assert(self.input@.subrange(from as int, from as int).len() == 0);
        while i < to
            invariant
                from <= i <= to <= self.input.len(),
                forall|j: int| from <= j < to ==> is_digit(#[trigger] self.input@[j]),
                acc == level_of(self.input@.subrange(from as int, i as int)),
            decreases to - i,
        {
            let d = digit_of(self.input[i]);
            proof {
                let longer = self.input@.subrange(from as int, i + 1);
                assert(longer.drop_last() =~= self.input@.subrange(from as int, i as int));
                assert(longer.last() == self.input@[i as int]);
            }
            acc = if acc > 25 || (acc == 25 && d > 5) {
                255
            } else {
                acc * 10 + d
            };
            i += 1;
        }
        acc
    }

    fn read_word(&self, from: usize, to: usize) -> (t: Token)
        requires
            from < to <= self.input.len(),
        ensures
            t@ == word_token(self.input@.subrange(from as int, to as int)),
    {
        let ghost word = self.input@.subrange(from as int, to as int);
        let first = self.input[from];
        assert(word[0] == first);
        if first == '@' {
            let mut end = to;
            if from + 1 < to && self.input[to - 1] == '@' {
                end = to - 1;
            }
            let s = string_of(&self.input, from + 1, end);
            proof {
                let body = word.drop_first();
                assert(body =~= self.input@.subrange(from + 1, to as int));
                if body.len() > 0 {
                    assert(body.last() == self.input@[to - 1]);
                }
                assert(s@ =~= pointer_id(word));
            }
            Token::Pointer(s)
        } else if first == '_' {
            Token::CustomTag(string_of(&self.input, from, to))
        } else {
            Token::Tag(string_of(&self.input, from, to))
        }
    }

    /// Reads the next token.
    pub fn next_token(&mut self)
        requires
            old(self).wf(),
        ensures
            final(self).wf(),
            final(self).input() == old(self).input(),
            final(self).cursor() == next_cursor(old(self).input(), old(self).cursor()),
            final(self).stream() == old(self).stream().advance(),
    {
        proof {
            lemma_next_cursor(self.input@, self.cursor());
            lemma_tokens_step(self.input@, self.cursor());
            lemma_tokens_step(self.input@, next_cursor(self.input@, self.cursor()));
        }
        let len = self.input.len();
        let p = self.scan(self.pos, CharClass::Space);
        let crossed = p < len && self.input[p] == '\n';
        let kind = self.current_token.kind();
        let fresh = crossed || kind == TokenKind::Start;
        let q = if crossed {
            self.scan(p, CharClass::Blank)
        } else {
            p
        };
        if kind == TokenKind::EOF || q >= len {
            self.pos = len;
            self.current_token = Token::EOF;
        } else if fresh && digit_char(self.input[q]) {
            let r = self.scan(q, CharClass::Digit);
            proof {
                lemma_run_end(self.input@, q as int, CharClass::Digit);
            }
            let n = self.read_level(q, r);
            self.pos = r;
            self.current_token = Token::Level(n);
            self.line = self.line + 1;
        } else if !fresh && (kind == TokenKind::Tag || kind == TokenKind::CustomTag) {
            let e = self.scan(q, CharClass::Line);
            let t = self.trim(q, e);
            let s = string_of(&self.input, q, t);
            self.pos = e;
            self.current_token = Token::LineValue(s);
        } else {
            let e = self.scan(q, CharClass::Word);
            proof {
                lemma_run_end(self.input@, p as int, CharClass::Blank);
                lemma_run_end(self.input@, self.pos as int, CharClass::Space);
                assert(in_class(CharClass::Word, self.input@[q as int]));
                lemma_run_end(self.input@, q + 1, CharClass::Word);
            }
            let t = self.read_word(q, e);
            self.pos = e;
            self.current_token = t;
        }
    }
}

} // verus!
