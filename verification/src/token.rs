//! The tokens of a GEDCOM line.

use vstd::prelude::*;

verus! {

/// One token of a GEDCOM line:
/// `level [pointer] tag [line value]`.
#[derive(Debug, PartialEq, Eq)]
pub enum Token {
    /// The number at the start of a line: how deep the line is nested.
    Level(u8),
    /// The word that says what the line holds.
    Tag(String),
    /// The text that follows the tag, without the blanks around it.
    LineValue(String),
    /// The cross-reference identifier of a record, without its `@` delimiters.
    Pointer(String),
    /// A user-defined tag: a word that begins with an underscore.
    CustomTag(String),
    /// The end of the text.
    EOF,
    /// What a tokenizer holds before it has read anything.
    Start,
}

/// A token as a mathematical value.
pub enum TokenView {
    Level(u8),
    Tag(Seq<char>),
    LineValue(Seq<char>),
    Pointer(Seq<char>),
    CustomTag(Seq<char>),
    EOF,
    Start,
}

/// What sort of token a token is; a level comes with its number.
#[derive(Debug, PartialEq, Eq, Clone, Copy, Structural)]
pub enum TokenKind {
    Level(u8),
    Tag,
    LineValue,
    Pointer,
    CustomTag,
    EOF,
    Start,
}

impl View for Token {
    type V = TokenView;

    open spec fn view(&self) -> TokenView {
        match self {
            Token::Level(n) => TokenView::Level(*n),
            Token::Tag(s) => TokenView::Tag(s@),
            Token::LineValue(s) => TokenView::LineValue(s@),
            Token::Pointer(s) => TokenView::Pointer(s@),
            Token::CustomTag(s) => TokenView::CustomTag(s@),
            Token::EOF => TokenView::EOF,
            Token::Start => TokenView::Start,
        }
    }
}

impl DeepView for Token {
    type V = TokenView;

    open spec fn deep_view(&self) -> TokenView {
        self@
    }
}

impl TokenView {
    /// The sort of this token.
    pub open spec fn kind(self) -> TokenKind {
        match self {
            TokenView::Level(n) => TokenKind::Level(n),
            TokenView::Tag(_) => TokenKind::Tag,
            TokenView::LineValue(_) => TokenKind::LineValue,
            TokenView::Pointer(_) => TokenKind::Pointer,
            TokenView::CustomTag(_) => TokenKind::CustomTag,
            TokenView::EOF => TokenKind::EOF,
            TokenView::Start => TokenKind::Start,
        }
    }

    /// The text a token carries; a level, the end and the start token carry
    /// none.
    pub open spec fn text(self) -> Seq<char> {
        match self {
            TokenView::Tag(s) => s,
            TokenView::LineValue(s) => s,
            TokenView::Pointer(s) => s,
            TokenView::CustomTag(s) => s,
            _ => Seq::empty(),
        }
    }

    /// Whether this token stands between lines: a level, which begins a
    /// line, or the end of the text.
    pub open spec fn is_boundary(self) -> bool {
        self.closes(255)
    }

    /// Whether this token closes a scope that was opened at `level`: a level
    /// that is not deeper than `level`, or the end of the text.
    pub open spec fn closes(self, level: u8) -> bool {
        match self {
            TokenView::Level(n) => n <= level,
            TokenView::EOF => true,
            _ => false,
        }
    }
}

impl Clone for Token {
    fn clone(&self) -> (r: Token)
        ensures
            r@ == self@,
    {
        match self {
            Token::Level(n) => Token::Level(*n),
            Token::Tag(s) => Token::Tag(s.clone()),
            Token::LineValue(s) => Token::LineValue(s.clone()),
            Token::Pointer(s) => Token::Pointer(s.clone()),
            Token::CustomTag(s) => Token::CustomTag(s.clone()),
            Token::EOF => Token::EOF,
            Token::Start => Token::Start,
        }
    }
}

impl Token {
    /// The sort of this token.
    pub fn kind(&self) -> (k: TokenKind)
        ensures
            k == self@.kind(),
    {
        match self {
            Token::Level(n) => TokenKind::Level(*n),
            Token::Tag(_) => TokenKind::Tag,
            Token::LineValue(_) => TokenKind::LineValue,
            Token::Pointer(_) => TokenKind::Pointer,
            Token::CustomTag(_) => TokenKind::CustomTag,
            Token::EOF => TokenKind::EOF,
            Token::Start => TokenKind::Start,
        }
    }

    /// A copy of the text this token carries.
    pub fn text(&self) -> (s: String)
        ensures
            s@ == self@.text(),
    {
        match self {
            Token::Tag(s) => s.clone(),
            Token::LineValue(s) => s.clone(),
            Token::Pointer(s) => s.clone(),
            Token::CustomTag(s) => s.clone(),
            _ => String::new(),
        }
    }
}

} // verus!
