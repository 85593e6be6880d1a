use vstd::prelude::*;

verus! {

/// Classification of a single lexical unit. The tags partition all
/// recognizable input into disjoint categories: no character is ever part of
/// two tokens, and exactly one tag applies to each token.
#[derive(Clone, Copy, PartialEq, Eq, Structural, Debug, Hash)]
pub enum TokenTag {
    /// `(` opening a list.
    ListOpen,
    /// `)` closing a list.
    ListClose,
    /// `[` opening a cons-pair.
    ConsOpen,
    /// `]` closing a cons-pair.
    ConsClose,
    /// `.` separating the two halves of a cons-pair.
    ConsCenter,
    /// `;` through the end of the line, the newline excluded.
    Comment,
    /// An identifier: letters, digits and a small set of punctuation marks.
    Symbol,
    /// A maximal run of spaces and tabs.
    HorizontalSpace,
    /// A maximal run of carriage returns and line feeds.
    VerticalSpace,
    /// Digits, optionally followed by `.` and more digits.
    NumberLiteral,
    /// A double-quoted literal, recorded with its quotes and backslashes.
    StringLiteral,
}

/// A small, copyable identifier for a piece of interned text. Equal text
/// always receives the equal handle, and distinct text never shares one.
#[derive(Clone, Copy, PartialEq, Eq, Structural, Debug, Hash)]
pub struct InternHandle {
    pub id: usize,
}

/// One lexical unit: a tag plus the handle of its literal source text. The
/// handle's referent is owned by the interner that produced the token.
#[derive(Clone, Copy, PartialEq, Eq, Structural, Debug, Hash)]
pub struct Token {
    pub tag: TokenTag,
    pub txt: InternHandle,
}

/// A scan-time or resolution failure. Every failure aborts the current scan
/// and is surfaced as a typed error; there is no silent recovery.
#[derive(Clone, Copy, PartialEq, Eq, Structural, Debug)]
pub enum LexError {
    /// No scanner claims the character at the given position.
    UnexpectedCharacter(char, usize),
    /// The symbol scanner was invoked where no symbol character stands; with
    /// correct dispatch ordering this cannot occur.
    EmptySymbol,
    /// Digits followed by a committed `.` with no digit after it; correct
    /// lookahead discipline prevents this state entirely.
    MalformedNumber,
    /// The input ends in the middle of a backslash escape.
    UnterminatedEscape,
    /// The input ends before a string literal's closing quote.
    UnterminatedString,
    /// A handle resolved against an interner that never produced it.
    UnknownHandle,
}

} // verus!
