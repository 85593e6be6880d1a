use vstd::prelude::*;

use crate::token::{LexError, TokenTag};

verus! {

/// Whether a character carries the Unicode `Alphabetic` property.
pub uninterp spec fn unicode_alphabetic(c: char) -> bool;

/// Whether a character is Unicode-alphanumeric: alphabetic or numeric.
pub uninterp spec fn unicode_alphanumeric(c: char) -> bool;

/// Relies on `char::is_alphabetic`: the result depends on the character alone.
#[verifier::external_body]
pub(crate) fn char_is_alphabetic(c: char) -> (r: bool)
    ensures
        r == unicode_alphabetic(c),
{
    c.is_alphabetic()
}

/// Relies on `char::is_alphanumeric`: the result depends on the character alone.
#[verifier::external_body]
pub(crate) fn char_is_alphanumeric(c: char) -> (r: bool)
    ensures
        r == unicode_alphanumeric(c),
{
    c.is_alphanumeric()
}

/// Vertical whitespace: line feed or carriage return.
pub open spec fn is_vertical(c: char) -> bool {
    c == '\n' || c == '\r'
}

/// Horizontal whitespace: space or tab.
pub open spec fn is_horizontal(c: char) -> bool {
    c == ' ' || c == '\t'
}

/// An ASCII decimal digit.
pub open spec fn is_digit(c: char) -> bool {
    48 <= c as u32 && c as u32 <= 57
}

/// Punctuation admitted in symbols, so that idiomatic identifiers such as
/// `+`, `->` and `valid?` scan as one token.
pub open spec fn is_symbol_punct(c: char) -> bool {
    ||| c == '-'
    ||| c == '+'
    ||| c == '*'
    ||| c == '/'
    ||| c == '<'
    ||| c == '>'
    ||| c == '='
    ||| c == '!'
    ||| c == '?'
    ||| c == '_'
}

/// A character that may start a symbol.
pub open spec fn is_symbol_start(c: char) -> bool {
    unicode_alphabetic(c) || is_symbol_punct(c)
}

/// A character that may continue a symbol.
pub open spec fn is_symbol_continue(c: char) -> bool {
    unicode_alphanumeric(c) || is_symbol_punct(c)
}

/// The character classes over which the scanners take maximal runs.
#[derive(Clone, Copy, PartialEq, Eq, Structural, Debug)]
pub enum CharClass {
    Vertical,
    Horizontal,
    Digit,
    /// Everything a comment may contain: any character but vertical space.
    NonVertical,
    SymbolContinue,
}

/// Membership of a character in a scanner's class.
pub open spec fn in_class(k: CharClass, c: char) -> bool {
    match k {
        CharClass::Vertical => is_vertical(c),
        CharClass::Horizontal => is_horizontal(c),
        CharClass::Digit => is_digit(c),
        CharClass::NonVertical => !is_vertical(c),
        CharClass::SymbolContinue => is_symbol_continue(c),
    }
}

/// The length of the maximal run of class-`k` characters beginning at `i`.
pub open spec fn run_len(s: Seq<char>, i: int, k: CharClass) -> int
    decreases s.len() - i when 0 <= i <= s.len()
{
    if i < s.len() && in_class(k, s[i]) {
        1 + run_len(s, i + 1, k)
    } else {
        0
    }
}

/// A maximal run stays within the input.
pub proof fn lemma_run_len_bounds(s: Seq<char>, i: int, k: CharClass)
    requires
        0 <= i <= s.len(),
    ensures
        0 <= run_len(s, i, k) <= s.len() - i,
    decreases s.len() - i,
{
    if i < s.len() && in_class(k, s[i]) {
        lemma_run_len_bounds(s, i + 1, k);
    }
}

/// Every character of a maximal run is in the class, and the first character
/// after the run, if any, is not.
pub proof fn lemma_run_len_chars(s: Seq<char>, i: int, k: CharClass)
    requires
        0 <= i <= s.len(),
    ensures
        forall|j: int| i <= j < i + run_len(s, i, k) ==> in_class(k, s[j]),
        i + run_len(s, i, k) < s.len() ==> !in_class(k, s[i + run_len(s, i, k)]),
        0 <= run_len(s, i, k) <= s.len() - i,
    decreases s.len() - i,
{
    lemma_run_len_bounds(s, i, k);
    if i < s.len() && in_class(k, s[i]) {
        lemma_run_len_chars(s, i + 1, k);
    }
}

/// Where the maximal digit run beginning at `i` ends.
pub open spec fn digit_run_end(s: Seq<char>, i: int) -> int {
    i + run_len(s, i, CharClass::Digit)
}

/// Where the number literal beginning at `i` ends: a maximal digit run,
/// optionally followed by `.` and another maximal digit run. A `.` not
/// followed by at least one digit is left unconsumed, so a cons-dot after a
/// number is never absorbed and no malformed state is reachable.
pub open spec fn number_end(s: Seq<char>, i: int) -> int {
    let j = digit_run_end(s, i);
    if j < s.len() && s[j] == '.' && j + 1 < s.len() && is_digit(s[j + 1]) {
        digit_run_end(s, j + 1)
    } else {
        j
    }
}

/// How scanning a string literal's body ends. Positions are relative to the
/// whole input; scanning starts just after the opening quote.
#[derive(PartialEq, Eq, Structural)]
pub enum StrScan {
    /// The literal closes with an unescaped quote; the position just after it.
    Closed(int),
    /// The input ends before a closing quote.
    NoClose,
    /// The input ends in the middle of a backslash escape.
    BadEscape,
}

/// Scans a string literal's body from `i` (just after the opening quote):
/// a backslash consumes the following character whatever it is, an unescaped
/// quote closes the literal, and running out of input is a failure.
pub open spec fn string_body_end(s: Seq<char>, i: int) -> StrScan
    decreases s.len() - i when 0 <= i <= s.len()
{
    if i >= s.len() {
        StrScan::NoClose
    } else if s[i] == '"' {
        StrScan::Closed(i + 1)
    } else if s[i] == '\\' {
        if i + 1 < s.len() {
            string_body_end(s, i + 2)
        } else {
            StrScan::BadEscape
        }
    } else {
        string_body_end(s, i + 1)
    }
}

/// A closed string body ends after its opening position and within the input.
pub proof fn lemma_string_body_end_bounds(s: Seq<char>, i: int)
    requires
        0 <= i <= s.len(),
    ensures
        (match string_body_end(s, i) {
            StrScan::Closed(e) => i < e <= s.len(),
            _ => true,
        }),
    decreases s.len() - i,
{
    if i < s.len() && s[i] != '"' {
        if s[i] == '\\' {
            if i + 1 < s.len() {
                lemma_string_body_end_bounds(s, i + 2);
            }
        } else {
            lemma_string_body_end_bounds(s, i + 1);
        }
    }
}

/// The outcome of one dispatch step: the input is exhausted, one token spans
/// up to the given end position, or the scan fails.
pub enum Step {
    Done,
    Tok(TokenTag, int),
    Fail(LexError),
}

/// One step of the dispatch loop at position `i`: peeks one character and
/// decides, in a fixed priority order, which scanner claims it and where
/// that scanner must stop. Digits are checked before symbols so bare numbers
/// are never misread as symbols, and brackets and `.` are checked before the
/// symbol scanner so structural punctuation is never absorbed into
/// identifiers.
pub open spec fn step_at(s: Seq<char>, i: int) -> Step {
    if i >= s.len() {
        Step::Done
    } else {
        let c = s[i];
        if is_vertical(c) {
            Step::Tok(TokenTag::VerticalSpace, i + run_len(s, i, CharClass::Vertical))
        } else if is_horizontal(c) {
            Step::Tok(TokenTag::HorizontalSpace, i + run_len(s, i, CharClass::Horizontal))
        } else if is_digit(c) {
            Step::Tok(TokenTag::NumberLiteral, number_end(s, i))
        } else if c == '"' {
            match string_body_end(s, i + 1) {
                StrScan::Closed(e) => Step::Tok(TokenTag::StringLiteral, e),
                StrScan::NoClose => Step::Fail(LexError::UnterminatedString),
                StrScan::BadEscape => Step::Fail(LexError::UnterminatedEscape),
            }
        } else if c == ';' {
            Step::Tok(TokenTag::Comment, i + run_len(s, i, CharClass::NonVertical))
        } else if c == '(' {
            Step::Tok(TokenTag::ListOpen, i + 1)
        } else if c == ')' {
            Step::Tok(TokenTag::ListClose, i + 1)
        } else if c == '[' {
            Step::Tok(TokenTag::ConsOpen, i + 1)
        } else if c == ']' {
            Step::Tok(TokenTag::ConsClose, i + 1)
        } else if c == '.' {
            Step::Tok(TokenTag::ConsCenter, i + 1)
        } else if is_symbol_start(c) {
            Step::Tok(TokenTag::Symbol, i + 1 + run_len(s, i + 1, CharClass::SymbolContinue))
        } else {
            Step::Fail(LexError::UnexpectedCharacter(c, i as usize))
        }
    }
}

/// Every token claims at least one character and stays within the input.
pub proof fn lemma_step_progress(s: Seq<char>, i: int)
    requires
        0 <= i <= s.len(),
    ensures
        (match step_at(s, i) {
            Step::Tok(_, end) => i < end <= s.len(),
            _ => true,
        }),
{
    if i < s.len() {
        let c = s[i];
        lemma_run_len_chars(s, i, CharClass::Vertical);
        lemma_run_len_chars(s, i, CharClass::Horizontal);
        lemma_run_len_chars(s, i, CharClass::Digit);
        lemma_run_len_chars(s, i, CharClass::NonVertical);
        if i + 1 <= s.len() {
            lemma_run_len_chars(s, i + 1, CharClass::SymbolContinue);
            lemma_string_body_end_bounds(s, i + 1);
        }
        let j = digit_run_end(s, i);
        if j < s.len() && s[j] == '.' && j + 1 < s.len() && is_digit(s[j + 1]) {
            lemma_run_len_chars(s, j + 1, CharClass::Digit);
        }
    }
}

/// The decomposition of the input from position `i` on: the ordered sequence
/// of `(tag, start, end)` spans the dispatch loop produces, or the error on
/// which it gives up. Consecutive spans share their boundary, so the spans
/// cover `s` from `i` to its end exactly once.
pub open spec fn lex_from(s: Seq<char>, i: int) -> Result<Seq<(TokenTag, int, int)>, LexError>
    decreases s.len() - i when 0 <= i <= s.len() via lex_from_decreases
{
    match step_at(s, i) {
        Step::Done => Ok(Seq::empty()),
        Step::Tok(tag, end) => match lex_from(s, end) {
            Ok(rest) => Ok(seq![(tag, i, end)] + rest),
            Err(e) => Err(e),
        },
        Step::Fail(e) => Err(e),
    }
}

#[via_fn]
proof fn lex_from_decreases(s: Seq<char>, i: int) {
    lemma_step_progress(s, i);
}

/// Whether the dispatch loop decomposes the input from `i` without error.
pub open spec fn lex_ok(s: Seq<char>, i: int) -> bool {
    match lex_from(s, i) {
        Ok(_) => true,
        Err(_) => false,
    }
}

/// The spans of a successful decomposition; empty when the scan fails.
pub open spec fn lex_spans(s: Seq<char>, i: int) -> Seq<(TokenTag, int, int)> {
    match lex_from(s, i) {
        Ok(sp) => sp,
        Err(_) => Seq::empty(),
    }
}

/// The literal text of the spans, concatenated in source order.
pub open spec fn spans_text(s: Seq<char>, spans: Seq<(TokenTag, int, int)>) -> Seq<char>
    decreases spans.len(),
{
    if spans.len() == 0 {
        Seq::empty()
    } else {
        s.subrange(spans[0].1, spans[0].2) + spans_text(s, spans.drop_first())
    }
}

/// Round trip: for any input that tokenizes without error, concatenating the
/// literal text of every produced token, in order, reproduces the input
/// exactly — whitespace and comments included.
pub proof fn lemma_round_trip(s: Seq<char>, i: int)
    requires
        0 <= i <= s.len(),
        lex_ok(s, i),
    ensures
        spans_text(s, lex_spans(s, i)) == s.subrange(i, s.len() as int),
    decreases s.len() - i,
{
    match step_at(s, i) {
        Step::Done => {
            assert(lex_spans(s, i) =~= Seq::<(TokenTag, int, int)>::empty());
            assert(s.subrange(i, s.len() as int) =~= Seq::<char>::empty());
        },
        Step::Tok(tag, end) => {
            lemma_step_progress(s, i);
            match lex_from(s, end) {
                Ok(rest) => {
                    lemma_round_trip(s, end);
                    let sp = lex_spans(s, i);
                    assert(sp == seq![(tag, i, end)] + rest);
                    assert(sp[0] == (tag, i, end));
                    assert(sp.drop_first() =~= rest);
                    assert(s.subrange(i, end) + s.subrange(end, s.len() as int) =~= s.subrange(
                        i,
                        s.len() as int,
                    ));
                },
                Err(_) => {},
            }
        },
        Step::Fail(_) => {},
    }
}

/// Whether `t` can be split at `k` into the two digit runs of a number
/// literal: digits up to `k`, and, when anything follows, a `.` at `k` with
/// at least one digit after it and digits to the end.
pub open spec fn number_split_at(t: Seq<char>, k: int) -> bool {
    &&& 1 <= k <= t.len()
    &&& (forall|j: int| 0 <= j < k ==> is_digit(t[j]))
    &&& (k < t.len() ==> {
        &&& t[k] == '.'
        &&& k + 1 < t.len()
        &&& (forall|j: int| k + 1 <= j < t.len() ==> is_digit(t[j]))
    })
}

/// Whether `t` matches the number grammar: digits, optionally followed by
/// `.` and more digits.
pub open spec fn is_number_text(t: Seq<char>) -> bool {
    exists|k: int| number_split_at(t, k)
}

/// Tag partitioning: what a token's literal text looks like under each tag.
pub open spec fn tag_matches(tag: TokenTag, t: Seq<char>) -> bool {
    match tag {
        TokenTag::ListOpen => t.len() == 1 && t[0] == '(',
        TokenTag::ListClose => t.len() == 1 && t[0] == ')',
        TokenTag::ConsOpen => t.len() == 1 && t[0] == '[',
        TokenTag::ConsClose => t.len() == 1 && t[0] == ']',
        TokenTag::ConsCenter => t.len() == 1 && t[0] == '.',
        TokenTag::Comment => t.len() >= 1 && t[0] == ';' && (forall|j: int|
            0 <= j < t.len() ==> !is_vertical(t[j])),
        TokenTag::Symbol => t.len() >= 1 && is_symbol_start(t[0]) && (forall|j: int|
            1 <= j < t.len() ==> is_symbol_continue(t[j])),
        TokenTag::HorizontalSpace => t.len() >= 1 && (forall|j: int|
            0 <= j < t.len() ==> is_horizontal(t[j])),
        TokenTag::VerticalSpace => t.len() >= 1 && (forall|j: int|
            0 <= j < t.len() ==> is_vertical(t[j])),
        TokenTag::NumberLiteral => is_number_text(t),
        TokenTag::StringLiteral => t.len() >= 2 && t[0] == '"' && string_body_end(t, 1)
            == StrScan::Closed(t.len() as int),
    }
}

/// Maximal munch: a scanner never stops while the character at `end` could
/// still continue its token. For a number, a following `.` is consumed
/// exactly when a digit follows it and the literal does not already carry a
/// fraction.
pub open spec fn maximal_at(tag: TokenTag, s: Seq<char>, start: int, end: int) -> bool {
    match tag {
        TokenTag::VerticalSpace => end < s.len() ==> !is_vertical(s[end]),
        TokenTag::HorizontalSpace => end < s.len() ==> !is_horizontal(s[end]),
        TokenTag::Comment => end < s.len() ==> is_vertical(s[end]),
        TokenTag::Symbol => end < s.len() ==> !is_symbol_continue(s[end]),
        TokenTag::NumberLiteral => {
            &&& (end < s.len() ==> !is_digit(s[end]))
            &&& ((end + 1 < s.len() && s[end] == '.' && is_digit(s[end + 1])) ==> (exists|d: int|
                start <= d < end && s[d] == '.'))
        },
        _ => true,
    }
}

/// Each dispatch step is well formed: the token claims at least one
/// character, its text is consistent with its tag under the grammar, and it
/// is maximal.
pub proof fn lemma_step_well_formed(s: Seq<char>, i: int)
    requires
        0 <= i <= s.len(),
    ensures
        (match step_at(s, i) {
            Step::Tok(tag, end) => i < end <= s.len() && tag_matches(tag, s.subrange(i, end))
                && maximal_at(tag, s, i, end),
            _ => true,
        }),
{
    lemma_step_progress(s, i);
    if i < s.len() {
        let c = s[i];
        if is_vertical(c) || is_horizontal(c) {
            let k = if is_vertical(c) {
                CharClass::Vertical
            } else {
                CharClass::Horizontal
            };
            lemma_run_len_chars(s, i, k);
        } else if is_digit(c) {
            lemma_number_well_formed(s, i);
        } else if c == '"' {
            match string_body_end(s, i + 1) {
                StrScan::Closed(e) => {
                    lemma_string_body_end_bounds(s, i + 1);
                    lemma_string_body_shift(s, i, i + 1, e);
                    let t = s.subrange(i, e);
                    assert(t.len() >= 2 && t[0] == '"');
                },
                _ => {},
            }
        } else if c == ';' {
            lemma_run_len_chars(s, i, CharClass::NonVertical);
        } else if c == '(' || c == ')' || c == '[' || c == ']' || c == '.' {
        } else if is_symbol_start(c) {
            lemma_run_len_chars(s, i + 1, CharClass::SymbolContinue);
        }
    }
}

/// A number literal's span matches the number grammar and is maximal.
proof fn lemma_number_well_formed(s: Seq<char>, i: int)
    requires
        0 <= i < s.len(),
        is_digit(s[i]),
    ensures
        i < number_end(s, i) <= s.len(),
        tag_matches(TokenTag::NumberLiteral, s.subrange(i, number_end(s, i))),
        maximal_at(TokenTag::NumberLiteral, s, i, number_end(s, i)),
{
    lemma_run_len_chars(s, i, CharClass::Digit);
    let j = digit_run_end(s, i);
    let end = number_end(s, i);
    if j < s.len() && s[j] == '.' && j + 1 < s.len() && is_digit(s[j + 1]) {
        lemma_run_len_chars(s, j + 1, CharClass::Digit);
        let t = s.subrange(i, end);
        assert(in_class(CharClass::Digit, s[j + 1]));
        assert(run_len(s, j + 1, CharClass::Digit) >= 1);
        assert(number_split_at(t, j - i));
    } else {
        let t = s.subrange(i, end);
        assert(number_split_at(t, t.len() as int));
    }
}

/// Scanning a string body gives the same outcome, shifted, on the span cut
/// out of the input: positions in the slice are positions in the input,
/// offset by where the slice begins.
proof fn lemma_string_body_shift(s: Seq<char>, start: int, i: int, e: int)
    requires
        0 <= start < i <= s.len(),
        e <= s.len(),
        string_body_end(s, i) == StrScan::Closed(e),
    ensures
        string_body_end(s.subrange(start, e), i - start) == StrScan::Closed(e - start),
    decreases s.len() - i,
{
    lemma_string_body_end_bounds(s, i);
    let t = s.subrange(start, e);
    if i >= s.len() {
    } else if s[i] == '"' {
        assert(t[i - start] == '"');
    } else if s[i] == '\\' {
        if i + 1 < s.len() {
            assert(i + 2 <= e) by {
                lemma_string_body_end_bounds(s, i + 2);
            }
            lemma_string_body_shift(s, start, i + 2, e);
            assert(t[i - start] == '\\');
        }
    } else {
        assert(i + 1 <= e) by {
            lemma_string_body_end_bounds(s, i + 1);
        }
        lemma_string_body_shift(s, start, i + 1, e);
        assert(t[i - start] == s[i]);
    }
}

/// Tag partitioning and maximal munch over a whole decomposition: the spans
/// cover the input from `i` to its end contiguously, each span's text is
/// consistent with its tag under the grammar, and no scanner stops before it
/// must.
pub proof fn lemma_lex_well_formed(s: Seq<char>, i: int)
    requires
        0 <= i <= s.len(),
        lex_ok(s, i),
    ensures
        ({
            let sp = lex_spans(s, i);
            &&& (forall|k: int| 0 <= k < sp.len() ==> ((#[trigger] sp[k]).1 < sp[k].2 <= s.len()))
            &&& (sp.len() > 0 ==> sp[0].1 == i)
            &&& (forall|k: int| 0 <= k < sp.len() - 1 ==> (#[trigger] sp[k]).2 == sp[k + 1].1)
            &&& (sp.len() > 0 ==> sp[sp.len() - 1].2 == s.len())
            &&& (sp.len() == 0 ==> i == s.len())
            &&& (forall|k: int| 0 <= k < sp.len() ==> tag_matches(
                (#[trigger] sp[k]).0,
                s.subrange(sp[k].1, sp[k].2),
            ) && maximal_at(sp[k].0, s, sp[k].1, sp[k].2))
        }),
    decreases s.len() - i,
{
    match step_at(s, i) {
        Step::Done => {
            assert(lex_spans(s, i) =~= Seq::<(TokenTag, int, int)>::empty());
        },
        Step::Tok(tag, end) => {
            lemma_step_well_formed(s, i);
            match lex_from(s, end) {
                Ok(rest) => {
                    lemma_lex_well_formed(s, end);
                    let sp = lex_spans(s, i);
                    assert(sp == seq![(tag, i, end)] + rest);
                    assert(sp[0] == (tag, i, end));
                    assert(forall|k: int| 1 <= k < sp.len() ==> sp[k] == rest[k - 1]);
                    if rest.len() == 0 {
                        assert(end == s.len());
                    } else {
                        assert(rest[0].1 == end);
                    }
                },
                Err(_) => {},
            }
        },
        Step::Fail(_) => {},
    }
}

} // verus!
