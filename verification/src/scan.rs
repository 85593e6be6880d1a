use vstd::prelude::*;
use vstd::string::StrSliceExecFns;
use vstd::string::StringExecFns;

use crate::grammar::{
    char_is_alphabetic, char_is_alphanumeric, in_class, is_digit, is_symbol_punct, lex_from,
    number_end, run_len, step_at, string_body_end, CharClass, Step, StrScan,
};
use crate::intern::{empty_table, intern_post, lemma_intern_extends, map_injective, Interner, INTERN_CAPACITY};
use crate::token::{InternHandle, LexError, Token, TokenTag};

verus! {

/// Whether `c` belongs to the scanner class `k`.
fn class_holds(k: CharClass, c: char) -> (r: bool)
    ensures
        r == in_class(k, c),
{
    match k {
        CharClass::Vertical => c == '\n' || c == '\r',
        CharClass::Horizontal => c == ' ' || c == '\t',
        CharClass::Digit => {
            let u: u32 = c as u32;
            48 <= u && u <= 57
        },
        CharClass::NonVertical => !(c == '\n' || c == '\r'),
        CharClass::SymbolContinue => char_is_alphanumeric(c) || symbol_punct(c),
    }
}

/// Whether `c` is one of the punctuation marks admitted in symbols.
fn symbol_punct(c: char) -> (r: bool)
    ensures
        r == is_symbol_punct(c),
{
    c == '-' || c == '+' || c == '*' || c == '/' || c == '<' || c == '>' || c == '=' || c == '!'
        || c == '?' || c == '_'
}

/// Consumes the maximal run of class-`k` characters beginning at `start` and
/// returns the position of the first character past it.
fn scan_run(s: &str, start: usize, k: CharClass) -> (e: usize)
    requires
        start <= s@.len(),
    ensures
        e as int == start + run_len(s@, start as int, k),
{
    let n = s.unicode_len();
    let mut j = start;
    while j < n && class_holds(k, s.get_char(j))
        invariant
            start <= j <= n,
            n == s@.len(),
            run_len(s@, start as int, k) == j - start + run_len(s@, j as int, k),
        decreases n - j,
    {
        j = j + 1;
    }
    j
}

/// Consumes a number literal beginning at `start`: a maximal digit run,
/// optionally followed by `.` and another maximal digit run. The `.` is
/// committed only after a lookahead confirms a digit follows it, so a
/// cons-dot is never absorbed and no malformed state is reachable.
fn scan_number(s: &str, start: usize) -> (e: usize)
    requires
        start < s@.len(),
        is_digit(s@[start as int]),
    ensures
        e as int == number_end(s@, start as int),
{
    let n = s.unicode_len();
    let j = scan_run(s, start, CharClass::Digit);
    proof {
        crate::grammar::lemma_run_len_bounds(s@, start as int, CharClass::Digit);
    }
    if j < n && s.get_char(j) == '.' && j + 1 < n && class_holds(CharClass::Digit, s.get_char(j + 1)) {
        scan_run(s, j + 1, CharClass::Digit)
    } else {
        j
    }
}

/// Consumes a string literal beginning at the opening quote at `start`:
/// a backslash takes the following character literally, an unescaped quote
/// closes the literal. The input ending before the closing quote fails with
/// `UnterminatedString`; ending in the middle of an escape fails with
/// `UnterminatedEscape`.
fn scan_string(s: &str, start: usize) -> (r: Result<usize, LexError>)
    requires
        start < s@.len(),
        s@[start as int] == '"',
    ensures
        (match r {
            Ok(e) => string_body_end(s@, start as int + 1) == StrScan::Closed(e as int),
            Err(le) => {
                ||| (string_body_end(s@, start as int + 1) == StrScan::NoClose
                    && le == LexError::UnterminatedString)
                ||| (string_body_end(s@, start as int + 1) == StrScan::BadEscape
                    && le == LexError::UnterminatedEscape)
            },
        }),
{
    let n = s.unicode_len();
    let mut j = start + 1;
    loop
        invariant
            start + 1 <= j <= n,
            n == s@.len(),
            string_body_end(s@, start as int + 1) == string_body_end(s@, j as int),
        decreases n - j,
    {
        if j >= n {
            return Err(LexError::UnterminatedString);
        }
        let c = s.get_char(j);
        if c == '"' {
            return Ok(j + 1);
        }
        if c == '\\' {
            if j + 1 >= n {
                return Err(LexError::UnterminatedEscape);
            }
            j = j + 2;
        } else {
            j = j + 1;
        }
    }
}

/// A cursor-driven scanner producing a lazy, finite, non-restartable sequence
/// of tokens. Each advance inspects the next character, delegates to the
/// matching sub-scanner, interns the consumed slice and returns; after
/// producing a token the cursor sits exactly at the first character not
/// belonging to it.
pub struct Tokenizer {
    source: String,
    pos: usize,
    interner: Interner,
}

impl Tokenizer {
    /// The characters being scanned.
    pub closed spec fn src(&self) -> Seq<char> {
        self.source@
    }

    /// The cursor: the position of the first character not yet consumed.
    pub closed spec fn at(&self) -> int {
        self.pos as int
    }

    /// What the interner holds: each interned text, mapped to its handle.
    pub closed spec fn table(&self) -> Map<Seq<char>, usize> {
        self.interner@
    }

    /// The cursor stays within the input, the interner never aliases distinct
    /// text, and enough handle space remains for the rest of the scan.
    pub open spec fn wf(&self) -> bool {
        &&& 0 <= self.at() <= self.src().len()
        &&& map_injective(self.table())
        &&& self.table().dom().finite()
        &&& self.table().dom().len() + self.src().len() - self.at() < INTERN_CAPACITY
    }

    /// Creates a tokenizer over `source` with a fresh interner of its own,
    /// unless the input is so large that the interner could run out of
    /// handle space mid-scan.
    pub fn try_new(source: &str) -> (r: Option<Tokenizer>)
        ensures
            (match r {
                Some(t) => {
                    &&& t.wf()
                    &&& t.src() == source@
                    &&& t.at() == 0
                    &&& t.table() == empty_table()
                    &&& source@.len() < INTERN_CAPACITY
                },
                None => source@.len() >= INTERN_CAPACITY,
            }),
    {
        let n = source.unicode_len();
        if n < INTERN_CAPACITY {
            Some(Tokenizer::new(source))
        } else {
            None
        }
    }

    /// Creates a tokenizer over `source` with a fresh interner of its own.
    pub fn new(source: &str) -> (t: Tokenizer)
        requires
            source@.len() < INTERN_CAPACITY,
        ensures
            t.wf(),
            t.src() == source@,
            t.at() == 0,
            t.table() == empty_table(),
    {
        Tokenizer { source: String::from_str(source), pos: 0, interner: Interner::new() }
    }

    /// Creates a tokenizer over `source` that shares the given interner, so
    /// several scans can deduplicate text into one table.
    pub fn with_interner(source: &str, interner: Interner) -> (t: Tokenizer)
        requires
            interner.wf(),
            interner@.dom().len() + source@.len() < INTERN_CAPACITY,
        ensures
            t.wf(),
            t.src() == source@,
            t.at() == 0,
            t.table() == interner@,
    {
        Tokenizer { source: String::from_str(source), pos: 0, interner }
    }

    /// Hands the interner back, so tokens outlive the scan that produced them.
    pub fn into_interner(self) -> (r: Interner)
        requires
            self.wf(),
        ensures
            r@ == self.table(),
            r.wf(),
    {
        self.interner
    }

    /// Resolves a token's text handle against this scan's interner.
    pub fn resolve(&self, h: InternHandle) -> (r: Result<String, LexError>)
        ensures
            (match r {
                Ok(t) => self.table().dom().contains(t@) && self.table()[t@] == h.id,
                Err(e) => e == LexError::UnknownHandle && (forall|s: Seq<char>|
                    self.table().dom().contains(s) ==> self.table()[s] != h.id),
            }),
    {
        self.interner.resolve(h)
    }

    /// Produces the next token, `None` once the input is exhausted, or the
    /// error on which the scan gives up. On success the consumed slice is
    /// exactly `step_at`'s span for the old cursor, its literal text is
    /// interned, and the cursor advances to the span's end; on an error or at
    /// the end of input nothing is consumed or interned.
    pub fn next(&mut self) -> (r: Result<Option<Token>, LexError>)
        requires
            old(self).wf(),
        ensures
            final(self).wf(),
            final(self).src() == old(self).src(),
            (match r {
                Ok(Some(tok)) => {
                    &&& step_at(old(self).src(), old(self).at()) == Step::Tok(
                        tok.tag,
                        final(self).at(),
                    )
                    &&& old(self).at() < final(self).at() <= old(self).src().len()
                    &&& intern_post(
                        old(self).table(),
                        old(self).src().subrange(old(self).at(), final(self).at()),
                        final(self).table(),
                        tok.txt.id,
                    )
                },
                Ok(None) => final(self).at() == old(self).at() && final(self).table() == old(
                    self,
                ).table() && step_at(old(self).src(), old(self).at()) == Step::Done,
                Err(e) => final(self).at() == old(self).at() && final(self).table() == old(
                    self,
                ).table() && step_at(old(self).src(), old(self).at()) == Step::Fail(e),
            }),
    {
        let n = self.source.as_str().unicode_len();
        if self.pos >= n {
            return Ok(None);
        }
        let c = self.source.as_str().get_char(self.pos);
        let tag: TokenTag;
        let end: usize;
        if class_holds(CharClass::Vertical, c) {
            tag = TokenTag::VerticalSpace;
            end = scan_run(self.source.as_str(), self.pos, CharClass::Vertical);
        } else if class_holds(CharClass::Horizontal, c) {
            tag = TokenTag::HorizontalSpace;
            end = scan_run(self.source.as_str(), self.pos, CharClass::Horizontal);
        } else if class_holds(CharClass::Digit, c) {
            tag = TokenTag::NumberLiteral;
            end = scan_number(self.source.as_str(), self.pos);
        } else if c == '"' {
            match scan_string(self.source.as_str(), self.pos) {
                Ok(e) => {
                    tag = TokenTag::StringLiteral;
                    end = e;
                },
                Err(le) => {
                    return Err(le);
                },
            }
        } else if c == ';' {
            tag = TokenTag::Comment;
            end = scan_run(self.source.as_str(), self.pos, CharClass::NonVertical);
        } else if c == '(' {
            tag = TokenTag::ListOpen;
            end = self.pos + 1;
        } else if c == ')' {
            tag = TokenTag::ListClose;
            end = self.pos + 1;
        } else if c == '[' {
            tag = TokenTag::ConsOpen;
            end = self.pos + 1;
        } else if c == ']' {
            tag = TokenTag::ConsClose;
            end = self.pos + 1;
        } else if c == '.' {
            tag = TokenTag::ConsCenter;
            end = self.pos + 1;
        } else if char_is_alphabetic(c) || symbol_punct(c) {
            tag = TokenTag::Symbol;
            end = scan_run(self.source.as_str(), self.pos + 1, CharClass::SymbolContinue);
        } else {
            return Err(LexError::UnexpectedCharacter(c, self.pos));
        }
        proof {
            assert(step_at(self.src(), self.at()) == Step::Tok(tag, end as int));
            crate::grammar::lemma_step_progress(self.src(), self.at());
        }
        let text = self.source.as_str().substring_char(self.pos, end);
        let h = self.interner.intern(text);
        self.pos = end;
        Ok(Some(Token { tag, txt: h }))
    }

    /// Scans to exhaustion: returns every remaining token in source order, or
    /// the error on which the scan gives up. On success the tokens are exactly
    /// the decomposition of the remaining input, and the interner maps each
    /// token's literal text to its handle.
    pub fn run(&mut self) -> (r: Result<Vec<Token>, LexError>)
        requires
            old(self).wf(),
        ensures
            final(self).wf(),
            final(self).src() == old(self).src(),
            (match r {
                Ok(toks) => {
                    &&& final(self).at() == final(self).src().len()
                    &&& match lex_from(old(self).src(), old(self).at()) {
                        Ok(spans) => tokens_match(
                            old(self).src(),
                            spans,
                            toks@,
                            final(self).table(),
                        ),
                        Err(_) => false,
                    }
                },
                Err(e) => (match lex_from(old(self).src(), old(self).at()) {
                    Ok(_) => false,
                    Err(e2) => e2 == e,
                }),
            }),
    {
        let mut toks: Vec<Token> = Vec::new();
        let ghost s = self.src();
        let ghost i0 = self.at();
        let ghost mut spans: Seq<(TokenTag, int, int)> = Seq::empty();
        loop
            invariant
                self.wf(),
                s == old(self).src(),
                i0 == old(self).at(),
                self.src() == s,
                0 <= i0 <= self.at() <= s.len(),
                tokens_match(s, spans, toks@, self.table()),
                lex_continues(s, i0, spans, self.at()),
            decreases s.len() - self.at(),
        {
            let ghost pre = self.at();
            let ghost pre_table = self.table();
            match self.next() {
                Ok(Some(tok)) => {
                    proof {
                        let x = (tok.tag, pre, self.at());
                        let txt = s.subrange(pre, self.at());
                        lemma_intern_extends(pre_table, txt, self.table(), tok.txt.id);
                        match lex_from(s, self.at()) {
                            Ok(rest2) => {
                                assert(lex_from(s, pre) == Ok::<Seq<(TokenTag, int, int)>, LexError>(seq![x] + rest2));
                                assert(spans + (seq![x] + rest2) =~= (spans + seq![x]) + rest2);
                            },
                            Err(_) => {},
                        }
                        spans = spans + seq![x];
                    }
                    toks.push(tok);
                },
                Ok(None) => {
                    proof {
                        assert(spans + Seq::<(TokenTag, int, int)>::empty() =~= spans);
                    }
                    return Ok(toks);
                },
                Err(e) => {
                    return Err(e);
                },
            }
        }
    }
}

/// The decomposition from `i0` continues the one from `i`: whatever the
/// dispatch loop yields from `i`, prefixing `spans` gives its yield from `i0`.
pub open spec fn lex_continues(
    s: Seq<char>,
    i0: int,
    spans: Seq<(TokenTag, int, int)>,
    i: int,
) -> bool {
    match lex_from(s, i) {
        Ok(rest) => lex_from(s, i0) == Ok::<Seq<(TokenTag, int, int)>, LexError>(spans + rest),
        Err(e) => lex_from(s, i0) == Err::<Seq<(TokenTag, int, int)>, LexError>(e),
    }
}

/// The ordered spans and the produced tokens correspond: same length, same
/// tags, and the table maps each span's literal text to its token's handle.
pub open spec fn tokens_match(
    s: Seq<char>,
    spans: Seq<(TokenTag, int, int)>,
    toks: Seq<Token>,
    m: Map<Seq<char>, usize>,
) -> bool {
    &&& toks.len() == spans.len()
    &&& forall|k: int| 0 <= k < spans.len() ==> {
        &&& toks[k].tag == (#[trigger] spans[k]).0
        &&& m.dom().contains(s.subrange(spans[k].1, spans[k].2))
        &&& m[s.subrange(spans[k].1, spans[k].2)] == toks[k].txt.id
    }
}

/// Resolving a token produced by a successful scan can yield nothing but the
/// literal text of its span: the table maps that text to the token's handle,
/// and injectivity rules out any other text resolving to the same handle.
pub proof fn lemma_token_resolves_to_span(
    s: Seq<char>,
    spans: Seq<(TokenTag, int, int)>,
    toks: Seq<Token>,
    m: Map<Seq<char>, usize>,
    k: int,
    t: Seq<char>,
)
    requires
        map_injective(m),
        tokens_match(s, spans, toks, m),
        0 <= k < spans.len(),
        m.dom().contains(t),
        m[t] == toks[k].txt.id,
    ensures
        t == s.subrange(spans[k].1, spans[k].2),
{
    crate::intern::lemma_resolve_unique(m, s.subrange(spans[k].1, spans[k].2), t, toks[k].txt.id);
}

} // verus!
