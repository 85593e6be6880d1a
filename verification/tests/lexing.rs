use conslex::scan::Tokenizer;
use conslex::token::{LexError, TokenTag};

/// Drives a fresh tokenizer over `src` and returns each token's tag together
/// with its resolved literal text.
fn lex(src: &str) -> Result<Vec<(TokenTag, String)>, LexError> {
    let mut tz = Tokenizer::new(src);
    let mut out: Vec<(TokenTag, String)> = Vec::new();
    loop {
        match tz.next()? {
            None => return Ok(out),
            Some(tok) => {
                let text = tz.resolve(tok.txt)?;
                out.push((tok.tag, text));
            }
        }
    }
}

fn tags_and_texts(src: &str) -> Vec<(TokenTag, String)> {
    lex(src).expect("expected the input to tokenize")
}

#[test]
fn arithmetic_list() {
    let toks = tags_and_texts("(+ 1 2)");
    let expect = vec![
        (TokenTag::ListOpen, "("),
        (TokenTag::Symbol, "+"),
        (TokenTag::HorizontalSpace, " "),
        (TokenTag::NumberLiteral, "1"),
        (TokenTag::HorizontalSpace, " "),
        (TokenTag::NumberLiteral, "2"),
        (TokenTag::ListClose, ")"),
    ];
    assert_eq!(toks.len(), expect.len());
    for (got, want) in toks.iter().zip(expect.iter()) {
        assert_eq!(got.0, want.0);
        assert_eq!(got.1, want.1);
    }
}

#[test]
fn string_with_escaped_quote() {
    let toks = tags_and_texts("\"a\\\"b\"");
    assert_eq!(toks.len(), 1);
    assert_eq!(toks[0].0, TokenTag::StringLiteral);
    assert_eq!(toks[0].1, "\"a\\\"b\"");
    assert_eq!(toks[0].1.chars().count(), 6);
}

#[test]
fn decimal_number() {
    let toks = tags_and_texts("3.14");
    assert_eq!(toks.len(), 1);
    assert_eq!(toks[0].0, TokenTag::NumberLiteral);
    assert_eq!(toks[0].1, "3.14");
}

#[test]
fn mixed_whitespace_lines() {
    let toks = tags_and_texts("foo\n  bar");
    let expect = vec![
        (TokenTag::Symbol, "foo"),
        (TokenTag::VerticalSpace, "\n"),
        (TokenTag::HorizontalSpace, "  "),
        (TokenTag::Symbol, "bar"),
    ];
    assert_eq!(toks.len(), expect.len());
    for (got, want) in toks.iter().zip(expect.iter()) {
        assert_eq!(got.0, want.0);
        assert_eq!(got.1, want.1);
    }
}

#[test]
fn cons_pair_with_dot() {
    let toks = tags_and_texts("[1 . 2]");
    let expect = vec![
        (TokenTag::ConsOpen, "["),
        (TokenTag::NumberLiteral, "1"),
        (TokenTag::HorizontalSpace, " "),
        (TokenTag::ConsCenter, "."),
        (TokenTag::HorizontalSpace, " "),
        (TokenTag::NumberLiteral, "2"),
        (TokenTag::ConsClose, "]"),
    ];
    assert_eq!(toks.len(), expect.len());
    for (got, want) in toks.iter().zip(expect.iter()) {
        assert_eq!(got.0, want.0);
        assert_eq!(got.1, want.1);
    }
}

#[test]
fn unterminated_string_fails() {
    assert_eq!(lex("\"abc"), Err(LexError::UnterminatedString));
}

#[test]
fn unterminated_escape_fails() {
    assert_eq!(lex("\"ab\\"), Err(LexError::UnterminatedEscape));
}

#[test]
fn unexpected_character_fails() {
    assert_eq!(lex("ok #"), Err(LexError::UnexpectedCharacter('#', 3)));
    assert_eq!(lex(","), Err(LexError::UnexpectedCharacter(',', 0)));
}

#[test]
fn maximal_munch_symbol_with_digits() {
    let toks = tags_and_texts("foo1");
    assert_eq!(toks.len(), 1);
    assert_eq!(toks[0].0, TokenTag::Symbol);
    assert_eq!(toks[0].1, "foo1");
}

#[test]
fn maximal_munch_symbol_stops_at_space() {
    let toks = tags_and_texts("foobar baz");
    assert_eq!(toks.len(), 3);
    assert_eq!(toks[0].0, TokenTag::Symbol);
    assert_eq!(toks[0].1, "foobar");
    assert_eq!(toks[1].0, TokenTag::HorizontalSpace);
    assert_eq!(toks[2].0, TokenTag::Symbol);
    assert_eq!(toks[2].1, "baz");
}

#[test]
fn number_before_symbol_priority() {
    // A leading digit always starts a number, never a symbol.
    let toks = tags_and_texts("1abc");
    assert_eq!(toks[0].0, TokenTag::NumberLiteral);
    assert_eq!(toks[0].1, "1");
    assert_eq!(toks[1].0, TokenTag::Symbol);
    assert_eq!(toks[1].1, "abc");
}

#[test]
fn trailing_dot_left_for_cons() {
    // "1." is a number followed by a cons-dot: the dot has no digit after it.
    let toks = tags_and_texts("1.");
    assert_eq!(toks.len(), 2);
    assert_eq!(toks[0].0, TokenTag::NumberLiteral);
    assert_eq!(toks[0].1, "1");
    assert_eq!(toks[1].0, TokenTag::ConsCenter);
    assert_eq!(toks[1].1, ".");
}

#[test]
fn second_dot_not_absorbed() {
    let toks = tags_and_texts("1.2.3");
    assert_eq!(toks.len(), 3);
    assert_eq!(toks[0].1, "1.2");
    assert_eq!(toks[1].0, TokenTag::ConsCenter);
    assert_eq!(toks[2].0, TokenTag::NumberLiteral);
    assert_eq!(toks[2].1, "3");
}

#[test]
fn comment_runs_to_end_of_line() {
    let toks = tags_and_texts(";; note\nx");
    assert_eq!(toks.len(), 3);
    assert_eq!(toks[0].0, TokenTag::Comment);
    assert_eq!(toks[0].1, ";; note");
    assert_eq!(toks[1].0, TokenTag::VerticalSpace);
    assert_eq!(toks[2].0, TokenTag::Symbol);
}

#[test]
fn carriage_return_and_line_feed_one_run() {
    let toks = tags_and_texts("a\r\nb");
    assert_eq!(toks.len(), 3);
    assert_eq!(toks[1].0, TokenTag::VerticalSpace);
    assert_eq!(toks[1].1, "\r\n");
}

#[test]
fn whitespace_categories_never_mix() {
    let toks = tags_and_texts(" \n ");
    assert_eq!(toks.len(), 3);
    assert_eq!(toks[0].0, TokenTag::HorizontalSpace);
    assert_eq!(toks[1].0, TokenTag::VerticalSpace);
    assert_eq!(toks[2].0, TokenTag::HorizontalSpace);
}

#[test]
fn idiomatic_symbols() {
    let toks = tags_and_texts("-> valid? <=");
    assert_eq!(toks[0].0, TokenTag::Symbol);
    assert_eq!(toks[0].1, "->");
    assert_eq!(toks[2].0, TokenTag::Symbol);
    assert_eq!(toks[2].1, "valid?");
    assert_eq!(toks[4].0, TokenTag::Symbol);
    assert_eq!(toks[4].1, "<=");
}

#[test]
fn unicode_symbol() {
    let toks = tags_and_texts("h\u{e9}llo");
    assert_eq!(toks.len(), 1);
    assert_eq!(toks[0].0, TokenTag::Symbol);
    assert_eq!(toks[0].1, "h\u{e9}llo");
}

#[test]
fn round_trip_reproduces_source() {
    let src = "(define (twice x) ; doubles\n  [x . 2])\n\"a\\\\b\" 10.25\t-";
    let toks = tags_and_texts(src);
    let mut rebuilt = String::new();
    for (_, text) in &toks {
        rebuilt.push_str(text);
    }
    assert_eq!(rebuilt, src);
}

#[test]
fn empty_input_yields_no_tokens() {
    let toks = tags_and_texts("");
    assert_eq!(toks.len(), 0);
}

#[test]
fn exhausted_tokenizer_stays_exhausted() {
    let mut tz = Tokenizer::new("x");
    assert!(matches!(tz.next(), Ok(Some(_))));
    assert!(matches!(tz.next(), Ok(None)));
    assert!(matches!(tz.next(), Ok(None)));
}

#[test]
fn run_collects_all_tokens() {
    let mut tz = Tokenizer::new("(a 1)");
    let toks = tz.run().expect("expected the input to tokenize");
    assert_eq!(toks.len(), 5);
    assert_eq!(toks[0].tag, TokenTag::ListOpen);
    assert_eq!(toks[1].tag, TokenTag::Symbol);
    assert_eq!(toks[2].tag, TokenTag::HorizontalSpace);
    assert_eq!(toks[3].tag, TokenTag::NumberLiteral);
    assert_eq!(toks[4].tag, TokenTag::ListClose);
    let text = tz.resolve(toks[1].txt).expect("a produced handle resolves");
    assert_eq!(text, "a");
}

#[test]
fn try_new_accepts_ordinary_input() {
    let mut tz = Tokenizer::try_new("(x)").expect("a small input is accepted");
    let toks = tz.run().expect("expected the input to tokenize");
    assert_eq!(toks.len(), 3);
}

#[test]
fn run_surfaces_errors() {
    let mut tz = Tokenizer::new("(a \"x");
    assert_eq!(tz.run(), Err(LexError::UnterminatedString));
}
