use conslex::intern::Interner;
use conslex::scan::Tokenizer;
use conslex::token::{InternHandle, LexError, TokenTag};

#[test]
fn interning_is_idempotent() {
    let mut it = Interner::new();
    let h1 = it.intern("foo");
    let h2 = it.intern("foo");
    let h3 = it.intern("foo");
    assert_eq!(h1, h2);
    assert_eq!(h2, h3);
}

#[test]
fn interning_is_injective() {
    let mut it = Interner::new();
    let ha = it.intern("foo");
    let hb = it.intern("bar");
    let hc = it.intern("");
    assert_ne!(ha, hb);
    assert_ne!(ha, hc);
    assert_ne!(hb, hc);
    // Equal text yields the equal handle whenever it was interned.
    assert_eq!(it.intern("bar"), hb);
}

#[test]
fn len_counts_distinct_texts() {
    let mut it = Interner::new();
    assert_eq!(it.len(), 0);
    it.intern("a");
    it.intern("b");
    it.intern("a");
    assert_eq!(it.len(), 2);
}

#[test]
fn try_intern_accepts_ordinary_input() {
    let mut it = Interner::new();
    let h1 = it.try_intern("x").expect("the table is far from full");
    let h2 = it.intern("x");
    assert_eq!(h1, h2);
}

#[test]
fn resolve_returns_original_text() {
    let mut it = Interner::new();
    let h = it.intern("hello world");
    assert_eq!(it.resolve(h), Ok(String::from("hello world")));
    let e = it.intern("");
    assert_eq!(it.resolve(e), Ok(String::new()));
}

#[test]
fn resolve_unknown_handle_fails() {
    let it = Interner::new();
    assert_eq!(it.resolve(InternHandle { id: 0 }), Err(LexError::UnknownHandle));
    let mut it2 = Interner::new();
    let h = it2.intern("x");
    assert_eq!(it2.resolve(InternHandle { id: h.id + 999 }), Err(LexError::UnknownHandle));
}

#[test]
fn cross_interner_handle_fails() {
    let mut it1 = Interner::new();
    let h = it1.intern("abc");
    let it2 = Interner::new();
    assert_eq!(it2.resolve(h), Err(LexError::UnknownHandle));
}

#[test]
fn pull_based_scan_continues_mid_stream() {
    let mut tz = Tokenizer::new("a b");
    let first = tz.next().expect("no error").expect("a token");
    assert_eq!(first.tag, TokenTag::Symbol);
    let rest = tz.run().expect("expected the rest to tokenize");
    assert_eq!(rest.len(), 2);
    assert_eq!(rest[0].tag, TokenTag::HorizontalSpace);
    assert_eq!(rest[1].tag, TokenTag::Symbol);
}

#[test]
fn repeated_text_shares_one_handle() {
    let mut tz = Tokenizer::new("(foo foo foo)");
    let toks = tz.run().expect("expected the input to tokenize");
    assert_eq!(toks[1].tag, TokenTag::Symbol);
    assert_eq!(toks[1].txt, toks[3].txt);
    assert_eq!(toks[3].txt, toks[5].txt);
    // The two space tokens share a handle too, and differ from the symbols'.
    assert_eq!(toks[2].txt, toks[4].txt);
    assert_ne!(toks[1].txt, toks[2].txt);
}

#[test]
fn interner_shared_across_scans() {
    let mut first = Tokenizer::new("abc");
    let toks1 = first.run().expect("expected the input to tokenize");
    let it = first.into_interner();

    let mut second = Tokenizer::with_interner("abc def", it);
    let toks2 = second.run().expect("expected the input to tokenize");

    // The same text interned in an earlier session keeps its handle.
    assert_eq!(toks1[0].txt, toks2[0].txt);
    assert_eq!(second.resolve(toks1[0].txt), Ok(String::from("abc")));
    assert_eq!(second.resolve(toks2[2].txt), Ok(String::from("def")));
}
