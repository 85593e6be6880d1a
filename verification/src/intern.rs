use vstd::prelude::*;

use crate::token::{InternHandle, LexError};

verus! {

/// The number of distinct texts the interner accepts. The underlying table
/// assigns 32-bit keys and can hold at most `u32::MAX - 1` unique strings.
pub const INTERN_CAPACITY: usize = 0xFFFF_FFFE;

#[verifier::external_type_specification]
#[verifier::external_body]
pub struct ExSpur(lasso::Spur);

#[verifier::external_type_specification]
#[verifier::external_body]
#[verifier::reject_recursive_types(K)]
#[verifier::reject_recursive_types(S)]
pub struct ExThreadedRodeo<K, S>(lasso::ThreadedRodeo<K, S>);

/// What the underlying lasso table holds: each interned text, mapped to the
/// index of the key under which it was registered.
pub uninterp spec fn rodeo_map(r: lasso::ThreadedRodeo) -> Map<Seq<char>, usize>;

/// The contents of a table that holds nothing yet.
pub open spec fn empty_table() -> Map<Seq<char>, usize> {
    Map::empty()
}

/// Relies on `lasso::ThreadedRodeo::new`: a freshly created table holds no
/// strings.
#[verifier::external_body]
fn rodeo_new() -> (r: lasso::ThreadedRodeo)
    ensures
        rodeo_map(r) == empty_table(),
{
    lasso::ThreadedRodeo::new()
}

/// Relies on `lasso::ThreadedRodeo::get_or_intern` (the key converted through
/// `lasso::Key::into_usize`): the key of an already-interned text is returned
/// unchanged, a text seen for the first time receives a key index that no
/// interned text holds, and afterwards the text maps to the returned index.
/// The call panics only once the key space is exhausted, which the
/// precondition rules out.
#[verifier::external_body]
fn rodeo_get_or_intern(r: &mut lasso::ThreadedRodeo, s: &str) -> (h: usize)
    requires
        rodeo_map(*old(r)).dom().len() < INTERN_CAPACITY,
    ensures
        rodeo_map(*final(r)) == rodeo_map(*old(r)).insert(s@, h),
        rodeo_map(*old(r)).dom().contains(s@) ==> h == rodeo_map(*old(r))[s@],
        !rodeo_map(*old(r)).dom().contains(s@) ==> (forall|t: Seq<char>|
            rodeo_map(*old(r)).dom().contains(t) ==> rodeo_map(*old(r))[t] != h),
{
    lasso::Key::into_usize(r.get_or_intern(s))
}

/// Relies on `lasso::ThreadedRodeo::try_resolve` (the index converted through
/// `lasso::Key::try_from_usize`): returns the text interned under the given
/// key index, and `None` exactly when no interned text holds that index.
#[verifier::external_body]
fn rodeo_try_resolve(r: &lasso::ThreadedRodeo, id: usize) -> (t: Option<String>)
    ensures
        match t {
            Some(x) => rodeo_map(*r).dom().contains(x@) && rodeo_map(*r)[x@] == id,
            None => forall|s: Seq<char>| rodeo_map(*r).dom().contains(s) ==> rodeo_map(*r)[s] != id,
        },
{
    match lasso::Key::try_from_usize(id) {
        None => None,
        Some(k) => match r.try_resolve(&k) {
            None => None,
            Some(s) => Some(s.to_string()),
        },
    }
}

/// Relies on `lasso::ThreadedRodeo::len`: the number of interned strings,
/// which is the number of entries of the table.
#[verifier::external_body]
fn rodeo_len(r: &lasso::ThreadedRodeo) -> (n: usize)
    ensures
        n == rodeo_map(*r).dom().len(),
{
    r.len()
}

/// No two interned texts share a handle index.
pub open spec fn map_injective(m: Map<Seq<char>, usize>) -> bool {
    forall|a: Seq<char>, b: Seq<char>|
        m.dom().contains(a) && m.dom().contains(b) && m[a] == m[b] ==> a == b
}

/// How one interning of `s` relates the table before (`m0`) to the table
/// after (`m1`) and to the returned handle index `h`: the table is extended
/// by `s` mapping to `h`; a text seen before keeps its index, and a new text
/// receives an index no interned text held.
pub open spec fn intern_post(
    m0: Map<Seq<char>, usize>,
    s: Seq<char>,
    m1: Map<Seq<char>, usize>,
    h: usize,
) -> bool {
    &&& m1 == m0.insert(s, h)
    &&& m0.dom().contains(s) ==> h == m0[s]
    &&& !m0.dom().contains(s) ==> (forall|t: Seq<char>| m0.dom().contains(t) ==> m0[t] != h)
}

/// One interning step keeps the table injective.
pub proof fn lemma_intern_preserves_injective(
    m0: Map<Seq<char>, usize>,
    s: Seq<char>,
    m1: Map<Seq<char>, usize>,
    h: usize,
)
    requires
        map_injective(m0),
        intern_post(m0, s, m1, h),
    ensures
        map_injective(m1),
{
    assert forall|a: Seq<char>, b: Seq<char>|
        m1.dom().contains(a) && m1.dom().contains(b) && m1[a] == m1[b] implies a == b by {
        if a != s && b != s {
            assert(m0.dom().contains(a) && m0.dom().contains(b));
        } else if a == s && b != s {
            assert(m0.dom().contains(b) && m0[b] == h);
        } else if a != s && b == s {
            assert(m0.dom().contains(a) && m0[a] == h);
        }
    }
}

/// One interning step keeps every existing entry: text already interned
/// keeps its handle, whatever is interned afterwards.
pub proof fn lemma_intern_extends(
    m0: Map<Seq<char>, usize>,
    s: Seq<char>,
    m1: Map<Seq<char>, usize>,
    h: usize,
)
    requires
        intern_post(m0, s, m1, h),
    ensures
        forall|t: Seq<char>| m0.dom().contains(t) ==> m1.dom().contains(t) && m1[t] == m0[t],
{
}

/// A deduplicating symbol table mapping text to small copyable handles.
/// Equal text always yields the equal handle, and a handle resolves back to
/// the text that produced it for the lifetime of the interner.
pub struct Interner {
    rodeo: lasso::ThreadedRodeo,
}

impl View for Interner {
    type V = Map<Seq<char>, usize>;

    closed spec fn view(&self) -> Map<Seq<char>, usize> {
        rodeo_map(self.rodeo)
    }
}

impl Interner {
    /// The table never aliases distinct text and holds finitely many entries.
    pub open spec fn wf(&self) -> bool {
        map_injective(self@) && self@.dom().finite()
    }

    /// Creates an empty interner.
    pub fn new() -> (r: Interner)
        ensures
            r.wf(),
            r@ == empty_table(),
    {
        Interner { rodeo: rodeo_new() }
    }

    /// Interns `s`: returns the existing handle when this exact text was seen
    /// before, otherwise registers the text under a fresh handle. Afterwards
    /// the text resolves from the returned handle.
    pub fn intern(&mut self, s: &str) -> (h: InternHandle)
        requires
            old(self).wf(),
            old(self)@.dom().len() < INTERN_CAPACITY,
        ensures
            final(self).wf(),
            intern_post(old(self)@, s@, final(self)@, h.id),
            final(self)@.dom().contains(s@) && final(self)@[s@] == h.id,
    {
        let id = rodeo_get_or_intern(&mut self.rodeo, s);
        proof {
            lemma_intern_preserves_injective(old(self)@, s@, self@, id);
        }
        InternHandle { id }
    }

    /// The number of distinct texts interned so far.
    pub fn len(&self) -> (n: usize)
        ensures
            n == self@.dom().len(),
    {
        rodeo_len(&self.rodeo)
    }

    /// Interns `s` as `intern` does, unless the table has reached its
    /// capacity, in which case it is left unchanged and `None` comes back.
    pub fn try_intern(&mut self, s: &str) -> (r: Option<InternHandle>)
        requires
            old(self).wf(),
        ensures
            final(self).wf(),
            (match r {
                Some(h) => {
                    &&& intern_post(old(self)@, s@, final(self)@, h.id)
                    &&& final(self)@.dom().contains(s@) && final(self)@[s@] == h.id
                },
                None => final(self)@ == old(self)@ && old(self)@.dom().len() >= INTERN_CAPACITY,
            }),
    {
        let n = self.len();
        if n < INTERN_CAPACITY {
            Some(self.intern(s))
        } else {
            None
        }
    }

    /// Resolves a handle back to its text; fails with `UnknownHandle` for a
    /// handle this interner never produced.
    pub fn resolve(&self, h: InternHandle) -> (r: Result<String, LexError>)
        ensures
            match r {
                Ok(t) => self@.dom().contains(t@) && self@[t@] == h.id,
                Err(e) => e == LexError::UnknownHandle && (forall|s: Seq<char>|
                    self@.dom().contains(s) ==> self@[s] != h.id),
            },
    {
        match rodeo_try_resolve(&self.rodeo, h.id) {
            Some(t) => Ok(t),
            None => Err(LexError::UnknownHandle),
        }
    }
}

/// Idempotent interning: interning the same text twice in a row yields the
/// same handle, and the second call leaves the table unchanged — so any
/// number of repetitions behaves as one.
pub proof fn lemma_intern_idempotent(
    m0: Map<Seq<char>, usize>,
    s: Seq<char>,
    m1: Map<Seq<char>, usize>,
    h1: usize,
    m2: Map<Seq<char>, usize>,
    h2: usize,
)
    requires
        intern_post(m0, s, m1, h1),
        intern_post(m1, s, m2, h2),
    ensures
        h2 == h1,
        m2 == m1,
{
    assert(m1.dom().contains(s) && m1[s] == h1);
    assert(m2 =~= m1);
}

/// Injectivity: across two successive internings on one table, the handles
/// are equal exactly when the texts are equal — handles never alias distinct
/// text, and equal text never receives distinct handles.
pub proof fn lemma_intern_injective(
    m0: Map<Seq<char>, usize>,
    s1: Seq<char>,
    m1: Map<Seq<char>, usize>,
    h1: usize,
    s2: Seq<char>,
    m2: Map<Seq<char>, usize>,
    h2: usize,
)
    requires
        map_injective(m0),
        intern_post(m0, s1, m1, h1),
        intern_post(m1, s2, m2, h2),
    ensures
        h1 == h2 <==> s1 == s2,
{
    lemma_intern_preserves_injective(m0, s1, m1, h1);
    if s1 == s2 {
        assert(m1.dom().contains(s2) && m1[s2] == h1);
    } else {
        assert(m1.dom().contains(s1) && m1[s1] == h1);
        if m1.dom().contains(s2) {
            assert(h2 == m1[s2]);
            if h1 == h2 {
                assert(s1 == s2);
            }
        } else {
            assert(m1[s1] != h2);
        }
    }
}

/// A text the table maps to a handle is the only text that handle stands
/// for: resolving a handle produced for `s` can yield nothing but `s`.
pub proof fn lemma_resolve_unique(
    m: Map<Seq<char>, usize>,
    s: Seq<char>,
    t: Seq<char>,
    h: usize,
)
    requires
        map_injective(m),
        m.dom().contains(s) && m[s] == h,
        m.dom().contains(t) && m[t] == h,
    ensures
        t == s,
{
}

} // verus!
