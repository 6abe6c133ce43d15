//! String interning for tags, names and other short identifiers: each
//! distinct string is stored once and handed out as a small [`Symbol`]
//! that compares by value. The store is `string_interner`'s default
//! interner.

use vstd::prelude::*;

verus! {

/// A `string_interner` default interner (`StringInterner` over the
/// default string backend and `SymbolU32` symbols).
#[verifier::external_body]
pub struct InternStore {
    inner: string_interner::DefaultStringInterner,
}

/// The strings held by an interner, in symbol order (the string of symbol
/// `k` at position `k`).
pub uninterp spec fn interned(i: InternStore) -> Seq<Seq<char>>;

/// An interned-string symbol: the position of its string in the store.
#[derive(Debug, Clone, Copy, PartialEq, Eq, Hash, Structural)]
pub struct Symbol(u32);

impl Symbol {
    /// Position of the symbol's string in its interner.
    pub closed spec fn index(self) -> nat {
        self.0 as nat
    }

    /// Position of the symbol's string in its interner.
    pub fn to_usize(self) -> (r: usize)
        ensures
            r == self.index(),
    {
        self.0 as usize
    }
}

/// `StringInterner::new`: an empty interner.
#[verifier::external_body]
fn store_new() -> (r: InternStore)
    ensures
        interned(r) == Seq::<Seq<char>>::empty(),
{
    InternStore { inner: string_interner::DefaultStringInterner::new() }
}

/// `StringInterner::get_or_intern`: the symbol of `s`, storing `s` at the
/// end first when it is new. The default string backend numbers strings
/// from 0 in the order they were first interned; a new symbol past
/// `u32::MAX - 1` panics, so that many strings are ruled out.
#[verifier::external_body]
fn store_get_or_intern(i: &mut InternStore, s: &str) -> (r: usize)
    requires
        interned(*old(i)).len() + 1 < u32::MAX,
    ensures
        interned(*old(i)).contains(s@) ==> interned(*final(i)) == interned(*old(i)) && r < interned(*old(i)).len()
            && interned(*old(i))[r as int] == s@,
        !interned(*old(i)).contains(s@) ==> interned(*final(i)) == interned(*old(i)).push(s@) && r
            == interned(*old(i)).len(),
{
    string_interner::Symbol::to_usize(i.inner.get_or_intern(s))
}

/// `StringInterner::get`: the symbol of `s` if it was interned (a
/// `SymbolU32`, so its position is below `u32::MAX`).
#[verifier::external_body]
fn store_get(i: &InternStore, s: &str) -> (r: Option<usize>)
    ensures
        match r {
            Some(k) => k < interned(*i).len() && k < u32::MAX && interned(*i)[k as int] == s@,
            None => !interned(*i).contains(s@),
        },
{
    match i.inner.get(s) {
        Some(sym) => Some(string_interner::Symbol::to_usize(sym)),
        None => None,
    }
}

/// `StringInterner::resolve` of the symbol at position `k`: its string, if
/// the interner has that many.
#[verifier::external_body]
fn store_resolve<'a>(i: &'a InternStore, k: u32) -> (r: Option<&'a str>)
    ensures
        match r {
            Some(s) => k < interned(*i).len() && s@ == interned(*i)[k as int],
            None => k >= interned(*i).len(),
        },
{
    match <string_interner::DefaultSymbol as string_interner::Symbol>::try_from_usize(k as usize) {
        Some(sym) => i.inner.resolve(sym),
        None => None,
    }
}

/// `StringInterner::len`: the number of distinct strings.
#[verifier::external_body]
fn store_len(i: &InternStore) -> (r: usize)
    ensures
        r == interned(*i).len(),
{
    i.inner.len()
}

/// Engine-wide string interner.
pub struct Interner {
    inner: InternStore,
}

impl Interner {
    /// The interned strings, in symbol order.
    pub closed spec fn view(&self) -> Seq<Seq<char>> {
        interned(self.inner)
    }

    /// Create an empty interner.
    pub fn new() -> (r: Interner)
        ensures
            r@ == Seq::<Seq<char>>::empty(),
    {
        Interner { inner: store_new() }
    }

    /// Intern a string, returning its [`Symbol`]: the existing symbol when
    /// the string is already interned, else a fresh one for it.
    pub fn intern(&mut self, s: &str) -> (r: Symbol)
        requires
            old(self)@.len() + 1 < u32::MAX,
        ensures
            old(self)@.contains(s@) ==> final(self)@ == old(self)@,
            !old(self)@.contains(s@) ==> final(self)@ == old(self)@.push(s@) && r.index() == old(self)@.len(),
            r.index() < final(self)@.len(),
            final(self)@[r.index() as int] == s@,
            old(self)@.no_duplicates() ==> final(self)@.no_duplicates(),
    {
        let k = store_get_or_intern(&mut self.inner, s);
        Symbol(k as u32)
    }

    /// Look up an existing symbol without inserting.
    pub fn get(&self, s: &str) -> (r: Option<Symbol>)
        ensures
            match r {
                Some(sym) => sym.index() < self@.len() && self@[sym.index() as int] == s@,
                None => !self@.contains(s@),
            },
    {
        match store_get(&self.inner, s) {
            Some(k) => Some(Symbol(k as u32)),
            None => None,
        }
    }

    /// Resolve a symbol back to its string.
    pub fn resolve(&self, sym: Symbol) -> (r: Option<&str>)
        ensures
            match r {
                Some(s) => sym.index() < self@.len() && s@ == self@[sym.index() as int],
                None => sym.index() >= self@.len(),
            },
    {
        store_resolve(&self.inner, sym.0)
    }

    /// Number of unique strings interned.
    pub fn len(&self) -> (r: usize)
        ensures
            r == self@.len(),
    {
        store_len(&self.inner)
    }

    /// Whether the interner holds no string.
    pub fn is_empty(&self) -> (r: bool)
        ensures
            r == (self@.len() == 0),
    {
        self.len() == 0
    }
}

impl Default for Interner {
    fn default() -> (r: Interner)
        ensures
            r@ == Seq::<Seq<char>>::empty(),
    {
        Interner::new()
    }
}

} // verus!
