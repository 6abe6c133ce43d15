//! A small ordered map keyed by strings: each key at most once, keys in
//! ascending code-point order (the order of `str`), so walking it visits
//! entries as a `BTreeMap<String, _>` would.

use vstd::prelude::*;

verus! {

pub use crate::text::strs_view;

/// Code-point order of two character sequences from position `i` on,
/// given that they agree before `i`.
pub open spec fn key_lt_from(a: Seq<char>, b: Seq<char>, i: int) -> bool
    decreases a.len() - i,
{
    if i >= a.len() {
        i < b.len()
    } else if i >= b.len() {
        false
    } else if a[i] != b[i] {
        a[i] < b[i]
    } else {
        key_lt_from(a, b, i + 1)
    }
}

/// Strict lexicographic order of strings by code point: the order of
/// `str`'s `Ord` (byte order of UTF-8 agrees with code-point order).
pub open spec fn key_lt(a: Seq<char>, b: Seq<char>) -> bool {
    key_lt_from(a, b, 0)
}

proof fn lemma_lt_from_irrefl(a: Seq<char>, i: int)
    requires
        0 <= i,
    ensures
        !key_lt_from(a, a, i),
    decreases a.len() - i,
{
    if i < a.len() {
        lemma_lt_from_irrefl(a, i + 1);
    }
}

proof fn lemma_lt_from_trans(a: Seq<char>, b: Seq<char>, c: Seq<char>, i: int)
    requires
        0 <= i,
        key_lt_from(a, b, i),
        key_lt_from(b, c, i),
    ensures
        key_lt_from(a, c, i),
    decreases a.len() - i,
{
    if i < a.len() && i < b.len() && i < c.len() && a[i] == b[i] && b[i] == c[i] {
        lemma_lt_from_trans(a, b, c, i + 1);
    }
}

proof fn lemma_lt_from_total(a: Seq<char>, b: Seq<char>, i: int)
    requires
        0 <= i <= a.len(),
        i <= b.len(),
        forall|j: int| 0 <= j < i ==> a[j] == b[j],
    ensures
        key_lt_from(a, b, i) || key_lt_from(b, a, i) || a == b,
    decreases a.len() - i,
{
    if i < a.len() && i < b.len() && a[i] == b[i] {
        lemma_lt_from_total(a, b, i + 1);
    } else if i == a.len() && i == b.len() {
        assert(a =~= b);
    }
}

/// `key_lt` is a strict total order.
pub proof fn lemma_key_order(a: Seq<char>, b: Seq<char>, c: Seq<char>)
    ensures
        !key_lt(a, a),
        key_lt(a, b) && key_lt(b, c) ==> key_lt(a, c),
        key_lt(a, b) ==> !key_lt(b, a) && a != b,
        key_lt(a, b) || key_lt(b, a) || a == b,
{
    lemma_lt_from_irrefl(a, 0);
    if key_lt(a, b) && key_lt(b, c) {
        lemma_lt_from_trans(a, b, c, 0);
    }
    if key_lt(a, b) && key_lt(b, a) {
        lemma_lt_from_trans(a, b, a, 0);
    }
    lemma_lt_from_total(a, b, 0);
}

/// `a < b` in the order of [`key_lt`].
pub fn str_lt(a: &str, b: &str) -> (r: bool)
    ensures
        r == key_lt(a@, b@),
{
    let x = crate::text::chars_of(a);
    let y = crate::text::chars_of(b);
    let mut i: usize = 0;
    while i < x.len() && i < y.len()
        invariant
            x@ == a@,
            y@ == b@,
            i <= x.len(),
            i <= y.len(),
            key_lt_from(a@, b@, 0) == key_lt_from(a@, b@, i as int),
        decreases x.len() - i,
    {
        if x[i] != y[i] {
            return x[i] < y[i];
        }
        i = i + 1;
    }
    i < y.len() && i == x.len()
}

/// Map from string keys to values; each key occurs at most once, and keys
/// are kept in ascending order.
#[derive(Debug)]
pub struct StrMap<V> {
    keys: Vec<String>,
    vals: Vec<V>,
}

impl<V> StrMap<V> {
    #[verifier::type_invariant]
    spec fn inv(self) -> bool {
        &&& self.keys.len() == self.vals.len()
        &&& forall|i: int, j: int|
            0 <= i < j < self.keys.len() ==> #[trigger] self.keys@[i]@ != #[trigger] self.keys@[j]@
        &&& forall|i: int, j: int|
            0 <= i < j < self.keys.len() ==> key_lt(#[trigger] self.keys@[i]@, #[trigger] self.keys@[j]@)
    }

    spec fn has_at(self, k: Seq<char>, i: int) -> bool {
        0 <= i < self.keys.len() && self.keys@[i]@ == k
    }

    /// The map's contents: each key's view to its value.
    pub closed spec fn view(&self) -> Map<Seq<char>, V> {
        Map::new(
            |k: Seq<char>| exists|i: int| self.has_at(k, i),
            |k: Seq<char>| self.vals@[choose|i: int| self.has_at(k, i)],
        )
    }

    proof fn lemma_at(self, i: int)
        requires
            self.inv(),
            0 <= i < self.keys.len(),
        ensures
            self@.contains_key(self.keys@[i]@),
            self@[self.keys@[i]@] == self.vals@[i],
    {
        let k = self.keys@[i]@;
        assert(self.has_at(k, i));
        let c = choose|c: int| self.has_at(k, c);
        if c != i {
            if c < i {
                assert(self.keys@[c]@ != self.keys@[i]@);
            } else {
                assert(self.keys@[i]@ != self.keys@[c]@);
            }
        }
    }

    proof fn lemma_dom(self)
        requires
            self.inv(),
        ensures
            self@.dom() == strs_view(self.keys@).to_set(),
            self@.dom().finite(),
            self@.dom().len() == self.keys.len(),
    {
        let ks = strs_view(self.keys@);
        assert forall|k: Seq<char>| self@.dom().contains(k) <==> ks.to_set().contains(k) by {
            if self@.dom().contains(k) {
                let i = choose|i: int| self.has_at(k, i);
                assert(ks[i] == k);
            }
            if ks.to_set().contains(k) {
                let i = choose|i: int| 0 <= i < ks.len() && ks[i] == k;
                assert(self.has_at(k, i));
            }
        }
        assert(self@.dom() =~= ks.to_set());
        assert(ks.no_duplicates()) by {
            assert forall|i: int, j: int| 0 <= i < ks.len() && 0 <= j < ks.len() && i != j implies ks[i]
                != ks[j] by {
                if i < j {
                    assert(self.keys@[i]@ != self.keys@[j]@);
                } else {
                    assert(self.keys@[j]@ != self.keys@[i]@);
                }
            }
        }
        ks.unique_seq_to_set();
    }

    /// Empty map.
    pub fn new() -> (r: StrMap<V>)
        ensures
            r@ == Map::<Seq<char>, V>::empty(),
    {
        let r = StrMap { keys: Vec::new(), vals: Vec::new() };
        assert(r@ =~= Map::<Seq<char>, V>::empty());
        r
    }

    fn index_of(&self, k: &str) -> (r: Option<usize>)
        ensures
            r matches Some(i) ==> i < self.keys.len() && self.keys@[i as int]@ == k@,
            r is None ==> forall|i: int| 0 <= i < self.keys.len() ==> self.keys@[i]@ != k@,
    {
        let mut i: usize = 0;
        while i < self.keys.len()
            invariant
                i <= self.keys.len(),
                forall|j: int| 0 <= j < i ==> self.keys@[j]@ != k@,
            decreases self.keys.len() - i,
        {
            if crate::text::str_eq(self.keys[i].as_str(), k) {
                return Some(i);
            }
            i = i + 1;
        }
        None
    }

    /// Number of keys.
    pub fn len(&self) -> (r: usize)
        ensures
            r == self@.len(),
    {
        proof {
            use_type_invariant(self);
            self.lemma_dom();
        }
        self.keys.len()
    }

    /// Whether the map has no keys.
    pub fn is_empty(&self) -> (r: bool)
        ensures
            r == (self@.len() == 0),
    {
        self.len() == 0
    }

    /// Whether `k` is a key.
    pub fn contains_key(&self, k: &str) -> (r: bool)
        ensures
            r == self@.contains_key(k@),
    {
        proof {
            use_type_invariant(self);
        }
        match self.index_of(k) {
            Some(i) => {
                proof {
                    self.lemma_at(i as int);
                }
                true
            },
            None => {
                assert(!self@.contains_key(k@)) by {
                    if self@.contains_key(k@) {
                        let j = choose|j: int| self.has_at(k@, j);
                        assert(self.keys@[j]@ != k@);
                    }
                }
                false
            },
        }
    }

    /// The value stored under `k`, if any.
    pub fn get(&self, k: &str) -> (r: Option<&V>)
        ensures
            r is Some == self@.contains_key(k@),
            r matches Some(v) ==> *v == self@[k@],
    {
        proof {
            use_type_invariant(self);
        }
        match self.index_of(k) {
            Some(i) => {
                proof {
                    self.lemma_at(i as int);
                }
                Some(&self.vals[i])
            },
            None => {
                assert(!self@.contains_key(k@)) by {
                    if self@.contains_key(k@) {
                        let j = choose|j: int| self.has_at(k@, j);
                        assert(self.keys@[j]@ != k@);
                    }
                }
                None
            },
        }
    }

    /// Insert or replace the value under `k`.
    pub fn insert(&mut self, k: String, v: V)
        ensures
            final(self)@ == old(self)@.insert(k@, v),
    {
        proof {
            use_type_invariant(&*self);
        }
        let ghost old_self = *self;
        match self.index_of(k.as_str()) {
            Some(i) => {
                let mut taken = StrMap::new();
                std::mem::swap(self, &mut taken);
                let StrMap { keys, mut vals } = taken;
                vals.set(i, v);
                *self = StrMap { keys, vals };
                proof {
                    assert forall|q: Seq<char>| #![auto] self@.contains_key(q) == old_self@.insert(
                        k@,
                        v,
                    ).contains_key(q) by {
                        if self@.contains_key(q) {
                            let j = choose|j: int| self.has_at(q, j);
                            if q != k@ {
                                assert(old_self.has_at(q, j));
                            }
                        }
                        if q == k@ {
                            assert(self.has_at(q, i as int));
                        }
                        if old_self@.contains_key(q) {
                            let j = choose|j: int| old_self.has_at(q, j);
                            assert(self.has_at(q, j));
                        }
                    }
                    assert forall|q: Seq<char>| #[trigger] self@.contains_key(q) implies self@[q]
                        == old_self@.insert(k@, v)[q] by {
                        let j = choose|j: int| self.has_at(q, j);
                        self.lemma_at(j);
                        if q != k@ {
                            old_self.lemma_at(j);
                        } else {
                            if j != i {
                                if j < i {
                                    assert(self.keys@[j]@ != self.keys@[i as int]@);
                                } else {
                                    assert(self.keys@[i as int]@ != self.keys@[j]@);
                                }
                            }
                        }
                    }
                    assert(self@ =~= old_self@.insert(k@, v));
                }
            },
            None => {
                let p = self.insert_pos(k.as_str());
                let mut taken = StrMap::new();
                std::mem::swap(self, &mut taken);
                let StrMap { mut keys, mut vals } = taken;
                let ghost kv = k@;
                keys.insert(p, k);
                vals.insert(p, v);
                proof {
                    let ok = old_self.keys@;
                    assert forall|a: int, b: int| 0 <= a < b < keys.len() implies key_lt(
                        #[trigger] keys@[a]@,
                        #[trigger] keys@[b]@,
                    ) by {
                        if b < p {
                            assert(key_lt(ok[a]@, ok[b]@));
                        } else if b == p {
                            assert(key_lt(ok[a]@, kv));
                        } else if a < p {
                            assert(key_lt(ok[a]@, kv));
                            assert(key_lt(kv, ok[b - 1]@));
                            lemma_key_order(ok[a]@, kv, ok[b - 1]@);
                        } else if a == p {
                            assert(key_lt(kv, ok[b - 1]@));
                        } else {
                            assert(key_lt(ok[a - 1]@, ok[b - 1]@));
                        }
                    }
                    assert forall|a: int, b: int| 0 <= a < b < keys.len() implies #[trigger] keys@[a]@
                        != #[trigger] keys@[b]@ by {
                        lemma_key_order(keys@[a]@, keys@[b]@, keys@[b]@);
                    }
                }
                *self = StrMap { keys, vals };
                proof {
                    let n = old_self.keys.len() as int;
                    assert forall|q: Seq<char>| #![auto] self@.contains_key(q) == old_self@.insert(
                        k@,
                        v,
                    ).contains_key(q) by {
                        if self@.contains_key(q) {
                            let j = choose|j: int| self.has_at(q, j);
                            if j < p {
                                assert(old_self.has_at(q, j));
                            } else if j > p {
                                assert(old_self.has_at(q, j - 1));
                            }
                        }
                        if old_self@.contains_key(q) {
                            let j = choose|j: int| old_self.has_at(q, j);
                            if j < p {
                                assert(self.has_at(q, j));
                            } else {
                                assert(self.has_at(q, j + 1));
                            }
                        }
                        if q == k@ {
                            assert(self.has_at(q, p as int));
                        }
                    }
                    assert forall|q: Seq<char>| #[trigger] self@.contains_key(q) implies self@[q]
                        == old_self@.insert(k@, v)[q] by {
                        let j = choose|j: int| self.has_at(q, j);
                        self.lemma_at(j);
                        if j < p {
                            old_self.lemma_at(j);
                        } else if j > p {
                            old_self.lemma_at(j - 1);
                        }
                    }
                    assert(self@ =~= old_self@.insert(k@, v));
                }
            },
        }
    }

    /// Where a new key `k` goes to keep the keys ascending.
    fn insert_pos(&self, k: &str) -> (r: usize)
        requires
            forall|j: int| 0 <= j < self.keys.len() ==> self.keys@[j]@ != k@,
        ensures
            r <= self.keys.len(),
            forall|j: int| 0 <= j < r ==> key_lt(#[trigger] self.keys@[j]@, k@),
            forall|j: int| r <= j < self.keys.len() ==> key_lt(k@, #[trigger] self.keys@[j]@),
    {
        proof {
            use_type_invariant(self);
        }
        let mut i: usize = 0;
        while i < self.keys.len() && str_lt(self.keys[i].as_str(), k)
            invariant
                i <= self.keys.len(),
                forall|j: int| 0 <= j < i ==> key_lt(#[trigger] self.keys@[j]@, k@),
            decreases self.keys.len() - i,
        {
            i = i + 1;
        }
        proof {
            if i < self.keys.len() {
                lemma_key_order(self.keys@[i as int]@, k@, k@);
                assert(key_lt(k@, self.keys@[i as int]@));
                assert forall|j: int| i <= j < self.keys.len() implies key_lt(k@, #[trigger] self.keys@[j]@) by {
                    if j > i {
                        assert(key_lt(self.keys@[i as int]@, self.keys@[j]@));
                        lemma_key_order(k@, self.keys@[i as int]@, self.keys@[j]@);
                    }
                }
            }
        }
        i
    }

    /// Remove `k`, returning its value if it was present.
    pub fn remove(&mut self, k: &str) -> (r: Option<V>)
        ensures
            r is Some == old(self)@.contains_key(k@),
            r matches Some(v) ==> v == old(self)@[k@],
            final(self)@ == old(self)@.remove(k@),
    {
        proof {
            use_type_invariant(&*self);
        }
        let ghost old_self = *self;
        match self.index_of(k) {
            Some(i) => {
                proof {
                    old_self.lemma_at(i as int);
                }
                let mut taken = StrMap::new();
                std::mem::swap(self, &mut taken);
                let StrMap { mut keys, mut vals } = taken;
                keys.remove(i);
                let v = vals.remove(i);
                proof {
                    assert forall|a: int, b: int| 0 <= a < b < keys.len() implies #[trigger] keys@[a]@
                        != #[trigger] keys@[b]@ by {
                        let oa = if a < i { a } else { a + 1 };
                        let ob = if b < i { b } else { b + 1 };
                        assert(old_self.keys@[oa]@ != old_self.keys@[ob]@);
                    }
                    assert forall|a: int, b: int| 0 <= a < b < keys.len() implies key_lt(
                        #[trigger] keys@[a]@,
                        #[trigger] keys@[b]@,
                    ) by {
                        let oa = if a < i { a } else { a + 1 };
                        let ob = if b < i { b } else { b + 1 };
                        assert(key_lt(old_self.keys@[oa]@, old_self.keys@[ob]@));
                    }
                }
                *self = StrMap { keys, vals };
                proof {
                    assert forall|q: Seq<char>| #![auto] self@.contains_key(q) == old_self@.remove(
                        k@,
                    ).contains_key(q) by {
                        if self@.contains_key(q) {
                            let j = choose|j: int| self.has_at(q, j);
                            if j < i {
                                assert(old_self.has_at(q, j));
                                assert(old_self.keys@[j]@ != old_self.keys@[i as int]@);
                            } else {
                                assert(old_self.has_at(q, j + 1));
                                assert(old_self.keys@[i as int]@ != old_self.keys@[j + 1]@);
                            }
                        }
                        if old_self@.contains_key(q) && q != k@ {
                            let j = choose|j: int| old_self.has_at(q, j);
                            if j < i {
                                assert(self.has_at(q, j));
                            } else {
                                assert(j != i);
                                assert(self.has_at(q, j - 1));
                            }
                        }
                    }
                    assert forall|q: Seq<char>| #[trigger] self@.contains_key(q) implies self@[q]
                        == old_self@.remove(k@)[q] by {
                        let j = choose|j: int| self.has_at(q, j);
                        self.lemma_at(j);
                        if j < i {
                            old_self.lemma_at(j);
                        } else {
                            old_self.lemma_at(j + 1);
                        }
                    }
                    assert(self@ =~= old_self@.remove(k@));
                }
                Some(v)
            },
            None => {
                assert(!old_self@.contains_key(k@)) by {
                    if old_self@.contains_key(k@) {
                        let j = choose|j: int| old_self.has_at(k@, j);
                        assert(old_self.keys@[j]@ != k@);
                    }
                }
                assert(old_self@ =~= old_self@.remove(k@));
                None
            },
        }
    }

    /// Keys in ascending order.
    pub closed spec fn key_seq(&self) -> Seq<Seq<char>> {
        strs_view(self.keys@)
    }

    /// Values in the same order as [`StrMap::key_seq`].
    pub closed spec fn val_seq(&self) -> Seq<V> {
        self.vals@
    }

    /// Number of entries, with how the ordered entries relate to the map.
    pub fn entry_count(&self) -> (r: usize)
        ensures
            r == self.key_seq().len(),
            r == self.val_seq().len(),
            r == self@.len(),
            self.key_seq().no_duplicates(),
            forall|i: int, j: int| 0 <= i < j < r ==> key_lt(#[trigger] self.key_seq()[i], #[trigger] self.key_seq()[j]),
            forall|i: int|
                0 <= i < r ==> #[trigger] self@.contains_key(self.key_seq()[i]) && self@[self.key_seq()[i]]
                    == self.val_seq()[i],
            forall|k: Seq<char>| #[trigger] self@.contains_key(k) ==> self.key_seq().contains(k),
    {
        proof {
            use_type_invariant(self);
            self.lemma_dom();
            assert forall|i: int| 0 <= i < self.keys.len() implies #[trigger] self@.contains_key(
                self.key_seq()[i],
            ) && self@[self.key_seq()[i]] == self.val_seq()[i] by {
                self.lemma_at(i);
            }
            assert forall|k: Seq<char>| #[trigger] self@.contains_key(k) implies self.key_seq().contains(k) by {
                assert(self@.dom().contains(k));
                assert(strs_view(self.keys@).to_set().contains(k));
            }
        }
        self.keys.len()
    }

    /// The key at position `i`.
    pub fn key_at(&self, i: usize) -> (r: &String)
        requires
            i < self.key_seq().len(),
        ensures
            r@ == self.key_seq()[i as int],
    {
        &self.keys[i]
    }

    /// The value at position `i`.
    pub fn val_at(&self, i: usize) -> (r: &V)
        requires
            i < self.key_seq().len(),
        ensures
            *r == self.val_seq()[i as int],
    {
        proof {
            use_type_invariant(self);
        }
        &self.vals[i]
    }
}

} // verus!
