//! A map whose entries are kept in the order of their keys.
use vstd::prelude::*;

use crate::text::{
    lemma_text_before_irreflexive, lemma_text_before_total, lemma_text_before_transitive,
    text_before, text_position, Position,
};

verus! {

/// A key with a total order on its view.
pub trait MapKey: View + Sized {
    /// The strict order of the keys.
    spec fn before(a: Self::V, b: Self::V) -> bool;

    proof fn before_irreflexive(a: Self::V)
        ensures
            !Self::before(a, a),
    ;

    proof fn before_transitive(a: Self::V, b: Self::V, c: Self::V)
        requires
            Self::before(a, b),
            Self::before(b, c),
        ensures
            Self::before(a, c),
    ;

    proof fn before_total(a: Self::V, b: Self::V)
        ensures
            a == b || Self::before(a, b) || Self::before(b, a),
    ;

    /// Where this key stands in respect of `other`.
    fn position(&self, other: &Self) -> (r: Position)
        ensures
            r == Position::Same <==> self@ == other@,
            r == Position::Before <==> Self::before(self@, other@),
    ;
}

impl MapKey for String {
    open spec fn before(a: Seq<char>, b: Seq<char>) -> bool {
        text_before(a, b)
    }

    proof fn before_irreflexive(a: Seq<char>) {
        lemma_text_before_irreflexive(a);
    }

    proof fn before_transitive(a: Seq<char>, b: Seq<char>, c: Seq<char>) {
        lemma_text_before_transitive(a, b, c);
    }

    proof fn before_total(a: Seq<char>, b: Seq<char>) {
        lemma_text_before_total(a, b);
    }

    fn position(&self, other: &Self) -> (r: Position) {
        proof {
            lemma_text_before_irreflexive(self@);
        }
        text_position(self.as_str(), other.as_str())
    }
}

impl MapKey for usize {
    open spec fn before(a: usize, b: usize) -> bool {
        a < b
    }

    proof fn before_irreflexive(a: usize) {
    }

    proof fn before_transitive(a: usize, b: usize, c: usize) {
    }

    proof fn before_total(a: usize, b: usize) {
    }

    fn position(&self, other: &Self) -> (r: Position) {
        if *self == *other {
            Position::Same
        } else if *self < *other {
            Position::Before
        } else {
            Position::After
        }
    }
}

impl MapKey for u64 {
    open spec fn before(a: u64, b: u64) -> bool {
        a < b
    }

    proof fn before_irreflexive(a: u64) {
    }

    proof fn before_transitive(a: u64, b: u64, c: u64) {
    }

    proof fn before_total(a: u64, b: u64) {
    }

    fn position(&self, other: &Self) -> (r: Position) {
        if *self == *other {
            Position::Same
        } else if *self < *other {
            Position::Before
        } else {
            Position::After
        }
    }
}

impl MapKey for (usize, usize) {
    open spec fn before(a: (usize, usize), b: (usize, usize)) -> bool {
        a.0 < b.0 || (a.0 == b.0 && a.1 < b.1)
    }

    proof fn before_irreflexive(a: (usize, usize)) {
    }

    proof fn before_transitive(a: (usize, usize), b: (usize, usize), c: (usize, usize)) {
    }

    proof fn before_total(a: (usize, usize), b: (usize, usize)) {
    }

    fn position(&self, other: &Self) -> (r: Position) {
        if self.0 == other.0 && self.1 == other.1 {
            Position::Same
        } else if self.0 < other.0 || (self.0 == other.0 && self.1 < other.1) {
            Position::Before
        } else {
            Position::After
        }
    }
}

/// The entries of a map, each key once, in the order of the keys.
pub struct OrderedMap<K, V> {
    entries: Vec<(K, V)>,
}

impl<K: MapKey, V> OrderedMap<K, V> {
    /// The entries in order.
    pub closed spec fn entries(self) -> Seq<(K, V)> {
        self.entries@
    }

    /// The keys in order.
    pub open spec fn keys(self) -> Seq<K::V> {
        self.entries().map_values(|e: (K, V)| e.0@)
    }

    /// Every key stands before every later one.
    pub open spec fn wf(self) -> bool {
        forall|i: int, j: int|
            0 <= i < j < self.entries().len() ==> K::before(
                #[trigger] self.entries()[i].0@,
                #[trigger] self.entries()[j].0@,
            )
    }

    /// Whether the entry at `at` has the key `key`.
    pub open spec fn key_at(self, key: K::V, at: int) -> bool {
        0 <= at < self.entries().len() && self.entries()[at].0@ == key
    }

    /// Whether some entry has the key `key`.
    pub open spec fn has(self, key: K::V) -> bool {
        exists|at: int| #[trigger] self.key_at(key, at)
    }

    /// The value stored under `key`, where there is one.
    pub open spec fn value(self, key: K::V) -> V
        recommends
            self.has(key),
    {
        self.entries()[choose|at: int| #[trigger] self.key_at(key, at)].1
    }

    /// What the map holds.
    pub open spec fn map(self) -> Map<K::V, V> {
        Map::new(|key: K::V| self.has(key), |key: K::V| self.value(key))
    }

    pub proof fn lemma_unique(self, i: int, j: int)
        requires
            self.wf(),
            0 <= i < self.entries().len(),
            0 <= j < self.entries().len(),
            self.entries()[i].0@ == self.entries()[j].0@,
        ensures
            i == j,
    {
        K::before_irreflexive(self.entries()[i].0@);
    }

    /// There are as many entries as keys.
    pub proof fn lemma_len(self)
        requires
            self.wf(),
        ensures
            self.map().dom().finite(),
            self.map().dom().len() == self.entries().len(),
    {
        let keys = self.keys();
        assert forall|i: int, j: int| 0 <= i < keys.len() && 0 <= j < keys.len() && i != j implies
            keys[i] != keys[j] by {
            if keys[i] == keys[j] {
                self.lemma_unique(i, j);
            }
        }
        keys.unique_seq_to_set();
        assert forall|key: K::V| #[trigger] self.map().dom().contains(key) == keys.to_set().contains(
            key,
        ) by {
            if self.has(key) {
                let at = choose|at: int| #[trigger] self.key_at(key, at);
                assert(keys[at] == key);
            }
            if keys.to_set().contains(key) {
                let at = choose|at: int| 0 <= at < keys.len() && keys[at] == key;
                assert(self.key_at(key, at));
            }
        }
        assert(self.map().dom() =~= keys.to_set());
    }

    /// The entry at `at` is what the map holds under its key.
    pub proof fn lemma_entry(self, at: int)
        requires
            self.wf(),
            0 <= at < self.entries().len(),
        ensures
            self.map().contains_key(self.entries()[at].0@),
            self.map()[self.entries()[at].0@] == self.entries()[at].1,
    {
        let key = self.entries()[at].0@;
        assert(self.key_at(key, at));
        let found = choose|i: int| #[trigger] self.key_at(key, i);
        self.lemma_unique(at, found);
    }

    pub fn new() -> (r: Self)
        ensures
            r.wf(),
            r.entries() == Seq::<(K, V)>::empty(),
            r.map() == Map::<K::V, V>::empty(),
    {
        let r = OrderedMap { entries: Vec::new() };
        assert(r.map() =~= Map::<K::V, V>::empty());
        r
    }

    /// The number of entries.
    pub fn len(&self) -> (r: usize)
        ensures
            r == self.entries().len(),
    {
        self.entries.len()
    }

    pub fn key(&self, at: usize) -> (r: &K)
        requires
            at < self.entries().len(),
        ensures
            *r == self.entries()[at as int].0,
    {
        &self.entries[at].0
    }

    pub fn at(&self, at: usize) -> (r: &V)
        requires
            at < self.entries().len(),
        ensures
            *r == self.entries()[at as int].1,
    {
        &self.entries[at].1
    }

    /// The position of `key`, or the position where it belongs.
    fn locate(&self, key: &K) -> (r: (usize, bool))
        requires
            self.wf(),
        ensures
            r.0 <= self.entries().len(),
            r.1 ==> self.key_at(key@, r.0 as int),
            r.1 == self.has(key@),
            forall|i: int|
                0 <= i < r.0 ==> K::before(#[trigger] self.entries()[i].0@, key@),
            !r.1 ==> forall|i: int|
                r.0 <= i < self.entries().len() ==> K::before(
                    key@,
                    #[trigger] self.entries()[i].0@,
                ),
    {
        let mut i: usize = 0;
        while i < self.entries.len()
            invariant
                self.wf(),
                i <= self.entries().len(),
                forall|j: int| 0 <= j < i ==> K::before(#[trigger] self.entries()[j].0@, key@),
            decreases self.entries().len() - i,
        {
            match self.entries[i].0.position(key) {
                Position::Before => {
                    i += 1;
                },
                Position::Same => {
                    assert(self.key_at(key@, i as int));
                    return (i, true);
                },
                Position::After => {
                    proof {
                        let here = self.entries()[i as int].0@;
                        K::before_total(here, key@);
                        assert forall|j: int| i <= j < self.entries().len() implies K::before(
                            key@,
                            #[trigger] self.entries()[j].0@,
                        ) by {
                            if i < j {
                                K::before_transitive(key@, here, self.entries()[j].0@);
                            }
                        }
                        assert forall|j: int| !#[trigger] self.key_at(key@, j) by {
                            if self.key_at(key@, j) {
                                K::before_irreflexive(key@);
                            }
                        }
                    }
                    return (i, false);
                },
            }
        }
        proof {
            assert forall|j: int| !#[trigger] self.key_at(key@, j) by {
                if self.key_at(key@, j) {
                    K::before_irreflexive(key@);
                }
            }
        }
        (i, false)
    }

    pub fn contains(&self, key: &K) -> (r: bool)
        requires
            self.wf(),
        ensures
            r == self.map().contains_key(key@),
    {
        self.locate(key).1
    }

    /// The value stored under `key`.
    pub fn get(&self, key: &K) -> (r: Option<&V>)
        requires
            self.wf(),
        ensures
            r is Some == self.map().contains_key(key@),
            r matches Some(v) ==> *v == self.map()[key@],
    {
        let (at, found) = self.locate(key);
        if found {
            proof {
                self.lemma_entry(at as int);
            }
            Some(&self.entries[at].1)
        } else {
            None
        }
    }

    /// Stores `value` under `key`, in place of what was there.
    pub fn insert(&mut self, key: K, value: V)
        requires
            old(self).wf(),
        ensures
            final(self).wf(),
            final(self).map() == old(self).map().insert(key@, value),
            final(self).entries().len() == old(self).entries().len() + (if old(self).has(key@) {
                0int
            } else {
                1int
            }),
    {
        let (at, found) = self.locate(&key);
        let ghost k = key@;
        if found {
            self.entries.set(at, (key, value));
            proof {
                let now = *self;
                let was = *old(self);
                assert forall|i: int, j: int| 0 <= i < j < now.entries().len() implies K::before(
                    #[trigger] now.entries()[i].0@,
                    #[trigger] now.entries()[j].0@,
                ) by {
                    assert(now.entries()[i].0@ == was.entries()[i].0@);
                    assert(now.entries()[j].0@ == was.entries()[j].0@);
                }
                assert forall|other: K::V| now.has(other) == was.has(other) by {
                    if now.has(other) {
                        let i = choose|i: int| #[trigger] now.key_at(other, i);
                        assert(was.key_at(other, i));
                    }
                    if was.has(other) {
                        let i = choose|i: int| #[trigger] was.key_at(other, i);
                        assert(now.key_at(other, i));
                    }
                }
                assert forall|other: K::V| now.has(other) implies now.value(other)
                    == was.map().insert(k, value)[other] by {
                    let i = choose|i: int| #[trigger] now.key_at(other, i);
                    now.lemma_entry(i);
                    if other == k {
                        now.lemma_unique(i, at as int);
                    } else {
                        assert(i != at);
                        was.lemma_entry(i);
                    }
                }
                assert(now.map() =~= was.map().insert(k, value));
            }
        } else {
            self.entries.insert(at, (key, value));
            proof {
                let now = *self;
                let was = *old(self);
                let n = at as int;
                assert forall|i: int, j: int| 0 <= i < j < now.entries().len() implies K::before(
                    #[trigger] now.entries()[i].0@,
                    #[trigger] now.entries()[j].0@,
                ) by {
                    let a = if i < n {
                        i
                    } else {
                        i - 1
                    };
                    let b = if j < n {
                        j
                    } else {
                        j - 1
                    };
                    if i != n {
                        assert(now.entries()[i] == was.entries()[a]);
                    }
                    if j != n {
                        assert(now.entries()[j] == was.entries()[b]);
                    }
                }
                assert(now.entries()[n].0@ == k);
                assert(now.key_at(k, n));
                assert forall|other: K::V| now.has(other) == (was.has(other) || other == k) by {
                    if now.has(other) {
                        let i = choose|i: int| #[trigger] now.key_at(other, i);
                        if i < n {
                            assert(was.key_at(other, i));
                        } else if i > n {
                            assert(was.key_at(other, i - 1));
                        }
                    }
                    if was.has(other) {
                        let i = choose|i: int| #[trigger] was.key_at(other, i);
                        if i < n {
                            assert(now.key_at(other, i));
                        } else {
                            assert(now.entries()[i + 1] == was.entries()[i]);
                            assert(now.key_at(other, i + 1));
                        }
                    }
                }
                assert forall|other: K::V| now.has(other) implies now.value(other)
                    == was.map().insert(k, value)[other] by {
                    let i = choose|i: int| #[trigger] now.key_at(other, i);
                    now.lemma_entry(i);
                    if other == k {
                        now.lemma_unique(i, n);
                    } else if i < n {
                        was.lemma_entry(i);
                    } else {
                        was.lemma_entry(i - 1);
                    }
                }
                assert(now.map() =~= was.map().insert(k, value));
            }
        }
    }

    /// Takes out what is stored under `key`.
    pub fn remove(&mut self, key: &K) -> (r: Option<V>)
        requires
            old(self).wf(),
        ensures
            final(self).wf(),
            final(self).map() == old(self).map().remove(key@),
            r is Some == old(self).map().contains_key(key@),
            r matches Some(v) ==> v == old(self).map()[key@],
            final(self).entries().len() == old(self).entries().len() - (if old(self).has(key@) {
                1int
            } else {
                0int
            }),
    {
        let (at, found) = self.locate(key);
        if found {
            proof {
                self.lemma_entry(at as int);
            }
            let (_, value) = self.entries.remove(at);
            proof {
                let now = *self;
                let was = *old(self);
                let n = at as int;
                let k = key@;
                assert forall|i: int, j: int| 0 <= i < j < now.entries().len() implies K::before(
                    #[trigger] now.entries()[i].0@,
                    #[trigger] now.entries()[j].0@,
                ) by {
                    let a = if i < n {
                        i
                    } else {
                        i + 1
                    };
                    let b = if j < n {
                        j
                    } else {
                        j + 1
                    };
                    assert(now.entries()[i] == was.entries()[a]);
                    assert(now.entries()[j] == was.entries()[b]);
                }
                assert forall|other: K::V| now.has(other) == (was.has(other) && other != k) by {
                    if now.has(other) {
                        let i = choose|i: int| #[trigger] now.key_at(other, i);
                        let a = if i < n {
                            i
                        } else {
                            i + 1
                        };
                        assert(was.key_at(other, a));
                        if other == k {
                            was.lemma_unique(a, n);
                        }
                    }
                    if was.has(other) && other != k {
                        let i = choose|i: int| #[trigger] was.key_at(other, i);
                        if i < n {
                            assert(now.key_at(other, i));
                        } else {
                            assert(now.entries()[i - 1] == was.entries()[i]);
                            assert(now.key_at(other, i - 1));
                        }
                    }
                }
                assert forall|other: K::V| now.has(other) implies now.value(other)
                    == was.map()[other] by {
                    let i = choose|i: int| #[trigger] now.key_at(other, i);
                    now.lemma_entry(i);
                    if i < n {
                        was.lemma_entry(i);
                    } else {
                        was.lemma_entry(i + 1);
                    }
                }
                assert(now.map() =~= was.map().remove(k));
            }
            Some(value)
        } else {
            assert(self.map() =~= old(self).map().remove(key@));
            None
        }
    }
}

/// Numbers go up, pairs by their first part and then by their second.
pub proof fn law_keys_go_up(a: usize, b: usize, c: usize, d: usize, x: u64, y: u64)
    ensures
        <usize as MapKey>::before(a, b) <==> a < b,
        <u64 as MapKey>::before(x, y) <==> x < y,
        a < b ==> <(usize, usize) as MapKey>::before((a, c), (b, d)),
        c < d ==> <(usize, usize) as MapKey>::before((a, c), (a, d)),
{
}

} // verus!
