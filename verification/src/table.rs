//! A map from strings to values, kept in the order of its keys.

use crate::text::{
    lemma_precedes_irreflexive, lemma_precedes_total, lemma_precedes_transitive, precedes, rank,
    Rank,
};
use vstd::prelude::*;

verus! {

/// Every string of `keys` precedes all that come after it.
pub open spec fn ascending(keys: Seq<Seq<char>>) -> bool {
    forall|i: int, j: int|
        0 <= i < j < keys.len() ==> precedes(#[trigger] keys[i], #[trigger] keys[j])
}

/// The strings of a finite set, least first.
pub open spec fn in_order(names: Set<Seq<char>>) -> Seq<Seq<char>> {
    choose|s: Seq<Seq<char>>| ascending(s) && s.to_set() == names
}

/// A string stands at one place only in an ascending sequence.
pub proof fn lemma_ascending_distinct(keys: Seq<Seq<char>>, i: int, j: int)
    requires
        ascending(keys),
        0 <= i < keys.len(),
        0 <= j < keys.len(),
        keys[i] == keys[j],
    ensures
        i == j,
{
    lemma_precedes_irreflexive(keys[i]);
}

/// Two ascending sequences that hold the same strings are one sequence.
pub proof fn lemma_ascending_unique(s: Seq<Seq<char>>, t: Seq<Seq<char>>)
    requires
        ascending(s),
        ascending(t),
        s.to_set() == t.to_set(),
    ensures
        s == t,
    decreases s.len(),
{
    if s.len() == 0 {
        if t.len() > 0 {
            assert(t.to_set().contains(t[0]));
            assert(s.contains(t[0]));
        }
        assert(s =~= t);
    } else {
        assert(s.to_set().contains(s[0]));
        assert(t.contains(s[0]));
        let j = t.index_of(s[0]);
        assert(t.to_set().contains(t[0]));
        assert(s.contains(t[0]));
        let i = s.index_of(t[0]);
        if j > 0 {
            // t[0] < t[j] == s[0] <= s[i] == t[0]
            if i > 0 {
                lemma_precedes_transitive(t[0], s[0], s[i]);
            }
            lemma_precedes_irreflexive(t[0]);
        }
        assert(s[0] == t[0]);
        let s1 = s.drop_first();
        let t1 = t.drop_first();
        assert(ascending(s1)) by {
            assert forall|a: int, b: int| 0 <= a < b < s1.len() implies precedes(
                #[trigger] s1[a],
                #[trigger] s1[b],
            ) by {
                assert(s1[a] == s[a + 1] && s1[b] == s[b + 1]);
            }
        }
        assert(ascending(t1)) by {
            assert forall|a: int, b: int| 0 <= a < b < t1.len() implies precedes(
                #[trigger] t1[a],
                #[trigger] t1[b],
            ) by {
                assert(t1[a] == t[a + 1] && t1[b] == t[b + 1]);
            }
        }
        assert(s1.to_set() =~= t1.to_set()) by {
            assert forall|x: Seq<char>| s1.contains(x) <==> t1.contains(x) by {
                if s1.contains(x) {
                    let a = s1.index_of(x);
                    assert(s[a + 1] == x);
                    assert(s.to_set().contains(x));
                    assert(t.contains(x));
                    let b = t.index_of(x);
                    if b == 0 {
                        lemma_ascending_distinct(s, 0, a + 1);
                    }
                    assert(t1[b - 1] == x);
                }
                if t1.contains(x) {
                    let b = t1.index_of(x);
                    assert(t[b + 1] == x);
                    assert(t.to_set().contains(x));
                    assert(s.contains(x));
                    let a = s.index_of(x);
                    if a == 0 {
                        lemma_ascending_distinct(t, 0, b + 1);
                    }
                    assert(s1[a - 1] == x);
                }
            }
        }
        lemma_ascending_unique(s1, t1);
        assert(s =~= seq![s[0]] + s1);
        assert(t =~= seq![t[0]] + t1);
    }
}

/// Among ascending strings there is a place for every other string: those
/// before the place precede it, and it precedes those from the place on.
pub proof fn lemma_place(keys: Seq<Seq<char>>, key: Seq<char>) -> (at: int)
    requires
        ascending(keys),
        !keys.contains(key),
    ensures
        0 <= at <= keys.len(),
        forall|j: int| 0 <= j < at ==> precedes(#[trigger] keys[j], key),
        forall|j: int| at <= j < keys.len() ==> precedes(key, #[trigger] keys[j]),
    decreases keys.len(),
{
    if keys.len() == 0 {
        0
    } else {
        let last = keys.last();
        assert(keys.contains(last));
        lemma_precedes_total(last, key);
        if precedes(last, key) {
            assert forall|j: int| 0 <= j < keys.len() implies precedes(#[trigger] keys[j], key) by {
                if j < keys.len() - 1 {
                    assert(precedes(keys[j], keys[keys.len() - 1]));
                    lemma_precedes_transitive(keys[j], last, key);
                }
            }
            keys.len() as int
        } else {
            let rest = keys.drop_last();
            assert forall|a: int, b: int| 0 <= a < b < rest.len() implies precedes(
                #[trigger] rest[a],
                #[trigger] rest[b],
            ) by {
                assert(rest[a] == keys[a] && rest[b] == keys[b]);
            }
            if rest.contains(key) {
                let i = rest.index_of(key);
                assert(keys[i] == key);
            }
            let at = lemma_place(rest, key);
            assert forall|j: int| 0 <= j < at implies precedes(#[trigger] keys[j], key) by {
                assert(rest[j] == keys[j]);
            }
            assert forall|j: int| at <= j < keys.len() implies precedes(
                key,
                #[trigger] keys[j],
            ) by {
                if j < rest.len() {
                    assert(rest[j] == keys[j]);
                }
            }
            at
        }
    }
}

/// Every finite set of strings has its order: `in_order` is ascending and
/// holds the strings of the set, each once.
pub proof fn lemma_in_order(names: Set<Seq<char>>)
    requires
        names.finite(),
    ensures
        ascending(in_order(names)),
        in_order(names).to_set() == names,
        in_order(names).len() == names.len(),
    decreases names.len(),
{
    if names.len() == 0 {
        let none = Seq::<Seq<char>>::empty();
        assert(names =~= Set::<Seq<char>>::empty());
        assert(none.to_set() =~= names);
        assert(ascending(none) && none.to_set() == names);
    } else {
        let one = names.choose();
        let fewer = names.remove(one);
        lemma_in_order(fewer);
        let keys = in_order(fewer);
        if keys.contains(one) {
            assert(keys.to_set().contains(one));
        }
        let at = lemma_place(keys, one);
        let wider = keys.insert(at, one);
        lemma_insert_keeps_order(keys, at, one);
        assert(wider.to_set() =~= names) by {
            assert forall|x: Seq<char>| wider.contains(x) <==> names.contains(x) by {
                if wider.contains(x) {
                    let i = wider.index_of(x);
                    if i < at {
                        assert(keys[i] == x);
                        assert(keys.to_set().contains(x));
                    } else if i > at {
                        assert(keys[i - 1] == x);
                        assert(keys.to_set().contains(x));
                    }
                }
                if names.contains(x) {
                    if x == one {
                        assert(wider[at] == x);
                    } else {
                        assert(fewer.contains(x));
                        assert(keys.to_set().contains(x));
                        let i = keys.index_of(x);
                        let j = if i < at { i } else { i + 1 };
                        assert(wider[j] == x);
                    }
                }
            }
        }
        assert(ascending(wider) && wider.to_set() == names);
    }
    let keys = in_order(names);
    assert(keys.no_duplicates()) by {
        assert forall|i: int, j: int|
            0 <= i < keys.len() && 0 <= j < keys.len() && i != j implies keys[i] != keys[j] by {
            if keys[i] == keys[j] {
                lemma_ascending_distinct(keys, i, j);
            }
        }
    }
    keys.unique_seq_to_set();
}

/// An ascending sequence is the order of the set of its strings.
pub proof fn lemma_in_order_of(keys: Seq<Seq<char>>)
    requires
        ascending(keys),
    ensures
        in_order(keys.to_set()) == keys,
{
    let names = keys.to_set();
    assert(ascending(keys) && keys.to_set() == names);
    let s = in_order(names);
    assert(ascending(s) && s.to_set() == names);
    lemma_ascending_unique(s, keys);
}

/// A string put between those that precede it and those that it precedes
/// leaves an ascending sequence ascending.
pub proof fn lemma_insert_keeps_order(keys: Seq<Seq<char>>, at: int, key: Seq<char>)
    requires
        ascending(keys),
        0 <= at <= keys.len(),
        forall|j: int| 0 <= j < at ==> precedes(#[trigger] keys[j], key),
        forall|j: int| at <= j < keys.len() ==> precedes(key, #[trigger] keys[j]),
    ensures
        ascending(keys.insert(at, key)),
{
    let wider = keys.insert(at, key);
    assert forall|i: int, j: int| 0 <= i < j < wider.len() implies precedes(
        #[trigger] wider[i],
        #[trigger] wider[j],
    ) by {
        let a = if i < at { i } else { i - 1 };
        let b = if j < at { j } else { j - 1 };
        if i == at {
            assert(wider[j] == keys[b]);
        } else if j == at {
            assert(wider[i] == keys[a]);
        } else {
            assert(wider[i] == keys[a] && wider[j] == keys[b]);
        }
    }
}

/// A map from strings to values of type `T`, held as rows in key order.
#[derive(Debug, PartialEq, Eq)]
pub struct Table<T> {
    pub(crate) rows: Vec<(String, T)>,
}

impl<T> View for Table<T> {
    type V = Map<Seq<char>, T>;

    closed spec fn view(&self) -> Map<Seq<char>, T> {
        Map::new(
            |k: Seq<char>| self.keys().contains(k),
            |k: Seq<char>| self.rows@[self.keys().index_of(k)].1,
        )
    }
}

impl<T> Table<T> {
    /// The keys of the rows, in the order of the rows.
    spec fn keys(&self) -> Seq<Seq<char>> {
        Seq::new(self.rows@.len(), |i: int| self.rows@[i].0@)
    }

    /// The rows stand in the order of their keys, so no key is there twice.
    #[verifier::type_invariant]
    spec fn ordered(&self) -> bool {
        ascending(self.keys())
    }

    /// The keys of the table, least first.
    pub open spec fn order(&self) -> Seq<Seq<char>> {
        in_order(self@.dom())
    }

    /// What the rows are to the map: their keys are its keys in their
    /// order, and each row holds the value of its key.
    proof fn lemma_rows(&self)
        requires
            ascending(self.keys()),
        ensures
            self.order() == self.keys(),
            self@.dom() == self.keys().to_set(),
            forall|i: int|
                0 <= i < self.rows@.len() ==> self@[#[trigger] self.keys()[i]] == self.rows@[i].1,
    {
        assert(self@.dom() =~= self.keys().to_set());
        lemma_in_order_of(self.keys());
        assert forall|i: int| 0 <= i < self.rows@.len() implies self@[#[trigger] self.keys()[i]]
            == self.rows@[i].1 by {
            let k = self.keys()[i];
            assert(self.keys().contains(k));
            lemma_ascending_distinct(self.keys(), i, self.keys().index_of(k));
        }
    }

    /// A table without rows.
    pub fn new() -> (r: Self)
        ensures
            r@ == Map::<Seq<char>, T>::empty(),
    {
        let r = Table { rows: Vec::new() };
        assert(r@ =~= Map::<Seq<char>, T>::empty());
        r
    }

    /// The number of keys.
    pub fn len(&self) -> (n: usize)
        ensures
            n == self.order().len(),
            self@.dom().finite(),
            n == self@.dom().len(),
    {
        proof {
            use_type_invariant(self);
            self.lemma_rows();
            self.keys().lemma_cardinality_of_set();
            self.keys().unique_seq_to_set();
        }
        self.rows.len()
    }

    /// Where `key` stands among the rows, and whether it is there: the
    /// place of its row, or the place at which a row for it would keep
    /// the rows in order.
    fn locate(&self, key: &str) -> (r: (usize, bool))
        ensures
            r.0 <= self.keys().len(),
            r.1 ==> r.0 < self.keys().len() && self.keys()[r.0 as int] == key@,
            !r.1 ==> !self.keys().contains(key@),
            forall|j: int| 0 <= j < r.0 ==> precedes(#[trigger] self.keys()[j], key@),
            forall|j: int|
                r.0 <= j < self.keys().len() && !(r.1 && j == r.0) ==> precedes(
                    key@,
                    #[trigger] self.keys()[j],
                ),
    {
        proof {
            use_type_invariant(self);
        }
        let mut i: usize = 0;
        while i < self.rows.len()
            invariant
                i <= self.rows@.len(),
                ascending(self.keys()),
                forall|j: int| 0 <= j < i ==> precedes(#[trigger] self.keys()[j], key@),
            decreases self.rows@.len() - i,
        {
            match rank(self.rows[i].0.as_str(), key) {
                Rank::Before => {
                    i += 1;
                },
                Rank::Same => {
                    assert(self.keys()[i as int] == key@);
                    assert forall|j: int| i < j < self.keys().len() implies precedes(
                        key@,
                        #[trigger] self.keys()[j],
                    ) by {
                        assert(precedes(self.keys()[i as int], self.keys()[j]));
                    }
                    return (i, true);
                },
                Rank::After => {
                    assert(precedes(key@, self.keys()[i as int]));
                    assert forall|j: int| i <= j < self.keys().len() implies precedes(
                        key@,
                        #[trigger] self.keys()[j],
                    ) by {
                        if i < j {
                            assert(precedes(self.keys()[i as int], self.keys()[j]));
                            lemma_precedes_transitive(key@, self.keys()[i as int], self.keys()[j]);
                        }
                    }
                    proof {
                        self.lemma_absent(key@, i as int);
                    }
                    return (i, false);
                },
            }
        }
        proof {
            self.lemma_absent(key@, i as int);
        }
        (i, false)
    }

    /// A key that has its place between two rows is in none of them.
    proof fn lemma_absent(&self, key: Seq<char>, at: int)
        requires
            0 <= at <= self.keys().len(),
            forall|j: int| 0 <= j < at ==> precedes(#[trigger] self.keys()[j], key),
            forall|j: int| at <= j < self.keys().len() ==> precedes(key, #[trigger] self.keys()[j]),
        ensures
            !self.keys().contains(key),
    {
        if self.keys().contains(key) {
            let j = self.keys().index_of(key);
            lemma_precedes_irreflexive(key);
        }
    }

    /// The value stored under `key`, if there is one.
    pub fn get(&self, key: &str) -> (r: Option<&T>)
        ensures
            r is Some == self@.contains_key(key@),
            r matches Some(v) ==> *v == self@[key@],
    {
        proof {
            use_type_invariant(self);
            self.lemma_rows();
        }
        let (at, found): (usize, bool) = self.locate(key);
        if found {
            Some(&self.rows[at].1)
        } else {
            None
        }
    }

    /// Stores `value` under `key`, in place of what was stored there.
    pub fn insert(&mut self, key: String, value: T)
        ensures
            final(self)@ == old(self)@.insert(key@, value),
    {
        proof {
            use_type_invariant(&*self);
            self.lemma_rows();
        }
        let (at, found): (usize, bool) = self.locate(key.as_str());
        let ghost before = *self;
        let mut rows: Vec<(String, T)> = Vec::new();
        std::mem::swap(&mut rows, &mut self.rows);
        if found {
            rows.set(at, (key, value));
        } else {
            rows.insert(at, (key, value));
        }
        proof {
            let fresh = Table { rows };
            if found {
                assert(fresh.keys() =~= before.keys());
            } else {
                assert(fresh.keys() =~= before.keys().insert(at as int, key@));
                lemma_insert_keeps_order(before.keys(), at as int, key@);
            }
            fresh.lemma_rows();
            assert forall|k: Seq<char>| fresh@.dom().contains(k) <==> before@.insert(
                key@,
                value,
            ).dom().contains(k) by {
                if before.keys().contains(k) {
                    let i = before.keys().index_of(k);
                    let j = if found || i < at { i } else { i + 1 };
                    assert(fresh.keys()[j] == k);
                }
                if fresh.keys().contains(k) && k != key@ {
                    let j = fresh.keys().index_of(k);
                    let i = if found || j < at { j } else { j - 1 };
                    assert(before.keys()[i] == k);
                }
                assert(fresh.keys()[at as int] == key@);
            }
            assert forall|k: Seq<char>| fresh@.dom().contains(k) implies fresh@[k]
                == before@.insert(key@, value)[k] by {
                let j = fresh.keys().index_of(k);
                assert(fresh.keys()[j] == k);
                if k == key@ {
                    lemma_ascending_distinct(fresh.keys(), j, at as int);
                } else {
                    let i = if found || j < at { j } else { j - 1 };
                    assert(before.keys()[i] == k);
                }
            }
            assert(fresh@ =~= before@.insert(key@, value));
        }
        self.rows = rows;
    }

    /// Takes out what is stored under `key`, if anything is.
    pub fn remove(&mut self, key: &str) -> (r: Option<T>)
        ensures
            final(self)@ == old(self)@.remove(key@),
            r == (if old(self)@.contains_key(key@) {
                Some(old(self)@[key@])
            } else {
                None
            }),
    {
        proof {
            use_type_invariant(&*self);
            self.lemma_rows();
        }
        let (at, found): (usize, bool) = self.locate(key);
        if !found {
            assert(self@ =~= self@.remove(key@));
            return None;
        }
        let ghost before = *self;
        let mut rows: Vec<(String, T)> = Vec::new();
        std::mem::swap(&mut rows, &mut self.rows);
        let row = rows.remove(at);
        proof {
            let fresh = Table { rows };
            assert(fresh.keys() =~= before.keys().remove(at as int));
            assert forall|i: int, j: int| 0 <= i < j < fresh.keys().len() implies precedes(
                #[trigger] fresh.keys()[i],
                #[trigger] fresh.keys()[j],
            ) by {
                let a = if i < at { i } else { i + 1 };
                let b = if j < at { j } else { j + 1 };
                assert(fresh.keys()[i] == before.keys()[a] && fresh.keys()[j] == before.keys()[b]);
            }
            fresh.lemma_rows();
            assert forall|k: Seq<char>| fresh@.dom().contains(k) <==> before@.remove(
                key@,
            ).dom().contains(k) by {
                if before.keys().contains(k) && k != key@ {
                    let i = before.keys().index_of(k);
                    let j = if i < at { i } else { i - 1 };
                    assert(fresh.keys()[j] == k);
                }
                if fresh.keys().contains(k) {
                    let j = fresh.keys().index_of(k);
                    let i = if j < at { j } else { j + 1 };
                    assert(before.keys()[i] == k);
                    if k == key@ {
                        lemma_ascending_distinct(before.keys(), i, at as int);
                    }
                }
            }
            assert forall|k: Seq<char>| fresh@.dom().contains(k) implies fresh@[k]
                == before@.remove(key@)[k] by {
                let j = fresh.keys().index_of(k);
                let i = if j < at { j } else { j + 1 };
                assert(before.keys()[i] == k);
            }
            assert(fresh@ =~= before@.remove(key@));
        }
        self.rows = rows;
        Some(row.1)
    }

    /// The rows of the table, least key first.
    pub fn entries(&self) -> (r: &Vec<(String, T)>)
        ensures
            r@.len() == self.order().len(),
            forall|i: int| 0 <= i < r@.len() ==> (#[trigger] r@[i]).0@ == self.order()[i],
            forall|i: int|
                0 <= i < r@.len() ==> self@.contains_key(self.order()[i]) && (#[trigger] r@[i]).1
                    == self@[self.order()[i]],
    {
        proof {
            use_type_invariant(self);
            self.lemma_rows();
            assert forall|i: int| 0 <= i < self.rows@.len() implies self@.contains_key(
                self.keys()[i],
            ) by {
                assert(self.keys().contains(self.keys()[i]));
            }
        }
        &self.rows
    }
}

impl<T: DeepView> DeepView for Table<T> {
    type V = Map<Seq<char>, T::V>;

    open spec fn deep_view(&self) -> Map<Seq<char>, T::V> {
        self@.map_values(|v: T| v.deep_view())
    }
}

/// Storing a value and then taking the deep view of each value gives what
/// storing the value's deep view among the deep views gives.
pub proof fn lemma_deep_insert<T: DeepView>(rows: Map<Seq<char>, T>, key: Seq<char>, value: T)
    ensures
        rows.insert(key, value).map_values(|v: T| v.deep_view()) == rows.map_values(
            |v: T| v.deep_view(),
        ).insert(key, value.deep_view()),
{
    assert(rows.insert(key, value).map_values(|v: T| v.deep_view()) =~= rows.map_values(
        |v: T| v.deep_view(),
    ).insert(key, value.deep_view()));
}

/// Taking a key out and then taking the deep view of each value gives what
/// taking the key out of the deep views gives.
pub proof fn lemma_deep_remove<T: DeepView>(rows: Map<Seq<char>, T>, key: Seq<char>)
    ensures
        rows.remove(key).map_values(|v: T| v.deep_view()) == rows.map_values(
            |v: T| v.deep_view(),
        ).remove(key),
{
    assert(rows.remove(key).map_values(|v: T| v.deep_view()) =~= rows.map_values(
        |v: T| v.deep_view(),
    ).remove(key));
}

} // verus!
