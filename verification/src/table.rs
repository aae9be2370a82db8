//! A map held as a list of rows whose keys are all different.

use vstd::prelude::*;

use crate::text;

pub mod laws;

verus! {

/// A key of a [`Table`]: its view is what tells keys apart.
pub trait TableKey: View + Sized {
    /// What a row is looked up by.
    type Query: View<V = <Self as View>::V> + ?Sized;

    /// Whether this is the key that `query` asks for.
    fn answers(&self, query: &Self::Query) -> (r: bool)
        ensures
            r == (self@ == query@),
    ;

    /// The query that asks for this key.
    fn as_query(&self) -> (r: &Self::Query)
        ensures
            r@ == self@,
    ;
}

impl TableKey for String {
    type Query = str;

    fn answers(&self, query: &str) -> (r: bool) {
        text::same(self.as_str(), query)
    }

    fn as_query(&self) -> (r: &str) {
        self.as_str()
    }
}

/// A map from the views of its keys to values.
#[verifier::reject_recursive_types(K)]
pub struct Table<K: TableKey, V> {
    rows: Vec<(K, V)>,
}

/// A choice among the values of a [`Table`].
pub trait RowFilter<V> {
    /// Whether `v` is chosen.
    spec fn accepts(&self, v: V) -> bool;

    /// Whether `v` is chosen.
    fn accept(&self, v: &V) -> (r: bool)
        ensures
            r == self.accepts(*v),
    ;
}

/// `m` restricted to the values that `filter` accepts.
pub open spec fn accepted<K, V, F: RowFilter<V>>(m: Map<K, V>, filter: F) -> Map<K, V> {
    Map::new(|k: K| m.contains_key(k) && filter.accepts(m[k]), |k: K| m[k])
}

/// Whether no two rows have the same key.
pub open spec fn keys_differ<K: TableKey, V>(rows: Seq<(K, V)>) -> bool {
    forall|i: int, j: int|
        0 <= i < j < rows.len() ==> (#[trigger] rows[i]).0@ != (#[trigger] rows[j]).0@
}

/// Whether row `i` has the key `k`.
pub open spec fn row_has<K: TableKey, V>(rows: Seq<(K, V)>, i: int, k: K::V) -> bool {
    0 <= i < rows.len() && rows[i].0@ == k
}

/// The map that a list of rows stands for.
pub open spec fn rows_map<K: TableKey, V>(rows: Seq<(K, V)>) -> Map<K::V, V> {
    Map::new(
        |k: K::V| exists|i: int| row_has(rows, i, k),
        |k: K::V| rows[choose|i: int| row_has(rows, i, k)].1,
    )
}

/// A list of rows stands for a finite map.
pub proof fn lemma_rows_finite<K: TableKey, V>(rows: Seq<(K, V)>)
    ensures
        rows_map(rows).dom() == rows.map_values(|row: (K, V)| row.0@).to_set(),
        rows_map(rows).dom().finite(),
{
    let m = rows_map(rows);
    let keys = rows.map_values(|row: (K, V)| row.0@);
    assert(m.dom() =~= keys.to_set()) by {
        assert forall|k: K::V| m.dom().contains(k) <==> #[trigger] keys.to_set().contains(k) by {
            if m.dom().contains(k) {
                let i = choose|i: int| row_has(rows, i, k);
                assert(keys[i] == k);
            }
            if keys.contains(k) {
                let i = choose|i: int| 0 <= i < keys.len() && keys[i] == k;
                assert(row_has(rows, i, k));
            }
        }
    }
    assert(keys.to_set().finite());
}

/// In rows whose keys all differ, each row stands for its key.
pub proof fn lemma_rows<K: TableKey, V>(rows: Seq<(K, V)>)
    requires
        keys_differ(rows),
    ensures
        forall|i: int|
            0 <= i < rows.len() ==> rows_map(rows).contains_key((#[trigger] rows[i]).0@)
                && rows_map(rows)[rows[i].0@] == rows[i].1,
        rows_map(rows).dom().finite(),
        rows_map(rows).len() == rows.len(),
{
    let m = rows_map(rows);
    assert forall|i: int| 0 <= i < rows.len() implies m.contains_key((#[trigger] rows[i]).0@)
        && m[rows[i].0@] == rows[i].1 by {
        assert(row_has(rows, i, rows[i].0@));
        let j = choose|j: int| row_has(rows, j, rows[i].0@);
        assert(row_has(rows, j, rows[i].0@));
        assert(i == j) by {
            if i < j {
                assert(rows[i].0@ != rows[j].0@);
            }
            if j < i {
                assert(rows[j].0@ != rows[i].0@);
            }
        }
    }
    let keys = rows.map_values(|row: (K, V)| row.0@);
    assert(keys.no_duplicates()) by {
        assert forall|i: int, j: int|
            0 <= i < keys.len() && 0 <= j < keys.len() && i != j implies keys[i] != keys[j] by {
            assert(keys[i] == rows[i].0@);
            assert(keys[j] == rows[j].0@);
        }
    }
    keys.unique_seq_to_set();
    lemma_rows_finite(rows);
}

impl<K: TableKey, V> View for Table<K, V> {
    type V = Map<K::V, V>;

    closed spec fn view(&self) -> Map<K::V, V> {
        rows_map(self.rows@)
    }
}

impl<K: TableKey, V> Table<K, V> {
    #[verifier::type_invariant]
    spec fn distinct(self) -> bool {
        keys_differ(self.rows@)
    }

    /// The rows, in the order in which they are kept.
    pub closed spec fn rows(self) -> Seq<(K, V)> {
        self.rows@
    }

    /// The keys of the rows, in the order in which they are kept.
    pub closed spec fn row_keys(self) -> Seq<K::V> {
        self.rows@.map_values(|row: (K, V)| row.0@)
    }

    /// A table is a finite map.
    pub proof fn lemma_finite(self)
        ensures
            self@.dom().finite(),
    {
        lemma_rows_finite(self.rows@);
    }

    /// A table without rows.
    pub fn new() -> (r: Self)
        ensures
            r@ == Map::<K::V, V>::empty(),
            r.rows().len() == 0,
    {
        let r = Table { rows: Vec::new() };
        assert(r@ =~= Map::<K::V, V>::empty());
        r
    }

    /// The number of rows.
    pub fn len(&self) -> (r: usize)
        ensures
            r == self@.len(),
            r == self.rows().len(),
            self@.dom().finite(),
            self.row_keys().no_duplicates(),
            self.row_keys().to_set() == self@.dom(),
            self.row_keys().len() == r,
            forall|i: int| 0 <= i < r ==> #[trigger] self.row_keys()[i] == self.rows()[i].0@,
    {
        proof {
            use_type_invariant(self);
            lemma_rows(self.rows@);
            lemma_rows_finite(self.rows@);
        }
        self.rows.len()
    }

    /// The row with index `i`.
    pub fn row(&self, i: usize) -> (r: (&K, &V))
        requires
            i < self.rows().len(),
        ensures
            *r.0 == self.rows()[i as int].0,
            *r.1 == self.rows()[i as int].1,
            self@.contains_key(r.0@),
            self@[r.0@] == *r.1,
    {
        proof {
            use_type_invariant(self);
            lemma_rows(self.rows@);
        }
        let row = &self.rows[i];
        (&row.0, &row.1)
    }

    fn position(&self, k: &K::Query) -> (r: Option<usize>)
        ensures
            (match r {
                Some(i) => row_has(self.rows@, i as int, k@),
                None => !self@.contains_key(k@),
            }),
    {
        let mut i: usize = 0;
        while i < self.rows.len()
            invariant
                i <= self.rows@.len(),
                forall|j: int| 0 <= j < i ==> !row_has(self.rows@, j, k@),
            decreases self.rows@.len() - i,
        {
            if self.rows[i].0.answers(k) {
                return Some(i);
            }
            i += 1;
        }
        None
    }

    /// Whether there is a row with this key.
    pub fn contains_key(&self, k: &K::Query) -> (r: bool)
        ensures
            r == self@.contains_key(k@),
    {
        self.get(k).is_some()
    }

    /// The value in the row with this key.
    pub fn get(&self, k: &K::Query) -> (r: Option<&V>)
        ensures
            (match r {
                Some(v) => self@.contains_key(k@) && self@[k@] == *v,
                None => !self@.contains_key(k@),
            }),
    {
        proof {
            use_type_invariant(self);
            lemma_rows(self.rows@);
        }
        match self.position(k) {
            Some(i) => Some(&self.rows[i].1),
            None => None,
        }
    }

    /// Removes the row with this key, and hands out its value.
    pub fn remove(&mut self, k: &K::Query) -> (r: Option<V>)
        ensures
            final(self)@ == old(self)@.remove(k@),
            (match r {
                Some(v) => old(self)@.contains_key(k@) && old(self)@[k@] == v,
                None => !old(self)@.contains_key(k@),
            }),
    {
        proof {
            use_type_invariant(&*self);
            lemma_rows(self.rows@);
        }
        match self.position(k) {
            Some(i) => {
                let ghost before = self.rows@;
                let mut rows: Vec<(K, V)> = Vec::new();
                std::mem::swap(&mut rows, &mut self.rows);
                let row = rows.remove(i);
                proof {
                    lemma_without(before, i as int);
                }
                self.rows = rows;
                Some(row.1)
            },
            None => {
                assert(self@.remove(k@) =~= self@);
                None
            },
        }
    }

    /// Sets the value for a key, replacing the row that has it.
    pub fn insert(&mut self, k: K, v: V) -> (r: Option<V>)
        ensures
            final(self)@ == old(self)@.insert(k@, v),
            (match r {
                Some(v) => old(self)@.contains_key(k@) && old(self)@[k@] == v,
                None => !old(self)@.contains_key(k@),
            }),
    {
        let r = self.remove(k.as_query());
        let ghost key = k@;
        self.add(k, v);
        assert(old(self)@.remove(key).insert(key, v) =~= old(self)@.insert(key, v));
        r
    }

    /// Takes all rows out.
    pub fn take_rows(&mut self) -> (r: Vec<(K, V)>)
        ensures
            final(self)@ == Map::<K::V, V>::empty(),
            keys_differ(r@),
            rows_map(r@) == old(self)@,
            r@ == old(self).rows(),
    {
        proof {
            use_type_invariant(&*self);
        }
        let mut rows: Vec<(K, V)> = Vec::new();
        std::mem::swap(&mut rows, &mut self.rows);
        assert(self@ =~= Map::<K::V, V>::empty());
        rows
    }

    /// Keeps the rows whose value `filter` accepts.
    pub fn retain<F: RowFilter<V>>(&mut self, filter: &F)
        ensures
            final(self)@ == accepted(old(self)@, *filter),
    {
        proof {
            use_type_invariant(&*self);
            lemma_rows(self.rows@);
        }
        let ghost before = self.rows@;
        let mut rows: Vec<(K, V)> = Vec::new();
        std::mem::swap(&mut rows, &mut self.rows);
        let mut kept: Vec<(K, V)> = Vec::new();
        while rows.len() > 0
            invariant
                keys_differ(before),
                rows@.len() <= before.len(),
                rows@ == before.take(rows@.len() as int),
                keys_differ(kept@),
                forall|j: int|
                    0 <= j < kept@.len() ==> taken_from(
                        before,
                        rows@.len() as int,
                        #[trigger] kept@[j],
                    ) && filter.accepts(kept@[j].1),
                forall|i: int|
                    rows@.len() <= i < before.len() ==> kept@.contains(#[trigger] before[i])
                        || !filter.accepts(before[i].1),
            decreases rows@.len(),
        {
            let row = rows.pop().unwrap();
            let ghost n = rows@.len() as int;
            let ghost kept_before = kept@;
            assert(row == before[n]);
            if filter.accept(&row.1) {
                kept.push(row);
                proof {
                    assert forall|a: int, b: int| 0 <= a < b < kept@.len() implies (
                    #[trigger] kept@[a]).0@ != (#[trigger] kept@[b]).0@ by {
                        if b == kept_before.len() {
                            assert(taken_from(before, n + 1, kept@[a]));
                        }
                    }
                    assert forall|j: int| 0 <= j < kept@.len() implies taken_from(
                        before,
                        n,
                        #[trigger] kept@[j],
                    ) && filter.accepts(kept@[j].1) by {
                        if j < kept_before.len() {
                            assert(kept@[j] == kept_before[j]);
                            assert(taken_from(before, n + 1, kept@[j]));
                            let i = choose|i: int|
                                n + 1 <= i < before.len() && #[trigger] before[i] == kept@[j];
                            assert(before[i] == kept@[j]);
                        } else {
                            assert(before[n] == kept@[j]);
                        }
                    }
                    assert forall|i: int| n <= i < before.len() implies kept@.contains(
                        #[trigger] before[i],
                    ) || !filter.accepts(before[i].1) by {
                        if i == n {
                            assert(kept@[kept_before.len() as int] == before[i]);
                        } else if kept_before.contains(before[i]) {
                            let j = choose|j: int|
                                0 <= j < kept_before.len() && kept_before[j] == before[i];
                            assert(kept@[j] == before[i]);
                        }
                    }
                }
            }
            assert(rows@ =~= before.take(n));
        }
        self.rows = kept;
        proof {
            lemma_rows(kept@);
            let expected = accepted(rows_map(before), *filter);
            assert forall|k: K::V| #[trigger] self@.contains_key(k) implies expected.contains_key(k)
                && self@[k] == expected[k] by {
                let j = choose|j: int| row_has(kept@, j, k);
                assert(taken_from(before, 0, kept@[j]));
            }
            assert forall|k: K::V| #[trigger]
                expected.contains_key(k) implies self@.contains_key(k) by {
                let i = choose|i: int| row_has(before, i, k);
                let j = choose|j: int| 0 <= j < kept@.len() && kept@[j] == before[i];
                assert(row_has(kept@, j, k));
            }
            assert(self@ =~= expected);
        }
    }

    fn add(&mut self, k: K, v: V)
        requires
            !old(self)@.contains_key(k@),
        ensures
            final(self)@ == old(self)@.insert(k@, v),
    {
        proof {
            use_type_invariant(&*self);
            lemma_rows(self.rows@);
        }
        let ghost before = self.rows@;
        let ghost key = k@;
        let mut rows: Vec<(K, V)> = Vec::new();
        std::mem::swap(&mut rows, &mut self.rows);
        rows.push((k, v));
        proof {
            assert(keys_differ(rows@)) by {
                assert forall|i: int, j: int| 0 <= i < j < rows@.len() implies (
                #[trigger] rows@[i]).0@ != (#[trigger] rows@[j]).0@ by {
                    if j == before.len() {
                        assert(!row_has(before, i, key));
                    }
                }
            }
            lemma_rows(rows@);
        }
        self.rows = rows;
        assert(self@ =~= rows_map(before).insert(key, v)) by {
            assert forall|x: K::V|
                rows_map(rows@).contains_key(x) <==> rows_map(before).insert(
                    key,
                    v,
                ).contains_key(x) by {
                if rows_map(rows@).contains_key(x) && x != key {
                    let i = choose|i: int| row_has(rows@, i, x);
                    assert(row_has(before, i, x));
                }
                if rows_map(before).contains_key(x) {
                    let i = choose|i: int| row_has(before, i, x);
                    assert(row_has(rows@, i, x));
                }
                assert(row_has(rows@, before.len() as int, key));
            }
            assert forall|x: K::V| rows_map(rows@).contains_key(x) implies rows_map(rows@)[x]
                == rows_map(before).insert(key, v)[x] by {
                let i = choose|i: int| row_has(rows@, i, x);
                if i < before.len() {
                    assert(rows@[i] == before[i]);
                }
            }
        }
    }
}

/// Whether `row` is one of `rows` from index `n` on.
spec fn taken_from<K: TableKey, V>(rows: Seq<(K, V)>, n: int, row: (K, V)) -> bool {
    exists|i: int| n <= i < rows.len() && #[trigger] rows[i] == row
}

proof fn lemma_without<K: TableKey, V>(rows: Seq<(K, V)>, i: int)
    requires
        keys_differ(rows),
        0 <= i < rows.len(),
    ensures
        keys_differ(rows.remove(i)),
        rows_map(rows.remove(i)) == rows_map(rows).remove(rows[i].0@),
{
    let rest = rows.remove(i);
    assert forall|a: int, b: int| 0 <= a < b < rest.len() implies (#[trigger] rest[a]).0@ != (
    #[trigger] rest[b]).0@ by {
        let x = if a < i { a } else { a + 1 };
        let y = if b < i { b } else { b + 1 };
        assert(rest[a] == rows[x]);
        assert(rest[b] == rows[y]);
    }
    lemma_rows(rows);
    lemma_rows(rest);
    let m = rows_map(rows).remove(rows[i].0@);
    assert forall|k: K::V| rows_map(rest).contains_key(k) <==> m.contains_key(k) by {
        if rows_map(rest).contains_key(k) {
            let a = choose|a: int| row_has(rest, a, k);
            let x = if a < i { a } else { a + 1 };
            assert(rest[a] == rows[x]);
            assert(row_has(rows, x, k));
            assert(rows[x].0@ != rows[i].0@);
        }
        if m.contains_key(k) {
            let x = choose|x: int| row_has(rows, x, k);
            let a = if x < i { x } else { x - 1 };
            assert(rest[a] == rows[x]);
            assert(row_has(rest, a, k));
        }
    }
    assert forall|k: K::V| rows_map(rest).contains_key(k) implies rows_map(rest)[k] == m[k] by {
        let a = choose|a: int| row_has(rest, a, k);
        let x = if a < i { a } else { a + 1 };
        assert(rest[a] == rows[x]);
    }
    assert(rows_map(rest) =~= m);
}

} // verus!
