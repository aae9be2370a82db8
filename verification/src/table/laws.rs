//! What holds of tables, call by call.

use vstd::prelude::*;

use super::{lemma_rows, row_has, RowFilter, Table, TableKey};

verus! {

/// What is put into a table under a key is found under it, in place of what was there, which is
/// handed out. What stands under other keys stays.
pub proof fn law_put_and_found<K: TableKey, V>(
    table: &mut Table<K, V>,
    k: K,
    v: V,
    replaced: Option<V>,
    asked: &Table<K, V>,
    query: &K::Query,
    r: Option<&V>,
    there: bool,
)
    requires
        call_ensures(Table::<K, V>::insert, (table, k, v), replaced),
        asked@ == final(table)@,
        call_ensures(Table::<K, V>::get, (asked, query), r),
        call_ensures(Table::<K, V>::contains_key, (asked, query), there),
    ensures
        there <==> r is Some,
        query@ == k@ ==> r is Some && *(r->0) == v,
        query@ != k@ ==> (r is Some <==> old(table)@.contains_key(query@)),
        query@ != k@ && r is Some ==> *(r->0) == old(table)@[query@],
        replaced is Some <==> old(table)@.contains_key(k@),
        replaced is Some ==> replaced->0 == old(table)@[k@],
{
}

/// What is taken out of a table is found no longer; the rest is.
pub proof fn law_taken_and_gone<K: TableKey, V>(
    table: &mut Table<K, V>,
    k: &K::Query,
    taken: Option<V>,
    asked: &Table<K, V>,
    query: &K::Query,
    r: Option<&V>,
)
    requires
        call_ensures(Table::<K, V>::remove, (table, k), taken),
        asked@ == final(table)@,
        call_ensures(Table::<K, V>::get, (asked, query), r),
    ensures
        query@ == k@ ==> r is None,
        query@ != k@ ==> (r is Some <==> old(table)@.contains_key(query@)),
        query@ != k@ && r is Some ==> *(r->0) == old(table)@[query@],
        taken is Some <==> old(table)@.contains_key(k@),
        taken is Some ==> taken->0 == old(table)@[k@],
{
}

/// A new table holds nothing.
pub proof fn law_new_tables<K: TableKey, V>(table: &Table<K, V>, query: &K::Query, r: Option<&V>)
    requires
        call_ensures(Table::<K, V>::new, (), *table),
        call_ensures(Table::<K, V>::get, (table, query), r),
    ensures
        r is None,
{
}

/// A filter keeps what it accepts, as it was, and nothing else.
pub proof fn law_what_is_accepted_stays<K: TableKey, V, F: RowFilter<V>>(
    table: &mut Table<K, V>,
    filter: &F,
    k: K::V,
)
    requires
        call_ensures(Table::<K, V>::retain::<F>, (table, filter), ()),
    ensures
        final(table)@.contains_key(k) <==> old(table)@.contains_key(k) && filter.accepts(
            old(table)@[k],
        ),
        final(table)@.contains_key(k) ==> final(table)@[k] == old(table)@[k],
{
}

/// The rows that are taken out are all there were: each key once, with its value. The table is
/// empty then, and its number of rows was theirs.
pub proof fn law_all_rows_are_taken<K: TableKey, V>(
    counted: &Table<K, V>,
    n: usize,
    table: &mut Table<K, V>,
    rows: Vec<(K, V)>,
    i: int,
    j: int,
    k: K::V,
)
    requires
        call_ensures(Table::<K, V>::len, (counted,), n),
        *counted == *old(table),
        call_ensures(Table::<K, V>::take_rows, (table,), rows),
    ensures
        n == old(table)@.len(),
        n == rows@.len(),
        !final(table)@.contains_key(k),
        0 <= i < rows@.len() ==> old(table)@.contains_key(rows@[i].0@) && old(
            table,
        )@[rows@[i].0@] == rows@[i].1,
        0 <= i < j < rows@.len() ==> rows@[i].0@ != rows@[j].0@,
        old(table)@.contains_key(k) ==> exists|at: int|
            0 <= at < rows@.len() && (#[trigger] rows@[at]).0@ == k,
{
    lemma_rows(rows@);
    if 0 <= i < rows@.len() {
        assert(row_has(rows@, i, rows@[i].0@));
    }
    if old(table)@.contains_key(k) {
        let at = choose|at: int| row_has(rows@, at, k);
        assert(rows@[at].0@ == k);
    }
}

/// Each row of a table is one of its keys with its value.
pub proof fn law_rows_are_told<K: TableKey, V>(table: &Table<K, V>, i: usize, r: (&K, &V))
    requires
        call_ensures(Table::<K, V>::row, (table, i), r),
    ensures
        table@.contains_key((*r.0)@),
        table@[(*r.0)@] == *r.1,
{
}

} // verus!
