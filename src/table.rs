//! A model of the `rates` table: its rows, and what the upsert and the delete
//! of the cache do to them.
use vstd::prelude::*;
use crate::db::StoredRowView;

verus! {

/// Two rows share the key of the table: source, destination and provider.
pub open spec fn same_key(x: StoredRowView, y: StoredRowView) -> bool {
    x.src == y.src && x.dst == y.dst && x.provider == y.provider
}

/// No two rows share a key.
pub open spec fn keys_distinct(rows: Seq<StoredRowView>) -> bool
    decreases rows.len(),
{
    rows.len() == 0 || (keys_distinct(rows.drop_last()) && forall|x: StoredRowView|
        rows.drop_last().contains(x) ==> !same_key(x, rows.last()))
}

/// What the cache keeps in the table: keys unique, no rate from a currency
/// to itself, and an expiry on every row.
pub open spec fn table_ok(rows: Seq<StoredRowView>) -> bool {
    &&& keys_distinct(rows)
    &&& forall|x: StoredRowView| rows.contains(x) ==> x.src != x.dst && x.cache_until is Some
}

/// `rows` without the row keyed `(src, dst, provider)`.
pub open spec fn without_key(rows: Seq<StoredRowView>, w: StoredRowView) -> Seq<StoredRowView>
    decreases rows.len(),
{
    if rows.len() == 0 {
        rows
    } else if same_key(rows.last(), w) {
        without_key(rows.drop_last(), w)
    } else {
        without_key(rows.drop_last(), w).push(rows.last())
    }
}

/// `rows` without the rows from `src` to `dst`, whatever their provider.
pub open spec fn without_pair(rows: Seq<StoredRowView>, src: Seq<char>, dst: Seq<char>) -> Seq<StoredRowView>
    decreases rows.len(),
{
    if rows.len() == 0 {
        rows
    } else if rows.last().src == src && rows.last().dst == dst {
        without_pair(rows.drop_last(), src, dst)
    } else {
        without_pair(rows.drop_last(), src, dst).push(rows.last())
    }
}

/// The table after `INSERT OR REPLACE` of `w`: the row with its key replaced.
pub open spec fn upserted(rows: Seq<StoredRowView>, w: StoredRowView) -> Seq<StoredRowView> {
    without_key(rows, w).push(w)
}

proof fn lemma_contains_push(s: Seq<StoredRowView>, v: StoredRowView)
    ensures
        forall|x: StoredRowView| s.push(v).contains(x) <==> (s.contains(x) || x == v),
{
    assert forall|x: StoredRowView| s.push(v).contains(x) <==> (s.contains(x) || x == v) by {
        if s.push(v).contains(x) {
            let k = choose|k: int| 0 <= k < s.push(v).len() && s.push(v)[k] == x;
            if k < s.len() {
                assert(s[k] == x);
            }
        }
        if s.contains(x) {
            let k = choose|k: int| 0 <= k < s.len() && s[k] == x;
            assert(s.push(v)[k] == x);
        }
        if x == v {
            assert(s.push(v)[s.len() as int] == x);
        }
    }
}

proof fn lemma_contains_last(s: Seq<StoredRowView>)
    requires
        s.len() > 0,
    ensures
        forall|x: StoredRowView| s.contains(x) <==> (s.drop_last().contains(x) || x == s.last()),
{
    assert(s == s.drop_last().push(s.last()));
    lemma_contains_push(s.drop_last(), s.last());
}

/// The rows left by `without_key`, and that it keeps keys distinct.
pub proof fn lemma_without_key(rows: Seq<StoredRowView>, w: StoredRowView)
    ensures
        forall|x: StoredRowView|
            without_key(rows, w).contains(x) <==> (rows.contains(x) && !same_key(x, w)),
        keys_distinct(rows) ==> keys_distinct(without_key(rows, w)),
        (forall|x: StoredRowView| rows.contains(x) ==> !same_key(x, w)) ==> without_key(rows, w) == rows,
    decreases rows.len(),
{
    if rows.len() > 0 {
        let init = rows.drop_last();
        lemma_without_key(init, w);
        lemma_contains_last(rows);
        lemma_contains_push(without_key(init, w), rows.last());
        assert(rows.contains(rows.last()));
        if !same_key(rows.last(), w) {
            let r = without_key(rows, w);
            assert(r.drop_last() == without_key(init, w));
            assert(r.last() == rows.last());
        }
        if forall|x: StoredRowView| rows.contains(x) ==> !same_key(x, w) {
            assert(rows == init.push(rows.last()));
        }
    }
}

/// The rows left by `without_pair`, and that it keeps keys distinct.
pub proof fn lemma_without_pair(rows: Seq<StoredRowView>, src: Seq<char>, dst: Seq<char>)
    ensures
        forall|x: StoredRowView|
            without_pair(rows, src, dst).contains(x) <==> (rows.contains(x) && !(x.src == src && x.dst == dst)),
        keys_distinct(rows) ==> keys_distinct(without_pair(rows, src, dst)),
        (forall|x: StoredRowView| rows.contains(x) ==> !(x.src == src && x.dst == dst))
            ==> without_pair(rows, src, dst) == rows,
    decreases rows.len(),
{
    if rows.len() > 0 {
        let init = rows.drop_last();
        lemma_without_pair(init, src, dst);
        lemma_contains_last(rows);
        lemma_contains_push(without_pair(init, src, dst), rows.last());
        let r = without_pair(rows, src, dst);
        assert forall|x: StoredRowView| r.contains(x) <==> (rows.contains(x) && !(x.src == src && x.dst == dst)) by {
            if rows.last().src == src && rows.last().dst == dst {
                assert(r == without_pair(init, src, dst));
            } else {
                assert(r == without_pair(init, src, dst).push(rows.last()));
            }
        }
        assert(rows.contains(rows.last()));
        if !(rows.last().src == src && rows.last().dst == dst) {
            let r = without_pair(rows, src, dst);
            assert(r.drop_last() == without_pair(init, src, dst));
            assert(r.last() == rows.last());
        }
        if forall|x: StoredRowView| rows.contains(x) ==> !(x.src == src && x.dst == dst) {
            assert forall|x: StoredRowView| init.contains(x) implies !(x.src == src && x.dst == dst) by {
                assert(rows.contains(x));
            }
            assert(!(rows.last().src == src && rows.last().dst == dst));
            assert(r == without_pair(init, src, dst).push(rows.last()));
            assert(rows == init.push(rows.last()));
        }
    }
}

/// Upserting a row with a distinct source and destination and an expiry keeps
/// the table as the cache keeps it, and leaves `w` the one row with its key.
pub proof fn lemma_upsert_keeps_table(rows: Seq<StoredRowView>, w: StoredRowView)
    requires
        table_ok(rows),
        w.src != w.dst,
        w.cache_until is Some,
    ensures
        table_ok(upserted(rows, w)),
        forall|x: StoredRowView| upserted(rows, w).contains(x) && same_key(x, w) ==> x == w,
        upserted(rows, w).contains(w),
{
    lemma_without_key(rows, w);
    lemma_contains_push(without_key(rows, w), w);
    let u = upserted(rows, w);
    assert forall|x: StoredRowView| u.contains(x) implies x.src != x.dst && x.cache_until is Some by {
        if x != w {
            assert(without_key(rows, w).contains(x));
            assert(rows.contains(x));
        }
    }
    assert(u.drop_last() == without_key(rows, w));
    assert(u.last() == w);
    assert(keys_distinct(u));
}

/// Deleting a pair keeps the table as the cache keeps it, and no row of the
/// pair is left.
pub proof fn lemma_delete_keeps_table(rows: Seq<StoredRowView>, src: Seq<char>, dst: Seq<char>)
    requires
        table_ok(rows),
    ensures
        table_ok(without_pair(rows, src, dst)),
        forall|x: StoredRowView| without_pair(rows, src, dst).contains(x) ==> !(x.src == src && x.dst == dst),
{
    lemma_without_pair(rows, src, dst);
    let r = without_pair(rows, src, dst);
    assert forall|x: StoredRowView| r.contains(x) implies x.src != x.dst && x.cache_until is Some
        && !(x.src == src && x.dst == dst) by {
        assert(rows.contains(x));
    }
}

/// Storing a rate, then deleting its pair, gives back the table as it was
/// when no row of that pair was stored.
pub proof fn lemma_upsert_then_delete(rows: Seq<StoredRowView>, w: StoredRowView)
    requires
        forall|x: StoredRowView| rows.contains(x) ==> !(x.src == w.src && x.dst == w.dst),
    ensures
        without_pair(upserted(rows, w), w.src, w.dst) == rows,
{
    lemma_without_key(rows, w);
    lemma_without_pair(rows, w.src, w.dst);
    let u = upserted(rows, w);
    assert(u.drop_last() == rows);
}

} // verus!
