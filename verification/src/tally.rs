//! What holds of the tallies and flags of a run, whatever rows it sees.

use vstd::prelude::*;
use crate::dictionary::{key_of, loaded, marked, Table};
use crate::hasher::text_key;
use crate::run::Run;
use crate::text::lowercase_of;

verus! {

/// The table after the rows with the hashes `rows` were looked up in order.
pub open spec fn after_rows(d: Table, rows: Seq<Seq<char>>) -> Table
    decreases rows.len(),
{
    if rows.len() == 0 {
        d
    } else {
        marked(after_rows(d, rows.drop_last()), rows.last())
    }
}

/// How many of `rows` are keys of the dictionary.
pub open spec fn hit_count(keys: Set<Seq<char>>, rows: Seq<Seq<char>>) -> nat
    decreases rows.len(),
{
    if rows.len() == 0 {
        0
    } else {
        hit_count(keys, rows.drop_last()) + if keys.contains(rows.last()) { 1nat } else { 0nat }
    }
}

/// How many of `rows` are no keys of the dictionary.
pub open spec fn miss_count(keys: Set<Seq<char>>, rows: Seq<Seq<char>>) -> nat
    decreases rows.len(),
{
    if rows.len() == 0 {
        0
    } else {
        miss_count(keys, rows.drop_last()) + if keys.contains(rows.last()) { 0nat } else { 1nat }
    }
}

/// A name filed under case folding is found again by the digest text of its
/// lowercase form, whatever case the name itself is written in, and the
/// lookup gives the name as it was written.
pub proof fn lemma_name_round_trip(d: Table, name: Seq<char>)
    ensures
        d.insert(key_of(name, true), (name, false)).contains_key(text_key(lowercase_of(name))),
        d.insert(key_of(name, true), (name, false))[text_key(lowercase_of(name))] == (name, false),
        marked(d.insert(key_of(name, true), (name, false)), text_key(lowercase_of(name)))[text_key(
            lowercase_of(name),
        )] == (name, true),
{
}

/// Every entry that a name list gives is filed under the key of its own
/// name, and starts unmatched: where case is folded, a row finds a name only
/// if its hash is the digest text of the lowercase form of that name.
pub proof fn lemma_loaded_entries(lines: Seq<String>, fold_case: bool, h: Seq<char>)
    requires
        loaded(lines, fold_case).contains_key(h),
    ensures
        h == key_of(loaded(lines, fold_case)[h].0, fold_case),
        !loaded(lines, fold_case)[h].1,
    decreases lines.len(),
{
    if lines.len() > 0 {
        let rest = loaded(lines.drop_last(), fold_case);
        if rest.contains_key(h) {
            lemma_loaded_entries(lines.drop_last(), fold_case, h);
        }
    }
}

/// One more row moves the counts as one lookup does: a hash that is a key
/// adds a hit, any other adds a miss, and the table is flagged accordingly.
pub proof fn lemma_row_step(d: Table, rows: Seq<Seq<char>>, h: Seq<char>)
    ensures
        after_rows(d, rows.push(h)) == marked(after_rows(d, rows), h),
        hit_count(d.dom(), rows.push(h)) == hit_count(d.dom(), rows) + if after_rows(
            d,
            rows,
        ).contains_key(h) { 1nat } else { 0nat },
        miss_count(d.dom(), rows.push(h)) == miss_count(d.dom(), rows) + if after_rows(
            d,
            rows,
        ).contains_key(h) { 0nat } else { 1nat },
{
    assert(rows.push(h).drop_last() =~= rows);
    lemma_lookups_keep_names(d, rows);
}

/// Lookups change flags only: the keys and the names stay, and a flag that
/// is set stays set.
pub proof fn lemma_lookups_keep_names(d: Table, rows: Seq<Seq<char>>)
    ensures
        after_rows(d, rows).dom() == d.dom(),
        forall|h: Seq<char>| d.contains_key(h) ==> (#[trigger] after_rows(d, rows)[h]).0 == d[h].0,
        forall|h: Seq<char>| d.contains_key(h) && d[h].1 ==> (#[trigger] after_rows(d, rows)[h]).1,
    decreases rows.len(),
{
    if rows.len() > 0 {
        lemma_lookups_keep_names(d, rows.drop_last());
        let mid = after_rows(d, rows.drop_last());
        assert(after_rows(d, rows).dom() =~= mid.dom());
        assert forall|h: Seq<char>| d.contains_key(h) implies (#[trigger] after_rows(d, rows)[h]).0
            == d[h].0 by {
            assert(mid[h].0 == d[h].0);
        }
        assert forall|h: Seq<char>| d.contains_key(h) && d[h].1 implies (#[trigger] after_rows(
            d,
            rows,
        )[h]).1 by {
            assert(mid[h].1);
        }
    }
}

/// A row resolves to the same base name whatever rows came before it, among
/// them rows whose payload could not be read: earlier lookups change flags,
/// never keys or names.
pub proof fn lemma_resolution_ignores_history(d: Table, rows: Seq<Seq<char>>, h: Seq<char>)
    ensures
        after_rows(d, rows).contains_key(h) == d.contains_key(h),
        d.contains_key(h) ==> after_rows(d, rows)[h].0 == d[h].0,
{
    lemma_lookups_keep_names(d, rows);
}

/// After a run, an entry that started unmatched is flagged if and only if
/// some row had its hash. So an entry is listed as unused exactly when no
/// row matched it, and none is both matched and unused.
pub proof fn lemma_flag_iff_seen(d: Table, rows: Seq<Seq<char>>, h: Seq<char>)
    requires
        d.contains_key(h),
        !d[h].1,
    ensures
        after_rows(d, rows).contains_key(h),
        after_rows(d, rows)[h].1 <==> rows.contains(h),
    decreases rows.len(),
{
    lemma_lookups_keep_names(d, rows);
    if rows.len() > 0 {
        let front = rows.drop_last();
        lemma_flag_iff_seen(d, front, h);
        lemma_lookups_keep_names(d, front);
        if rows.last() == h {
            assert(rows[rows.len() - 1] == h);
        } else {
            if front.contains(h) {
                let i = choose|i: int| 0 <= i < front.len() && front[i] == h;
                assert(rows[i] == h);
            }
            if rows.contains(h) {
                let i = choose|i: int| 0 <= i < rows.len() && rows[i] == h;
                assert(front[i] == h);
            }
        }
    }
}

/// Hits and misses partition the rows: each row is one or the other, so the
/// two counts add up to the number of rows, and neither exceeds it.
pub proof fn lemma_hits_misses_partition(keys: Set<Seq<char>>, rows: Seq<Seq<char>>)
    ensures
        hit_count(keys, rows) + miss_count(keys, rows) == rows.len(),
        hit_count(keys, rows) <= rows.len(),
    decreases rows.len(),
{
    if rows.len() > 0 {
        lemma_hits_misses_partition(keys, rows.drop_last());
    }
}

proof fn lemma_hits_without(keys: Set<Seq<char>>, rows: Seq<Seq<char>>, h: Seq<char>)
    requires
        !rows.contains(h),
    ensures
        hit_count(keys.remove(h), rows) == hit_count(keys, rows),
    decreases rows.len(),
{
    if rows.len() > 0 {
        let front = rows.drop_last();
        assert(rows[rows.len() - 1] != h);
        assert(!front.contains(h)) by {
            if front.contains(h) {
                let i = choose|i: int| 0 <= i < front.len() && front[i] == h;
                assert(rows[i] == h);
            }
        }
        lemma_hits_without(keys, front, h);
    }
}

/// Where no hash occurs in two rows, the hits are no more than the entries
/// of the dictionary.
pub proof fn lemma_hits_within_dictionary(keys: Set<Seq<char>>, rows: Seq<Seq<char>>)
    requires
        keys.finite(),
        rows.no_duplicates(),
    ensures
        hit_count(keys, rows) <= keys.len(),
    decreases rows.len(),
{
    if rows.len() > 0 {
        let front = rows.drop_last();
        let last = rows.last();
        assert(front.no_duplicates()) by {
            assert forall|i: int, j: int| 0 <= i < front.len() && 0 <= j < front.len() && i != j implies front[i]
                != front[j] by {
                assert(rows[i] != rows[j]);
            }
        }
        assert(!front.contains(last)) by {
            if front.contains(last) {
                let i = choose|i: int| 0 <= i < front.len() && front[i] == last;
                assert(rows[i] == rows[rows.len() - 1]);
            }
        }
        if keys.contains(last) {
            lemma_hits_without(keys, front, last);
            lemma_hits_within_dictionary(keys.remove(last), front);
        } else {
            lemma_hits_within_dictionary(keys, front);
        }
    }
}

/// What holds at every point of a run that started from a table `start`
/// with no entry flagged: hits and misses add up to the rows; an entry is
/// flagged in the table as it is now exactly when a row had its hash, so
/// it is either matched or unused, never both; and as long as no hash has
/// come twice, the hits are no more than the entries of the dictionary.
pub proof fn lemma_run_is_consistent(run: Run, start: Table, now: Table)
    requires
        run.follows(start, now),
        start.dom().finite(),
        forall|h: Seq<char>| start.contains_key(h) ==> !(#[trigger] start[h]).1,
    ensures
        run.hits + run.misses == run.rows,
        now.dom() == start.dom(),
        forall|h: Seq<char>| start.contains_key(h) ==> ((#[trigger] now[h]).1 <==> run.seen@.contains(h)),
        forall|h: Seq<char>| start.contains_key(h) ==> (#[trigger] now[h]).0 == start[h].0,
        run.seen@.no_duplicates() ==> run.hits <= start.dom().len(),
{
    let rows = run.seen@;
    lemma_hits_misses_partition(start.dom(), rows);
    lemma_lookups_keep_names(start, rows);
    assert forall|h: Seq<char>| start.contains_key(h) implies ((#[trigger] now[h]).1 <==> rows.contains(
        h,
    )) by {
        lemma_flag_iff_seen(start, rows, h);
    }
    if rows.no_duplicates() {
        lemma_hits_within_dictionary(start.dom(), rows);
    }
}

} // verus!
