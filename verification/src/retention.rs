//! Retention: which backups go when only the most recent are kept.

use vstd::prelude::*;
use vstd::relations::{sorted_by, total_ordering};
use vstd::seq_lib::{lemma_sorted_unique, to_multiset_build, to_multiset_insert};
use crate::backup::{Backup, Id, Timestamp};
use crate::database::{
    has_id, ids_increasing, ledger_ok, lemma_without_present, without_id, BackupTable,
};

verus! {

/// What a backup is ranked by: its time of creation, then its id.
pub type RecencyKey = (Timestamp, Id);

/// `a` is `b`, or more recent than `b`: later, or of the same instant under
/// a higher id.
pub open spec fn at_least_as_recent(a: RecencyKey, b: RecencyKey) -> bool {
    b.0.before(a.0) || (a.0 == b.0 && a.1 >= b.1)
}

/// The order in which backups are ranked, most recent first.
pub open spec fn recency_order() -> spec_fn(RecencyKey, RecencyKey) -> bool {
    |a: RecencyKey, b: RecencyKey| at_least_as_recent(a, b)
}

/// The key of each row, in the rows' order.
pub open spec fn keys_of(rows: Seq<Backup>) -> Seq<RecencyKey> {
    rows.map_values(|b: Backup| (b.timestamp, b.id))
}

/// The keys of the rows, most recent first.
pub open spec fn by_recency(rows: Seq<Backup>) -> Seq<RecencyKey> {
    keys_of(rows).sort_by(recency_order())
}

/// The ids of the backups that go when the `count` most recent are kept,
/// the most recent of them first.
pub open spec fn candidates(rows: Seq<Backup>, count: nat) -> Seq<Id> {
    if count >= rows.len() {
        Seq::empty()
    } else {
        by_recency(rows).skip(count as int).map_values(|k: RecencyKey| k.1)
    }
}

/// Ranking by recency is a total order on keys.
pub proof fn lemma_recency_order_total()
    ensures
        total_ordering(recency_order()),
{
    let r = recency_order();
    assert forall|x: RecencyKey, y: RecencyKey| #[trigger] r(x, y) && #[trigger] r(y, x) implies x
        == y by {
        assert(x.0.secs == y.0.secs && x.0.nanos == y.0.nanos && x.1 == y.1);
    }
    assert forall|x: RecencyKey, y: RecencyKey| #[trigger] r(x, y) || #[trigger] r(y, x) by {
        if x.0.secs == y.0.secs && x.0.nanos == y.0.nanos {
            assert(x.0 == y.0);
        }
    }
}

/// `by_recency` is the one arrangement of the keys that puts the most recent
/// first.
pub proof fn lemma_by_recency(rows: Seq<Backup>)
    ensures
        by_recency(rows).len() == rows.len(),
        by_recency(rows).to_multiset() =~= keys_of(rows).to_multiset(),
        sorted_by(by_recency(rows), recency_order()),
{
    lemma_recency_order_total();
    keys_of(rows).lemma_sort_by_ensures(recency_order());
    vstd::seq_lib::to_multiset_len(by_recency(rows));
    vstd::seq_lib::to_multiset_len(keys_of(rows));
}

/// The backups, most recent first.
pub fn sort_by_recency(backups: &Vec<Backup>) -> (sorted: Vec<Backup>)
    ensures
        keys_of(sorted@) == by_recency(backups@),
        sorted@.to_multiset() == backups@.to_multiset(),
        sorted@.len() == backups@.len(),
{
    let mut sorted: Vec<Backup> = Vec::new();
    let mut i: usize = 0;
    assert(backups@.take(0) =~= sorted@);
    assert(keys_of(backups@.take(0)) =~= keys_of(sorted@));
    while i < backups.len()
        invariant
            i <= backups.len(),
            sorted@.len() == i,
            sorted_by(keys_of(sorted@), recency_order()),
            keys_of(sorted@).to_multiset() == keys_of(backups@.take(i as int)).to_multiset(),
            sorted@.to_multiset() == backups@.take(i as int).to_multiset(),
        decreases backups.len() - i,
    {
        let b = backups[i].duplicate();
        let mut p: usize = 0;
        while p < sorted.len() && !b.is_newer_than(&sorted[p])
            invariant
                p <= sorted.len(),
                forall|q: int|
                    0 <= q < p ==> at_least_as_recent(
                        #[trigger] keys_of(sorted@)[q],
                        (b.timestamp, b.id),
                    ),
            decreases sorted.len() - p,
        {
            p += 1;
        }
        proof {
            let before = keys_of(sorted@);
            let key = (b.timestamp, b.id);
            let after = before.insert(p as int, key);
            assert(keys_of(sorted@.insert(p as int, b)) =~= after);
            assert forall|x: int, y: int| 0 <= x < y < after.len() implies at_least_as_recent(
                after[x],
                after[y],
            ) by {
                if y < p {
                    assert(recency_order()(before[x], before[y]));
                } else if y == p {
                } else if x == p {
                    assert(b.newer_than(sorted@[p as int]));
                    if y - 1 > p {
                        assert(recency_order()(before[p as int], before[y - 1]));
                    }
                } else if x < p {
                    assert(recency_order()(before[x], before[y - 1]));
                } else {
                    assert(recency_order()(before[x - 1], before[y - 1]));
                }
            }
            assert(sorted_by(after, recency_order())) by {
                assert forall|x: int, y: int| 0 <= x < y < after.len() implies #[trigger] recency_order()(
                    after[x],
                    after[y],
                ) by {
                    assert(at_least_as_recent(after[x], after[y]));
                }
            }
            let seen = backups@.take(i as int);
            assert(backups@.take(i + 1) =~= seen.push(backups@[i as int]));
            assert(keys_of(backups@.take(i + 1)) =~= keys_of(seen).push(key));
            to_multiset_insert(before, p as int, key);
            to_multiset_build(keys_of(seen), key);
            to_multiset_insert(sorted@, p as int, b);
            to_multiset_build(seen, b);
        }
        sorted.insert(p, b);
        i += 1;
    }
    proof {
        assert(backups@.take(i as int) =~= backups@);
        lemma_by_recency(backups@);
        lemma_recency_order_total();
        lemma_sorted_unique(keys_of(sorted@), by_recency(backups@), recency_order());
    }
    sorted
}

/// The ids of the backups to delete so that only the `count` most recent
/// are left, the most recent of them first.
pub fn retention_candidates(backups: &Vec<Backup>, count: usize) -> (ids: Vec<Id>)
    ensures
        ids@ == candidates(backups@, count as nat),
{
    let mut ids: Vec<Id> = Vec::new();
    if count >= backups.len() {
        return ids;
    }
    let sorted = sort_by_recency(backups);
    let mut i: usize = count;
    while i < sorted.len()
        invariant
            count <= i <= sorted.len(),
            sorted@.len() == backups@.len(),
            keys_of(sorted@) == by_recency(backups@),
            ids@ == keys_of(sorted@).subrange(count as int, i as int).map_values(
                |k: RecencyKey| k.1,
            ),
        decreases sorted.len() - i,
    {
        ids.push(sorted[i].id);
        assert(keys_of(sorted@).subrange(count as int, i + 1).map_values(|k: RecencyKey| k.1)
            =~= keys_of(sorted@).subrange(count as int, i as int).map_values(
            |k: RecencyKey| k.1,
        ).push(sorted@[i as int].id));
        i += 1;
    }
    assert(keys_of(sorted@).subrange(count as int, i as int) =~= by_recency(backups@).skip(
        count as int,
    ));
    ids
}

/// The rows whose ids are not among `ids`, in their order.
pub open spec fn without_ids(rows: Seq<Backup>, ids: Seq<Id>) -> Seq<Backup> {
    rows.filter(|b: Backup| !ids.contains(b.id))
}

/// What a retention run found and did.
#[derive(Clone, Debug, PartialEq, Eq)]
pub enum Retention {
    /// The profile had no backups at all.
    NoBackups,
    /// There were backups, and none beyond those to keep.
    NothingToDelete,
    /// These backups were removed from the ledger, the most recent first.
    Deleted(Vec<Id>),
}

/// Removes from the ledger all but the `count` most recent backups, one
/// removal for each id, and says which ids went.
pub fn retain_backups(table: &mut BackupTable, count: usize) -> (r: Retention)
    requires
        old(table).wf(),
    ensures
        final(table).wf(),
        final(table).profile_name() == old(table).profile_name(),
        final(table).last() == old(table).last(),
        final(table)@ == without_ids(old(table)@, candidates(old(table)@, count as nat)),
        match r {
            Retention::NoBackups => old(table)@.len() == 0,
            Retention::NothingToDelete => old(table)@.len() > 0 && candidates(
                old(table)@,
                count as nat,
            ).len() == 0,
            Retention::Deleted(ids) => ids@.len() > 0 && ids@ == candidates(
                old(table)@,
                count as nat,
            ),
        },
{
    let all = table.select_all();
    let ids = retention_candidates(&all, count);
    proof {
        lemma_without_none(table@);
    }
    if all.len() == 0 {
        return Retention::NoBackups;
    }
    if ids.len() == 0 {
        assert(ids@ =~= Seq::<Id>::empty());
        return Retention::NothingToDelete;
    }
    let mut j: usize = 0;
    assert(ids@.take(0) =~= Seq::<Id>::empty());
    while j < ids.len()
        invariant
            j <= ids.len(),
            table.wf(),
            table.profile_name() == old(table).profile_name(),
            table.last() == old(table).last(),
            table@ == without_ids(old(table)@, ids@.take(j as int)),
        decreases ids.len() - j,
    {
        proof {
            lemma_without_step(old(table)@, ids@.take(j as int), ids@[j as int]);
            assert(ids@.take(j + 1) =~= ids@.take(j as int).push(ids@[j as int]));
        }
        let _ = table.remove(ids[j]);
        j += 1;
    }
    assert(ids@.take(j as int) =~= ids@);
    Retention::Deleted(ids)
}

/// Leaving out no id leaves every row.
pub proof fn lemma_without_none(rows: Seq<Backup>)
    ensures
        without_ids(rows, Seq::<Id>::empty()) =~= rows,
    decreases rows.len(),
{
    reveal(Seq::filter);
    if rows.len() > 0 {
        lemma_without_none(rows.drop_last());
        assert(rows =~= rows.drop_last().push(rows.last()));
    }
}

/// Leaving out some ids and then one more is leaving out all of them at
/// once.
pub proof fn lemma_without_step(rows: Seq<Backup>, ids: Seq<Id>, id: Id)
    ensures
        without_id(without_ids(rows, ids), id) =~= without_ids(rows, ids.push(id)),
    decreases rows.len(),
{
    reveal(Seq::filter);
    let more = ids.push(id);
    if rows.len() > 0 {
        let front = rows.drop_last();
        let last = rows.last();
        lemma_without_step(front, ids, id);
        let kept = without_ids(front, ids);
        assert(more[ids.len() as int] == id);
        assert forall|x: Id| ids.contains(x) implies more.contains(x) by {
            let k = choose|k: int| 0 <= k < ids.len() && ids[k] == x;
            assert(more[k] == x);
        }
        if ids.contains(last.id) {
        } else {
            assert(kept.push(last).drop_last() =~= kept);
            assert(kept.push(last).last() == last);
            if last.id != id {
                assert(!more.contains(last.id)) by {
                    if more.contains(last.id) {
                        let k = choose|k: int| 0 <= k < more.len() && more[k] == last.id;
                        assert(ids[k] == last.id);
                    }
                }
            }
        }
    } else {
        assert(without_ids(rows, ids) =~= rows);
    }
}

/// Leaving out ids that the rows hold, each once, shortens the rows by as
/// many, and leaves their ids rising.
pub proof fn lemma_without_ids_len(rows: Seq<Backup>, ids: Seq<Id>)
    requires
        ids_increasing(rows),
        ids.no_duplicates(),
        forall|j: int| 0 <= j < ids.len() ==> has_id(rows, #[trigger] ids[j]),
    ensures
        without_ids(rows, ids).len() == rows.len() - ids.len(),
        ids_increasing(without_ids(rows, ids)),
    decreases ids.len(),
{
    if ids.len() == 0 {
        assert(ids =~= Seq::<Id>::empty());
        lemma_without_none(rows);
    } else {
        let fewer = ids.drop_last();
        let id = ids.last();
        assert(ids =~= fewer.push(id));
        assert forall|j: int| 0 <= j < fewer.len() implies has_id(rows, #[trigger] fewer[j]) by {
            assert(fewer[j] == ids[j]);
        }
        lemma_without_ids_len(rows, fewer);
        let kept = without_ids(rows, fewer);
        lemma_without_step(rows, fewer, id);
        assert(has_id(rows, ids[ids.len() - 1]));
        let p = choose|p: int| 0 <= p < rows.len() && rows[p].id == id;
        assert(!fewer.contains(id)) by {
            if fewer.contains(id) {
                let k = choose|k: int| 0 <= k < fewer.len() && fewer[k] == id;
                assert(ids[k] == ids[ids.len() - 1]);
            }
        }
        rows.lemma_filter_contains(|b: Backup| !fewer.contains(b.id), p);
        let q = choose|q: int| 0 <= q < kept.len() && kept[q] == rows[p];
        lemma_without_present(kept, q);
        let rest = kept.remove(q);
        assert forall|x: int, y: int| 0 <= x < y < rest.len() implies rest[x].id < rest[y].id by {
            let x0 = if x < q { x } else { x + 1 };
            let y0 = if y < q { y } else { y + 1 };
            assert(rest[x] == kept[x0] && rest[y] == kept[y0]);
        }
    }
}

/// The candidates are ids of the rows, each named once.
pub proof fn lemma_candidates_distinct(rows: Seq<Backup>, count: nat)
    requires
        ids_increasing(rows),
    ensures
        candidates(rows, count).no_duplicates(),
        forall|j: int|
            0 <= j < candidates(rows, count).len() ==> has_id(
                rows,
                #[trigger] candidates(rows, count)[j],
            ),
        count < rows.len() ==> candidates(rows, count).len() == rows.len() - count,
{
    let del = candidates(rows, count);
    if count < rows.len() {
        let keys = keys_of(rows);
        let ranked = by_recency(rows);
        lemma_by_recency(rows);
        assert forall|j: int| 0 <= j < del.len() implies has_id(rows, #[trigger] del[j]) by {
            let m = lemma_ranked_is_row(rows, count + j);
            assert(rows[m].id == del[j]);
        }
        assert forall|i: int, j: int| 0 <= i < del.len() && 0 <= j < del.len() && i != j implies del[i]
            != del[j] by {
            let a = lemma_ranked_is_row(rows, count + i);
            let b = lemma_ranked_is_row(rows, count + j);
            lemma_ranked_distinct(rows);
            if del[i] == del[j] {
                assert(rows[a].id == rows[b].id);
                assert(a == b);
                assert(ranked[count + i] == ranked[count + j]);
            }
        }
    }
}

/// Every ranked key is the key of some row.
proof fn lemma_ranked_is_row(rows: Seq<Backup>, i: int) -> (m: int)
    requires
        0 <= i < rows.len(),
    ensures
        0 <= m < rows.len(),
        by_recency(rows)[i] == (rows[m].timestamp, rows[m].id),
{
    lemma_by_recency(rows);
    let ranked = by_recency(rows);
    let keys = keys_of(rows);
    assert(ranked.contains(ranked[i]));
    vstd::seq_lib::to_multiset_contains(ranked, ranked[i]);
    vstd::seq_lib::to_multiset_contains(keys, ranked[i]);
    let m = choose|m: int| 0 <= m < keys.len() && keys[m] == ranked[i];
    m
}

/// Every row's key is ranked somewhere.
proof fn lemma_row_is_ranked(rows: Seq<Backup>, m: int) -> (i: int)
    requires
        0 <= m < rows.len(),
    ensures
        0 <= i < rows.len(),
        by_recency(rows)[i] == (rows[m].timestamp, rows[m].id),
{
    lemma_by_recency(rows);
    let ranked = by_recency(rows);
    let keys = keys_of(rows);
    assert(keys[m] == (rows[m].timestamp, rows[m].id));
    assert(keys.contains(keys[m]));
    vstd::seq_lib::to_multiset_contains(ranked, keys[m]);
    vstd::seq_lib::to_multiset_contains(keys, keys[m]);
    let i = choose|i: int| 0 <= i < ranked.len() && ranked[i] == keys[m];
    i
}

/// Where ids are unique, no key is ranked twice.
proof fn lemma_ranked_distinct(rows: Seq<Backup>)
    requires
        ids_increasing(rows),
    ensures
        by_recency(rows).no_duplicates(),
{
    lemma_by_recency(rows);
    let keys = keys_of(rows);
    assert(keys.no_duplicates()) by {
        assert forall|i: int, j: int| 0 <= i < keys.len() && 0 <= j < keys.len() && i != j implies keys[i]
            != keys[j] by {
            if i < j {
                assert(rows[i].id < rows[j].id);
            } else {
                assert(rows[j].id < rows[i].id);
            }
        }
    }
    keys.lemma_multiset_has_no_duplicates();
    by_recency(rows).lemma_multiset_has_no_duplicates_conv();
}

/// Keeping the `k` most recent of more than `k` backups removes all the
/// others and leaves exactly `k`, and every backup that is left is more
/// recent than every backup that went: created later, or at the same
/// instant under a higher id.
pub proof fn law_retain_keeps_most_recent(rows: Seq<Backup>, last_id: Id, k: nat)
    requires
        ledger_ok(rows, last_id),
        k < rows.len(),
    ensures
        candidates(rows, k).len() == rows.len() - k,
        without_ids(rows, candidates(rows, k)).len() == k,
        forall|b: Backup, d: Backup|
            #![trigger b.newer_than(d)]
            without_ids(rows, candidates(rows, k)).contains(b) && rows.contains(d) && candidates(
                rows,
                k,
            ).contains(d.id) ==> b.newer_than(d) && (b.timestamp != d.timestamp
                ==> d.timestamp.before(b.timestamp)),
{
    let del = candidates(rows, k);
    let kept = without_ids(rows, del);
    let ranked = by_recency(rows);
    lemma_candidates_distinct(rows, k);
    lemma_without_ids_len(rows, del);
    lemma_by_recency(rows);
    assert forall|b: Backup, d: Backup|
        #![trigger b.newer_than(d)]
        kept.contains(b) && rows.contains(d) && del.contains(d.id) implies b.newer_than(d) by {
        let q = choose|q: int| 0 <= q < kept.len() && kept[q] == b;
        rows.lemma_filter_pred(|x: Backup| !del.contains(x.id), q);
        rows.lemma_filter_contains_rev(|x: Backup| !del.contains(x.id), b);
        let m = choose|m: int| 0 <= m < rows.len() && rows[m] == b;
        let i = lemma_row_is_ranked(rows, m);
        if i >= k {
            assert(del[i - k] == b.id);
        }
        let m2 = choose|m2: int| 0 <= m2 < rows.len() && rows[m2] == d;
        let j = choose|j: int| 0 <= j < del.len() && del[j] == d.id;
        let m3 = lemma_ranked_is_row(rows, k + j);
        assert(rows[m3].id == rows[m2].id);
        assert(m3 == m2);
        assert(recency_order()(ranked[i], ranked[k + j]));
    }
}

/// Retaining a second time, with the same count, removes nothing more.
pub proof fn law_retain_idempotent(rows: Seq<Backup>, last_id: Id, k: nat)
    requires
        ledger_ok(rows, last_id),
    ensures
        candidates(without_ids(rows, candidates(rows, k)), k) =~= Seq::<Id>::empty(),
        without_ids(
            without_ids(rows, candidates(rows, k)),
            candidates(without_ids(rows, candidates(rows, k)), k),
        ) =~= without_ids(rows, candidates(rows, k)),
{
    let del = candidates(rows, k);
    let kept = without_ids(rows, del);
    if k < rows.len() {
        lemma_candidates_distinct(rows, k);
        lemma_without_ids_len(rows, del);
    } else {
        lemma_without_none(rows);
    }
    lemma_without_none(kept);
}

} // verus!
