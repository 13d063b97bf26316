//! What a store holds after a sequence of inserts, and the answer that a
//! query gets from it; the laws of the store are stated and proved here.
use crate::bitmap::{ascending, ascending_below, bitmap_ids};
use crate::codec::{lemma_task_round_trip, task_bytes};
use crate::query::{
    indexed, candidates, decoded, in_any, materialized, page_ids, status_sets, type_sets,
};
use crate::{Query, Status, StoreError, Task, Type, DEFAULT_QUERY_LIMIT};
use roaring::RoaringBitmap;
use vstd::prelude::*;

verus! {

/// The primary table after the inserts of `h`, in order: a later insert of
/// an id replaces the record.
pub open spec fn records(h: Seq<Task>) -> Map<u32, Task>
    decreases h.len(),
{
    if h.len() == 0 {
        Map::empty()
    } else {
        records(h.drop_last()).insert(h.last().id, h.last())
    }
}

/// The index entry of status `s` after the inserts of `h`: each insert adds
/// its id, and none removes one.
pub open spec fn status_ids(h: Seq<Task>, s: Status) -> Set<u32> {
    Set::new(|x: u32| exists|i: int| 0 <= i < h.len() && h[i].id == x && h[i].status == s)
}

/// The index entry of type `k` after the inserts of `h`.
pub open spec fn type_ids(h: Seq<Task>, k: Type) -> Set<u32> {
    Set::new(|x: u32| exists|i: int| 0 <= i < h.len() && h[i].id == x && h[i].kind == k)
}

/// The ids that the index entries hold after the inserts of `h`: every id
/// inserted.
pub open spec fn indexed_ids(h: Seq<Task>) -> Set<u32> {
    Set::new(|x: u32| exists|i: int| 0 <= i < h.len() && h[i].id == x)
}

/// The greatest id inserted, if any.
pub open spec fn last_id(h: Seq<Task>) -> Option<u32>
    decreases h.len(),
{
    if h.len() == 0 {
        None
    } else {
        match last_id(h.drop_last()) {
            None => Some(h.last().id),
            Some(m) => Some(
                if m < h.last().id {
                    h.last().id
                } else {
                    m
                },
            ),
        }
    }
}

/// The stored record of `id` after the inserts of `h`.
pub open spec fn record_bytes(h: Seq<Task>, id: u32) -> Option<Seq<u8>> {
    if records(h).contains_key(id) {
        Some(task_bytes(records(h)[id]))
    } else {
        None
    }
}

/// What `q` returns from a store into which the tasks of `h` were inserted:
/// nothing from an empty store; otherwise the page that `select_ids` picks
/// from the index entries, turned into tasks by `materialize`.
pub open spec fn answer(h: Seq<Task>, q: Query) -> Result<Seq<Task>, StoreError> {
    let ix = indexed_ids(h);
    let ids = page_ids(last_id(h), q, |s: Status| status_ids(h, s), |k: Type| type_ids(h, k), ix);
    materialized(ids, ids.map_values(|id: u32| record_bytes(h, id)), ix)
}

/// Whether the index tables `status_index` (one bitmap per status code) and
/// `type_index` (one per type code) hold the entries of the store into which
/// the tasks of `h` were inserted.
pub open spec fn tables_hold(h: Seq<Task>, status_index: Seq<RoaringBitmap>, type_index: Seq<RoaringBitmap>) -> bool {
    &&& status_index.len() == 4
    &&& type_index.len() == 5
    &&& forall|s: Status| bitmap_ids(#[trigger] status_index[s.spec_code() as int]) == status_ids(h, s)
    &&& forall|k: Type| bitmap_ids(#[trigger] type_index[k.spec_code() as int]) == type_ids(h, k)
}

/// What `materialize` returns after `select_ids`, given the last id and the
/// primary records of the store into which the tasks of `h` were inserted,
/// and the index tables `status_index` and `type_index`.
pub open spec fn evaluated(
    h: Seq<Task>,
    q: Query,
    status_index: Seq<RoaringBitmap>,
    type_index: Seq<RoaringBitmap>,
) -> Result<Seq<Task>, StoreError> {
    let ix = indexed(status_index, type_index);
    let ids = page_ids(last_id(h), q, status_sets(status_index), type_sets(type_index), ix);
    materialized(ids, ids.map_values(|id: u32| record_bytes(h, id)), ix)
}

/// An insert adds the task's id to the entries of its status and of its
/// type, and leaves every other entry as it was.
pub proof fn lemma_insert_extends_indexes(h: Seq<Task>, t: Task)
    ensures
        forall|s: Status| #[trigger]
            status_ids(h.push(t), s) == if s == t.status {
                status_ids(h, s).insert(t.id)
            } else {
                status_ids(h, s)
            },
        forall|k: Type| #[trigger]
            type_ids(h.push(t), k) == if k == t.kind {
                type_ids(h, k).insert(t.id)
            } else {
                type_ids(h, k)
            },
        records(h.push(t)) == records(h).insert(t.id, t),
{
    let h2 = h.push(t);
    assert(h2.drop_last() =~= h);
    assert forall|s: Status| #[trigger]
        status_ids(h2, s) == if s == t.status {
            status_ids(h, s).insert(t.id)
        } else {
            status_ids(h, s)
        } by {
        let rhs = if s == t.status {
            status_ids(h, s).insert(t.id)
        } else {
            status_ids(h, s)
        };
        assert forall|x: u32| status_ids(h2, s).contains(x) == rhs.contains(x) by {
            if status_ids(h2, s).contains(x) {
                let i = choose|i: int| 0 <= i < h2.len() && h2[i].id == x && h2[i].status == s;
                if i < h.len() {
                    assert(h[i] == h2[i]);
                }
            }
            if status_ids(h, s).contains(x) {
                let i = choose|i: int| 0 <= i < h.len() && h[i].id == x && h[i].status == s;
                assert(h[i] == h2[i]);
            }
            if s == t.status && x == t.id {
                assert(h2[h.len() as int] == t);
            }
        }
        assert(status_ids(h2, s) =~= rhs);
    }
    assert forall|k: Type| #[trigger]
        type_ids(h2, k) == if k == t.kind {
            type_ids(h, k).insert(t.id)
        } else {
            type_ids(h, k)
        } by {
        let rhs = if k == t.kind {
            type_ids(h, k).insert(t.id)
        } else {
            type_ids(h, k)
        };
        assert forall|x: u32| type_ids(h2, k).contains(x) == rhs.contains(x) by {
            if type_ids(h2, k).contains(x) {
                let i = choose|i: int| 0 <= i < h2.len() && h2[i].id == x && h2[i].kind == k;
                if i < h.len() {
                    assert(h[i] == h2[i]);
                }
            }
            if type_ids(h, k).contains(x) {
                let i = choose|i: int| 0 <= i < h.len() && h[i].id == x && h[i].kind == k;
                assert(h[i] == h2[i]);
            }
            if k == t.kind && x == t.id {
                assert(h2[h.len() as int] == t);
            }
        }
        assert(type_ids(h2, k) =~= rhs);
    }
}

/// A query on a store into which nothing was inserted returns an empty
/// list, whatever its filters and whatever the index tables hold.
pub proof fn lemma_empty_store_answers_nothing(
    q: Query,
    status_index: Seq<RoaringBitmap>,
    type_index: Seq<RoaringBitmap>,
)
    ensures
        evaluated(Seq::empty(), q, status_index, type_index) == Ok::<Seq<Task>, StoreError>(Seq::empty()),
{
}

proof fn lemma_ascending_singleton(x: u32, n: nat)
    requires
        n <= 0x1_0000_0000,
    ensures
        ascending_below(Set::empty().insert(x), n) == if x < n {
            seq![x]
        } else {
            Seq::<u32>::empty()
        },
    decreases n,
{
    if n > 0 {
        lemma_ascending_singleton(x, (n - 1) as nat);
        if x == n - 1 {
            assert(Seq::<u32>::empty().push(x) =~= seq![x]);
        } else {
            assert(((n - 1) as u32) as nat == n - 1);
            assert(!Set::empty().insert(x).contains((n - 1) as u32));
        }
    }
}

proof fn answer_finds_inserted(h: Seq<Task>, t: Task, q: Query)
    requires
        q.task_id matches Some(ids) && ids@ == seq![t.id],
        q.after_id is None,
        q.before_id is None,
        q.statuses is None,
        q.types is None,
        q.limit == DEFAULT_QUERY_LIMIT,
        q.offset == 0,
    ensures
        answer(h.push(t), q) == Ok::<Seq<Task>, StoreError>(seq![t]),
{
    let h2 = h.push(t);
    assert(h2.drop_last() =~= h);
    lemma_insert_extends_indexes(h, t);
    let last = last_id(h2)->Some_0;
    let by_s = |s: Status| status_ids(h2, s);
    let by_t = |k: Type| type_ids(h2, k);
    let c = candidates(last, q, by_s, by_t, indexed_ids(h2));
    assert(seq![t.id].to_set() =~= Set::empty().insert(t.id)) by {
        assert(seq![t.id][0] == t.id);
    }
    assert(h2[h.len() as int].id == t.id);
    assert(indexed_ids(h2).contains(t.id));
    assert(c =~= Set::empty().insert(t.id));
    lemma_ascending_singleton(t.id, 0x1_0000_0000);
    assert(ascending(c) == seq![t.id]);
    let ids = page_ids(Some(last), q, by_s, by_t, indexed_ids(h2));
    assert(ids =~= seq![t.id]);
    lemma_task_round_trip(t);
    assert(decoded(task_bytes(t)) == Some(t));
    let found = ids.map_values(|id: u32| record_bytes(h2, id));
    assert(found[0] == Some(task_bytes(t)));
    assert(ids.drop_last() =~= Seq::<u32>::empty());
    assert(materialized(ids.drop_last(), found.drop_last(), indexed_ids(h2)) == Ok::<Seq<Task>, StoreError>(Seq::empty()));
    assert(Seq::<Task>::empty().push(t) =~= seq![t]);
}

/// Where an entry of the index tables holds an id of the page and its
/// primary record is missing, `materialize` reports the page corrupt rather
/// than returning it without that id.
pub proof fn lemma_missing_record_is_corrupt(
    ids: Seq<u32>,
    found: Seq<Option<Seq<u8>>>,
    status_index: Seq<RoaringBitmap>,
    type_index: Seq<RoaringBitmap>,
    i: int,
)
    requires
        ids.len() == found.len(),
        0 <= i < ids.len(),
        found[i] is None,
        indexed(status_index, type_index).contains(ids[i]),
    ensures
        materialized(ids, found, indexed(status_index, type_index)) == Err::<Seq<Task>, StoreError>(
            StoreError::Corrupt,
        ),
{
    missing_record_is_corrupt(ids, found, indexed(status_index, type_index), i);
}

proof fn missing_record_is_corrupt(ids: Seq<u32>, found: Seq<Option<Seq<u8>>>, ix: Set<u32>, i: int)
    requires
        ids.len() == found.len(),
        0 <= i < ids.len(),
        found[i] is None,
        ix.contains(ids[i]),
    ensures
        materialized(ids, found, ix) == Err::<Seq<Task>, StoreError>(StoreError::Corrupt),
    decreases ids.len(),
{
    if i < ids.len() - 1 {
        missing_record_is_corrupt(ids.drop_last(), found.drop_last(), ix, i);
    } else {
        lemma_only_corruption(ids.drop_last(), found.drop_last(), ix);
    }
}

proof fn lemma_only_corruption(ids: Seq<u32>, found: Seq<Option<Seq<u8>>>, ix: Set<u32>)
    ensures
        materialized(ids, found, ix) is Err ==> materialized(ids, found, ix) == Err::<Seq<Task>, StoreError>(
            StoreError::Corrupt,
        ),
    decreases ids.len(),
{
    if ids.len() > 0 {
        lemma_only_corruption(ids.drop_last(), found.drop_last(), ix);
    }
}

proof fn lemma_last_is_max(h: Seq<Task>)
    requires
        h.len() > 0,
    ensures
        last_id(h) is Some,
        forall|i: int| 0 <= i < h.len() ==> h[i].id <= last_id(h)->Some_0,
    decreases h.len(),
{
    let p = h.drop_last();
    if p.len() > 0 {
        lemma_last_is_max(p);
        assert forall|i: int| 0 <= i < h.len() implies h[i].id <= last_id(h)->Some_0 by {
            if i < p.len() {
                assert(h[i] == p[i]);
            }
        }
    }
}

proof fn lemma_ascending_below_props(s: Set<u32>, n: nat)
    requires
        n <= 0x1_0000_0000,
    ensures
        forall|i: int, j: int|
            0 <= i < j < ascending_below(s, n).len() ==> ascending_below(s, n)[i]
                < ascending_below(s, n)[j],
        forall|i: int|
            0 <= i < ascending_below(s, n).len() ==> s.contains(#[trigger] ascending_below(s, n)[i])
                && ascending_below(s, n)[i] < n,
        forall|x: u32| s.contains(x) && x < n ==> ascending_below(s, n).contains(x),
    decreases n,
{
    if n > 0 {
        let m = (n - 1) as nat;
        lemma_ascending_below_props(s, m);
        let p = ascending_below(s, m);
        let a = ascending_below(s, n);
        assert((m as u32) as nat == m);
        if s.contains(m as u32) {
            assert(a == p.push(m as u32));
            assert forall|x: u32| s.contains(x) && x < n implies a.contains(x) by {
                if x < m {
                    let k = choose|k: int| 0 <= k < p.len() && p[k] == x;
                    assert(a[k] == x);
                } else {
                    assert(a[p.len() as int] == x);
                }
            }
        } else {
            assert forall|x: u32| s.contains(x) && x < n implies a.contains(x) by {
                assert(x != m as u32);
            }
        }
    }
}

proof fn lemma_records_of_distinct(h: Seq<Task>)
    requires
        forall|i: int, j: int| 0 <= i < j < h.len() ==> h[i].id != h[j].id,
    ensures
        forall|i: int| 0 <= i < h.len() ==> #[trigger] records(h).contains_key(h[i].id) && records(h)[h[i].id] == h[i],
        forall|x: u32| #[trigger] records(h).contains_key(x) ==> exists|i: int| 0 <= i < h.len() && h[i].id == x,
    decreases h.len(),
{
    if h.len() > 0 {
        let p = h.drop_last();
        assert forall|i: int, j: int| 0 <= i < j < p.len() implies p[i].id != p[j].id by {
            assert(p[i] == h[i]);
            assert(p[j] == h[j]);
        }
        lemma_records_of_distinct(p);
        assert(records(h) == records(p).insert(h.last().id, h.last()));
        assert forall|i: int| 0 <= i < h.len() implies #[trigger] records(h).contains_key(h[i].id) && records(h)[h[i].id] == h[i] by {
            if i < p.len() {
                assert(h[i] == p[i]);
                assert(h[i].id != h[h.len() - 1].id);
                assert(records(p).contains_key(p[i].id));
            }
        }
        assert forall|x: u32| #[trigger] records(h).contains_key(x) implies exists|i: int| 0 <= i < h.len() && h[i].id == x by {
            if x != h.last().id {
                assert(records(p).contains_key(x));
                let i = choose|i: int| 0 <= i < p.len() && p[i].id == x;
                assert(h[i] == p[i]);
            } else {
                assert(h[h.len() - 1].id == x);
            }
        }
    }
}

proof fn lemma_all_found(h: Seq<Task>, ids: Seq<u32>, ix: Set<u32>)
    requires
        forall|i: int| 0 <= i < ids.len() ==> #[trigger] records(h).contains_key(ids[i]) && records(h)[ids[i]].id == ids[i],
    ensures
        materialized(ids, ids.map_values(|id: u32| record_bytes(h, id)), ix) == Ok::<Seq<Task>, StoreError>(
            ids.map_values(|id: u32| records(h)[id]),
        ),
    decreases ids.len(),
{
    if ids.len() > 0 {
        let p = ids.drop_last();
        assert forall|i: int| 0 <= i < p.len() implies #[trigger] records(h).contains_key(p[i]) && records(h)[p[i]].id == p[i] by {
            assert(p[i] == ids[i]);
        }
        lemma_all_found(h, p, ix);
        assert(ids.map_values(|id: u32| record_bytes(h, id)).drop_last() =~= p.map_values(|id: u32| record_bytes(h, id)));
        let t = records(h)[ids.last()];
        assert(records(h).contains_key(ids[ids.len() - 1]));
        assert(ids.last() == ids[ids.len() - 1]);
        let f = ids.map_values(|id: u32| record_bytes(h, id));
        assert(f.last() == Some(task_bytes(t)));
        assert(t.id == ids.last());
        lemma_task_round_trip(t);
        assert(decoded(task_bytes(t)) == Some(t));
        assert(p.map_values(|id: u32| records(h)[id]).push(t) =~= ids.map_values(|id: u32| records(h)[id]));
    } else {
        assert(ids.map_values(|id: u32| records(h)[id]) =~= Seq::<Task>::empty());
    }
}

proof fn answer_lists_status(h: Seq<Task>, s: Status, q: Query)
    requires
        forall|i: int| 0 <= i < h.len() ==> h[i].status == s,
        forall|i: int, j: int| 0 <= i < j < h.len() ==> h[i].id != h[j].id,
        q.statuses matches Some(ss) && ss@ == seq![s],
        q.task_id is None,
        q.after_id is None,
        q.before_id is None,
        q.types is None,
        q.limit == h.len(),
        q.offset == 0,
    ensures
        answer(h, q) is Ok,
        answer(h, q)->Ok_0.len() == h.len(),
        forall|i: int, j: int|
            0 <= i < j < h.len() ==> answer(h, q)->Ok_0[i].id < answer(h, q)->Ok_0[j].id,
        forall|t: Task| answer(h, q)->Ok_0.contains(t) <==> h.contains(t),
{
    if h.len() == 0 {
        return;
    }
    lemma_last_is_max(h);
    lemma_records_of_distinct(h);
    let last = last_id(h)->Some_0;
    let by_s = |st: Status| status_ids(h, st);
    let by_t = |k: Type| type_ids(h, k);
    let hid = h.map_values(|t: Task| t.id);
    let c = candidates(last, q, by_s, by_t, indexed_ids(h));
    assert forall|x: u32| c.contains(x) <==> hid.to_set().contains(x) by {
        if hid.to_set().contains(x) {
            let i = choose|i: int| 0 <= i < hid.len() && hid[i] == x;
            assert(h[i].id == x);
            assert(indexed_ids(h).contains(x));
            assert(by_s(q.statuses->Some_0@[0]).contains(x));
        }
        if c.contains(x) {
            let ss = q.statuses->Some_0@;
            assert(in_any(ss, by_s, x));
            let j = choose|j: int| 0 <= j < ss.len() && #[trigger] by_s(ss[j]).contains(x);
            let i = choose|i: int| 0 <= i < h.len() && h[i].id == x && h[i].status == ss[j];
            assert(hid[i] == x);
        }
    }
    assert(c =~= hid.to_set());
    let a = ascending(c);
    lemma_ascending_below_props(c, 0x1_0000_0000);
    assert(a == ascending_below(c, 0x1_0000_0000));
    assert(a.no_duplicates());
    a.unique_seq_to_set();
    assert(a.to_set() =~= c) by {
        assert forall|x: u32| c.contains(x) implies a.to_set().contains(x) by {
            assert((x as nat) < 0x1_0000_0000);
        }
    }
    assert(hid.no_duplicates()) by {
        assert forall|i: int, j: int| 0 <= i < hid.len() && 0 <= j < hid.len() && i != j implies hid[i] != hid[j] by {
            if i < j {
            } else {
            }
        }
    }
    hid.unique_seq_to_set();
    let ids = page_ids(Some(last), q, by_s, by_t, indexed_ids(h));
    assert(ids =~= a);
    assert forall|i: int| 0 <= i < ids.len() implies #[trigger] records(h).contains_key(ids[i]) && records(h)[ids[i]].id == ids[i] by {
        let x = ids[i];
        assert(c.contains(a[i]));
        assert(hid.to_set().contains(x));
        let k = choose|k: int| 0 <= k < hid.len() && hid[k] == x;
        assert(h[k].id == x);
        assert(records(h).contains_key(h[k].id));
    }
    lemma_all_found(h, ids, indexed_ids(h));
    let r = ids.map_values(|id: u32| records(h)[id]);
    assert(answer(h, q) == Ok::<Seq<Task>, StoreError>(r));
    assert forall|i: int, j: int| 0 <= i < j < h.len() implies r[i].id < r[j].id by {
        assert(records(h).contains_key(ids[i]));
        assert(records(h).contains_key(ids[j]));
    }
    assert forall|t: Task| r.contains(t) <==> h.contains(t) by {
        if r.contains(t) {
            let i = choose|i: int| 0 <= i < r.len() && r[i] == t;
            let x = ids[i];
            assert(c.contains(a[i]));
            assert(hid.to_set().contains(x));
            let k = choose|k: int| 0 <= k < hid.len() && hid[k] == x;
            assert(h[k].id == x);
            assert(records(h).contains_key(h[k].id));
            assert(r[i] == records(h)[x]);
            assert(h[k] == t);
        }
        if h.contains(t) {
            let k = choose|k: int| 0 <= k < h.len() && h[k] == t;
            assert(hid[k] == t.id);
            assert(c.contains(t.id));
            assert(a.to_set().contains(t.id));
            let i = choose|i: int| 0 <= i < a.len() && a[i] == t.id;
            assert(ids[i] == t.id);
            assert(records(h).contains_key(h[k].id));
            assert(r[i] == t);
        }
    }
}

proof fn lemma_tables_give_answer(
    h: Seq<Task>,
    q: Query,
    status_index: Seq<RoaringBitmap>,
    type_index: Seq<RoaringBitmap>,
)
    requires
        tables_hold(h, status_index, type_index),
    ensures
        evaluated(h, q, status_index, type_index) == answer(h, q),
{
    assert forall|x: u32| indexed(status_index, type_index).contains(x) == indexed_ids(h).contains(x) by {
        if indexed_ids(h).contains(x) {
            let i = choose|i: int| 0 <= i < h.len() && h[i].id == x;
            let s = h[i].status;
            assert(status_ids(h, s).contains(x));
            assert(bitmap_ids(status_index[s.spec_code() as int]).contains(x));
        }
        if exists|j: int| 0 <= j < status_index.len() && #[trigger] bitmap_ids(status_index[j]).contains(x) {
            let j = choose|j: int| 0 <= j < status_index.len() && #[trigger] bitmap_ids(status_index[j]).contains(x);
            let s = if j == 0 {
                Status::Enqueued
            } else if j == 1 {
                Status::Processing
            } else if j == 2 {
                Status::Succeeded
            } else {
                Status::Failed
            };
            assert(s.spec_code() == j);
            assert(status_ids(h, s).contains(x));
        }
        if exists|j: int| 0 <= j < type_index.len() && #[trigger] bitmap_ids(type_index[j]).contains(x) {
            let j = choose|j: int| 0 <= j < type_index.len() && #[trigger] bitmap_ids(type_index[j]).contains(x);
            let k = if j == 0 {
                Type::IndexCreation
            } else if j == 1 {
                Type::IndexDeletion
            } else if j == 2 {
                Type::IndexSwap
            } else if j == 3 {
                Type::DocumentAddition
            } else {
                Type::DocumentDeletion
            };
            assert(k.spec_code() == j);
            assert(type_ids(h, k).contains(x));
        }
    }
    assert(indexed(status_index, type_index) =~= indexed_ids(h));
    assert(status_sets(status_index) =~= (|s: Status| status_ids(h, s)));
    assert(type_sets(type_index) =~= (|k: Type| type_ids(h, k)));
}

/// A task just inserted is found by a query on its id alone, with the
/// default page: the answer is that task and nothing else.
pub proof fn lemma_inserted_task_is_found(
    h: Seq<Task>,
    t: Task,
    q: Query,
    status_index: Seq<RoaringBitmap>,
    type_index: Seq<RoaringBitmap>,
)
    requires
        tables_hold(h.push(t), status_index, type_index),
        q.task_id matches Some(ids) && ids@ == seq![t.id],
        q.after_id is None,
        q.before_id is None,
        q.statuses is None,
        q.types is None,
        q.limit == DEFAULT_QUERY_LIMIT,
        q.offset == 0,
    ensures
        evaluated(h.push(t), q, status_index, type_index) == Ok::<Seq<Task>, StoreError>(seq![t]),
{
    answer_finds_inserted(h, t, q);
    lemma_tables_give_answer(h.push(t), q, status_index, type_index);
}

/// Tasks inserted with distinct ids and one status are all listed, each
/// once and in ascending order of id, by a query on that status whose page
/// is as long as their number.
pub proof fn lemma_status_query_lists_all(
    h: Seq<Task>,
    s: Status,
    q: Query,
    status_index: Seq<RoaringBitmap>,
    type_index: Seq<RoaringBitmap>,
)
    requires
        tables_hold(h, status_index, type_index),
        forall|i: int| 0 <= i < h.len() ==> h[i].status == s,
        forall|i: int, j: int| 0 <= i < j < h.len() ==> h[i].id != h[j].id,
        q.statuses matches Some(ss) && ss@ == seq![s],
        q.task_id is None,
        q.after_id is None,
        q.before_id is None,
        q.types is None,
        q.limit == h.len(),
        q.offset == 0,
    ensures
        evaluated(h, q, status_index, type_index) is Ok,
        evaluated(h, q, status_index, type_index)->Ok_0.len() == h.len(),
        forall|i: int, j: int|
            0 <= i < j < h.len() ==> evaluated(h, q, status_index, type_index)->Ok_0[i].id
                < evaluated(h, q, status_index, type_index)->Ok_0[j].id,
        forall|t: Task| evaluated(h, q, status_index, type_index)->Ok_0.contains(t) <==> h.contains(t),
{
    answer_lists_status(h, s, q);
    lemma_tables_give_answer(h, q, status_index, type_index);
}

} // verus!
