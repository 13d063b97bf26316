//! Evaluation of a query over the index bitmaps, and the checks made on the
//! primary records that the evaluation picks.
use crate::bitmap::{
    ascending, bitmap_ids, bitmap_of, bitmap_wf, contains_id, empty_bitmap, insert_id, insert_up_to,
    intersect_with, remove_from, remove_up_to, to_vec, union_of, union_with,
};
use crate::codec::{decode_task, lemma_task_round_trip, roaring_decoded, task_bytes, RoaringBitmapCodec};
use crate::{Query, Status, StoreError, Task, TaskId, Type};
use roaring::RoaringBitmap;
use vstd::prelude::*;

verus! {

/// The ids a query starts from: the ids it names, or else every id from
/// zero up to the last one stored.
pub open spec fn seed(last: u32, q: Query) -> Set<u32> {
    match q.task_id {
        Some(ids) => ids@.to_set(),
        None => Set::new(|x: u32| x <= last),
    }
}

/// Whether `x` lies in the index set of one of `vals`.
pub open spec fn in_any<V>(vals: Seq<V>, idx: spec_fn(V) -> Set<u32>, x: u32) -> bool {
    exists|j: int| 0 <= j < vals.len() && #[trigger] idx(vals[j]).contains(x)
}

/// Whether `x` meets every filter of `q` but the list of ids, given the
/// index set of each status and of each type.
pub open spec fn admits(
    q: Query,
    by_status: spec_fn(Status) -> Set<u32>,
    by_type: spec_fn(Type) -> Set<u32>,
    x: u32,
) -> bool {
    &&& (q.statuses matches Some(ss) ==> in_any(ss@, by_status, x))
    &&& (q.types matches Some(ts) ==> in_any(ts@, by_type, x))
    &&& (q.after_id matches Some(a) ==> x > a)
    &&& (q.before_id matches Some(b) ==> x < b)
}

/// The ids that answer `q`, before pagination: those of the seed that an
/// index entry holds (the others have no task) and that meet the filters.
pub open spec fn candidates(
    last: u32,
    q: Query,
    by_status: spec_fn(Status) -> Set<u32>,
    by_type: spec_fn(Type) -> Set<u32>,
    ix: Set<u32>,
) -> Set<u32> {
    seed(last, q).filter(|x: u32| ix.contains(x) && admits(q, by_status, by_type, x))
}

/// The part of `all` that a page with this offset and limit shows.
pub open spec fn page_of(all: Seq<u32>, offset: usize, limit: usize) -> Seq<u32> {
    let start = if offset < all.len() { offset as int } else { all.len() as int };
    let end = if offset + limit < all.len() { offset + limit } else { all.len() as int };
    all.subrange(start, end)
}

/// The ids of the page that answers `q`, in ascending order; nothing where
/// the store holds no task (`last` is `None`).
pub open spec fn page_ids(
    last: Option<u32>,
    q: Query,
    by_status: spec_fn(Status) -> Set<u32>,
    by_type: spec_fn(Type) -> Set<u32>,
    ix: Set<u32>,
) -> Seq<u32> {
    match last {
        None => Seq::empty(),
        Some(l) => page_of(ascending(candidates(l, q, by_status, by_type, ix)), q.offset, q.limit),
    }
}

/// The index sets held by a table of status bitmaps, one per status code.
pub open spec fn status_sets(index: Seq<RoaringBitmap>) -> spec_fn(Status) -> Set<u32> {
    |s: Status| bitmap_ids(index[s.spec_code() as int])
}

/// The index sets held by a table of type bitmaps, one per type code.
pub open spec fn type_sets(index: Seq<RoaringBitmap>) -> spec_fn(Type) -> Set<u32> {
    |k: Type| bitmap_ids(index[k.spec_code() as int])
}

/// The part of `all` from `offset` on, at most `limit` long.
pub fn paginate(all: &Vec<TaskId>, offset: usize, limit: usize) -> (r: Vec<TaskId>)
    ensures
        r@ == page_of(all@, offset, limit),
{
    let mut r: Vec<TaskId> = Vec::new();
    if offset >= all.len() {
        proof {
            assert(r@ =~= page_of(all@, offset, limit));
        }
        return r;
    }
    let end: usize = if limit < all.len() - offset {
        offset + limit
    } else {
        all.len()
    };
    let mut i: usize = offset;
    while i < end
        invariant
            offset <= i <= end <= all@.len(),
            r@ == all@.subrange(offset as int, i as int),
        decreases end - i,
    {
        r.push(all[i]);
        proof {
            assert(all@.subrange(offset as int, i + 1) =~= all@.subrange(offset as int, i as int).push(all@[i as int]));
        }
        i = i + 1;
    }
    proof {
        assert(r@ =~= page_of(all@, offset, limit));
    }
    r
}

/// The positions `0..n`.
fn positions(n: usize) -> (r: Vec<usize>)
    ensures
        r@.len() == n,
        forall|j: int| 0 <= j < n ==> #[trigger] r@[j] == j,
{
    let mut r: Vec<usize> = Vec::new();
    let mut i: usize = 0;
    while i < n
        invariant
            i <= n,
            r@.len() == i,
            forall|j: int| 0 <= j < i ==> #[trigger] r@[j] == j,
        decreases n - i,
    {
        r.push(i);
        i = i + 1;
    }
    r
}

/// The codes of the given statuses.
fn status_codes(ss: &Vec<Status>) -> (r: Vec<usize>)
    ensures
        r@.len() == ss@.len(),
        forall|j: int| 0 <= j < ss@.len() ==> #[trigger] r@[j] == ss@[j].spec_code(),
{
    let mut r: Vec<usize> = Vec::new();
    let mut i: usize = 0;
    while i < ss.len()
        invariant
            i <= ss@.len(),
            r@.len() == i,
            forall|j: int| 0 <= j < i ==> #[trigger] r@[j] == ss@[j].spec_code(),
        decreases ss@.len() - i,
    {
        r.push(ss[i].code() as usize);
        i = i + 1;
    }
    r
}

/// The codes of the given types.
fn type_codes(ts: &Vec<Type>) -> (r: Vec<usize>)
    ensures
        r@.len() == ts@.len(),
        forall|j: int| 0 <= j < ts@.len() ==> #[trigger] r@[j] == ts@[j].spec_code(),
{
    let mut r: Vec<usize> = Vec::new();
    let mut i: usize = 0;
    while i < ts.len()
        invariant
            i <= ts@.len(),
            r@.len() == i,
            forall|j: int| 0 <= j < i ==> #[trigger] r@[j] == ts@[j].spec_code(),
        decreases ts@.len() - i,
    {
        r.push(ts[i].code() as usize);
        i = i + 1;
    }
    r
}

/// Picks the ids of the page that answers `q`. Nothing where the store is
/// empty (`last_id` is `None`). Otherwise: seeds the candidates with the ids
/// that `q` names, or with every id up to `last_id`; keeps those that an
/// index entry holds, as only those have a task; keeps those indexed under
/// one of the requested statuses and under one of the requested types;
/// drops those outside `after_id` and `before_id`; and cuts the page out of
/// the rest, in ascending order. `status_index` holds the bitmap of each
/// status by code, `type_index` that of each type.
pub fn select_ids(
    last_id: Option<TaskId>,
    q: &Query,
    status_index: &Vec<RoaringBitmap>,
    type_index: &Vec<RoaringBitmap>,
) -> (r: Vec<TaskId>)
    requires
        status_index@.len() == 4,
        type_index@.len() == 5,
        forall|i: int| 0 <= i < 4 ==> bitmap_wf(#[trigger] status_index@[i]),
        forall|i: int| 0 <= i < 5 ==> bitmap_wf(#[trigger] type_index@[i]),
    ensures
        r@ == page_ids(
            last_id,
            *q,
            status_sets(status_index@),
            type_sets(type_index@),
            indexed(status_index@, type_index@),
        ),
{
    let last_id = match last_id {
        None => return Vec::new(),
        Some(l) => l,
    };
    let ghost by_status = status_sets(status_index@);
    let ghost by_type = type_sets(type_index@);
    let ghost ix = indexed(status_index@, type_index@);
    let mut tasks = match &q.task_id {
        Some(ids) => bitmap_of(ids),
        None => {
            let mut b = empty_bitmap();
            insert_up_to(&mut b, last_id);
            b
        },
    };
    let ghost seeded = bitmap_ids(tasks);
    assert(seeded =~= seed(last_id, *q));

    let ps = positions(4);
    let pt = positions(5);
    let mut all = union_of(status_index, &ps);
    let all_types = union_of(type_index, &pt);
    let ghost all_s = bitmap_ids(all);
    union_with(&mut all, &all_types);
    proof {
        assert forall|x: u32| #[trigger] bitmap_ids(all).contains(x) == ix.contains(x) by {
            if exists|i: int| 0 <= i < 4 && #[trigger] bitmap_ids(status_index@[i]).contains(x) {
                let i = choose|i: int| 0 <= i < 4 && #[trigger] bitmap_ids(status_index@[i]).contains(x);
                assert(ps@[i] == i);
            }
            if exists|j: int| 0 <= j < 4 && #[trigger] bitmap_ids(status_index@[ps@[j] as int]).contains(x) {
                let j = choose|j: int| 0 <= j < 4 && #[trigger] bitmap_ids(status_index@[ps@[j] as int]).contains(x);
                assert(ps@[j] == j);
            }
            if exists|i: int| 0 <= i < 5 && #[trigger] bitmap_ids(type_index@[i]).contains(x) {
                let i = choose|i: int| 0 <= i < 5 && #[trigger] bitmap_ids(type_index@[i]).contains(x);
                assert(pt@[i] == i);
            }
            if exists|j: int| 0 <= j < 5 && #[trigger] bitmap_ids(type_index@[pt@[j] as int]).contains(x) {
                let j = choose|j: int| 0 <= j < 5 && #[trigger] bitmap_ids(type_index@[pt@[j] as int]).contains(x);
                assert(pt@[j] == j);
            }
        }
        assert(bitmap_ids(all) =~= ix);
    }
    intersect_with(&mut tasks, &all);

    if let Some(statuses) = &q.statuses {
        let codes = status_codes(statuses);
        let acc = union_of(status_index, &codes);
        assert forall|x: u32| bitmap_ids(acc).contains(x) <==> in_any(statuses@, by_status, x) by {
            if bitmap_ids(acc).contains(x) {
                let j = choose|j: int| 0 <= j < codes@.len() && #[trigger] bitmap_ids(status_index@[codes@[j] as int]).contains(x);
                assert(by_status(statuses@[j]).contains(x));
            }
            if in_any(statuses@, by_status, x) {
                let j = choose|j: int| 0 <= j < statuses@.len() && #[trigger] by_status(statuses@[j]).contains(x);
                assert(bitmap_ids(status_index@[codes@[j] as int]).contains(x));
            }
        }
        intersect_with(&mut tasks, &acc);
    }
    if let Some(types) = &q.types {
        let codes = type_codes(types);
        let acc = union_of(type_index, &codes);
        assert forall|x: u32| bitmap_ids(acc).contains(x) <==> in_any(types@, by_type, x) by {
            if bitmap_ids(acc).contains(x) {
                let j = choose|j: int| 0 <= j < codes@.len() && #[trigger] bitmap_ids(type_index@[codes@[j] as int]).contains(x);
                assert(by_type(types@[j]).contains(x));
            }
            if in_any(types@, by_type, x) {
                let j = choose|j: int| 0 <= j < types@.len() && #[trigger] by_type(types@[j]).contains(x);
                assert(bitmap_ids(type_index@[codes@[j] as int]).contains(x));
            }
        }
        intersect_with(&mut tasks, &acc);
    }
    if let Some(a) = q.after_id {
        remove_up_to(&mut tasks, a);
    }
    if let Some(b) = q.before_id {
        remove_from(&mut tasks, b);
    }
    assert(bitmap_ids(tasks) =~= candidates(last_id, *q, by_status, by_type, ix));
    let all_ids = to_vec(&tasks);
    paginate(&all_ids, q.offset, q.limit)
}

/// The ids that some index entry holds, in the status table or in the
/// type table.
pub open spec fn indexed(status_index: Seq<RoaringBitmap>, type_index: Seq<RoaringBitmap>) -> Set<u32> {
    Set::new(|x: u32|
        (exists|i: int| 0 <= i < status_index.len() && #[trigger] bitmap_ids(status_index[i]).contains(x))
        || (exists|i: int| 0 <= i < type_index.len() && #[trigger] bitmap_ids(type_index[i]).contains(x)))
}

/// Whether some bitmap of `index` holds `x`.
fn in_some(index: &Vec<RoaringBitmap>, x: TaskId) -> (r: bool)
    requires
        forall|i: int| 0 <= i < index@.len() ==> bitmap_wf(#[trigger] index@[i]),
    ensures
        r == exists|i: int| 0 <= i < index@.len() && #[trigger] bitmap_ids(index@[i]).contains(x),
{
    let mut i: usize = 0;
    while i < index.len()
        invariant
            i <= index@.len(),
            forall|j: int| 0 <= j < index@.len() ==> bitmap_wf(#[trigger] index@[j]),
            forall|j: int| 0 <= j < i ==> !(#[trigger] bitmap_ids(index@[j]).contains(x)),
        decreases index@.len() - i,
    {
        if contains_id(&index[i], x) {
            return true;
        }
        i = i + 1;
    }
    false
}

/// The task that a primary record holds, if it is well-formed.
pub open spec fn decoded(b: Seq<u8>) -> Option<Task> {
    if exists|t: Task| task_bytes(t) == b {
        Some(choose|t: Task| task_bytes(t) == b)
    } else {
        None
    }
}

/// The records read for a page, as byte sequences.
pub open spec fn found_view(found: Seq<Option<Vec<u8>>>) -> Seq<Option<Seq<u8>>> {
    found.map_values(|o: Option<Vec<u8>>|
        match o {
            Some(v) => Some(v@),
            None => None,
        })
}

/// The tasks of a page: `found[i]` is the primary record read for `ids[i]`.
/// A record that does not decode, or that holds another id, is corrupt. A
/// missing record is corrupt where an index entry holds the id (`indexed`),
/// for then the index and the primary table have diverged; otherwise the id
/// matches no task and is left out.
pub open spec fn materialized(ids: Seq<u32>, found: Seq<Option<Seq<u8>>>, indexed: Set<u32>) -> Result<
    Seq<Task>,
    StoreError,
>
    decreases ids.len(),
{
    if ids.len() == 0 {
        Ok(Seq::empty())
    } else {
        match materialized(ids.drop_last(), found.drop_last(), indexed) {
            Err(e) => Err(e),
            Ok(ts) => match found.last() {
                None => if indexed.contains(ids.last()) {
                    Err(StoreError::Corrupt)
                } else {
                    Ok(ts)
                },
                Some(b) => match decoded(b) {
                    Some(t) => if t.id == ids.last() {
                        Ok(ts.push(t))
                    } else {
                        Err(StoreError::Corrupt)
                    },
                    None => Err(StoreError::Corrupt),
                },
            },
        }
    }
}

proof fn lemma_failure_persists(ids: Seq<u32>, found: Seq<Option<Seq<u8>>>, indexed: Set<u32>, i: int)
    requires
        0 <= i <= ids.len(),
        found.len() == ids.len(),
        materialized(ids.take(i), found.take(i), indexed) == Err::<Seq<Task>, StoreError>(StoreError::Corrupt),
    ensures
        materialized(ids, found, indexed) == Err::<Seq<Task>, StoreError>(StoreError::Corrupt),
    decreases ids.len() - i,
{
    if i < ids.len() {
        assert(ids.take(i + 1).drop_last() =~= ids.take(i));
        assert(found.take(i + 1).drop_last() =~= found.take(i));
        lemma_failure_persists(ids, found, indexed, i + 1);
    } else {
        assert(ids.take(i) =~= ids);
        assert(found.take(i) =~= found);
    }
}

/// Turns the primary records read for the ids of a page into its tasks, or
/// reports the corruption that `materialized` describes; `status_index` and
/// `type_index` are the index tables the page was picked from.
pub fn materialize(
    ids: &Vec<TaskId>,
    found: &Vec<Option<Vec<u8>>>,
    status_index: &Vec<RoaringBitmap>,
    type_index: &Vec<RoaringBitmap>,
) -> (r: Result<Vec<Task>, StoreError>)
    requires
        ids@.len() == found@.len(),
        forall|i: int| 0 <= i < status_index@.len() ==> bitmap_wf(#[trigger] status_index@[i]),
        forall|i: int| 0 <= i < type_index@.len() ==> bitmap_wf(#[trigger] type_index@[i]),
    ensures
        r matches Ok(v) ==> materialized(ids@, found_view(found@), indexed(status_index@, type_index@))
            == Ok::<Seq<Task>, StoreError>(v@),
        r matches Err(e) ==> materialized(ids@, found_view(found@), indexed(status_index@, type_index@))
            == Err::<Seq<Task>, StoreError>(e),
{
    let ghost ix = indexed(status_index@, type_index@);
    let ghost fv = found_view(found@);
    let mut out: Vec<Task> = Vec::new();
    let mut i: usize = 0;
    assert(ids@.take(0) =~= Seq::<u32>::empty());
    while i < ids.len()
        invariant
            i <= ids@.len() == found@.len(),
            fv == found_view(found@),
            ix == indexed(status_index@, type_index@),
            forall|j: int| 0 <= j < status_index@.len() ==> bitmap_wf(#[trigger] status_index@[j]),
            forall|j: int| 0 <= j < type_index@.len() ==> bitmap_wf(#[trigger] type_index@[j]),
            materialized(ids@.take(i as int), fv.take(i as int), ix) == Ok::<Seq<Task>, StoreError>(out@),
        decreases ids@.len() - i,
    {
        let ghost prev = out@;
        proof {
            assert(ids@.take(i + 1).drop_last() =~= ids@.take(i as int));
            assert(fv.take(i + 1).drop_last() =~= fv.take(i as int));
            assert(fv.take(i + 1).last() == fv[i as int]);
        }
        match &found[i] {
            None => {
                if in_some(status_index, ids[i]) || in_some(type_index, ids[i]) {
                    proof {
                        lemma_failure_persists(ids@, fv, ix, i + 1);
                    }
                    return Err(StoreError::Corrupt);
                }
            },
            Some(b) => {
                match decode_task(b.as_slice()) {
                    Ok(t) => {
                        proof {
                            lemma_task_round_trip(t);
                            assert(decoded(b@) == Some(t));
                        }
                        if t.id != ids[i] {
                            proof {
                                lemma_failure_persists(ids@, fv, ix, i + 1);
                            }
                            return Err(StoreError::Corrupt);
                        }
                        out.push(t);
                    },
                    Err(_) => {
                        proof {
                            assert(decoded(b@) is None);
                            lemma_failure_persists(ids@, fv, ix, i + 1);
                        }
                        return Err(StoreError::Corrupt);
                    },
                }
            },
        }
        i = i + 1;
    }
    proof {
        assert(ids@.take(ids@.len() as int) =~= ids@);
        assert(fv.take(ids@.len() as int) =~= fv);
    }
    Ok(out)
}

/// The new bytes of an index entry once `id` joins it: `existing` is what
/// the entry held, if anything. Bytes that are no bitmap are corrupt.
///
/// Entries only grow: an insert adds the id to the entries of the task's
/// status and type and removes it from none, so re-inserting an id under
/// another status leaves it in the entry of the earlier status too.
pub fn index_add(existing: &Option<Vec<u8>>, id: TaskId) -> (r: Result<Vec<u8>, StoreError>)
    ensures
        existing is None ==> (r matches Ok(v) ==> roaring_decoded(v@) == Some(
            Set::<u32>::empty().insert(id),
        )),
        existing matches Some(b) ==> match roaring_decoded(b@) {
            Some(s) => r matches Ok(v) ==> roaring_decoded(v@) == Some(s.insert(id)),
            None => r == Err::<Vec<u8>, StoreError>(StoreError::Corrupt),
        },
        r is Ok <==> (existing is None || roaring_decoded(existing->Some_0@) is Some),
{
    let mut ids = match existing {
        Some(b) => match RoaringBitmapCodec::bytes_decode(b.as_slice()) {
            Ok(m) => m,
            Err(e) => return Err(e),
        },
        None => empty_bitmap(),
    };
    insert_id(&mut ids, id);
    RoaringBitmapCodec::bytes_encode(&ids)
}

/// The set that an index entry holds: nothing where the entry is absent.
pub open spec fn entry_ids(entry: Option<Seq<u8>>) -> Option<Set<u32>> {
    match entry {
        None => Some(Set::empty()),
        Some(b) => roaring_decoded(b),
    }
}

/// Decodes the index entries read for a table, one per code; an absent
/// entry is an empty bitmap, and one that does not decode is corrupt.
pub fn decode_index(entries: &Vec<Option<Vec<u8>>>) -> (r: Result<Vec<RoaringBitmap>, StoreError>)
    ensures
        r is Ok <==> (forall|i: int| 0 <= i < entries@.len() ==> (#[trigger] entry_ids(found_view(entries@)[i])) is Some),
        r matches Ok(v) ==> v@.len() == entries@.len() && (forall|i: int| 0 <= i < entries@.len() ==>
            Some(bitmap_ids(#[trigger] v@[i])) == entry_ids(found_view(entries@)[i])) && (forall|i: int|
            0 <= i < entries@.len() ==> bitmap_wf(#[trigger] v@[i])),
        r matches Err(e) ==> e == StoreError::Corrupt,
{
    let ghost fv = found_view(entries@);
    let mut out: Vec<RoaringBitmap> = Vec::new();
    let mut i: usize = 0;
    while i < entries.len()
        invariant
            i <= entries@.len(),
            fv == found_view(entries@),
            out@.len() == i,
            forall|j: int| 0 <= j < i ==> (#[trigger] entry_ids(fv[j])) is Some,
            forall|j: int| 0 <= j < i ==> Some(bitmap_ids(#[trigger] out@[j])) == entry_ids(fv[j]),
            forall|j: int| 0 <= j < i ==> bitmap_wf(#[trigger] out@[j]),
        decreases entries@.len() - i,
    {
        let b = match &entries[i] {
            None => empty_bitmap(),
            Some(bytes) => match RoaringBitmapCodec::bytes_decode(bytes.as_slice()) {
                Ok(b) => b,
                Err(e) => {
                    assert(entry_ids(fv[i as int]) is None);
                    return Err(e);
                },
            },
        };
        out.push(b);
        i = i + 1;
    }
    Ok(out)
}

} // verus!
