use std::collections::BTreeMap;

use ril::codec::{decode_task, encode_task, key_to_id, task_key, RoaringBitmapCodec};
use ril::query::{decode_index, index_add, materialize, paginate, select_ids};
use ril::sql::{push_decimal, select_statement};
use ril::{Query, Status, StoreError, Task, Type, DEFAULT_QUERY_LIMIT};
use roaring::RoaringBitmap;

/// The three tables of a store, held in memory, driven by the library's
/// steps the way the on-disk store drives them.
struct Tables {
    records: BTreeMap<Vec<u8>, Vec<u8>>,
    statuses: Vec<Option<Vec<u8>>>,
    types: Vec<Option<Vec<u8>>>,
}

impl Tables {
    fn new() -> Tables {
        Tables { records: BTreeMap::new(), statuses: vec![None; 4], types: vec![None; 5] }
    }

    fn insert(&mut self, t: Task) {
        self.records.insert(task_key(t.id), encode_task(&t));
        let s = t.status.code() as usize;
        self.statuses[s] = Some(index_add(&self.statuses[s], t.id).unwrap());
        let k = t.kind.code() as usize;
        self.types[k] = Some(index_add(&self.types[k], t.id).unwrap());
    }

    fn query(&self, q: &Query) -> Result<Vec<Task>, StoreError> {
        let last = match self.records.keys().last() {
            None => None,
            Some(k) => Some(key_to_id(k)?),
        };
        let si = decode_index(&self.statuses)?;
        let ti = decode_index(&self.types)?;
        let ids = select_ids(last, q, &si, &ti);
        let found: Vec<Option<Vec<u8>>> =
            ids.iter().map(|id| self.records.get(&task_key(*id)).cloned()).collect();
        materialize(&ids, &found, &si, &ti)
    }
}

fn task(id: u32, status: Status, kind: Type) -> Task {
    Task { id, status, kind }
}

fn ids_of(ts: &[Task]) -> Vec<u32> {
    ts.iter().map(|t| t.id).collect()
}

#[test]
fn inserted_task_is_found_by_its_id() {
    let mut db = Tables::new();
    db.insert(task(3, Status::Failed, Type::IndexSwap));
    let t = task(7, Status::Processing, Type::DocumentDeletion);
    db.insert(t);
    let mut q = Query::new();
    q.task_id = Some(vec![7]);
    assert_eq!(db.query(&q).unwrap(), vec![t]);
}

#[test]
fn status_query_lists_every_task_of_that_status() {
    let mut db = Tables::new();
    for id in [9u32, 2, 5, 0, 14] {
        db.insert(task(id, Status::Succeeded, Type::IndexCreation));
    }
    let mut q = Query::new();
    q.statuses = Some(vec![Status::Succeeded]);
    q.limit = 5;
    assert_eq!(ids_of(&db.query(&q).unwrap()), vec![0, 2, 5, 9, 14]);
}

#[test]
fn filters_are_conjunctive() {
    let mut db = Tables::new();
    let t1 = task(1, Status::Enqueued, Type::DocumentAddition);
    db.insert(t1);
    db.insert(task(2, Status::Enqueued, Type::IndexCreation));
    db.insert(task(3, Status::Failed, Type::DocumentAddition));
    let mut q = Query::new();
    q.statuses = Some(vec![Status::Enqueued]);
    q.types = Some(vec![Type::DocumentAddition]);
    assert_eq!(db.query(&q).unwrap(), vec![t1]);
}

#[test]
fn values_within_a_filter_are_disjunctive() {
    let mut db = Tables::new();
    db.insert(task(1, Status::Enqueued, Type::DocumentAddition));
    db.insert(task(2, Status::Processing, Type::IndexCreation));
    db.insert(task(3, Status::Failed, Type::DocumentAddition));
    let mut q = Query::new();
    q.statuses = Some(vec![Status::Failed, Status::Enqueued]);
    assert_eq!(ids_of(&db.query(&q).unwrap()), vec![1, 3]);
}

#[test]
fn range_filter_is_strict() {
    let mut db = Tables::new();
    for id in 1..=10u32 {
        db.insert(task(id, Status::Enqueued, Type::IndexCreation));
    }
    let mut q = Query::new();
    q.after_id = Some(3);
    q.before_id = Some(8);
    assert_eq!(ids_of(&db.query(&q).unwrap()), vec![4, 5, 6, 7]);
}

#[test]
fn pagination_takes_the_highest_page() {
    let mut db = Tables::new();
    for id in 0..20u32 {
        db.insert(task(id, Status::Enqueued, Type::IndexDeletion));
    }
    let mut q = Query::new();
    q.limit = 5;
    q.offset = 15;
    assert_eq!(ids_of(&db.query(&q).unwrap()), vec![15, 16, 17, 18, 19]);
    q.offset = 20;
    assert_eq!(db.query(&q).unwrap(), vec![]);
}

#[test]
fn pagination_counts_stored_tasks_only() {
    let mut db = Tables::new();
    for id in 1..=20u32 {
        db.insert(task(id, Status::Enqueued, Type::DocumentAddition));
    }
    let mut q = Query::new();
    q.limit = 5;
    q.offset = 15;
    assert_eq!(ids_of(&db.query(&q).unwrap()), vec![16, 17, 18, 19, 20]);
    q.offset = 20;
    assert_eq!(db.query(&q).unwrap(), vec![]);
    q.offset = 0;
    q.limit = 20;
    assert_eq!(ids_of(&db.query(&q).unwrap()), (1..=20).collect::<Vec<u32>>());
}

#[test]
fn empty_store_answers_nothing() {
    let db = Tables::new();
    let mut q = Query::new();
    assert_eq!(db.query(&q).unwrap(), vec![]);
    q.statuses = Some(vec![Status::Failed]);
    q.task_id = Some(vec![1, 2]);
    q.after_id = Some(0);
    assert_eq!(db.query(&q).unwrap(), vec![]);
}

#[test]
fn missing_primary_record_is_corrupt() {
    let mut db = Tables::new();
    db.insert(task(1, Status::Enqueued, Type::IndexSwap));
    db.insert(task(2, Status::Enqueued, Type::IndexSwap));
    db.records.remove(&task_key(1));
    let mut q = Query::new();
    q.statuses = Some(vec![Status::Enqueued]);
    assert_eq!(db.query(&q), Err(StoreError::Corrupt));
    let mut q = Query::new();
    q.types = Some(vec![Type::IndexSwap]);
    assert_eq!(db.query(&q), Err(StoreError::Corrupt));
    assert_eq!(db.query(&Query::new()), Err(StoreError::Corrupt));
    let mut q = Query::new();
    q.task_id = Some(vec![1]);
    assert_eq!(db.query(&q), Err(StoreError::Corrupt));
    let mut q = Query::new();
    q.after_id = Some(1);
    assert_eq!(ids_of(&db.query(&q).unwrap()), vec![2]);
}

#[test]
fn gaps_in_the_id_range_are_no_match() {
    let mut db = Tables::new();
    for id in [2u32, 5, 6] {
        db.insert(task(id, Status::Processing, Type::DocumentAddition));
    }
    assert_eq!(ids_of(&db.query(&Query::new()).unwrap()), vec![2, 5, 6]);
}

#[test]
fn unknown_ids_are_no_match() {
    let mut db = Tables::new();
    let t = task(4, Status::Enqueued, Type::IndexSwap);
    db.insert(t);
    let mut q = Query::new();
    q.task_id = Some(vec![2, 4, 99]);
    assert_eq!(db.query(&q).unwrap(), vec![t]);
}

#[test]
fn default_page_is_twenty() {
    let mut db = Tables::new();
    for id in 0..30u32 {
        db.insert(task(id, Status::Enqueued, Type::IndexSwap));
    }
    let q = Query::new();
    assert_eq!(DEFAULT_QUERY_LIMIT, 20);
    assert_eq!(ids_of(&db.query(&q).unwrap()), (0..20).collect::<Vec<u32>>());
}

#[test]
fn reinsert_keeps_stale_status_membership() {
    let mut db = Tables::new();
    db.insert(task(1, Status::Enqueued, Type::IndexSwap));
    let t = task(1, Status::Failed, Type::IndexSwap);
    db.insert(t);
    let mut q = Query::new();
    q.statuses = Some(vec![Status::Enqueued]);
    assert_eq!(db.query(&q).unwrap(), vec![t]);
}

#[test]
fn corrupt_index_entry_is_reported() {
    let mut db = Tables::new();
    db.insert(task(1, Status::Enqueued, Type::IndexSwap));
    db.statuses[0] = Some(vec![1, 2, 3]);
    let q = Query::new();
    assert_eq!(db.query(&q), Err(StoreError::Corrupt));
    assert_eq!(index_add(&Some(vec![1, 2, 3]), 5), Err(StoreError::Corrupt));
}

#[test]
fn bitmap_codec_round_trips() {
    let mut b = RoaringBitmap::new();
    b.insert(3);
    b.insert(70000);
    let bytes = RoaringBitmapCodec::bytes_encode(&b).unwrap();
    assert!(!bytes.is_empty());
    let back = RoaringBitmapCodec::bytes_decode(&bytes).unwrap();
    assert_eq!(back.iter().collect::<Vec<u32>>(), vec![3, 70000]);
    assert_eq!(RoaringBitmapCodec::bytes_decode(&[0xff, 0xff]).err(), Some(StoreError::Corrupt));
}

#[test]
fn index_add_adds_one_id() {
    let first = index_add(&None, 8).unwrap();
    let second = index_add(&Some(first), 2).unwrap();
    let b = RoaringBitmapCodec::bytes_decode(&second).unwrap();
    assert_eq!(b.iter().collect::<Vec<u32>>(), vec![2, 8]);
}

#[test]
fn task_record_round_trips() {
    let t = task(0x01020304, Status::Succeeded, Type::DocumentDeletion);
    let bytes = encode_task(&t);
    assert_eq!(bytes, vec![1, 2, 3, 4, 2, 4]);
    assert_eq!(decode_task(&bytes), Ok(t));
    assert_eq!(decode_task(&[1, 2, 3, 4, 9, 0]), Err(StoreError::Corrupt));
    assert_eq!(decode_task(&[1, 2, 3, 4, 0, 5]), Err(StoreError::Corrupt));
    assert_eq!(decode_task(&[1, 2, 3]), Err(StoreError::Corrupt));
}

#[test]
fn keys_are_big_endian() {
    assert_eq!(task_key(258), vec![0, 0, 1, 2]);
    assert_eq!(key_to_id(&[0, 1, 0, 0]), Ok(65536));
    assert_eq!(key_to_id(&[0, 1, 0]), Err(StoreError::Corrupt));
    assert!(task_key(255) < task_key(256));
}

#[test]
fn names_and_parsing() {
    assert_eq!(Status::Enqueued.name(), b"enqueued".to_vec());
    assert_eq!(Type::DocumentAddition.name(), b"documentAddition".to_vec());
    assert_eq!(Status::from_str("succeeded"), Ok(Status::Succeeded));
    assert_eq!(Type::from_str("indexSwap"), Ok(Type::IndexSwap));
    assert_eq!(Status::from_str("done"), Err(StoreError::InvalidEnumValue));
    assert_eq!(Type::from_str("IndexSwap"), Err(StoreError::InvalidEnumValue));
    assert_eq!(Status::from_code(3), Ok(Status::Failed));
    assert_eq!(Status::from_code(4), Err(StoreError::InvalidEnumValue));
    assert_eq!(Type::from_code(5), Err(StoreError::InvalidEnumValue));
    assert_eq!(Type::IndexDeletion.code(), 1);
}

#[test]
fn query_emptiness() {
    let mut q = Query::new();
    assert!(q.is_empty());
    q.limit = 3;
    assert!(q.is_empty());
    q.before_id = Some(1);
    assert!(!q.is_empty());
}

#[test]
fn paginate_cuts_the_page() {
    let all = vec![1u32, 2, 3, 4, 5];
    assert_eq!(paginate(&all, 1, 2), vec![2, 3]);
    assert_eq!(paginate(&all, 4, 10), vec![5]);
    assert_eq!(paginate(&all, 5, 1), vec![]);
    assert_eq!(paginate(&all, 0, usize::MAX), all);
}

#[test]
fn sql_without_filters() {
    let q = Query::new();
    let text = String::from_utf8(select_statement(&q)).unwrap();
    assert_eq!(text, "SELECT task_id, status, type FROM tasks WHERE true ORDER BY task_id LIMIT 20 OFFSET 0;");
}

#[test]
fn sql_with_every_filter() {
    let mut q = Query::new();
    q.task_id = Some(vec![1, 20]);
    q.after_id = Some(0);
    q.before_id = Some(300);
    q.statuses = Some(vec![Status::Enqueued, Status::Failed]);
    q.types = Some(vec![Type::IndexSwap]);
    q.limit = 7;
    q.offset = 105;
    let text = String::from_utf8(select_statement(&q)).unwrap();
    assert_eq!(
        text,
        "SELECT task_id, status, type FROM tasks WHERE task_id IN (1, 20) AND task_id > 0 AND \
         task_id < 300 AND status IN (\"enqueued\", \"failed\") AND type IN (\"indexSwap\") AND \
         true ORDER BY task_id LIMIT 7 OFFSET 105;"
    );
}

#[test]
fn decimal_digits() {
    let mut out = Vec::new();
    push_decimal(&mut out, 0);
    push_decimal(&mut out, 4096);
    assert_eq!(out, b"04096".to_vec());
}

#[test]
fn decoded_bitmaps_are_rebuilt_in_order() {
    // Two array containers stored with their keys out of order: key 1
    // holding 5 (the value 65541), then key 0 holding 7.
    let mut bytes: Vec<u8> = Vec::new();
    bytes.extend_from_slice(&12346u32.to_le_bytes());
    bytes.extend_from_slice(&2u32.to_le_bytes());
    for key in [1u16, 0] {
        bytes.extend_from_slice(&key.to_le_bytes());
        bytes.extend_from_slice(&0u16.to_le_bytes());
    }
    bytes.extend_from_slice(&24u32.to_le_bytes());
    bytes.extend_from_slice(&26u32.to_le_bytes());
    bytes.extend_from_slice(&5u16.to_le_bytes());
    bytes.extend_from_slice(&7u16.to_le_bytes());
    let b = RoaringBitmapCodec::bytes_decode(&bytes).unwrap();
    assert_eq!(b.iter().collect::<Vec<u32>>(), vec![7, 65541]);
    assert!(b.contains(7) && b.contains(65541));
    let again = index_add(&Some(bytes), 3).unwrap();
    let b = RoaringBitmapCodec::bytes_decode(&again).unwrap();
    assert_eq!(b.iter().collect::<Vec<u32>>(), vec![3, 7, 65541]);
}
