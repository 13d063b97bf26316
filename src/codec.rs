//! Byte encodings of what the store keeps: index bitmaps, task records and
//! primary keys.
use crate::bitmap::{bitmap_ids, bitmap_wf, normalized};
use crate::{Status, StoreError, Task, TaskId, Type};
use roaring::RoaringBitmap;
use vstd::prelude::*;

verus! {

/// The set of values that `RoaringBitmap::deserialize_from` reads from the
/// given bytes, or `None` where it rejects them.
pub uninterp spec fn roaring_decoded(bytes: Seq<u8>) -> Option<Set<u32>>;

/// Relies on `RoaringBitmap::serialize_into` of a bitmap that keeps the
/// crate's invariants, writing into a `Vec` (whose writes do not fail), and
/// on its documented round trip: `deserialize_from` reads the same set back.
#[verifier::external_body]
fn serialize(b: &RoaringBitmap) -> (r: Option<Vec<u8>>)
    requires
        bitmap_wf(*b),
    ensures
        r is Some,
        r matches Some(v) ==> roaring_decoded(v@) == Some(bitmap_ids(*b)),
{
    let mut bytes = Vec::with_capacity(b.serialized_size());
    match b.serialize_into(&mut bytes) {
        Ok(()) => Some(bytes),
        Err(_) => None,
    }
}

/// Relies on `RoaringBitmap::deserialize_from`, which checks the bytes and
/// whose result depends on them alone.
#[verifier::external_body]
fn deserialize(bytes: &[u8]) -> (r: Option<RoaringBitmap>)
    ensures
        r is Some <==> roaring_decoded(bytes@) is Some,
        r matches Some(b) ==> roaring_decoded(bytes@) == Some(bitmap_ids(b)),
{
    RoaringBitmap::deserialize_from(bytes).ok()
}

/// Stores a compressed bitmap set as bytes, in the portable Roaring format.
pub struct RoaringBitmapCodec;

impl RoaringBitmapCodec {
    /// Encodes a bitmap; decoding the bytes gives back the same set.
    pub fn bytes_encode(item: &RoaringBitmap) -> (r: Result<Vec<u8>, StoreError>)
        requires
            bitmap_wf(*item),
        ensures
            r is Ok,
            r matches Ok(v) ==> roaring_decoded(v@) == Some(bitmap_ids(*item)),
    {
        match serialize(item) {
            Some(v) => Ok(v),
            None => Err(StoreError::Io),
        }
    }

    /// Decodes a bitmap; bytes that are no well-formed bitmap are corrupt.
    /// The set read is rebuilt, so that the result keeps the crate's
    /// invariants even where the stored containers did not.
    pub fn bytes_decode(bytes: &[u8]) -> (r: Result<RoaringBitmap, StoreError>)
        ensures
            r is Ok <==> roaring_decoded(bytes@) is Some,
            r matches Ok(b) ==> bitmap_wf(b) && roaring_decoded(bytes@) == Some(bitmap_ids(b)),
            r matches Err(e) ==> e == StoreError::Corrupt,
    {
        match deserialize(bytes) {
            Some(b) => Ok(normalized(&b)),
            None => Err(StoreError::Corrupt),
        }
    }
}

/// Big-endian bytes of a task id; byte order then agrees with numeric order.
pub open spec fn id_bytes(id: u32) -> Seq<u8> {
    seq![
        (id / 0x100_0000) as u8,
        (id / 0x1_0000 % 0x100) as u8,
        (id / 0x100 % 0x100) as u8,
        (id % 0x100) as u8,
    ]
}

/// The id that four big-endian bytes stand for.
pub open spec fn id_of_bytes(b: Seq<u8>) -> u32 {
    (b[0] as int * 0x100_0000 + b[1] as int * 0x1_0000 + b[2] as int * 0x100 + b[3] as int) as u32
}

/// The stored form of a task: its id in four big-endian bytes, then the
/// codes of its status and of its type.
pub open spec fn task_bytes(t: Task) -> Seq<u8> {
    id_bytes(t.id).push(t.status.spec_code()).push(t.kind.spec_code())
}

/// The key of a task in the primary table.
pub fn task_key(id: TaskId) -> (r: Vec<u8>)
    ensures
        r@ == id_bytes(id),
{
    let r = vec![
        (id / 0x100_0000) as u8,
        (id / 0x1_0000 % 0x100) as u8,
        (id / 0x100 % 0x100) as u8,
        (id % 0x100) as u8,
    ];
    proof {
        assert(r@ =~= id_bytes(id));
    }
    r
}

proof fn lemma_id_round_trip(id: u32)
    ensures
        id_bytes(id).len() == 4,
        id_of_bytes(id_bytes(id)) == id,
{
    let b = id_bytes(id);
    assert(b[0] as int == id / 0x100_0000);
    assert(b[1] as int == id / 0x1_0000 % 0x100);
    assert(b[2] as int == id / 0x100 % 0x100);
    assert(b[3] as int == id % 0x100);
    assert(id == (id / 0x100_0000) * 0x100_0000 + (id / 0x1_0000 % 0x100) * 0x1_0000 + (id / 0x100
        % 0x100) * 0x100 + id % 0x100) by (nonlinear_arith);
}

/// Reads a key of the primary table; one of another length is corrupt.
pub fn key_to_id(b: &[u8]) -> (r: Result<TaskId, StoreError>)
    ensures
        r is Ok <==> b@.len() == 4,
        r matches Ok(id) ==> id == id_of_bytes(b@),
        r matches Err(e) ==> e == StoreError::Corrupt,
{
    if b.len() != 4 {
        return Err(StoreError::Corrupt);
    }
    let v: u32 = (b[0] as u32) * 0x100_0000 + (b[1] as u32) * 0x1_0000 + (b[2] as u32) * 0x100
        + (b[3] as u32);
    Ok(v)
}

/// Encodes a task for the primary table.
pub fn encode_task(t: &Task) -> (r: Vec<u8>)
    ensures
        r@ == task_bytes(*t),
{
    let mut r = task_key(t.id);
    r.push(t.status.code());
    r.push(t.kind.code());
    r
}

/// Decodes a record of the primary table. A record of the wrong length, or
/// with a code that names no status or no type, is corrupt.
pub fn decode_task(b: &[u8]) -> (r: Result<Task, StoreError>)
    ensures
        r is Ok <==> (exists|t: Task| task_bytes(t) == b@),
        r matches Ok(t) ==> task_bytes(t) == b@,
        r matches Err(e) ==> e == StoreError::Corrupt,
{
    if b.len() != 6 {
        proof {
            assert forall|t: Task| task_bytes(t) != b@ by {
                lemma_id_round_trip(t.id);
            }
        }
        return Err(StoreError::Corrupt);
    }
    let id = (b[0] as u32) * 0x100_0000 + (b[1] as u32) * 0x1_0000 + (b[2] as u32) * 0x100
        + (b[3] as u32);
    let status = match Status::from_code(b[4]) {
        Ok(s) => s,
        Err(_) => {
            proof {
                assert forall|t: Task| task_bytes(t) != b@ by {
                    lemma_id_round_trip(t.id);
                    if task_bytes(t) == b@ {
                        assert(t.status.spec_code() == b@[4]);
                    }
                }
            }
            return Err(StoreError::Corrupt);
        },
    };
    let kind = match Type::from_code(b[5]) {
        Ok(k) => k,
        Err(_) => {
            proof {
                assert forall|t: Task| task_bytes(t) != b@ by {
                    lemma_id_round_trip(t.id);
                    if task_bytes(t) == b@ {
                        assert(t.kind.spec_code() == b@[5]);
                    }
                }
            }
            return Err(StoreError::Corrupt);
        },
    };
    let t = Task { id, status, kind };
    proof {
        let b0 = b@[0] as u32;
        let b1 = b@[1] as u32;
        let b2 = b@[2] as u32;
        let b3 = b@[3] as u32;
        assert(id == b0 * 0x100_0000 + b1 * 0x1_0000 + b2 * 0x100 + b3);
        assert(id / 0x100_0000 == b0 && id / 0x1_0000 % 0x100 == b1 && id / 0x100 % 0x100 == b2
            && id % 0x100 == b3) by (nonlinear_arith)
            requires
                id == b0 * 0x100_0000 + b1 * 0x1_0000 + b2 * 0x100 + b3,
                b0 < 256,
                b1 < 256,
                b2 < 256,
                b3 < 256,
        ;
        assert(task_bytes(t) =~= b@);
    }
    Ok(t)
}

/// Decoding an encoded task gives the task back.
pub proof fn lemma_task_round_trip(t: Task)
    ensures
        forall|u: Task| task_bytes(u) == task_bytes(t) ==> u == t,
{
    assert forall|u: Task| task_bytes(u) == task_bytes(t) implies u == t by {
        lemma_id_round_trip(t.id);
        lemma_id_round_trip(u.id);
        assert(task_bytes(u)[4] == task_bytes(t)[4]);
        assert(task_bytes(u)[5] == task_bytes(t)[5]);
        assert(id_bytes(u.id) =~= task_bytes(u).subrange(0, 4));
        assert(id_bytes(t.id) =~= task_bytes(t).subrange(0, 4));
    }
}

} // verus!
