//! An indexed task store: tasks keyed by id, with compressed-bitmap
//! secondary indexes on status and type, answering filtered and paginated
//! lookups by set algebra over those indexes.
//!
//! The library holds the logic of the store: the encodings of keys, records
//! and index entries (`codec`), the evaluation of a query over the index
//! bitmaps and the checks on the records it picks (`query`), the SQL text of
//! the relational backend (`sql`), and a model of a store after a sequence of
//! inserts, with its laws (`model`). The storage engines themselves are
//! driven from outside, through the `Store` surface.
use vstd::prelude::*;
use vstd::string::StringSliceAdditionalSpecFns;

pub mod bitmap;
pub mod codec;
pub mod query;
pub mod sql;
pub mod model;
pub mod options;
pub mod stores;

verus! {

/// Identifier of a task, assigned by the caller; the primary key and the
/// element stored in the index bitmaps.
pub type TaskId = u32;

/// Lifecycle state of a task.
#[derive(Debug, Clone, Copy, PartialEq, Eq, Structural)]
pub enum Status {
    Enqueued,
    Processing,
    Succeeded,
    Failed,
}

/// Kind of work a task stands for.
#[derive(Debug, Clone, Copy, PartialEq, Eq, Structural)]
pub enum Type {
    IndexCreation,
    IndexDeletion,
    IndexSwap,
    DocumentAddition,
    DocumentDeletion,
}

/// A work-queue record.
#[derive(Debug, Clone, Copy, PartialEq, Eq, Structural)]
pub struct Task {
    pub id: TaskId,
    pub status: Status,
    pub kind: Type,
}

/// Why an operation of a store failed.
#[derive(Debug, Clone, Copy, PartialEq, Eq, Structural)]
pub enum StoreError {
    /// The storage engine failed to open, read or write its pages.
    Io,
    /// A stored value does not deserialize, or an index names an id that
    /// the primary table lacks.
    Corrupt,
    /// The configured size ceiling was reached on write.
    CapacityExceeded,
    /// A name or a code does not denote any value of a closed enumeration.
    InvalidEnumValue,
}

/// The page size of a query that does not set one.
pub const DEFAULT_QUERY_LIMIT: usize = 20;

/// A lookup: optional filters, all of which a task must meet, and a page.
/// Within `statuses` or `types` a task needs to match one of the values.
#[derive(Debug, Clone)]
pub struct Query {
    /// Only these ids.
    pub task_id: Option<Vec<TaskId>>,
    /// Only ids strictly greater than this one.
    pub after_id: Option<TaskId>,
    /// Only ids strictly less than this one.
    pub before_id: Option<TaskId>,
    /// Only tasks indexed under one of these statuses.
    pub statuses: Option<Vec<Status>>,
    /// Only tasks indexed under one of these types.
    pub types: Option<Vec<Type>>,
    /// At most this many tasks.
    pub limit: usize,
    /// Skip this many matching ids first.
    pub offset: usize,
}

impl Query {
    /// A query with no filter, the default limit and no offset.
    pub fn new() -> (r: Query)
        ensures
            r.task_id is None,
            r.after_id is None,
            r.before_id is None,
            r.statuses is None,
            r.types is None,
            r.limit == DEFAULT_QUERY_LIMIT,
            r.offset == 0,
    {
        Query {
            task_id: None,
            after_id: None,
            before_id: None,
            statuses: None,
            types: None,
            limit: DEFAULT_QUERY_LIMIT,
            offset: 0,
        }
    }

    /// Whether no filter is set (the page is not a filter).
    pub open spec fn spec_is_empty(&self) -> bool {
        &&& self.task_id is None
        &&& self.after_id is None
        &&& self.before_id is None
        &&& self.statuses is None
        &&& self.types is None
    }

    pub fn is_empty(&self) -> (r: bool)
        ensures
            r == self.spec_is_empty(),
    {
        self.task_id.is_none() && self.after_id.is_none() && self.before_id.is_none()
            && self.statuses.is_none() && self.types.is_none()
    }
}

/// Whether two byte strings are equal.
pub fn bytes_equal(a: &[u8], b: &[u8]) -> (r: bool)
    ensures
        r == (a@ == b@),
{
    if a.len() != b.len() {
        return false;
    }
    let mut i: usize = 0;
    while i < a.len()
        invariant
            a@.len() == b@.len(),
            i <= a@.len(),
            forall|j: int| 0 <= j < i ==> a@[j] == b@[j],
        decreases a@.len() - i,
    {
        if a[i] != b[i] {
            return false;
        }
        i = i + 1;
    }
    proof {
        assert(a@ =~= b@);
    }
    true
}

impl Status {
    /// The name of the value, in ASCII bytes (`enqueued`, ...).
    pub open spec fn spec_name(self) -> Seq<u8> {
        match self {
            Status::Enqueued => seq![101u8, 110, 113, 117, 101, 117, 101, 100],  // enqueued
            Status::Processing => seq![112u8, 114, 111, 99, 101, 115, 115, 105, 110, 103],  // processing
            Status::Succeeded => seq![115u8, 117, 99, 99, 101, 101, 100, 101, 100],  // succeeded
            Status::Failed => seq![102u8, 97, 105, 108, 101, 100],  // failed
        }
    }

    /// Position of the value in the declaration order; also its one-byte key in
    /// the index table.
    pub open spec fn spec_code(self) -> u8 {
        match self {
            Status::Enqueued => 0,
            Status::Processing => 1,
            Status::Succeeded => 2,
            Status::Failed => 3,
        }
    }

    pub fn name(&self) -> (r: Vec<u8>)
        ensures
            r@ == self.spec_name(),
    {
        let r = match self {
            Status::Enqueued => vec![101u8, 110, 113, 117, 101, 117, 101, 100],
            Status::Processing => vec![112u8, 114, 111, 99, 101, 115, 115, 105, 110, 103],
            Status::Succeeded => vec![115u8, 117, 99, 99, 101, 101, 100, 101, 100],
            Status::Failed => vec![102u8, 97, 105, 108, 101, 100],
        };
        proof {
            assert(r@ =~= self.spec_name());
        }
        r
    }

    pub fn code(&self) -> (r: u8)
        ensures
            r == self.spec_code(),
    {
        match self {
            Status::Enqueued => 0,
            Status::Processing => 1,
            Status::Succeeded => 2,
            Status::Failed => 3,
        }
    }

    /// The value whose code is `c`; codes past the last value are rejected.
    pub fn from_code(c: u8) -> (r: Result<Status, StoreError>)
        ensures
            r matches Ok(v) ==> v.spec_code() == c,
            r is Err <==> c >= 4,
            r matches Err(e) ==> e == StoreError::InvalidEnumValue,
    {
        match c {
            0 => Ok(Status::Enqueued),
            1 => Ok(Status::Processing),
            2 => Ok(Status::Succeeded),
            3 => Ok(Status::Failed),
            _ => Err(StoreError::InvalidEnumValue),
        }
    }

    /// Parses a name as written by `name`; any other text is rejected.
    pub fn from_str(s: &str) -> (r: Result<Status, StoreError>)
        ensures
            r matches Ok(v) ==> v.spec_name() == s.spec_bytes(),
            r is Err <==> (forall|v: Status| v.spec_name() != s.spec_bytes()),
            r matches Err(e) ==> e == StoreError::InvalidEnumValue,
    {
        let b = s.as_bytes();
        if bytes_equal(b, &Status::Enqueued.name()) {
            return Ok(Status::Enqueued);
        }
        if bytes_equal(b, &Status::Processing.name()) {
            return Ok(Status::Processing);
        }
        if bytes_equal(b, &Status::Succeeded.name()) {
            return Ok(Status::Succeeded);
        }
        if bytes_equal(b, &Status::Failed.name()) {
            return Ok(Status::Failed);
        }
        proof {
            assert forall|v: Status| v.spec_name() != s.spec_bytes() by {
                match v {
                    Status::Enqueued => {}
                    Status::Processing => {}
                    Status::Succeeded => {}
                    Status::Failed => {}
                }
            }
        }
        Err(StoreError::InvalidEnumValue)
    }
}

impl Type {
    /// The name of the value, in ASCII bytes (`indexCreation`, ...).
    pub open spec fn spec_name(self) -> Seq<u8> {
        match self {
            Type::IndexCreation => seq![105u8, 110, 100, 101, 120, 67, 114, 101, 97, 116, 105, 111, 110],  // indexCreation
            Type::IndexDeletion => seq![105u8, 110, 100, 101, 120, 68, 101, 108, 101, 116, 105, 111, 110],  // indexDeletion
            Type::IndexSwap => seq![105u8, 110, 100, 101, 120, 83, 119, 97, 112],  // indexSwap
            Type::DocumentAddition => seq![100u8, 111, 99, 117, 109, 101, 110, 116, 65, 100, 100, 105, 116, 105, 111, 110],  // documentAddition
            Type::DocumentDeletion => seq![100u8, 111, 99, 117, 109, 101, 110, 116, 68, 101, 108, 101, 116, 105, 111, 110],  // documentDeletion
        }
    }

    /// Position of the value in the declaration order; also its one-byte key in
    /// the index table.
    pub open spec fn spec_code(self) -> u8 {
        match self {
            Type::IndexCreation => 0,
            Type::IndexDeletion => 1,
            Type::IndexSwap => 2,
            Type::DocumentAddition => 3,
            Type::DocumentDeletion => 4,
        }
    }

    pub fn name(&self) -> (r: Vec<u8>)
        ensures
            r@ == self.spec_name(),
    {
        let r = match self {
            Type::IndexCreation => vec![105u8, 110, 100, 101, 120, 67, 114, 101, 97, 116, 105, 111, 110],
            Type::IndexDeletion => vec![105u8, 110, 100, 101, 120, 68, 101, 108, 101, 116, 105, 111, 110],
            Type::IndexSwap => vec![105u8, 110, 100, 101, 120, 83, 119, 97, 112],
            Type::DocumentAddition => vec![100u8, 111, 99, 117, 109, 101, 110, 116, 65, 100, 100, 105, 116, 105, 111, 110],
            Type::DocumentDeletion => vec![100u8, 111, 99, 117, 109, 101, 110, 116, 68, 101, 108, 101, 116, 105, 111, 110],
        };
        proof {
            assert(r@ =~= self.spec_name());
        }
        r
    }

    pub fn code(&self) -> (r: u8)
        ensures
            r == self.spec_code(),
    {
        match self {
            Type::IndexCreation => 0,
            Type::IndexDeletion => 1,
            Type::IndexSwap => 2,
            Type::DocumentAddition => 3,
            Type::DocumentDeletion => 4,
        }
    }

    /// The value whose code is `c`; codes past the last value are rejected.
    pub fn from_code(c: u8) -> (r: Result<Type, StoreError>)
        ensures
            r matches Ok(v) ==> v.spec_code() == c,
            r is Err <==> c >= 5,
            r matches Err(e) ==> e == StoreError::InvalidEnumValue,
    {
        match c {
            0 => Ok(Type::IndexCreation),
            1 => Ok(Type::IndexDeletion),
            2 => Ok(Type::IndexSwap),
            3 => Ok(Type::DocumentAddition),
            4 => Ok(Type::DocumentDeletion),
            _ => Err(StoreError::InvalidEnumValue),
        }
    }

    /// Parses a name as written by `name`; any other text is rejected.
    pub fn from_str(s: &str) -> (r: Result<Type, StoreError>)
        ensures
            r matches Ok(v) ==> v.spec_name() == s.spec_bytes(),
            r is Err <==> (forall|v: Type| v.spec_name() != s.spec_bytes()),
            r matches Err(e) ==> e == StoreError::InvalidEnumValue,
    {
        let b = s.as_bytes();
        if bytes_equal(b, &Type::IndexCreation.name()) {
            return Ok(Type::IndexCreation);
        }
        if bytes_equal(b, &Type::IndexDeletion.name()) {
            return Ok(Type::IndexDeletion);
        }
        if bytes_equal(b, &Type::IndexSwap.name()) {
            return Ok(Type::IndexSwap);
        }
        if bytes_equal(b, &Type::DocumentAddition.name()) {
            return Ok(Type::DocumentAddition);
        }
        if bytes_equal(b, &Type::DocumentDeletion.name()) {
            return Ok(Type::DocumentDeletion);
        }
        proof {
            assert forall|v: Type| v.spec_name() != s.spec_bytes() by {
                match v {
                    Type::IndexCreation => {}
                    Type::IndexDeletion => {}
                    Type::IndexSwap => {}
                    Type::DocumentAddition => {}
                    Type::DocumentDeletion => {}
                }
            }
        }
        Err(StoreError::InvalidEnumValue)
    }
}

} // verus!
