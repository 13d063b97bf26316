//! The surface that every backend offers, so that callers need not know
//! which one they hold.
use crate::{Query, StoreError, Task};
use vstd::prelude::*;

verus! {

/// A task store: insert tasks, look them up, and destroy the whole store.
pub trait Store {
    /// Stores `task`, replacing any record with the same id.
    fn insert(&self, task: &Task) -> Result<(), StoreError>;

    /// The tasks that answer `query`, in ascending order of id.
    fn query(&self, query: &Query) -> Result<Vec<Task>, StoreError>;

    /// Drops every table and the files behind them.
    fn delete(self) -> Result<(), StoreError> where Self: std::marker::Sized;
}

} // verus!
