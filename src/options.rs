//! What the command line asks for.
use crate::{Query, Task};
use vstd::prelude::*;

verus! {

/// One command: store a task, or run a query.
pub enum Option {
    Insert(Task),
    Query(Query),
}

} // verus!
