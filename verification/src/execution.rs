//! What a call reports back besides its result: logs, and the row it was
//! made for.
use std::collections::HashMap;

use vstd::prelude::*;

use crate::error::CapturedError;

verus! {

/// The log lines a call produced: the module's own, and each capability's,
/// keyed by the capability's pair of names.
#[derive(Debug, Clone)]
pub struct PyroLogs {
    pub module_logs: Vec<String>,
    pub capability_logs: HashMap<(String, String), Vec<String>>,
}

impl PyroLogs {
    /// No lines at all.
    pub fn empty() -> (r: Self)
        ensures
            r.module_logs@.len() == 0,
            r.capability_logs@ == Map::<(String, String), Vec<String>>::empty(),
    {
        PyroLogs { module_logs: Vec::new(), capability_logs: HashMap::new() }
    }
}

/// A call that failed for one row: the captured error, or a message when
/// none could be captured.
#[derive(Debug)]
pub struct PyroFailure {
    pub row_index: u32,
    pub result: Result<CapturedError, String>,
    pub logs: PyroLogs,
}

/// The row a response belongs to.
pub trait ResponseIndex {
    spec fn spec_row_index(&self) -> u32;

    fn row_index(&self) -> (r: u32)
        ensures
            r == self.spec_row_index(),
    ;
}

impl ResponseIndex for PyroFailure {
    open spec fn spec_row_index(&self) -> u32 {
        self.row_index
    }

    fn row_index(&self) -> (r: u32) {
        self.row_index
    }
}

impl<S: ResponseIndex, F: ResponseIndex> ResponseIndex for Result<S, F> {
    open spec fn spec_row_index(&self) -> u32 {
        match self {
            Ok(s) => s.spec_row_index(),
            Err(f) => f.spec_row_index(),
        }
    }

    fn row_index(&self) -> (r: u32) {
        match self {
            Ok(s) => s.row_index(),
            Err(f) => f.row_index(),
        }
    }
}

} // verus!
