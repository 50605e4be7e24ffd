//! The process-listing collector. Enumerating live processes is host I/O
//! answered by a general-purpose system-information library outside this
//! verified core; only the collector handle itself lives here.

use vstd::prelude::*;

verus! {

/// Handle for process enumeration; the listing itself is gathered outside
/// the verified core.
pub struct ProcessCollector;

impl ProcessCollector {
    pub fn new() -> Self {
        Self
    }
}

} // verus!
