//! The runtime profiling span: the bookkeeping of one named, timed
//! section.
//!
//! The clock itself is outside work: the caller reads it and hands the
//! readings in as plain nanosecond counts, here at the start and again
//! when the span closes, and ships the result to whatever store collects
//! the profile.

use vstd::prelude::*;

verus! {

/// One named span of work being timed.
pub struct RuntimeSpan {
    pub name: &'static str,
    pub start_nanos: u64,
}

impl RuntimeSpan {
    /// Opens a span at the given clock reading.
    pub fn new(name: &'static str, start_nanos: u64) -> (r: RuntimeSpan)
        ensures
            r.name@ == name@,
            r.start_nanos == start_nanos,
    {
        RuntimeSpan { name, start_nanos }
    }

    /// The span's length at the given clock reading; a reading from
    /// before the start counts as zero.
    pub fn elapsed_nanos(&self, now_nanos: u64) -> (r: u64)
        ensures
            r == if now_nanos >= self.start_nanos {
                now_nanos - self.start_nanos
            } else {
                0int
            },
    {
        if now_nanos >= self.start_nanos {
            now_nanos - self.start_nanos
        } else {
            0
        }
    }
}

} // verus!
