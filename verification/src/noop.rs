//! The no-op build variant of the tracer's lifecycle surface: the same
//! names as the active tracer, with no effect, so instrumented programs
//! compile identically whether tracing is built in or not.

use vstd::prelude::*;

verus! {

/// Does nothing: the lifecycle start of the no-op variant.
pub fn start_relative() {
}

/// Does nothing: the lifecycle end of the no-op variant; in particular
/// it writes no report.
pub fn end_relative() {
}

} // verus!
