//! An in-process event tracer. It records point events and scoped
//! (duration) events per thread, tracks per-thread nesting depth, and
//! renders the collected trace as a pretty-printed JSON report.
//!
//! The tracer state is a plain value: callers identify the recording
//! thread by passing its name, and the surrounding program supplies
//! whatever sharing and locking it needs around the value. The no-op
//! build variant of the record surface lives in [`noop`].

pub mod clock;
pub mod depths;
pub mod event;
pub mod json;
pub mod noop;
pub mod reader;
pub mod store;
pub mod strutil;
pub mod tracer;

pub use noop::end_relative;
pub use noop::start_relative;
pub use crate::event::DurationRep;
pub use crate::event::TraceEvent;
pub use crate::json::report_path;
pub use crate::tracer::TraceBlock;
pub use crate::tracer::Tracer;
