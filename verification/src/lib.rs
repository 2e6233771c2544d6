//! Observation engine for a cellular data-balance monitor.
//!
//! The carrier reports the remaining data allowance of a line only through a
//! short textual SMS, sent in reply to a keyword SMS. This library holds the
//! logic of the monitor that lives around that channel: the parser that
//! decodes a balance SMS into an observation, the deduplicating observation
//! store, the freshness engine that decides when to request a new SMS and
//! when to give up waiting for the reply, the scheduler bookkeeping, and the
//! projection of raw readings into a per-day usage series.
//!
//! Time is carried as whole seconds since the Unix epoch (UTC); calendar
//! conversions go through the `chrono` crate behind a few trusted wrappers.
pub mod api;
pub mod daily;
pub mod engine;
pub mod fmt;
pub mod gen;
pub mod parse;
pub mod sched;
pub mod store;
pub mod timeconv;
pub mod types;
