//! Bounded, one-shot tail reads of a topic's partitions.
//!
//! A read is planned from a snapshot of every partition's watermarks, applied to
//! the broker client as one assignment, and then driven poll by poll until every
//! partition has caught up with the snapshot. This crate holds the planning and
//! the decisions of the read; the caller owns the connection and performs the
//! polls.

pub mod error;
pub mod offsets;
pub mod mode;
pub mod planner;
pub mod assignment;
pub mod reader;
pub mod tail;
pub mod trace;
pub mod static_log;
pub mod client_config;
pub mod rendering;
