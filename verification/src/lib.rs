//! A single-user time tracker: a timer state machine over an active-timer
//! record, an append-only log of completed intervals, a comma-delimited
//! record codec for both stores, and an aggregation engine that totals
//! logged hours flat, by ISO week, or by day of month.
pub mod aggregate;
pub mod calendar;
pub mod codec;
pub mod numfmt;
pub mod record;
pub mod render;
pub mod store;
