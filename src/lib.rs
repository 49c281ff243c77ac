//! Decoding of fixed-record tick files, aggregation of ticks into time bars,
//! a position state machine with exact integer profit and loss, and summary
//! statistics over the resulting trades and equity curve.

pub mod bar;
pub mod scid;
pub mod position;
pub mod metrics;
pub mod engine;
