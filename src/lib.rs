//! Byte-frequency analysis of byte streams: a single-pass accumulator of a
//! 256-bucket frequency table with fixed-size window tables, the integer
//! statistics derived from the table, and text rendering of sizes and
//! frequency tables.
pub mod laws;
pub mod pretty;
pub mod shannon;
pub mod tally;
