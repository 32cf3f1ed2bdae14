//! A line-oriented text search engine.
//!
//! The library searches text for lines that contain a query pattern,
//! optionally ignoring ASCII case.  Input is handled as raw bytes: a line
//! reader splits a buffer into lines, an encoding check enforces that every
//! line is valid UTF-8, a matcher decides whether a line contains the
//! pattern, and the engine ties these together into an ordered sequence of
//! matches.  Every function is specified and verified with Verus.

pub mod ascii;
pub mod config;
pub mod matcher;
pub mod query;
pub mod encoding;
pub mod reader;
pub mod engine;
