//! Verified text-analysis utilities.
//!
//! The crate bundles four small tools around one shared core:
//!
//! - [`search`]: a bounded-memory log searcher that emits matched lines
//!   together with a configurable window of surrounding context. This is the
//!   algorithmic heart of the crate: a single forward pass whose auxiliary
//!   memory is independent of the input size.
//! - [`lint`]: a key=value configuration parser and security linter.
//! - [`extract`]: a printable-string extractor for binary data.
//! - [`arith`]: a checked-arithmetic expression checker.
//!
//! All I/O lives outside this crate; every function here is a pure
//! transformation on plain values, specified and verified.

pub mod arith;
pub mod extract;
pub mod lint;
pub mod numbers;
pub mod search;
pub mod text;
