//! A fixed-size worker pool, stated as a verified state machine, and the
//! request handling helpers of the file server that feeds it.
//!
//! - [`pool`]: the pool's queue and lifecycle. What a submission does, how
//!   many stop signals a shutdown sends, which message a worker takes next
//!   and how join outcomes are reported are decided here; threads, locks and
//!   the callables themselves are supplied by the program that drives it.
//! - [`http`]: request paths, content types and response text.
//! - [`basic`]: the plain server's port numbers and request paths.
//! - [`text`]: decimal numerals and text comparison.
//! - [`config`]: the default number of workers.
use vstd::prelude::*;

pub mod basic;
pub mod config;
pub mod http;
pub mod pool;
pub mod text;

verus! {

} // verus!
