//! Exhaustive search for valid personal identity numbers.
//!
//! The candidate space is a box of date-like triples combined with a four-digit
//! suffix. An external evaluator marks the valid candidates of one suffix at a
//! time; this library splits the suffixes among workers, turns each acceptance
//! mask into text, orders the workers' writes, and holds the scalar predicate
//! that the evaluator is measured against.

pub mod config;
pub mod dispatch;
pub mod domain;
pub mod oracle;
pub mod partition;
pub mod scan;
pub mod serializer;
pub mod turn;
pub mod worker;
