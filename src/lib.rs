//! Storage core of a small object store: payloads are appended to one
//! segment per identity, and an index maps each `(identity, key)` to the
//! encoded list of `(offset, length)` records where its bytes lie.
use vstd::prelude::*;

pub mod codec;
pub mod database;
pub mod error;
pub mod index;
pub mod segment;
pub mod service;

verus! {

} // verus!
