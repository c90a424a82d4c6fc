//! Execution core of a structured pipeline shell.
//!
//! Commands exchange strongly typed, schema-bearing tables over streams
//! instead of unstructured text.  The crate provides the tagged-union
//! value algebra (`Cell`), the schema descriptors, a FIFO stream-of-rows
//! layer, and the command contract with its two sample commands.

pub mod cell;
pub mod command;
pub mod csv;
pub mod chars;
pub mod glob;
pub mod head;
pub mod outside;
pub mod schema;
pub mod stream;
pub mod time;

use vstd::prelude::*;

verus! {

/// A value-kind error carried out of every fallible operation of the core.
#[derive(Debug)]
pub struct JobError {
    pub message: String,
}

impl JobError {
    /// Build an error from a message.
    pub fn new(message: String) -> (r: JobError)
        ensures
            r.message@ == message@,
    {
        JobError { message }
    }
}

} // verus!
