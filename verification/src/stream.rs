//! The stream-of-rows channel: a FIFO queue of rows with a write-once
//! schema.  Rows leave in exactly the order they entered; the schema is
//! fixed once, at initialization, and never changes afterwards.

use vstd::prelude::*;
use vstd::string::StringExecFns;
use crate::JobError;
use crate::cell::{Cell, row_v, stream_v};
use crate::schema::{ColumnType, cols_v};

verus! {

/// One row of cells travelling through a stream.
pub struct Row {
    pub cells: Vec<Cell>,
}

/// A stream of rows: the queue between a producing and a consuming
/// stage.  The queue is unbounded, so a producer never waits; a row is
/// delivered to the consumer in emission order.
pub struct Stream {
    pub schema: Option<Vec<ColumnType>>,
    pub queue: Vec<Row>,
    pub consumer_open: bool,
}

impl Stream {
    /// A fresh stream with no schema yet: the producer half must call
    /// `initialize` before any row flows.
    pub fn unlimited() -> (r: Stream)
        ensures
            stream_v(r).schema is None,
            stream_v(r).queue.len() == 0,
            stream_v(r).consumer_open,
    {
        Stream { schema: None, queue: Vec::new(), consumer_open: true }
    }

    /// Fix the stream's schema.  The schema is decided exactly once: a
    /// second initialization is rejected and the first schema stays.
    pub fn initialize(&mut self, columns: Vec<ColumnType>) -> (r: Result<(), JobError>)
        ensures
            old(self).schema is None ==> r is Ok && stream_v(*final(self)).schema == Some(
                cols_v(columns),
            ),
            old(self).schema is Some ==> r is Err && *final(self) == *old(self),
            stream_v(*final(self)).queue == stream_v(*old(self)).queue,
            stream_v(*final(self)).consumer_open == stream_v(*old(self)).consumer_open,
    {
        match self.schema {
            None => {
                self.schema = Some(columns);
                Ok(())
            },
            Some(_) => Err(JobError::new(String::from_str("Stream schema already initialized"))),
        }
    }

    /// The schema, if it has been fixed.
    pub fn get_type(&self) -> (r: Option<&Vec<ColumnType>>)
        ensures
            r is Some <==> self.schema is Some,
            r is Some ==> cols_v(*r->0) == stream_v(*self).schema->0,
    {
        match &self.schema {
            Some(c) => Some(c),
            None => None,
        }
    }

    /// Enqueue a row.  The queue is unbounded, so this never waits; it
    /// fails only when the consumer half is gone.
    pub fn send(&mut self, row: Row) -> (r: Result<(), JobError>)
        requires
            old(self).schema is Some,
        ensures
            old(self).consumer_open ==> r is Ok && stream_v(*final(self)).queue == stream_v(
                *old(self),
            ).queue.push(row_v(row)),
            !old(self).consumer_open ==> r is Err && *final(self) == *old(self),
            stream_v(*final(self)).schema == stream_v(*old(self)).schema,
            stream_v(*final(self)).consumer_open == stream_v(*old(self)).consumer_open,
    {
        if self.consumer_open {
            self.queue.push(row);
            proof {
                crate::cell::lemma_rows_v_push(old(self).queue, self.queue, row);
            }
            Ok(())
        } else {
            Err(JobError::new(String::from_str("Sending to closed stream")))
        }
    }

    /// Dequeue the oldest row, or report end-of-stream when the queue
    /// has been drained.
    pub fn recv(&mut self) -> (r: Option<Row>)
        ensures
            stream_v(*old(self)).queue.len() > 0 ==> r is Some && row_v(r->0) == stream_v(
                *old(self),
            ).queue[0] && stream_v(*final(self)).queue == stream_v(*old(self)).queue.skip(1),
            stream_v(*old(self)).queue.len() == 0 ==> r is None && *final(self) == *old(self),
            stream_v(*final(self)).schema == stream_v(*old(self)).schema,
            stream_v(*final(self)).consumer_open == stream_v(*old(self)).consumer_open,
    {
        if self.queue.len() > 0 {
            let row = self.queue.remove(0);
            proof {
                crate::cell::lemma_rows_v_remove(old(self).queue, self.queue);
            }
            Some(row)
        } else {
            None
        }
    }

    /// Drop the consumer half: the cancellation signal.  Later sends
    /// fail, telling the producer to stop working.
    pub fn close_consumer(&mut self)
        ensures
            !final(self).consumer_open,
            stream_v(*final(self)).schema == stream_v(*old(self)).schema,
            stream_v(*final(self)).queue == stream_v(*old(self)).queue,
    {
        self.consumer_open = false;
    }

    /// How many rows are waiting.
    pub fn pending(&self) -> (r: usize)
        ensures
            r == stream_v(*self).queue.len(),
    {
        proof {
            crate::cell::lemma_rows_v(self.queue);
        }
        self.queue.len()
    }
}

} // verus!
