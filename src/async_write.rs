//! The decisions of a non-blocking writer. Its file work runs as blocking
//! tasks, at most one at a time; the writer is a state machine that, at each
//! poll, either answers, starts a task, or waits for the running one.

use vstd::prelude::*;
use crate::errors::{io_error, IoFailure, IoKind};

verus! {

/// The result of the last finished task, kept until a poll collects it.
pub enum LastOp {
    Write(Result<usize, IoFailure>),
    Flush(Result<(), IoFailure>),
}

/// Where a non-blocking writer stands.
pub enum WriterState {
    /// No task runs; the result of the last one, if not yet collected.
    Open(Option<LastOp>),
    /// A task runs.
    Busy,
    /// The writer is closed or committed.
    Closed,
}

/// What a poll decides.
pub enum Step<T> {
    /// Answer the caller now.
    Ready(Result<T, IoFailure>),
    /// Start the task for this poll; the writer is now busy.
    Start,
    /// Wait for the running task and poll again once it ends.
    Await,
}

/// How a task ended.
pub enum TaskEnd {
    /// It kept the file open and left this result.
    Kept(LastOp),
    /// It released the file (close or commit).
    Released,
    /// It could not be joined.
    Failed,
}

/// The failure of an operation on a closed writer.
pub open spec fn is_closed_failure(e: IoFailure) -> bool {
    e.kind == IoKind::Other && e.message@ == "file closed"@
}

fn closed_failure() -> (e: IoFailure)
    ensures
        is_closed_failure(e),
{
    io_error("file closed")
}

impl WriterState {
    /// A freshly opened writer.
    pub fn new() -> (r: WriterState)
        ensures
            r == WriterState::Open(None),
    {
        WriterState::Open(None)
    }

    /// A write of `len` bytes: the result of a finished write is handed out
    /// (a count beyond `len` is retried); otherwise a write task starts.
    pub fn poll_write(&mut self, len: usize) -> (r: Step<usize>)
        ensures
            match *old(self) {
                WriterState::Closed => *final(self) is Closed && (r matches Step::Ready(Err(e))
                    && is_closed_failure(e)),
                WriterState::Busy => *final(self) is Busy && r is Await,
                WriterState::Open(Some(LastOp::Write(Err(e)))) => *final(self) == WriterState::Open(None)
                    && r == Step::<usize>::Ready(Err(e)),
                WriterState::Open(Some(LastOp::Write(Ok(n)))) => if n <= len {
                    *final(self) == WriterState::Open(None) && r == Step::<usize>::Ready(Ok(n))
                } else {
                    *final(self) is Busy && r is Start
                },
                WriterState::Open(_) => *final(self) is Busy && r is Start,
            },
    {
        match self {
            WriterState::Closed => Step::Ready(Err(closed_failure())),
            WriterState::Busy => Step::Await,
            WriterState::Open(last) => {
                let taken = last.take();
                match taken {
                    Some(LastOp::Write(Err(e))) => Step::Ready(Err(e)),
                    Some(LastOp::Write(Ok(n))) => if n <= len {
                        Step::Ready(Ok(n))
                    } else {
                        *self = WriterState::Busy;
                        Step::Start
                    },
                    _ => {
                        *self = WriterState::Busy;
                        Step::Start
                    },
                }
            },
        }
    }

    /// A flush: the result of a finished flush is handed out; otherwise a
    /// flush task starts. Flushing a closed writer does nothing.
    pub fn poll_flush(&mut self) -> (r: Step<()>)
        ensures
            match *old(self) {
                WriterState::Closed => *final(self) is Closed && r == Step::<()>::Ready(Ok(())),
                WriterState::Busy => *final(self) is Busy && r is Await,
                WriterState::Open(Some(LastOp::Flush(res))) => *final(self) == WriterState::Open(None)
                    && r == Step::<()>::Ready(res),
                WriterState::Open(_) => *final(self) is Busy && r is Start,
            },
    {
        match self {
            WriterState::Closed => Step::Ready(Ok(())),
            WriterState::Busy => Step::Await,
            WriterState::Open(last) => {
                let taken = last.take();
                match taken {
                    Some(LastOp::Flush(res)) => Step::Ready(res),
                    _ => {
                        *self = WriterState::Busy;
                        Step::Start
                    },
                }
            },
        }
    }

    /// A close: an open writer starts the task that releases the file.
    /// Closing a closed writer does nothing.
    pub fn poll_close(&mut self) -> (r: Step<()>)
        ensures
            match *old(self) {
                WriterState::Closed => *final(self) is Closed && r == Step::<()>::Ready(Ok(())),
                WriterState::Busy => *final(self) is Busy && r is Await,
                WriterState::Open(_) => *final(self) is Busy && r is Start,
            },
    {
        match self {
            WriterState::Closed => Step::Ready(Ok(())),
            WriterState::Busy => Step::Await,
            WriterState::Open(_) => {
                *self = WriterState::Busy;
                Step::Start
            },
        }
    }

    /// A commit: an open writer starts the task that moves the data into
    /// place; a closed one cannot commit.
    pub fn poll_commit(&mut self) -> (r: Step<()>)
        ensures
            match *old(self) {
                WriterState::Closed => *final(self) is Closed && (r matches Step::Ready(Err(e))
                    && is_closed_failure(e)),
                WriterState::Busy => *final(self) is Busy && r is Await,
                WriterState::Open(_) => *final(self) is Busy && r is Start,
            },
    {
        match self {
            WriterState::Closed => Step::Ready(Err(closed_failure())),
            WriterState::Busy => Step::Await,
            WriterState::Open(_) => {
                *self = WriterState::Busy;
                Step::Start
            },
        }
    }

    /// The running task ended.
    pub fn finish(&mut self, end: TaskEnd)
        requires
            *old(self) is Busy,
        ensures
            match end {
                TaskEnd::Kept(op) => *final(self) == WriterState::Open(Some(op)),
                _ => *final(self) is Closed,
            },
    {
        match end {
            TaskEnd::Kept(op) => {
                *self = WriterState::Open(Some(op));
            },
            _ => {
                *self = WriterState::Closed;
            },
        }
    }

    /// The writer gives up its file outside a task (a failed memory-map flush).
    pub fn abandon(&mut self)
        ensures
            *final(self) is Closed,
    {
        *self = WriterState::Closed;
    }
}

} // verus!
