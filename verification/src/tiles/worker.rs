//! The queue that tile decoders take their work from.

use crate::tiles::tiff::DecodedTile;
use std::collections::VecDeque;
use vstd::prelude::*;

verus! {

/// Decoder threads per pool.
pub const N_WORKERS: usize = 6;

/// A chunk to decode: `aggregation` tiles per edge at level `lod`.
#[derive(Clone, Copy, Debug, PartialEq, Eq, Structural)]
pub struct TileRequest {
    pub lod: u32,
    pub cx: u32,
    pub cy: u32,
    pub aggregation: u32,
}

/// The outcome of a request: the tile, or in words why there is none.
pub struct TileResponse {
    pub req: TileRequest,
    pub result: Result<DecodedTile, String>,
}

/// What a worker does next.
#[derive(Clone, Copy, Debug, PartialEq, Eq, Structural)]
pub enum WorkerStep {
    /// The pool is shutting down.
    Exit,
    Decode(TileRequest),
    /// Nothing to do until the queue changes.
    Wait,
}

/// Requests waiting for a worker, oldest first.
pub struct QueueState {
    pub pending: VecDeque<TileRequest>,
    pub shutdown: bool,
}

impl QueueState {
    pub fn new() -> (q: QueueState)
        ensures
            q.pending@.len() == 0,
            !q.shutdown,
    {
        QueueState { pending: VecDeque::new(), shutdown: false }
    }

    /// Adds a request behind those that wait.
    pub fn enqueue(&mut self, req: TileRequest)
        ensures
            final(self).pending@ == old(self).pending@.push(req),
            final(self).shutdown == old(self).shutdown,
    {
        self.pending.push_back(req);
    }

    /// Takes a worker's next step: the oldest request, unless the pool is
    /// shutting down.
    pub fn next(&mut self) -> (step: WorkerStep)
        ensures
            final(self).shutdown == old(self).shutdown,
            match step {
                WorkerStep::Exit => {
                    &&& old(self).shutdown
                    &&& final(self).pending@ == old(self).pending@
                },
                WorkerStep::Decode(req) => {
                    &&& !old(self).shutdown
                    &&& old(self).pending@.len() > 0
                    &&& req == old(self).pending@[0]
                    &&& final(self).pending@ == old(self).pending@.skip(1)
                },
                WorkerStep::Wait => {
                    &&& !old(self).shutdown
                    &&& old(self).pending@.len() == 0
                    &&& final(self).pending@ == old(self).pending@
                },
            },
    {
        if self.shutdown {
            return WorkerStep::Exit;
        }
        match self.pending.pop_front() {
            Some(req) => WorkerStep::Decode(req),
            None => WorkerStep::Wait,
        }
    }

    /// Tells every worker to stop, and forgets what waits.
    pub fn shut_down(&mut self)
        ensures
            final(self).shutdown,
            final(self).pending@.len() == 0,
    {
        self.shutdown = true;
        self.pending.clear();
    }
}

} // verus!
