//! One worker's course through its batches.
//!
//! A worker asks for the evaluation of a batch, turns the mask into a block,
//! has the block written when its turn comes, and goes on to its next batch.
//! The evaluation and the write are done by the caller; `step` decides what
//! comes next.

use crate::domain::{BatchParameters, IterationDomain};
use crate::partition::{batch_checksum, batch_count, lemma_batch_in_space, nth_checksum};
use crate::serializer::{serialize, serialize_outcome, SerializeError};
use vstd::prelude::*;

verus! {

/// Where a worker stands.
#[derive(Clone, Copy, Debug, PartialEq, Eq, Structural)]
pub enum Phase {
    /// Not started.
    Idle,
    /// An evaluation has been asked for.
    Evaluating,
    /// A block has been handed out and is not written yet.
    Writing,
    /// All batches are written.
    Finished,
    /// A batch could not be written; the worker has given up.
    Failed,
}

/// What happened outside.
#[derive(Clone, Copy, Debug)]
pub enum WorkerEvent<'a> {
    /// The worker is set going.
    Started,
    /// The evaluator has answered with this mask. The worker has done with
    /// the mask when `step` returns.
    MaskReady(&'a [bool]),
    /// The block is in the sink and the turn has been passed on.
    BlockWritten,
}

/// What the caller is to do next.
#[derive(Debug, PartialEq, Eq)]
pub enum WorkerAction {
    /// Have these parameters evaluated and come back with the mask.
    Evaluate(BatchParameters),
    /// Wait for the turn, append this block to the sink, pass the turn on,
    /// and come back.
    Write(Vec<u8>),
    /// Nothing is left to do.
    Stop,
    /// The batch cannot be written; stop and report this.
    Abort(SerializeError),
    /// The event does not fit the worker's phase; nothing has changed.
    Refuse,
}

/// A worker: its share of the space, the domain of its batches, and how far
/// it has come.
#[derive(Debug)]
pub struct Worker {
    pub id: u16,
    pub workers: u16,
    pub cuboids: u16,
    pub domain: IterationDomain,
    /// The number of batches written so far, which is the index of the batch
    /// in work.
    pub batch: u16,
    pub phase: Phase,
}

impl Worker {
    /// The worker is one of `workers`, and has a batch in work unless it is
    /// idle, finished or has given up.
    pub open spec fn wf(self) -> bool {
        &&& self.id < self.workers
        &&& (self.phase == Phase::Evaluating || self.phase == Phase::Writing) ==> self.has_batch()
    }

    /// Whether the batch in work exists.
    pub open spec fn has_batch(self) -> bool {
        self.batch < batch_count(self.id as int, self.workers as int, self.cuboids as int)
    }

    /// The parameters of the batch in work.
    pub open spec fn parameters(self) -> BatchParameters {
        BatchParameters {
            domain: self.domain,
            checksum: batch_checksum(self.id as int, self.workers as int, self.batch as int) as u16,
        }
    }

    /// The same worker in another phase, at another batch.
    pub open spec fn at(self, batch: int, phase: Phase) -> Worker {
        Worker { batch: batch as u16, phase, ..self }
    }

    /// The worker when it turns to the batch `batch`: it evaluates it, or it
    /// has finished if there is no such batch.
    pub open spec fn turned_to(self, batch: int) -> Worker {
        if self.at(batch, Phase::Idle).has_batch() {
            self.at(batch, Phase::Evaluating)
        } else {
            self.at(batch, Phase::Finished)
        }
    }

    /// An idle worker `id` of `workers`, for a space of `cuboids` values.
    /// There is none unless `id` is below `workers`.
    pub fn new(id: u16, workers: u16, cuboids: u16, domain: IterationDomain) -> (w: Option<Worker>)
        ensures
            w == if id < workers {
                Some(Worker { id, workers, cuboids, domain, batch: 0, phase: Phase::Idle })
            } else {
                None
            },
            w is Some ==> w->Some_0.wf(),
    {
        if id < workers {
            Some(Worker { id, workers, cuboids, domain, batch: 0, phase: Phase::Idle })
        } else {
            None
        }
    }

    /// Turns to the batch `batch` and says what to do for it.
    fn turn_to(&mut self, batch: u16) -> (action: WorkerAction)
        requires
            old(self).id < old(self).workers,
        ensures
            *final(self) == old(self).turned_to(batch as int),
            final(self).wf(),
            action == if final(self).phase == Phase::Evaluating {
                WorkerAction::Evaluate(final(self).parameters())
            } else {
                WorkerAction::Stop
            },
    {
        self.batch = batch;
        match nth_checksum(self.id, self.workers, self.cuboids, batch) {
            Some(checksum) => {
                self.phase = Phase::Evaluating;
                WorkerAction::Evaluate(BatchParameters::new(self.domain, checksum))
            },
            None => {
                self.phase = Phase::Finished;
                WorkerAction::Stop
            },
        }
    }

    /// Takes what happened and says what to do next.
    ///
    /// An idle worker that is started turns to its first batch. A worker that
    /// waits for a mask writes the block of it, or gives up where the batch
    /// cannot be written. A worker whose block is written turns to its next
    /// batch. Any other event is refused and changes nothing.
    pub fn step(&mut self, event: WorkerEvent<'_>) -> (action: WorkerAction)
        requires
            old(self).wf(),
        ensures
            final(self).wf(),
            match (old(self).phase, event) {
                (Phase::Idle, WorkerEvent::Started) => {
                    &&& *final(self) == old(self).turned_to(0)
                    &&& action == if final(self).phase == Phase::Evaluating {
                        WorkerAction::Evaluate(final(self).parameters())
                    } else {
                        WorkerAction::Stop
                    }
                },
                (Phase::Evaluating, WorkerEvent::MaskReady(mask)) => match serialize_outcome(
                    old(self).parameters(),
                    mask@,
                ) {
                    Ok(text) => {
                        &&& *final(self) == old(self).at(old(self).batch as int, Phase::Writing)
                        &&& action matches WorkerAction::Write(block)
                        &&& block@ == text
                    },
                    Err(e) => {
                        &&& *final(self) == old(self).at(old(self).batch as int, Phase::Failed)
                        &&& action == WorkerAction::Abort(e)
                    },
                },
                (Phase::Writing, WorkerEvent::BlockWritten) => {
                    &&& *final(self) == old(self).turned_to(old(self).batch + 1)
                    &&& action == if final(self).phase == Phase::Evaluating {
                        WorkerAction::Evaluate(final(self).parameters())
                    } else {
                        WorkerAction::Stop
                    }
                },
                _ => *final(self) == *old(self) && action == WorkerAction::Refuse,
            },
    {
        match (self.phase, event) {
            (Phase::Idle, WorkerEvent::Started) => self.turn_to(0),
            (Phase::Evaluating, WorkerEvent::MaskReady(mask)) => {
                match nth_checksum(self.id, self.workers, self.cuboids, self.batch) {
                    Some(checksum) => match serialize(&self.domain, checksum, mask) {
                        Ok(block) => {
                            self.phase = Phase::Writing;
                            WorkerAction::Write(block)
                        },
                        Err(e) => {
                            self.phase = Phase::Failed;
                            WorkerAction::Abort(e)
                        },
                    },
                    None => WorkerAction::Refuse,
                }
            },
            (Phase::Writing, WorkerEvent::BlockWritten) => {
                proof {
                    lemma_batch_in_space(
                        self.id as int,
                        self.workers as int,
                        self.cuboids as int,
                        self.batch as int,
                    );
                    assert(self.batch <= self.batch * self.workers) by (nonlinear_arith)
                        requires
                            self.workers >= 1,
                    ;
                }
                let next: u16 = self.batch + 1;
                self.turn_to(next)
            },
            _ => WorkerAction::Refuse,
        }
    }
}

} // verus!
