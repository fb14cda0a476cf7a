//! What a search is started with: the size of the suffix space, the number
//! of workers, and the domain of every batch.

use crate::domain::{IterationDomain, CHECKSUM_SPACE};
use crate::partition::{batch_checksum, lemma_batch_in_space};
use crate::serializer::serialize_outcome;
use crate::turn::Coordinator;
use crate::worker::{Phase, Worker};
use vstd::prelude::*;

verus! {

/// The settings of one search.
#[derive(Clone, Copy, Debug, PartialEq, Eq)]
pub struct SearchConfig {
    /// The suffixes searched are those below this number.
    pub checksum_space: u16,
    pub worker_count: u16,
    pub domain: IterationDomain,
}

/// Why a search cannot be started.
#[derive(Clone, Copy, Debug, PartialEq, Eq)]
pub enum ConfigError {
    /// There is nobody to do the work.
    NoWorkers,
    /// Some suffix would have more than four digits.
    ChecksumSpaceTooLarge,
    /// Some component of some cell would have more than two digits.
    DomainTooWide,
}

impl SearchConfig {
    /// Every record of the search can be written, and somebody writes it.
    pub open spec fn valid(self) -> bool {
        &&& self.worker_count >= 1
        &&& self.checksum_space <= CHECKSUM_SPACE
        &&& self.domain.fits_record()
    }

    /// What `validate` returns: the first reason against the settings, if
    /// there is one.
    pub open spec fn verdict(self) -> Result<(), ConfigError> {
        if self.worker_count == 0 {
            Err(ConfigError::NoWorkers)
        } else if self.checksum_space > CHECKSUM_SPACE {
            Err(ConfigError::ChecksumSpaceTooLarge)
        } else if !self.domain.fits_record() {
            Err(ConfigError::DomainTooWide)
        } else {
            Ok(())
        }
    }

    /// The whole space: every suffix, eight workers, and all two-digit
    /// years, months and days.
    pub fn standard() -> (c: SearchConfig)
        ensures
            c == (SearchConfig {
                checksum_space: CHECKSUM_SPACE,
                worker_count: 8,
                domain: IterationDomain {
                    start_a: 0,
                    start_b: 0,
                    start_c: 0,
                    extent_a: 100,
                    extent_b: 100,
                    extent_c: 100,
                },
            }),
            c.valid(),
    {
        SearchConfig {
            checksum_space: CHECKSUM_SPACE,
            worker_count: 8,
            domain: IterationDomain {
                start_a: 0,
                start_b: 0,
                start_c: 0,
                extent_a: 100,
                extent_b: 100,
                extent_c: 100,
            },
        }
    }

    /// Tests the settings before anything is started.
    pub fn validate(&self) -> (r: Result<(), ConfigError>)
        ensures
            r == self.verdict(),
            r is Ok <==> self.valid(),
    {
        if self.worker_count == 0 {
            Err(ConfigError::NoWorkers)
        } else if self.checksum_space > CHECKSUM_SPACE {
            Err(ConfigError::ChecksumSpaceTooLarge)
        } else if !self.domain.fits() {
            Err(ConfigError::DomainTooWide)
        } else {
            Ok(())
        }
    }

    /// The worker `id` of this search, idle. There is none unless `id` is
    /// below the number of workers.
    pub fn worker(&self, id: u16) -> (w: Option<Worker>)
        ensures
            w == if id < self.worker_count {
                Some(
                    Worker {
                        id,
                        workers: self.worker_count,
                        cuboids: self.checksum_space,
                        domain: self.domain,
                        batch: 0,
                        phase: Phase::Idle,
                    },
                )
            } else {
                None
            },
            w is Some ==> w->Some_0.wf(),
    {
        Worker::new(id, self.worker_count, self.checksum_space, self.domain)
    }

    /// The token of this search, with worker 0. There is none without
    /// workers.
    pub fn coordinator(&self) -> (c: Option<Coordinator>)
        ensures
            c is Some <==> self.worker_count >= 1,
            c is Some ==> c->Some_0.wf() && c->Some_0.spec_workers() == self.worker_count
                && c->Some_0.spec_holder() == 0 && c->Some_0.spec_writes() == 0,
    {
        Coordinator::new(self.worker_count)
    }
}

/// In a search with valid settings every batch of every worker can be
/// written: a worker gives up only on a mask that does not have one entry
/// per cell.
pub proof fn lemma_valid_search_writes(c: SearchConfig, w: Worker, mask: Seq<bool>)
    requires
        c.valid(),
        w.wf(),
        w.workers == c.worker_count,
        w.cuboids == c.checksum_space,
        w.domain == c.domain,
        w.has_batch(),
    ensures
        w.parameters().printable(),
        w.parameters().checksum == batch_checksum(w.id as int, w.workers as int, w.batch as int),
        serialize_outcome(w.parameters(), mask) is Ok <==> mask.len() == c.domain.cells(),
{
    lemma_batch_in_space(w.id as int, w.workers as int, w.cuboids as int, w.batch as int);
}

} // verus!
