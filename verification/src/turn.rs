//! The order of the workers' writes.
//!
//! One token says which worker may append to the sink. It starts with worker
//! 0; a worker that has written hands it to the next worker, and the last
//! hands it back to the first. So the blocks reach the sink in a fixed order,
//! whichever worker has its block ready first.
//!
//! A worker that has run out of batches, or never had one, keeps its place in
//! the round. Nobody ever waits for it: while a batch is left to write, the
//! token is with a worker that still has one (`lemma_write_order`).

use crate::partition::{batch_checksum, batch_count, lemma_value_has_batch};
use vstd::arithmetic::div_mod::{
    lemma_fundamental_div_mod, lemma_fundamental_div_mod_converse, lemma_mod_bound,
    lemma_small_mod,
};
use vstd::prelude::*;

verus! {

/// The worker that gets the token from worker `turn`.
pub open spec fn successor(workers: int, turn: int) -> int {
    (turn + 1) % workers
}

/// The worker that holds the token after `writes` blocks have been written.
pub open spec fn holder_after(workers: int, writes: nat) -> int
    decreases writes,
{
    if writes == 0 {
        0
    } else {
        successor(workers, holder_after(workers, (writes - 1) as nat))
    }
}

/// The token passes round-robin: the `n`-th block, counted from 0, is written
/// by worker `n % workers`. With two workers the writers alternate 0, 1, 0,
/// 1, ...
pub proof fn lemma_round_robin(workers: int, n: nat)
    requires
        workers >= 1,
    ensures
        holder_after(workers, n) == n % (workers as nat),
        0 <= holder_after(workers, n) < workers,
        workers == 2 ==> holder_after(workers, n) == (if n % 2 == 0 {
            0int
        } else {
            1int
        }),
    decreases n,
{
    lemma_mod_bound(n as int, workers);
    if n == 0 {
        lemma_small_mod(0, workers as nat);
    } else {
        lemma_round_robin(workers, (n - 1) as nat);
        let before = (n - 1) % workers;
        lemma_mod_bound(n - 1, workers);
        lemma_mod_bound(before + 1, workers);
        lemma_fundamental_div_mod(n - 1, workers);
        lemma_fundamental_div_mod(before + 1, workers);
        let q = (n - 1) / workers + (before + 1) / workers;
        assert(q * workers == workers * ((n - 1) / workers) + workers * ((before + 1) / workers))
            by (nonlinear_arith)
            requires
                q == (n - 1) / workers + (before + 1) / workers,
        ;
        lemma_fundamental_div_mod_converse(n as int, workers, q, (before + 1) % workers);
    }
}

/// While a value of the space is unwritten the token is with a worker that
/// still has a batch. When `n` blocks are written, those with the values
/// below `n`, the worker that holds the token owns `n / workers` of these
/// values, so its next batch is its batch `n / workers`; that batch exists
/// and has the value `n`. So the blocks reach the sink in the order of their
/// values, and nobody waits for a worker that has nothing left to write.
pub proof fn lemma_write_order(workers: int, cuboids: int, n: nat)
    requires
        workers >= 1,
        n < cuboids,
    ensures
        batch_count(holder_after(workers, n), workers, n as int) == n / (workers as nat),
        n / (workers as nat) < batch_count(holder_after(workers, n), workers, cuboids),
        batch_checksum(holder_after(workers, n), workers, (n / (workers as nat)) as int) == n,
{
    lemma_round_robin(workers, n);
    lemma_value_has_batch(workers, cuboids, n as int);
    let id = n as int % workers;
    let q = n as int / workers;
    lemma_fundamental_div_mod(n as int, workers);
    if id < n {
        assert(workers * q + workers - 1 == q * workers + (workers - 1)) by (nonlinear_arith);
        lemma_fundamental_div_mod_converse(n - id + workers - 1, workers, q, workers - 1);
    } else {
        assert(q == 0) by (nonlinear_arith)
            requires
                n == workers * q + id,
                id >= n,
                0 <= q,
                workers >= 1,
        ;
    }
}

/// Why a worker's request was refused.
#[derive(Clone, Copy, Debug, PartialEq, Eq)]
pub enum TurnError {
    /// The token is with another worker.
    NotYourTurn,
    /// No worker has this id.
    NoSuchWorker,
}

/// The token and the number of workers that pass it round.
pub struct Coordinator {
    workers: u16,
    turn: u16,
    writes: Ghost<nat>,
}

impl Coordinator {
    /// The number of workers.
    pub closed spec fn spec_workers(self) -> int {
        self.workers as int
    }

    /// The worker that may write next.
    pub closed spec fn spec_holder(self) -> int {
        self.turn as int
    }

    /// The number of times the token has been handed on.
    pub closed spec fn spec_writes(self) -> nat {
        self.writes@
    }

    /// The token is with the worker that it has reached from worker 0 by
    /// being handed on.
    pub closed spec fn wf(self) -> bool {
        &&& self.turn < self.workers
        &&& self.turn == holder_after(self.workers as int, self.writes@)
    }

    /// The token is with the worker whose id is the number of writes so far,
    /// taken modulo the number of workers.
    pub proof fn lemma_holder(self)
        requires
            self.wf(),
        ensures
            self.spec_workers() >= 1,
            self.spec_holder() == self.spec_writes() % (self.spec_workers() as nat),
            self.spec_holder() == holder_after(self.spec_workers(), self.spec_writes()),
    {
        lemma_round_robin(self.workers as int, self.writes@);
    }

    /// A token for `workers` workers, held by worker 0. There is none for no
    /// workers.
    pub fn new(workers: u16) -> (c: Option<Coordinator>)
        ensures
            c is Some <==> workers >= 1,
            c is Some ==> c->Some_0.wf() && c->Some_0.spec_workers() == workers
                && c->Some_0.spec_holder() == 0 && c->Some_0.spec_writes() == 0,
    {
        if workers == 0 {
            None
        } else {
            Some(Coordinator { workers, turn: 0, writes: Ghost(0) })
        }
    }

    pub fn workers(&self) -> (n: u16)
        ensures
            n == self.spec_workers(),
    {
        self.workers
    }

    /// The worker that may write next.
    pub fn holder(&self) -> (id: u16)
        ensures
            id == self.spec_holder(),
    {
        self.turn
    }

    /// Tells worker `id` whether it may write now. A worker that may not asks
    /// again later; nothing changes meanwhile but through `release`.
    pub fn acquire(&self, id: u16) -> (granted: bool)
        ensures
            granted == (id == self.spec_holder()),
    {
        id == self.turn
    }

    /// Hands the token on after worker `id` has written. Only the holder can
    /// hand it on, so the writers follow each other round-robin: the write
    /// after `n` earlier ones is that of worker `n % workers`.
    pub fn release(&mut self, id: u16) -> (r: Result<(), TurnError>)
        requires
            old(self).wf(),
        ensures
            final(self).wf(),
            r is Ok ==> id == old(self).spec_writes() % (old(self).spec_workers() as nat),
            final(self).spec_workers() == old(self).spec_workers(),
            r == if id >= old(self).spec_workers() {
                Err::<(), TurnError>(TurnError::NoSuchWorker)
            } else if id != old(self).spec_holder() {
                Err::<(), TurnError>(TurnError::NotYourTurn)
            } else {
                Ok::<(), TurnError>(())
            },
            final(self).spec_holder() == if r is Ok {
                successor(old(self).spec_workers(), old(self).spec_holder())
            } else {
                old(self).spec_holder()
            },
            final(self).spec_writes() == old(self).spec_writes() + if r is Ok {
                1nat
            } else {
                0nat
            },
    {
        if id >= self.workers {
            return Err(TurnError::NoSuchWorker);
        }
        if id != self.turn {
            return Err(TurnError::NotYourTurn);
        }
        proof {
            self.lemma_holder();
        }
        let next: u32 = (self.turn as u32 + 1) % (self.workers as u32);
        self.turn = next as u16;
        self.writes = Ghost((self.writes@ + 1) as nat);
        Ok(())
    }
}

} // verus!
