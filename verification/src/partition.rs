//! The static split of the suffix space among the workers.
//!
//! Worker `id` of `workers` owns the values `id`, `id + workers`,
//! `id + 2 * workers`, ... below the size of the space. The split never
//! changes while the search runs.

use vstd::arithmetic::div_mod::{
    lemma_fundamental_div_mod, lemma_fundamental_div_mod_converse, lemma_mod_bound,
};
use vstd::arithmetic::mul::{
    lemma_mul_inequality, lemma_mul_is_commutative, lemma_mul_is_distributive_add_other_way,
    lemma_mul_nonnegative,
};
use vstd::prelude::*;

verus! {

/// The value of the `k`-th batch of worker `id`.
pub open spec fn batch_checksum(id: int, workers: int, k: int) -> int {
    id + k * workers
}

/// The number of batches of worker `id`: the values left from `id` on,
/// divided by the number of workers and rounded up.
pub open spec fn batch_count(id: int, workers: int, cuboids: int) -> int {
    if id >= cuboids {
        0
    } else {
        (cuboids - id + workers - 1) / workers
    }
}

/// Whether worker `id` owns the value `c`.
pub open spec fn owns(id: int, workers: int, cuboids: int, c: int) -> bool {
    exists|k: int|
        0 <= k < batch_count(id, workers, cuboids) && c == #[trigger] batch_checksum(
            id,
            workers,
            k,
        )
}

/// The values of worker `id`, in the order in which it works on them.
pub open spec fn assigned(id: int, workers: int, cuboids: int) -> Seq<int> {
    Seq::new(batch_count(id, workers, cuboids) as nat, |k: int| batch_checksum(id, workers, k))
}

/// The `k`-th batch of a worker exists exactly when its value is inside the
/// space.
pub proof fn lemma_batch_in_space(id: int, workers: int, cuboids: int, k: int)
    requires
        workers >= 1,
        0 <= id,
        0 <= k,
    ensures
        k < batch_count(id, workers, cuboids) <==> batch_checksum(id, workers, k) < cuboids,
        0 <= batch_count(id, workers, cuboids),
        id <= batch_checksum(id, workers, k),
{
    lemma_mul_nonnegative(k, workers);
    if id < cuboids {
        let n = cuboids - id;
        let q = (n + workers - 1) / workers;
        let r = (n + workers - 1) % workers;
        lemma_fundamental_div_mod(n + workers - 1, workers);
        lemma_mod_bound(n + workers - 1, workers);
        lemma_mul_is_commutative(workers, q);
        // q * workers is the largest multiple of workers below n + workers
        if k < q {
            lemma_mul_inequality(k + 1, q, workers);
            lemma_mul_is_distributive_add_other_way(workers, k, 1);
        } else {
            lemma_mul_inequality(q, k, workers);
        }
        if q < 0 {
            lemma_mul_inequality(q, -1, workers);
        }
    }
}

/// Two batches with the same value are the same batch of the same worker.
pub proof fn lemma_batches_differ(workers: int, id: int, k: int, other_id: int, other_k: int)
    requires
        0 <= id < workers,
        0 <= other_id < workers,
        batch_checksum(id, workers, k) == batch_checksum(other_id, workers, other_k),
    ensures
        id == other_id,
        k == other_k,
{
    let value = batch_checksum(id, workers, k);
    lemma_fundamental_div_mod_converse(value, workers, k, id);
    lemma_fundamental_div_mod_converse(value, workers, other_k, other_id);
}

/// Every value of the space is the `c / workers`-th batch of worker
/// `c % workers`.
pub proof fn lemma_value_has_batch(workers: int, cuboids: int, c: int)
    requires
        workers >= 1,
        0 <= c < cuboids,
    ensures
        0 <= c % workers < workers,
        0 <= c / workers < batch_count(c % workers, workers, cuboids),
        batch_checksum(c % workers, workers, c / workers) == c,
        owns(c % workers, workers, cuboids, c),
{
    lemma_fundamental_div_mod(c, workers);
    lemma_mod_bound(c, workers);
    let id = c % workers;
    let k = c / workers;
    assert(workers * k == k * workers) by (nonlinear_arith);
    assert(0 <= k) by (nonlinear_arith)
        requires
            c == workers * k + id,
            0 <= id < workers,
            0 <= c,
    ;
    lemma_batch_in_space(id, workers, cuboids, k);
}

/// The workers' shares cover the space exactly once: every value of the space
/// belongs to one worker and to no other, at one place of its share, and no
/// share holds anything else.
pub proof fn lemma_partition_complete(workers: int, cuboids: int)
    requires
        workers >= 1,
        cuboids >= 1,
    ensures
        forall|c: int|
            0 <= c < cuboids ==> 0 <= c % workers < workers && #[trigger] owns(
                c % workers,
                workers,
                cuboids,
                c,
            ),
        forall|id: int, c: int|
            0 <= id < workers && #[trigger] owns(id, workers, cuboids, c) ==> 0 <= c < cuboids
                && id == c % workers,
        forall|id: int, k: int, j: int|
            0 <= id < workers && 0 <= k < j < batch_count(id, workers, cuboids)
                ==> #[trigger] batch_checksum(id, workers, k) != #[trigger] batch_checksum(
                id,
                workers,
                j,
            ),
{
    assert forall|c: int| 0 <= c < cuboids implies 0 <= c % workers < workers && #[trigger] owns(
        c % workers,
        workers,
        cuboids,
        c,
    ) by {
        lemma_value_has_batch(workers, cuboids, c);
    }
    assert forall|id: int, c: int|
        0 <= id < workers && #[trigger] owns(id, workers, cuboids, c) implies 0 <= c < cuboids
        && id == c % workers by {
        let k = choose|k: int|
            0 <= k < batch_count(id, workers, cuboids) && c == #[trigger] batch_checksum(
                id,
                workers,
                k,
            );
        lemma_batch_in_space(id, workers, cuboids, k);
        lemma_value_has_batch(workers, cuboids, c);
        lemma_batches_differ(workers, id, k, c % workers, c / workers);
    }
    assert forall|id: int, k: int, j: int|
        0 <= id < workers && 0 <= k < j < batch_count(
            id,
            workers,
            cuboids,
        ) implies #[trigger] batch_checksum(id, workers, k) != #[trigger] batch_checksum(
        id,
        workers,
        j,
    ) by {
        if batch_checksum(id, workers, k) == batch_checksum(id, workers, j) {
            lemma_batches_differ(workers, id, k, id, j);
        }
    }
}

/// Counts the batches of worker `id`.
pub fn count_batches(id: u16, workers: u16, cuboids: u16) -> (n: u16)
    requires
        workers >= 1,
    ensures
        n == batch_count(id as int, workers as int, cuboids as int),
{
    if id >= cuboids {
        return 0;
    }
    let left: u32 = (cuboids - id) as u32;
    let n: u32 = (left + (workers as u32) - 1) / (workers as u32);
    proof {
        // the last batch has a value below 2^16, and so has its index
        if n >= 1 {
            lemma_batch_in_space(id as int, workers as int, cuboids as int, n - 1);
            lemma_mul_inequality(1, workers as int, n - 1);
            lemma_mul_is_commutative(workers as int, n - 1);
        }
    }
    n as u16
}

/// The value of the `k`-th batch of worker `id`, if it has that many.
pub fn nth_checksum(id: u16, workers: u16, cuboids: u16, k: u16) -> (c: Option<u16>)
    requires
        workers >= 1,
    ensures
        c == if k < batch_count(id as int, workers as int, cuboids as int) {
            Some(batch_checksum(id as int, workers as int, k as int) as u16)
        } else {
            None
        },
        c is Some ==> c->Some_0 == batch_checksum(id as int, workers as int, k as int),
{
    proof {
        lemma_batch_in_space(id as int, workers as int, cuboids as int, k as int);
        assert(0 <= k * workers <= 0xffff * 0xffff) by (nonlinear_arith)
            requires
                0 <= k <= 0xffff,
                0 <= workers <= 0xffff,
        ;
    }
    let value: u64 = (id as u64) + (k as u64) * (workers as u64);
    if value < cuboids as u64 {
        Some(value as u16)
    } else {
        None
    }
}

/// The worker that owns the value `c`, whatever the size of the space.
pub fn owner_of(c: u16, workers: u16) -> (id: u16)
    requires
        workers >= 1,
    ensures
        id == c % workers,
        id < workers,
        batch_checksum(id as int, workers as int, c as int / workers as int) == c,
{
    proof {
        lemma_value_has_batch(workers as int, c + 1, c as int);
    }
    c % workers
}

/// Lists the values of worker `id` in the order in which it works on them.
pub fn assigned_checksums(id: u16, workers: u16, cuboids: u16) -> (list: Vec<u16>)
    requires
        workers >= 1,
    ensures
        list@.map_values(|c: u16| c as int) == assigned(id as int, workers as int, cuboids as int),
{
    let mut list: Vec<u16> = Vec::new();
    let mut next: u32 = id as u32;
    let ghost goal = assigned(id as int, workers as int, cuboids as int);
    while next < cuboids as u32
        invariant
            workers >= 1,
            goal == assigned(id as int, workers as int, cuboids as int),
            next == batch_checksum(id as int, workers as int, list@.len() as int),
            list@.len() <= goal.len(),
            list@.map_values(|c: u16| c as int) == goal.subrange(0, list@.len() as int),
        decreases 0x2_0000 - next,
    {
        let ghost k = list@.len() as int;
        let ghost before = list@;
        proof {
            lemma_batch_in_space(id as int, workers as int, cuboids as int, k);
            assert((k + 1) * workers == k * workers + workers) by (nonlinear_arith);
        }
        list.push(next as u16);
        assert(list@.map_values(|c: u16| c as int) == goal.subrange(0, k + 1)) by {
            assert(list@.map_values(|c: u16| c as int) == before.map_values(|c: u16| c as int).push(
                next as int,
            ));
            assert(goal.subrange(0, k + 1) == goal.subrange(0, k).push(goal[k]));
        }
        next = next + workers as u32;
    }
    proof {
        lemma_batch_in_space(id as int, workers as int, cuboids as int, list@.len() as int);
        assert(goal.subrange(0, goal.len() as int) == goal);
    }
    list
}

} // verus!
