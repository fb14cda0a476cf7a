use pin_search::partition::{count_batches, nth_checksum};
use pin_search::turn::{Coordinator, TurnError};

#[test]
fn there_is_no_token_without_workers() {
    assert!(Coordinator::new(0).is_none());
    let c = Coordinator::new(1).unwrap();
    assert_eq!(c.workers(), 1);
    assert_eq!(c.holder(), 0);
}

#[test]
fn the_token_starts_with_the_first_worker() {
    let c = Coordinator::new(8).unwrap();
    assert_eq!(c.holder(), 0);
    assert!(c.acquire(0));
    for id in 1..8 {
        assert!(!c.acquire(id));
    }
}

#[test]
fn only_the_holder_hands_the_token_on() {
    let mut c = Coordinator::new(3).unwrap();
    assert_eq!(c.release(1), Err(TurnError::NotYourTurn));
    assert_eq!(c.release(3), Err(TurnError::NoSuchWorker));
    assert_eq!(c.holder(), 0);
    assert_eq!(c.release(0), Ok(()));
    assert_eq!(c.holder(), 1);
    assert_eq!(c.release(0), Err(TurnError::NotYourTurn));
    assert_eq!(c.release(1), Ok(()));
    assert_eq!(c.release(2), Ok(()));
    assert_eq!(c.holder(), 0);
}

#[test]
fn a_single_worker_keeps_the_token() {
    let mut c = Coordinator::new(1).unwrap();
    for _ in 0..5 {
        assert!(c.acquire(0));
        assert_eq!(c.release(0), Ok(()));
    }
}

/// Two workers ask for the turn again and again; `eager` asks `skew` times
/// as often as the other. Returns who wrote, in order.
fn run_two(eager: u16, skew: usize, rounds: usize) -> Vec<u16> {
    let mut c = Coordinator::new(2).unwrap();
    let mut holders = Vec::new();
    let mut tick = 0usize;
    while holders.len() < rounds {
        let id = if tick % (skew + 1) == skew { 1 - eager } else { eager };
        tick += 1;
        if c.acquire(id) {
            holders.push(id);
            assert_eq!(c.release(id), Ok(()));
        } else {
            assert_eq!(c.release(id), Err(TurnError::NotYourTurn));
        }
    }
    holders
}

#[test]
fn two_workers_alternate_whoever_is_faster() {
    let expected: Vec<u16> = (0..20).map(|n| n % 2).collect::<Vec<u16>>();
    for skew in [1, 2, 5, 50] {
        assert_eq!(run_two(0, skew, 20), expected);
        assert_eq!(run_two(1, skew, 20), expected);
    }
}

#[test]
fn blocks_are_written_in_the_order_of_their_values() {
    for (workers, cuboids) in [(2u16, 7u16), (3, 10), (8, 3), (5, 5)] {
        let mut c = Coordinator::new(workers).unwrap();
        let mut done = vec![0u16; workers as usize];
        for n in 0..cuboids {
            let id = c.holder();
            assert_eq!(id, n % workers);
            assert!(done[id as usize] < count_batches(id, workers, cuboids));
            assert_eq!(nth_checksum(id, workers, cuboids, done[id as usize]), Some(n));
            done[id as usize] += 1;
            assert_eq!(c.release(id), Ok(()));
        }
        for id in 0..workers {
            assert_eq!(done[id as usize], count_batches(id, workers, cuboids));
        }
    }
}
