use pin_search::partition::{assigned_checksums, count_batches, nth_checksum, owner_of};

#[test]
fn batches_are_counted_by_rounding_up() {
    assert_eq!(count_batches(0, 8, 10_000), 1250);
    assert_eq!(count_batches(7, 8, 10_000), 1250);
    assert_eq!(count_batches(0, 3, 10), 4);
    assert_eq!(count_batches(1, 3, 10), 3);
    assert_eq!(count_batches(2, 3, 10), 3);
    assert_eq!(count_batches(0, 1, 1), 1);
    assert_eq!(count_batches(0, 1, 65_535), 65_535);
    assert_eq!(count_batches(0, 65_535, 65_535), 1);
}

#[test]
fn a_worker_past_the_space_has_no_batch() {
    assert_eq!(count_batches(3, 8, 3), 0);
    assert_eq!(count_batches(5, 8, 3), 0);
    assert_eq!(count_batches(2, 8, 3), 1);
    assert_eq!(assigned_checksums(5, 8, 3), Vec::<u16>::new());
    assert_eq!(nth_checksum(5, 8, 3, 0), None);
}

#[test]
fn values_are_a_stride_apart() {
    assert_eq!(assigned_checksums(1, 3, 10), vec![1, 4, 7]);
    assert_eq!(assigned_checksums(0, 3, 10), vec![0, 3, 6, 9]);
    assert_eq!(nth_checksum(1, 3, 10, 2), Some(7));
    assert_eq!(nth_checksum(1, 3, 10, 3), None);
    assert_eq!(nth_checksum(7, 8, 10_000, 1249), Some(9_999));
    assert_eq!(nth_checksum(7, 8, 10_000, 1250), None);
    assert_eq!(nth_checksum(65_534, 65_535, 65_535, 65_535), None);
}

#[test]
fn every_value_is_assigned_exactly_once() {
    for (workers, cuboids) in [(1u16, 1u16), (3, 10), (8, 5), (8, 10_000), (7, 100), (100, 7)] {
        let mut seen = vec![0u32; cuboids as usize];
        for id in 0..workers {
            let list = assigned_checksums(id, workers, cuboids);
            assert_eq!(list.len(), count_batches(id, workers, cuboids) as usize);
            for c in list {
                assert!(c < cuboids);
                assert_eq!(owner_of(c, workers), id);
                seen[c as usize] += 1;
            }
        }
        assert!(seen.iter().all(|n| *n == 1));
    }
}
