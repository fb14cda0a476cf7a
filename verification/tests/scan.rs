use pin_search::domain::{BatchParameters, IterationDomain};
use pin_search::oracle::{check, test_pin, PinMismatch};
use pin_search::scan::{candidate, cross_check, decode_record, scan_line};
use pin_search::serializer::{format_record, serialize};

#[test]
fn a_record_is_read_as_its_ten_digits() {
    assert_eq!(decode_record(b"061009-2454"), Some([0, 6, 1, 0, 0, 9, 2, 4, 5, 4]));
    assert_eq!(decode_record(b"999999-9999"), Some([9; 10]));
    assert_eq!(decode_record(b"000000-0000"), Some([0; 10]));
}

#[test]
fn what_is_no_record_is_not_read() {
    assert_eq!(decode_record(b""), None);
    assert_eq!(decode_record(b"061009-245"), None);
    assert_eq!(decode_record(b"061009-24540"), None);
    assert_eq!(decode_record(b"06100902454"), None);
    assert_eq!(decode_record(b"06100-92454"), None);
    assert_eq!(decode_record(b"0610a9-2454"), None);
    assert_eq!(decode_record(b"061009-245/"), None);
    assert_eq!(decode_record(b"061009-245:"), None);
    assert_eq!(decode_record(b"-61009-2454"), None);
}

#[test]
fn a_line_is_read_token_by_token() {
    assert_eq!(scan_line(b""), Vec::<[i32; 10]>::new());
    assert_eq!(
        scan_line(b"000000-0000 000001-0007 "),
        vec![[0; 10], [0, 0, 0, 0, 0, 1, 0, 0, 0, 7]]
    );
    assert_eq!(scan_line(b"061009-2454"), vec![[0, 6, 1, 0, 0, 9, 2, 4, 5, 4]]);
    assert_eq!(
        scan_line(b"  junk 061009-2454  0610092454 123456-7890"),
        vec![[0, 6, 1, 0, 0, 9, 2, 4, 5, 4], [1, 2, 3, 4, 5, 6, 7, 8, 9, 0]]
    );
    assert_eq!(scan_line(b"061009-2454061009-2454 "), Vec::<[i32; 10]>::new());
}

#[test]
fn what_is_written_is_read_back() {
    let domain = IterationDomain::new(97, 11, 30, 3, 2, 2);
    let mask: Vec<bool> = (0..12).map(|i| i % 3 != 1).collect::<Vec<bool>>();
    let block = serialize(&domain, 1234, &mask).unwrap();
    let whole = String::from_utf8(block).unwrap();
    let lines: Vec<&str> = whole.lines().collect::<Vec<&str>>();
    assert_eq!(lines.len(), 3);
    for (ia, line) in lines.iter().enumerate() {
        let mut expected = Vec::new();
        for ib in 0..2usize {
            for ic in 0..2usize {
                if mask[ia + 3 * ib + 6 * ic] {
                    let (a, b, c) = (97 + ia as i32, 11 + ib as i32, 30 + ic as i32);
                    expected.push([a / 10, a % 10, b / 10, b % 10, c / 10, c % 10, 1, 2, 3, 4]);
                }
            }
        }
        assert_eq!(scan_line(line.as_bytes()), expected);
    }
}

#[test]
fn a_mask_taken_from_the_predicate_is_written_and_passes_it() {
    let domain = IterationDomain::new(0, 0, 0, 8, 14, 100);
    let index = |a: usize, b: usize, c: usize| a + 8 * b + 8 * 14 * c;
    for checksum in [2454u16, 0, 9999] {
        let suffix = [
            (checksum / 1000) as i32,
            (checksum / 100 % 10) as i32,
            (checksum / 10 % 10) as i32,
            (checksum % 10) as i32,
        ];
        let mut mask = vec![false; 8 * 14 * 100];
        let mut accepted = 0;
        for a in 0..8 {
            for b in 0..14 {
                for c in 0..100 {
                    let pin = [
                        a as i32 / 10,
                        a as i32 % 10,
                        b as i32 / 10,
                        b as i32 % 10,
                        c as i32 / 10,
                        c as i32 % 10,
                        suffix[0],
                        suffix[1],
                        suffix[2],
                        suffix[3],
                    ];
                    if check(pin) {
                        mask[index(a, b, c)] = true;
                        accepted += 1;
                    }
                }
            }
        }
        assert!(accepted > 0);
        let block = serialize(&domain, checksum, &mask).unwrap();
        let mut read = 0;
        for line in block.split(|b| *b == b'\n') {
            for pin in scan_line(line) {
                assert_eq!(test_pin(pin, true), Ok(()));
                read += 1;
            }
        }
        assert_eq!(read, accepted);
    }
}

#[test]
fn a_written_record_is_read_as_the_digits_it_was_written_from() {
    for (a, b, c, checksum) in [(0u16, 0u16, 0u16, 0u16), (6, 10, 9, 2454), (99, 99, 99, 9999), (1, 20, 3, 40)] {
        let digits = [
            (a / 10) as i32,
            (a % 10) as i32,
            (b / 10) as i32,
            (b % 10) as i32,
            (c / 10) as i32,
            (c % 10) as i32,
            (checksum / 1000) as i32,
            (checksum / 100 % 10) as i32,
            (checksum / 10 % 10) as i32,
            (checksum % 10) as i32,
        ];
        assert_eq!(decode_record(&format_record(a, b, c, checksum)), Some(digits));
    }
}

#[test]
fn the_candidate_of_a_cell_is_its_components_and_the_suffix() {
    let p = BatchParameters::new(IterationDomain::new(6, 10, 5, 3, 3, 10), 2454);
    assert_eq!(candidate(&p, 0, 0, 4), [0, 6, 1, 0, 0, 9, 2, 4, 5, 4]);
    assert_eq!(candidate(&p, 2, 1, 9), [0, 8, 1, 1, 1, 4, 2, 4, 5, 4]);
}

#[test]
fn a_mask_is_held_against_the_predicate_cell_by_cell() {
    let p = BatchParameters::new(IterationDomain::new(6, 10, 5, 3, 3, 10), 2454);
    let mut mask = vec![false; 90];
    for a in 0..3u16 {
        for b in 0..3u16 {
            for c in 0..10u16 {
                mask[p.domain.index_of(a, b, c) as usize] = check(candidate(&p, a, b, c));
            }
        }
    }
    for a in 0..3u16 {
        for b in 0..3u16 {
            for c in 0..10u16 {
                assert_eq!(cross_check(&p, &mask, a, b, c), Ok(()));
            }
        }
    }
    let at = p.domain.index_of(0, 0, 4) as usize;
    assert!(mask[at]);
    mask[at] = false;
    assert_eq!(
        cross_check(&p, &mask, 0, 0, 4),
        Err(PinMismatch {
            pin: [0, 6, 1, 0, 0, 9, 2, 4, 5, 4],
            expected: false,
            actual: true,
            luhns: true,
            date: true
        })
    );
    let at = p.domain.index_of(0, 0, 5) as usize;
    assert!(!mask[at]);
    mask[at] = true;
    assert_eq!(
        cross_check(&p, &mask, 0, 0, 5),
        Err(PinMismatch {
            pin: [0, 6, 1, 0, 1, 0, 2, 4, 5, 4],
            expected: true,
            actual: false,
            luhns: false,
            date: true
        })
    );
}
