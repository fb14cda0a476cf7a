use pin_search::oracle::{check, check_date, check_luhns, test_pin, PinMismatch};

#[test]
fn known_valid() {
    assert_eq!(test_pin([0, 6, 1, 0, 0, 9, 2, 4, 5, 4], true), Ok(()));
    assert_eq!(test_pin([0, 6, 0, 3, 1, 7, 9, 2, 7, 6], true), Ok(()));

    assert_eq!(test_pin([0, 9, 0, 6, 2, 7, 8, 8, 9, 0], true), Ok(()));
    assert_eq!(test_pin([7, 1, 0, 7, 0, 8, 8, 5, 0, 7], true), Ok(()));
    assert_eq!(test_pin([6, 5, 0, 6, 1, 4, 8, 9, 9, 5], true), Ok(()));
}

#[test]
fn should_be_valid() {
    assert_eq!(test_pin([0, 0, 0, 1, 0, 6, 2, 4, 5, 4], true), Ok(()));
}

#[test]
fn faulty_date() {
    assert_eq!(test_pin([0, 1, 1, 0, 9, 5, 2, 4, 5, 4], false), Ok(()));
}

#[test]
fn faulty_luhns() {
    assert_eq!(test_pin([0, 5, 1, 3, 0, 7, 2, 4, 5, 4], false), Ok(()));
}

#[test]
fn mismatch_carries_both_verdicts() {
    let pin = [0, 6, 1, 0, 0, 9, 2, 4, 5, 4];
    assert_eq!(
        test_pin(pin, false),
        Err(PinMismatch { pin, expected: false, actual: true, luhns: true, date: true })
    );
    let wrong_sum = [0, 6, 1, 0, 0, 9, 2, 4, 5, 5];
    assert_eq!(
        test_pin(wrong_sum, true),
        Err(PinMismatch { pin: wrong_sum, expected: true, actual: false, luhns: false, date: true })
    );
    let wrong_month = [0, 6, 1, 3, 0, 9, 2, 4, 5, 4];
    let report = test_pin(wrong_month, true).unwrap_err();
    assert!(!report.date);
    assert!(!report.actual);
}

#[test]
fn luhn_sum_is_taken_with_every_second_digit_doubled() {
    // 0 + 6 + 2 + 0 + 0 + 9 + 4 + 4 + 1 + 4 = 30
    assert!(check_luhns([0, 6, 1, 0, 0, 9, 2, 4, 5, 4]));
    // the last digit is not doubled: one more makes 31
    assert!(!check_luhns([0, 6, 1, 0, 0, 9, 2, 4, 5, 5]));
    // the digit before it is doubled: 6 gives 3 where 5 gave 1, which makes 32
    assert!(!check_luhns([0, 6, 1, 0, 0, 9, 2, 4, 6, 4]));
    // 9 doubled is 18, less 9 is 9: ten times 9 at the doubled places and 0 elsewhere
    assert!(!check_luhns([9, 0, 9, 0, 9, 0, 9, 0, 9, 0]));
    assert!(check_luhns([9, 0, 9, 0, 9, 0, 9, 0, 9, 5]));
    assert!(check_luhns([0; 10]));
}

#[test]
fn swapping_the_roles_of_the_places_changes_the_verdict() {
    // 1 at a doubled place counts 2, at a plain place 1
    assert!(check_luhns([1, 8, 0, 0, 0, 0, 0, 0, 0, 0]));
    assert!(!check_luhns([8, 1, 0, 0, 0, 0, 0, 0, 0, 0]));
}

fn dated(year: i32, month: i32, day: i32) -> [i32; 10] {
    [year / 10, year % 10, month / 10, month % 10, day / 10, day % 10, 0, 0, 0, 0]
}

fn last_day(year: i32, month: i32) -> i32 {
    match month {
        2 => {
            if year % 4 == 0 {
                29
            } else {
                28
            }
        }
        4 | 6 | 9 | 11 => 30,
        _ => 31,
    }
}

#[test]
fn every_day_of_every_month_is_accepted() {
    for year in [0, 1, 4, 96, 99] {
        for month in 1..=12 {
            for day in 1..=last_day(year, month) {
                assert!(check_date(dated(year, month, day)));
            }
        }
    }
}

#[test]
fn the_band_past_the_end_of_the_month_is_accepted() {
    for year in [0, 3] {
        for month in 1..=12 {
            let last = last_day(year, month);
            for day in (last + 1)..=(last + 60) {
                assert!(check_date(dated(year, month, day)));
            }
            if last + 61 < 100 {
                assert!(!check_date(dated(year, month, last + 61)));
            }
        }
    }
}

#[test]
fn day_zero_is_rejected() {
    for month in 1..=12 {
        assert!(!check_date(dated(6, month, 0)));
    }
}

#[test]
fn month_zero_and_months_past_twelve_are_rejected() {
    assert!(!check_date(dated(6, 0, 9)));
    for month in 13..100 {
        assert!(!check_date(dated(6, month, 9)));
    }
}

#[test]
fn february_has_29_days_in_every_fourth_year() {
    // the band ends 60 days after the last day
    assert!(check_date(dated(4, 2, 89)));
    assert!(!check_date(dated(4, 2, 90)));
    assert!(check_date(dated(0, 2, 89)));
    assert!(check_date(dated(5, 2, 88)));
    assert!(!check_date(dated(5, 2, 89)));
    assert!(!check_date(dated(2, 2, 89)));
}

#[test]
fn short_months_end_on_the_30th() {
    for month in [4, 6, 9, 11] {
        assert!(check_date(dated(6, month, 90)));
        assert!(!check_date(dated(6, month, 91)));
    }
    for month in [1, 3, 5, 7, 8, 10, 12] {
        assert!(check_date(dated(6, month, 91)));
        assert!(!check_date(dated(6, month, 92)));
    }
}

#[test]
fn a_day_between_the_end_of_the_month_and_the_sixtieth_is_in_the_band() {
    assert!(check_date([0, 6, 1, 0, 5, 8, 2, 4, 5, 4]));
    assert!(check([0, 6, 1, 0, 5, 8, 2, 4, 5, 4]));
}

#[test]
fn both_rules_have_to_hold() {
    assert!(check([0, 6, 1, 0, 0, 9, 2, 4, 5, 4]));
    // the date holds, the sum does not
    assert!(!check([0, 6, 1, 0, 0, 9, 2, 4, 5, 5]));
    // the sum holds, the date does not: month 00
    assert!(check_luhns([0, 6, 0, 0, 0, 9, 2, 4, 5, 6]));
    assert!(!check([0, 6, 0, 0, 0, 9, 2, 4, 5, 6]));
}

#[test]
fn numbers_outside_a_digit_are_taken_as_they_are() {
    // the tens place holds 12: month 120
    assert!(!check_date([0, 6, 12, 0, 0, 9, 0, 0, 0, 0]));
    // a negative day
    assert!(!check_date([0, 6, 1, 0, 0, -1, 0, 0, 0, 0]));
    assert!(!check_date([0, 6, 1, 0, i32::MIN, i32::MIN, 0, 0, 0, 0]));
    // 20 at a plain place and nothing else
    assert!(check_luhns([0, 20, 0, 0, 0, 0, 0, 0, 0, 0]));
    // 2^31 - 1 at every place: 15 * (2^31 - 1) - 45 = 32212254660
    assert!(check_luhns([i32::MAX; 10]));
    // 2^31 - 1 at a doubled place: 2 * (2^31 - 1) - 9 = 4294967285
    assert!(!check_luhns([i32::MAX, 0, 0, 0, 0, 0, 0, 0, 0, 0]));
    assert!(check_luhns([i32::MAX, 5, 0, 0, 0, 0, 0, 0, 0, 0]));
}
