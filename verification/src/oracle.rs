//! The scalar validity predicate: a checksum over all ten digits and a
//! calendar check of the first six.
//!
//! It is the yardstick for the evaluator's masks and is not meant to be fast.

use vstd::prelude::*;

verus! {

/// A digit doubled, less 9 where the doubled value exceeds 9.
pub open spec fn doubled(d: int) -> int {
    if 2 * d > 9 {
        2 * d - 9
    } else {
        2 * d
    }
}

/// What the digit `d` at index `i` of a ten-digit number adds to the checksum.
///
/// Counting from the right, every second digit is doubled. The rightmost
/// digit has index 9.
pub open spec fn luhn_term(i: int, d: int) -> int {
    if (9 - i) % 2 == 0 {
        d
    } else {
        doubled(d)
    }
}

/// The checksum of the first `n` digits of `pin`.
pub open spec fn luhn_sum(pin: Seq<i32>, n: int) -> int
    decreases n,
{
    if n <= 0 {
        0
    } else {
        luhn_sum(pin, n - 1) + luhn_term(n - 1, pin[n - 1] as int)
    }
}

/// The checksum rule: the sum over all ten digits is a multiple of 10.
pub open spec fn luhn_ok(pin: Seq<i32>) -> bool {
    luhn_sum(pin, 10) % 10 == 0
}

/// The number that two decimal digits spell.
pub open spec fn two_digits(tens: int, ones: int) -> int {
    tens * 10 + ones
}

pub open spec fn pin_year(pin: Seq<i32>) -> int {
    two_digits(pin[0] as int, pin[1] as int)
}

pub open spec fn pin_month(pin: Seq<i32>) -> int {
    two_digits(pin[2] as int, pin[3] as int)
}

pub open spec fn pin_day(pin: Seq<i32>) -> int {
    two_digits(pin[4] as int, pin[5] as int)
}

/// The last day of `month` in the two-digit `year`. Every fourth year is a
/// leap year; century years are not treated differently.
pub open spec fn max_day(year: int, month: int) -> int {
    if month == 2 {
        if year % 4 == 0 {
            29
        } else {
            28
        }
    } else if month == 4 || month == 6 || month == 9 || month == 11 {
        30
    } else {
        31
    }
}

/// A day of the calendar month.
pub open spec fn in_month(day: int, last: int) -> bool {
    1 <= day <= last
}

/// A day of the second band, which reaches 60 days past the month's end.
pub open spec fn in_shifted_band(day: int, last: int) -> bool {
    last < day <= last + 60
}

/// The date rule over the first six digits, read as year, month and day.
pub open spec fn date_ok(pin: Seq<i32>) -> bool {
    let last = max_day(pin_year(pin), pin_month(pin));
    &&& 1 <= pin_month(pin) <= 12
    &&& (in_month(pin_day(pin), last) || in_shifted_band(pin_day(pin), last))
}

/// A number is valid when both rules hold.
pub open spec fn pin_ok(pin: Seq<i32>) -> bool {
    date_ok(pin) && luhn_ok(pin)
}

/// The checksum rule written out: the digits at the indices 1, 3, 5, 7 and 9
/// count as they are, those at 0, 2, 4, 6 and 8 doubled, and the number passes
/// exactly when the ten terms add up to a multiple of 10.
pub proof fn lemma_luhn_rule(pin: Seq<i32>)
    requires
        pin.len() == 10,
    ensures
        luhn_sum(pin, 10) == doubled(pin[0] as int) + pin[1] + doubled(pin[2] as int) + pin[3]
            + doubled(pin[4] as int) + pin[5] + doubled(pin[6] as int) + pin[7] + doubled(
            pin[8] as int,
        ) + pin[9],
        luhn_ok(pin) <==> (doubled(pin[0] as int) + pin[1] + doubled(pin[2] as int) + pin[3]
            + doubled(pin[4] as int) + pin[5] + doubled(pin[6] as int) + pin[7] + doubled(
            pin[8] as int,
        ) + pin[9]) % 10 == 0,
{
    reveal_with_fuel(luhn_sum, 11);
}

/// The date rule case by case. In a month from 1 to 12 every day from the
/// 1st to the month's last is accepted, and so is every day of the band of
/// 60 days after the last. Day 0, month 0 and the months past 12 are
/// rejected, and so is every day past the band. February has 29 days in
/// the years that 4 divides and 28 in the others.
pub proof fn lemma_date_rule(pin: Seq<i32>)
    requires
        pin.len() == 10,
    ensures
        ({
            let last = max_day(pin_year(pin), pin_month(pin));
            let month = pin_month(pin);
            let day = pin_day(pin);
            &&& 1 <= month <= 12 && 1 <= day <= last ==> date_ok(pin)
            &&& 1 <= month <= 12 && last < day <= last + 60 ==> date_ok(pin)
            &&& day <= 0 ==> !date_ok(pin)
            &&& month <= 0 ==> !date_ok(pin)
            &&& month > 12 ==> !date_ok(pin)
            &&& day > last + 60 ==> !date_ok(pin)
            &&& 28 <= last <= 31
            &&& month == 2 ==> last == (if pin_year(pin) % 4 == 0 {
                29int
            } else {
                28int
            })
        }),
{
}

/// Checks the checksum of one number.
pub fn check_luhns(pin: [i32; 10]) -> (ok: bool)
    ensures
        ok == luhn_ok(pin@),
{
    let mut sum: i64 = 0;
    let mut i: usize = 0;
    while i < 10
        invariant
            i <= 10,
            sum == luhn_sum(pin@, i as int),
            -0x1_0000_0000 * i <= sum <= 0x1_0000_0000 * i,
        decreases 10 - i,
    {
        let d: i64 = pin[i] as i64;
        let term: i64 = if i % 2 == 1 {
            d
        } else if d >= 5 {
            2 * d - 9
        } else {
            2 * d
        };
        sum = sum + term;
        i = i + 1;
    }
    sum % 10 == 0
}

fn two_digit_value(tens: i32, ones: i32) -> (v: i64)
    ensures
        v == two_digits(tens as int, ones as int),
{
    (tens as i64) * 10 + (ones as i64)
}

/// Checks the date of one number.
pub fn check_date(pin: [i32; 10]) -> (ok: bool)
    ensures
        ok == date_ok(pin@),
{
    let year: i64 = two_digit_value(pin[0], pin[1]);
    let month: i64 = two_digit_value(pin[2], pin[3]);
    let day: i64 = two_digit_value(pin[4], pin[5]);
    if month > 12 || month < 1 {
        return false;
    }
    let last: i64 = if month == 2 {
        if year % 4 == 0 {
            29
        } else {
            28
        }
    } else if month == 4 || month == 6 || month == 9 || month == 11 {
        30
    } else {
        31
    };
    1 <= day && day <= last + 60
}

/// Checks one number against both rules.
pub fn check(pin: [i32; 10]) -> (ok: bool)
    ensures
        ok == pin_ok(pin@),
{
    check_date(pin) && check_luhns(pin)
}

/// A verdict that differs from the expected one, with the verdict of each
/// rule.
#[derive(Clone, Copy, Debug, PartialEq, Eq)]
pub struct PinMismatch {
    pub pin: [i32; 10],
    pub expected: bool,
    pub actual: bool,
    pub luhns: bool,
    pub date: bool,
}

/// What `test_pin` returns.
pub open spec fn pin_report(pin: [i32; 10], expected: bool) -> Result<(), PinMismatch> {
    if pin_ok(pin@) == expected {
        Ok(())
    } else {
        Err(
            PinMismatch {
                pin,
                expected,
                actual: pin_ok(pin@),
                luhns: luhn_ok(pin@),
                date: date_ok(pin@),
            },
        )
    }
}

/// Holds the verdict on one number against the expected one, and reports a
/// difference together with what each rule says.
pub fn test_pin(pin: [i32; 10], expected: bool) -> (r: Result<(), PinMismatch>)
    ensures
        r == pin_report(pin, expected),
{
    let actual = check(pin);
    if actual == expected {
        return Ok(());
    }
    Err(PinMismatch { pin, expected, actual, luhns: check_luhns(pin), date: check_date(pin) })
}

} // verus!
