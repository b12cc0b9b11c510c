use vstd::prelude::*;
use crate::numeric::{all_digits, digits_value};

verus! {

/// Two decimal digits whose value is from `lo` to `hi`.
pub open spec fn two_digits_in(s: Seq<char>, lo: nat, hi: nat) -> bool {
    &&& s.len() == 2
    &&& all_digits(s)
    &&& lo <= digits_value(s) <= hi
}

/// A year as chrono's `%Y` writes it: four digits for the years 0 to 9999,
/// and otherwise a sign followed by at least four digits.
pub open spec fn is_year_text(y: Seq<char>) -> bool {
    ||| y.len() == 4 && all_digits(y)
    ||| y.len() >= 5 && (y[0] == '+' || y[0] == '-') && all_digits(y.drop_first())
}

/// A date as chrono's `%Y-%m-%d` writes it: a year, a month from 01 to 12
/// and a day from 01 to 31, joined by `-`.
pub open spec fn is_date_text(s: Seq<char>) -> bool {
    let n = s.len() as int;
    &&& n >= 10
    &&& is_year_text(s.subrange(0, n - 6))
    &&& s[n - 6] == '-'
    &&& two_digits_in(s.subrange(n - 5, n - 3), 1, 12)
    &&& s[n - 3] == '-'
    &&& two_digits_in(s.subrange(n - 2, n), 1, 31)
}

/// A time stamp as chrono's `%m-%d %H:%M` writes it: month 01 to 12, day
/// 01 to 31, hour 00 to 23 and minute 00 to 59.
pub open spec fn is_stamp_text(s: Seq<char>) -> bool {
    &&& s.len() == 11
    &&& two_digits_in(s.subrange(0, 2), 1, 12)
    &&& s[2] == '-'
    &&& two_digits_in(s.subrange(3, 5), 1, 31)
    &&& s[5] == ' '
    &&& two_digits_in(s.subrange(6, 8), 0, 23)
    &&& s[8] == ':'
    &&& two_digits_in(s.subrange(9, 11), 0, 59)
}

/// Today's date in the machine's time zone, as `chrono::Local::now()`
/// formatted with `%Y-%m-%d`. chrono documents `%Y` as the full year
/// zero-padded to four digits, with a sign outside 0 to 9999, and `%m`, `%d`
/// as the month (01 to 12) and day (01 to 31) in two digits; which date it
/// is depends on the clock and the time zone and is left unsaid.
#[verifier::external_body]
pub(crate) fn local_date() -> (r: String)
    ensures
        is_date_text(r@),
{
    chrono::Local::now().format("%Y-%m-%d").to_string()
}

/// The local time as `chrono::Local::now()` formatted with `%m-%d %H:%M`.
/// chrono documents each field as two digits: month 01 to 12, day 01 to 31,
/// hour 00 to 23, minute 00 to 59; which time it is depends on the clock and
/// the time zone and is left unsaid.
#[verifier::external_body]
pub(crate) fn local_stamp() -> (r: String)
    ensures
        is_stamp_text(r@),
{
    chrono::Local::now().format("%m-%d %H:%M").to_string()
}

/// The current month and year in the machine's time zone, read once with
/// `chrono::Local::now()` and formatted with `%m` and `%Y`. chrono documents
/// `%m` as the month number 01 to 12 in two digits, and `%Y` as the full
/// year zero-padded to four digits, with a sign outside 0 to 9999; which
/// month and year they are depends on the clock and is left unsaid.
#[verifier::external_body]
pub(crate) fn local_month_year() -> (r: (String, String))
    ensures
        two_digits_in(r.0@, 1, 12),
        is_year_text(r.1@),
{
    let now = chrono::Local::now();
    (now.format("%m").to_string(), now.format("%Y").to_string())
}

} // verus!
