//! The wall clock, as the header of a generated file shows it.

use vstd::prelude::*;

verus! {

/// `c` is a decimal digit.
pub open spec fn is_digit(c: char) -> bool {
    '0' <= c <= '9'
}

/// `s` is made of decimal digits only.
pub open spec fn all_digits(s: Seq<char>) -> bool {
    forall|i: int| 0 <= i < s.len() ==> is_digit(s[i])
}

/// `s` is a year as the time stamp writes it: four digits, or a `+` and five
/// digits or more for a year past 9999.
pub open spec fn is_year(s: Seq<char>) -> bool {
    ||| s.len() == 4 && all_digits(s)
    ||| s.len() >= 6 && s[0] == '+' && all_digits(s.skip(1))
}

/// `s` is what follows the year in a time stamp: `-`, month, `-`, day, a
/// blank, hour, `:`, minute, `:`, second, each of the five in two digits.
pub open spec fn is_month_to_second(s: Seq<char>) -> bool {
    &&& s.len() == 15
    &&& s[0] == '-' && is_digit(s[1]) && is_digit(s[2])
    &&& s[3] == '-' && is_digit(s[4]) && is_digit(s[5])
    &&& s[6] == ' ' && is_digit(s[7]) && is_digit(s[8])
    &&& s[9] == ':' && is_digit(s[10]) && is_digit(s[11])
    &&& s[12] == ':' && is_digit(s[13]) && is_digit(s[14])
}

/// `s` has the form of a time stamp, as in `2024-05-17 09:30:00`.
pub open spec fn is_timestamp(s: Seq<char>) -> bool {
    &&& s.len() >= 19
    &&& is_year(s.take(s.len() - 15))
    &&& is_month_to_second(s.skip(s.len() - 15))
}

/// Some text has the form of a time stamp: the first second of 1970 does.
pub proof fn lemma_timestamp_exists() -> (stamp: Seq<char>)
    ensures
        is_timestamp(stamp),
{
    let year = seq!['1', '9', '7', '0'];
    let rest = seq!['-', '0', '1', '-', '0', '1', ' ', '0', '0', ':', '0', '0', ':', '0', '0'];
    let stamp = year + rest;
    assert(stamp.take(stamp.len() - 15) =~= year);
    assert(stamp.skip(stamp.len() - 15) =~= rest);
    stamp
}

/// The pattern by which the clock is written out: year, month, day, hour,
/// minute and second.
pub open spec fn timestamp_pattern() -> Seq<char> {
    "%Y-%m-%d %H:%M:%S"@
}

/// The local date and time of this moment, written out by `pattern`.
///
/// Calls `chrono::Local::now` and renders what it returns with chrono's
/// `format`. Nothing is proved of this function. It is for the one pattern
/// that `timestamp_pattern` names, and its contract states the form alone,
/// which chrono gives by that pattern to every date and time that `now` can
/// return: the year in four digits, or behind a `+` in more where it is past
/// 9999, and the five other numbers in two digits each. Which time it shows
/// depends on the clock and the time zone of the machine, so two calls may
/// differ. chrono stops the program where the clock of the machine stands
/// before the year 1970.
#[verifier::external_body]
pub(crate) fn local_time(pattern: &str) -> (stamp: String)
    requires
        pattern@ == timestamp_pattern(),
    ensures
        is_timestamp(stamp@),
{
    chrono::Local::now().format(pattern).to_string()
}

} // verus!
