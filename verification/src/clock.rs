//! Time stamps and deadlines.

use crate::text;
use vstd::prelude::*;

verus! {

/// The characters `i` and `i + 1` of `s` are decimal digits.
pub open spec fn two_digits(s: Seq<char>, i: int) -> bool {
    text::is_digit(s[i], 10) && text::is_digit(s[i + 1], 10)
}

/// The number that the characters `i` and `i + 1` of `s` write.
pub open spec fn number_at(s: Seq<char>, i: int) -> nat {
    text::digits_value(s.subrange(i, i + 2), 10)
}

/// A time of day to the millisecond, such as `07:30:00.125`; the seconds reach 60 in a leap second.
pub open spec fn clock_time(s: Seq<char>) -> bool {
    &&& s.len() == 12
    &&& two_digits(s, 0) && number_at(s, 0) <= 23
    &&& s[2] == ':'
    &&& two_digits(s, 3) && number_at(s, 3) <= 59
    &&& s[5] == ':'
    &&& two_digits(s, 6) && number_at(s, 6) <= 60
    &&& s[8] == '.'
    &&& two_digits(s, 9) && text::is_digit(s[11], 10)
}

/// `n` times of day.
pub open spec fn clock_times(list: Seq<Seq<char>>, n: nat) -> bool {
    list.len() == n && forall|i: int| 0 <= i < n ==> clock_time(#[trigger] list[i])
}

/// The time of day here and now.
///
/// Trusted: `chrono::Local::now` formatted with `%H:%M:%S%.3f`. The text has the form of a time of
/// day, with every number padded by zeros to its full width. Which time it is depends on the clock
/// and the time zone of the machine, so nothing is said of that.
#[verifier::external_body]
pub(crate) fn local_time() -> (result: String)
    ensures
        clock_time(result@),
{
    chrono::Local::now().format("%H:%M:%S%.3f").to_string()
}

/// The moment `interval_ms` milliseconds after `now_ns`, in nanoseconds.
pub open spec fn deadline(now_ns: u64, interval_ms: u64) -> nat {
    (now_ns + interval_ms * 1_000_000) as nat
}

/// The moment `interval_ms` milliseconds after `now_ns`, in nanoseconds.
pub fn deadline_after(now_ns: u64, interval_ms: u64) -> (result: u128)
    ensures
        result == deadline(now_ns, interval_ms),
{
    now_ns as u128 + interval_ms as u128 * 1_000_000
}

} // verus!
