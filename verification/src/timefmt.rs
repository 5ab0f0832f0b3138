//! Time Codec: converts the packet's embedded accept-time digit string into a
//! sortable integer offset, and renders both time fields through the calendar
//! library.

use vstd::prelude::*;
use vstd::arithmetic::div_mod::lemma_fundamental_div_mod_converse;
use crate::numtext::digit_val;
use crate::numtext::is_digit_char;

verus! {

/// Accept-time units (the microsecond-scale tick of the feed) in one hour.
pub const UNITS_PER_HOUR: i64 = 3_600_000_000;

/// Accept-time units in one minute.
pub const UNITS_PER_MINUTE: i64 = 60_000_000;

/// Accept-time units in one second.
pub const UNITS_PER_SECOND: i64 = 1_000_000;

/// The exchange reports local time of day at UTC+9; this many units are
/// subtracted to shift the offset to UTC.
pub const UTC_SHIFT: i64 = 32_400_000_000;

/// The fixed reference instant for accept-time display, as seconds since the
/// Unix epoch: 2011-02-16T00:00:00Z. The displayed calendar date is taken
/// from this constant, not from the frame's capture date, so it is only
/// right for captures taken on that day; this mirrors the feed tooling this
/// output must stay comparable with.
pub const ACCEPT_BASE_SECONDS: i64 = 1_297_814_400;

/// The value of the 2-digit group starting at index `i`.
pub open spec fn two_digit_group(s: Seq<char>, i: int) -> int {
    digit_val(s[i]) * 10 + digit_val(s[i + 1])
}

/// Whether the field carries the 8 leading digits `HHMMSSuu` that the
/// accept-time decoder reads.
pub open spec fn accept_digits_ok(s: Seq<char>) -> bool {
    &&& s.len() >= 8
    &&& forall|i: int| 0 <= i < 8 ==> is_digit_char(s[i])
}

/// The accept-time offset that an 8-digit group string decodes to: hours,
/// minutes, seconds and a trailing hundredths-scale unit, summed in
/// microsecond-scale units, shifted from exchange-local UTC+9 down to UTC.
pub open spec fn accept_spec(s: Seq<char>) -> Option<int> {
    if accept_digits_ok(s) {
        Some(
            two_digit_group(s, 0) * UNITS_PER_HOUR + two_digit_group(s, 2) * UNITS_PER_MINUTE
                + two_digit_group(s, 4) * UNITS_PER_SECOND + two_digit_group(s, 6) - UTC_SHIFT,
        )
    } else {
        None
    }
}

/// Every decodable accept time lies in this band: each 2-digit group is at
/// most 99, and the UTC shift can push the offset below zero.
pub open spec fn accept_in_range(t: int) -> bool {
    -32_400_000_000 <= t <= 330_039_000_099
}

/// Decodes the accept-time field `HHMMSSuu`: four 2-digit groups summed in
/// microsecond-scale units, minus the 9-hour shift to UTC. `None` exactly
/// when the field is shorter than 8 characters or a group holds a non-digit.
pub fn accept_dt(a: &str) -> (r: Option<i64>)
    ensures
        match r {
            Some(v) => accept_spec(a@) == Some(v as int) && accept_in_range(v as int),
            None => accept_spec(a@) is None,
        },
{
    let n: usize = a.unicode_len();
    if n < 8 {
        return None;
    }
    let d0: i64 = match digit_at(a, 0) {
        Some(d) => d,
        None => { return None },
    };
    let d1: i64 = match digit_at(a, 1) {
        Some(d) => d,
        None => { return None },
    };
    let d2: i64 = match digit_at(a, 2) {
        Some(d) => d,
        None => { return None },
    };
    let d3: i64 = match digit_at(a, 3) {
        Some(d) => d,
        None => { return None },
    };
    let d4: i64 = match digit_at(a, 4) {
        Some(d) => d,
        None => { return None },
    };
    let d5: i64 = match digit_at(a, 5) {
        Some(d) => d,
        None => { return None },
    };
    let d6: i64 = match digit_at(a, 6) {
        Some(d) => d,
        None => { return None },
    };
    let d7: i64 = match digit_at(a, 7) {
        Some(d) => d,
        None => { return None },
    };
    let hour: i64 = d0 * 10 + d1;
    let minute: i64 = d2 * 10 + d3;
    let second: i64 = d4 * 10 + d5;
    let unit: i64 = d6 * 10 + d7;
    let total: i64 = hour * UNITS_PER_HOUR + minute * UNITS_PER_MINUTE + second * UNITS_PER_SECOND
        + unit;
    Some(total - UTC_SHIFT)
}

/// Reads one character as an ASCII digit value.
fn digit_at(a: &str, i: usize) -> (r: Option<i64>)
    requires
        i < a@.len(),
    ensures
        match r {
            Some(d) => is_digit_char(a@[i as int]) && d == digit_val(a@[i as int]),
            None => !is_digit_char(a@[i as int]),
        },
{
    let c: char = a.get_char(i);
    let cu: u32 = c as u32;
    if cu < 48 || cu > 57 {
        proof {
            assert(c as int == cu as int);
        }
        None
    } else {
        proof {
            assert(c as int == cu as int);
        }
        Some((cu - 48) as i64)
    }
}

/// Accept-time arithmetic inverts: adding the 9-hour shift back onto a
/// decoded offset and splitting by hours, minutes, seconds and trailing
/// units reconstructs the groups the field carried, whenever minutes and
/// seconds are in their calendar bands.
pub proof fn lemma_accept_time_reconstructs(h: int, m: int, s: int, u: int)
    requires
        0 <= h <= 99,
        0 <= m < 60,
        0 <= s < 60,
        0 <= u < 100,
    ensures
        ({
            let total = h * UNITS_PER_HOUR + m * UNITS_PER_MINUTE + s * UNITS_PER_SECOND + u
                - UTC_SHIFT;
            let back = total + UTC_SHIFT;
            &&& back / (UNITS_PER_HOUR as int) == h
            &&& (back % (UNITS_PER_HOUR as int)) / (UNITS_PER_MINUTE as int) == m
            &&& ((back % (UNITS_PER_HOUR as int)) % (UNITS_PER_MINUTE as int)) / (
            UNITS_PER_SECOND as int) == s
            &&& ((back % (UNITS_PER_HOUR as int)) % (UNITS_PER_MINUTE as int)) % (
            UNITS_PER_SECOND as int) == u
        }),
{
    let r1 = m * (UNITS_PER_MINUTE as int) + s * (UNITS_PER_SECOND as int) + u;
    let back = h * (UNITS_PER_HOUR as int) + r1;
    lemma_fundamental_div_mod_converse(back, UNITS_PER_HOUR as int, h, r1);
    let r2 = s * (UNITS_PER_SECOND as int) + u;
    lemma_fundamental_div_mod_converse(r1, UNITS_PER_MINUTE as int, m, r2);
    lemma_fundamental_div_mod_converse(r2, UNITS_PER_SECOND as int, s, u);
}

/// The capture-time rendering: what the frame's whole-seconds timestamp looks
/// like as a second-resolution UTC calendar time, `%Y-%m-%dT%H:%M:%S`.
pub uninterp spec fn capture_fmt_of(t: u32) -> Seq<char>;

/// Relies on chrono's `DateTime::<Utc>::from_timestamp` and strftime-style
/// formatting with `"%Y-%m-%dT%H:%M:%S"`: the rendering is a function of the
/// seconds value alone, and every unsigned 32-bit seconds value lies inside
/// chrono's calendar range.
#[verifier::external_body]
pub fn fmt_capture_time(t: u32) -> (r: String)
    ensures
        r@ == capture_fmt_of(t),
{
    let dt = chrono::DateTime::<chrono::Utc>::from_timestamp(t as i64, 0).unwrap();
    dt.format("%Y-%m-%dT%H:%M:%S").to_string()
}

/// The accept-time rendering: the fixed reference instant plus `us`
/// microseconds, as `%Y-%m-%dT%H:%M:%S%.f` (sub-second digits appear only
/// when the fraction is non-zero).
pub uninterp spec fn accept_fmt_of(us: i64) -> Seq<char>;

/// Relies on chrono's `checked_add_signed` and strftime-style formatting with
/// `"%Y-%m-%dT%H:%M:%S%.f"`: the rendering is a function of the microsecond
/// offset alone, and for every offset within `accept_in_range` the shifted
/// instant stays inside chrono's calendar range, so the addition succeeds.
#[verifier::external_body]
pub fn fmt_accept_time(us: i64) -> (r: String)
    requires
        accept_in_range(us as int),
    ensures
        r@ == accept_fmt_of(us),
{
    let base = chrono::DateTime::<chrono::Utc>::from_timestamp(ACCEPT_BASE_SECONDS, 0).unwrap();
    let shifted = base.checked_add_signed(chrono::TimeDelta::microseconds(us)).unwrap();
    shifted.format("%Y-%m-%dT%H:%M:%S%.f").to_string()
}

} // verus!
