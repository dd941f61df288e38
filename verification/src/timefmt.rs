//! Timestamp normalization: turn a feed-supplied textual date into a
//! canonical instant (seconds since the Unix epoch, UTC), trying a fixed
//! order of known formats until one accepts the whole string.
//!
//! The candidate formats, in order:
//! 1. a generic date-time: ISO date and clock time split by `T`, `t` or a
//!    space, with a mandatory `Z` or `+hh:mm`/`-hh:mm` offset;
//! 2. the Internet-message date (as in `Mon, 02 Jan 2006 15:04:05 -0700`);
//! 3. the internet-standard profile: like the generic form but with a `T`
//!    or `t` separator only and optional fractional seconds, which are
//!    ignored;
//! 4. the Internet-message date again after appending a synthetic zero UTC
//!    offset, to tolerate feeds that omit the required timezone.
//!
//! Looser formats must not mis-parse stricter ones, so the order is part
//! of the contract. The grammar covers years 1970 through 9999; in the
//! message format the month and weekday names are the capitalized
//! three-letter English forms, a named zone may be `GMT`, `UT` or `UTC`,
//! and a given weekday name must agree with the date.

use vstd::prelude::*;
use vstd::arithmetic::div_mod::lemma_div_is_ordered;
use vstd::string::StringSliceAdditionalSpecFns;

verus! {

/// A canonical instant: seconds since 1970-01-01T00:00:00Z.
#[derive(Debug, Clone, Copy, PartialEq, Eq, Structural)]
pub struct Timestamp {
    pub seconds: i64,
}

/// Why a textual timestamp was rejected.
#[derive(Debug, Clone, Copy, PartialEq, Eq, Structural)]
pub enum TimeError {
    /// Every candidate format was exhausted without a match.
    UnparsableTimestamp,
}

/// An ASCII decimal digit.
pub open spec fn is_digit(b: u8) -> bool {
    ('0' as u8) <= b && b <= ('9' as u8)
}

/// The value of one ASCII digit.
pub open spec fn dv(b: u8) -> int {
    b - ('0' as u8)
}

/// `n` ASCII digits starting at `i`.
pub open spec fn digits_at(s: Seq<u8>, i: int, n: int) -> bool {
    forall|k: int| i <= k < i + n ==> is_digit(#[trigger] s[k])
}

/// The value of the two digits at `i`.
pub open spec fn two_digits(s: Seq<u8>, i: int) -> int {
    dv(s[i]) * 10 + dv(s[i + 1])
}

/// The value of the four digits at `i`.
pub open spec fn four_digits(s: Seq<u8>, i: int) -> int {
    dv(s[i]) * 1000 + dv(s[i + 1]) * 100 + dv(s[i + 2]) * 10 + dv(s[i + 3])
}

/// A Gregorian leap year.
pub open spec fn is_leap_year(y: int) -> bool {
    y % 4 == 0 && (y % 100 != 0 || y % 400 == 0)
}

/// Days in this month of this year; zero for a month out of range.
pub open spec fn days_in_month(y: int, m: int) -> int {
    if m == 2 {
        if is_leap_year(y) {
            29int
        } else {
            28int
        }
    } else if m == 4 || m == 6 || m == 9 || m == 11 {
        30int
    } else if 1 <= m <= 12 {
        31int
    } else {
        0int
    }
}

/// Days of this year before the first of this month.
pub open spec fn days_before_month(y: int, m: int) -> int {
    (if m == 1 {
        0int
    } else if m == 2 {
        31int
    } else if m == 3 {
        59int
    } else if m == 4 {
        90int
    } else if m == 5 {
        120int
    } else if m == 6 {
        151int
    } else if m == 7 {
        181int
    } else if m == 8 {
        212int
    } else if m == 9 {
        243int
    } else if m == 10 {
        273int
    } else if m == 11 {
        304int
    } else {
        334int
    }) + (if m >= 3 && is_leap_year(y) {
        1int
    } else {
        0int
    })
}

/// Leap years strictly before year `y` (counting from year 1).
pub open spec fn leap_years_before(y: int) -> int {
    (y - 1) / 4 - (y - 1) / 100 + (y - 1) / 400
}

/// Days from 1970-01-01 to the given calendar date.
pub open spec fn days_from_epoch(y: int, m: int, d: int) -> int {
    365 * (y - 1970) + leap_years_before(y) - leap_years_before(1970) + days_before_month(y, m) + (
    d - 1)
}

/// A calendar date this normalizer covers.
pub open spec fn valid_date(y: int, m: int, d: int) -> bool {
    1970 <= y <= 9999 && 1 <= m <= 12 && 1 <= d <= days_in_month(y, m)
}

/// A clock time of day.
pub open spec fn valid_time(h: int, mi: int, s: int) -> bool {
    0 <= h <= 23 && 0 <= mi <= 59 && 0 <= s <= 59
}

/// Seconds from the epoch to this date and time, before any offset.
pub open spec fn civil_secs(y: int, m: int, d: int, h: int, mi: int, s: int) -> int {
    days_from_epoch(y, m, d) * 86400 + h * 3600 + mi * 60 + s
}

/// Day of the week of the date `days` after the epoch: 0 is Sunday
/// through 6 is Saturday (the epoch itself fell on a Thursday).
pub open spec fn day_of_week(days: int) -> int {
    (days + 4) % 7
}

/// An ISO calendar date `yyyy-mm-dd` at position `i`.
pub open spec fn iso_date_at(s: Seq<u8>, i: int) -> bool {
    digits_at(s, i, 4) && s[i + 4] == ('-' as u8) && digits_at(s, i + 5, 2) && s[i + 7] == ('-' as u8)
        && digits_at(s, i + 8, 2)
}

/// A clock time `hh:mm:ss` at position `i`.
pub open spec fn colon_time_at(s: Seq<u8>, i: int) -> bool {
    digits_at(s, i, 2) && s[i + 2] == (':' as u8) && digits_at(s, i + 3, 2) && s[i + 5] == (':' as u8)
        && digits_at(s, i + 6, 2)
}

/// A UTC offset in seconds, read from position `i` to the end of the
/// string: `Z` or `z`, or a sign followed by `hh:mm`.
pub open spec fn iso_offset_at(s: Seq<u8>, i: int) -> Option<int> {
    if s.len() == i + 1 && (s[i] == ('Z' as u8) || s[i] == ('z' as u8)) {
        Some(0int)
    } else if s.len() == i + 6 && (s[i] == ('+' as u8) || s[i] == ('-' as u8)) && digits_at(s, i + 1, 2) && s[i
        + 3] == (':' as u8) && digits_at(s, i + 4, 2) && two_digits(s, i + 1) <= 23 && two_digits(
        s,
        i + 4,
    ) <= 59 {
        let mag = two_digits(s, i + 1) * 3600 + two_digits(s, i + 4) * 60;
        if s[i] == ('-' as u8) {
            Some(-mag)
        } else {
            Some(mag)
        }
    } else {
        None
    }
}

/// The first position at or after `i` that does not hold a digit.
pub open spec fn skip_digits(s: Seq<u8>, i: int) -> int
    decreases s.len() - i,
{
    if i < s.len() && is_digit(s[i]) {
        skip_digits(s, i + 1)
    } else {
        i
    }
}

/// The date, separator, time and validity checks shared by the generic
/// and the internet-standard profile forms; the offset starts at `off_pos`.
pub open spec fn iso_instant_at(s: Seq<u8>, off_pos: int) -> Option<int> {
    let y = four_digits(s, 0);
    let m = two_digits(s, 5);
    let d = two_digits(s, 8);
    let h = two_digits(s, 11);
    let mi = two_digits(s, 14);
    let sec = two_digits(s, 17);
    if valid_date(y, m, d) && valid_time(h, mi, sec) {
        match iso_offset_at(s, off_pos) {
            Some(off) => Some(civil_secs(y, m, d, h, mi, sec) - off),
            None => None,
        }
    } else {
        None
    }
}

/// The generic date-time form: ISO date, `T`, `t` or space, clock time,
/// then a mandatory offset. The whole string must be consumed.
pub open spec fn generic_parse(s: Seq<u8>) -> Option<int> {
    if s.len() >= 20 && iso_date_at(s, 0) && (s[10] == ('T' as u8) || s[10] == ('t' as u8) || s[10] == (' ' as u8))
        && colon_time_at(s, 11) {
        iso_instant_at(s, 19)
    } else {
        None
    }
}

/// The internet-standard profile: like the generic form but the separator
/// is `T` or `t` only, and fractional seconds (a point and at least one
/// digit) are accepted and ignored.
pub open spec fn rfc3339_parse(s: Seq<u8>) -> Option<int> {
    if s.len() >= 20 && iso_date_at(s, 0) && (s[10] == ('T' as u8) || s[10] == ('t' as u8)) && colon_time_at(
        s,
        11,
    ) {
        if s[19] == ('.' as u8) {
            if skip_digits(s, 20) > 20 {
                iso_instant_at(s, skip_digits(s, 20))
            } else {
                None
            }
        } else {
            iso_instant_at(s, 19)
        }
    } else {
        None
    }
}

/// The weekday named by the three bytes at `i`: 0 for `Sun` through 6 for
/// `Sat`, or -1 for anything else.
pub open spec fn weekday_num(s: Seq<u8>, i: int) -> int {
    if s[i] == ('S' as u8) && s[i + 1] == ('u' as u8) && s[i + 2] == ('n' as u8) {
        0int
    } else if s[i] == ('M' as u8) && s[i + 1] == ('o' as u8) && s[i + 2] == ('n' as u8) {
        1int
    } else if s[i] == ('T' as u8) && s[i + 1] == ('u' as u8) && s[i + 2] == ('e' as u8) {
        2int
    } else if s[i] == ('W' as u8) && s[i + 1] == ('e' as u8) && s[i + 2] == ('d' as u8) {
        3int
    } else if s[i] == ('T' as u8) && s[i + 1] == ('h' as u8) && s[i + 2] == ('u' as u8) {
        4int
    } else if s[i] == ('F' as u8) && s[i + 1] == ('r' as u8) && s[i + 2] == ('i' as u8) {
        5int
    } else if s[i] == ('S' as u8) && s[i + 1] == ('a' as u8) && s[i + 2] == ('t' as u8) {
        6int
    } else {
        -1int
    }
}

/// The month named by the three bytes at `i`: 1 for `Jan` through 12 for
/// `Dec`, or 0 for anything else.
pub open spec fn month_num(s: Seq<u8>, i: int) -> int {
    if s[i] == ('J' as u8) && s[i + 1] == ('a' as u8) && s[i + 2] == ('n' as u8) {
        1int
    } else if s[i] == ('F' as u8) && s[i + 1] == ('e' as u8) && s[i + 2] == ('b' as u8) {
        2int
    } else if s[i] == ('M' as u8) && s[i + 1] == ('a' as u8) && s[i + 2] == ('r' as u8) {
        3int
    } else if s[i] == ('A' as u8) && s[i + 1] == ('p' as u8) && s[i + 2] == ('r' as u8) {
        4int
    } else if s[i] == ('M' as u8) && s[i + 1] == ('a' as u8) && s[i + 2] == ('y' as u8) {
        5int
    } else if s[i] == ('J' as u8) && s[i + 1] == ('u' as u8) && s[i + 2] == ('n' as u8) {
        6int
    } else if s[i] == ('J' as u8) && s[i + 1] == ('u' as u8) && s[i + 2] == ('l' as u8) {
        7int
    } else if s[i] == ('A' as u8) && s[i + 1] == ('u' as u8) && s[i + 2] == ('g' as u8) {
        8int
    } else if s[i] == ('S' as u8) && s[i + 1] == ('e' as u8) && s[i + 2] == ('p' as u8) {
        9int
    } else if s[i] == ('O' as u8) && s[i + 1] == ('c' as u8) && s[i + 2] == ('t' as u8) {
        10int
    } else if s[i] == ('N' as u8) && s[i + 1] == ('o' as u8) && s[i + 2] == ('v' as u8) {
        11int
    } else if s[i] == ('D' as u8) && s[i + 1] == ('e' as u8) && s[i + 2] == ('c' as u8) {
        12int
    } else {
        0int
    }
}

/// A message-format zone, read from position `i` to the end: a sign and
/// `hhmm`, or one of the names `GMT`, `UT` and `UTC`, all meaning UTC.
pub open spec fn zone_at(s: Seq<u8>, i: int) -> Option<int> {
    if s.len() == i + 5 && (s[i] == ('+' as u8) || s[i] == ('-' as u8)) && digits_at(s, i + 1, 4) && two_digits(
        s,
        i + 1,
    ) <= 23 && two_digits(s, i + 3) <= 59 {
        let mag = two_digits(s, i + 1) * 3600 + two_digits(s, i + 3) * 60;
        if s[i] == ('-' as u8) {
            Some(-mag)
        } else {
            Some(mag)
        }
    } else if s.len() == i + 3 && s[i] == ('G' as u8) && s[i + 1] == ('M' as u8) && s[i + 2] == ('T' as u8) {
        Some(0int)
    } else if s.len() == i + 3 && s[i] == ('U' as u8) && s[i + 1] == ('T' as u8) && s[i + 2] == ('C' as u8) {
        Some(0int)
    } else if s.len() == i + 2 && s[i] == ('U' as u8) && s[i + 1] == ('T' as u8) {
        Some(0int)
    } else {
        None
    }
}

/// The rest of a message-format date once the day of the month is read:
/// month name, year, clock time and zone, starting with the month name at
/// `r`. `wd` is the weekday claimed by the prefix, or -1 where none was
/// given; a claimed weekday must agree with the date.
pub open spec fn rfc2822_from(s: Seq<u8>, r: int, day: int, wd: int) -> Option<int> {
    if r + 18 <= s.len() && month_num(s, r) >= 1 && s[r + 3] == (' ' as u8) && digits_at(s, r + 4, 4)
        && s[r + 8] == (' ' as u8) && colon_time_at(s, r + 9) && s[r + 17] == (' ' as u8) {
        let m = month_num(s, r);
        let y = four_digits(s, r + 4);
        let h = two_digits(s, r + 9);
        let mi = two_digits(s, r + 12);
        let sec = two_digits(s, r + 15);
        if valid_date(y, m, day) && valid_time(h, mi, sec) && (wd < 0 || wd == day_of_week(
            days_from_epoch(y, m, day),
        )) {
            match zone_at(s, r + 18) {
                Some(off) => Some(civil_secs(y, m, day, h, mi, sec) - off),
                None => None,
            }
        } else {
            None
        }
    } else {
        None
    }
}

/// A message-format date whose day of the month starts at `b0`: one or
/// two digits followed by a space, then the rest of the date.
pub open spec fn rfc2822_day_parse(s: Seq<u8>, b0: int, wd: int) -> Option<int> {
    if b0 + 2 <= s.len() && is_digit(s[b0]) && s[b0 + 1] == (' ' as u8) {
        rfc2822_from(s, b0 + 2, dv(s[b0]), wd)
    } else if b0 + 3 <= s.len() && is_digit(s[b0]) && is_digit(s[b0 + 1]) && s[b0 + 2] == (' ' as u8) {
        rfc2822_from(s, b0 + 3, two_digits(s, b0), wd)
    } else {
        None
    }
}

/// The Internet-message date format: an optional `Www, ` weekday prefix,
/// day of the month, month name, year, clock time, and a zone. The whole
/// string must be consumed.
pub open spec fn rfc2822_parse(s: Seq<u8>) -> Option<int> {
    if s.len() >= 5 && weekday_num(s, 0) >= 0 && s[3] == (',' as u8) && s[4] == (' ' as u8) {
        rfc2822_day_parse(s, 5, weekday_num(s, 0))
    } else {
        rfc2822_day_parse(s, 0, -1)
    }
}

/// The synthetic zero UTC offset appended by the last candidate format.
pub open spec fn zero_offset_suffix() -> Seq<u8> {
    seq![(' ' as u8), ('+' as u8), ('0' as u8), ('0' as u8), ('0' as u8), ('0' as u8)]
}

/// What the normalizer accepts and yields: the candidate formats tried in
/// their fixed order, the first match deciding the instant.
pub open spec fn normalize_spec(s: Seq<u8>) -> Option<int> {
    if generic_parse(s) is Some {
        generic_parse(s)
    } else if rfc2822_parse(s) is Some {
        rfc2822_parse(s)
    } else if rfc3339_parse(s) is Some {
        rfc3339_parse(s)
    } else {
        rfc2822_parse(s + zero_offset_suffix())
    }
}

/// An executable candidate result agrees with its spec-level counterpart.
pub open spec fn agrees(r: Option<i64>, s: Option<int>) -> bool {
    match r {
        Some(v) => s == Some(v as int),
        None => s is None,
    }
}

/// `n` digits at `i`, checked.
fn digits_at_x(b: &[u8], i: usize, n: usize) -> (r: bool)
    requires
        i + n <= b@.len(),
    ensures
        r == digits_at(b@, i as int, n as int),
{
    let total = b.len();
    let mut k: usize = 0;
    while k < n
        invariant
            total == b@.len(),
            i + n <= total,
            k <= n,
            forall|t: int| i <= t < i + k ==> is_digit(#[trigger] b@[t]),
        decreases n - k,
    {
        let c = b[i + k];
        if c < ('0' as u8) || c > ('9' as u8) {
            return false;
        }
        k += 1;
    }
    true
}

/// The two-digit value at `i`.
fn get2(b: &[u8], i: usize) -> (r: u64)
    requires
        i + 2 <= b@.len(),
        digits_at(b@, i as int, 2),
    ensures
        r == two_digits(b@, i as int),
        r <= 99,
{
    proof {
        assert(is_digit(b@[i as int]));
        assert(is_digit(b@[i + 1]));
    }
    ((b[i] - ('0' as u8)) as u64) * 10 + ((b[i + 1] - ('0' as u8)) as u64)
}

/// The four-digit value at `i`.
fn get4(b: &[u8], i: usize) -> (r: u64)
    requires
        i + 4 <= b@.len(),
        digits_at(b@, i as int, 4),
    ensures
        r == four_digits(b@, i as int),
        r <= 9999,
{
    proof {
        assert(is_digit(b@[i as int]));
        assert(is_digit(b@[i + 1]));
        assert(is_digit(b@[i + 2]));
        assert(is_digit(b@[i + 3]));
    }
    ((b[i] - ('0' as u8)) as u64) * 1000 + ((b[i + 1] - ('0' as u8)) as u64) * 100 + ((b[i + 2]
        - ('0' as u8)) as u64) * 10 + ((b[i + 3] - ('0' as u8)) as u64)
}

/// Days in this month of this year.
fn days_in_month_x(y: u64, m: u64) -> (r: u64)
    ensures
        r == days_in_month(y as int, m as int),
{
    if m == 2 {
        if y % 4 == 0 && (y % 100 != 0 || y % 400 == 0) {
            29
        } else {
            28
        }
    } else if m == 4 || m == 6 || m == 9 || m == 11 {
        30
    } else if 1 <= m && m <= 12 {
        31
    } else {
        0
    }
}

/// Days of this year before the first of this month.
fn days_before_month_x(y: u64, m: u64) -> (r: u64)
    requires
        1 <= m <= 12,
    ensures
        r == days_before_month(y as int, m as int),
        r <= 335,
{
    let base: u64 = if m == 1 {
        0
    } else if m == 2 {
        31
    } else if m == 3 {
        59
    } else if m == 4 {
        90
    } else if m == 5 {
        120
    } else if m == 6 {
        151
    } else if m == 7 {
        181
    } else if m == 8 {
        212
    } else if m == 9 {
        243
    } else if m == 10 {
        273
    } else if m == 11 {
        304
    } else {
        334
    };
    if m >= 3 && y % 4 == 0 && (y % 100 != 0 || y % 400 == 0) {
        base + 1
    } else {
        base
    }
}

/// Days from 1970-01-01 to the given date.
fn days_from_epoch_x(y: u64, m: u64, d: u64) -> (r: u64)
    requires
        valid_date(y as int, m as int, d as int),
    ensures
        r == days_from_epoch(y as int, m as int, d as int),
        r <= 2934000,
{
    let a = (y - 1) / 4;
    let bq = (y - 1) / 100;
    let c = (y - 1) / 400;
    proof {
        lemma_div_is_ordered(1969, y - 1, 4);
        lemma_div_is_ordered(y - 1, 9998, 4);
        lemma_div_is_ordered(y - 1, 9998, 100);
        lemma_div_is_ordered(1969, y - 1, 400);
        lemma_div_is_ordered(y - 1, 9998, 400);
        assert(1969int / 4 == 492);
        assert(9998int / 4 == 2499);
        assert(9998int / 100 == 99);
        assert(1969int / 400 == 4);
        assert(9998int / 400 == 24);
        assert(leap_years_before(1970) == 477);
    }
    let dbm = days_before_month_x(y, m);
    let total = 365 * (y - 1970) + a + c + dbm + (d - 1);
    total - (bq + 477)
}

/// A UTC offset read from `i` to the end of the string, in the standard
/// `Z`/`±hh:mm` shape.
fn iso_offset_x(b: &[u8], i: usize) -> (r: Option<i64>)
    requires
        i <= b@.len(),
    ensures
        agrees(r, iso_offset_at(b@, i as int)),
        r matches Some(o) ==> -86400 <= o <= 86400,
{
    let rem = b.len() - i;
    if rem == 1 && (b[i] == ('Z' as u8) || b[i] == ('z' as u8)) {
        Some(0)
    } else if rem == 6 && (b[i] == ('+' as u8) || b[i] == ('-' as u8)) && digits_at_x(b, i + 1, 2)
        && b[i + 3] == (':' as u8) && digits_at_x(b, i + 4, 2) {
        let hh = get2(b, i + 1);
        let mm = get2(b, i + 4);
        if hh <= 23 && mm <= 59 {
            let mag = (hh * 3600 + mm * 60) as i64;
            if b[i] == ('-' as u8) {
                Some(-mag)
            } else {
                Some(mag)
            }
        } else {
            None
        }
    } else {
        None
    }
}

/// A message-format zone read from `i` to the end of the string.
fn zone_at_x(b: &[u8], i: usize) -> (r: Option<i64>)
    requires
        i <= b@.len(),
    ensures
        agrees(r, zone_at(b@, i as int)),
        r matches Some(o) ==> -86400 <= o <= 86400,
{
    let rem = b.len() - i;
    if rem == 5 && (b[i] == ('+' as u8) || b[i] == ('-' as u8)) && digits_at_x(b, i + 1, 4) {
        let hh = get2(b, i + 1);
        let mm = get2(b, i + 3);
        if hh <= 23 && mm <= 59 {
            let mag = (hh * 3600 + mm * 60) as i64;
            if b[i] == ('-' as u8) {
                Some(-mag)
            } else {
                Some(mag)
            }
        } else {
            None
        }
    } else if rem == 3 && b[i] == ('G' as u8) && b[i + 1] == ('M' as u8) && b[i + 2] == (
    'T' as u8) {
        Some(0)
    } else if rem == 3 && b[i] == ('U' as u8) && b[i + 1] == ('T' as u8) && b[i + 2] == (
    'C' as u8) {
        Some(0)
    } else if rem == 2 && b[i] == ('U' as u8) && b[i + 1] == ('T' as u8) {
        Some(0)
    } else {
        None
    }
}

/// The shared date-and-time body of the two standard-profile forms, with
/// the offset starting at `off_pos`.
fn parse_iso_core(b: &[u8], off_pos: usize) -> (r: Option<i64>)
    requires
        20 <= b@.len(),
        off_pos <= b@.len(),
        iso_date_at(b@, 0),
        colon_time_at(b@, 11),
    ensures
        agrees(r, iso_instant_at(b@, off_pos as int)),
{
    let y = get4(b, 0);
    let m = get2(b, 5);
    let d = get2(b, 8);
    let h = get2(b, 11);
    let mi = get2(b, 14);
    let sec = get2(b, 17);
    if 1970 <= y && 1 <= m && m <= 12 && 1 <= d && d <= days_in_month_x(y, m) && h <= 23 && mi
        <= 59 && sec <= 59 {
        match iso_offset_x(b, off_pos) {
            Some(off) => {
                let days = days_from_epoch_x(y, m, d);
                let civil = days * 86400 + h * 3600 + mi * 60 + sec;
                Some((civil as i64) - off)
            },
            None => None,
        }
    } else {
        None
    }
}

/// The generic date-time candidate.
pub fn parse_generic(b: &[u8]) -> (r: Option<i64>)
    ensures
        agrees(r, generic_parse(b@)),
{
    if b.len() < 20 {
        return None;
    }
    if !(digits_at_x(b, 0, 4) && b[4] == ('-' as u8) && digits_at_x(b, 5, 2) && b[7] == (
    '-' as u8) && digits_at_x(b, 8, 2)) {
        return None;
    }
    if !(b[10] == ('T' as u8) || b[10] == ('t' as u8) || b[10] == (' ' as u8)) {
        return None;
    }
    if !(digits_at_x(b, 11, 2) && b[13] == (':' as u8) && digits_at_x(b, 14, 2) && b[16] == (
    ':' as u8) && digits_at_x(b, 17, 2)) {
        return None;
    }
    parse_iso_core(b, 19)
}

/// Scanning forward over digits lands exactly where the spec says.
proof fn lemma_skip_digits(s: Seq<u8>, i: int, j: int)
    requires
        0 <= i <= j <= s.len(),
        forall|k: int| i <= k < j ==> is_digit(#[trigger] s[k]),
        j == s.len() || !is_digit(s[j]),
    ensures
        skip_digits(s, i) == j,
    decreases j - i,
{
    if i < j {
        lemma_skip_digits(s, i + 1, j);
    }
}

/// The internet-standard profile candidate.
pub fn parse_rfc3339(b: &[u8]) -> (r: Option<i64>)
    ensures
        agrees(r, rfc3339_parse(b@)),
{
    if b.len() < 20 {
        return None;
    }
    if !(digits_at_x(b, 0, 4) && b[4] == ('-' as u8) && digits_at_x(b, 5, 2) && b[7] == (
    '-' as u8) && digits_at_x(b, 8, 2)) {
        return None;
    }
    if !(b[10] == ('T' as u8) || b[10] == ('t' as u8)) {
        return None;
    }
    if !(digits_at_x(b, 11, 2) && b[13] == (':' as u8) && digits_at_x(b, 14, 2) && b[16] == (
    ':' as u8) && digits_at_x(b, 17, 2)) {
        return None;
    }
    if b[19] == ('.' as u8) {
        let n = b.len();
        let mut j: usize = 20;
        while j < n && ('0' as u8) <= b[j] && b[j] <= ('9' as u8)
            invariant
                20 <= j <= n,
                n == b@.len(),
                forall|k: int| 20 <= k < j ==> is_digit(#[trigger] b@[k]),
            decreases n - j,
        {
            j += 1;
        }
        proof {
            lemma_skip_digits(b@, 20, j as int);
        }
        if j > 20 {
            parse_iso_core(b, j)
        } else {
            None
        }
    } else {
        parse_iso_core(b, 19)
    }
}

/// The weekday named at `i`, or -1.
fn weekday_num_x(b: &[u8], i: usize) -> (r: i64)
    requires
        i + 3 <= b@.len(),
    ensures
        r == weekday_num(b@, i as int),
{
    let c0 = b[i];
    let c1 = b[i + 1];
    let c2 = b[i + 2];
    if c0 == ('S' as u8) && c1 == ('u' as u8) && c2 == ('n' as u8) {
        0
    } else if c0 == ('M' as u8) && c1 == ('o' as u8) && c2 == ('n' as u8) {
        1
    } else if c0 == ('T' as u8) && c1 == ('u' as u8) && c2 == ('e' as u8) {
        2
    } else if c0 == ('W' as u8) && c1 == ('e' as u8) && c2 == ('d' as u8) {
        3
    } else if c0 == ('T' as u8) && c1 == ('h' as u8) && c2 == ('u' as u8) {
        4
    } else if c0 == ('F' as u8) && c1 == ('r' as u8) && c2 == ('i' as u8) {
        5
    } else if c0 == ('S' as u8) && c1 == ('a' as u8) && c2 == ('t' as u8) {
        6
    } else {
        -1
    }
}

/// The month named at `i`, or 0.
fn month_num_x(b: &[u8], i: usize) -> (r: u64)
    requires
        i + 3 <= b@.len(),
    ensures
        r == month_num(b@, i as int),
        r <= 12,
{
    let c0 = b[i];
    let c1 = b[i + 1];
    let c2 = b[i + 2];
    if c0 == ('J' as u8) && c1 == ('a' as u8) && c2 == ('n' as u8) {
        1
    } else if c0 == ('F' as u8) && c1 == ('e' as u8) && c2 == ('b' as u8) {
        2
    } else if c0 == ('M' as u8) && c1 == ('a' as u8) && c2 == ('r' as u8) {
        3
    } else if c0 == ('A' as u8) && c1 == ('p' as u8) && c2 == ('r' as u8) {
        4
    } else if c0 == ('M' as u8) && c1 == ('a' as u8) && c2 == ('y' as u8) {
        5
    } else if c0 == ('J' as u8) && c1 == ('u' as u8) && c2 == ('n' as u8) {
        6
    } else if c0 == ('J' as u8) && c1 == ('u' as u8) && c2 == ('l' as u8) {
        7
    } else if c0 == ('A' as u8) && c1 == ('u' as u8) && c2 == ('g' as u8) {
        8
    } else if c0 == ('S' as u8) && c1 == ('e' as u8) && c2 == ('p' as u8) {
        9
    } else if c0 == ('O' as u8) && c1 == ('c' as u8) && c2 == ('t' as u8) {
        10
    } else if c0 == ('N' as u8) && c1 == ('o' as u8) && c2 == ('v' as u8) {
        11
    } else if c0 == ('D' as u8) && c1 == ('e' as u8) && c2 == ('c' as u8) {
        12
    } else {
        0
    }
}

/// The rest of a message-format date from the month name at `r` on.
fn parse_rfc2822_from(b: &[u8], r: usize, day: u64, wd: i64) -> (res: Option<i64>)
    requires
        r <= b@.len(),
        day <= 99,
        -1 <= wd <= 6,
    ensures
        agrees(res, rfc2822_from(b@, r as int, day as int, wd as int)),
{
    let rem = b.len() - r;
    if rem < 18 {
        return None;
    }
    let m = month_num_x(b, r);
    if !(m >= 1 && b[r + 3] == (' ' as u8) && digits_at_x(b, r + 4, 4) && b[r + 8] == (' ' as u8))
    {
        return None;
    }
    if !(digits_at_x(b, r + 9, 2) && b[r + 11] == (':' as u8) && digits_at_x(b, r + 12, 2) && b[r
        + 14] == (':' as u8) && digits_at_x(b, r + 15, 2)) {
        return None;
    }
    if !(b[r + 17] == (' ' as u8)) {
        return None;
    }
    let y = get4(b, r + 4);
    let h = get2(b, r + 9);
    let mi = get2(b, r + 12);
    let sec = get2(b, r + 15);
    if !(1970 <= y && 1 <= day && day <= days_in_month_x(y, m) && h <= 23 && mi <= 59 && sec
        <= 59) {
        return None;
    }
    let days = days_from_epoch_x(y, m, day);
    if wd >= 0 && (wd as u64) != (days + 4) % 7 {
        return None;
    }
    match zone_at_x(b, r + 18) {
        Some(off) => {
            let civil = days * 86400 + h * 3600 + mi * 60 + sec;
            Some((civil as i64) - off)
        },
        None => None,
    }
}

/// A message-format date whose day of the month starts at `b0`.
fn parse_rfc2822_day(b: &[u8], b0: usize, wd: i64) -> (r: Option<i64>)
    requires
        b0 <= b@.len(),
        -1 <= wd <= 6,
    ensures
        agrees(r, rfc2822_day_parse(b@, b0 as int, wd as int)),
{
    let rem = b.len() - b0;
    if rem >= 2 && ('0' as u8) <= b[b0] && b[b0] <= ('9' as u8) && b[b0 + 1] == (' ' as u8) {
        let day = (b[b0] - ('0' as u8)) as u64;
        parse_rfc2822_from(b, b0 + 2, day, wd)
    } else if rem >= 3 && ('0' as u8) <= b[b0] && b[b0] <= ('9' as u8) && ('0' as u8) <= b[b0 + 1]
        && b[b0 + 1] <= ('9' as u8) && b[b0 + 2] == (' ' as u8) {
        let day = get2(b, b0);
        parse_rfc2822_from(b, b0 + 3, day, wd)
    } else {
        None
    }
}

/// The Internet-message date candidate.
pub fn parse_rfc2822(b: &[u8]) -> (r: Option<i64>)
    ensures
        agrees(r, rfc2822_parse(b@)),
{
    if b.len() >= 5 {
        let wd = weekday_num_x(b, 0);
        if wd >= 0 && b[3] == (',' as u8) && b[4] == (' ' as u8) {
            parse_rfc2822_day(b, 5, wd)
        } else {
            parse_rfc2822_day(b, 0, -1)
        }
    } else {
        parse_rfc2822_day(b, 0, -1)
    }
}

/// The Internet-message date candidate after appending the synthetic zero
/// UTC offset.
pub fn parse_rfc2822_padded(b: &[u8]) -> (r: Option<i64>)
    ensures
        agrees(r, rfc2822_parse(b@ + zero_offset_suffix())),
{
    let mut ext = vstd::slice::slice_to_vec(b);
    ext.push(' ' as u8);
    ext.push('+' as u8);
    ext.push('0' as u8);
    ext.push('0' as u8);
    ext.push('0' as u8);
    ext.push('0' as u8);
    proof {
        assert(ext@ =~= b@ + zero_offset_suffix());
    }
    parse_rfc2822(ext.as_slice())
}

/// Normalize an arbitrary textual timestamp into a canonical instant,
/// trying the candidate formats in their fixed order on the text's byte
/// encoding; the first format that accepts the whole string decides the
/// instant. Fails with `UnparsableTimestamp` exactly when every candidate
/// format is exhausted.
pub fn normalize(raw: &str) -> (r: Result<Timestamp, TimeError>)
    ensures
        r matches Ok(t) ==> normalize_spec(raw.spec_bytes()) == Some(t.seconds as int),
        r is Err <==> normalize_spec(raw.spec_bytes()) is None,
        r matches Err(e) ==> e == TimeError::UnparsableTimestamp,
{
    let b = raw.as_bytes();
    match parse_generic(b) {
        Some(v) => {
            return Ok(Timestamp { seconds: v });
        },
        None => {},
    }
    match parse_rfc2822(b) {
        Some(v) => {
            return Ok(Timestamp { seconds: v });
        },
        None => {},
    }
    match parse_rfc3339(b) {
        Some(v) => {
            return Ok(Timestamp { seconds: v });
        },
        None => {},
    }
    match parse_rfc2822_padded(b) {
        Some(v) => {
            return Ok(Timestamp { seconds: v });
        },
        None => {},
    }
    Err(TimeError::UnparsableTimestamp)
}

} // verus!
