//! Recorded captures: their times, their bytes and their rows.
use crate::bytes;
use crate::bytes::Stretch;
use crate::text;
use vstd::prelude::*;
use vstd::string::*;
#[allow(unused_imports)]
use vstd::utf8::*;

verus! {

/// What became of reading something.
#[derive(Debug, Clone, Copy, PartialEq, Eq)]
pub enum Read<T> {
    /// It is not there.
    Absent,
    /// It is there, but leaves the range of the machine's numbers, or is cut inside a character.
    Unreadable,
    /// It is this.
    Value(T),
}

/// Whether the number fits in 64 bits.
pub open spec fn fits(n: int) -> bool {
    i64::MIN <= n <= i64::MAX
}

/// Division that rounds towards zero.
pub open spec fn quotient(a: int, b: int) -> int {
    if a >= 0 {
        a / b
    } else {
        -((-a) / b)
    }
}

/// The year that a date counts to when years begin in March.
pub open spec fn march_year(y: int, m: int) -> int {
    if m <= 2 {
        y - 1
    } else {
        y
    }
}

/// How many days the first of a month, and a day in it, lie behind the first of March.
pub open spec fn days_since_march(m: int, d: int) -> int {
    let months = if m > 2 {
        m - 3
    } else {
        m + 9
    };
    quotient(153 * months + 2, 5) + d - 1
}

/// How many days a date lies behind the first of January 1970.
pub open spec fn civil_days(y: int, m: int, d: int) -> int {
    let year = march_year(y, m);
    let era = year / 400;
    let year_of_era = year % 400;
    era * 146097 + (year_of_era * 365 + year_of_era / 4 - year_of_era / 100 + days_since_march(m, d))
        - 719468
}

/// Whether every step of counting the days stays in the machine's numbers.
pub open spec fn civil_fits(y: int, m: int, d: int) -> bool {
    let year = march_year(y, m);
    let era = year / 400;
    let year_of_era = year % 400;
    let months = if m > 2 {
        m - 3
    } else {
        m + 9
    };
    let days = days_since_march(m, d);
    let of_era = year_of_era * 365 + year_of_era / 4 - year_of_era / 100 + days;
    &&& fits(year) && (year < 0 ==> fits(year - 399))
    &&& fits(153 * months) && fits(153 * months + 2)
    &&& fits(days + 1) && fits(days)
    &&& fits(of_era)
    &&& fits(era * 146097)
    &&& fits(era * 146097 + of_era)
    &&& fits(civil_days(y, m, d))
}

/// Whether the year has a 29th of February.
pub open spec fn is_leap(y: int) -> bool {
    y % 4 == 0 && (y % 100 != 0 || y % 400 == 0)
}

/// How many days a month has.
pub open spec fn month_length(y: int, m: int) -> int {
    if m == 2 {
        if is_leap(y) {
            29
        } else {
            28
        }
    } else if m == 4 || m == 6 || m == 9 || m == 11 {
        30
    } else {
        31
    }
}

/// How many days lie before the first of March of a year of an era, but for a constant.
spec fn days_before_march(era: int, year_of_era: int) -> int {
    era * 146097 + year_of_era * 365 + year_of_era / 4 - year_of_era / 100
}

proof fn lemma_leap(a: int, k: int)
    requires
        0 <= k < 400,
    ensures
        is_leap(400 * a + k) == (k % 4 == 0 && (k % 100 != 0 || k == 0)),
        (400 * a + k) / 400 == a,
        (400 * a + k) % 400 == k,
{
    vstd::arithmetic::div_mod::lemma_mod_multiples_vanish(100 * a, k, 4);
    vstd::arithmetic::div_mod::lemma_mod_multiples_vanish(4 * a, k, 100);
    vstd::arithmetic::div_mod::lemma_mod_multiples_vanish(a, k, 400);
    vstd::arithmetic::div_mod::lemma_fundamental_div_mod_converse(400 * a + k, 400, a, k);
}

proof fn lemma_year_in_era(a: int, r: int)
    requires
        0 <= r < 399,
    ensures
        days_before_march(a, r + 1) - days_before_march(a, r) == if (r + 1) % 4 == 0 && (r + 1)
            % 100 != 0 {
            366int
        } else {
            365
        },
{
    let q = r / 4;
    let c = r / 100;
    if (r + 1) % 4 == 0 {
        assert((r + 1) / 4 == q + 1);
    } else {
        assert((r + 1) / 4 == q);
    }
    if (r + 1) % 100 == 0 {
        assert((r + 1) / 100 == c + 1);
        assert((r + 1) % 4 == 0);
    } else {
        assert((r + 1) / 100 == c);
    }
}

proof fn lemma_year_step(y: int)
    ensures
        days_before_march(y / 400, y % 400) - days_before_march((y - 1) / 400, (y - 1) % 400)
            == if is_leap(y) {
            366int
        } else {
            365
        },
{
    let a = (y - 1) / 400;
    let r = (y - 1) % 400;
    if r < 399 {
        assert(y == 400 * a + (r + 1));
        lemma_leap(a, r + 1);
        lemma_year_in_era(a, r);
    } else {
        assert(y == 400 * (a + 1) + 0);
        lemma_leap(a + 1, 0);
    }
}

proof fn lemma_civil_days(y: int, m: int, d: int)
    ensures
        civil_days(y, m, d) == days_before_march(
            march_year(y, m) / 400,
            march_year(y, m) % 400,
        ) + days_since_march(m, d) - 719468,
{
}

/// The count of days follows the calendar: it is zero on the first of January 1970, and goes up by
/// one from each day to the next, across the ends of months and years.
pub proof fn law_days_follow_the_calendar(y: int, m: int, d: int)
    requires
        1 <= m <= 12,
    ensures
        civil_days(1970, 1, 1) == 0,
        civil_days(y, m, d + 1) == civil_days(y, m, d) + 1,
        m < 12 ==> civil_days(y, m + 1, 1) == civil_days(y, m, 1) + month_length(y, m),
        m == 12 ==> civil_days(y + 1, 1, 1) == civil_days(y, 12, 1) + 31,
{
    lemma_civil_days(y, m, d);
    lemma_civil_days(y, m, d + 1);
    lemma_civil_days(y, m, 1);
    lemma_civil_days(y, m + 1, 1);
    lemma_civil_days(y + 1, 1, 1);
    lemma_year_step(y);
}

/// Every step of counting days, where each stays in the machine's numbers.
fn count_days(y: i64, m: i64, d: i64) -> (r: Option<i64>)
    ensures
        match r {
            Some(n) => civil_fits(y as int, m as int, d as int) && n == civil_days(
                y as int,
                m as int,
                d as int,
            ),
            None => !civil_fits(y as int, m as int, d as int),
        },
{
    let year: i128 = if m <= 2 {
        y as i128 - 1
    } else {
        y as i128
    };
    if !in_range(year) || (year < 0 && !in_range(year - 399)) {
        return None;
    }
    let era: i128 = if year >= 0 {
        year / 400
    } else {
        -((399 - year) / 400)
    };
    let year_of_era: i128 = year - era * 400;
    assert(era == year as int / 400 && year_of_era == year as int % 400);
    let months: i128 = if m > 2 {
        m as i128 - 3
    } else {
        m as i128 + 9
    };
    let scaled: i128 = 153 * months + 2;
    if !in_range(153 * months) || !in_range(scaled) {
        return None;
    }
    let before_month: i128 = if scaled >= 0 {
        scaled / 5
    } else {
        -((-scaled) / 5)
    };
    let days: i128 = before_month + d as i128 - 1;
    if !in_range(days + 1) || !in_range(days) {
        return None;
    }
    let of_era: i128 = year_of_era * 365 + year_of_era / 4 - year_of_era / 100 + days;
    let r: i128 = era * 146097 + of_era - 719468;
    if !in_range(of_era) || !in_range(era * 146097) || !in_range(era * 146097 + of_era)
        || !in_range(r) {
        return None;
    }
    Some(r as i64)
}

/// Whether the number fits in 64 bits.
fn in_range(n: i128) -> (r: bool)
    ensures
        r == fits(n as int),
{
    -9_223_372_036_854_775_808 <= n && n <= 9_223_372_036_854_775_807
}

/// How many days a date lies behind the first of January 1970.
pub fn days_from_civil(y: i64, m: i64, d: i64) -> (r: i64)
    requires
        civil_fits(y as int, m as int, d as int),
    ensures
        r == civil_days(y as int, m as int, d as int),
{
    match count_days(y, m, d) {
        Some(n) => n,
        None => 0,
    }
}

/// The integer of 64 bits that the bytes spell.
pub open spec fn int64(b: Seq<u8>) -> Option<int> {
    text::integer_within(b, i64::MIN as int, i64::MAX as int)
}

/// A time of day and the offset that stands behind it.
#[verifier::ext_equal]
pub struct Zoned {
    pub time: Seq<u8>,
    pub zone: Option<Seq<u8>>,
    pub negative: bool,
}

/// The text without the letters Z at its end.
pub open spec fn without_z(t: Seq<u8>) -> Seq<u8>
    decreases t.len(),
{
    if t.len() > 0 && t.last() == 0x5a {
        without_z(t.drop_last())
    } else {
        t
    }
}

/// Parts a time of day from its offset. A sign before the seconds does not start an offset.
pub open spec fn zoned(t: Seq<u8>) -> Zoned {
    match bytes::last_at(t, 0x2b) {
        Some(i) => if i > 6 {
            Zoned { time: t.take(i), zone: Some(t.skip(i + 1)), negative: false }
        } else {
            Zoned { time: t, zone: None, negative: false }
        },
        None => match bytes::last_at(t, 0x2d) {
            Some(i) => if i > 6 {
                Zoned { time: t.take(i), zone: Some(t.skip(i + 1)), negative: true }
            } else {
                Zoned { time: t, zone: None, negative: false }
            },
            None => Zoned { time: without_z(t), zone: None, negative: false },
        },
    }
}

/// The hours and the minutes of an offset, in minutes. Minutes that cannot be read count as none.
pub open spec fn offset_minutes(zone: Seq<u8>, negative: bool) -> Read<int> {
    let parts = bytes::pieces(zone, 0x3a);
    match int64(parts[0]) {
        Some(h) => {
            let m = if parts.len() > 1 {
                match int64(parts[1]) {
                    Some(m) => m,
                    None => 0,
                }
            } else {
                0
            };
            let minutes = h * 60 + m;
            if !fits(h * 60) || !fits(minutes) || (negative && !fits(-minutes)) {
                Read::Unreadable
            } else {
                Read::Value(
                    if negative {
                        -minutes
                    } else {
                        minutes
                    },
                )
            }
        },
        None => Read::Absent,
    }
}

/// The thousandths that a fraction of a second spells: its first three digits, filled up with
/// zeros.
pub open spec fn thousandths(fraction: Seq<u8>) -> Read<int> {
    if fraction.len() > 3 && is_continuation_byte(fraction[3]) {
        Read::Unreadable
    } else {
        let digits = if fraction.len() >= 3 {
            fraction.take(3)
        } else {
            fraction
        };
        match int64(digits) {
            Some(v) => Read::Value(
                v * if fraction.len() == 1 {
                    100
                } else if fraction.len() == 2 {
                    10
                } else {
                    1int
                },
            ),
            None => Read::Absent,
        }
    }
}

/// A time of day.
#[derive(Debug, Clone, Copy)]
pub struct Clock {
    pub hour: i64,
    pub minute: i64,
    pub second: i64,
    pub millis: i64,
}

/// Reads a time of day: hours, minutes and seconds between colons, the seconds with or without a
/// fraction.
pub open spec fn clock_of(t: Seq<u8>) -> Read<Clock> {
    let parts = bytes::pieces(t, 0x3a);
    if parts.len() < 3 {
        Read::Absent
    } else {
        let seconds = bytes::pieces(parts[2], 0x2e);
        match (int64(parts[0]), int64(parts[1]), int64(seconds[0])) {
            (Some(h), Some(m), Some(s)) => {
                let millis = if seconds.len() > 1 {
                    thousandths(seconds[1])
                } else {
                    Read::Value(0int)
                };
                match millis {
                    Read::Absent => Read::Absent,
                    Read::Unreadable => Read::Unreadable,
                    Read::Value(ms) => Read::Value(
                        Clock {
                            hour: h as i64,
                            minute: m as i64,
                            second: s as i64,
                            millis: ms as i64,
                        },
                    ),
                }
            },
            _ => Read::Absent,
        }
    }
}

/// A date.
#[derive(Debug, Clone, Copy)]
pub struct Civil {
    pub year: i64,
    pub month: i64,
    pub day: i64,
}

/// Reads a date: year, month and day between hyphens.
pub open spec fn date_of(b: Seq<u8>) -> Option<Civil> {
    let parts = bytes::pieces(b, 0x2d);
    if parts.len() != 3 {
        None
    } else {
        match (int64(parts[0]), int64(parts[1]), int64(parts[2])) {
            (Some(y), Some(m), Some(d)) => Some(
                Civil { year: y as i64, month: m as i64, day: d as i64 },
            ),
            _ => None,
        }
    }
}

/// The second, counted from the start of 1970, that a date, a time of day and an offset mean.
pub open spec fn seconds_of(date: Civil, clock: Clock, offset: int) -> int {
    civil_days(date.year as int, date.month as int, date.day as int) * 86400 + clock.hour * 3600
        + clock.minute * 60 + clock.second - offset * 60
}

/// Whether every step of counting the time stays in the machine's numbers.
pub open spec fn instant_fits(date: Civil, clock: Clock, offset: int) -> bool {
    let days = civil_days(date.year as int, date.month as int, date.day as int);
    let at_hour = days * 86400 + clock.hour * 3600;
    let at_minute = at_hour + clock.minute * 60;
    let seconds = seconds_of(date, clock, offset);
    &&& civil_fits(date.year as int, date.month as int, date.day as int)
    &&& fits(days * 86400) && fits(clock.hour * 3600) && fits(at_hour)
    &&& fits(clock.minute * 60) && fits(at_minute)
    &&& fits(at_minute + clock.second)
    &&& fits(offset * 60) && fits(seconds)
    &&& fits(seconds * 1000) && fits(seconds * 1000 + clock.millis)
}

/// The time that a date and a time of day with its offset mean.
pub open spec fn instant_of(b: Seq<u8>) -> Read<i64> {
    match bytes::first_at(b, 0x54) {
        None => Read::Absent,
        Some(i) => match date_of(b.take(i)) {
            None => Read::Absent,
            Some(date) => {
                let z = zoned(b.skip(i + 1));
                let offset = match z.zone {
                    Some(zone) => offset_minutes(zone, z.negative),
                    None => Read::Value(0int),
                };
                match offset {
                    Read::Absent => Read::Absent,
                    Read::Unreadable => Read::Unreadable,
                    Read::Value(minutes) => match clock_of(z.time) {
                        Read::Absent => Read::Absent,
                        Read::Unreadable => Read::Unreadable,
                        Read::Value(clock) => if instant_fits(date, clock, minutes) {
                            Read::Value(
                                (seconds_of(date, clock, minutes) * 1000 + clock.millis) as i64,
                            )
                        } else {
                            Read::Unreadable
                        },
                    },
                }
            },
        },
    }
}

/// The time in milliseconds that the text means: a plain number of milliseconds, or a date and a
/// time of day.
pub open spec fn timestamp_of(s: Seq<char>) -> Read<i64> {
    match int64(encode_utf8(s)) {
        Some(ms) => Read::Value(ms as i64),
        None => instant_of(encode_utf8(s)),
    }
}

/// Reads an integer of 64 bits.
fn parse_stretch(b: &[u8], s: Stretch) -> (r: Option<i64>)
    requires
        s.fits(b@.len()),
    ensures
        match r {
            Some(v) => int64(s.of(b@)) == Some(v as int),
            None => int64(s.of(b@)) is None,
        },
{
    text::parse_i64_at(b, s.lo, s.hi)
}

/// Reads a date.
fn parse_date(b: &[u8], s: Stretch) -> (r: Option<Civil>)
    requires
        s.fits(b@.len()),
    ensures
        r == date_of(s.of(b@)),
{
    let parts = bytes::split(b, s, 0x2d);
    if parts.len() != 3 {
        return None;
    }
    match (
        parse_stretch(b, parts[0]),
        parse_stretch(b, parts[1]),
        parse_stretch(b, parts[2]),
    ) {
        (Some(year), Some(month), Some(day)) => Some(Civil { year, month, day }),
        _ => None,
    }
}

/// The minutes of an offset.
fn parse_offset(b: &[u8], s: Stretch, negative: bool) -> (r: Read<i64>)
    requires
        s.fits(b@.len()),
    ensures
        match r {
            Read::Absent => offset_minutes(s.of(b@), negative) == Read::<int>::Absent,
            Read::Unreadable => offset_minutes(s.of(b@), negative) == Read::<int>::Unreadable,
            Read::Value(m) => offset_minutes(s.of(b@), negative) == Read::Value(m as int),
        },
{
    let parts = bytes::split(b, s, 0x3a);
    let h: i64 = match parse_stretch(b, parts[0]) {
        Some(h) => h,
        None => {
            return Read::Absent;
        },
    };
    let m: i64 = if parts.len() > 1 {
        match parse_stretch(b, parts[1]) {
            Some(m) => m,
            None => 0,
        }
    } else {
        0
    };
    let minutes: i128 = h as i128 * 60 + m as i128;
    if !in_range(h as i128 * 60) || !in_range(minutes) || (negative && !in_range(-minutes)) {
        return Read::Unreadable;
    }
    Read::Value(
        if negative {
            (-minutes) as i64
        } else {
            minutes as i64
        },
    )
}

/// The thousandths of a fraction of a second.
fn parse_fraction(b: &[u8], s: Stretch) -> (r: Read<i64>)
    requires
        s.fits(b@.len()),
    ensures
        match r {
            Read::Absent => thousandths(s.of(b@)) == Read::<int>::Absent,
            Read::Unreadable => thousandths(s.of(b@)) == Read::<int>::Unreadable,
            Read::Value(ms) => thousandths(s.of(b@)) == Read::Value(ms as int),
        },
{
    let ghost f = s.of(b@);
    let len: usize = s.hi - s.lo;
    if len > 3 && 0x80 <= b[s.lo + 3] && b[s.lo + 3] <= 0xbf {
        assert(is_continuation_byte(f[3]));
        return Read::Unreadable;
    }
    let digits = if len >= 3 {
        Stretch { lo: s.lo, hi: s.lo + 3 }
    } else {
        s
    };
    proof {
        if len >= 3 {
            assert(digits.of(b@) =~= f.take(3));
        }
        lemma_short_numbers(digits.of(b@));
    }
    match parse_stretch(b, digits) {
        Some(v) => {
            let scale: i64 = if len == 1 {
                100
            } else if len == 2 {
                10
            } else {
                1
            };
            assert(-999 <= v <= 999);
            assert(v * scale == v * scale as int) by (nonlinear_arith);
            assert(-99_900 <= v * scale <= 99_900) by (nonlinear_arith)
                requires
                    -999 <= v <= 999,
                    0 < scale <= 100,
            ;
            Read::Value(v * scale)
        },
        None => Read::Absent,
    }
}

proof fn lemma_short_numbers(b: Seq<u8>)
    requires
        b.len() <= 3,
    ensures
        int64(b) matches Some(v) ==> -999 <= v <= 999,
{
    reveal_with_fuel(text::digits_value, 5);
}

/// Reads a time of day.
fn parse_clock(b: &[u8], s: Stretch) -> (r: Read<Clock>)
    requires
        s.fits(b@.len()),
    ensures
        r == clock_of(s.of(b@)),
{
    let parts = bytes::split(b, s, 0x3a);
    if parts.len() < 3 {
        return Read::Absent;
    }
    let seconds = bytes::split(b, parts[2], 0x2e);
    match (
        parse_stretch(b, parts[0]),
        parse_stretch(b, parts[1]),
        parse_stretch(b, seconds[0]),
    ) {
        (Some(hour), Some(minute), Some(second)) => {
            if seconds.len() > 1 {
                match parse_fraction(b, seconds[1]) {
                    Read::Absent => Read::Absent,
                    Read::Unreadable => Read::Unreadable,
                    Read::Value(millis) => Read::Value(Clock { hour, minute, second, millis }),
                }
            } else {
                Read::Value(Clock { hour, minute, second, millis: 0 })
            }
        },
        _ => Read::Absent,
    }
}

/// A time of day, and the stretch of its offset.
struct ZonedStretch {
    time: Stretch,
    zone: Option<Stretch>,
    negative: bool,
}

/// Parts a time of day from its offset.
fn split_zone(b: &[u8], s: Stretch) -> (r: ZonedStretch)
    requires
        s.fits(b@.len()),
    ensures
        r.time.fits(b@.len()),
        r.zone matches Some(z) ==> z.fits(b@.len()),
        ({
            let z = zoned(s.of(b@));
            &&& z.time == r.time.of(b@)
            &&& z.negative == r.negative
            &&& match r.zone {
                Some(zone) => z.zone == Some(zone.of(b@)),
                None => z.zone is None,
            }
        }),
{
    let ghost t = s.of(b@);
    match bytes::find_last(b, s, 0x2b) {
        Some(i) => {
            if i - s.lo > 6 {
                let time = Stretch { lo: s.lo, hi: i };
                let zone = Stretch { lo: i + 1, hi: s.hi };
                assert(time.of(b@) =~= t.take(i - s.lo));
                assert(zone.of(b@) =~= t.skip(i - s.lo + 1));
                ZonedStretch { time, zone: Some(zone), negative: false }
            } else {
                ZonedStretch { time: s, zone: None, negative: false }
            }
        },
        None => match bytes::find_last(b, s, 0x2d) {
            Some(i) => {
                if i - s.lo > 6 {
                    let time = Stretch { lo: s.lo, hi: i };
                    let zone = Stretch { lo: i + 1, hi: s.hi };
                    assert(time.of(b@) =~= t.take(i - s.lo));
                    assert(zone.of(b@) =~= t.skip(i - s.lo + 1));
                    ZonedStretch { time, zone: Some(zone), negative: true }
                } else {
                    ZonedStretch { time: s, zone: None, negative: false }
                }
            },
            None => {
                let mut hi: usize = s.hi;
                assert(t.take(s.hi - s.lo) =~= t);
                while hi > s.lo && b[hi - 1] == 0x5a
                    invariant
                        s.fits(b@.len()),
                        s.lo <= hi <= s.hi,
                        t == s.of(b@),
                        without_z(t) == without_z(t.take(hi - s.lo)),
                    decreases hi,
                {
                    assert(t.take(hi - s.lo).last() == b@[hi - 1]);
                    assert(t.take(hi - s.lo).drop_last() =~= t.take(hi - s.lo - 1));
                    hi -= 1;
                }
                let time = Stretch { lo: s.lo, hi };
                assert(time.of(b@) =~= t.take(hi - s.lo));
                assert(hi > s.lo ==> t.take(hi - s.lo).last() == b@[hi - 1]);
                ZonedStretch { time, zone: None, negative: false }
            },
        },
    }
}

/// Counts the time, where every step stays in the machine's numbers.
fn count_millis(date: Civil, clock: Clock, offset: i64) -> (r: Option<i64>)
    ensures
        match r {
            Some(ms) => instant_fits(date, clock, offset as int) && ms == seconds_of(
                date,
                clock,
                offset as int,
            ) * 1000 + clock.millis,
            None => !instant_fits(date, clock, offset as int),
        },
{
    let days: i128 = match count_days(date.year, date.month, date.day) {
        Some(days) => days as i128,
        None => {
            return None;
        },
    };
    let at_hour: i128 = days * 86400 + clock.hour as i128 * 3600;
    let at_minute: i128 = at_hour + clock.minute as i128 * 60;
    let seconds: i128 = at_minute + clock.second as i128 - offset as i128 * 60;
    let ms: i128 = seconds * 1000 + clock.millis as i128;
    if !in_range(days * 86400) || !in_range(clock.hour as i128 * 3600) || !in_range(at_hour)
        || !in_range(clock.minute as i128 * 60) || !in_range(at_minute) || !in_range(
        at_minute + clock.second as i128,
    ) || !in_range(offset as i128 * 60) || !in_range(seconds) || !in_range(seconds * 1000)
        || !in_range(ms) {
        return None;
    }
    Some(ms as i64)
}

/// The time that a date and a time of day with its offset mean.
fn parse_instant(b: &[u8]) -> (r: Read<i64>)
    ensures
        r == instant_of(b@),
{
    let whole = Stretch { lo: 0, hi: b.len() };
    assert(whole.of(b@) =~= b@);
    let t: usize = match bytes::find_first(b, whole, 0x54) {
        Some(i) => i,
        None => {
            return Read::Absent;
        },
    };
    let before = Stretch { lo: 0, hi: t };
    let after = Stretch { lo: t + 1, hi: b.len() };
    assert(before.of(b@) =~= b@.take(t as int));
    assert(after.of(b@) =~= b@.skip(t + 1));
    let date = match parse_date(b, before) {
        Some(date) => date,
        None => {
            return Read::Absent;
        },
    };
    let z = split_zone(b, after);
    let offset: i64 = match z.zone {
        Some(zone) => match parse_offset(b, zone, z.negative) {
            Read::Value(minutes) => minutes,
            Read::Absent => {
                return Read::Absent;
            },
            Read::Unreadable => {
                return Read::Unreadable;
            },
        },
        None => 0,
    };
    match parse_clock(b, z.time) {
        Read::Absent => Read::Absent,
        Read::Unreadable => Read::Unreadable,
        Read::Value(clock) => match count_millis(date, clock, offset) {
            Some(ms) => Read::Value(ms),
            None => Read::Unreadable,
        },
    }
}

/// The time in milliseconds that the text means.
pub fn read_timestamp(s: &str) -> (r: Read<i64>)
    ensures
        r == timestamp_of(s@),
{
    let b = s.as_bytes();
    let whole = Stretch { lo: 0, hi: b.len() };
    assert(whole.of(b@) =~= b@);
    match parse_stretch(b, whole) {
        Some(ms) => Read::Value(ms),
        None => parse_instant(b),
    }
}

/// The time in milliseconds that the text means; none where it means no time.
pub fn parse_replay_timestamp(s: &str) -> (r: Option<i64>)
    requires
        timestamp_of(s@) != Read::<i64>::Unreadable,
    ensures
        match r {
            Some(ms) => timestamp_of(s@) == Read::Value(ms),
            None => timestamp_of(s@) == Read::<i64>::Absent,
        },
{
    match read_timestamp(s) {
        Read::Value(ms) => Some(ms),
        Read::Absent => None,
        Read::Unreadable => None,
    }
}

/// A plain number of milliseconds is read back as itself.
pub proof fn law_plain_milliseconds_are_read_back(ms: i64)
    ensures
        timestamp_of(text::decimal(ms as int)) == Read::Value(ms),
{
    text::law_decimal_is_read_back(ms as int);
}

/// The value of a hexadecimal digit.
pub open spec fn hex_digit(c: char) -> Option<int> {
    if '0' <= c && c <= '9' {
        Some(c as int - 0x30)
    } else if 'a' <= c && c <= 'f' {
        Some(c as int - 0x61 + 10)
    } else if 'A' <= c && c <= 'F' {
        Some(c as int - 0x41 + 10)
    } else {
        None
    }
}

/// The text without white space.
pub open spec fn without_space(s: Seq<char>) -> Seq<char> {
    s.filter(|c: char| !text::white_space(c))
}

/// The bytes that pairs of hexadecimal digits spell, white space aside; none where anything else
/// stands among them or a digit has no other beside it.
pub open spec fn decoded(s: Seq<char>) -> Option<Seq<u8>> {
    let digits = without_space(s);
    if digits.len() % 2 == 0 && forall|i: int|
        0 <= i < digits.len() ==> hex_digit(#[trigger] digits[i]) is Some {
        Some(
            Seq::new(
                digits.len() / 2,
                |i: int|
                    (hex_digit(digits[2 * i])->0 * 16 + hex_digit(digits[2 * i + 1])->0) as u8,
            ),
        )
    } else {
        None
    }
}

/// The value of a hexadecimal digit.
fn read_hex_digit(c: char) -> (r: Option<u8>)
    ensures
        match r {
            Some(v) => hex_digit(c) == Some(v as int) && v < 16,
            None => hex_digit(c) is None,
        },
{
    let n: u32 = c as u32;
    if 0x30 <= n && n <= 0x39 {
        Some((n - 0x30) as u8)
    } else if 0x61 <= n && n <= 0x66 {
        Some((n - 0x61 + 10) as u8)
    } else if 0x41 <= n && n <= 0x46 {
        Some((n - 0x41 + 10) as u8)
    } else {
        None
    }
}

/// The characters that are not white space.
fn drop_space(s: &str) -> (r: Vec<char>)
    ensures
        r@ == without_space(s@),
{
    let cs = text::chars_of(s);
    let ghost solid = |c: char| !text::white_space(c);
    let mut r: Vec<char> = Vec::new();
    let mut i: usize = 0;
    reveal(Seq::filter);
    while i < cs.len()
        invariant
            i <= cs@.len(),
            cs@ == s@,
            solid == (|c: char| !text::white_space(c)),
            r@ == cs@.take(i as int).filter(solid),
        decreases cs@.len() - i,
    {
        reveal(Seq::filter);
        assert(cs@.take(i + 1).drop_last() =~= cs@.take(i as int));
        assert(cs@.take(i + 1).last() == cs@[i as int]);
        if !text::is_white_space(cs[i]) {
            r.push(cs[i]);
        }
        i += 1;
    }
    assert(cs@.take(i as int) =~= cs@);
    r
}

/// The bytes that hexadecimal digits spell.
pub fn decode_replay_hex(hex: &str) -> (r: Option<Vec<u8>>)
    ensures
        match r {
            Some(data) => decoded(hex@) == Some(data@),
            None => decoded(hex@) is None,
        },
{
    let digits = drop_space(hex);
    let n: usize = digits.len();
    if n % 2 != 0 {
        return None;
    }
    let ghost value = |i: int|
        (hex_digit(digits@[2 * i])->0 * 16 + hex_digit(digits@[2 * i + 1])->0) as u8;
    let mut data: Vec<u8> = Vec::new();
    let mut i: usize = 0;
    while i < n
        invariant
            i <= n,
            i % 2 == 0,
            n % 2 == 0,
            n == digits@.len(),
            digits@ == without_space(hex@),
            value == (|i: int|
                (hex_digit(digits@[2 * i])->0 * 16 + hex_digit(digits@[2 * i + 1])->0) as u8),
            forall|j: int| 0 <= j < i ==> hex_digit(#[trigger] digits@[j]) is Some,
            data@ == Seq::new((i / 2) as nat, value),
        decreases n - i,
    {
        let high = read_hex_digit(digits[i]);
        let low = read_hex_digit(digits[i + 1]);
        match (high, low) {
            (Some(h), Some(l)) => {
                data.push(h * 16 + l);
                assert(value(i as int / 2) == h * 16 + l);
                assert(data@ =~= Seq::new(((i + 2) / 2) as nat, value));
            },
            _ => {
                assert(hex_digit(digits@[i as int]) is None || hex_digit(digits@[i + 1]) is None);
                return None;
            },
        }
        i += 2;
    }
    assert(data@ =~= Seq::new((n / 2) as nat, value));
    Some(data)
}

/// A hexadecimal digit.
pub open spec fn digit_of(v: int) -> char {
    if v < 10 {
        (0x30 + v) as char
    } else {
        (0x61 + v - 10) as char
    }
}

/// Bytes as hexadecimal digits.
pub open spec fn hex_text(b: Seq<u8>) -> Seq<char> {
    Seq::new(
        2 * b.len(),
        |i: int|
            if i % 2 == 0 {
                digit_of(b[i / 2] as int / 16)
            } else {
                digit_of(b[i / 2] as int % 16)
            },
    )
}

/// A text without white space stays as it is.
pub proof fn lemma_no_space(s: Seq<char>)
    requires
        forall|i: int| 0 <= i < s.len() ==> !text::white_space(#[trigger] s[i]),
    ensures
        without_space(s) == s,
    decreases s.len(),
{
    reveal(Seq::filter);
    if s.len() > 0 {
        lemma_no_space(s.drop_last());
        assert(s.drop_last().push(s.last()) =~= s);
        assert(!text::white_space(s[s.len() - 1]));
    }
}

proof fn lemma_digit_of(v: int)
    requires
        0 <= v < 16,
    ensures
        hex_digit(digit_of(v)) == Some(v),
        !text::white_space(digit_of(v)),
{
}

/// Bytes that were written as hexadecimal digits are read back as themselves.
pub proof fn law_hex_is_read_back(b: Seq<u8>)
    ensures
        decoded(hex_text(b)) == Some(b),
{
    let s = hex_text(b);
    assert forall|i: int| 0 <= i < s.len() implies !text::white_space(#[trigger] s[i])
        && hex_digit(s[i]) is Some by {
        lemma_digit_of(b[i / 2] as int / 16);
        lemma_digit_of(b[i / 2] as int % 16);
    }
    lemma_no_space(s);
    let r = decoded(s)->0;
    assert forall|i: int| 0 <= i < b.len() implies r[i] == b[i] by {
        assert((2 * i) / 2 == i && (2 * i + 1) / 2 == i && (2 * i) % 2 == 0 && (2 * i + 1) % 2
            == 1);
        lemma_digit_of(b[i] as int / 16);
        lemma_digit_of(b[i] as int % 16);
        assert(s[2 * i] == digit_of(b[i] as int / 16));
        assert(s[2 * i + 1] == digit_of(b[i] as int % 16));
    }
    assert(r =~= b);
}

/// The text without the byte order marks at its start.
pub open spec fn without_marks(s: Seq<char>) -> Seq<char>
    decreases s.len(),
{
    if s.len() > 0 && s[0] as u32 == 0xfeff {
        without_marks(s.skip(1))
    } else {
        s
    }
}

/// A row of a recording: when it was captured, and what.
#[verifier::ext_equal]
pub struct RowModel {
    pub stamp: Seq<char>,
    pub payload: Seq<char>,
}

/// Reads a row: three fields between bars, the last of which may hold more bars. Empty rows and
/// remarks are no rows.
pub open spec fn row_of(line: Seq<char>) -> Option<RowModel> {
    let row = text::trimmed(line);
    if row.len() == 0 || row[0] == '#' {
        None
    } else {
        match bytes::first_at(row, '|') {
            None => None,
            Some(i) => {
                let rest = row.skip(i + 1);
                match bytes::first_at(rest, '|') {
                    None => None,
                    Some(j) => Some(
                        RowModel { stamp: row.take(i), payload: rest.skip(j + 1) },
                    ),
                }
            },
        }
    }
}

/// A captured packet, and the time that is to be taken for its own.
#[verifier::ext_equal]
pub struct PacketModel {
    pub timestamp: Option<i64>,
    pub data: Seq<u8>,
}

/// The packets of a recording, the last time that was read, and whether reading stopped at a time
/// that cannot be counted.
#[verifier::ext_equal]
pub struct ReplayModel {
    pub clock: Option<i64>,
    pub packets: Seq<PacketModel>,
    pub cut: bool,
}

impl ReplayModel {
    /// A recording without rows.
    pub open spec fn empty() -> Self {
        ReplayModel { clock: None, packets: Seq::empty(), cut: false }
    }

    /// The recording with one more row. A time holds for its row and for those after it that have
    /// none; a row whose bytes cannot be read is left out. At a row whose time cannot be counted,
    /// reading stops.
    pub open spec fn with_row(self, row: RowModel) -> Self {
        match timestamp_of(text::trimmed(row.stamp)) {
            Read::Unreadable => ReplayModel { cut: true, ..self },
            stamp => {
                let clock = match stamp {
                    Read::Value(ms) => Some(ms),
                    _ => self.clock,
                };
                ReplayModel {
                    clock,
                    packets: match decoded(row.payload) {
                        Some(data) => self.packets.push(PacketModel { timestamp: clock, data }),
                        None => self.packets,
                    },
                    cut: self.cut,
                }
            },
        }
    }
}

/// The recording that the given lines hold.
pub open spec fn replay_of_lines(lines: Seq<Seq<char>>) -> ReplayModel
    decreases lines.len(),
{
    if lines.len() == 0 {
        ReplayModel::empty()
    } else {
        let before = replay_of_lines(lines.drop_last());
        match row_of(lines.last()) {
            Some(row) if !before.cut => before.with_row(row),
            _ => before,
        }
    }
}

/// The recording that a text holds.
pub open spec fn replay_of(s: Seq<char>) -> ReplayModel {
    replay_of_lines(bytes::pieces(without_marks(s), '\n'))
}

/// A captured packet, and the time that is to be taken for its own.
#[derive(Debug)]
pub struct ReplayPacket {
    pub timestamp: Option<i64>,
    pub data: Vec<u8>,
}

impl View for ReplayPacket {
    type V = PacketModel;

    open spec fn view(&self) -> PacketModel {
        PacketModel { timestamp: self.timestamp, data: self.data@ }
    }
}

/// The models of a list of packets.
pub open spec fn packet_models(s: Seq<ReplayPacket>) -> Seq<PacketModel> {
    s.map_values(|p: ReplayPacket| p@)
}

/// The packets of a recording.
#[derive(Debug)]
pub struct Replay {
    pub packets: Vec<ReplayPacket>,
    /// Whether reading stopped at a time that cannot be counted; the packets are those before it.
    pub cut: bool,
}

/// The fields of a row.
struct Row<'a> {
    stamp: &'a str,
    payload: &'a str,
}

/// Reads a row.
#[verifier::spinoff_prover]
#[verifier::rlimit(50)]
fn read_row<'a>(line: &'a str) -> (r: Option<Row<'a>>)
    ensures
        match r {
            Some(row) => row_of(line@) == Some(
                RowModel { stamp: row.stamp@, payload: row.payload@ },
            ),
            None => row_of(line@) is None,
        },
{
    let row = text::trim(line);
    let cs = text::chars_of(row);
    if cs.len() == 0 || cs[0] == '#' {
        return None;
    }
    let n: usize = cs.len();
    let whole = Stretch { lo: 0, hi: n };
    assert(whole.of(cs@) =~= row@);
    let i: usize = match bytes::find_first_char(&cs, whole, '|') {
        Some(i) => i,
        None => {
            return None;
        },
    };
    let rest = Stretch { lo: i + 1, hi: n };
    assert(rest.of(cs@) =~= row@.skip(i + 1));
    let j: usize = match bytes::find_first_char(&cs, rest, '|') {
        Some(j) => j,
        None => {
            return None;
        },
    };
    let stamp = row.substring_char(0, i);
    let payload = row.substring_char(j + 1, n);
    assert(stamp@ =~= row@.take(i as int));
    assert(payload@ =~= row@.skip(i + 1).skip(j - (i + 1) + 1));
    Some(Row { stamp, payload })
}

/// Reads a recording, up to the first time that cannot be counted.
pub fn read_replay(s: &str) -> (r: Replay)
    ensures
        packet_models(r.packets@) == replay_of(s@).packets,
        r.cut == replay_of(s@).cut,
{
    let cs = text::chars_of(s);
    let n: usize = cs.len();
    let mut start: usize = 0;
    assert(s@.skip(0) =~= s@);
    while start < n && cs[start] as u32 == 0xfeff
        invariant
            n == cs@.len(),
            cs@ == s@,
            start <= n,
            without_marks(s@) == without_marks(s@.skip(start as int)),
        decreases n - start,
    {
        assert(s@.skip(start as int).skip(1) =~= s@.skip(start + 1));
        start += 1;
    }
    let body = Stretch { lo: start, hi: n };
    assert(body.of(cs@) =~= s@.skip(start as int));
    assert(without_marks(s@) == s@.skip(start as int));
    let lines = bytes::split_chars(&cs, body, '\n');
    let ghost all = bytes::pieces(without_marks(s@), '\n');
    let mut clock: Option<i64> = None;
    let mut packets: Vec<ReplayPacket> = Vec::new();
    let mut i: usize = 0;
    assert(packet_models(packets@) =~= Seq::empty());
    while i < lines.len()
        invariant
            i <= lines@.len(),
            cs@ == s@,
            lines@.len() == all.len(),
            forall|k: int|
                0 <= k < lines@.len() ==> (#[trigger] lines@[k]).fits(cs@.len()) && lines@[k].of(
                    cs@,
                ) == all[k],
            replay_of_lines(all.take(i as int)) == (ReplayModel {
                clock,
                packets: packet_models(packets@),
                cut: false,
            }),
            all == bytes::pieces(without_marks(s@), '\n'),
        decreases lines@.len() - i,
    {
        let ghost before = packet_models(packets@);
        assert(all.take(i + 1).drop_last() =~= all.take(i as int));
        assert(all.take(i + 1).last() == all[i as int]);
        let line = s.substring_char(lines[i].lo, lines[i].hi);
        assert(line@ == all[i as int]);
        match read_row(line) {
            Some(row) => {
                match read_timestamp(text::trim(row.stamp)) {
                    Read::Unreadable => {
                        proof {
                            lemma_no_way_back(all, i + 1);
                        }
                        return Replay { packets, cut: true };
                    },
                    Read::Value(ms) => {
                        clock = Some(ms);
                    },
                    Read::Absent => {},
                }
                match decode_replay_hex(row.payload) {
                    Some(data) => {
                        packets.push(ReplayPacket { timestamp: clock, data });
                        assert(packet_models(packets@) =~= before.push(
                            PacketModel { timestamp: clock, data: data@ },
                        ));
                    },
                    None => {},
                }
            },
            None => {},
        }
        i += 1;
    }
    assert(all.take(i as int) =~= all);
    Replay { packets, cut: false }
}

proof fn lemma_no_way_back(lines: Seq<Seq<char>>, k: int)
    requires
        0 <= k <= lines.len(),
        replay_of_lines(lines.take(k)).cut,
    ensures
        replay_of_lines(lines) == replay_of_lines(lines.take(k)),
    decreases lines.len(),
{
    if k == lines.len() {
        assert(lines.take(k) =~= lines);
    } else {
        assert(lines.drop_last().take(k) =~= lines.take(k));
        lemma_no_way_back(lines.drop_last(), k);
    }
}

/// What is said at the end of a replay.
pub open spec fn summary_text(packets: int, damage_events: int) -> Seq<char> {
    "Replay complete. "@ + text::decimal(packets) + " packets, "@ + text::decimal(damage_events)
        + " damage events."@
}

/// What is said at the end of a replay.
pub fn replay_summary(packets: u64, damage_events: i64) -> (r: String)
    ensures
        r@ == summary_text(packets as int, damage_events as int),
{
    let mut r = "Replay complete. ".to_owned();
    r.append(text::decimal_of_u64(packets).as_str());
    r.append(" packets, ");
    r.append(text::decimal_of_i64(damage_events).as_str());
    r.append(" damage events.");
    r
}

} // verus!
