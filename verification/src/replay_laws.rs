//! What holds of the times of recorded captures.
use crate::bytes;
use crate::replay;
use crate::replay::{Civil, Clock, Read, Zoned};
use crate::text;
use vstd::prelude::*;
use vstd::utf8::*;

verus! {

/// A number in two digits.
pub open spec fn two_digits(n: int) -> Seq<char> {
    seq![text::digit_char(n / 10), text::digit_char(n % 10)]
}

/// A date and a time of day as they are written down: four digits for the year, two for all else,
/// and the digits of the fraction of the second, if there are any.
pub struct WallTime {
    pub year: int,
    pub month: int,
    pub day: int,
    pub hour: int,
    pub minute: int,
    pub second: int,
    pub fraction: Seq<int>,
}

impl WallTime {
    /// Whether the numbers fit in their digits.
    pub open spec fn fits(self) -> bool {
        &&& 0 <= self.year <= 9999
        &&& 0 <= self.month <= 99
        &&& 0 <= self.day <= 99
        &&& 0 <= self.hour <= 99
        &&& 0 <= self.minute <= 99
        &&& 0 <= self.second <= 99
        &&& forall|i: int| 0 <= i < self.fraction.len() ==> 0 <= #[trigger] self.fraction[i] <= 9
    }

    /// The text of the date.
    pub open spec fn date_text(self) -> Seq<char> {
        two_digits(self.year / 100) + two_digits(self.year % 100) + seq!['-'] + two_digits(
            self.month,
        ) + seq!['-'] + two_digits(self.day)
    }

    /// The text of the time of day.
    pub open spec fn clock_text(self) -> Seq<char> {
        two_digits(self.hour) + seq![':'] + two_digits(self.minute) + seq![':'] + two_digits(
            self.second,
        ) + if self.fraction.len() == 0 {
            Seq::empty()
        } else {
            seq!['.'] + self.fraction.map_values(|d: int| text::digit_char(d))
        }
    }

    /// The text of both.
    pub open spec fn text(self) -> Seq<char> {
        self.date_text() + seq!['T'] + self.clock_text()
    }

    /// A digit of the fraction; zero behind its end.
    pub open spec fn fraction_digit(self, i: int) -> int {
        if i < self.fraction.len() {
            self.fraction[i]
        } else {
            0
        }
    }

    /// The thousandths of the second.
    pub open spec fn thousandths(self) -> int {
        100 * self.fraction_digit(0) + 10 * self.fraction_digit(1) + self.fraction_digit(2)
    }

    /// The time, in milliseconds since the start of 1970, if no offset is taken off.
    pub open spec fn millis(self) -> int {
        (replay::civil_days(self.year, self.month, self.day) * 86400 + self.hour * 3600
            + self.minute * 60 + self.second) * 1000 + self.thousandths()
    }
}

/// The text of an offset.
pub open spec fn zone_text(sign: char, hours: int, minutes: int) -> Seq<char> {
    seq![sign] + two_digits(hours) + seq![':'] + two_digits(minutes)
}

/// Characters of ASCII as bytes.
spec fn ascii(s: Seq<char>) -> Seq<u8> {
    s.map_values(|c: char| c as u8)
}

/// Whether the bytes are digits.
spec fn all_digits(b: Seq<u8>) -> bool {
    forall|i: int| 0 <= i < b.len() ==> text::digit_byte(#[trigger] b[i])
}

proof fn lemma_ascii(s: Seq<char>)
    requires
        is_ascii_chars(s),
    ensures
        encode_utf8(s) == ascii(s),
{
    is_ascii_chars_encode_utf8(s);
    assert(encode_utf8(s) =~= ascii(s));
}

proof fn lemma_digits(b: Seq<u8>)
    ensures
        text::digits_value(b) is Some <==> all_digits(b),
    decreases b.len(),
{
    if b.len() > 0 {
        let front = b.drop_last();
        lemma_digits(front);
        if all_digits(b) {
            assert forall|i: int| 0 <= i < front.len() implies text::digit_byte(
                #[trigger] front[i],
            ) by {
                assert(text::digit_byte(b[i]));
            }
            assert(text::digit_byte(b[b.len() - 1]));
        }
        if text::digits_value(b) is Some {
            assert forall|i: int| 0 <= i < b.len() implies text::digit_byte(#[trigger] b[i]) by {
                if i < front.len() {
                    assert(text::digit_byte(front[i]));
                }
            }
        }
    }
}

proof fn lemma_two_digits(n: int)
    requires
        0 <= n <= 99,
    ensures
        ascii(two_digits(n)).len() == 2,
        all_digits(ascii(two_digits(n))),
        replay::int64(ascii(two_digits(n))) == Some(n),
{
    let b = ascii(two_digits(n));
    assert(b[0] == 0x30 + n / 10);
    assert(b[1] == 0x30 + n % 10);
    reveal_with_fuel(text::digits_value, 3);
    assert(b.drop_last().drop_last() =~= Seq::empty());
    assert(b.drop_last().last() == b[0]);
}

proof fn lemma_year(n: int)
    requires
        0 <= n <= 9999,
    ensures
        ({
            let b = ascii(two_digits(n / 100)) + ascii(two_digits(n % 100));
            &&& b.len() == 4
            &&& all_digits(b)
            &&& replay::int64(b) == Some(n)
        }),
{
    let b = ascii(two_digits(n / 100)) + ascii(two_digits(n % 100));
    assert(b[0] == 0x30 + n / 100 / 10);
    assert(b[1] == 0x30 + n / 100 % 10);
    assert(b[2] == 0x30 + n % 100 / 10);
    assert(b[3] == 0x30 + n % 100 % 10);
    reveal_with_fuel(text::digits_value, 5);
    let b3 = b.drop_last();
    let b2 = b3.drop_last();
    let b1 = b2.drop_last();
    assert(b1.drop_last() =~= Seq::empty());
    assert(b3.last() == b[2] && b2.last() == b[1] && b1.last() == b[0]);
}

proof fn lemma_date(w: WallTime)
    requires
        w.fits(),
    ensures
        ({
            let b = ascii(w.date_text());
            &&& b.len() == 10
            &&& text::digit_byte(b[0])
            &&& !b.contains(0x54)
            &&& replay::date_of(b) == Some(
                Civil { year: w.year as i64, month: w.month as i64, day: w.day as i64 },
            )
        }),
{
    let b = ascii(w.date_text());
    let y = ascii(two_digits(w.year / 100)) + ascii(two_digits(w.year % 100));
    let m = ascii(two_digits(w.month));
    let d = ascii(two_digits(w.day));
    lemma_year(w.year);
    lemma_two_digits(w.month);
    lemma_two_digits(w.day);
    let front = y.push(0x2d) + m;
    assert(b =~= front.push(0x2d) + d);
    bytes::lemma_last_at(front, 0x2d, d);
    bytes::lemma_last_at(y, 0x2d, m);
    bytes::lemma_absent(y, 0x2d);
    assert(b[0] == y[0]);
    assert forall|i: int| 0 <= i < b.len() implies b[i] != 0x54 by {
        if i < 4 {
            assert(b[i] == y[i]);
        } else if 5 <= i < 7 {
            assert(b[i] == m[i - 5]);
        } else if i >= 8 {
            assert(b[i] == d[i - 8]);
        }
    }
}

proof fn lemma_fraction(w: WallTime)
    requires
        w.fits(),
        w.fraction.len() > 0,
    ensures
        ({
            let f = ascii(w.fraction.map_values(|d: int| text::digit_char(d)));
            &&& all_digits(f)
            &&& f.len() == w.fraction.len()
            &&& replay::thousandths(f) == Read::Value(w.thousandths())
        }),
{
    let f = ascii(w.fraction.map_values(|d: int| text::digit_char(d)));
    assert forall|i: int| 0 <= i < f.len() implies #[trigger] f[i] == 0x30 + w.fraction[i]
        && text::digit_byte(f[i]) by {
        assert(0 <= w.fraction[i] <= 9);
    }
    let g = if f.len() >= 3 {
        f.take(3)
    } else {
        f
    };
    reveal_with_fuel(text::digits_value, 4);
    assert(g[0] == f[0]);
    let g1 = g.drop_last();
    let g2 = g1.drop_last();
    assert(f[0] == 0x30 + w.fraction[0]);
    if f.len() == 1 {
        assert(g1 =~= Seq::empty());
    } else if f.len() == 2 {
        assert(g2 =~= Seq::empty());
        assert(g1.last() == f[0] && g.last() == f[1]);
    } else {
        assert(g2.drop_last() =~= Seq::empty());
        assert(g2.last() == f[0] && g1.last() == f[1] && g.last() == f[2]);
        if f.len() > 3 {
            assert(text::digit_byte(f[3]));
        }
    }
}

proof fn lemma_clock(w: WallTime)
    requires
        w.fits(),
    ensures
        ({
            let b = ascii(w.clock_text());
            &&& b.len() > 6
            &&& !b.contains(0x2b)
            &&& !b.contains(0x2d)
            &&& !b.contains(0x5a)
            &&& replay::clock_of(b) == Read::Value(
                Clock {
                    hour: w.hour as i64,
                    minute: w.minute as i64,
                    second: w.second as i64,
                    millis: w.thousandths() as i64,
                },
            )
        }),
{
    let b = ascii(w.clock_text());
    let h = ascii(two_digits(w.hour));
    let m = ascii(two_digits(w.minute));
    let s = ascii(two_digits(w.second));
    let f = ascii(w.fraction.map_values(|d: int| text::digit_char(d)));
    lemma_two_digits(w.hour);
    lemma_two_digits(w.minute);
    lemma_two_digits(w.second);
    let seconds = if w.fraction.len() == 0 {
        s
    } else {
        s.push(0x2e) + f
    };
    bytes::lemma_absent(s, 0x2e);
    if w.fraction.len() > 0 {
        lemma_fraction(w);
        bytes::lemma_last_at(s, 0x2e, f);
    }
    assert forall|i: int| 0 <= i < seconds.len() implies text::digit_byte(#[trigger] seconds[i])
        || seconds[i] == 0x2e by {
        if i < 2 {
            assert(seconds[i] == s[i]);
        } else if i > 2 {
            assert(seconds[i] == f[i - 3]);
        }
    }
    let front = h.push(0x3a) + m;
    assert(b =~= front.push(0x3a) + seconds);
    bytes::lemma_last_at(front, 0x3a, seconds);
    bytes::lemma_last_at(h, 0x3a, m);
    bytes::lemma_absent(h, 0x3a);
    assert forall|i: int| 0 <= i < b.len() implies b[i] != 0x2b && b[i] != 0x2d && b[i]
        != 0x5a by {
        if i < 2 {
            assert(b[i] == h[i]);
        } else if 3 <= i < 5 {
            assert(b[i] == m[i - 3]);
        } else if i >= 6 {
            assert(b[i] == seconds[i - 6]);
        }
    }
}

proof fn lemma_zone(hours: int, minutes: int)
    requires
        0 <= hours <= 99,
        0 <= minutes <= 99,
    ensures
        ({
            let b = ascii(two_digits(hours)).push(0x3a) + ascii(two_digits(minutes));
            &&& !b.contains(0x2b)
            &&& !b.contains(0x2d)
            &&& replay::offset_minutes(b, false) == Read::Value(hours * 60 + minutes)
            &&& replay::offset_minutes(b, true) == Read::Value(-(hours * 60 + minutes))
        }),
{
    let h = ascii(two_digits(hours));
    let m = ascii(two_digits(minutes));
    let b = h.push(0x3a) + m;
    lemma_two_digits(hours);
    lemma_two_digits(minutes);
    bytes::lemma_last_at(h, 0x3a, m);
    bytes::lemma_absent(h, 0x3a);
    assert forall|i: int| 0 <= i < b.len() implies b[i] != 0x2b && b[i] != 0x2d by {
        if i < 2 {
            assert(b[i] == h[i]);
        } else if i > 2 {
            assert(b[i] == m[i - 3]);
        }
    }
}

proof fn lemma_zoned(c: Seq<u8>, zone: Seq<u8>)
    requires
        c.len() > 6,
        !c.contains(0x2b),
        !c.contains(0x2d),
        !c.contains(0x5a),
        !zone.contains(0x2b),
        !zone.contains(0x2d),
    ensures
        replay::zoned(c) == (Zoned { time: c, zone: None, negative: false }),
        replay::zoned(c.push(0x5a)) == (Zoned { time: c, zone: None, negative: false }),
        replay::zoned(c.push(0x2b) + zone) == (Zoned {
            time: c,
            zone: Some(zone),
            negative: false,
        }),
        replay::zoned(c.push(0x2d) + zone) == (Zoned {
            time: c,
            zone: Some(zone),
            negative: true,
        }),
{
    assert(c[c.len() - 1] != 0x5a);
    bytes::lemma_absent(c, 0x2b);
    bytes::lemma_absent(c, 0x2d);
    assert(replay::without_z(c) == c);
    let z = c.push(0x5a);
    assert(z.drop_last() =~= c);
    bytes::lemma_absent(z, 0x2b);
    bytes::lemma_absent(z, 0x2d);
    let plus = c.push(0x2b) + zone;
    bytes::lemma_last_at(c, 0x2b, zone);
    assert(plus.take(c.len() as int) =~= c);
    assert(plus.skip(c.len() as int + 1) =~= zone);
    let minus = c.push(0x2d) + zone;
    assert forall|i: int| 0 <= i < minus.len() implies minus[i] != 0x2b by {
        if i < c.len() {
            assert(minus[i] == c[i]);
        } else if i > c.len() {
            assert(minus[i] == zone[i - c.len() - 1]);
        }
    }
    bytes::lemma_absent(minus, 0x2b);
    bytes::lemma_last_at(c, 0x2d, zone);
    assert(minus.take(c.len() as int) =~= c);
    assert(minus.skip(c.len() as int + 1) =~= zone);
}

proof fn lemma_behind(clock: Seq<u8>, hours: int, minutes: int)
    requires
        0 <= hours <= 99,
        0 <= minutes <= 99,
    ensures
        ({
            let zone = ascii(two_digits(hours)).push(0x3a) + ascii(two_digits(minutes));
            &&& clock + ascii(Seq::empty()) == clock
            &&& clock + ascii(seq!['Z']) == clock.push(0x5a)
            &&& clock + ascii(zone_text('+', hours, minutes)) == clock.push(0x2b) + zone
            &&& clock + ascii(zone_text('-', hours, minutes)) == clock.push(0x2d) + zone
            &&& is_ascii_chars(zone_text('+', hours, minutes))
            &&& is_ascii_chars(zone_text('-', hours, minutes))
        }),
{
    let zone = ascii(two_digits(hours)).push(0x3a) + ascii(two_digits(minutes));
    assert(clock + ascii(Seq::empty()) =~= clock);
    assert(clock + ascii(seq!['Z']) =~= clock.push(0x5a));
    assert(clock + ascii(zone_text('+', hours, minutes)) =~= clock.push(0x2b) + zone);
    assert(clock + ascii(zone_text('-', hours, minutes)) =~= clock.push(0x2d) + zone);
}

proof fn lemma_instant_fits(w: WallTime, offset: int)
    requires
        w.fits(),
        -6039 <= offset <= 6039,
    ensures
        ({
            let date = Civil { year: w.year as i64, month: w.month as i64, day: w.day as i64 };
            let clock = Clock {
                hour: w.hour as i64,
                minute: w.minute as i64,
                second: w.second as i64,
                millis: w.thousandths() as i64,
            };
            &&& replay::instant_fits(date, clock, offset)
            &&& replay::seconds_of(date, clock, offset) * 1000 + clock.millis == w.millis()
                - offset * 60_000
            &&& replay::fits(w.millis() - offset * 60_000)
        }),
{
    if w.fraction.len() > 0 {
        assert(0 <= w.fraction[0] <= 9);
    }
    if w.fraction.len() > 1 {
        assert(0 <= w.fraction[1] <= 9);
    }
    if w.fraction.len() > 2 {
        assert(0 <= w.fraction[2] <= 9);
    }
    assert(0 <= w.thousandths() <= 999);
}

proof fn lemma_joined(date: Seq<char>, clock: Seq<char>, rest: Seq<char>)
    requires
        is_ascii_chars(date),
        is_ascii_chars(clock),
        is_ascii_chars(rest),
    ensures
        encode_utf8(date + seq!['T'] + clock + rest) == ascii(date).push(0x54) + (ascii(clock)
            + ascii(rest)),
{
    let s = date + seq!['T'] + clock + rest;
    assert forall|i: int| 0 <= i < s.len() implies '\0' <= #[trigger] s[i] <= '\u{7f}' by {
        let n = date.len();
        let m = clock.len();
        if i < n {
            assert(s[i] == date[i]);
        } else if i == n {
            assert(s[i] == 'T');
        } else if i < n + 1 + m {
            assert(s[i] == clock[i - n - 1]);
        } else {
            assert(s[i] == rest[i - n - 1 - m]);
        }
    }
    lemma_ascii(s);
    assert(ascii(s) =~= ascii(date).push(0x54) + (ascii(clock) + ascii(rest)));
}

proof fn lemma_texts_are_ascii(w: WallTime)
    requires
        w.fits(),
    ensures
        is_ascii_chars(w.date_text()),
        is_ascii_chars(w.clock_text()),
{
    assert forall|i: int| 0 <= i < w.clock_text().len() implies '\0' <= #[trigger] w.clock_text()[i]
        <= '\u{7f}' by {
        if i > 8 {
            assert(0 <= w.fraction[i - 9] <= 9);
            assert(w.clock_text()[i] == text::digit_char(w.fraction[i - 9]));
        }
    }
}

proof fn lemma_instant(d: Seq<u8>, t: Seq<u8>, date: Civil, clock: Clock, offset: int)
    requires
        d.len() > 0,
        text::digit_byte(d[0]),
        !d.contains(0x54),
        replay::date_of(d) == Some(date),
        replay::clock_of(replay::zoned(t).time) == Read::Value(clock),
        match replay::zoned(t).zone {
            Some(zone) => replay::offset_minutes(zone, replay::zoned(t).negative) == Read::Value(
                offset,
            ),
            None => offset == 0,
        },
        replay::instant_fits(date, clock, offset),
    ensures
        replay::int64(d.push(0x54) + t) is None,
        replay::instant_of(d.push(0x54) + t) == Read::Value(
            (replay::seconds_of(date, clock, offset) * 1000 + clock.millis) as i64,
        ),
{
    let b = d.push(0x54) + t;
    bytes::lemma_first_at(d, 0x54, t);
    assert(b.take(d.len() as int) =~= d);
    assert(b.skip(d.len() as int + 1) =~= t);
    assert(b[0] == d[0]);
    assert(b[d.len() as int] == 0x54);
    lemma_digits(b);
}

proof fn lemma_read(w: WallTime, rest: Seq<char>, zoned: Zoned, offset: int)
    requires
        w.fits(),
        is_ascii_chars(rest),
        replay::zoned(ascii(w.clock_text()) + ascii(rest)) == zoned,
        zoned.time == ascii(w.clock_text()),
        match zoned.zone {
            Some(zone) => replay::offset_minutes(zone, zoned.negative) == Read::Value(offset),
            None => offset == 0,
        },
        -6039 <= offset <= 6039,
    ensures
        replay::timestamp_of(w.text() + rest) == Read::Value(
            (w.millis() - offset * 60_000) as i64,
        ),
{
    let date = Civil { year: w.year as i64, month: w.month as i64, day: w.day as i64 };
    let clock = Clock {
        hour: w.hour as i64,
        minute: w.minute as i64,
        second: w.second as i64,
        millis: w.thousandths() as i64,
    };
    lemma_date(w);
    lemma_clock(w);
    lemma_texts_are_ascii(w);
    lemma_joined(w.date_text(), w.clock_text(), rest);
    lemma_instant_fits(w, offset);
    lemma_instant(
        ascii(w.date_text()),
        ascii(w.clock_text()) + ascii(rest),
        date,
        clock,
        offset,
    );
}

proof fn lemma_read_utc(w: WallTime)
    requires
        w.fits(),
    ensures
        replay::timestamp_of(w.text()) == Read::Value(w.millis() as i64),
        replay::timestamp_of(w.text() + seq!['Z']) == Read::Value(w.millis() as i64),
{
    let clock = ascii(w.clock_text());
    let utc = Zoned { time: clock, zone: None, negative: false };
    let none = Seq::<char>::empty();
    lemma_clock(w);
    lemma_zoned(clock, Seq::empty());
    lemma_behind(clock, 0, 0);
    lemma_read(w, none, utc, 0);
    assert(w.text() + none =~= w.text());
    lemma_read(w, seq!['Z'], utc, 0);
}

proof fn lemma_read_ahead(w: WallTime, hours: int, minutes: int)
    requires
        w.fits(),
        0 <= hours <= 99,
        0 <= minutes <= 99,
    ensures
        replay::timestamp_of(w.text() + zone_text('+', hours, minutes)) == Read::Value(
            (w.millis() - (hours * 60 + minutes) * 60_000) as i64,
        ),
{
    let clock = ascii(w.clock_text());
    let zone = ascii(two_digits(hours)).push(0x3a) + ascii(two_digits(minutes));
    lemma_clock(w);
    lemma_zone(hours, minutes);
    lemma_zoned(clock, zone);
    lemma_behind(clock, hours, minutes);
    lemma_read(
        w,
        zone_text('+', hours, minutes),
        Zoned { time: clock, zone: Some(zone), negative: false },
        hours * 60 + minutes,
    );
}

proof fn lemma_read_behind(w: WallTime, hours: int, minutes: int)
    requires
        w.fits(),
        0 <= hours <= 99,
        0 <= minutes <= 99,
    ensures
        replay::timestamp_of(w.text() + zone_text('-', hours, minutes)) == Read::Value(
            (w.millis() + (hours * 60 + minutes) * 60_000) as i64,
        ),
{
    let clock = ascii(w.clock_text());
    let zone = ascii(two_digits(hours)).push(0x3a) + ascii(two_digits(minutes));
    lemma_clock(w);
    lemma_zone(hours, minutes);
    lemma_zoned(clock, zone);
    lemma_behind(clock, hours, minutes);
    lemma_read(
        w,
        zone_text('-', hours, minutes),
        Zoned { time: clock, zone: Some(zone), negative: true },
        -(hours * 60 + minutes),
    );
}

/// A time without a zone is one in coordinated universal time, and so is one with a "Z" behind it.
/// An offset behind a plus sign is taken off; one behind a minus sign is added.
pub proof fn law_zones_shift_the_time(w: WallTime, hours: int, minutes: int)
    requires
        w.fits(),
        0 <= hours <= 99,
        0 <= minutes <= 99,
    ensures
        ({
            let shift = (60 * hours + minutes) * 60_000;
            &&& replay::fits(w.millis())
            &&& replay::fits(w.millis() - shift)
            &&& replay::fits(w.millis() + shift)
            &&& replay::timestamp_of(w.text()) == Read::Value(w.millis() as i64)
            &&& replay::timestamp_of(w.text() + seq!['Z']) == Read::Value(w.millis() as i64)
            &&& replay::timestamp_of(w.text() + zone_text('+', hours, minutes)) == Read::Value(
                (w.millis() - shift) as i64,
            )
            &&& replay::timestamp_of(w.text() + zone_text('-', hours, minutes)) == Read::Value(
                (w.millis() + shift) as i64,
            )
        }),
{
    let offset = hours * 60 + minutes;
    lemma_instant_fits(w, 0);
    lemma_instant_fits(w, offset);
    lemma_instant_fits(w, -offset);
    lemma_read_utc(w);
    lemma_read_ahead(w, hours, minutes);
    lemma_read_behind(w, hours, minutes);
}

} // verus!
