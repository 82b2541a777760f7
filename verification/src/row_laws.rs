//! What holds of recordings, row by row.
use crate::bytes;
use crate::replay;
use crate::replay::{PacketModel, Read, ReplayModel, RowModel};
use crate::tallies;
use crate::text;
use crate::text_laws;
use vstd::prelude::*;
use vstd::utf8::*;

verus! {

/// Whether the text is three fields between bars, the last of which may hold more bars.
pub open spec fn are_fields(
    row: Seq<char>,
    stamp: Seq<char>,
    middle: Seq<char>,
    payload: Seq<char>,
) -> bool {
    &&& row == stamp + seq!['|'] + middle + seq!['|'] + payload
    &&& !stamp.contains('|')
    &&& !middle.contains('|')
}

/// A line with three fields between bars, white space at its ends aside, is a row with the first
/// and the last of them, unless it begins with a number sign.
pub proof fn law_three_fields_are_a_row(
    line: Seq<char>,
    stamp: Seq<char>,
    middle: Seq<char>,
    payload: Seq<char>,
)
    requires
        are_fields(text::trimmed(line), stamp, middle, payload),
    ensures
        text::trimmed(line)[0] != '#' ==> replay::row_of(line) == Some(RowModel { stamp, payload }),
        text::trimmed(line)[0] == '#' ==> replay::row_of(line) is None,
{
    let row = text::trimmed(line);
    text_laws::law_the_first_place_is_the_first(row, '|');
    let i = stamp.len() as int;
    assert(row[i] == '|');
    let found = bytes::first_at(row, '|');
    assert(found is Some) by {
        assert(row.contains(row[i]));
    }
    assert(found->0 == i) by {
        if found->0 < i {
            assert(row[found->0] == stamp[found->0]);
            assert(stamp.contains(stamp[found->0]));
        }
    }
    let rest = row.skip(i + 1);
    assert(rest =~= middle + seq!['|'] + payload);
    text_laws::law_the_first_place_is_the_first(rest, '|');
    let k = middle.len() as int;
    let next = bytes::first_at(rest, '|');
    assert(rest[k] == '|');
    assert(next is Some) by {
        assert(rest.contains(rest[k]));
    }
    assert(next->0 == k) by {
        if next->0 < k {
            assert(rest[next->0] == middle[next->0]);
            assert(middle.contains(middle[next->0]));
        }
    }
    assert(row.take(i) =~= stamp);
    assert(rest.skip(k + 1) =~= payload);
}

/// A line that is a row has three fields between bars and does not begin with a number sign.
pub proof fn law_a_row_has_three_fields(line: Seq<char>)
    requires
        replay::row_of(line) is Some,
    ensures
        text::trimmed(line)[0] != '#',
        exists|middle: Seq<char>| #[trigger]
            are_fields(
                text::trimmed(line),
                replay::row_of(line)->0.stamp,
                middle,
                replay::row_of(line)->0.payload,
            ),
{
    let row = text::trimmed(line);
    text_laws::law_the_first_place_is_the_first(row, '|');
    let i = bytes::first_at(row, '|')->0;
    let rest = row.skip(i + 1);
    text_laws::law_the_first_place_is_the_first(rest, '|');
    let k = bytes::first_at(rest, '|')->0;
    let stamp = row.take(i);
    let middle = rest.take(k);
    assert(row =~= stamp + seq!['|'] + middle + seq!['|'] + rest.skip(k + 1)) by {
        assert(row =~= stamp + seq!['|'] + rest);
        assert(rest =~= middle + seq!['|'] + rest.skip(k + 1));
    }
    assert(!stamp.contains('|')) by {
        if stamp.contains('|') {
            let j = stamp.index_of('|');
            assert(row[j] == stamp[j]);
        }
    }
    assert(!middle.contains('|')) by {
        if middle.contains('|') {
            let j = middle.index_of('|');
            assert(rest[j] == middle[j]);
        }
    }
    let found = replay::row_of(line)->0;
    assert(found.stamp == stamp);
    assert(are_fields(row, found.stamp, middle, found.payload));
}

/// The time that a line says it was captured at.
pub open spec fn time_on(line: Seq<char>) -> Read<i64> {
    match replay::row_of(line) {
        Some(row) => replay::timestamp_of(text::trimmed(row.stamp)),
        None => Read::Absent,
    }
}

/// The bytes that a line holds.
pub open spec fn bytes_on(line: Seq<char>) -> Option<Seq<u8>> {
    match replay::row_of(line) {
        Some(row) => replay::decoded(row.payload),
        None => None,
    }
}

/// Whether the time is that of the nearest of the first lines that has one; none where none has.
pub open spec fn is_last_time(time: Option<i64>, lines: Seq<Seq<char>>, n: int) -> bool {
    if time is Some {
        exists|j: int| #[trigger] tells_last(lines, n, j, time->0)
    } else {
        forall|j: int| 0 <= j < n ==> !(#[trigger] time_on(lines[j]) is Value)
    }
}

/// Whether the line is the nearest of the first lines that has a time, and has the given one.
pub open spec fn tells_last(lines: Seq<Seq<char>>, n: int, j: int, ms: i64) -> bool {
    &&& 0 <= j < n
    &&& time_on(lines[j]) == Read::Value(ms)
    &&& forall|k: int| j < k < n ==> !(#[trigger] time_on(lines[k]) is Value)
}

/// Whether the packets are those of the lines at the given places: the places go up, every line
/// that holds bytes is among them, each packet has the bytes of its line, and the time on it; where
/// there is none on it, that of the nearest line before it that has one.
pub open spec fn are_packets_of(
    packets: Seq<PacketModel>,
    lines: Seq<Seq<char>>,
    places: Seq<int>,
) -> bool {
    &&& places.len() == packets.len()
    &&& forall|i: int, j: int|
        0 <= i < j < places.len() ==> #[trigger] places[i] < #[trigger] places[j]
    &&& forall|i: int| 0 <= i < places.len() ==> 0 <= #[trigger] places[i] < lines.len()
    &&& forall|k: int|
        0 <= k < lines.len() && bytes_on(#[trigger] lines[k]) is Some ==> places.contains(k)
    &&& forall|i: int|
        0 <= i < packets.len() ==> bytes_on(lines[places[i]]) == Some((#[trigger] packets[i]).data)
    &&& forall|i: int|
        0 <= i < packets.len() ==> match time_on(lines[places[i]]) {
            Read::Value(ms) => (#[trigger] packets[i]).timestamp == Some(ms),
            _ => is_last_time(packets[i].timestamp, lines, places[i]),
        }
}

spec fn are_read(r: ReplayModel, lines: Seq<Seq<char>>, places: Seq<int>) -> bool {
    &&& !r.cut
    &&& are_packets_of(r.packets, lines, places)
    &&& is_last_time(r.clock, lines, lines.len() as int)
}

proof fn lemma_last_time_further(
    time: Option<i64>,
    lines: Seq<Seq<char>>,
    line: Seq<char>,
    n: int,
)
    requires
        0 <= n <= lines.len(),
        is_last_time(time, lines, n),
    ensures
        is_last_time(time, lines.push(line), n),
        n == lines.len() && !(time_on(line) is Value) ==> is_last_time(
            time,
            lines.push(line),
            n + 1,
        ),
{
    let all = lines.push(line);
    match time {
        Some(ms) => {
            let j = choose|j: int| #[trigger] tells_last(lines, n, j, ms);
            assert(all[j] == lines[j]);
            assert forall|k: int| j < k < n implies !(#[trigger] time_on(all[k]) is Value) by {
                assert(all[k] == lines[k]);
            }
            assert(tells_last(all, n, j, ms));
            if n == lines.len() && !(time_on(line) is Value) {
                assert forall|k: int| j < k < n + 1 implies !(#[trigger] time_on(
                    all[k],
                ) is Value) by {
                    if k < n {
                        assert(all[k] == lines[k]);
                    }
                }
                assert(tells_last(all, n + 1, j, ms));
            }
        },
        None => {
            assert forall|j: int| 0 <= j < n implies !(#[trigger] time_on(all[j]) is Value) by {
                assert(all[j] == lines[j]);
            }
        },
    }
}

proof fn lemma_is_last_time(lines: Seq<Seq<char>>, n: int, j: int, ms: i64)
    requires
        tells_last(lines, n, j, ms),
    ensures
        is_last_time(Some(ms), lines, n),
{
    let time = Some(ms);
    assert(tells_last(lines, n, j, time->0));
}

proof fn lemma_row_read(
    r: ReplayModel,
    lines: Seq<Seq<char>>,
    places: Seq<int>,
    line: Seq<char>,
) -> (after: Seq<int>)
    requires
        are_read(r, lines, places),
        !(time_on(line) is Unreadable),
    ensures
        are_read(
            match replay::row_of(line) {
                Some(row) => r.with_row(row),
                None => r,
            },
            lines.push(line),
            after,
        ),
{
    let n = lines.len() as int;
    let all = lines.push(line);
    let m = all.len() as int;
    let next = match replay::row_of(line) {
        Some(row) => r.with_row(row),
        None => r,
    };
    let after = if bytes_on(line) is Some {
        places.push(n)
    } else {
        places
    };
    assert(all[n] == line);
    lemma_last_time_further(r.clock, lines, line, n);
    match time_on(line) {
        Read::Value(ms) => {
            assert(tells_last(all, m, n, ms));
            assert(next.clock == Some(ms));
            lemma_is_last_time(all, m, n, ms);
        },
        Read::Absent => {
            assert(next.clock == r.clock);
            assert(is_last_time(r.clock, all, m));
        },
        Read::Unreadable => {},
    }
    assert(is_last_time(next.clock, all, m));
    assert forall|k: int|
        0 <= k < all.len() && bytes_on(#[trigger] all[k]) is Some implies after.contains(k) by {
        if k < n {
            assert(lines[k] == all[k]);
            assert(places.contains(k));
            assert(after[places.index_of(k)] == k);
        } else {
            assert(after[places.len() as int] == n);
        }
    }
    assert forall|i: int| 0 <= i < next.packets.len() implies bytes_on(all[after[i]]) == Some(
        (#[trigger] next.packets[i]).data,
    ) && match time_on(all[after[i]]) {
        Read::Value(ms) => next.packets[i].timestamp == Some(ms),
        _ => is_last_time(next.packets[i].timestamp, all, after[i]),
    } by {
        if i < r.packets.len() {
            assert(next.packets[i] == r.packets[i]);
            assert(after[i] == places[i]);
            assert(all[places[i]] == lines[places[i]]);
            if !(time_on(lines[places[i]]) is Value) {
                lemma_last_time_further(r.packets[i].timestamp, lines, line, places[i]);
            }
        }
    }
    after
}

proof fn lemma_lines_read(lines: Seq<Seq<char>>) -> (places: Seq<int>)
    requires
        forall|j: int| 0 <= j < lines.len() ==> !(#[trigger] time_on(lines[j]) is Unreadable),
    ensures
        are_read(replay::replay_of_lines(lines), lines, places),
    decreases lines.len(),
{
    if lines.len() == 0 {
        Seq::empty()
    } else {
        let front = lines.drop_last();
        assert forall|j: int| 0 <= j < front.len() implies !(#[trigger] time_on(
            front[j],
        ) is Unreadable) by {
            assert(front[j] == lines[j]);
        }
        assert(front.push(lines.last()) =~= lines);
        assert(!(time_on(lines[lines.len() - 1]) is Unreadable));
        let before = lemma_lines_read(front);
        lemma_row_read(replay::replay_of_lines(front), front, before, lines.last())
    }
}

proof fn lemma_cut_stays(lines: Seq<Seq<char>>, n: int)
    requires
        0 <= n < lines.len(),
        forall|j: int| 0 <= j < n ==> !(#[trigger] time_on(lines[j]) is Unreadable),
        time_on(lines[n]) is Unreadable,
    ensures
        replay::replay_of_lines(lines).cut,
        replay::replay_of_lines(lines).packets == replay::replay_of_lines(lines.take(n)).packets,
    decreases lines.len(),
{
    let front = lines.drop_last();
    if n == lines.len() - 1 {
        assert(front =~= lines.take(n));
        assert forall|j: int| 0 <= j < front.len() implies !(#[trigger] time_on(
            front[j],
        ) is Unreadable) by {
            assert(front[j] == lines[j]);
        }
        let places = lemma_lines_read(front);
    } else {
        assert forall|j: int| 0 <= j < n implies !(#[trigger] time_on(
            front[j],
        ) is Unreadable) by {
            assert(front[j] == lines[j]);
        }
        lemma_cut_stays(front, n);
        assert(front.take(n) =~= lines.take(n));
    }
}

/// The packets of a recording are, in their order, the bytes of the lines that hold some. A packet
/// has the time on its own line, where there is one; where there is none, it has that of the nearest
/// line before it that has one. Reading stops at the first line whose time cannot be counted.
pub proof fn law_packets_are_those_of_the_rows(lines: Seq<Seq<char>>, n: int)
    requires
        0 <= n <= lines.len(),
        forall|j: int| 0 <= j < n ==> !(#[trigger] time_on(lines[j]) is Unreadable),
        n < lines.len() ==> time_on(lines[n]) is Unreadable,
    ensures
        replay::replay_of_lines(lines).cut <==> n < lines.len(),
        exists|places: Seq<int>| #[trigger]
            are_packets_of(replay::replay_of_lines(lines).packets, lines.take(n), places),
{
    let read = lines.take(n);
    assert forall|j: int| 0 <= j < read.len() implies !(#[trigger] time_on(
        read[j],
    ) is Unreadable) by {
        assert(read[j] == lines[j]);
    }
    let places = lemma_lines_read(read);
    if n < lines.len() {
        lemma_cut_stays(lines, n);
    } else {
        assert(read =~= lines);
    }
    assert(are_packets_of(replay::replay_of_lines(lines).packets, read, places));
}

/// The lines of a recording are what stands between the line breaks of its text, byte order marks
/// at the start aside.
pub proof fn law_a_recording_is_read_by_lines(
    marks: Seq<char>,
    s: Seq<char>,
    lines: Seq<Seq<char>>,
)
    requires
        forall|i: int| 0 <= i < marks.len() ==> #[trigger] marks[i] as u32 == 0xfeff,
        s.len() > 0 ==> s[0] as u32 != 0xfeff,
        lines.len() > 0,
        forall|i: int| 0 <= i < lines.len() ==> !(#[trigger] lines[i]).contains('\n'),
        text_laws::joined(lines, '\n') == s,
    ensures
        replay::replay_of(marks + s) == replay::replay_of_lines(lines),
{
    lemma_marks(marks, s);
    text_laws::lemma_pieces_of_joined(lines, '\n');
}

proof fn lemma_marks(marks: Seq<char>, s: Seq<char>)
    requires
        forall|i: int| 0 <= i < marks.len() ==> #[trigger] marks[i] as u32 == 0xfeff,
        s.len() > 0 ==> s[0] as u32 != 0xfeff,
    ensures
        replay::without_marks(marks + s) == s,
    decreases marks.len(),
{
    let all = marks + s;
    if marks.len() > 0 {
        assert(all[0] == marks[0]);
        assert(all.skip(1) =~= marks.skip(1) + s);
        assert forall|i: int| 0 <= i < marks.skip(1).len() implies #[trigger] marks.skip(1)[i] as u32
            == 0xfeff by {
            assert(marks.skip(1)[i] == marks[i + 1]);
        }
        lemma_marks(marks.skip(1), s);
    } else {
        assert(all =~= s);
    }
}

proof fn lemma_spaces(a: Seq<char>, b: Seq<char>)
    ensures
        replay::without_space(a + b) == replay::without_space(a) + replay::without_space(b),
{
    Seq::filter_distributes_over_add(a, b, |c: char| !text::white_space(c));
}

/// White space anywhere in a payload changes nothing.
pub proof fn law_white_space_in_a_payload_is_passed_over(a: Seq<char>, space: char, b: Seq<char>)
    requires
        text::white_space(space),
    ensures
        replay::decoded(a + seq![space] + b) == replay::decoded(a + b),
{
    lemma_spaces(a + seq![space], b);
    lemma_spaces(a, seq![space]);
    lemma_spaces(a, b);
    tallies::lemma_filter_push(Seq::empty(), space, |c: char| !text::white_space(c));
    assert(Seq::empty().push(space) =~= seq![space]);
    replay::lemma_no_space(Seq::empty());
    assert(replay::without_space(seq![space]) =~= Seq::empty());
    assert(replay::without_space(a) + Seq::empty() =~= replay::without_space(a));
}

/// The value of a digit: those of 0 to 9 are theirs, and the letters A to F, large or small, stand
/// for 10 to 15. Nothing else is a digit.
pub open spec fn digit_means(c: char, v: int) -> bool {
    ||| 0 <= v < 10 && c as int == '0' as int + v
    ||| 10 <= v < 16 && c as int == 'a' as int + v - 10
    ||| 10 <= v < 16 && c as int == 'A' as int + v - 10
}

/// A payload of two characters is a byte just where both are digits; the first counts sixteen times
/// as much. A longer payload is that of its first two characters and that of the others; one of an
/// odd number of characters is none.
pub proof fn law_payloads_are_read_by_pairs(c: char, d: char, rest: Seq<char>)
    requires
        !text::white_space(c),
        !text::white_space(d),
    ensures
        replay::decoded(Seq::empty()) == Some(Seq::<u8>::empty()),
        replay::decoded(seq![c]) is None,
        replay::decoded(seq![c, d] + rest) is Some <==> (exists|v: int| #[trigger]
            digit_means(c, v)) && (exists|w: int| #[trigger] digit_means(d, w))
            && replay::decoded(rest) is Some,
        forall|v: int, w: int| #[trigger]
            digit_means(c, v) && #[trigger] digit_means(d, w) && replay::decoded(rest) is Some
                ==> replay::decoded(seq![c, d] + rest) == Some(
                seq![(16 * v + w) as u8] + replay::decoded(rest)->0,
            ),
{
    lemma_digit(c);
    lemma_digit(d);
    replay::lemma_no_space(Seq::empty());
    replay::lemma_no_space(seq![c]);
    replay::lemma_no_space(seq![c, d]);
    lemma_spaces(seq![c, d], rest);
    let digits = replay::without_space(rest);
    let all = replay::without_space(seq![c, d] + rest);
    assert(all == seq![c, d] + digits);
    assert(replay::decoded(Seq::empty())->0 =~= Seq::<u8>::empty());
    assert(all[0] == c && all[1] == d);
    assert forall|i: int| 0 <= i < digits.len() implies digits[i] == #[trigger] all[i + 2] by {}
    if replay::decoded(seq![c, d] + rest) is Some {
        assert forall|i: int| 0 <= i < digits.len() implies replay::hex_digit(
            #[trigger] digits[i],
        ) is Some by {
            assert(replay::hex_digit(all[i + 2]) is Some);
        }
        assert(replay::hex_digit(all[0]) is Some && replay::hex_digit(all[1]) is Some);
    }
    assert forall|v: int, w: int| #[trigger]
        digit_means(c, v) && #[trigger] digit_means(d, w) && replay::decoded(
            rest,
        ) is Some implies replay::decoded(seq![c, d] + rest) == Some(
        seq![(16 * v + w) as u8] + replay::decoded(rest)->0,
    ) by {
        assert forall|i: int| 0 <= i < all.len() implies replay::hex_digit(
            #[trigger] all[i],
        ) is Some by {
            if i >= 2 {
                assert(all[i] == digits[i - 2]);
            }
        }
        let r = replay::decoded(seq![c, d] + rest)->0;
        let wanted = seq![(16 * v + w) as u8] + replay::decoded(rest)->0;
        assert(r.len() == wanted.len());
        assert forall|i: int| 0 <= i < r.len() implies r[i] == wanted[i] by {
            if i > 0 {
                assert(all[2 * i] == digits[2 * (i - 1)]);
                assert(all[2 * i + 1] == digits[2 * (i - 1) + 1]);
            }
        }
        assert(r =~= wanted);
    }
}

proof fn lemma_digit(c: char)
    ensures
        replay::hex_digit(c) is Some <==> exists|v: int| #[trigger] digit_means(c, v),
        forall|v: int| #[trigger] digit_means(c, v) ==> replay::hex_digit(c) == Some(v),
{
    if replay::hex_digit(c) is Some {
        assert(digit_means(c, replay::hex_digit(c)->0));
    }
}

/// A text that spells no number and holds no letter T is no time.
pub proof fn law_what_is_no_time(s: Seq<char>)
    requires
        replay::int64(encode_utf8(s)) is None,
        !encode_utf8(s).contains(0x54),
    ensures
        replay::timestamp_of(s) is Absent,
{
    text_laws::law_the_first_place_is_the_first(encode_utf8(s), 0x54);
    match bytes::first_at(encode_utf8(s), 0x54) {
        Some(i) => {
            assert(encode_utf8(s).contains(encode_utf8(s)[i]));
        },
        None => {},
    }
}

/// A sign behind the sixth byte of a time of day parts the offset from the time, and a plus sign
/// before a minus sign; one that comes sooner starts no offset. Without a sign, the letters Z at the
/// end are no part of the time.
pub proof fn law_where_an_offset_starts(t: Seq<u8>, i: int, zs: Seq<u8>)
    requires
        forall|k: int| 0 <= k < zs.len() ==> #[trigger] zs[k] == 0x5a,
    ensures
        bytes::last_at(t, 0x2b) == Some(i) && i > 6 ==> {
            let z = replay::zoned(t);
            z.zone is Some && t == z.time.push(0x2b) + z.zone->0 && z.time.len() == i && !z.negative
        },
        !t.contains(0x2b) && bytes::last_at(t, 0x2d) == Some(i) && i > 6 ==> {
            let z = replay::zoned(t);
            z.zone is Some && t == z.time.push(0x2d) + z.zone->0 && z.time.len() == i && z.negative
        },
        (bytes::last_at(t, 0x2b) == Some(i) || (!t.contains(0x2b) && bytes::last_at(t, 0x2d)
            == Some(i))) && i <= 6 ==> {
            let z = replay::zoned(t);
            z.zone is None && z.time == t
        },
        !t.contains(0x2b) && !t.contains(0x2d) && (t.len() > 0 ==> t.last() != 0x5a) ==> {
            let z = replay::zoned(t + zs);
            z.zone is None && z.time == t
        },
{
    text_laws::law_the_last_place_is_the_last(t, 0x2b);
    text_laws::law_the_last_place_is_the_last(t, 0x2d);
    if bytes::last_at(t, 0x2b) == Some(i) && i > 6 {
        assert(t =~= t.take(i).push(0x2b) + t.skip(i + 1));
    }
    if bytes::last_at(t, 0x2d) == Some(i) && i > 6 {
        assert(t =~= t.take(i).push(0x2d) + t.skip(i + 1));
    }
    if t.contains(0x2b) {
        assert(bytes::last_at(t, 0x2b) is Some);
    } else {
        assert(bytes::last_at(t, 0x2b) is None) by {
            if bytes::last_at(t, 0x2b) is Some {
                assert(t.contains(t[bytes::last_at(t, 0x2b)->0]));
            }
        }
    }
    if !t.contains(0x2b) && !t.contains(0x2d) && (t.len() > 0 ==> t.last() != 0x5a) {
        let all = t + zs;
        text_laws::law_the_last_place_is_the_last(all, 0x2b);
        text_laws::law_the_last_place_is_the_last(all, 0x2d);
        assert forall|c: u8| c == 0x2b || c == 0x2d implies bytes::last_at(all, c) is None by {
            if bytes::last_at(all, c) is Some {
                let k = bytes::last_at(all, c)->0;
                if k < t.len() {
                    assert(t.contains(t[k]));
                } else {
                    assert(all[k] == zs[k - t.len()]);
                }
            }
        }
        lemma_without_z(t, zs);
    }
}

proof fn lemma_without_z(t: Seq<u8>, zs: Seq<u8>)
    requires
        forall|k: int| 0 <= k < zs.len() ==> #[trigger] zs[k] == 0x5a,
        t.len() > 0 ==> t.last() != 0x5a,
    ensures
        replay::without_z(t + zs) == t,
    decreases zs.len(),
{
    if zs.len() == 0 {
        assert(t + zs =~= t);
    } else {
        assert(zs[zs.len() - 1] == 0x5a);
        assert((t + zs).last() == 0x5a);
        assert((t + zs).drop_last() =~= t + zs.drop_last());
        assert forall|k: int| 0 <= k < zs.drop_last().len() implies #[trigger] zs.drop_last()[k]
            == 0x5a by {
            assert(zs.drop_last()[k] == zs[k]);
        }
        lemma_without_z(t, zs.drop_last());
    }
}

/// An offset is its hours and its minutes, in minutes, and below zero behind a minus sign. Minutes
/// that are missing, or cannot be read, count as none; without hours there is no offset.
pub proof fn law_what_an_offset_means(hours: Seq<u8>, minutes: Seq<u8>, negative: bool)
    requires
        !hours.contains(0x3a),
        !minutes.contains(0x3a),
    ensures
        ({
            let plain = replay::offset_minutes(hours, negative);
            let full = replay::offset_minutes(hours + seq![0x3a] + minutes, negative);
            let h = replay::int64(hours);
            let m = replay::int64(minutes);
            &&& h is None ==> plain is Absent && full is Absent
            &&& h is Some && -100_000 <= h->0 <= 100_000 ==> plain == Read::Value(
                if negative {
                    -60 * h->0
                } else {
                    60 * h->0
                },
            )
            &&& m is None ==> full == plain
            &&& h is Some && -100_000 <= h->0 <= 100_000 && m is Some && -100_000 <= m->0
                <= 100_000 ==> full == Read::Value(
                if negative {
                    -(60 * h->0 + m->0)
                } else {
                    60 * h->0 + m->0
                },
            )
        }),
{
    let one = seq![hours];
    let two = seq![hours, minutes];
    reveal_with_fuel(text_laws::joined, 3);
    assert(two.drop_last() =~= one);
    assert(text_laws::joined(one, 0x3a) =~= hours);
    assert(text_laws::joined(two, 0x3a) =~= hours + seq![0x3a] + minutes);
    text_laws::lemma_pieces_of_joined(one, 0x3a);
    text_laws::lemma_pieces_of_joined(two, 0x3a);
}

/// What is said at the end of a replay says how many packets there were, and after that how many
/// damage events.
pub proof fn law_the_summary_says_what_was_read(packets: int, damage_events: int)
    ensures
        ({
            let s = replay::summary_text(packets, damage_events);
            let n = text::decimal(packets).len() as int;
            let m = text::decimal(damage_events).len() as int;
            &&& s.len() == 17 + n + 10 + m + 15
            &&& s.subrange(17, 17 + n) == text::decimal(packets)
            &&& s.subrange(27 + n, 27 + n + m) == text::decimal(damage_events)
        }),
{
    reveal_strlit("Replay complete. ");
    reveal_strlit(" packets, ");
    reveal_strlit(" damage events.");
    let s = replay::summary_text(packets, damage_events);
    let n = text::decimal(packets).len() as int;
    let m = text::decimal(damage_events).len() as int;
    assert(s.subrange(17, 17 + n) =~= text::decimal(packets));
    assert(s.subrange(27 + n, 27 + n + m) =~= text::decimal(damage_events));
}

} // verus!
