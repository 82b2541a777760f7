//! What holds of finding, splitting, trimming and reading numbers.
use crate::bytes;
use crate::text;
use vstd::prelude::*;
use vstd::utf8::*;

verus! {

/// Where an element first stands, it stands, and nowhere before; one that is not found stands
/// nowhere.
pub proof fn law_the_first_place_is_the_first<T>(b: Seq<T>, c: T)
    ensures
        match bytes::first_at(b, c) {
            Some(i) => 0 <= i < b.len() && b[i] == c && forall|j: int|
                0 <= j < i ==> #[trigger] b[j] != c,
            None => !b.contains(c),
        },
    decreases b.len(),
{
    if b.len() > 0 {
        let front = b.drop_last();
        law_the_first_place_is_the_first(front, c);
        match bytes::first_at(front, c) {
            Some(i) => {
                assert(b[i] == front[i]);
                assert forall|j: int| 0 <= j < i implies #[trigger] b[j] != c by {
                    assert(b[j] == front[j]);
                }
            },
            None => {
                assert forall|j: int| 0 <= j < front.len() implies #[trigger] b[j] != c by {
                    assert(b[j] == front[j]);
                    assert(front.contains(front[j]));
                }
            },
        }
    }
}

/// Where an element last stands, it stands, and nowhere behind; one that is not found stands
/// nowhere.
pub proof fn law_the_last_place_is_the_last<T>(b: Seq<T>, c: T)
    ensures
        match bytes::last_at(b, c) {
            Some(i) => 0 <= i < b.len() && b[i] == c && forall|j: int|
                i < j < b.len() ==> #[trigger] b[j] != c,
            None => !b.contains(c),
        },
    decreases b.len(),
{
    if b.len() > 0 {
        let front = b.drop_last();
        law_the_last_place_is_the_last(front, c);
        if b.last() != c {
            match bytes::last_at(front, c) {
                Some(i) => {
                    assert(b[i] == front[i]);
                    assert forall|j: int| i < j < b.len() implies #[trigger] b[j] != c by {
                        if j < front.len() {
                            assert(b[j] == front[j]);
                        }
                    }
                },
                None => {
                    assert forall|j: int| 0 <= j < b.len() implies #[trigger] b[j] != c by {
                        if j < front.len() {
                            assert(b[j] == front[j]);
                            assert(front.contains(front[j]));
                        }
                    }
                },
            }
        }
    }
}

/// The pieces put together again, with the separator between each two.
pub open spec fn joined<T>(parts: Seq<Seq<T>>, separator: T) -> Seq<T>
    decreases parts.len(),
{
    if parts.len() <= 1 {
        parts[0]
    } else {
        joined(parts.drop_last(), separator).push(separator) + parts.last()
    }
}

/// What was split at a separator is put together again from the pieces, and no piece holds the
/// separator.
pub proof fn law_pieces_are_what_stands_between<T>(b: Seq<T>, separator: T)
    ensures
        bytes::pieces(b, separator).len() > 0,
        joined(bytes::pieces(b, separator), separator) == b,
        forall|i: int|
            0 <= i < bytes::pieces(b, separator).len() ==> !(#[trigger] bytes::pieces(
                b,
                separator,
            )[i]).contains(separator),
    decreases b.len(),
{
    let parts = bytes::pieces(b, separator);
    reveal_with_fuel(joined, 2);
    if b.len() == 0 {
        assert(joined(parts, separator) =~= b);
    } else {
        let front = b.drop_last();
        let before = bytes::pieces(front, separator);
        law_pieces_are_what_stands_between(front, separator);
        assert(front.push(b.last()) =~= b);
        if b.last() == separator {
            assert(parts.drop_last() =~= before);
            assert(joined(parts, separator) =~= b);
            assert forall|i: int| 0 <= i < parts.len() implies !(#[trigger] parts[i]).contains(
                separator,
            ) by {
                if i < before.len() {
                    assert(parts[i] == before[i]);
                }
            }
        } else {
            let grown = before.last().push(b.last());
            assert(parts.drop_last() =~= before.drop_last());
            assert(joined(parts, separator) =~= b);
            assert(!before[before.len() - 1].contains(separator));
            assert forall|k: int| 0 <= k < grown.len() implies #[trigger] grown[k] != separator by {
                if k < before.last().len() {
                    assert(before.last().contains(before.last()[k]));
                }
            }
            assert forall|i: int| 0 <= i < parts.len() implies !(#[trigger] parts[i]).contains(
                separator,
            ) by {
                if i < before.len() - 1 {
                    assert(parts[i] == before[i]);
                }
            }
        }
    }
}

proof fn lemma_pieces_further<T>(b: Seq<T>, part: Seq<T>, separator: T)
    requires
        !part.contains(separator),
    ensures
        ({
            let before = bytes::pieces(b, separator);
            bytes::pieces(b + part, separator) == before.update(
                before.len() - 1,
                before.last() + part,
            )
        }),
    decreases part.len(),
{
    let before = bytes::pieces(b, separator);
    law_pieces_are_what_stands_between(b, separator);
    if part.len() == 0 {
        assert(b + part =~= b);
        assert(before.last() + part =~= before.last());
        assert(before.update(before.len() - 1, before.last() + part) =~= before);
    } else {
        let front = part.drop_last();
        assert(part.contains(part[part.len() - 1]));
        assert(!front.contains(separator)) by {
            if front.contains(separator) {
                let k = front.index_of(separator);
                assert(part[k] == separator);
            }
        }
        lemma_pieces_further(b, front, separator);
        assert((b + part).drop_last() =~= b + front);
        assert((before.last() + front).push(part.last()) =~= before.last() + part);
        assert(bytes::pieces(b + part, separator) =~= before.update(
            before.len() - 1,
            before.last() + part,
        ));
    }
}

/// Pieces without the separator that are put together come apart again as they were.
pub proof fn lemma_pieces_of_joined<T>(parts: Seq<Seq<T>>, separator: T)
    requires
        parts.len() > 0,
        forall|i: int| 0 <= i < parts.len() ==> !(#[trigger] parts[i]).contains(separator),
    ensures
        bytes::pieces(joined(parts, separator), separator) == parts,
    decreases parts.len(),
{
    reveal_with_fuel(joined, 2);
    if parts.len() == 1 {
        lemma_pieces_further(Seq::<T>::empty(), parts[0], separator);
        assert(Seq::<T>::empty() + parts[0] =~= parts[0]);
        assert(bytes::pieces(parts[0], separator) =~= parts);
    } else {
        let front = parts.drop_last();
        assert forall|i: int| 0 <= i < front.len() implies !(#[trigger] front[i]).contains(
            separator,
        ) by {
            assert(front[i] == parts[i]);
        }
        lemma_pieces_of_joined(front, separator);
        let b = joined(front, separator).push(separator);
        assert(b.drop_last() =~= joined(front, separator));
        assert(!parts[parts.len() - 1].contains(separator));
        lemma_pieces_further(b, parts.last(), separator);
        assert(Seq::<T>::empty() + parts.last() =~= parts.last());
        assert(bytes::pieces(joined(parts, separator), separator) =~= parts);
    }
}

/// The characters that are white space.
pub open spec fn white_space_codes() -> Seq<u32> {
    seq![
        0x09,
        0x0a,
        0x0b,
        0x0c,
        0x0d,
        0x20,
        0x85,
        0xa0,
        0x1680,
        0x2000,
        0x2001,
        0x2002,
        0x2003,
        0x2004,
        0x2005,
        0x2006,
        0x2007,
        0x2008,
        0x2009,
        0x200a,
        0x2028,
        0x2029,
        0x202f,
        0x205f,
        0x3000,
    ]
}

/// Just the characters in the list are white space.
pub proof fn law_what_is_white_space(c: char)
    ensures
        text::white_space(c) <==> white_space_codes().contains(c as u32),
{
    let list = white_space_codes();
    let n = c as u32;
    assert(list.len() == 25);
    if text::white_space(c) {
        assert(n == list[0] || n == list[1] || n == list[2] || n == list[3] || n == list[4] || n
            == list[5] || n == list[6] || n == list[7] || n == list[8] || n == list[9] || n
            == list[10] || n == list[11] || n == list[12] || n == list[13] || n == list[14] || n
            == list[15] || n == list[16] || n == list[17] || n == list[18] || n == list[19] || n
            == list[20] || n == list[21] || n == list[22] || n == list[23] || n == list[24]);
    }
    if list.contains(n) {
        let i = list.index_of(n);
        assert(0 <= i < 25 && list[i] == n);
    }
}

/// Whether all of it is white space.
pub open spec fn is_blank(s: Seq<char>) -> bool {
    forall|i: int| 0 <= i < s.len() ==> text::white_space(#[trigger] s[i])
}

proof fn lemma_trimmed_start(s: Seq<char>) -> (k: int)
    ensures
        0 <= k <= s.len(),
        is_blank(s.take(k)),
        text::trimmed_start(s) == s.skip(k),
        k < s.len() ==> !text::white_space(s[k]),
    decreases s.len(),
{
    if s.len() > 0 && text::white_space(s[0]) {
        let k = lemma_trimmed_start(s.skip(1));
        assert(s.skip(1).skip(k) =~= s.skip(k + 1));
        assert forall|i: int| 0 <= i < k + 1 implies text::white_space(
            #[trigger] s.take(k + 1)[i],
        ) by {
            if i > 0 {
                assert(s.skip(1).take(k)[i - 1] == s[i]);
            }
        }
        k + 1
    } else {
        assert(s.skip(0) =~= s);
        0
    }
}

proof fn lemma_trimmed_end(s: Seq<char>) -> (k: int)
    ensures
        0 <= k <= s.len(),
        is_blank(s.skip(k)),
        text::trimmed_end(s) == s.take(k),
        k > 0 ==> !text::white_space(s[k - 1]),
    decreases s.len(),
{
    if s.len() > 0 && text::white_space(s.last()) {
        let k = lemma_trimmed_end(s.drop_last());
        assert(s.drop_last().take(k) =~= s.take(k));
        assert forall|i: int| 0 <= i < s.len() - k implies text::white_space(
            #[trigger] s.skip(k)[i],
        ) by {
            if i < s.len() - 1 - k {
                assert(s.drop_last().skip(k)[i] == s[k + i]);
            }
        }
        k
    } else {
        assert(s.take(s.len() as int) =~= s);
        s.len() as int
    }
}

/// Whether the text is what is left of another without the white space at its two ends.
pub open spec fn is_core_of(core: Seq<char>, s: Seq<char>, before: Seq<char>, after: Seq<char>) -> bool {
    &&& s == before + core + after
    &&& is_blank(before)
    &&& is_blank(after)
    &&& core.len() > 0 ==> !text::white_space(core[0]) && !text::white_space(core.last())
}

/// A trimmed text is the text but for white space at its two ends, and has none at its own.
pub proof fn law_trimming_takes_the_white_space_off(s: Seq<char>)
    ensures
        exists|before: Seq<char>, after: Seq<char>| #[trigger]
            is_core_of(text::trimmed(s), s, before, after),
{
    let i = lemma_trimmed_start(s);
    let rest = s.skip(i);
    let k = lemma_trimmed_end(rest);
    let core = rest.take(k);
    assert(s =~= s.take(i) + core + rest.skip(k));
    if k > 0 {
        assert(core[0] == s[i]);
    }
    assert(is_core_of(text::trimmed(s), s, s.take(i), rest.skip(k)));
}

/// A text that was trimmed stays as it is.
pub proof fn lemma_trimmed_twice(s: Seq<char>)
    ensures
        text::trimmed(text::trimmed(s)) == text::trimmed(s),
{
    let i = lemma_trimmed_start(s);
    let rest = s.skip(i);
    let k = lemma_trimmed_end(rest);
    let core = rest.take(k);
    if k > 0 {
        assert(core[0] == s[i]);
        assert(core.last() == rest[k - 1]);
    }
}

/// A sign before digits makes the number what it says; digits alone are the number; a sign alone,
/// nothing, and anything with another byte in it are no number.
pub proof fn law_signs_are_read(b: Seq<u8>)
    requires
        b.len() > 0,
        text::digits_value(b) is Some,
    ensures
        text::integer_text(b) == Some(text::digits_value(b)->0 as int),
        text::integer_text(seq![0x2b] + b) == text::integer_text(b),
        text::integer_text(seq![0x2d] + b) == Some(-(text::digits_value(b)->0 as int)),
        text::integer_text(seq![0x2b]) is None,
        text::integer_text(seq![0x2d]) is None,
        text::integer_text(Seq::empty()) is None,
{
    assert((seq![0x2bu8] + b).skip(1) =~= b);
    assert((seq![0x2du8] + b).skip(1) =~= b);
    lemma_first_is_digit(b);
}

proof fn lemma_first_is_digit(b: Seq<u8>)
    requires
        b.len() > 0,
        text::digits_value(b) is Some,
    ensures
        0x30 <= b[0] <= 0x39,
    decreases b.len(),
{
    if b.len() > 1 {
        lemma_first_is_digit(b.drop_last());
    }
}

/// A run of digits is a number just where nothing but digits stands in it, and one more digit makes
/// the number ten times as large and adds the digit.
pub proof fn law_digits_are_read(b: Seq<u8>, d: int)
    requires
        0 <= d < 10,
    ensures
        text::digits_value(b) is Some <==> forall|i: int|
            0 <= i < b.len() ==> 0x30 <= #[trigger] b[i] <= 0x39,
        text::digits_value(b) is Some ==> text::digits_value(b.push((0x30 + d) as u8)) == Some(
            (10 * text::digits_value(b)->0 + d) as nat,
        ),
        text::digits_value(Seq::empty()) == Some(0nat),
    decreases b.len(),
{
    assert(b.push((0x30 + d) as u8).drop_last() =~= b);
    if b.len() > 0 {
        let front = b.drop_last();
        law_digits_are_read(front, d);
        if text::digits_value(b) is Some {
            assert forall|i: int| 0 <= i < b.len() implies 0x30 <= #[trigger] b[i] <= 0x39 by {
                if i < front.len() {
                    assert(front[i] == b[i]);
                }
            }
        }
        if forall|i: int| 0 <= i < b.len() ==> 0x30 <= #[trigger] b[i] <= 0x39 {
            assert forall|i: int| 0 <= i < front.len() implies 0x30 <= #[trigger] front[i] <= 0x39 by {
                assert(front[i] == b[i]);
            }
            assert(0x30 <= b[b.len() - 1] <= 0x39);
        }
    }
}

/// A text spells a number within bounds just where it spells one, and that lies within them.
pub proof fn law_numbers_keep_to_their_bounds(b: Seq<u8>, lo: int, hi: int, s: Seq<char>)
    ensures
        ({
            let v = text::integer_text(b);
            let w = text::integer_within(b, lo, hi);
            &&& w is Some <==> v is Some && lo <= v->0 && v->0 <= hi
            &&& w is Some ==> w == v
        }),
        ({
            let v = text::integer_text(encode_utf8(s));
            let w = text::i32_text(s);
            &&& w is Some <==> v is Some && -2_147_483_648 <= v->0 && v->0 <= 2_147_483_647
            &&& w is Some ==> w == v
        }),
{
}

/// A natural number in decimal is read back, as long as a machine word holds it.
pub proof fn lemma_natural_is_read_back(n: nat)
    requires
        n <= usize::MAX,
    ensures
        text::usize_text(text::decimal(n as int)) == Some(n),
{
    text::lemma_decimal_nat(n);
    let s = text::decimal_nat(n);
    is_ascii_chars_encode_utf8(s);
    assert('0' <= s[0] && s[0] <= '9');
    assert(encode_utf8(s)[0] == s[0] as u8);
}

/// A plus sign before digits changes nothing of a natural number; a sign alone, a minus sign, and
/// nothing at all are none.
pub proof fn law_naturals_are_read(b: Seq<u8>)
    requires
        b.len() > 0,
        text::digits_value(b) is Some,
    ensures
        text::natural_text(b) == text::digits_value(b),
        text::natural_text(seq![0x2b] + b) == text::digits_value(b),
        text::natural_text(seq![0x2d] + b) is None,
        text::natural_text(seq![0x2b]) is None,
        text::natural_text(Seq::empty()) is None,
{
    lemma_first_is_digit(b);
    assert((seq![0x2bu8] + b).skip(1) =~= b);
    let c = seq![0x2du8] + b;
    if text::digits_value(c) is Some {
        lemma_first_is_digit(c);
    }
}

/// A number in decimal has no zero in front, but for zero itself, and a minus sign just where it is
/// below zero.
pub proof fn law_decimals_have_no_zero_in_front(n: int)
    ensures
        n != 0 ==> text::decimal(n)[0] != '0',
        n < 0 <==> text::decimal(n)[0] == '-',
        n == 0 ==> text::decimal(n) == seq!['0'],
{
    if n < 0 {
        lemma_first_digit((-n) as nat);
    } else {
        lemma_first_digit(n as nat);
    }
}

proof fn lemma_first_digit(n: nat)
    ensures
        text::decimal_nat(n).len() > 0,
        '0' <= text::decimal_nat(n)[0] <= '9',
        n > 0 ==> text::decimal_nat(n)[0] != '0',
        n == 0 ==> text::decimal_nat(n) == seq!['0'],
    decreases n,
{
    if n >= 10 {
        lemma_first_digit(n / 10);
    }
}

} // verus!
