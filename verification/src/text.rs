//! Text helpers: white space, trimming, decimal rendering and integer parsing.
use vstd::prelude::*;
use vstd::string::*;
#[allow(unused_imports)]
use vstd::utf8::*;

verus! {

/// The characters with the Unicode `White_Space` property.
pub open spec fn white_space(c: char) -> bool {
    let n = c as u32;
    ||| 0x09 <= n <= 0x0d
    ||| n == 0x20
    ||| n == 0x85
    ||| n == 0xa0
    ||| n == 0x1680
    ||| 0x2000 <= n <= 0x200a
    ||| n == 0x2028
    ||| n == 0x2029
    ||| n == 0x202f
    ||| n == 0x205f
    ||| n == 0x3000
}

/// Whether `c` has the Unicode `White_Space` property.
pub fn is_white_space(c: char) -> (r: bool)
    ensures
        r == white_space(c),
{
    let n: u32 = c as u32;
    (0x09 <= n && n <= 0x0d) || n == 0x20 || n == 0x85 || n == 0xa0 || n == 0x1680 || (0x2000 <= n
        && n <= 0x200a) || n == 0x2028 || n == 0x2029 || n == 0x202f || n == 0x205f || n == 0x3000
}

/// `s` without its leading white space.
pub open spec fn trimmed_start(s: Seq<char>) -> Seq<char>
    decreases s.len(),
{
    if s.len() > 0 && white_space(s[0]) {
        trimmed_start(s.skip(1))
    } else {
        s
    }
}

/// `s` without its trailing white space.
pub open spec fn trimmed_end(s: Seq<char>) -> Seq<char>
    decreases s.len(),
{
    if s.len() > 0 && white_space(s.last()) {
        trimmed_end(s.drop_last())
    } else {
        s
    }
}

/// `s` without the white space at its two ends.
pub open spec fn trimmed(s: Seq<char>) -> Seq<char> {
    trimmed_end(trimmed_start(s))
}

/// The characters of `s`, one by one.
pub fn chars_of(s: &str) -> (r: Vec<char>)
    ensures
        r@ == s@,
{
    let mut r: Vec<char> = Vec::new();
    for c in it: s.chars()
        invariant
            r@ == it.seq().take(it.index()),
            it.seq() == s@,
    {
        r.push(c);
    }
    r
}

/// `s` without the white space at its two ends.
pub fn trim(s: &str) -> (r: &str)
    ensures
        r@ == trimmed(s@),
{
    let cs = chars_of(s);
    let n: usize = cs.len();
    let mut lo: usize = 0;
    assert(s@.skip(0) =~= s@);
    while lo < n && is_white_space(cs[lo])
        invariant
            n == cs@.len(),
            cs@ == s@,
            lo <= n,
            trimmed_start(s@) == trimmed_start(s@.skip(lo as int)),
        decreases n - lo,
    {
        assert(s@.skip(lo as int).skip(1) =~= s@.skip(lo + 1));
        lo += 1;
    }
    assert(trimmed_start(s@) == s@.skip(lo as int));
    assert(s@.skip(lo as int) =~= s@.subrange(lo as int, n as int));
    let mut hi: usize = n;
    while hi > lo && is_white_space(cs[hi - 1])
        invariant
            n == cs@.len(),
            cs@ == s@,
            lo <= hi <= n,
            trimmed_end(s@.skip(lo as int)) == trimmed_end(s@.subrange(lo as int, hi as int)),
        decreases hi,
    {
        assert(s@.subrange(lo as int, hi as int).drop_last() =~= s@.subrange(
            lo as int,
            hi - 1,
        ));
        hi -= 1;
    }
    s.substring_char(lo, hi)
}

/// Whether two strings hold the same characters.
pub fn same_text(a: &str, b: &str) -> (r: bool)
    ensures
        r == (a@ == b@),
{
    a.to_owned() == b.to_owned()
}

/// The decimal digit `d` as a character.
pub open spec fn digit_char(d: int) -> char {
    (48 + d) as char
}

/// A natural number in decimal, without leading zeros.
pub open spec fn decimal_nat(n: nat) -> Seq<char>
    decreases n,
{
    if n < 10 {
        seq![digit_char(n as int)]
    } else {
        decimal_nat(n / 10).push(digit_char((n % 10) as int))
    }
}

/// An integer in decimal: a minus sign where it is negative, no leading zeros.
pub open spec fn decimal(n: int) -> Seq<char> {
    if n < 0 {
        seq!['-'] + decimal_nat((-n) as nat)
    } else {
        decimal_nat(n as nat)
    }
}

/// One decimal digit as text.
fn digit_text(d: u64) -> (r: &'static str)
    requires
        d < 10,
    ensures
        r@ == seq![digit_char(d as int)],
{
    proof {
        reveal_strlit("0");
        reveal_strlit("1");
        reveal_strlit("2");
        reveal_strlit("3");
        reveal_strlit("4");
        reveal_strlit("5");
        reveal_strlit("6");
        reveal_strlit("7");
        reveal_strlit("8");
        reveal_strlit("9");
    }
    let r = if d == 0 {
        "0"
    } else if d == 1 {
        "1"
    } else if d == 2 {
        "2"
    } else if d == 3 {
        "3"
    } else if d == 4 {
        "4"
    } else if d == 5 {
        "5"
    } else if d == 6 {
        "6"
    } else if d == 7 {
        "7"
    } else if d == 8 {
        "8"
    } else {
        "9"
    };
    assert(r@ =~= seq![digit_char(d as int)]);
    r
}

/// A natural number in decimal.
pub fn decimal_of_u64(n: u64) -> (r: String)
    ensures
        r@ == decimal_nat(n as nat),
    decreases n,
{
    if n < 10 {
        digit_text(n).to_owned()
    } else {
        let mut r = decimal_of_u64(n / 10);
        r.append(digit_text(n % 10));
        assert(r@ =~= decimal_nat(n as nat));
        r
    }
}

/// An integer in decimal.
pub fn decimal_of_i64(n: i64) -> (r: String)
    ensures
        r@ == decimal(n as int),
{
    if n < 0 {
        proof {
            reveal_strlit("-");
        }
        let magnitude: u64 = if n == i64::MIN {
            9_223_372_036_854_775_808
        } else {
            (-n) as u64
        };
        let mut r = "-".to_owned();
        let digits = decimal_of_u64(magnitude);
        r.append(digits.as_str());
        assert(r@ =~= decimal(n as int));
        r
    } else {
        decimal_of_u64(n as u64)
    }
}

/// Whether the byte is an ASCII decimal digit.
pub open spec fn digit_byte(b: u8) -> bool {
    0x30 <= b <= 0x39
}

/// The number that a run of ASCII digits spells; nothing if another byte is among them.
pub open spec fn digits_value(b: Seq<u8>) -> Option<nat>
    decreases b.len(),
{
    if b.len() == 0 {
        Some(0)
    } else {
        match digits_value(b.drop_last()) {
            Some(v) if digit_byte(b.last()) => Some(v * 10 + (b.last() - 0x30) as nat),
            _ => None,
        }
    }
}

/// The integer that the text spells: an optional sign, then at least one digit and nothing else.
pub open spec fn integer_text(b: Seq<u8>) -> Option<int> {
    if b.len() == 0 {
        None
    } else if b[0] == 0x2b || b[0] == 0x2d {
        if b.len() == 1 {
            None
        } else {
            match digits_value(b.skip(1)) {
                Some(v) => Some(if b[0] == 0x2d { -(v as int) } else { v as int }),
                None => None,
            }
        }
    } else {
        match digits_value(b) {
            Some(v) => Some(v as int),
            None => None,
        }
    }
}

/// What the text spells, where that lies between `lo` and `hi`.
pub open spec fn integer_within(b: Seq<u8>, lo: int, hi: int) -> Option<int> {
    match integer_text(b) {
        Some(v) if lo <= v <= hi => Some(v),
        _ => None,
    }
}

proof fn lemma_digits_grow(b: Seq<u8>, k: int)
    requires
        0 <= k <= b.len(),
        digits_value(b) is Some,
    ensures
        digits_value(b.take(k)) is Some,
        digits_value(b.take(k))->0 <= digits_value(b)->0,
    decreases b.len(),
{
    if k == b.len() {
        assert(b.take(k) =~= b);
    } else {
        lemma_digits_grow(b.drop_last(), k);
        assert(b.drop_last().take(k) =~= b.take(k));
    }
}

/// Reads the integer that `b[lo..hi]` spells, where it lies in the range of `i64`.
pub fn parse_i64_at(b: &[u8], lo: usize, hi: usize) -> (r: Option<i64>)
    requires
        lo <= hi <= b@.len(),
    ensures
        match r {
            Some(v) => integer_within(
                b@.subrange(lo as int, hi as int),
                i64::MIN as int,
                i64::MAX as int,
            ) == Some(v as int),
            None => integer_within(
                b@.subrange(lo as int, hi as int),
                i64::MIN as int,
                i64::MAX as int,
            ) is None,
        },
{
    let ghost t = b@.subrange(lo as int, hi as int);
    if lo == hi {
        return None;
    }
    let signed: bool = b[lo] == 0x2b || b[lo] == 0x2d;
    let negative: bool = b[lo] == 0x2d;
    if signed && hi - lo == 1 {
        return None;
    }
    let start: usize = if signed {
        lo + 1
    } else {
        lo
    };
    let ghost d = b@.subrange(start as int, hi as int);
    proof {
        assert(t[0] == b@[lo as int]);
        assert(t.len() == hi - lo);
        if signed {
            assert(t.skip(1) =~= d);
        } else {
            assert(t =~= d);
        }
    }
    let mut i: usize = start;
    let mut value: i128 = 0;
    while i < hi
        invariant
            start <= i <= hi <= b@.len(),
            d == b@.subrange(start as int, hi as int),
            t == b@.subrange(lo as int, hi as int),
            signed ==> t.len() > 1 && t.skip(1) == d && (t[0] == 0x2b || t[0] == 0x2d),
            !signed ==> t.len() > 0 && t == d && t[0] != 0x2b && t[0] != 0x2d,
            0 <= value <= 10_000_000_000_000_000_000,
            digits_value(d.take(i - start)) == Some(value as nat),
        decreases hi - i,
    {
        let ghost k = i - start;
        assert(d.take(k + 1).drop_last() =~= d.take(k));
        assert(d.take(k + 1).last() == b@[i as int]);
        if b[i] < 0x30 || b[i] > 0x39 {
            proof {
                if digits_value(d) is Some {
                    lemma_digits_grow(d, k + 1);
                }
            }
            return None;
        }
        value = value * 10 + (b[i] - 0x30) as i128;
        if value > 10_000_000_000_000_000_000 {
            proof {
                if digits_value(d) is Some {
                    lemma_digits_grow(d, k + 1);
                }
            }
            return None;
        }
        i += 1;
    }
    assert(d.take(d.len() as int) =~= d);
    let v: i128 = if negative {
        -value
    } else {
        value
    };
    if v < -9_223_372_036_854_775_808 || v > 9_223_372_036_854_775_807 {
        None
    } else {
        Some(v as i64)
    }
}

/// The integer that the text spells, where it fits in 32 bits.
pub open spec fn i32_text(s: Seq<char>) -> Option<int> {
    integer_within(encode_utf8(s), i32::MIN as int, i32::MAX as int)
}

/// Reads an integer of 32 bits.
pub fn parse_i32(s: &str) -> (r: Option<i32>)
    ensures
        match r {
            Some(v) => i32_text(s@) == Some(v as int),
            None => i32_text(s@) is None,
        },
{
    let b = s.as_bytes();
    assert(b@.subrange(0, b@.len() as int) =~= b@);
    match parse_i64_at(b, 0, b.len()) {
        Some(v) => if -2_147_483_648 <= v && v <= 2_147_483_647 {
            Some(v as i32)
        } else {
            None
        },
        None => None,
    }
}

/// The natural number that the text spells: an optional plus sign, then at least one digit and
/// nothing else.
pub open spec fn natural_text(b: Seq<u8>) -> Option<nat> {
    if b.len() == 0 {
        None
    } else if b[0] == 0x2b {
        if b.len() == 1 {
            None
        } else {
            digits_value(b.skip(1))
        }
    } else {
        digits_value(b)
    }
}

/// The natural number that the text spells, where it fits in a machine word.
pub open spec fn usize_text(s: Seq<char>) -> Option<nat> {
    match natural_text(encode_utf8(s)) {
        Some(v) if v <= usize::MAX => Some(v),
        _ => None,
    }
}

/// Reads a natural number of the size of a machine word.
pub fn parse_usize(s: &str) -> (r: Option<usize>)
    ensures
        match r {
            Some(v) => usize_text(s@) == Some(v as nat),
            None => usize_text(s@) is None,
        },
{
    let b = s.as_bytes();
    let n: usize = b.len();
    if n == 0 {
        return None;
    }
    let signed = b[0] == 0x2b;
    if signed && n == 1 {
        return None;
    }
    let start: usize = if signed {
        1
    } else {
        0
    };
    let ghost d = b@.subrange(start as int, n as int);
    proof {
        if signed {
            assert(b@.skip(1) =~= d);
        } else {
            assert(b@ =~= d);
        }
    }
    let mut i: usize = start;
    let mut value: usize = 0;
    while i < n
        invariant
            start <= i <= n,
            n == b@.len(),
            d == b@.subrange(start as int, n as int),
            natural_text(b@) == digits_value(d),
            b@ == encode_utf8(s@),
            digits_value(d.take(i - start)) == Some(value as nat),
        decreases n - i,
    {
        let ghost k = i - start;
        assert(d.take(k + 1).drop_last() =~= d.take(k));
        assert(d.take(k + 1).last() == b@[i as int]);
        if b[i] < 0x30 || b[i] > 0x39 {
            proof {
                if digits_value(d) is Some {
                    lemma_digits_grow(d, k + 1);
                }
            }
            return None;
        }
        let digit: usize = (b[i] - 0x30) as usize;
        let next = match value.checked_mul(10) {
            Some(tens) => tens.checked_add(digit),
            None => None,
        };
        match next {
            Some(v) => {
                value = v;
            },
            None => {
                proof {
                    if digits_value(d) is Some {
                        lemma_digits_grow(d, k + 1);
                    }
                }
                return None;
            },
        }
        i += 1;
    }
    assert(d.take(d.len() as int) =~= d);
    Some(value)
}

/// Whether the characters are those of a decimal number.
pub open spec fn decimal_chars(s: Seq<char>) -> bool {
    forall|i: int| 0 <= i < s.len() ==> #[trigger] s[i] == '-' || ('0' <= s[i] && s[i] <= '9')
}

/// A natural number in decimal is digits, and is read back.
pub proof fn lemma_decimal_nat(n: nat)
    ensures
        decimal_nat(n).len() > 0,
        forall|i: int|
            0 <= i < decimal_nat(n).len() ==> '0' <= #[trigger] decimal_nat(n)[i]
                && decimal_nat(n)[i] <= '9',
        is_ascii_chars(decimal_nat(n)),
        digits_value(encode_utf8(decimal_nat(n))) == Some(n),
    decreases n,
{
    let s = decimal_nat(n);
    if n >= 10 {
        lemma_decimal_nat(n / 10);
    }
    assert(is_ascii_chars(s));
    is_ascii_chars_encode_utf8(s);
    let b = encode_utf8(s);
    let d = (n % 10) as int;
    assert(s.last() == digit_char(d));
    assert(b.last() == s[s.len() - 1] as u8);
    assert(b.last() == 0x30 + d);
    if n < 10 {
        assert(b.drop_last() =~= Seq::empty());
        reveal_with_fuel(digits_value, 2);
    } else {
        let front = decimal_nat(n / 10);
        is_ascii_chars_encode_utf8(front);
        assert(b.drop_last() =~= encode_utf8(front)) by {
            assert forall|i: int| 0 <= i < front.len() implies b[i] == encode_utf8(front)[i] by {
                assert(s[i] == front[i]);
            }
        }
    }
}

/// A number in decimal is made of digits and at most a minus sign.
pub proof fn lemma_decimal_chars(n: int)
    ensures
        decimal_chars(decimal(n)),
        is_ascii_chars(decimal(n)),
        decimal(n).len() > 0,
{
    if n < 0 {
        lemma_decimal_nat((-n) as nat);
    } else {
        lemma_decimal_nat(n as nat);
    }
}

/// The number that is read back from a number in decimal is that number.
pub proof fn law_decimal_is_read_back(n: int)
    ensures
        integer_text(encode_utf8(decimal(n))) == Some(n),
{
    lemma_decimal_chars(n);
    let s = decimal(n);
    is_ascii_chars_encode_utf8(s);
    let b = encode_utf8(s);
    assert(b[0] == s[0] as u8);
    if n < 0 {
        let m = (-n) as nat;
        lemma_decimal_nat(m);
        is_ascii_chars_encode_utf8(decimal_nat(m));
        assert(b.skip(1) =~= encode_utf8(decimal_nat(m))) by {
            assert forall|i: int| 0 <= i < decimal_nat(m).len() implies b[i + 1] == encode_utf8(
                decimal_nat(m),
            )[i] by {
                assert(s[i + 1] == decimal_nat(m)[i]);
            }
        }
    } else {
        lemma_decimal_nat(n as nat);
    }
}

/// Two numbers have the same text only if they are equal.
pub proof fn law_decimals_differ(a: int, b: int)
    ensures
        decimal(a) == decimal(b) <==> a == b,
{
    law_decimal_is_read_back(a);
    law_decimal_is_read_back(b);
}

} // verus!
