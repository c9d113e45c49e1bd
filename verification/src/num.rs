use vstd::prelude::*;
use crate::text::digit_char;

verus! {

pub open spec fn is_digit(c: char) -> bool {
    '0' <= c && c <= '9'
}

/// The numeric value of an ASCII digit.
pub open spec fn digit_val(c: char) -> int {
    (c as u32) - 48
}

pub open spec fn all_digits(s: Seq<char>) -> bool {
    forall|i: int| 0 <= i < s.len() ==> is_digit(#[trigger] s[i])
}

/// The integer a digit string denotes, most significant digit first.
pub open spec fn digits_val(s: Seq<char>) -> int
    decreases s.len(),
{
    if s.len() == 0 {
        0
    } else {
        digits_val(s.drop_last()) * 10 + digit_val(s.last())
    }
}

pub open spec fn pow10(n: nat) -> int
    decreases n,
{
    if n == 0 {
        1
    } else {
        10 * pow10((n - 1) as nat)
    }
}

pub proof fn lemma_pow10_pos(n: nat)
    ensures
        pow10(n) >= 1,
    decreases n,
{
    if n > 0 {
        lemma_pow10_pos((n - 1) as nat);
    }
}

pub proof fn lemma_pow10_mono(a: nat, b: nat)
    requires
        a <= b,
    ensures
        pow10(a) <= pow10(b),
    decreases b,
{
    if a < b {
        lemma_pow10_mono(a, (b - 1) as nat);
        lemma_pow10_pos((b - 1) as nat);
    }
}

/// A digit string of length n denotes a value below 10^n.
pub proof fn lemma_digits_val_bound(s: Seq<char>)
    requires
        all_digits(s),
    ensures
        0 <= digits_val(s) < pow10(s.len()),
    decreases s.len(),
{
    if s.len() > 0 {
        assert(forall|i: int|
            0 <= i < s.drop_last().len() ==> is_digit(#[trigger] s.drop_last()[i]));
        lemma_digits_val_bound(s.drop_last());
        assert(is_digit(s.last()));
    }
}

/// A digit string with a leading nonzero digit denotes at least 10^(n-1).
pub proof fn lemma_digits_val_lower(s: Seq<char>)
    requires
        all_digits(s),
        s.len() >= 1,
        s[0] != '0',
    ensures
        digits_val(s) >= pow10((s.len() - 1) as nat),
    decreases s.len(),
{
    if s.len() == 1 {
        assert(is_digit(s[0]));
        assert(s.drop_last().len() == 0);
        assert(digits_val(s.drop_last()) == 0);
        assert(digit_val(s[0]) >= 1);
    } else {
        assert(forall|i: int|
            0 <= i < s.drop_last().len() ==> is_digit(#[trigger] s.drop_last()[i]));
        assert(s.drop_last()[0] == s[0]);
        lemma_digits_val_lower(s.drop_last());
        assert(is_digit(s.last()));
        assert(pow10((s.len() - 1) as nat) == 10 * pow10((s.len() - 2) as nat));
    }
}

pub proof fn lemma_digits_val_zeros(s: Seq<char>)
    requires
        forall|i: int| 0 <= i < s.len() ==> #[trigger] s[i] == '0',
    ensures
        digits_val(s) == 0,
    decreases s.len(),
{
    if s.len() > 0 {
        assert(forall|i: int|
            0 <= i < s.drop_last().len() ==> #[trigger] s.drop_last()[i] == '0');
        lemma_digits_val_zeros(s.drop_last());
        assert(s.last() == '0');
    }
}

/// Leading zeros do not change the denoted value.
pub proof fn lemma_digits_val_strip(s: Seq<char>, z: int)
    requires
        0 <= z <= s.len(),
        forall|i: int| 0 <= i < z ==> #[trigger] s[i] == '0',
    ensures
        digits_val(s) == digits_val(s.subrange(z, s.len() as int)),
    decreases s.len(),
{
    if s.len() == z {
        lemma_digits_val_zeros(s);
        assert(s.subrange(z, s.len() as int) =~= Seq::<char>::empty());
    } else {
        lemma_digits_val_strip(s.drop_last(), z);
        assert(s.subrange(z, s.len() as int).drop_last() =~= s.drop_last().subrange(
            z,
            s.len() - 1,
        ));
        assert(s.subrange(z, s.len() as int).last() == s.last());
    }
}

/// What a decimal digit string parses to as a `u64`: its value, when every
/// character is a digit, there is at least one, and the value fits.
pub open spec fn spec_parse_u64(s: Seq<char>) -> Option<u64> {
    if s.len() >= 1 && all_digits(s) && digits_val(s) <= u64::MAX {
        Some(digits_val(s) as u64)
    } else {
        None
    }
}

fn char_digit(c: char) -> (d: u8)
    requires
        is_digit(c),
    ensures
        d as int == digit_val(c),
{
    (((c as u32) - 48) as u8)
}

pub fn parse_u64(s: &Vec<char>) -> (r: Option<u64>)
    ensures
        r == spec_parse_u64(s@),
{
    if s.len() == 0 {
        return None;
    }
    let mut i: usize = 0;
    while i < s.len()
        invariant
            i <= s@.len(),
            forall|k: int| 0 <= k < i ==> is_digit(#[trigger] s@[k]),
        decreases s@.len() - i,
    {
        if !digit_char(s[i]) {
            return None;
        }
        i = i + 1;
    }
    let mut z: usize = 0;
    while z < s.len() && s[z] == '0'
        invariant
            z <= s@.len(),
            forall|k: int| 0 <= k < z ==> #[trigger] s@[k] == '0',
        decreases s@.len() - z,
    {
        z = z + 1;
    }
    proof {
        lemma_digits_val_strip(s@, z as int);
    }
    let ghost t = s@.subrange(z as int, s@.len() as int);
    proof {
        assert(forall|k: int| 0 <= k < t.len() ==> is_digit(#[trigger] t[k]));
    }
    if s.len() - z > 20 {
        proof {
            assert(t[0] == s@[z as int]);
            lemma_digits_val_lower(t);
            lemma_pow10_mono(20, (t.len() - 1) as nat);
            reveal_with_fuel(pow10, 22);
            assert(pow10(20) == 100000000000000000000);
        }
        return None;
    }
    let mut acc: u128 = 0;
    let mut k: usize = z;
    while k < s.len()
        invariant
            z <= k <= s@.len(),
            s@.len() - z <= 20,
            forall|j: int| 0 <= j < s@.len() ==> is_digit(#[trigger] s@[j]),
            acc as int == digits_val(s@.subrange(z as int, k as int)),
            0 <= acc as int,
            (acc as int) < pow10((k - z) as nat),
        decreases s@.len() - k,
    {
        let d = char_digit(s[k]);
        proof {
            assert(s@.subrange(z as int, k + 1).drop_last() =~= s@.subrange(z as int, k as int));
            assert(s@.subrange(z as int, k + 1).last() == s@[k as int]);
            lemma_pow10_mono((k - z) as nat, 20);
            reveal_with_fuel(pow10, 22);
            assert(pow10(20) == 100000000000000000000);
            assert(pow10(21) == 1000000000000000000000);
            assert(forall|j: int|
                0 <= j < s@.subrange(z as int, k + 1).len() ==> is_digit(
                    #[trigger] s@.subrange(z as int, k + 1)[j],
                ));
            lemma_digits_val_bound(s@.subrange(z as int, k + 1));
        }
        acc = acc * 10 + (d as u128);
        k = k + 1;
    }
    proof {
        assert(s@.subrange(z as int, s@.len() as int) =~= t);
    }
    if acc <= 0xFFFF_FFFF_FFFF_FFFFu128 {
        Some(acc as u64)
    } else {
        None
    }
}

/// What a signed decimal digit string parses to as an `i64`.
pub open spec fn spec_parse_i64(s: Seq<char>) -> Option<i64> {
    if s.len() >= 1 && s[0] == '-' {
        match spec_parse_u64(s.subrange(1, s.len() as int)) {
            Some(v) => if v <= 0x7FFF_FFFF_FFFF_FFFFu64 {
                Some((-(v as int)) as i64)
            } else if v == 0x8000_0000_0000_0000u64 {
                Some(i64::MIN)
            } else {
                None
            },
            None => None,
        }
    } else {
        match spec_parse_u64(s) {
            Some(v) => if v <= 0x7FFF_FFFF_FFFF_FFFFu64 {
                Some(v as i64)
            } else {
                None
            },
            None => None,
        }
    }
}

pub fn parse_i64(s: &Vec<char>) -> (r: Option<i64>)
    ensures
        r == spec_parse_i64(s@),
{
    if s.len() >= 1 && s[0] == '-' {
        let body = crate::text::sub_vec(s, 1, s.len());
        match parse_u64(&body) {
            Some(v) => if v <= 0x7FFF_FFFF_FFFF_FFFFu64 {
                Some(-(v as i64))
            } else if v == 0x8000_0000_0000_0000u64 {
                Some(i64::MIN)
            } else {
                None
            },
            None => None,
        }
    } else {
        match parse_u64(s) {
            Some(v) => if v <= 0x7FFF_FFFF_FFFF_FFFFu64 {
                Some(v as i64)
            } else {
                None
            },
            None => None,
        }
    }
}

/// An exact decimal number: (-1 if neg)·mantissa / 10^scale.
#[derive(Debug, Clone, Copy, PartialEq, Eq, Structural)]
pub struct Decimal {
    pub neg: bool,
    pub mantissa: u64,
    pub scale: usize,
}

/// First index at or after `i` holding `c`, or the length.
pub open spec fn find_char(s: Seq<char>, c: char, i: int) -> int
    decreases s.len() - i,
{
    if 0 <= i < s.len() {
        if s[i] == c {
            i
        } else {
            find_char(s, c, i + 1)
        }
    } else {
        s.len() as int
    }
}

/// What a decimal-number string parses to: an optional sign, then digits with
/// at most one point among them, at least one digit in all; the mantissa is
/// the digit string with the point dropped and must fit a `u64`.
pub open spec fn spec_parse_decimal(s: Seq<char>) -> Option<Decimal> {
    let neg = s.len() >= 1 && s[0] == '-';
    let body = if s.len() >= 1 && (s[0] == '-' || s[0] == '+') {
        s.subrange(1, s.len() as int)
    } else {
        s
    };
    let d = find_char(body, '.', 0);
    let digits = if d < body.len() {
        body.subrange(0, d) + body.subrange(d + 1, body.len() as int)
    } else {
        body
    };
    if digits.len() >= 1 && all_digits(digits) && digits_val(digits) <= u64::MAX {
        Some(
            Decimal {
                neg,
                mantissa: digits_val(digits) as u64,
                scale: if d < body.len() {
                    (body.len() - d - 1) as usize
                } else {
                    0
                },
            },
        )
    } else {
        None
    }
}

pub fn parse_decimal(s: &Vec<char>) -> (r: Option<Decimal>)
    ensures
        r == spec_parse_decimal(s@),
{
    let neg = s.len() >= 1 && s[0] == '-';
    let body = if s.len() >= 1 && (s[0] == '-' || s[0] == '+') {
        crate::text::sub_vec(s, 1, s.len())
    } else {
        crate::text::sub_vec(s, 0, s.len())
    };
    proof {
        if !(s@.len() >= 1 && (s@[0] == '-' || s@[0] == '+')) {
            assert(s@.subrange(0, s@.len() as int) =~= s@);
        }
    }
    let mut d: usize = 0;
    while d < body.len() && body[d] != '.'
        invariant
            d <= body@.len(),
            find_char(body@, '.', 0) == find_char(body@, '.', d as int),
        decreases body@.len() - d,
    {
        d = d + 1;
    }
    let digits = if d < body.len() {
        let mut front = crate::text::sub_vec(&body, 0, d);
        let mut back = crate::text::sub_vec(&body, d + 1, body.len());
        front.append(&mut back);
        front
    } else {
        crate::text::sub_vec(&body, 0, body.len())
    };
    proof {
        if !(d < body@.len()) {
            assert(body@.subrange(0, body@.len() as int) =~= body@);
        }
    }
    let scale: usize = if d < body.len() {
        body.len() - d - 1
    } else {
        0
    };
    match parse_u64(&digits) {
        Some(m) => Some(Decimal { neg, mantissa: m, scale }),
        None => None,
    }
}

} // verus!
