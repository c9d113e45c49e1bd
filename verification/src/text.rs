use vstd::prelude::*;
use vstd::string::StrSliceExecFns;
use crate::num::is_digit;

verus! {

/// The whitespace characters the extractors recognize: ASCII blanks plus the
/// no-break space that rendered pages use between value and unit.
pub open spec fn is_ws(c: char) -> bool {
    c == ' ' || c == '\t' || c == '\n' || c == '\r' || c == '\u{a0}'
}

pub fn ws_char(c: char) -> (r: bool)
    ensures
        r == is_ws(c),
{
    c == ' ' || c == '\t' || c == '\n' || c == '\r' || c == '\u{a0}'
}

/// The characters of `s`, for callers that index or rebuild text.
pub fn str_chars(s: &str) -> (r: Vec<char>)
    ensures
        r@ == s@,
{
    let n = s.unicode_len();
    let mut r: Vec<char> = Vec::new();
    let mut i: usize = 0;
    while i < n
        invariant
            i <= n,
            n == s@.len(),
            r@ == s@.take(i as int),
        decreases n - i,
    {
        r.push(s.get_char(i));
        i = i + 1;
        proof {
            assert(r@ =~= s@.take(i as int));
        }
    }
    proof {
        assert(s@.take(n as int) =~= s@);
    }
    r
}

/// Relies on `String::push`: appends exactly the one character.
#[verifier::external_body]
pub fn push_char(s: &mut String, c: char)
    ensures
        final(s)@ == old(s)@.push(c),
{
    s.push(c);
}

/// A `String` holding exactly the characters of `v`.
pub fn chars_string(v: &Vec<char>) -> (r: String)
    ensures
        r@ == v@,
{
    let mut r = String::new();
    let mut i: usize = 0;
    while i < v.len()
        invariant
            i <= v@.len(),
            r@ == v@.take(i as int),
        decreases v@.len() - i,
    {
        push_char(&mut r, v[i]);
        i = i + 1;
        proof {
            assert(r@ =~= v@.take(i as int));
        }
    }
    proof {
        assert(v@.take(v@.len() as int) =~= v@);
    }
    r
}

/// The characters of `s` from `a` (inclusive) to `b` (exclusive).
pub fn sub_vec(s: &Vec<char>, a: usize, b: usize) -> (r: Vec<char>)
    requires
        a <= b <= s@.len(),
    ensures
        r@ == s@.subrange(a as int, b as int),
{
    let mut r: Vec<char> = Vec::new();
    let mut i: usize = a;
    while i < b
        invariant
            a <= i <= b <= s@.len(),
            r@ == s@.subrange(a as int, i as int),
        decreases b - i,
    {
        r.push(s[i]);
        i = i + 1;
        proof {
            assert(r@ =~= s@.subrange(a as int, i as int));
        }
    }
    r
}

/// `w` occurs in `s` starting at `i`.
pub open spec fn sub_at(s: Seq<char>, w: Seq<char>, i: int) -> bool {
    0 <= i && i + w.len() <= s.len() && s.subrange(i, i + w.len()) == w
}

/// `w` occurs somewhere in `s`.
pub open spec fn contains_sub(s: Seq<char>, w: Seq<char>) -> bool {
    exists|i: int| sub_at(s, w, i)
}

/// `w` occurs in `s` starting at `i` and delimited by whitespace or the ends.
pub open spec fn word_at(s: Seq<char>, w: Seq<char>, i: int) -> bool {
    sub_at(s, w, i) && (i == 0 || is_ws(s[i - 1])) && (i + w.len() == s.len() || is_ws(
        s[i + w.len()],
    ))
}

/// `w` occurs in `s` as a whole whitespace-delimited word.
pub open spec fn contains_word(s: Seq<char>, w: Seq<char>) -> bool {
    exists|i: int| word_at(s, w, i)
}

/// `p` is a prefix of `s`.
pub open spec fn is_prefix(p: Seq<char>, s: Seq<char>) -> bool {
    sub_at(s, p, 0)
}

/// Whether `w` occurs in `s` starting at position `i`.
pub fn eq_at(s: &Vec<char>, w: &Vec<char>, i: usize) -> (r: bool)
    ensures
        r == sub_at(s@, w@, i as int),
{
    if w.len() > s.len() || i > s.len() - w.len() {
        return false;
    }
    let mut k: usize = 0;
    while k < w.len()
        invariant
            k <= w@.len(),
            i + w@.len() <= s@.len(),
            s.len() == s@.len(),
            w.len() == w@.len(),
            s@.subrange(i as int, i + k) == w@.take(k as int),
        decreases w@.len() - k,
    {
        if s[i + k] != w[k] {
            proof {
                assert(s@.subrange(i as int, i + w@.len())[k as int] != w@[k as int]);
            }
            return false;
        }
        k = k + 1;
        proof {
            assert(s@.subrange(i as int, i + k) =~= w@.take(k as int));
        }
    }
    proof {
        assert(s@.subrange(i as int, i + w@.len()) =~= w@);
    }
    true
}

/// Whether two character sequences are equal.
pub fn seq_eq(a: &Vec<char>, b: &Vec<char>) -> (r: bool)
    ensures
        r == (a@ == b@),
{
    if a.len() != b.len() {
        return false;
    }
    let r = eq_at(a, b, 0);
    proof {
        if r {
            assert(a@.subrange(0, b@.len() as int) =~= a@);
        } else {
            assert(a@.subrange(0, b@.len() as int) =~= a@);
        }
    }
    r
}

/// Whether the characters of `a` equal the characters of the string `b`.
pub fn seq_eq_str(a: &Vec<char>, b: &str) -> (r: bool)
    ensures
        r == (a@ == b@),
{
    let bv = str_chars(b);
    seq_eq(a, &bv)
}

/// Whether `p` is a prefix of `s`.
pub fn has_prefix(s: &Vec<char>, p: &Vec<char>) -> (r: bool)
    ensures
        r == is_prefix(p@, s@),
{
    eq_at(s, p, 0)
}

/// Whether `w` occurs in `s` as a whole whitespace-delimited word.
pub fn contains_word_vec(s: &Vec<char>, w: &Vec<char>) -> (r: bool)
    requires
        w@.len() >= 1,
    ensures
        r == contains_word(s@, w@),
{
    if w.len() > s.len() {
        proof {
            assert(forall|i: int| !word_at(s@, w@, i));
        }
        return false;
    }
    let mut i: usize = 0;
    while i < s.len()
        invariant
            i <= s.len(),
            s.len() == s@.len(),
            w.len() == w@.len(),
            1 <= w@.len() <= s@.len(),
            forall|k: int| 0 <= k < i ==> !word_at(s@, w@, k),
        decreases s@.len() - i,
    {
        if eq_at(s, w, i) {
            let left_ok = if i == 0 {
                true
            } else {
                ws_char(s[i - 1])
            };
            let right_ok = if i + w.len() == s.len() {
                true
            } else {
                ws_char(s[i + w.len()])
            };
            if left_ok && right_ok {
                proof {
                    assert(word_at(s@, w@, i as int));
                }
                return true;
            }
        }
        i = i + 1;
    }
    proof {
        assert(forall|k: int| word_at(s@, w@, k) ==> 0 <= k < s@.len());
    }
    false
}

/// Whether `w` occurs anywhere in `s`.
pub fn contains_sub_vec(s: &Vec<char>, w: &Vec<char>) -> (r: bool)
    requires
        w@.len() >= 1,
    ensures
        r == contains_sub(s@, w@),
{
    if w.len() > s.len() {
        proof {
            assert(forall|i: int| !sub_at(s@, w@, i));
        }
        return false;
    }
    let mut i: usize = 0;
    while i < s.len()
        invariant
            i <= s.len(),
            s.len() == s@.len(),
            1 <= w@.len() <= s@.len(),
            forall|k: int| 0 <= k < i ==> !sub_at(s@, w@, k),
        decreases s@.len() - i,
    {
        if eq_at(s, w, i) {
            proof {
                assert(sub_at(s@, w@, i as int));
            }
            return true;
        }
        i = i + 1;
    }
    proof {
        assert(forall|k: int| sub_at(s@, w@, k) ==> 0 <= k < s@.len());
    }
    false
}

/// Drops every comma, as a thousands-separator strip.
pub open spec fn strip_commas_upto(s: Seq<char>, i: int) -> Seq<char>
    decreases i,
{
    if i <= 0 {
        Seq::empty()
    } else {
        strip_commas_upto(s, i - 1) + if s[i - 1] == ',' {
            Seq::<char>::empty()
        } else {
            seq![s[i - 1]]
        }
    }
}

pub open spec fn strip_commas(s: Seq<char>) -> Seq<char> {
    strip_commas_upto(s, s.len() as int)
}

pub fn strip_commas_vec(s: &Vec<char>) -> (r: Vec<char>)
    ensures
        r@ == strip_commas(s@),
{
    let mut r: Vec<char> = Vec::new();
    let mut i: usize = 0;
    while i < s.len()
        invariant
            i <= s@.len(),
            r@ == strip_commas_upto(s@, i as int),
        decreases s@.len() - i,
    {
        if s[i] != ',' {
            r.push(s[i]);
        }
        i = i + 1;
        proof {
            assert(r@ =~= strip_commas_upto(s@, i as int));
        }
    }
    r
}

/// Drops every whitespace character and every em-space digit-group separator.
pub open spec fn strip_blank_upto(s: Seq<char>, i: int) -> Seq<char>
    decreases i,
{
    if i <= 0 {
        Seq::empty()
    } else {
        strip_blank_upto(s, i - 1) + if is_ws(s[i - 1]) || s[i - 1] == '\u{2003}' {
            Seq::<char>::empty()
        } else {
            seq![s[i - 1]]
        }
    }
}

pub open spec fn strip_blank(s: Seq<char>) -> Seq<char> {
    strip_blank_upto(s, s.len() as int)
}

pub fn strip_blank_vec(s: &Vec<char>) -> (r: Vec<char>)
    ensures
        r@ == strip_blank(s@),
{
    let mut r: Vec<char> = Vec::new();
    let mut i: usize = 0;
    while i < s.len()
        invariant
            i <= s@.len(),
            r@ == strip_blank_upto(s@, i as int),
        decreases s@.len() - i,
    {
        if !ws_char(s[i]) && s[i] != '\u{2003}' {
            r.push(s[i]);
        }
        i = i + 1;
        proof {
            assert(r@ =~= strip_blank_upto(s@, i as int));
        }
    }
    r
}

/// Whitespace normalization from position `i` on, with `st` the scan state:
/// 0 before any word, 1 inside a word, 2 in a gap after a word.
pub open spec fn norm_from(s: Seq<char>, i: int, st: int) -> Seq<char>
    decreases s.len() - i,
{
    if !(0 <= i < s.len()) {
        Seq::empty()
    } else if is_ws(s[i]) {
        norm_from(s, i + 1, if st == 0 {
            0int
        } else {
            2int
        })
    } else {
        (if st == 2 {
            seq![' ', s[i]]
        } else {
            seq![s[i]]
        }) + norm_from(s, i + 1, 1)
    }
}

/// Runs of whitespace collapsed to single spaces, outer whitespace trimmed.
pub open spec fn norm_ws(s: Seq<char>) -> Seq<char> {
    norm_from(s, 0, 0)
}

pub fn normalize_ws(s: &Vec<char>) -> (r: Vec<char>)
    ensures
        r@ == norm_ws(s@),
{
    let mut r: Vec<char> = Vec::new();
    let mut st: u8 = 0;
    let mut i: usize = 0;
    while i < s.len()
        invariant
            i <= s@.len(),
            st == 0 || st == 1 || st == 2,
            norm_ws(s@) == r@ + norm_from(s@, i as int, st as int),
        decreases s@.len() - i,
    {
        let ghost r_old = r@;
        let ghost st_old = st as int;
        let ghost i_old = i as int;
        if ws_char(s[i]) {
            if st != 0 {
                st = 2;
            }
        } else {
            if st == 2 {
                r.push(' ');
            }
            r.push(s[i]);
            st = 1;
        }
        i = i + 1;
        proof {
            assert(r@ + norm_from(s@, i as int, st as int) =~= r_old + norm_from(
                s@,
                i_old,
                st_old,
            ));
        }
    }
    proof {
        assert(r@ + norm_from(s@, i as int, st as int) =~= r@);
    }
    r
}

/// First index at or after `i` holding a non-whitespace character, or the length.
pub open spec fn scan_non_ws(s: Seq<char>, i: int) -> int
    decreases s.len() - i,
{
    if 0 <= i < s.len() {
        if is_ws(s[i]) {
            scan_non_ws(s, i + 1)
        } else {
            i
        }
    } else {
        s.len() as int
    }
}

/// First index at or after `i` holding a whitespace character, or the length.
pub open spec fn scan_ws(s: Seq<char>, i: int) -> int
    decreases s.len() - i,
{
    if 0 <= i < s.len() {
        if is_ws(s[i]) {
            i
        } else {
            scan_ws(s, i + 1)
        }
    } else {
        s.len() as int
    }
}

/// The first whitespace-delimited token of `s`, or empty if there is none.
pub open spec fn first_token(s: Seq<char>) -> Seq<char> {
    let a = scan_non_ws(s, 0);
    if a < s.len() {
        s.subrange(a, scan_ws(s, a))
    } else {
        Seq::empty()
    }
}

pub fn first_token_vec(s: &Vec<char>) -> (r: Vec<char>)
    ensures
        r@ == first_token(s@),
{
    let mut a: usize = 0;
    while a < s.len() && ws_char(s[a])
        invariant
            0 <= a <= s@.len(),
            scan_non_ws(s@, 0) == scan_non_ws(s@, a as int),
        decreases s@.len() - a,
    {
        a = a + 1;
    }
    if a == s.len() {
        Vec::new()
    } else {
        let mut b: usize = a;
        while b < s.len() && !ws_char(s[b])
            invariant
                a <= b <= s@.len(),
                scan_ws(s@, a as int) == scan_ws(s@, b as int),
            decreases s@.len() - b,
        {
            b = b + 1;
        }
        sub_vec(s, a, b)
    }
}

/// Lower-cases an ASCII letter, leaves every other character alone.
pub open spec fn lower_char(c: char) -> char {
    if 'A' <= c && c <= 'Z' {
        ((((c as u32) + 32) as u8) as char)
    } else {
        c
    }
}

pub open spec fn lower_seq(s: Seq<char>) -> Seq<char> {
    s.map_values(|c: char| lower_char(c))
}

pub fn to_lower(s: &Vec<char>) -> (r: Vec<char>)
    ensures
        r@ == lower_seq(s@),
{
    let mut r: Vec<char> = Vec::new();
    let mut i: usize = 0;
    while i < s.len()
        invariant
            i <= s@.len(),
            r@.len() == i,
            forall|k: int| 0 <= k < i ==> r@[k] == lower_char(s@[k]),
        decreases s@.len() - i,
    {
        let c = s[i];
        if 'A' <= c && c <= 'Z' {
            r.push((((c as u32) + 32) as u8) as char);
        } else {
            r.push(c);
        }
        i = i + 1;
    }
    proof {
        assert(r@ =~= lower_seq(s@));
    }
    r
}

/// The ISO instant shape `YYYY-MM-DDTHH:MM:SSZ`.
pub open spec fn iso_shaped(s: Seq<char>) -> bool {
    s.len() == 20 && s[4] == '-' && s[7] == '-' && s[10] == 'T' && s[13] == ':' && s[16] == ':'
        && s[19] == 'Z' && is_digit(s[0]) && is_digit(s[1]) && is_digit(s[2]) && is_digit(s[3])
        && is_digit(s[5]) && is_digit(s[6]) && is_digit(s[8]) && is_digit(s[9]) && is_digit(s[11])
        && is_digit(s[12]) && is_digit(s[14]) && is_digit(s[15]) && is_digit(s[17]) && is_digit(
        s[18],
    )
}

/// An ISO `YYYY-MM-DDTHH:MM:SSZ` instant rewritten as `YYYY-MM-DD HH:MM:SS`;
/// any other shape is returned unchanged.
pub open spec fn normalize_time(s: Seq<char>) -> Seq<char> {
    if iso_shaped(s) {
        s.subrange(0, 10) + seq![' '] + s.subrange(11, 19)
    } else {
        s
    }
}

pub fn normalize_time_vec(s: &Vec<char>) -> (r: Vec<char>)
    ensures
        r@ == normalize_time(s@),
{
    let shaped = s.len() == 20 && s[4] == '-' && s[7] == '-' && s[10] == 'T' && s[13] == ':'
        && s[16] == ':' && s[19] == 'Z' && digit_char(s[0]) && digit_char(s[1]) && digit_char(s[2])
        && digit_char(s[3]) && digit_char(s[5]) && digit_char(s[6]) && digit_char(s[8])
        && digit_char(s[9]) && digit_char(s[11]) && digit_char(s[12]) && digit_char(s[14])
        && digit_char(s[15]) && digit_char(s[17]) && digit_char(s[18]);
    if shaped {
        let mut r = sub_vec(s, 0, 10);
        r.push(' ');
        let tail = sub_vec(s, 11, 19);
        let mut i: usize = 0;
        while i < tail.len()
            invariant
                i <= tail@.len(),
                r@ == s@.subrange(0, 10) + seq![' '] + tail@.take(i as int),
                tail@ == s@.subrange(11, 19),
            decreases tail@.len() - i,
        {
            r.push(tail[i]);
            i = i + 1;
            proof {
                assert(r@ =~= s@.subrange(0, 10) + seq![' '] + tail@.take(i as int));
            }
        }
        proof {
            assert(s@.subrange(0, 10) + seq![' '] + tail@.take(tail@.len() as int) =~= normalize_time(
                s@,
            ));
        }
        r
    } else {
        let r = sub_vec(s, 0, s.len());
        proof {
            assert(s@.subrange(0, s@.len() as int) =~= s@);
        }
        r
    }
}

/// Whether `c` is an ASCII digit.
pub fn digit_char(c: char) -> (r: bool)
    ensures
        r == is_digit(c),
{
    '0' <= c && c <= '9'
}

} // verus!
