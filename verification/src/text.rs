//! Character-level helpers shared by the parsers: digit tests, ASCII case
//! folding, Unicode whitespace trimming and conversions between `String`
//! and its characters.

use vstd::prelude::*;

verus! {

/// An ASCII decimal digit.
pub open spec fn is_digit(c: char) -> bool {
    '0' <= c && c <= '9'
}

/// ASCII lower-casing: `A`..=`Z` become `a`..=`z`, every other character
/// is unchanged.
pub open spec fn lower(c: char) -> char {
    if 'A' <= c && c <= 'Z' {
        ((c as u32) + 32) as char
    } else {
        c
    }
}

/// ASCII lower-casing of every character of `s`.
pub open spec fn lower_seq(s: Seq<char>) -> Seq<char> {
    s.map_values(|c: char| lower(c))
}

/// The Unicode `White_Space` property, which `char::is_whitespace` reports:
/// the 25 code points U+0009 to U+000D, U+0020, U+0085, U+00A0, U+1680,
/// U+2000 to U+200A, U+2028, U+2029, U+202F, U+205F and U+3000.
pub open spec fn is_white_space(c: char) -> bool {
    let x = c as u32;
    ||| 0x09 <= x <= 0x0D
    ||| x == 0x20
    ||| x == 0x85
    ||| x == 0xA0
    ||| x == 0x1680
    ||| 0x2000 <= x <= 0x200A
    ||| x == 0x2028
    ||| x == 0x2029
    ||| x == 0x202F
    ||| x == 0x205F
    ||| x == 0x3000
}

/// `s` without its leading whitespace.
pub open spec fn trim_start_seq(s: Seq<char>) -> Seq<char>
    decreases s.len(),
{
    if s.len() > 0 && is_white_space(s[0]) {
        trim_start_seq(s.drop_first())
    } else {
        s
    }
}

/// `s` without its trailing whitespace.
pub open spec fn trim_end_seq(s: Seq<char>) -> Seq<char>
    decreases s.len(),
{
    if s.len() > 0 && is_white_space(s.last()) {
        trim_end_seq(s.drop_last())
    } else {
        s
    }
}

/// `s` without leading and trailing whitespace, as `str::trim` gives it.
pub open spec fn trim_seq(s: Seq<char>) -> Seq<char> {
    trim_end_seq(trim_start_seq(s))
}

/// Whether `c` has the Unicode `White_Space` property, as
/// `char::is_whitespace` decides it.
pub(crate) fn char_is_whitespace(c: char) -> (r: bool)
    ensures
        r == is_white_space(c),
{
    let x = c as u32;
    (0x09 <= x && x <= 0x0D) || x == 0x20 || x == 0x85 || x == 0xA0 || x == 0x1680 || (0x2000 <= x && x
        <= 0x200A) || x == 0x2028 || x == 0x2029 || x == 0x202F || x == 0x205F || x == 0x3000
}

/// `String::from_iter` over characters: the string made of `v`, in order.
#[verifier::external_body]
pub(crate) fn string_from_chars(v: &[char]) -> (s: String)
    ensures
        s@ == v@,
{
    v.iter().collect::<String>()
}

pub fn is_digit_char(c: char) -> (r: bool)
    ensures
        r == is_digit(c),
{
    '0' <= c && c <= '9'
}

/// The numeric value of a decimal digit.
pub open spec fn digit_value(c: char) -> nat {
    ((c as u32) - ('0' as u32)) as nat
}

pub fn digit_value_of(c: char) -> (d: u64)
    requires
        is_digit(c),
    ensures
        d == digit_value(c),
        d <= 9,
{
    ((c as u32) - ('0' as u32)) as u64
}

pub fn lower_char(c: char) -> (r: char)
    ensures
        r == lower(c),
{
    if 'A' <= c && c <= 'Z' {
        (((c as u32) + 32) as u8) as char
    } else {
        c
    }
}

/// The characters of `s`, in order.
pub fn chars_of(s: &str) -> (v: Vec<char>)
    ensures
        v@ == s@,
{
    broadcast use vstd::string::group_string_axioms;

    let mut v: Vec<char> = Vec::new();
    for c in it: s.chars()
        invariant
            v@ == it.seq().take(it.index() as int),
            it.seq() == s@,
    {
        v.push(c);
    }
    v
}

/// Whether two character sequences are equal.
pub fn chars_equal(a: &[char], b: &[char]) -> (r: bool)
    ensures
        r == (a@ == b@),
{
    if a.len() != b.len() {
        return false;
    }
    let mut i: usize = 0;
    while i < a.len()
        invariant
            a.len() == b.len(),
            i <= a.len(),
            forall|k: int| 0 <= k < i ==> a@[k] == b@[k],
        decreases a.len() - i,
    {
        if a[i] != b[i] {
            return false;
        }
        i = i + 1;
    }
    assert(a@ =~= b@);
    true
}

/// Whether the characters `v` spell the string `s`.
pub fn chars_equal_str(v: &[char], s: &str) -> (r: bool)
    ensures
        r == (v@ == s@),
{
    let w = chars_of(s);
    chars_equal(v, w.as_slice())
}

/// Position of the first non-whitespace character of `s[lo..hi]`, or `hi`.
fn skip_white_forward(s: &[char], lo: usize, hi: usize) -> (k: usize)
    requires
        lo <= hi <= s.len(),
    ensures
        lo <= k <= hi,
        trim_start_seq(s@.subrange(lo as int, hi as int)) == s@.subrange(k as int, hi as int),
{
    let mut k = lo;
    while k < hi && char_is_whitespace(s[k])
        invariant
            lo <= k <= hi <= s.len(),
            trim_start_seq(s@.subrange(lo as int, hi as int)) == trim_start_seq(
                s@.subrange(k as int, hi as int),
            ),
        decreases hi - k,
    {
        assert(s@.subrange(k as int, hi as int).drop_first() =~= s@.subrange(
            k + 1,
            hi as int,
        ));
        k = k + 1;
    }
    k
}

/// Position just after the last non-whitespace character of `s[lo..hi]`,
/// or `lo`.
fn skip_white_backward(s: &[char], lo: usize, hi: usize) -> (k: usize)
    requires
        lo <= hi <= s.len(),
    ensures
        lo <= k <= hi,
        trim_end_seq(s@.subrange(lo as int, hi as int)) == s@.subrange(lo as int, k as int),
{
    let mut k = hi;
    while k > lo && char_is_whitespace(s[k - 1])
        invariant
            lo <= k <= hi <= s.len(),
            trim_end_seq(s@.subrange(lo as int, hi as int)) == trim_end_seq(
                s@.subrange(lo as int, k as int),
            ),
        decreases k - lo,
    {
        assert(s@.subrange(lo as int, k as int).drop_last() =~= s@.subrange(
            lo as int,
            k - 1,
        ));
        k = k - 1;
    }
    k
}

/// `s[lo..hi]` trimmed of whitespace at both ends, as `str::trim` would.
pub fn trim_range(s: &[char], lo: usize, hi: usize) -> (r: Vec<char>)
    requires
        lo <= hi <= s.len(),
    ensures
        r@ == trim_seq(s@.subrange(lo as int, hi as int)),
{
    let a = skip_white_forward(s, lo, hi);
    let b = skip_white_backward(s, a, hi);
    let mut r: Vec<char> = Vec::new();
    let mut k = a;
    while k < b
        invariant
            a <= k <= b <= hi <= s.len(),
            r@ == s@.subrange(a as int, k as int),
        decreases b - k,
    {
        r.push(s[k]);
        k = k + 1;
        assert(r@ =~= s@.subrange(a as int, k as int));
    }
    r
}

/// All of `s` trimmed of whitespace at both ends.
pub fn trim_chars(s: &[char]) -> (r: Vec<char>)
    ensures
        r@ == trim_seq(s@),
{
    assert(s@.subrange(0, s@.len() as int) =~= s@);
    trim_range(s, 0, s.len())
}

/// ASCII lower-casing of every character of `s`.
pub fn lower_chars(s: &[char]) -> (r: Vec<char>)
    ensures
        r@ == lower_seq(s@),
{
    let mut r: Vec<char> = Vec::new();
    let mut k: usize = 0;
    while k < s.len()
        invariant
            k <= s.len(),
            r@ == lower_seq(s@.take(k as int)),
        decreases s.len() - k,
    {
        r.push(lower_char(s[k]));
        k = k + 1;
        assert(r@ =~= lower_seq(s@.take(k as int)));
    }
    assert(s@.take(s@.len() as int) =~= s@);
    r
}


/// The first `n` characters of `s`.
pub fn prefix(s: &[char], n: usize) -> (r: Vec<char>)
    requires
        n <= s.len(),
    ensures
        r@ == s@.take(n as int),
{
    let mut r: Vec<char> = Vec::new();
    let mut k: usize = 0;
    while k < n
        invariant
            k <= n <= s.len(),
            r@ == s@.take(k as int),
        decreases n - k,
    {
        r.push(s[k]);
        k = k + 1;
        assert(r@ =~= s@.take(k as int));
    }
    r
}


/// The character of a decimal digit value.
pub open spec fn digit_char(d: int) -> char {
    (d + 48) as char
}

/// The decimal digits of `x`, without leading zeros (`0` for zero).
pub open spec fn decimal_digits(x: nat) -> Seq<char>
    decreases x,
{
    if x < 10 {
        seq![digit_char(x as int)]
    } else {
        decimal_digits(x / 10).push(digit_char((x % 10) as int))
    }
}

/// `x` written in decimal, with a minus sign when negative, as `Display`
/// writes integers.
pub open spec fn decimal(x: int) -> Seq<char> {
    if x < 0 {
        seq!['-'] + decimal_digits((-x) as nat)
    } else {
        decimal_digits(x as nat)
    }
}

fn digit_to_char(d: u64) -> (c: char)
    requires
        d < 10,
    ensures
        c == digit_char(d as int),
{
    ((d as u8) + 48) as char
}

/// The decimal digits of `x`.
pub fn decimal_digits_of(x: u64) -> (s: Vec<char>)
    ensures
        s@ == decimal_digits(x as nat),
    decreases x,
{
    if x < 10 {
        let mut s: Vec<char> = Vec::new();
        s.push(digit_to_char(x));
        s
    } else {
        let mut s = decimal_digits_of(x / 10);
        s.push(digit_to_char(x % 10));
        s
    }
}

/// `x` written in decimal.
pub fn decimal_string(x: i64) -> (s: String)
    ensures
        s@ == decimal(x as int),
{
    if x < 0 {
        let mag: u64 = if x == i64::MIN {
            9223372036854775808u64
        } else {
            (-x) as u64
        };
        let digits = decimal_digits_of(mag);
        let mut all: Vec<char> = Vec::new();
        all.push('-');
        let mut k: usize = 0;
        while k < digits.len()
            invariant
                k <= digits.len(),
                all@ == seq!['-'] + digits@.take(k as int),
            decreases digits.len() - k,
        {
            all.push(digits[k]);
            k = k + 1;
            assert(all@ =~= seq!['-'] + digits@.take(k as int));
        }
        assert(digits@.take(digits.len() as int) =~= digits@);
        string_from_chars(all.as_slice())
    } else {
        let digits = decimal_digits_of(x as u64);
        string_from_chars(digits.as_slice())
    }
}

} // verus!
