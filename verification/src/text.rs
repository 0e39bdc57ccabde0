//! Small string utilities shared by the modules that build display text.

use vstd::prelude::*;

verus! {

/// The character of a decimal digit `d` (`0 <= d < 10`).
pub open spec fn digit_char(d: int) -> char {
    (d + 48) as char
}

/// Decimal representation of `n`, without leading zeros (`"0"` for zero).
pub open spec fn decimal_text(n: nat) -> Seq<char>
    decreases n,
{
    if n < 10 {
        seq![digit_char(n as int)]
    } else {
        decimal_text(n / 10).push(digit_char((n % 10) as int))
    }
}

/// `a` and `b` hold the same characters.
///
/// Trusted: `<str as PartialEq>::eq` compares the two strings character by
/// character, so the result is the equality of their character sequences.
#[verifier::external_body]
pub fn str_eq(a: &str, b: &str) -> (r: bool)
    ensures
        r == (a@ == b@),
{
    a == b
}

/// Appends one character.
///
/// Trusted: `String::push` appends `c` to the end of the string.
#[verifier::external_body]
pub fn push_char(s: &mut String, c: char)
    ensures
        final(s)@ == old(s)@.push(c),
{
    s.push(c)
}

/// An owned copy of `s`.
pub fn owned(s: &str) -> (r: String)
    ensures
        r@ == s@,
{
    String::from_str(s)
}

/// Appends the decimal representation of `n`.
pub fn append_decimal(s: &mut String, n: u128)
    ensures
        final(s)@ == old(s)@ + decimal_text(n as nat),
    decreases n,
{
    if n >= 10 {
        append_decimal(s, n / 10);
    }
    let d: u8 = (n % 10) as u8;
    let c: char = (d + 48u8) as char;
    push_char(s, c);
    proof {
        if n >= 10 {
            assert(decimal_text(n as nat) == decimal_text((n / 10) as nat).push(digit_char((n % 10) as int)));
        }
    }
}

/// `c` is one of `'0'..='9'`.
pub open spec fn is_digit(c: char) -> bool {
    '0' <= c && c <= '9'
}

/// All characters of `s` are ASCII digits.
pub open spec fn all_digits(s: Seq<char>) -> bool {
    forall|i: int| 0 <= i < s.len() ==> is_digit(#[trigger] s[i])
}

/// The value of a string of ASCII digits, read in base 10.
pub open spec fn digits_value(s: Seq<char>) -> nat
    decreases s.len(),
{
    if s.len() == 0 {
        0
    } else {
        digits_value(s.drop_last()) * 10 + ((s.last() as int - 48) as nat)
    }
}

/// The decimal text of `n` is made of ASCII digits, reads back as `n`, and has
/// no leading zero (but for `0` itself); for a `u32`, parsing it gives `n`.
pub proof fn lemma_decimal_text_reads_back(n: nat)
    ensures
        all_digits(decimal_text(n)),
        digits_value(decimal_text(n)) == n,
        decimal_text(n).len() > 0,
        decimal_text(n).len() > 1 ==> decimal_text(n)[0] != '0',
        n <= u32::MAX ==> spec_parse_u32(decimal_text(n)) == Some(n as u32),
    decreases n,
{
    let t = decimal_text(n);
    if n < 10 {
        assert(((n + 48) as char) as int == n + 48);
        assert(t.drop_last() =~= Seq::<char>::empty());
        assert(t.last() == digit_char(n as int));
        assert(digit_char(n as int) as int == n + 48);
        assert(digits_value(t.drop_last()) == 0);
        assert(digits_value(t) == n);
    } else {
        let p = decimal_text(n / 10);
        lemma_decimal_text_reads_back(n / 10);
        let d = (n % 10) as int;
        assert(((d + 48) as char) as int == d + 48);
        assert(t == p.push(digit_char(d)));
        assert(t.drop_last() =~= p);
        assert(t.last() == digit_char(d));
        assert(digit_char(d) as int == d + 48);
        assert(digits_value(t) == digits_value(p) * 10 + d);
        assert((n / 10) * 10 + d == n);
        assert forall|i: int| 0 <= i < t.len() implies is_digit(#[trigger] t[i]) by {
            if i < p.len() {
                assert(t[i] == p[i]);
            }
        }
        assert(t[0] == p[0]);
        if p.len() == 1 {
            assert(n / 10 < 10) by {
                if n / 10 >= 10 {
                    assert(decimal_text(n / 10) == decimal_text(n / 100).push(digit_char((n / 10 % 10) as int)));
                    assert(decimal_text(n / 100).len() > 0) by {
                        lemma_decimal_text_reads_back(n / 100);
                    }
                }
            }
            assert(p[0] == digit_char((n / 10) as int));
            assert((((n / 10) as int + 48) as char) as int == (n / 10) as int + 48);
        }
    }
    if n <= u32::MAX {
        assert(is_digit(t[0]));
        assert(!(t.len() > 0 && t[0] == '+'));
    }
}

/// What `<u32 as FromStr>::from_str` accepts: an optional `+`, then one or more
/// ASCII digits whose value fits in `u32`.
pub open spec fn spec_parse_u32(s: Seq<char>) -> Option<u32> {
    let body = if s.len() > 0 && s[0] == '+' { s.drop_first() } else { s };
    if body.len() > 0 && all_digits(body) && digits_value(body) <= u32::MAX {
        Some(digits_value(body) as u32)
    } else {
        None
    }
}

/// What `<i32 as FromStr>::from_str` accepts: an optional `+` or `-`, then one
/// or more ASCII digits, the signed value fitting in `i32`.
pub open spec fn spec_parse_i32(s: Seq<char>) -> Option<i32> {
    let neg = s.len() > 0 && s[0] == '-';
    let body = if s.len() > 0 && (s[0] == '+' || s[0] == '-') { s.drop_first() } else { s };
    let v: int = if neg { -(digits_value(body) as int) } else { digits_value(body) as int };
    if body.len() > 0 && all_digits(body) && i32::MIN <= v <= i32::MAX {
        Some(v as i32)
    } else {
        None
    }
}

/// Parses a decimal `u32`.
///
/// Trusted: `str::parse::<u32>` (`u32::from_str_radix` in base 10) accepts
/// exactly an optional `+` followed by at least one ASCII digit, with no other
/// character and no overflow.
#[verifier::external_body]
pub fn parse_u32(s: &str) -> (r: Option<u32>)
    ensures
        r == spec_parse_u32(s@),
{
    s.parse::<u32>().ok()
}

/// Parses a decimal `i32`.
///
/// Trusted: `str::parse::<i32>` (`i32::from_str_radix` in base 10) accepts
/// exactly an optional sign followed by at least one ASCII digit, with no other
/// character and no overflow.
#[verifier::external_body]
pub fn parse_i32(s: &str) -> (r: Option<i32>)
    ensures
        r == spec_parse_i32(s@),
{
    s.parse::<i32>().ok()
}

/// The characters of `s`.
///
/// Trusted: `str::chars` yields the characters of the string in order.
#[verifier::external_body]
pub fn chars_of(s: &str) -> (r: Vec<char>)
    ensures
        r@ == s@,
{
    s.chars().collect()
}

/// Whether `p` is a prefix of `s`.
pub fn starts_with_chars(s: &Vec<char>, p: &Vec<char>) -> (r: bool)
    ensures
        r == p@.is_prefix_of(s@),
{
    if p.len() > s.len() {
        return false;
    }
    let mut i: usize = 0;
    while i < p.len()
        invariant
            i <= p@.len() <= s@.len(),
            forall|j: int| 0 <= j < i ==> p@[j] == s@[j],
        decreases p@.len() - i,
    {
        if p[i] != s[i] {
            return false;
        }
        i += 1;
    }
    true
}

/// Whether `p` is a suffix of `s`.
pub fn ends_with_chars(s: &Vec<char>, p: &Vec<char>) -> (r: bool)
    ensures
        r == p@.is_suffix_of(s@),
{
    if p.len() > s.len() {
        return false;
    }
    let off = s.len() - p.len();
    let mut i: usize = 0;
    while i < p.len()
        invariant
            i <= p@.len() <= s@.len(),
            off == s@.len() - p@.len(),
            forall|j: int| 0 <= j < i ==> p@[j] == s@[j + off],
        decreases p@.len() - i,
    {
        assert(off + i < s@.len());
        assert(s@.len() == s.len());
        let k: usize = off + i;
        if p[i] != s[k] {
            return false;
        }
        i += 1;
    }
    proof {
        assert(s@.subrange(off as int, s@.len() as int) =~= p@);
    }
    true
}

} // verus!
