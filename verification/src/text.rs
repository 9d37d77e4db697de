//! Character-level helpers shared by the validators.

use vstd::prelude::*;

verus! {

/// Whether `c` has the Unicode `White_Space` property: the ASCII tab, line
/// feed, vertical tab, form feed, carriage return and space; next line and
/// no-break space; the Ogham space mark; the en quad to the hair space; the
/// line and paragraph separators; the narrow no-break space, the medium
/// mathematical space, and the ideographic space.
pub open spec fn is_whitespace_char(c: char) -> bool {
    ||| '\u{9}' <= c <= '\u{d}'
    ||| c == ' '
    ||| c == '\u{85}'
    ||| c == '\u{a0}'
    ||| c == '\u{1680}'
    ||| '\u{2000}' <= c <= '\u{200a}'
    ||| c == '\u{2028}'
    ||| c == '\u{2029}'
    ||| c == '\u{202f}'
    ||| c == '\u{205f}'
    ||| c == '\u{3000}'
}

/// Whether `c` is an ASCII letter or digit.
pub open spec fn is_ascii_alphanumeric(c: char) -> bool {
    ||| 'a' <= c <= 'z'
    ||| 'A' <= c <= 'Z'
    ||| '0' <= c <= '9'
}

/// Whether `c`, beyond ASCII, is alphabetic or numeric in Unicode, as
/// `char::is_alphanumeric` answers.
pub uninterp spec fn non_ascii_alphanumeric(c: char) -> bool;

/// Whether `c` is alphabetic or numeric in Unicode, the answer of
/// `char::is_alphanumeric`: in ASCII, exactly the letters and digits.
pub open spec fn is_alphanumeric_char(c: char) -> bool {
    if (c as int) < 128 {
        is_ascii_alphanumeric(c)
    } else {
        non_ascii_alphanumeric(c)
    }
}

/// Whether `c` has the Unicode `White_Space` property, as
/// `char::is_whitespace` answers.
pub(crate) fn char_is_whitespace(c: char) -> (b: bool)
    ensures
        b == is_whitespace_char(c),
{
    ('\u{9}' <= c && c <= '\u{d}') || c == ' ' || c == '\u{85}' || c == '\u{a0}' || c
        == '\u{1680}' || ('\u{2000}' <= c && c <= '\u{200a}') || c == '\u{2028}' || c
        == '\u{2029}' || c == '\u{202f}' || c == '\u{205f}' || c == '\u{3000}'
}

/// Calls `char::is_alphanumeric`, which answers whether `c` is alphabetic
/// or numeric in Unicode. The contract states the ASCII part, the letters and
/// digits, and names the rest.
#[verifier::external_body]
pub(crate) fn char_is_alphanumeric(c: char) -> (b: bool)
    ensures
        b == if (c as int) < 128 {
            is_ascii_alphanumeric(c)
        } else {
            non_ascii_alphanumeric(c)
        },
{
    c.is_alphanumeric()
}

/// The characters of `s`, in order.
pub fn chars_of(s: &str) -> (v: Vec<char>)
    ensures
        v@ == s@,
{
    let mut v: Vec<char> = Vec::new();
    for c in it: s.chars()
        invariant
            v@ == it.seq().take(it.index()),
            it.seq() == s@,
    {
        v.push(c);
    }
    v
}

} // verus!

verus! {

/// Whether `c` is one of the ASCII digits `0` to `9`.
pub open spec fn is_ascii_digit(c: char) -> bool {
    '0' <= c <= '9'
}

/// Whether every character of `s` is an ASCII digit.
pub open spec fn all_ascii_digits(s: Seq<char>) -> bool {
    forall|i: int| 0 <= i < s.len() ==> is_ascii_digit(#[trigger] s[i])
}

/// The value of an ASCII digit.
pub open spec fn digit_value(c: char) -> nat {
    (c as int - '0' as int) as nat
}

/// The value of a run of ASCII digits, read in base ten.
pub open spec fn digits_value(s: Seq<char>) -> nat
    decreases s.len(),
{
    if s.len() == 0 {
        0
    } else {
        digits_value(s.drop_last()) * 10 + digit_value(s.last())
    }
}

/// An integer literal as Rust's integer `FromStr` reads it: an optional `+`
/// or `-`, then at least one ASCII digit. The sign (whether it is `-`) and
/// the digits.
pub open spec fn literal_sign_digits(s: Seq<char>) -> Option<(bool, Seq<char>)> {
    if s.len() > 0 && (s[0] == '-' || s[0] == '+') {
        if s.len() > 1 && all_ascii_digits(s.drop_first()) {
            Some((s[0] == '-', s.drop_first()))
        } else {
            None
        }
    } else if s.len() > 0 && all_ascii_digits(s) {
        Some((false, s))
    } else {
        None
    }
}

/// What `str::parse::<i64>` gives for `s`.
pub open spec fn i64_from_text(s: Seq<char>) -> Option<i64> {
    match literal_sign_digits(s) {
        Some((negative, digits)) => {
            let v: int = if negative {
                -digits_value(digits)
            } else {
                digits_value(digits) as int
            };
            if i64::MIN <= v <= i64::MAX {
                Some(v as i64)
            } else {
                None
            }
        },
        None => None,
    }
}

/// What `str::parse::<u64>` gives for `s`: no `-` sign is accepted.
pub open spec fn u64_from_text(s: Seq<char>) -> Option<u64> {
    match literal_sign_digits(s) {
        Some((negative, digits)) => if !negative && digits_value(digits) <= u64::MAX {
            Some(digits_value(digits) as u64)
        } else {
            None
        },
        None => None,
    }
}

/// What `str::parse::<u32>` gives for `s`: no `-` sign is accepted.
pub open spec fn u32_from_text(s: Seq<char>) -> Option<u32> {
    match literal_sign_digits(s) {
        Some((negative, digits)) => if !negative && digits_value(digits) <= u32::MAX {
            Some(digits_value(digits) as u32)
        } else {
            None
        },
        None => None,
    }
}

/// The largest magnitude `scan_literal` tracks exactly; anything above is
/// reported as this value plus one.
pub open spec fn magnitude_cap() -> nat {
    0x1_0000_0000_0000_0000
}

proof fn lemma_digits_value_grows(s: Seq<char>, c: char)
    ensures
        digits_value(s.push(c)) == digits_value(s) * 10 + digit_value(c),
        digits_value(s.push(c)) >= digits_value(s),
{
    assert(s.push(c).drop_last() =~= s);
}

/// Reads `s` as an integer literal: the sign and the magnitude of its digits,
/// with any magnitude above `magnitude_cap()` reported as `magnitude_cap() + 1`.
fn scan_literal(s: &str) -> (r: Option<(bool, u128)>)
    ensures
        match literal_sign_digits(s@) {
            None => r is None,
            Some((negative, digits)) => {
                &&& r matches Some((n, m))
                &&& n == negative
                &&& digits_value(digits) <= magnitude_cap() ==> m == digits_value(digits)
                &&& digits_value(digits) > magnitude_cap() ==> m == magnitude_cap() + 1
            },
        },
{
    let chars = chars_of(s);
    let len = chars.len();
    if len == 0 {
        return None;
    }
    let first = chars[0];
    let negative = first == '-';
    let start: usize = if first == '-' || first == '+' { 1 } else { 0 };
    if start == len {
        return None;
    }
    let ghost digits = s@.subrange(start as int, len as int);
    let mut magnitude: u128 = 0;
    let mut i: usize = start;
    while i < len
        invariant
            chars@ == s@,
            len == s@.len(),
            start <= i <= len,
            len > 0,
            start < len,
            start == 1 <==> (s@[0] == '-' || s@[0] == '+'),
            start == 0 || start == 1,
            negative == (s@[0] == '-'),
            digits == s@.subrange(start as int, len as int),
            all_ascii_digits(s@.subrange(start as int, i as int)),
            digits_value(s@.subrange(start as int, i as int)) <= magnitude_cap() ==> magnitude
                == digits_value(s@.subrange(start as int, i as int)),
            digits_value(s@.subrange(start as int, i as int)) > magnitude_cap() ==> magnitude
                == magnitude_cap() + 1,
        decreases len - i,
    {
        let c = chars[i];
        let ghost before = s@.subrange(start as int, i as int);
        assert(s@.subrange(start as int, i + 1) =~= before.push(c));
        proof {
            lemma_digits_value_grows(before, c);
        }
        if !('0' <= c && c <= '9') {
            proof {
                assert(s@[i as int] == c);
                assert(!is_ascii_digit(c));
                if start == 1 {
                    assert(s@.drop_first()[i - 1] == c);
                    assert(!all_ascii_digits(s@.drop_first()));
                    assert(literal_sign_digits(s@) is None);
                } else {
                    assert(!(s@[0] == '-' || s@[0] == '+'));
                    assert(!all_ascii_digits(s@));
                    assert(literal_sign_digits(s@) is None);
                }
            }
            return None;
        }
        let d = (c as u32 - '0' as u32) as u128;
        if magnitude > 0x1_0000_0000_0000_0000 {
            magnitude = 0x1_0000_0000_0000_0001;
        } else {
            let next = magnitude * 10 + d;
            if next > 0x1_0000_0000_0000_0000 {
                magnitude = 0x1_0000_0000_0000_0001;
            } else {
                magnitude = next;
            }
        }
        i = i + 1;
    }
    proof {
        if start == 1 {
            assert(s@.drop_first() =~= digits);
        } else {
            assert(s@ =~= digits);
        }
    }
    Some((negative, magnitude))
}

/// Parses `s` as `str::parse::<i64>` does.
pub fn parse_i64_text(s: &str) -> (r: Option<i64>)
    ensures
        r == i64_from_text(s@),
{
    match scan_literal(s) {
        None => None,
        Some((negative, magnitude)) => {
            if negative {
                if magnitude <= 0x8000_0000_0000_0000 {
                    Some((0 - magnitude as i128) as i64)
                } else {
                    None
                }
            } else if magnitude <= 0x7fff_ffff_ffff_ffff {
                Some(magnitude as i64)
            } else {
                None
            }
        },
    }
}

/// Parses `s` as `str::parse::<u64>` does.
pub fn parse_u64_text(s: &str) -> (r: Option<u64>)
    ensures
        r == u64_from_text(s@),
{
    match scan_literal(s) {
        None => None,
        Some((negative, magnitude)) => {
            if !negative && magnitude <= 0xffff_ffff_ffff_ffff {
                Some(magnitude as u64)
            } else {
                None
            }
        },
    }
}

/// Parses `s` as `str::parse::<u32>` does.
pub fn parse_u32_text(s: &str) -> (r: Option<u32>)
    ensures
        r == u32_from_text(s@),
{
    match scan_literal(s) {
        None => None,
        Some((negative, magnitude)) => {
            if !negative && magnitude <= 0xffff_ffff {
                Some(magnitude as u32)
            } else {
                None
            }
        },
    }
}

} // verus!

verus! {

/// The ASCII digit for `d`, which is below ten.
pub open spec fn digit_char(d: nat) -> char {
    ('0' as nat + d) as char
}

/// The base-ten text of `n`, without sign or leading zeros.
pub open spec fn decimal_text(n: nat) -> Seq<char>
    decreases n,
{
    if n < 10 {
        seq![digit_char(n)]
    } else {
        decimal_text(n / 10).push(digit_char(n % 10))
    }
}

/// The digit for `d`, which is below ten, as text.
fn digit_text(d: usize) -> (s: &'static str)
    requires
        d < 10,
    ensures
        s@ == seq![digit_char(d as nat)],
{
    proof {
        reveal_strlit("0");
        reveal_strlit("1");
        reveal_strlit("2");
        reveal_strlit("3");
        reveal_strlit("4");
        reveal_strlit("5");
        reveal_strlit("6");
        reveal_strlit("7");
        reveal_strlit("8");
        reveal_strlit("9");
    }
    match d {
        0 => "0",
        1 => "1",
        2 => "2",
        3 => "3",
        4 => "4",
        5 => "5",
        6 => "6",
        7 => "7",
        8 => "8",
        _ => "9",
    }
}

/// The base-ten text of `n`, as `usize::to_string` writes it.
pub(crate) fn usize_text(n: usize) -> (s: String)
    ensures
        s@ == decimal_text(n as nat),
    decreases n,
{
    if n < 10 {
        owned(digit_text(n))
    } else {
        let mut s = usize_text(n / 10);
        s.append(digit_text(n % 10));
        s
    }
}

/// The text of `s` as an owned `String`.
pub fn owned(s: &str) -> (r: String)
    ensures
        r@ == s@,
{
    let r = s.to_string();
    proof {
        broadcast use vstd::string::to_string_from_display_ensures_for_str;
    }
    r
}

} // verus!

verus! {

/// Whether `s` begins with `prefix`.
pub open spec fn has_prefix(s: Seq<char>, prefix: Seq<char>) -> bool {
    prefix.len() <= s.len() && s.take(prefix.len() as int) == prefix
}

/// Whether `s` begins with `prefix`, as `str::starts_with` answers.
pub fn starts_with(s: &str, prefix: &str) -> (b: bool)
    ensures
        b == has_prefix(s@, prefix@),
{
    let sc = chars_of(s);
    let pc = chars_of(prefix);
    if pc.len() > sc.len() {
        return false;
    }
    let mut i: usize = 0;
    while i < pc.len()
        invariant
            sc@ == s@,
            pc@ == prefix@,
            pc.len() <= sc.len(),
            i <= pc.len(),
            forall|j: int| 0 <= j < i ==> sc@[j] == pc@[j],
        decreases pc.len() - i,
    {
        if sc[i] != pc[i] {
            assert(s@.take(prefix@.len() as int)[i as int] != prefix@[i as int]);
            return false;
        }
        i = i + 1;
    }
    assert(s@.take(prefix@.len() as int) =~= prefix@);
    true
}

/// Whether `a` and `b` hold the same text.
pub fn same_text(a: &str, b: &str) -> (r: bool)
    ensures
        r == (a@ == b@),
{
    let x = owned(a);
    let y = owned(b);
    x == y
}

/// The characters of `s` from `from` up to `to`, as an owned string.
pub fn slice_text(s: &str, from: usize, to: usize) -> (r: String)
    requires
        from <= to <= s@.len(),
    ensures
        r@ == s@.subrange(from as int, to as int),
{
    owned(s.substring_char(from, to))
}

} // verus!
