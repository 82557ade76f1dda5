//! Text building blocks: numerals written and read, white space, and the
//! characters of a string.

use vstd::prelude::*;
use vstd::string::StringExecFns;

verus! {

/// The character of a digit below sixteen, lower case.
pub open spec fn digit_char(d: nat) -> char {
    if d == 0 { '0' } else if d == 1 { '1' } else if d == 2 { '2' } else if d == 3 { '3' }
    else if d == 4 { '4' } else if d == 5 { '5' } else if d == 6 { '6' } else if d == 7 { '7' }
    else if d == 8 { '8' } else if d == 9 { '9' } else if d == 10 { 'a' } else if d == 11 { 'b' }
    else if d == 12 { 'c' } else if d == 13 { 'd' } else if d == 14 { 'e' } else { 'f' }
}

/// The decimal numeral of `n`, without leading zeros.
pub open spec fn decimal(n: nat) -> Seq<char>
    decreases n,
{
    if n < 10 {
        seq![digit_char(n)]
    } else {
        decimal(n / 10).push(digit_char(n % 10))
    }
}

/// The lower-case hexadecimal numeral of `n`, without leading zeros.
pub open spec fn hexadecimal(n: nat) -> Seq<char>
    decreases n,
{
    if n < 16 {
        seq![digit_char(n)]
    } else {
        hexadecimal(n / 16).push(digit_char(n % 16))
    }
}

/// The character of a digit below sixteen, as text.
pub fn digit(d: u8) -> (text: &'static str)
    requires
        d < 16,
    ensures
        text@ == seq![digit_char(d as nat)],
{
    proof {
        reveal_strlit("0");
        reveal_strlit("1");
        reveal_strlit("2");
        reveal_strlit("3");
        reveal_strlit("4");
        reveal_strlit("5");
        reveal_strlit("6");
        reveal_strlit("7");
        reveal_strlit("8");
        reveal_strlit("9");
        reveal_strlit("a");
        reveal_strlit("b");
        reveal_strlit("c");
        reveal_strlit("d");
        reveal_strlit("e");
        reveal_strlit("f");
    }
    let text = if d == 0 {
        "0"
    } else if d == 1 {
        "1"
    } else if d == 2 {
        "2"
    } else if d == 3 {
        "3"
    } else if d == 4 {
        "4"
    } else if d == 5 {
        "5"
    } else if d == 6 {
        "6"
    } else if d == 7 {
        "7"
    } else if d == 8 {
        "8"
    } else if d == 9 {
        "9"
    } else if d == 10 {
        "a"
    } else if d == 11 {
        "b"
    } else if d == 12 {
        "c"
    } else if d == 13 {
        "d"
    } else if d == 14 {
        "e"
    } else {
        "f"
    };
    assert(text@ =~= seq![digit_char(d as nat)]);
    text
}

/// Appends the decimal numeral of `n`.
pub fn push_decimal(s: &mut String, n: u64)
    ensures
        final(s)@ == old(s)@ + decimal(n as nat),
    decreases n,
{
    if n >= 10 {
        push_decimal(s, n / 10);
    }
    s.append(digit((n % 10) as u8));
    assert(s@ =~= old(s)@ + decimal(n as nat));
}

/// Appends the lower-case hexadecimal numeral of `n`.
pub fn push_hexadecimal(s: &mut String, n: u16)
    ensures
        final(s)@ == old(s)@ + hexadecimal(n as nat),
    decreases n,
{
    if n >= 16 {
        push_hexadecimal(s, n / 16);
    }
    s.append(digit((n % 16) as u8));
    assert(s@ =~= old(s)@ + hexadecimal(n as nat));
}

/// The characters of a string, in order.
pub fn chars_of(s: &str) -> (v: Vec<char>)
    ensures
        v@ == s@,
{
    broadcast use vstd::string::group_string_axioms;

    let mut v: Vec<char> = Vec::new();
    for c in it: s.chars()
        invariant
            it.seq() == s@,
            v@ == it.seq().take(it.index()),
    {
        v.push(c);
    }
    v
}

// ---------------------------------------------------------------------------
// White space
// ---------------------------------------------------------------------------

/// Whether a character is white space: one of the characters with the
/// Unicode property White_Space.
pub open spec fn is_whitespace_spec(c: char) -> bool {
    let n = c as u32;
    (0x09 <= n <= 0x0d) || n == 0x20 || n == 0x85 || n == 0xa0 || n == 0x1680 || (0x2000 <= n
        <= 0x200a) || n == 0x2028 || n == 0x2029 || n == 0x202f || n == 0x205f || n == 0x3000
}

/// The text without the white space that it starts with.
pub open spec fn trim_start(s: Seq<char>) -> Seq<char>
    decreases s.len(),
{
    if s.len() > 0 && is_whitespace_spec(s[0]) {
        trim_start(s.drop_first())
    } else {
        s
    }
}

/// The text without the white space that it ends with.
pub open spec fn trim_end(s: Seq<char>) -> Seq<char>
    decreases s.len(),
{
    if s.len() > 0 && is_whitespace_spec(s.last()) {
        trim_end(s.drop_last())
    } else {
        s
    }
}

/// The text without the white space around it.
pub open spec fn trimmed(s: Seq<char>) -> Seq<char> {
    trim_end(trim_start(s))
}

/// Whether a character is white space.
#[verifier::when_used_as_spec(is_whitespace_spec)]
pub fn is_whitespace(c: char) -> (r: bool)
    ensures
        r == is_whitespace_spec(c),
{
    let n: u32 = c as u32;
    (0x09 <= n && n <= 0x0d) || n == 0x20 || n == 0x85 || n == 0xa0 || n == 0x1680 || (0x2000 <= n
        && n <= 0x200a) || n == 0x2028 || n == 0x2029 || n == 0x202f || n == 0x205f || n == 0x3000
}

/// The characters without the white space around them.
pub fn trim_chars(chars: &Vec<char>) -> (inner: Vec<char>)
    ensures
        inner@ == trimmed(chars@),
{
    let mut lo: usize = 0;
    assert(chars@.skip(0) =~= chars@);
    while lo < chars.len() && is_whitespace(chars[lo])
        invariant
            lo <= chars@.len(),
            trim_start(chars@) == trim_start(chars@.skip(lo as int)),
        decreases chars@.len() - lo,
    {
        assert(chars@.skip(lo as int).drop_first() =~= chars@.skip(lo + 1));
        lo += 1;
    }
    assert(trim_start(chars@) == chars@.skip(lo as int));
    let mut hi: usize = chars.len();
    assert(chars@.subrange(lo as int, hi as int) =~= chars@.skip(lo as int));
    while hi > lo && is_whitespace(chars[hi - 1])
        invariant
            lo <= hi <= chars@.len(),
            trimmed(chars@) == trim_end(chars@.subrange(lo as int, hi as int)),
        decreases hi,
    {
        assert(chars@.subrange(lo as int, hi as int).drop_last() =~= chars@.subrange(
            lo as int,
            hi - 1,
        ));
        hi -= 1;
    }
    let mut inner: Vec<char> = Vec::new();
    let mut i: usize = lo;
    while i < hi
        invariant
            lo <= i <= hi <= chars@.len(),
            inner@ == chars@.subrange(lo as int, i as int),
        decreases hi - i,
    {
        inner.push(chars[i]);
        assert(inner@ =~= chars@.subrange(lo as int, i + 1));
        i += 1;
    }
    inner
}

// ---------------------------------------------------------------------------
// Reading numerals
// ---------------------------------------------------------------------------

/// Whether a character is a decimal digit.
pub open spec fn is_digit_spec(c: char) -> bool {
    0x30 <= c as u32 <= 0x39
}

/// The value of a decimal digit.
pub open spec fn digit_value(c: char) -> nat {
    (c as u32 - 0x30) as nat
}

/// The value of a sequence of decimal digits; zero for none.
pub open spec fn digits_value(s: Seq<char>) -> nat
    decreases s.len(),
{
    if s.len() == 0 {
        0
    } else {
        digits_value(s.drop_last()) * 10 + digit_value(s.last())
    }
}

/// Whether every character is a decimal digit.
pub open spec fn all_digits(s: Seq<char>) -> bool {
    forall|i: int| 0 <= i < s.len() ==> is_digit_spec(#[trigger] s[i])
}

/// The text without the plus sign that may come first.
pub open spec fn unsigned_part(s: Seq<char>) -> Seq<char> {
    if s.len() > 0 && s[0] == '+' {
        s.drop_first()
    } else {
        s
    }
}

/// Whether the text is a numeral: one or more decimal digits, with or
/// without a plus sign before them.
pub open spec fn is_numeral(s: Seq<char>) -> bool {
    unsigned_part(s).len() > 0 && all_digits(unsigned_part(s))
}

/// The value of a numeral.
pub open spec fn numeral_value(s: Seq<char>) -> nat {
    digits_value(unsigned_part(s))
}

/// What reading a numeral gives.
#[derive(PartialEq, Eq, Structural, Clone, Copy, Debug)]
pub enum Numeral {
    /// The value of the numeral.
    Value(u64),
    /// The text is a numeral, and its value is above the limit.
    TooLarge,
    /// The text is no numeral.
    Malformed,
}

/// What reading the text as a numeral of at most `max` gives.
pub open spec fn read_numeral_spec(s: Seq<char>, max: u64) -> Numeral {
    if !is_numeral(s) {
        Numeral::Malformed
    } else if numeral_value(s) > max {
        Numeral::TooLarge
    } else {
        Numeral::Value(numeral_value(s) as u64)
    }
}

/// Reads the characters from `from` up to `to` as a numeral of at most
/// `max`.
#[verifier::loop_isolation(false)]
pub fn read_numeral(chars: &Vec<char>, from: usize, to: usize, max: u64) -> (r: Numeral)
    requires
        from <= to <= chars@.len(),
    ensures
        r == read_numeral_spec(chars@.subrange(from as int, to as int), max),
{
    let ghost s = chars@.subrange(from as int, to as int);
    let mut i: usize = from;
    if i < to && chars[i] == '+' {
        i += 1;
    }
    let first: usize = i;
    assert(unsigned_part(s) =~= chars@.subrange(first as int, to as int));
    if first == to {
        return Numeral::Malformed;
    }
    let mut value: u128 = 0;
    let mut too_large = false;
    assert(chars@.subrange(first as int, first as int) =~= Seq::<char>::empty());
    while i < to
        invariant
            first <= i <= to <= chars@.len(),
            first < to,
            unsigned_part(s) == chars@.subrange(first as int, to as int),
            all_digits(chars@.subrange(first as int, i as int)),
            !too_large ==> value == digits_value(chars@.subrange(first as int, i as int))
                && value <= max,
            too_large ==> digits_value(chars@.subrange(first as int, i as int)) > max,
        decreases to - i,
    {
        let n: u32 = chars[i] as u32;
        if n < 0x30 || n > 0x39 {
            proof {
                assert(unsigned_part(s)[i - first] == chars@[i as int]);
                assert(!is_digit_spec(unsigned_part(s)[i - first]));
            }
            return Numeral::Malformed;
        }
        proof {
            let next = chars@.subrange(first as int, i + 1);
            assert(next.drop_last() =~= chars@.subrange(first as int, i as int));
            assert(next.last() == chars@[i as int]);
            assert forall|j: int| 0 <= j < next.len() implies is_digit_spec(#[trigger] next[j]) by {
                if j < i - first {
                    assert(chars@.subrange(first as int, i as int)[j] == next[j]);
                }
            }
        }
        if !too_large {
            value = value * 10 + (n - 0x30) as u128;
            if value > max as u128 {
                too_large = true;
            }
        }
        i += 1;
    }
    if too_large {
        Numeral::TooLarge
    } else {
        Numeral::Value(value as u64)
    }
}

} // verus!
