//! Characters, strings and decimal numbers.

use vstd::prelude::*;

verus! {

/// Appends one character to a string.
///
/// Trusted: `String::push` is documented to append the given character to the
/// end of the string and to do nothing else.
#[verifier::external_body]
pub(crate) fn push_char(s: &mut String, c: char)
    ensures
        final(s)@ == old(s)@.push(c),
{
    s.push(c);
}

/// The characters of a string slice, in order.
pub fn chars_of(s: &str) -> (out: Vec<char>)
    ensures
        out@ == s@,
{
    let mut out: Vec<char> = Vec::new();
    for c in it: s.chars()
        invariant
            out@ == it.seq().take(it.index() as int),
            it.seq() == s@,
    {
        out.push(c);
    }
    out
}

/// The string made of the given characters, in order.
pub fn string_of(chars: &Vec<char>) -> (out: String)
    ensures
        out@ == chars@,
{
    let mut out = String::new();
    let mut i: usize = 0;
    while i < chars.len()
        invariant
            i <= chars.len(),
            out@ == chars@.take(i as int),
        decreases chars.len() - i,
    {
        push_char(&mut out, chars[i]);
        i = i + 1;
    }
    out
}

/// Whether `c` is one of the ten ASCII decimal digits.
pub open spec fn is_digit(c: char) -> bool {
    '0' <= c && c <= '9'
}

/// The ASCII digit that stands for `d`, for `d` below ten.
pub open spec fn digit_char(d: nat) -> char {
    ((d + 48) as u8) as char
}

/// The number that the ASCII digit `c` stands for.
pub open spec fn digit_value(c: char) -> nat {
    (c as u8 - 48) as nat
}

/// The decimal digits of a natural number, most significant first, without
/// leading zeros (zero itself is the single digit `0`).
pub open spec fn digits(n: nat) -> Seq<char>
    decreases n,
{
    if n < 10 {
        seq![digit_char(n)]
    } else {
        digits(n / 10).push(digit_char(n % 10))
    }
}

/// The digits that stand before the last digit of a number: the digits of
/// `n`, and nothing for zero.
pub open spec fn high_digits(n: nat) -> Seq<char> {
    if n > 0 {
        digits(n)
    } else {
        Seq::empty()
    }
}

/// The decimal text of an integer: a minus sign for a negative number, then
/// the digits of its magnitude.
pub open spec fn decimal(n: int) -> Seq<char> {
    if n < 0 {
        seq!['-'] + digits((-n) as nat)
    } else {
        digits(n as nat)
    }
}

/// The number that a sequence of digits denotes; leading zeros are allowed.
pub open spec fn digits_value(s: Seq<char>) -> nat
    decreases s.len(),
{
    if s.len() == 0 {
        0
    } else {
        digits_value(s.drop_last()) * 10 + digit_value(s.last())
    }
}

/// Whether every character of `s` is a decimal digit.
pub open spec fn all_digits(s: Seq<char>) -> bool {
    forall|i: int| 0 <= i < s.len() ==> is_digit(#[trigger] s[i])
}

/// The integer that `s` denotes in decimal, if it denotes one: an optional
/// sign (`+` or `-`) followed by at least one digit and nothing else.
pub open spec fn parse_int(s: Seq<char>) -> Option<int> {
    let signed = s.len() > 0 && (s[0] == '-' || s[0] == '+');
    let body = if signed { s.skip(1) } else { s };
    if body.len() == 0 || !all_digits(body) {
        None
    } else if signed && s[0] == '-' {
        Some(-(digits_value(body) as int))
    } else {
        Some(digits_value(body) as int)
    }
}

/// `parse_int` restricted to what fits in an `i64`.
pub open spec fn parse_i64_spec(s: Seq<char>) -> Option<i64> {
    match parse_int(s) {
        Some(v) => if i64::MIN <= v <= i64::MAX { Some(v as i64) } else { None },
        None => None,
    }
}

/// Every character of `digits(n)` is a digit, there is at least one, and
/// together they denote `n`.
pub proof fn lemma_digits(n: nat)
    ensures
        digits(n).len() >= 1,
        all_digits(digits(n)),
        digits_value(digits(n)) == n,
    decreases n,
{
    if n < 10 {
        assert(digits(n).drop_last() =~= Seq::<char>::empty());
        assert(digits_value(digits(n).drop_last()) == 0);
    } else {
        lemma_digits(n / 10);
        assert(digits(n).drop_last() =~= digits(n / 10));
    }
}

/// Reading back the decimal text of an integer gives that integer.
pub proof fn lemma_parse_decimal(n: int)
    ensures
        parse_int(decimal(n)) == Some(n),
{
    if n < 0 {
        let m = (-n) as nat;
        lemma_digits(m);
        assert(decimal(n).skip(1) =~= digits(m));
    } else {
        lemma_digits(n as nat);
        assert(is_digit(digits(n as nat)[0]));
    }
}

/// The decimal text of an integer holds digits and, at most, a minus sign.
pub proof fn lemma_decimal_chars(n: int)
    ensures
        decimal(n).len() >= 1,
        forall|i: int|
            0 <= i < decimal(n).len() ==> is_digit(#[trigger] decimal(n)[i]) || decimal(n)[i]
                == '-',
{
    if n < 0 {
        lemma_digits((-n) as nat);
        assert forall|i: int| 0 <= i < decimal(n).len() implies is_digit(
            #[trigger] decimal(n)[i],
        ) || decimal(n)[i] == '-' by {
            if i > 0 {
                assert(decimal(n)[i] == digits((-n) as nat)[i - 1]);
            }
        }
    } else {
        lemma_digits(n as nat);
    }
}

/// The value of a digit sequence that grows by one digit.
pub proof fn lemma_digits_value_push(s: Seq<char>, c: char)
    ensures
        digits_value(s.push(c)) == digits_value(s) * 10 + digit_value(c),
{
    assert(s.push(c).drop_last() =~= s);
}

/// Reads a decimal integer from the characters `s[start..end]`.
pub fn parse_i64_in(s: &Vec<char>, start: usize, end: usize) -> (out: Option<i64>)
    requires
        start <= end <= s.len(),
    ensures
        out == parse_i64_spec(s@.subrange(start as int, end as int)),
{
    let ghost text = s@.subrange(start as int, end as int);
    let signed = start < end && (s[start] == '-' || s[start] == '+');
    let negative = signed && s[start] == '-';
    let first: usize = if signed { start + 1 } else { start };
    let ghost body = if signed { text.skip(1) } else { text };
    assert(body =~= s@.subrange(first as int, end as int));
    if first == end {
        return None;
    }
    let mut magnitude: u64 = 0;
    let mut overflow = false;
    let mut i: usize = first;
    while i < end
        invariant
            start <= first <= i <= end <= s.len(),
            text == s@.subrange(start as int, end as int),
            signed == (text.len() > 0 && (text[0] == '-' || text[0] == '+')),
            body == (if signed { text.skip(1) } else { text }),
            body == s@.subrange(first as int, end as int),
            all_digits(body.take(i - first)),
            !overflow ==> magnitude == digits_value(body.take(i - first)) && magnitude
                <= 0x8000_0000_0000_0000,
            overflow ==> digits_value(body.take(i - first)) > 0x8000_0000_0000_0000,
        decreases end - i,
    {
        let c = s[i];
        if !(c >= '0' && c <= '9') {
            assert(!is_digit(body[i - first]));
            return None;
        }
        let d: u64 = (c as u8 - 48) as u64;
        proof {
            lemma_digits_value_push(body.take(i - first), c);
            assert(body.take(i - first + 1) =~= body.take(i - first).push(c));
        }
        if !overflow {
            let next: u128 = magnitude as u128 * 10 + d as u128;
            if next > 0x8000_0000_0000_0000 {
                overflow = true;
            } else {
                magnitude = next as u64;
            }
        }
        i = i + 1;
    }
    assert(body.take(i - first) =~= body);
    if overflow {
        None
    } else if negative {
        if magnitude == 0x8000_0000_0000_0000 {
            Some(i64::MIN)
        } else {
            Some(-(magnitude as i64))
        }
    } else if magnitude > 0x7fff_ffff_ffff_ffff {
        None
    } else {
        Some(magnitude as i64)
    }
}

/// Reads a decimal integer: an optional sign, then digits, and nothing else.
pub fn parse_i64(s: &str) -> (out: Option<i64>)
    ensures
        out == parse_i64_spec(s@),
{
    let chars = chars_of(s);
    assert(chars@.subrange(0, chars@.len() as int) =~= chars@);
    parse_i64_in(&chars, 0, chars.len())
}

/// Appends the decimal text of `n` to `out`.
pub fn push_decimal(out: &mut Vec<char>, n: i64)
    ensures
        final(out)@ == old(out)@ + decimal(n as int),
{
    let negative = n < 0;
    let mut rest: u64 = if negative { (-(n as i128)) as u64 } else { n as u64 };
    let ghost magnitude = rest as nat;
    let mut low: Vec<char> = Vec::new();
    low.push((48u8 + (rest % 10) as u8) as char);
    rest = rest / 10;
    while rest > 0
        invariant
            low.len() >= 1,
            digits(magnitude) == high_digits(rest as nat) + low@.reverse(),
        decreases rest,
    {
        let ghost before = low@;
        let ghost digit = digit_char((rest % 10) as nat);
        low.push((48u8 + (rest % 10) as u8) as char);
        assert(low@.reverse() =~= seq![digit] + before.reverse());
        assert(digits(rest as nat) =~= high_digits((rest / 10) as nat).push(digit));
        rest = rest / 10;
        assert(digits(magnitude) =~= high_digits(rest as nat) + low@.reverse());
    }
    assert(digits(magnitude) =~= low@.reverse());
    if negative {
        out.push('-');
    }
    let ghost head = out@;
    let mut i: usize = low.len();
    while i > 0
        invariant
            i <= low.len(),
            out@ == head + low@.reverse().take(low.len() - i),
        decreases i,
    {
        i = i - 1;
        out.push(low[i]);
        assert(low@.reverse().take(low.len() - i) =~= low@.reverse().take(low.len() - i - 1).push(
            low@[i as int],
        ));
    }
    assert(low@.reverse().take(low.len() as int) =~= low@.reverse());
    assert(out@ =~= old(out)@ + decimal(n as int));
}

} // verus!
