//! Building the text of error messages: words and decimal numbers.

use vstd::prelude::*;

verus! {

/// `String::push_str`: the standard library documents that it appends the
/// string slice to the end of the string.
#[verifier::external_body]
pub(crate) fn string_push_str(s: &mut String, t: &str)
    ensures
        final(s)@ == old(s)@ + t@,
{
    s.push_str(t);
}

/// `String::push`: the standard library documents that it appends the
/// character to the end of the string.
#[verifier::external_body]
pub(crate) fn string_push(s: &mut String, c: char)
    ensures
        final(s)@ == old(s)@.push(c),
{
    s.push(c);
}

/// The decimal digit of `d % 10`.
pub open spec fn digit_char(d: nat) -> char {
    ((48 + d % 10) as u8) as char
}

/// The decimal digits of `n`, without leading zeros (`0` for zero).
pub open spec fn decimal(n: nat) -> Seq<char>
    decreases n,
{
    if n < 10 {
        seq![digit_char(n)]
    } else {
        decimal(n / 10).push(digit_char(n))
    }
}

/// The decimal text of an integer, with `-` in front of a negative one.
pub open spec fn signed_decimal(n: int) -> Seq<char> {
    if n < 0 {
        seq!['-'] + decimal((-n) as nat)
    } else {
        decimal(n as nat)
    }
}

/// Appends the decimal digits of `n`.
pub fn push_decimal(s: &mut String, n: u64)
    ensures
        final(s)@ == old(s)@ + decimal(n as nat),
    decreases n,
{
    if n >= 10 {
        push_decimal(s, n / 10);
    }
    let d: u8 = (n % 10) as u8;
    let c: char = (48u8 + d) as char;
    assert(c == digit_char(n as nat));
    string_push(s, c);
    assert(decimal(n as nat) == if n < 10 { seq![digit_char(n as nat)] } else { decimal((n / 10) as nat).push(
        digit_char(n as nat),
    ) });
    assert(seq![digit_char(n as nat)] =~= Seq::<char>::empty().push(digit_char(n as nat)));
}

/// Appends the decimal text of `n`, with `-` in front when negative.
pub fn push_signed(s: &mut String, n: i64)
    ensures
        final(s)@ == old(s)@ + signed_decimal(n as int),
{
    if n < 0 {
        string_push(s, '-');
        let m: u64 = if n == i64::MIN {
            9223372036854775808u64
        } else {
            (-n) as u64
        };
        push_decimal(s, m);
        assert(seq!['-'] + decimal(m as nat) =~= Seq::<char>::empty().push('-') + decimal(m as nat));
    } else {
        push_decimal(s, n as u64);
    }
}

/// The text `a`, the decimal digits of `n`, then `b`.
pub fn text_num(a: &str, n: u64, b: &str) -> (s: String)
    ensures
        s@ == a@ + decimal(n as nat) + b@,
{
    let mut s = String::new();
    string_push_str(&mut s, a);
    push_decimal(&mut s, n);
    string_push_str(&mut s, b);
    assert(Seq::<char>::empty() + a@ =~= a@);
    s
}

/// The text `a`, `n`, `b`, `m`, then `c`, the numbers in decimal.
pub fn text_num2(a: &str, n: u64, b: &str, m: u64, c: &str) -> (s: String)
    ensures
        s@ == a@ + decimal(n as nat) + b@ + decimal(m as nat) + c@,
{
    let mut s = text_num(a, n, b);
    push_decimal(&mut s, m);
    string_push_str(&mut s, c);
    s
}

/// The text `a`, `t`, then `b`.
pub fn text_str(a: &str, t: &str, b: &str) -> (s: String)
    ensures
        s@ == a@ + t@ + b@,
{
    let mut s = String::new();
    string_push_str(&mut s, a);
    string_push_str(&mut s, t);
    string_push_str(&mut s, b);
    assert(Seq::<char>::empty() + a@ =~= a@);
    s
}

} // verus!
