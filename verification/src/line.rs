//! The line that a logged number makes.
use vstd::prelude::*;

verus! {

/// The character of the decimal digit `d`.
pub open spec fn digit_char(d: int) -> char
    recommends
        0 <= d < 10,
{
    if d == 1 {
        '1'
    } else if d == 2 {
        '2'
    } else if d == 3 {
        '3'
    } else if d == 4 {
        '4'
    } else if d == 5 {
        '5'
    } else if d == 6 {
        '6'
    } else if d == 7 {
        '7'
    } else if d == 8 {
        '8'
    } else if d == 9 {
        '9'
    } else {
        '0'
    }
}

/// The decimal digits of `n`, the most significant first, with no leading
/// zero but for zero itself.
pub open spec fn digits(n: nat) -> Seq<char>
    decreases n,
{
    if n < 10 {
        seq![digit_char(n as int)]
    } else {
        digits(n / 10).push(digit_char((n % 10) as int))
    }
}

/// `n` in decimal: a minus sign where it is negative, then its digits.
pub open spec fn decimal(n: int) -> Seq<char> {
    if n < 0 {
        seq!['-'] + digits((-n) as nat)
    } else {
        digits(n as nat)
    }
}

/// Calls [`String::push`]. Trusted: the text afterwards is the text before
/// with the character at its end.
#[verifier::external_body]
fn push_char(text: &mut String, c: char)
    ensures
        final(text)@ == old(text)@.push(c),
{
    text.push(c)
}

/// The character of one decimal digit.
fn digit_of(d: u32) -> (c: char)
    requires
        d < 10,
    ensures
        c == digit_char(d as int),
{
    if d == 1 {
        '1'
    } else if d == 2 {
        '2'
    } else if d == 3 {
        '3'
    } else if d == 4 {
        '4'
    } else if d == 5 {
        '5'
    } else if d == 6 {
        '6'
    } else if d == 7 {
        '7'
    } else if d == 8 {
        '8'
    } else if d == 9 {
        '9'
    } else {
        '0'
    }
}

/// Appends the decimal digits of `n` to `text`.
fn push_digits(text: &mut String, n: u32)
    ensures
        final(text)@ == old(text)@ + digits(n as nat),
    decreases n,
{
    let ghost before = text@;
    if n >= 10 {
        push_digits(text, n / 10);
    }
    push_char(text, digit_of(n % 10));
    assert(text@ =~= before + digits(n as nat));
}

/// The line that logging `x` writes: a fixed label, then `x` in decimal.
pub fn number_line(x: i32) -> (line: String)
    ensures
        line@ == "Wasm log: "@ + decimal(x as int),
{
    let mut line = String::from_str("Wasm log: ");
    let ghost label = line@;
    let magnitude: u32 = if x < 0 {
        push_char(&mut line, '-');
        (-(x as i64)) as u32
    } else {
        x as u32
    };
    push_digits(&mut line, magnitude);
    assert(line@ =~= label + decimal(x as int));
    line
}

} // verus!
