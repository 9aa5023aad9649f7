//! Text shown for times and counters.

use vstd::prelude::*;

verus! {

/// The decimal digit for `d` (`0 <= d < 10`).
pub open spec fn digit_char(d: int) -> char {
    if d == 0 {
        '0'
    } else if d == 1 {
        '1'
    } else if d == 2 {
        '2'
    } else if d == 3 {
        '3'
    } else if d == 4 {
        '4'
    } else if d == 5 {
        '5'
    } else if d == 6 {
        '6'
    } else if d == 7 {
        '7'
    } else if d == 8 {
        '8'
    } else {
        '9'
    }
}

/// `n` written in decimal, without leading zeros.
pub open spec fn decimal(n: nat) -> Seq<char>
    decreases n,
{
    if n < 10 {
        seq![digit_char(n as int)]
    } else {
        decimal(n / 10).push(digit_char((n % 10) as int))
    }
}

/// `m:ss`, the way a track length is shown.
pub open spec fn duration_text(ms: u64) -> Seq<char> {
    let secs = ms / 1000;
    let s = secs % 60;
    decimal((secs / 60) as nat) + seq![':', digit_char((s / 10) as int), digit_char((s % 10) as int)]
}

fn digit(d: u64) -> (c: char)
    requires
        d < 10,
    ensures
        c == digit_char(d as int),
{
    if d == 0 {
        '0'
    } else if d == 1 {
        '1'
    } else if d == 2 {
        '2'
    } else if d == 3 {
        '3'
    } else if d == 4 {
        '4'
    } else if d == 5 {
        '5'
    } else if d == 6 {
        '6'
    } else if d == 7 {
        '7'
    } else if d == 8 {
        '8'
    } else {
        '9'
    }
}

/// Appends the decimal digits of `n` to `out`.
pub fn push_decimal(out: &mut Vec<char>, n: u64)
    ensures
        final(out)@ == old(out)@ + decimal(n as nat),
    decreases n,
{
    if n < 10 {
        out.push(digit(n));
    } else {
        push_decimal(out, n / 10);
        out.push(digit(n % 10));
        assert(old(out)@ + decimal((n / 10) as nat) + seq![digit_char((n % 10) as int)] == old(
            out,
        )@ + decimal(n as nat));
    }
}

/// Formats milliseconds as `m:ss`.
pub fn format_duration(ms: u64) -> (text: String)
    ensures
        text@ == duration_text(ms),
{
    let secs = ms / 1000;
    let mut out: Vec<char> = Vec::new();
    push_decimal(&mut out, secs / 60);
    out.push(':');
    out.push(digit(secs % 60 / 10));
    out.push(digit(secs % 60 % 10));
    assert(out@ == duration_text(ms));
    crate::text::string_from_chars(&out, 0, out.len())
}

/// `n` as decimal text.
pub fn decimal_string(n: u64) -> (text: String)
    ensures
        text@ == decimal(n as nat),
{
    let mut out: Vec<char> = Vec::new();
    push_decimal(&mut out, n);
    assert(out@ == decimal(n as nat));
    crate::text::string_from_chars(&out, 0, out.len())
}

} // verus!
