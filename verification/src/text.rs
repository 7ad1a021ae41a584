//! Numbers as text.
use vstd::prelude::*;

verus! {

/// `String::push` appends one character.
pub assume_specification[ String::push ](text: &mut String, ch: char)
    ensures
        final(text)@ == old(text)@.push(ch),
;

/// The character for a single decimal digit.
pub open spec fn digit(d: nat) -> char {
    if d == 0 {
        '0'
    } else if d == 1 {
        '1'
    } else if d == 2 {
        '2'
    } else if d == 3 {
        '3'
    } else if d == 4 {
        '4'
    } else if d == 5 {
        '5'
    } else if d == 6 {
        '6'
    } else if d == 7 {
        '7'
    } else if d == 8 {
        '8'
    } else {
        '9'
    }
}

/// A number in decimal, without sign or leading zeros.
pub open spec fn decimal(n: nat) -> Seq<char>
    decreases n,
{
    if n < 10 {
        seq![digit(n)]
    } else {
        decimal(n / 10).push(digit(n % 10))
    }
}

/// A number of hundredths as a decimal fraction with two places: `7`
/// reads `0.07`, `250` reads `2.50`.
pub open spec fn two_places(hundredths: nat) -> Seq<char> {
    decimal(hundredths / 100) + seq!['.', digit((hundredths / 10) % 10), digit(hundredths % 10)]
}

/// A number of tenths as a decimal fraction with one place: `955` reads
/// `95.5`.
pub open spec fn one_place(tenths: nat) -> Seq<char> {
    decimal(tenths / 10) + seq!['.', digit(tenths % 10)]
}

/// `part / whole` in units of `1 / scale`, rounded to the nearest unit; a
/// ratio that lies exactly between two units goes to the even one. Zero
/// where `whole` is zero.
pub open spec fn scaled_ratio(part: nat, whole: nat, scale: nat) -> nat {
    if whole == 0 {
        0
    } else {
        let below = (scale * part) / whole;
        let rest = (scale * part) % whole;
        if 2 * rest > whole || (2 * rest == whole && below % 2 == 1) {
            below + 1
        } else {
            below
        }
    }
}

fn digit_char(d: u128) -> (ch: char)
    requires
        d < 10,
    ensures
        ch == digit(d as nat),
{
    if d == 0 {
        '0'
    } else if d == 1 {
        '1'
    } else if d == 2 {
        '2'
    } else if d == 3 {
        '3'
    } else if d == 4 {
        '4'
    } else if d == 5 {
        '5'
    } else if d == 6 {
        '6'
    } else if d == 7 {
        '7'
    } else if d == 8 {
        '8'
    } else {
        '9'
    }
}

/// Appends `n` in decimal.
pub fn push_decimal(out: &mut String, n: u128)
    ensures
        final(out)@ == old(out)@ + decimal(n as nat),
    decreases n,
{
    if n >= 10 {
        push_decimal(out, n / 10);
    }
    out.push(digit_char(n % 10));
    assert(out@ =~= old(out)@ + decimal(n as nat));
}

/// Appends a number of hundredths with two decimal places.
pub fn push_two_places(out: &mut String, hundredths: u128)
    ensures
        final(out)@ == old(out)@ + two_places(hundredths as nat),
{
    push_decimal(out, hundredths / 100);
    out.push('.');
    out.push(digit_char((hundredths / 10) % 10));
    out.push(digit_char(hundredths % 10));
    assert(out@ =~= old(out)@ + two_places(hundredths as nat));
}

/// Appends a number of tenths with one decimal place.
pub fn push_one_place(out: &mut String, tenths: u128)
    ensures
        final(out)@ == old(out)@ + one_place(tenths as nat),
{
    push_decimal(out, tenths / 10);
    out.push('.');
    out.push(digit_char(tenths % 10));
    assert(out@ =~= old(out)@ + one_place(tenths as nat));
}

/// `part / whole` in units of `1 / scale`, rounded to the nearest unit, an
/// exact tie to the even one.
pub fn ratio_scaled(part: usize, whole: usize, scale: u16) -> (units: u128)
    ensures
        units == scaled_ratio(part as nat, whole as nat, scale as nat),
{
    if whole == 0 {
        0
    } else {
        let part: u128 = part as u128;
        let whole: u128 = whole as u128;
        let scale: u128 = scale as u128;
        assert(scale * part <= 0xffff * 0xffff_ffff_ffff_ffff) by (nonlinear_arith)
            requires
                scale <= 0xffff,
                part <= 0xffff_ffff_ffff_ffff,
        ;
        let below = (scale * part) / whole;
        let rest = (scale * part) % whole;
        if 2 * rest > whole || (2 * rest == whole && below % 2 == 1) {
            below + 1
        } else {
            below
        }
    }
}

/// The decimal text of `n`.
pub fn decimal_string(n: usize) -> (text: String)
    ensures
        text@ == decimal(n as nat),
{
    let mut text = String::new();
    push_decimal(&mut text, n as u128);
    assert(text@ =~= decimal(n as nat));
    text
}

} // verus!
