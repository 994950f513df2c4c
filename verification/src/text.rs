//! Text that the library writes: decimal numbers and hexadecimal digits.
use vstd::prelude::*;

verus! {

/// `String::push`: appends the character `c` to `s`.
pub assume_specification[ String::push ](s: &mut String, c: char)
    ensures
        final(s)@ == old(s)@.push(c),
;

/// The character of the decimal digit `d`.
pub open spec fn digit_char(d: int) -> char {
    (0x30 + d) as char
}

/// The decimal notation of `n`.
pub open spec fn decimal_text(n: nat) -> Seq<char>
    decreases n,
{
    if n < 10 {
        seq![digit_char(n as int)]
    } else {
        decimal_text(n / 10).push(digit_char((n % 10) as int))
    }
}

/// Writes `n` in decimal notation.
pub fn decimal(n: usize) -> (r: String)
    ensures
        r@ == decimal_text(n as nat),
    decreases n,
{
    let digit: u8 = (n % 10) as u8;
    let c: char = (0x30u8 + digit) as char;
    if n < 10 {
        let mut text = String::new();
        text.push(c);
        assert(text@ =~= seq![c]);
        text
    } else {
        let mut text = decimal(n / 10);
        text.push(c);
        text
    }
}

/// The lower-case hexadecimal digit of `d`, as the byte that stands for it in ASCII.
#[verifier::allow_in_spec]
pub fn hex_digit(d: u8) -> u8
    requires
        d < 16,
    returns
        (if d < 10 {
            (0x30 + d) as u8
        } else {
            (0x61 + d - 10) as u8
        }),
{
    if d < 10 {
        0x30 + d
    } else {
        0x61 + (d - 10)
    }
}

/// The value of the hexadecimal digit that the byte `b` stands for in ASCII, of either case.
pub open spec fn hex_value(b: u8) -> Option<u8> {
    if 0x30 <= b <= 0x39 {
        Some((b - 0x30) as u8)
    } else if 0x61 <= b <= 0x66 {
        Some((b - 0x61 + 10) as u8)
    } else if 0x41 <= b <= 0x46 {
        Some((b - 0x41 + 10) as u8)
    } else {
        None
    }
}

/// Reads the byte `b` as a hexadecimal digit.
pub fn read_hex_digit(b: u8) -> (r: Option<u8>)
    ensures
        r == hex_value(b),
{
    if 0x30 <= b && b <= 0x39 {
        Some(b - 0x30)
    } else if 0x61 <= b && b <= 0x66 {
        Some(b - 0x61 + 10)
    } else if 0x41 <= b && b <= 0x46 {
        Some(b - 0x41 + 10)
    } else {
        None
    }
}

} // verus!
