//! The printable representation of a byte array.
use crate::hexadecimal::hex_pair;
use crate::span::is_among;
use crate::text::hex_digit;
use vstd::prelude::*;

verus! {

/// The quote around the bytes `s`: a single quote, unless `s` holds one and holds no double quote.
pub open spec fn quote_of(s: Seq<u8>) -> u8 {
    if s.contains(0x27) && !s.contains(0x22) {
        0x22
    } else {
        0x27
    }
}

/// How the byte `b` is written between the quotes `quote`: a printable ASCII character as it is,
/// the quote and the backslash behind a backslash, tab, line feed and carriage return by their
/// letters, and every other byte by its hexadecimal digits.
pub open spec fn escaped(b: u8, quote: u8) -> Seq<char> {
    if b == quote || b == 0x5c {
        seq!['\\', b as char]
    } else if b == 0x09 {
        seq!['\\', 't']
    } else if b == 0x0a {
        seq!['\\', 'n']
    } else if b == 0x0d {
        seq!['\\', 'r']
    } else if 0x20 <= b <= 0x7e {
        seq![b as char]
    } else {
        seq!['\\', 'x'] + hex_pair(b)
    }
}

/// How the bytes `s` are written between the quotes `quote`.
pub open spec fn escaped_all(s: Seq<u8>, quote: u8) -> Seq<char>
    decreases s.len(),
{
    if s.len() == 0 {
        Seq::empty()
    } else {
        escaped_all(s.drop_last(), quote) + escaped(s.last(), quote)
    }
}

/// The representation of the bytes `s` between `prefix` and `suffix`.
pub open spec fn repr_text(s: Seq<u8>, prefix: Seq<char>, suffix: Seq<char>) -> Seq<char> {
    let quote = quote_of(s);
    prefix + seq!['b', quote as char] + escaped_all(s, quote) + seq![quote as char] + suffix
}

/// Appends how the byte `b` is written between the quotes `quote`.
fn push_escaped(text: &mut String, b: u8, quote: u8)
    ensures
        final(text)@ == old(text)@ + escaped(b, quote),
{
    let ghost before = text@;
    if b == quote || b == 0x5c {
        text.push('\\');
        text.push(b as char);
    } else if b == 0x09 {
        text.push('\\');
        text.push('t');
    } else if b == 0x0a {
        text.push('\\');
        text.push('n');
    } else if b == 0x0d {
        text.push('\\');
        text.push('r');
    } else if 0x20 <= b && b <= 0x7e {
        text.push(b as char);
    } else {
        text.push('\\');
        text.push('x');
        text.push(hex_digit(b / 16) as char);
        text.push(hex_digit(b % 16) as char);
    }
    assert(text@ =~= before + escaped(b, quote));
}

/// Writes the bytes `s` between `prefix` and `suffix`.
pub fn repr(s: &[u8], prefix: &str, suffix: &str) -> (r: String)
    ensures
        r@ == repr_text(s@, prefix@, suffix@),
{
    let quote: u8 = if is_among(s, 0x27) && !is_among(s, 0x22) {
        0x22
    } else {
        0x27
    };
    let mut text = prefix.to_owned();
    text.push('b');
    text.push(quote as char);
    let ghost front = prefix@ + seq!['b', quote as char];
    assert(text@ =~= front);
    assert(front + escaped_all(s@.take(0), quote) =~= front);
    let mut i: usize = 0;
    while i < s.len()
        invariant
            i <= s.len(),
            text@ == front + escaped_all(s@.take(i as int), quote),
        decreases s.len() - i,
    {
        let ghost before = text@;
        push_escaped(&mut text, s[i], quote);
        proof {
            assert(s@.take(i + 1).drop_last() =~= s@.take(i as int));
            assert(text@ =~= front + escaped_all(s@.take(i + 1), quote));
        }
        i += 1;
    }
    assert(s@.take(s@.len() as int) =~= s@);
    let ghost body = text@;
    text.push(quote as char);
    assert(text@ =~= body + seq![quote as char]);
    text.append(suffix);
    text
}

} // verus!
