//! Bytes as hexadecimal text.
use crate::ascii::is_space;
use crate::bytesinner::PyBytesInner;
use crate::error::{PyException, PyResult};
use crate::object::{agrees, Either};
use crate::text::{hex_digit, hex_value, read_hex_digit};
use vstd::prelude::*;

verus! {

/// The two hexadecimal digits of `b`.
pub open spec fn hex_pair(b: u8) -> Seq<char> {
    seq![hex_digit((b / 16) as u8) as char, hex_digit((b % 16) as u8) as char]
}

/// Whether a group begins at the byte `i` of `len` bytes. Groups of `group` bytes are counted from
/// the right; of `-group` bytes, from the left, where `group` is negative; there are none where it
/// is zero.
pub open spec fn group_begins(len: int, i: int, group: int) -> bool {
    if group > 0 {
        (len - i) % group == 0
    } else if group < 0 {
        i % (-group) == 0
    } else {
        false
    }
}

/// What stands before the byte `i`: the separator, where a group begins there and another stands
/// before it.
pub open spec fn separation(len: int, i: int, sep: Option<char>, group: int) -> Seq<char> {
    match sep {
        Some(c) => if i > 0 && group_begins(len, i, group) {
            seq![c]
        } else {
            Seq::empty()
        },
        None => Seq::empty(),
    }
}

/// The first `n` bytes of `s` in hexadecimal digits, with the separators between the groups of `s`.
pub open spec fn hex_text(s: Seq<u8>, n: nat, sep: Option<char>, group: int) -> Seq<char>
    decreases n,
{
    if n == 0 {
        Seq::empty()
    } else {
        hex_text(s, (n - 1) as nat, sep, group) + separation(s.len() as int, n - 1, sep, group)
            + hex_pair(s[n - 1])
    }
}

/// The separator that `sep` stands for.
pub open spec fn separator_of(sep: Either<String, PyBytesInner>) -> PyResult<char> {
    match sep {
        Either::A(text) => if text@.len() != 1 {
            Err(PyException::HexSeparatorLength)
        } else if text@[0] as int >= 128 {
            Err(PyException::HexSeparatorNotAscii)
        } else {
            Ok(text@[0])
        },
        Either::B(bytes) => if bytes@.len() != 1 {
            Err(PyException::HexSeparatorLength)
        } else if bytes@[0] >= 128 {
            Err(PyException::HexSeparatorNotAscii)
        } else {
            Ok(bytes@[0] as char)
        },
    }
}

/// What `hex` yields. Without a separator there are no groups; without their size, a group is one
/// byte.
pub open spec fn hex_result(
    s: Seq<u8>,
    sep: Option<Either<String, PyBytesInner>>,
    bytes_per_sep: Option<isize>,
) -> PyResult<Seq<char>> {
    let group = match bytes_per_sep {
        Some(n) => n as int,
        None => 1,
    };
    match sep {
        None => Ok(hex_text(s, s.len(), None, group)),
        Some(sep) => match separator_of(sep) {
            Err(e) => Err(e),
            Ok(c) => Ok(hex_text(s, s.len(), Some(c), group)),
        },
    }
}

/// The separator that `sep` stands for.
fn separator(sep: &Either<String, PyBytesInner>) -> (r: PyResult<char>)
    ensures
        r == separator_of(*sep),
{
    match sep {
        Either::A(text) => if text.as_str().unicode_len() != 1 {
            Err(PyException::HexSeparatorLength)
        } else {
            let c: char = text.as_str().get_char(0);
            if c as u32 >= 128 {
                Err(PyException::HexSeparatorNotAscii)
            } else {
                Ok(c)
            }
        },
        Either::B(bytes) => if bytes.elements.len() != 1 {
            Err(PyException::HexSeparatorLength)
        } else if bytes.elements[0] >= 128 {
            Err(PyException::HexSeparatorNotAscii)
        } else {
            Ok(bytes.elements[0] as char)
        },
    }
}

/// Whether a group begins at the byte `i` of `len` bytes.
fn begins_group(len: usize, i: usize, group: isize) -> (r: bool)
    requires
        i <= len,
    ensures
        r == group_begins(len as int, i as int, group as int),
{
    if group > 0 {
        (len - i) as i128 % group as i128 == 0
    } else if group < 0 {
        i as i128 % (-(group as i128)) == 0
    } else {
        false
    }
}

/// Writes the bytes in hexadecimal digits.
pub fn hex(
    s: &[u8],
    sep: &Option<Either<String, PyBytesInner>>,
    bytes_per_sep: Option<isize>,
) -> (r: PyResult<String>)
    ensures
        match (r, hex_result(s@, *sep, bytes_per_sep)) {
            (Ok(text), Ok(t)) => text@ == t,
            (Err(e), Err(f)) => e == f,
            _ => false,
        },
{
    let group: isize = match bytes_per_sep {
        Some(n) => n,
        None => 1,
    };
    let c: Option<char> = match sep {
        None => None,
        Some(sep) => match separator(sep) {
            Ok(c) => Some(c),
            Err(e) => return Err(e),
        },
    };
    let mut text = String::new();
    let mut i: usize = 0;
    while i < s.len()
        invariant
            i <= s.len(),
            text@ == hex_text(s@, i as nat, c, group as int),
        decreases s.len() - i,
    {
        let ghost before = text@;
        if let Some(c) = c {
            if i > 0 && begins_group(s.len(), i, group) {
                text.push(c);
            }
        }
        assert(text@ =~= before + separation(s@.len() as int, i as int, c, group as int));
        let ghost middle = text@;
        let b: u8 = s[i];
        text.push(hex_digit(b / 16) as char);
        text.push(hex_digit(b % 16) as char);
        assert(text@ =~= middle + hex_pair(b));
        i += 1;
    }
    Ok(text)
}

/// The bytes whose hexadecimal digits stand in the text `t` from the position `i` on, two for each,
/// with any whitespace between the pairs.
pub open spec fn read_hex(t: Seq<u8>, i: int) -> PyResult<Seq<u8>>
    decreases t.len() - i,
{
    if i >= t.len() {
        Ok(Seq::empty())
    } else if is_space(t[i]) {
        read_hex(t, i + 1)
    } else if hex_value(t[i]) is None {
        Err(PyException::NotHexadecimal { position: i as usize })
    } else if i + 1 >= t.len() || hex_value(t[i + 1]) is None {
        Err(PyException::NotHexadecimal { position: (i + 1) as usize })
    } else {
        match read_hex(t, i + 2) {
            Err(e) => Err(e),
            Ok(rest) => Ok(
                seq![(16 * hex_value(t[i])->0 + hex_value(t[i + 1])->0) as u8] + rest,
            ),
        }
    }
}

/// Reads the bytes that hexadecimal digits stand for.
pub fn fromhex(string: &str) -> (r: PyResult<Vec<u8>>)
    ensures
        agrees(r, read_hex(vstd::utf8::encode_utf8(string@), 0)),
{
    read_digits(string.as_bytes())
}

/// Reads the bytes that the hexadecimal digits `t` stand for.
pub fn read_digits(t: &[u8]) -> (r: PyResult<Vec<u8>>)
    ensures
        agrees(r, read_hex(t@, 0)),
{
    let mut bytes: Vec<u8> = Vec::new();
    let mut i: usize = 0;
    while i < t.len()
        invariant
            i <= t.len(),
            match read_hex(t@, i as int) {
                Err(e) => read_hex(t@, 0) == Err::<Seq<u8>, PyException>(e),
                Ok(rest) => read_hex(t@, 0) is Ok && read_hex(t@, 0)->Ok_0 =~= bytes@ + rest,
            },
        decreases t.len() - i,
    {
        if is_space(t[i]) {
            i += 1;
            continue;
        }
        let top: u8 = match read_hex_digit(t[i]) {
            Some(d) => d,
            None => return Err(PyException::NotHexadecimal { position: i }),
        };
        if i + 1 >= t.len() {
            return Err(PyException::NotHexadecimal { position: i + 1 });
        }
        let bottom: u8 = match read_hex_digit(t[i + 1]) {
            Some(d) => d,
            None => return Err(PyException::NotHexadecimal { position: i + 1 }),
        };
        bytes.push(16 * top + bottom);
        i += 2;
    }
    Ok(bytes)
}

} // verus!
