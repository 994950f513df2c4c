//! The ASCII classes of bytes, and the operations on letter case.
use vstd::prelude::*;

verus! {

/// Whether `b` is a lower-case ASCII letter.
#[verifier::allow_in_spec]
pub fn is_lower(b: u8) -> bool
    returns
        0x61 <= b <= 0x7a,
{
    0x61 <= b && b <= 0x7a
}

/// Whether `b` is an upper-case ASCII letter.
#[verifier::allow_in_spec]
pub fn is_upper(b: u8) -> bool
    returns
        0x41 <= b <= 0x5a,
{
    0x41 <= b && b <= 0x5a
}

/// Whether `b` is an ASCII letter.
#[verifier::allow_in_spec]
pub fn is_alpha(b: u8) -> bool
    returns
        is_lower(b) || is_upper(b),
{
    is_lower(b) || is_upper(b)
}

/// Whether `b` is an ASCII digit.
#[verifier::allow_in_spec]
pub fn is_digit(b: u8) -> bool
    returns
        0x30 <= b <= 0x39,
{
    0x30 <= b && b <= 0x39
}

/// Whether `b` is an ASCII letter or digit.
#[verifier::allow_in_spec]
pub fn is_alnum(b: u8) -> bool
    returns
        is_alpha(b) || is_digit(b),
{
    is_alpha(b) || is_digit(b)
}

/// Whether `b` is ASCII whitespace: a space, or one of tab, line feed, vertical tab, form feed and
/// carriage return.
#[verifier::allow_in_spec]
pub fn is_space(b: u8) -> bool
    returns
        b == 0x20 || 0x09 <= b <= 0x0d,
{
    b == 0x20 || (0x09 <= b && b <= 0x0d)
}

/// Whether `b` is an ASCII character.
#[verifier::allow_in_spec]
pub fn is_ascii(b: u8) -> bool
    returns
        b < 0x80,
{
    b < 0x80
}

/// The lower-case form of `b`.
#[verifier::allow_in_spec]
pub fn to_lower(b: u8) -> u8
    returns
        (if is_upper(b) {
            (b + 0x20) as u8
        } else {
            b
        }),
{
    if is_upper(b) {
        b + 0x20
    } else {
        b
    }
}

/// The upper-case form of `b`.
#[verifier::allow_in_spec]
pub fn to_upper(b: u8) -> u8
    returns
        (if is_lower(b) {
            (b - 0x20) as u8
        } else {
            b
        }),
{
    if is_lower(b) {
        b - 0x20
    } else {
        b
    }
}

/// `b` with its letter case exchanged.
#[verifier::allow_in_spec]
pub fn swap_case(b: u8) -> u8
    returns
        (if is_lower(b) {
            to_upper(b)
        } else {
            to_lower(b)
        }),
{
    if is_lower(b) {
        to_upper(b)
    } else {
        to_lower(b)
    }
}

/// Whether `s` is not empty and all its bytes satisfy `class`.
pub open spec fn all_of(s: Seq<u8>, class: spec_fn(u8) -> bool) -> bool {
    s.len() > 0 && forall|i: int| 0 <= i < s.len() ==> class(#[trigger] s[i])
}

/// Whether `s` has a lower-case letter and no upper-case one.
pub open spec fn all_lower(s: Seq<u8>) -> bool {
    &&& exists|i: int| 0 <= i < s.len() && is_lower(#[trigger] s[i])
    &&& forall|i: int| 0 <= i < s.len() ==> !is_upper(#[trigger] s[i])
}

/// Whether `s` has an upper-case letter and no lower-case one.
pub open spec fn all_upper(s: Seq<u8>) -> bool {
    &&& exists|i: int| 0 <= i < s.len() && is_upper(#[trigger] s[i])
    &&& forall|i: int| 0 <= i < s.len() ==> !is_lower(#[trigger] s[i])
}

/// Whether the position `i` of `s` follows a letter.
pub open spec fn inside_word(s: Seq<u8>, i: int) -> bool {
    i > 0 && is_alpha(s[i - 1])
}

/// Whether `s` has a letter, and its words, that is its runs of letters, each begin with an
/// upper-case letter and go on in lower case.
pub open spec fn titlecased(s: Seq<u8>) -> bool {
    &&& exists|i: int| 0 <= i < s.len() && is_alpha(#[trigger] s[i])
    &&& forall|i: int|
        0 <= i < s.len() ==> (is_upper(#[trigger] s[i]) ==> !inside_word(s, i)) && (is_lower(s[i])
            ==> inside_word(s, i))
}

/// `s` in lower case.
pub open spec fn lowered(s: Seq<u8>) -> Seq<u8> {
    Seq::new(s.len(), |i: int| to_lower(s[i]))
}

/// `s` in upper case.
pub open spec fn uppered(s: Seq<u8>) -> Seq<u8> {
    Seq::new(s.len(), |i: int| to_upper(s[i]))
}

/// `s` with its letter case exchanged.
pub open spec fn swapped(s: Seq<u8>) -> Seq<u8> {
    Seq::new(s.len(), |i: int| swap_case(s[i]))
}

/// `s` with its first byte in upper case and the others in lower case.
pub open spec fn capitalized(s: Seq<u8>) -> Seq<u8> {
    Seq::new(
        s.len(),
        |i: int|
            if i == 0 {
                to_upper(s[i])
            } else {
                to_lower(s[i])
            },
    )
}

/// `s` with each of its words beginning with an upper-case letter and going on in lower case.
pub open spec fn titled(s: Seq<u8>) -> Seq<u8> {
    Seq::new(
        s.len(),
        |i: int|
            if inside_word(s, i) {
                to_lower(s[i])
            } else {
                to_upper(s[i])
            },
    )
}

/// Whether all bytes are letters or digits, and there is one.
pub fn isalnum(s: &[u8]) -> (r: bool)
    ensures
        r == all_of(s@, |b: u8| is_alnum(b)),
{
    let mut i: usize = 0;
    while i < s.len()
        invariant
            i <= s.len(),
            forall|j: int| 0 <= j < i ==> is_alnum(#[trigger] s@[j]),
        decreases s.len() - i,
    {
        if !is_alnum(s[i]) {
            return false;
        }
        i += 1;
    }
    s.len() > 0
}

/// Whether all bytes are letters, and there is one.
pub fn isalpha(s: &[u8]) -> (r: bool)
    ensures
        r == all_of(s@, |b: u8| is_alpha(b)),
{
    let mut i: usize = 0;
    while i < s.len()
        invariant
            i <= s.len(),
            forall|j: int| 0 <= j < i ==> is_alpha(#[trigger] s@[j]),
        decreases s.len() - i,
    {
        if !is_alpha(s[i]) {
            return false;
        }
        i += 1;
    }
    s.len() > 0
}

/// Whether all bytes are ASCII characters.
pub fn isascii(s: &[u8]) -> (r: bool)
    ensures
        r == (forall|i: int| 0 <= i < s@.len() ==> is_ascii(#[trigger] s@[i])),
{
    let mut i: usize = 0;
    while i < s.len()
        invariant
            i <= s.len(),
            forall|j: int| 0 <= j < i ==> is_ascii(#[trigger] s@[j]),
        decreases s.len() - i,
    {
        if !is_ascii(s[i]) {
            return false;
        }
        i += 1;
    }
    true
}

/// Whether all bytes are digits, and there is one.
pub fn isdigit(s: &[u8]) -> (r: bool)
    ensures
        r == all_of(s@, |b: u8| is_digit(b)),
{
    let mut i: usize = 0;
    while i < s.len()
        invariant
            i <= s.len(),
            forall|j: int| 0 <= j < i ==> is_digit(#[trigger] s@[j]),
        decreases s.len() - i,
    {
        if !is_digit(s[i]) {
            return false;
        }
        i += 1;
    }
    s.len() > 0
}

/// Whether all bytes are whitespace, and there is one.
pub fn isspace(s: &[u8]) -> (r: bool)
    ensures
        r == all_of(s@, |b: u8| is_space(b)),
{
    let mut i: usize = 0;
    while i < s.len()
        invariant
            i <= s.len(),
            forall|j: int| 0 <= j < i ==> is_space(#[trigger] s@[j]),
        decreases s.len() - i,
    {
        if !is_space(s[i]) {
            return false;
        }
        i += 1;
    }
    s.len() > 0
}

/// Whether there is a lower-case letter and no upper-case one.
pub fn islower(s: &[u8]) -> (r: bool)
    ensures
        r == all_lower(s@),
{
    let mut seen = false;
    let mut i: usize = 0;
    while i < s.len()
        invariant
            i <= s.len(),
            seen == exists|j: int| 0 <= j < i && is_lower(#[trigger] s@[j]),
            forall|j: int| 0 <= j < i ==> !is_upper(#[trigger] s@[j]),
        decreases s.len() - i,
    {
        if is_upper(s[i]) {
            return false;
        }
        if is_lower(s[i]) {
            seen = true;
        }
        i += 1;
    }
    seen
}

/// Whether there is an upper-case letter and no lower-case one.
pub fn isupper(s: &[u8]) -> (r: bool)
    ensures
        r == all_upper(s@),
{
    let mut seen = false;
    let mut i: usize = 0;
    while i < s.len()
        invariant
            i <= s.len(),
            seen == exists|j: int| 0 <= j < i && is_upper(#[trigger] s@[j]),
            forall|j: int| 0 <= j < i ==> !is_lower(#[trigger] s@[j]),
        decreases s.len() - i,
    {
        if is_lower(s[i]) {
            return false;
        }
        if is_upper(s[i]) {
            seen = true;
        }
        i += 1;
    }
    seen
}

/// Whether there is a letter, and the words are written in title case.
pub fn istitle(s: &[u8]) -> (r: bool)
    ensures
        r == titlecased(s@),
{
    let mut seen = false;
    let mut inside = false;
    let mut i: usize = 0;
    while i < s.len()
        invariant
            i <= s.len(),
            inside == inside_word(s@, i as int),
            seen == exists|j: int| 0 <= j < i && is_alpha(#[trigger] s@[j]),
            forall|j: int|
                0 <= j < i ==> (is_upper(#[trigger] s@[j]) ==> !inside_word(s@, j)) && (is_lower(
                    s@[j],
                ) ==> inside_word(s@, j)),
        decreases s.len() - i,
    {
        let b: u8 = s[i];
        if is_upper(b) && inside || is_lower(b) && !inside {
            return false;
        }
        inside = is_alpha(b);
        if inside {
            seen = true;
        }
        i += 1;
    }
    seen
}

/// A copy in lower case.
pub fn lower(s: &[u8]) -> (r: Vec<u8>)
    ensures
        r@ == lowered(s@),
{
    let mut r: Vec<u8> = Vec::new();
    let mut i: usize = 0;
    while i < s.len()
        invariant
            i <= s.len(),
            r@ =~= lowered(s@).take(i as int),
        decreases s.len() - i,
    {
        r.push(to_lower(s[i]));
        i += 1;
    }
    r
}

/// A copy in upper case.
pub fn upper(s: &[u8]) -> (r: Vec<u8>)
    ensures
        r@ == uppered(s@),
{
    let mut r: Vec<u8> = Vec::new();
    let mut i: usize = 0;
    while i < s.len()
        invariant
            i <= s.len(),
            r@ =~= uppered(s@).take(i as int),
        decreases s.len() - i,
    {
        r.push(to_upper(s[i]));
        i += 1;
    }
    r
}

/// A copy with the letter case exchanged.
pub fn swapcase(s: &[u8]) -> (r: Vec<u8>)
    ensures
        r@ == swapped(s@),
{
    let mut r: Vec<u8> = Vec::new();
    let mut i: usize = 0;
    while i < s.len()
        invariant
            i <= s.len(),
            r@ =~= swapped(s@).take(i as int),
        decreases s.len() - i,
    {
        r.push(swap_case(s[i]));
        i += 1;
    }
    r
}

/// A copy with the first byte in upper case and the others in lower case.
pub fn capitalize(s: &[u8]) -> (r: Vec<u8>)
    ensures
        r@ == capitalized(s@),
{
    let mut r: Vec<u8> = Vec::new();
    let mut i: usize = 0;
    while i < s.len()
        invariant
            i <= s.len(),
            r@ =~= capitalized(s@).take(i as int),
        decreases s.len() - i,
    {
        if i == 0 {
            r.push(to_upper(s[i]));
        } else {
            r.push(to_lower(s[i]));
        }
        i += 1;
    }
    r
}

/// A copy with the words in title case.
pub fn title(s: &[u8]) -> (r: Vec<u8>)
    ensures
        r@ == titled(s@),
{
    let mut r: Vec<u8> = Vec::new();
    let mut inside = false;
    let mut i: usize = 0;
    while i < s.len()
        invariant
            i <= s.len(),
            inside == inside_word(s@, i as int),
            r@ =~= titled(s@).take(i as int),
        decreases s.len() - i,
    {
        let b: u8 = s[i];
        if inside {
            r.push(to_lower(b));
        } else {
            r.push(to_upper(b));
        }
        inside = is_alpha(b);
        i += 1;
    }
    r
}

} // verus!
