//! Runs of bytes at the ends of a sequence, and what is left when they are stripped.
use crate::ascii::is_space;
use crate::bytesinner::PyBytesInner;
use crate::search::{ends_with, find_byte, first_byte, first_byte_at, starts_with};
use vstd::prelude::*;
use vstd::slice::{slice_subrange, slice_to_vec};

verus! {

/// The length of the longest run at the start of `s` of bytes that are among `chars`, or, when
/// `member` is false, of bytes that are not.
pub open spec fn span_len(s: Seq<u8>, chars: Seq<u8>, member: bool) -> nat
    decreases s.len(),
{
    if s.len() == 0 || chars.contains(s[0]) != member {
        0
    } else {
        1 + span_len(s.drop_first(), chars, member)
    }
}

/// The length of the longest such run at the end of `s`.
pub open spec fn rspan_len(s: Seq<u8>, chars: Seq<u8>, member: bool) -> nat
    decreases s.len(),
{
    if s.len() == 0 || chars.contains(s.last()) != member {
        0
    } else {
        1 + rspan_len(s.drop_last(), chars, member)
    }
}

/// The whitespace bytes.
pub open spec fn whitespace() -> Seq<u8> {
    seq![0x20u8, 0x09, 0x0a, 0x0b, 0x0c, 0x0d]
}

/// The whitespace bytes.
pub fn whitespace_bytes() -> (r: Vec<u8>)
    ensures
        r@ == whitespace(),
{
    let r: Vec<u8> = vec![0x20u8, 0x09, 0x0a, 0x0b, 0x0c, 0x0d];
    assert(r@ =~= whitespace());
    r
}

/// The whitespace bytes are the bytes of the class of whitespace.
pub proof fn lemma_whitespace(b: u8)
    ensures
        whitespace().contains(b) == is_space(b),
{
    let w = whitespace();
    assert(w[0] == 0x20 && w[1] == 0x09 && w[2] == 0x0a && w[3] == 0x0b && w[4] == 0x0c && w[5]
        == 0x0d);
}

/// A run that cannot be longer is the longest.
pub proof fn lemma_span(s: Seq<u8>, chars: Seq<u8>, member: bool, n: nat)
    requires
        n <= s.len(),
        forall|j: int| 0 <= j < n ==> chars.contains(#[trigger] s[j]) == member,
        n < s.len() ==> chars.contains(s[n as int]) != member,
    ensures
        span_len(s, chars, member) == n,
    decreases n,
{
    if n > 0 {
        assert forall|j: int| 0 <= j < n - 1 implies chars.contains(
            #[trigger] s.drop_first()[j],
        ) == member by {
            assert(s.drop_first()[j] == s[j + 1]);
        }
        lemma_span(s.drop_first(), chars, member, (n - 1) as nat);
    }
}

/// The longest run at the start consists of such bytes, and cannot be longer.
pub proof fn lemma_span_exact(s: Seq<u8>, chars: Seq<u8>, member: bool)
    ensures
        span_len(s, chars, member) <= s.len(),
        forall|j: int|
            0 <= j < span_len(s, chars, member) ==> chars.contains(#[trigger] s[j]) == member,
        span_len(s, chars, member) < s.len() ==> chars.contains(
            s[span_len(s, chars, member) as int],
        ) != member,
    decreases s.len(),
{
    if s.len() > 0 && chars.contains(s[0]) == member {
        let t = s.drop_first();
        lemma_span_exact(t, chars, member);
        assert forall|j: int| 0 <= j < span_len(s, chars, member) implies chars.contains(
            #[trigger] s[j],
        ) == member by {
            if j > 0 {
                assert(t[j - 1] == s[j]);
            }
        }
    }
}

/// A run at the end that cannot be longer is the longest.
pub proof fn lemma_rspan(s: Seq<u8>, chars: Seq<u8>, member: bool, n: nat)
    requires
        n <= s.len(),
        forall|j: int| s.len() - n <= j < s.len() ==> chars.contains(#[trigger] s[j]) == member,
        n < s.len() ==> chars.contains(s[s.len() - n - 1]) != member,
    ensures
        rspan_len(s, chars, member) == n,
    decreases n,
{
    if n > 0 {
        lemma_rspan(s.drop_last(), chars, member, (n - 1) as nat);
    }
}

/// The longest run at the end consists of such bytes, and cannot be longer.
pub proof fn lemma_rspan_exact(s: Seq<u8>, chars: Seq<u8>, member: bool)
    ensures
        rspan_len(s, chars, member) <= s.len(),
        forall|j: int|
            s.len() - rspan_len(s, chars, member) <= j < s.len() ==> chars.contains(
                #[trigger] s[j],
            ) == member,
        rspan_len(s, chars, member) < s.len() ==> chars.contains(
            s[s.len() - rspan_len(s, chars, member) - 1],
        ) != member,
    decreases s.len(),
{
    if s.len() > 0 && chars.contains(s.last()) == member {
        let t = s.drop_last();
        lemma_rspan_exact(t, chars, member);
        assert forall|j: int|
            s.len() - rspan_len(s, chars, member) <= j < s.len() implies chars.contains(
            #[trigger] s[j],
        ) == member by {
            if j < s.len() - 1 {
                assert(t[j] == s[j]);
            }
        }
    }
}

/// Whether `b` is among `chars`.
pub fn is_among(chars: &[u8], b: u8) -> (r: bool)
    ensures
        r == chars@.contains(b),
{
    let r = find_byte(chars, b).is_some();
    proof {
        if chars@.contains(b) {
            lemma_first_byte(chars@, b);
        }
    }
    r
}

/// A byte that occurs has a first position.
pub proof fn lemma_first_byte(s: Seq<u8>, b: u8)
    requires
        s.contains(b),
    ensures
        first_byte(s, b) is Some,
        first_byte_at(s, b, first_byte(s, b)->0),
{
    let k = choose|k: int| 0 <= k < s.len() && s[k] == b;
    lemma_first_byte_from(s, b, k);
}

proof fn lemma_first_byte_from(s: Seq<u8>, b: u8, k: int)
    requires
        0 <= k < s.len(),
        s[k] == b,
    ensures
        exists|i: int| first_byte_at(s, b, i),
    decreases k,
{
    if !first_byte_at(s, b, k) {
        let j = choose|j: int| 0 <= j < k && s[j] == b;
        lemma_first_byte_from(s, b, j);
    }
}

/// The length of the longest run at the start of `s`.
pub fn span(s: &[u8], chars: &[u8], member: bool) -> (r: usize)
    ensures
        r == span_len(s@, chars@, member),
        r <= s@.len(),
{
    let mut n: usize = 0;
    while n < s.len() && is_among(chars, s[n]) == member
        invariant
            n <= s.len(),
            forall|j: int| 0 <= j < n ==> chars@.contains(#[trigger] s@[j]) == member,
        ensures
            n <= s.len(),
            forall|j: int| 0 <= j < n ==> chars@.contains(#[trigger] s@[j]) == member,
            n < s.len() ==> chars@.contains(s@[n as int]) != member,
        decreases s.len() - n,
    {
        n += 1;
    }
    proof {
        lemma_span(s@, chars@, member, n as nat);
    }
    n
}

/// The length of the longest run at the end of `s`.
pub fn rspan(s: &[u8], chars: &[u8], member: bool) -> (r: usize)
    ensures
        r == rspan_len(s@, chars@, member),
        r <= s@.len(),
{
    let len: usize = s.len();
    let mut n: usize = 0;
    while n < len && is_among(chars, s[len - 1 - n]) == member
        invariant
            n <= len == s@.len(),
            forall|j: int| len - n <= j < len ==> chars@.contains(#[trigger] s@[j]) == member,
        ensures
            n <= len,
            forall|j: int| len - n <= j < len ==> chars@.contains(#[trigger] s@[j]) == member,
            n < len ==> chars@.contains(s@[len - n - 1]) != member,
        decreases len - n,
    {
        n += 1;
    }
    proof {
        lemma_rspan(s@, chars@, member, n as nat);
    }
    n
}

/// `s` without the bytes among `chars` at its start.
pub open spec fn lstripped(s: Seq<u8>, chars: Seq<u8>) -> Seq<u8> {
    s.skip(span_len(s, chars, true) as int)
}

/// `s` without the bytes among `chars` at its end.
pub open spec fn rstripped(s: Seq<u8>, chars: Seq<u8>) -> Seq<u8> {
    s.take(s.len() - rspan_len(s, chars, true))
}

/// `s` without the bytes among `chars` at its start and at its end.
pub open spec fn stripped(s: Seq<u8>, chars: Seq<u8>) -> Seq<u8> {
    rstripped(lstripped(s, chars), chars)
}

/// The bytes to be stripped: those given, or whitespace.
pub open spec fn strip_set(chars: Option<PyBytesInner>) -> Seq<u8> {
    match chars {
        Some(bytes) => bytes@,
        None => whitespace(),
    }
}

/// The bytes to be stripped.
fn chars_to_strip(chars: Option<PyBytesInner>) -> (r: Vec<u8>)
    ensures
        r@ == strip_set(chars),
{
    match chars {
        Some(bytes) => bytes.elements,
        None => whitespace_bytes(),
    }
}

/// A copy without the bytes to be stripped at the start.
pub fn lstrip(s: &[u8], chars: Option<PyBytesInner>) -> (r: Vec<u8>)
    ensures
        r@ == lstripped(s@, strip_set(chars)),
{
    let chars = chars_to_strip(chars);
    let n: usize = span(s, chars.as_slice(), true);
    slice_to_vec(slice_subrange(s, n, s.len()))
}

/// A copy without the bytes to be stripped at the end.
pub fn rstrip(s: &[u8], chars: Option<PyBytesInner>) -> (r: Vec<u8>)
    ensures
        r@ == rstripped(s@, strip_set(chars)),
{
    let chars = chars_to_strip(chars);
    let n: usize = rspan(s, chars.as_slice(), true);
    slice_to_vec(slice_subrange(s, 0, s.len() - n))
}

/// A copy without the bytes to be stripped at the start and at the end.
pub fn strip(s: &[u8], chars: Option<PyBytesInner>) -> (r: Vec<u8>)
    ensures
        r@ == stripped(s@, strip_set(chars)),
{
    let chars = chars_to_strip(chars);
    let n: usize = span(s, chars.as_slice(), true);
    let rest = slice_subrange(s, n, s.len());
    let m: usize = rspan(rest, chars.as_slice(), true);
    slice_to_vec(slice_subrange(rest, 0, rest.len() - m))
}

/// `s` without the prefix `prefix`, where it begins with it.
pub open spec fn without_prefix(s: Seq<u8>, prefix: Seq<u8>) -> Seq<u8> {
    if prefix.is_prefix_of(s) {
        s.skip(prefix.len() as int)
    } else {
        s
    }
}

/// `s` without the suffix `suffix`, where it ends with it.
pub open spec fn without_suffix(s: Seq<u8>, suffix: Seq<u8>) -> Seq<u8> {
    if suffix.is_suffix_of(s) {
        s.take(s.len() - suffix.len())
    } else {
        s
    }
}

/// A copy without the prefix `prefix`.
pub fn removeprefix(s: &[u8], prefix: &[u8]) -> (r: Vec<u8>)
    ensures
        r@ == without_prefix(s@, prefix@),
{
    if starts_with(s, prefix) {
        slice_to_vec(slice_subrange(s, prefix.len(), s.len()))
    } else {
        slice_to_vec(s)
    }
}

/// A copy without the suffix `suffix`.
pub fn removesuffix(s: &[u8], suffix: &[u8]) -> (r: Vec<u8>)
    ensures
        r@ == without_suffix(s@, suffix@),
{
    if ends_with(s, suffix) {
        slice_to_vec(slice_subrange(s, 0, s.len() - suffix.len()))
    } else {
        slice_to_vec(s)
    }
}

} // verus!
