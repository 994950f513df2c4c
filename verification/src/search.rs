//! Searching for a byte or for a subsequence.
use crate::bytesinner::PyBytesInner;
use crate::error::{PyException, PyResult};
use crate::object::{byte_of_int, value_from_int, Either, PyObject};
use bstr::ByteSlice;
use vstd::prelude::*;
use vstd::slice::{slice_subrange, slice_to_vec};

verus! {

/// Whether `needle` stands in `haystack` at the position `i`.
pub open spec fn occurs_at(haystack: Seq<u8>, needle: Seq<u8>, i: int) -> bool {
    &&& 0 <= i <= haystack.len() - needle.len()
    &&& haystack.subrange(i, i + needle.len()) == needle
}

/// Whether `i` is the first position at which `needle` stands in `haystack`.
pub open spec fn first_at(haystack: Seq<u8>, needle: Seq<u8>, i: int) -> bool {
    &&& occurs_at(haystack, needle, i)
    &&& forall|j: int| occurs_at(haystack, needle, j) ==> i <= j
}

/// Whether `i` is the last position at which `needle` stands in `haystack`.
pub open spec fn last_at(haystack: Seq<u8>, needle: Seq<u8>, i: int) -> bool {
    &&& occurs_at(haystack, needle, i)
    &&& forall|j: int| occurs_at(haystack, needle, j) ==> j <= i
}

/// Whether `needle` stands in `haystack` at all.
pub open spec fn contained(haystack: Seq<u8>, needle: Seq<u8>) -> bool {
    exists|i: int| occurs_at(haystack, needle, i)
}

/// The first position at which `needle` stands in `haystack`.
pub open spec fn first_occurrence(haystack: Seq<u8>, needle: Seq<u8>) -> Option<int> {
    if exists|i: int| first_at(haystack, needle, i) {
        Some(choose|i: int| first_at(haystack, needle, i))
    } else {
        None
    }
}

/// The last position at which `needle` stands in `haystack`.
pub open spec fn last_occurrence(haystack: Seq<u8>, needle: Seq<u8>) -> Option<int> {
    if exists|i: int| last_at(haystack, needle, i) {
        Some(choose|i: int| last_at(haystack, needle, i))
    } else {
        None
    }
}

/// Whether `i` is the first position at which the byte `b` stands in `s`.
pub open spec fn first_byte_at(s: Seq<u8>, b: u8, i: int) -> bool {
    &&& 0 <= i < s.len()
    &&& s[i] == b
    &&& forall|j: int| 0 <= j < i ==> s[j] != b
}

/// The first position at which the byte `b` stands in `s`.
pub open spec fn first_byte(s: Seq<u8>, b: u8) -> Option<int> {
    if exists|i: int| first_byte_at(s, b, i) {
        Some(choose|i: int| first_byte_at(s, b, i))
    } else {
        None
    }
}

/// Whether the executable position `r` is the position `s`.
pub open spec fn same_position(r: Option<usize>, s: Option<int>) -> bool {
    match (r, s) {
        (Some(i), Some(j)) => i == j,
        (None, None) => true,
        _ => false,
    }
}

/// `ByteSlice::find` of `bstr`: the index of the first occurrence of the needle, or none where it
/// does not occur. The empty needle occurs at every index, the first of which is 0.
#[verifier::external_body]
fn bstr_find(haystack: &[u8], needle: &[u8]) -> (r: Option<usize>)
    ensures
        match r {
            Some(i) => first_at(haystack@, needle@, i as int),
            None => !contained(haystack@, needle@),
        },
{
    haystack.find(needle)
}

/// `ByteSlice::rfind` of `bstr`: the index of the last occurrence of the needle, or none where it
/// does not occur. The empty needle occurs at every index, the last of which is the length.
#[verifier::external_body]
fn bstr_rfind(haystack: &[u8], needle: &[u8]) -> (r: Option<usize>)
    ensures
        match r {
            Some(i) => last_at(haystack@, needle@, i as int),
            None => !contained(haystack@, needle@),
        },
{
    haystack.rfind(needle)
}

/// `ByteSlice::find_byte` of `bstr`: the index of the first occurrence of the byte, or none where it
/// does not occur.
#[verifier::external_body]
fn bstr_find_byte(haystack: &[u8], byte: u8) -> (r: Option<usize>)
    ensures
        match r {
            Some(i) => first_byte_at(haystack@, byte, i as int),
            None => !haystack@.contains(byte),
        },
{
    haystack.find_byte(byte)
}

/// The first position at which `needle` stands in `haystack`.
pub fn find(haystack: &[u8], needle: &[u8]) -> (r: Option<usize>)
    ensures
        same_position(r, first_occurrence(haystack@, needle@)),
        r matches Some(i) ==> i + needle@.len() <= haystack@.len() <= usize::MAX,
{
    let r = bstr_find(haystack, needle);
    proof {
        if let Some(i) = r {
            lemma_first_is(haystack@, needle@, i as int);
        }
        assert(haystack.len() == haystack@.len());
    }
    r
}

/// The last position at which `needle` stands in `haystack`.
pub fn rfind(haystack: &[u8], needle: &[u8]) -> (r: Option<usize>)
    ensures
        same_position(r, last_occurrence(haystack@, needle@)),
        r matches Some(i) ==> i + needle@.len() <= haystack@.len() <= usize::MAX,
{
    let r = bstr_rfind(haystack, needle);
    proof {
        if let Some(i) = r {
            lemma_last_is(haystack@, needle@, i as int);
        }
        assert(haystack.len() == haystack@.len());
    }
    r
}

/// The first position at which the byte `byte` stands in `haystack`.
pub fn find_byte(haystack: &[u8], byte: u8) -> (r: Option<usize>)
    ensures
        same_position(r, first_byte(haystack@, byte)),
{
    let r = bstr_find_byte(haystack, byte);
    proof {
        match r {
            Some(i) => {
                assert(first_byte_at(haystack@, byte, i as int));
                let j = choose|j: int| first_byte_at(haystack@, byte, j);
                assert(i == j);
            },
            None => {},
        }
    }
    r
}

/// A first position is the first position.
pub proof fn lemma_first_is(haystack: Seq<u8>, needle: Seq<u8>, i: int)
    requires
        first_at(haystack, needle, i),
    ensures
        first_occurrence(haystack, needle) == Some(i),
{
    let j = choose|j: int| first_at(haystack, needle, j);
    assert(first_at(haystack, needle, j));
    assert(i == j);
}

/// A last position is the last position.
pub proof fn lemma_last_is(haystack: Seq<u8>, needle: Seq<u8>, i: int)
    requires
        last_at(haystack, needle, i),
    ensures
        last_occurrence(haystack, needle) == Some(i),
{
    let j = choose|j: int| last_at(haystack, needle, j);
    assert(last_at(haystack, needle, j));
    assert(i == j);
}

/// A subsequence that occurs has a first position, and one that does not has none.
pub proof fn lemma_first_exists(haystack: Seq<u8>, needle: Seq<u8>)
    ensures
        match first_occurrence(haystack, needle) {
            Some(i) => first_at(haystack, needle, i),
            None => !contained(haystack, needle),
        },
{
    if contained(haystack, needle) {
        let i = choose|i: int| occurs_at(haystack, needle, i);
        lemma_first_from(haystack, needle, i);
    }
}

proof fn lemma_first_from(haystack: Seq<u8>, needle: Seq<u8>, i: int)
    requires
        occurs_at(haystack, needle, i),
    ensures
        exists|j: int| first_at(haystack, needle, j),
    decreases i,
{
    if !first_at(haystack, needle, i) {
        let j = choose|j: int| occurs_at(haystack, needle, j) && j < i;
        lemma_first_from(haystack, needle, j);
    }
}

/// A subsequence that occurs has a last position, and one that does not has none.
pub proof fn lemma_last_exists(haystack: Seq<u8>, needle: Seq<u8>)
    ensures
        match last_occurrence(haystack, needle) {
            Some(i) => last_at(haystack, needle, i),
            None => !contained(haystack, needle),
        },
{
    if contained(haystack, needle) {
        let i = choose|i: int| occurs_at(haystack, needle, i);
        lemma_last_from(haystack, needle, i);
    }
}

proof fn lemma_last_from(haystack: Seq<u8>, needle: Seq<u8>, i: int)
    requires
        occurs_at(haystack, needle, i),
    ensures
        exists|j: int| last_at(haystack, needle, j),
    decreases haystack.len() - i,
{
    if !last_at(haystack, needle, i) {
        let j = choose|j: int| occurs_at(haystack, needle, j) && j > i;
        lemma_last_from(haystack, needle, j);
    }
}

/// The searched part of a sequence of length `len`: from `start` to `end`, each counted from the
/// end when negative.
pub open spec fn search_start(start: Option<isize>, len: int) -> int {
    match start {
        None => 0,
        Some(v) => if v >= 0 {
            v as int
        } else if v + len < 0 {
            0
        } else {
            v + len
        },
    }
}

/// See `search_start`.
pub open spec fn search_end(end: Option<isize>, len: int) -> int {
    match end {
        None => len,
        Some(v) => if v > len {
            len
        } else if v >= 0 {
            v as int
        } else if v + len < 0 {
            0
        } else {
            v + len
        },
    }
}

/// Where a search starts and ends in a sequence of length `len`.
pub fn adjust_indices(start: Option<isize>, end: Option<isize>, len: usize) -> (r: (usize, usize))
    ensures
        r.0 == search_start(start, len as int),
        r.1 == search_end(end, len as int),
        r.1 <= len,
{
    let lo: usize = match start {
        None => 0,
        Some(v) => if v >= 0 {
            v as usize
        } else if v as i128 + (len as i128) < 0 {
            0
        } else {
            (v as i128 + len as i128) as usize
        },
    };
    let hi: usize = match end {
        None => len,
        Some(v) => if v as i128 > len as i128 {
            len
        } else if v >= 0 {
            v as usize
        } else if v as i128 + (len as i128) < 0 {
            0
        } else {
            (v as i128 + len as i128) as usize
        },
    };
    (lo, hi)
}

/// What to search for, and where: the arguments of `find`, `index`, `count` and their kin.
#[derive(Debug)]
pub struct ByteInnerFindOptions {
    /// Bytes, or an integer that stands for a single byte.
    pub sub: Either<PyBytesInner, i128>,
    pub start: Option<isize>,
    pub end: Option<isize>,
}

/// The bytes that are searched for.
pub open spec fn needle_of(sub: Either<PyBytesInner, i128>) -> PyResult<Seq<u8>> {
    match sub {
        Either::A(bytes) => Ok(bytes@),
        Either::B(i) => match byte_of_int(i as int) {
            Ok(b) => Ok(seq![b]),
            Err(e) => Err(e),
        },
    }
}

/// The bytes that are searched for.
fn needle(sub: &Either<PyBytesInner, i128>) -> (r: PyResult<Vec<u8>>)
    ensures
        crate::object::agrees(r, needle_of(*sub)),
{
    match sub {
        Either::A(bytes) => Ok(slice_to_vec(bytes.elements.as_slice())),
        Either::B(i) => match value_from_int(*i) {
            Ok(b) => {
                let r: Vec<u8> = vec![b];
                assert(r@ =~= seq![b]);
                Ok(r)
            },
            Err(e) => Err(e),
        },
    }
}

/// The first position from `start` to `end` at which `needle` stands in `s`. There is none where
/// `start` lies beyond `end`.
pub open spec fn found_in(
    s: Seq<u8>,
    needle: Seq<u8>,
    start: Option<isize>,
    end: Option<isize>,
) -> Option<int> {
    let lo = search_start(start, s.len() as int);
    let hi = search_end(end, s.len() as int);
    if lo > hi {
        None
    } else {
        match first_occurrence(s.subrange(lo, hi), needle) {
            Some(i) => Some(lo + i),
            None => None,
        }
    }
}

/// The last position from `start` to `end` at which `needle` stands in `s`.
pub open spec fn rfound_in(
    s: Seq<u8>,
    needle: Seq<u8>,
    start: Option<isize>,
    end: Option<isize>,
) -> Option<int> {
    let lo = search_start(start, s.len() as int);
    let hi = search_end(end, s.len() as int);
    if lo > hi {
        None
    } else {
        match last_occurrence(s.subrange(lo, hi), needle) {
            Some(i) => Some(lo + i),
            None => None,
        }
    }
}

/// The first position at which what `options` ask for stands in `s`.
pub open spec fn find_result(s: Seq<u8>, options: ByteInnerFindOptions) -> PyResult<Option<int>> {
    match needle_of(options.sub) {
        Err(e) => Err(e),
        Ok(needle) => Ok(found_in(s, needle, options.start, options.end)),
    }
}

/// The last position at which what `options` ask for stands in `s`.
pub open spec fn rfind_result(s: Seq<u8>, options: ByteInnerFindOptions) -> PyResult<Option<int>> {
    match needle_of(options.sub) {
        Err(e) => Err(e),
        Ok(needle) => Ok(rfound_in(s, needle, options.start, options.end)),
    }
}

/// Whether the executable result `r` of a search is the result `s`.
pub open spec fn same_search(r: PyResult<Option<usize>>, s: PyResult<Option<int>>) -> bool {
    match (r, s) {
        (Ok(i), Ok(j)) => same_position(i, j),
        (Err(e), Err(f)) => e == f,
        _ => false,
    }
}

/// Finds the first position at which what `options` ask for stands in `s`.
pub fn find_first(s: &[u8], options: &ByteInnerFindOptions) -> (r: PyResult<Option<usize>>)
    ensures
        same_search(r, find_result(s@, *options)),
{
    let needle = match needle(&options.sub) {
        Ok(needle) => needle,
        Err(e) => return Err(e),
    };
    let (lo, hi) = adjust_indices(options.start, options.end, s.len());
    if lo > hi {
        return Ok(None);
    }
    let part = slice_subrange(s, lo, hi);
    match find(part, needle.as_slice()) {
        Some(i) => {
            proof {
                lemma_first_exists(part@, needle@);
            }
            Ok(Some(lo + i))
        },
        None => Ok(None),
    }
}

/// Finds the last position at which what `options` ask for stands in `s`.
pub fn find_last(s: &[u8], options: &ByteInnerFindOptions) -> (r: PyResult<Option<usize>>)
    ensures
        same_search(r, rfind_result(s@, *options)),
{
    let needle = match needle(&options.sub) {
        Ok(needle) => needle,
        Err(e) => return Err(e),
    };
    let (lo, hi) = adjust_indices(options.start, options.end, s.len());
    if lo > hi {
        return Ok(None);
    }
    let part = slice_subrange(s, lo, hi);
    match rfind(part, needle.as_slice()) {
        Some(i) => {
            proof {
                lemma_last_exists(part@, needle@);
            }
            Ok(Some(lo + i))
        },
        None => Ok(None),
    }
}

/// How far a search goes on after an occurrence of `needle`: past it, and by one byte at least.
pub open spec fn stride(needle: Seq<u8>) -> int {
    if needle.len() == 0 {
        1
    } else {
        needle.len() as int
    }
}

/// How often `needle` stands in `s` without overlap, counted from the left. The empty needle stands
/// before every byte and at the end.
pub open spec fn occurrences(s: Seq<u8>, needle: Seq<u8>) -> nat
    decreases s.len(),
{
    match first_occurrence(s, needle) {
        None => 0,
        Some(i) => if 0 <= i && i + stride(needle) <= s.len() {
            1 + occurrences(s.skip(i + stride(needle)), needle)
        } else {
            1
        },
    }
}

/// How often what `options` ask for stands in `s`.
pub open spec fn count_result(s: Seq<u8>, options: ByteInnerFindOptions) -> PyResult<nat> {
    let lo = search_start(options.start, s.len() as int);
    let hi = search_end(options.end, s.len() as int);
    match needle_of(options.sub) {
        Err(e) => Err(e),
        Ok(needle) => if lo > hi {
            Ok(0)
        } else {
            Ok(occurrences(s.subrange(lo, hi), needle))
        },
    }
}

/// There are no more occurrences than positions.
pub proof fn lemma_occurrences_bound(s: Seq<u8>, needle: Seq<u8>)
    ensures
        occurrences(s, needle) <= s.len() + 1,
        needle.len() > 0 ==> occurrences(s, needle) <= s.len(),
    decreases s.len(),
{
    lemma_first_exists(s, needle);
    match first_occurrence(s, needle) {
        None => {},
        Some(i) => if 0 <= i && i + stride(needle) <= s.len() {
            lemma_occurrences_bound(s.skip(i + stride(needle)), needle);
        },
    }
}

/// Counts how often `needle` stands in `s`.
fn count_occurrences(s: &[u8], needle: &[u8]) -> (r: usize)
    requires
        needle@.len() == 0 ==> s@.len() < usize::MAX,
    ensures
        r == occurrences(s@, needle@),
{
    let step: usize = if needle.len() == 0 {
        1
    } else {
        needle.len()
    };
    let mut from: usize = 0;
    let mut n: usize = 0;
    assert(s@.subrange(0, s@.len() as int) =~= s@);
    loop
        invariant
            from <= s@.len(),
            needle@.len() == 0 ==> s@.len() < usize::MAX,
            step == stride(needle@),
            n + occurrences(s@.subrange(from as int, s@.len() as int), needle@) == occurrences(
                s@,
                needle@,
            ),
        decreases s@.len() - from,
    {
        let part = slice_subrange(s, from, s.len());
        proof {
            lemma_first_exists(part@, needle@);
            lemma_occurrences_bound(s@, needle@);
        }
        match find(part, needle) {
            None => return n,
            Some(i) => {
                n += 1;
                if step <= part.len() && i <= part.len() - step {
                    assert(part@.skip(i + step) =~= s@.subrange(from + i + step, s@.len() as int));
                    from = from + i + step;
                } else {
                    return n;
                }
            },
        }
    }
}

/// Whether the number of occurrences of what `options` ask for fits `usize`.
pub open spec fn count_fits(s: Seq<u8>, options: ByteInnerFindOptions) -> bool {
    needle_of(options.sub) == Ok::<Seq<u8>, PyException>(Seq::empty()) ==> s.len() < usize::MAX
}

/// Counts how often what `options` ask for stands in `s`.
pub fn count(s: &[u8], options: &ByteInnerFindOptions) -> (r: PyResult<usize>)
    requires
        count_fits(s@, *options),
    ensures
        match (r, count_result(s@, *options)) {
            (Ok(n), Ok(m)) => n == m,
            (Err(e), Err(f)) => e == f,
            _ => false,
        },
{
    let needle = match needle(&options.sub) {
        Ok(needle) => needle,
        Err(e) => return Err(e),
    };
    let (lo, hi) = adjust_indices(options.start, options.end, s.len());
    if lo > hi {
        return Ok(0);
    }
    proof {
        if needle@.len() == 0 {
            assert(needle@ =~= Seq::<u8>::empty());
        }
    }
    Ok(count_occurrences(slice_subrange(s, lo, hi), needle.as_slice()))
}

/// Whether what `needle` asks for stands in `s`: a subsequence, or an integer that stands for a
/// byte.
pub open spec fn contains_result(s: Seq<u8>, needle: Either<PyBytesInner, i128>) -> PyResult<bool> {
    match needle {
        Either::A(bytes) => Ok(contained(s, bytes@)),
        Either::B(i) => match byte_of_int(i as int) {
            Ok(b) => Ok(s.contains(b)),
            Err(e) => Err(e),
        },
    }
}

/// Whether what `needle` asks for stands in `s`.
pub fn contains(s: &[u8], needle: &Either<PyBytesInner, i128>) -> (r: PyResult<bool>)
    ensures
        r == contains_result(s@, *needle),
{
    match needle {
        Either::A(bytes) => {
            proof {
                lemma_first_exists(s@, bytes@);
            }
            Ok(find(s, bytes.elements.as_slice()).is_some())
        },
        Either::B(i) => match value_from_int(*i) {
            Ok(b) => Ok(bstr_find_byte(s, b).is_some()),
            Err(e) => Err(e),
        },
    }
}

/// The arguments of `startswith` and `endswith`.
#[derive(Debug)]
pub struct StartsEndsWithArgs {
    /// Bytes, or a tuple of bytes.
    pub affix: PyObject,
    pub start: Option<isize>,
    pub end: Option<isize>,
}

/// Whether `s` begins with `affix`, or ends with it when `at_end`.
pub open spec fn has_affix(s: Seq<u8>, affix: Seq<u8>, at_end: bool) -> bool {
    if at_end {
        affix.is_suffix_of(s)
    } else {
        affix.is_prefix_of(s)
    }
}

/// Whether `s` has one of `affixes`, tried in order. One that is no bytes raises, unless one before
/// it fits.
pub open spec fn has_any_affix(s: Seq<u8>, affixes: Seq<PyObject>, at_end: bool) -> PyResult<bool>
    decreases affixes.len(),
{
    if affixes.len() == 0 {
        Ok(false)
    } else {
        match affixes[0] {
            PyObject::Bytes(affix) => if has_affix(s, affix@, at_end) {
                Ok(true)
            } else {
                has_any_affix(s, affixes.drop_first(), at_end)
            },
            _ => Err(PyException::NotBytesLike),
        }
    }
}

/// Whether the part of `s` that `args` name begins, or ends, with an affix that they give.
pub open spec fn affix_result(
    s: Seq<u8>,
    args: StartsEndsWithArgs,
    at_end: bool,
) -> PyResult<bool> {
    let lo = search_start(args.start, s.len() as int);
    let hi = search_end(args.end, s.len() as int);
    if lo > hi {
        Ok(false)
    } else {
        match args.affix {
            PyObject::Bytes(affix) => Ok(has_affix(s.subrange(lo, hi), affix@, at_end)),
            PyObject::Tuple(affixes) => has_any_affix(s.subrange(lo, hi), affixes@, at_end),
            _ => Err(PyException::BadAffix),
        }
    }
}

/// Whether `a` and `b` hold the same bytes.
pub fn same_bytes(a: &[u8], b: &[u8]) -> (r: bool)
    ensures
        r == (a@ == b@),
{
    if a.len() != b.len() {
        return false;
    }
    let mut i: usize = 0;
    while i < a.len()
        invariant
            i <= a@.len() == b@.len(),
            forall|j: int| 0 <= j < i ==> a@[j] == b@[j],
        decreases a.len() - i,
    {
        if a[i] != b[i] {
            return false;
        }
        i += 1;
    }
    assert(a@ =~= b@);
    true
}

/// Whether `s` begins with `prefix`.
pub fn starts_with(s: &[u8], prefix: &[u8]) -> (r: bool)
    ensures
        r == prefix@.is_prefix_of(s@),
{
    prefix.len() <= s.len() && same_bytes(slice_subrange(s, 0, prefix.len()), prefix)
}

/// Whether `s` ends with `suffix`.
pub fn ends_with(s: &[u8], suffix: &[u8]) -> (r: bool)
    ensures
        r == suffix@.is_suffix_of(s@),
{
    suffix.len() <= s.len() && same_bytes(
        slice_subrange(s, s.len() - suffix.len(), s.len()),
        suffix,
    )
}

/// Whether `s` begins with `affix`, or ends with it when `at_end`.
fn fits_affix(s: &[u8], affix: &[u8], at_end: bool) -> (r: bool)
    ensures
        r == has_affix(s@, affix@, at_end),
{
    if at_end {
        ends_with(s, affix)
    } else {
        starts_with(s, affix)
    }
}

/// Whether `s` has one of `affixes`, tried in order.
fn any_affix(s: &[u8], affixes: &Vec<PyObject>, at_end: bool) -> (r: PyResult<bool>)
    ensures
        r == has_any_affix(s@, affixes@, at_end),
{
    let mut i: usize = 0;
    assert(affixes@.skip(0) =~= affixes@);
    while i < affixes.len()
        invariant
            i <= affixes.len(),
            has_any_affix(s@, affixes@.skip(i as int), at_end) == has_any_affix(
                s@,
                affixes@,
                at_end,
            ),
        decreases affixes.len() - i,
    {
        assert(affixes@.skip(i as int).drop_first() =~= affixes@.skip(i + 1));
        match &affixes[i] {
            PyObject::Bytes(affix) => if fits_affix(s, affix.as_slice(), at_end) {
                return Ok(true);
            },
            _ => return Err(PyException::NotBytesLike),
        }
        i += 1;
    }
    Ok(false)
}

/// Whether the part of `s` that `args` name begins, or ends, with an affix that they give.
pub fn startsendswith(s: &[u8], args: &StartsEndsWithArgs, at_end: bool) -> (r: PyResult<bool>)
    ensures
        r == affix_result(s@, *args, at_end),
{
    let (lo, hi) = adjust_indices(args.start, args.end, s.len());
    if lo > hi {
        return Ok(false);
    }
    let part = slice_subrange(s, lo, hi);
    match &args.affix {
        PyObject::Bytes(affix) => Ok(fits_affix(part, affix.as_slice(), at_end)),
        PyObject::Tuple(affixes) => any_affix(part, affixes, at_end),
        _ => Err(PyException::BadAffix),
    }
}

} // verus!
