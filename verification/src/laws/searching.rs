//! Laws of searching.
use crate::bytearray::{certain_position, signed_position};
use crate::bytesinner::PyBytesInner;
use crate::error::{PyException, PyResult};
use crate::object::Either;
use crate::search::{
    contained, contains_result, find_result, first_at, first_byte_at, first_occurrence, found_in,
    has_affix, last_at, last_occurrence, lemma_first_exists, lemma_first_is, lemma_last_exists,
    lemma_last_is, needle_of, occurrences, occurs_at, rfind_result, rfound_in, search_end,
    search_start, ByteInnerFindOptions,
};
use vstd::prelude::*;

verus! {

/// A search from the left finds something exactly where one from the right does, and what is found
/// from the left does not lie behind what is found from the right. Both stand in the searched part.
pub proof fn law_find_rfind(s: Seq<u8>, needle: Seq<u8>, start: Option<isize>, end: Option<isize>)
    ensures
        found_in(s, needle, start, end) is Some <==> rfound_in(s, needle, start, end) is Some,
        found_in(s, needle, start, end) is Some ==> {
            let i = found_in(s, needle, start, end)->0;
            let j = rfound_in(s, needle, start, end)->0;
            &&& search_start(start, s.len() as int) <= i <= j
            &&& j + needle.len() <= search_end(end, s.len() as int)
            &&& occurs_at(s, needle, i)
            &&& occurs_at(s, needle, j)
        },
{
    let lo = search_start(start, s.len() as int);
    let hi = search_end(end, s.len() as int);
    if lo <= hi {
        let part = s.subrange(lo, hi);
        lemma_first_exists(part, needle);
        lemma_last_exists(part, needle);
        if let Some(i) = first_occurrence(part, needle) {
            assert(occurs_at(part, needle, i));
            let j = last_occurrence(part, needle)->0;
            assert(s.subrange(lo + i, lo + i + needle.len()) =~= part.subrange(
                i,
                i + needle.len(),
            ));
            assert(s.subrange(lo + j, lo + j + needle.len()) =~= part.subrange(
                j,
                j + needle.len(),
            ));
        }
    }
}

/// Nothing stands in the searched part before what is found from the left, nor behind what is found
/// from the right.
pub proof fn law_find_extreme(
    s: Seq<u8>,
    needle: Seq<u8>,
    start: Option<isize>,
    end: Option<isize>,
    k: int,
)
    requires
        search_start(start, s.len() as int) <= k,
        k + needle.len() <= search_end(end, s.len() as int),
        occurs_at(s, needle, k),
    ensures
        found_in(s, needle, start, end) is Some,
        found_in(s, needle, start, end)->0 <= k <= rfound_in(s, needle, start, end)->0,
{
    let lo = search_start(start, s.len() as int);
    let hi = search_end(end, s.len() as int);
    let part = s.subrange(lo, hi);
    assert(part.subrange(k - lo, k - lo + needle.len()) =~= s.subrange(k, k + needle.len()));
    assert(occurs_at(part, needle, k - lo));
    lemma_first_exists(part, needle);
    lemma_last_exists(part, needle);
}

/// A subsequence occurs exactly where a search through everything finds it; so it is with a byte.
pub proof fn law_contains_is_found(s: Seq<u8>, needle: Either<PyBytesInner, i128>)
    requires
        needle_of(needle) is Ok,
    ensures
        contains_result(s, needle) == Ok::<bool, PyException>(
            found_in(s, needle_of(needle)->Ok_0, None, None) is Some,
        ),
{
    let bytes = needle_of(needle)->Ok_0;
    assert(s.subrange(0, s.len() as int) =~= s);
    lemma_first_exists(s, bytes);
    if let Either::B(_) = needle {
        let b = bytes[0];
        if s.contains(b) {
            let i = choose|i: int| 0 <= i < s.len() && s[i] == b;
            assert(s.subrange(i, i + 1) =~= bytes);
            assert(occurs_at(s, bytes, i));
        }
        if contained(s, bytes) {
            let i = choose|i: int| occurs_at(s, bytes, i);
            assert(s.subrange(i, i + 1)[0] == s[i]);
        }
    }
}

/// A sequence begins with another exactly where that one occurs at its start, and ends with it
/// exactly where it occurs at its end.
pub proof fn law_affix_is_occurrence(s: Seq<u8>, affix: Seq<u8>)
    ensures
        has_affix(s, affix, false) <==> occurs_at(s, affix, 0),
        has_affix(s, affix, true) <==> occurs_at(s, affix, s.len() - affix.len()),
{
    if affix.len() <= s.len() {
        assert(s.subrange(s.len() - affix.len(), s.len() - affix.len() + affix.len())
            =~= s.subrange(s.len() - affix.len(), s.len() as int));
    }
}

/// Something occurs exactly where it is counted at least once.
pub proof fn law_counted_is_contained(s: Seq<u8>, needle: Seq<u8>)
    ensures
        occurrences(s, needle) > 0 <==> contained(s, needle),
{
    lemma_first_exists(s, needle);
}

/// The empty sequence occurs before every byte and at the end.
pub proof fn law_count_empty(s: Seq<u8>)
    ensures
        occurrences(s, Seq::empty()) == s.len() + 1,
    decreases s.len(),
{
    let needle = Seq::<u8>::empty();
    assert(s.subrange(0, 0) =~= needle);
    assert(occurs_at(s, needle, 0));
    assert(first_at(s, needle, 0));
    lemma_first_is(s, needle, 0);
    if s.len() > 0 {
        law_count_empty(s.skip(1));
    }
}

/// The empty sequence is found at the start of the searched part, and from the right at its end.
pub proof fn law_find_empty(s: Seq<u8>, start: Option<isize>, end: Option<isize>)
    requires
        search_start(start, s.len() as int) <= search_end(end, s.len() as int),
    ensures
        found_in(s, Seq::empty(), start, end) == Some(search_start(start, s.len() as int)),
        rfound_in(s, Seq::empty(), start, end) == Some(search_end(end, s.len() as int)),
{
    let lo = search_start(start, s.len() as int);
    let hi = search_end(end, s.len() as int);
    let part = s.subrange(lo, hi);
    let needle = Seq::<u8>::empty();
    assert(part.subrange(0, 0) =~= needle);
    assert(first_at(part, needle, 0));
    lemma_first_is(part, needle, 0);
    let n = part.len() as int;
    assert(part.subrange(n, n) =~= needle);
    assert(last_at(part, needle, n));
    lemma_last_is(part, needle, n);
}

/// A search for an integer is a search for the byte that it stands for.
pub proof fn law_find_byte(s: Seq<u8>, b: u8)
    ensures
        ({
            let options = ByteInnerFindOptions {
                sub: Either::B(b as i128),
                start: None,
                end: None,
            };
            find_result(s, options) == Ok::<Option<int>, PyException>(
                crate::search::first_byte(s, b),
            )
        }),
{
    let needle = seq![b];
    assert(s.subrange(0, s.len() as int) =~= s);
    lemma_first_exists(s, needle);
    assert forall|i: int| #[trigger] first_byte_at(s, b, i) implies first_at(s, needle, i) by {
        assert(s.subrange(i, i + 1) =~= needle);
        assert forall|j: int| occurs_at(s, needle, j) implies i <= j by {
            assert(s.subrange(j, j + 1)[0] == s[j]);
        }
    }
    if let Some(i) = first_occurrence(s, needle) {
        assert(s.subrange(i, i + 1)[0] == s[i]);
        assert forall|j: int| 0 <= j < i implies s[j] != b by {
            if s[j] == b {
                assert(s.subrange(j, j + 1) =~= needle);
                assert(occurs_at(s, needle, j));
            }
        }
        assert(first_byte_at(s, b, i));
        let k = choose|k: int| first_byte_at(s, b, k);
        assert(first_byte_at(s, b, k));
        assert(i == k);
    } else {
        assert forall|i: int| !first_byte_at(s, b, i) by {
            if first_byte_at(s, b, i) {
                assert(first_at(s, needle, i));
            }
        }
    }
}

/// What a search that yields -1 for nothing, and one that raises then, yield for the same arguments:
/// the same position, where the signed one is not negative; -1 exactly where the other finds
/// nothing; and otherwise the same exception.
pub open spec fn consistent(signed: PyResult<isize>, certain: PyResult<usize>) -> bool {
    &&& signed matches Ok(p) ==> p >= 0 ==> certain == Ok::<usize, PyException>(p as usize)
    &&& certain matches Ok(i) ==> i <= isize::MAX ==> signed == Ok::<isize, PyException>(i as isize)
    &&& signed == Ok::<isize, PyException>((-1) as isize) <==> certain == Err::<usize, PyException>(
        PyException::SubstringNotFound,
    )
    &&& signed matches Err(e) ==> certain == Err::<usize, PyException>(e)
    &&& certain matches Err(e) ==> e != PyException::SubstringNotFound ==> signed == Err::<
        isize,
        PyException,
    >(e)
}

/// Of the positions as signed integers, those that are not negative are the positions themselves,
/// and only the greatest is -1.
proof fn lemma_signed(i: usize)
    ensures
        (i as isize) >= 0 ==> (i as isize) == i,
        (i as isize) == -1 ==> i == usize::MAX,
{
    assert((i as isize) >= 0 ==> ((i as isize) as usize) == i) by (bit_vector);
    assert((i as isize) == -1 ==> ((i + 1) as usize) == 0) by (bit_vector);
}

/// `find` yields what `index` yields, and -1 exactly where `index` finds nothing.
pub proof fn law_find_and_index(
    s: Seq<u8>,
    options: ByteInnerFindOptions,
    signed: PyResult<isize>,
    certain: PyResult<usize>,
)
    requires
        s.len() <= usize::MAX,
        signed_position(signed, find_result(s, options)),
        certain_position(certain, find_result(s, options)),
    ensures
        consistent(signed, certain),
{
    if let Ok(needle) = needle_of(options.sub) {
        law_find_rfind(s, needle, options.start, options.end);
        if let Some(i) = found_in(s, needle, options.start, options.end) {
            if needle.len() == 0 {
                assert(needle =~= Seq::empty());
                law_find_empty(s, options.start, options.end);
            }
            lemma_signed(i as usize);
        }
    }
}

/// `rfind` yields what `rindex` yields, and -1 exactly where `rindex` finds nothing, as long as what
/// is found does not stand at the greatest position that there is, which is -1 as a signed integer.
pub proof fn law_rfind_and_rindex(
    s: Seq<u8>,
    options: ByteInnerFindOptions,
    signed: PyResult<isize>,
    certain: PyResult<usize>,
)
    requires
        s.len() <= usize::MAX,
        rfind_result(s, options) != Ok::<Option<int>, PyException>(Some(usize::MAX as int)),
        signed_position(signed, rfind_result(s, options)),
        certain_position(certain, rfind_result(s, options)),
    ensures
        consistent(signed, certain),
{
    if let Ok(needle) = needle_of(options.sub) {
        law_find_rfind(s, needle, options.start, options.end);
        if let Some(i) = rfound_in(s, needle, options.start, options.end) {
            lemma_signed(i as usize);
        }
    }
}

} // verus!
