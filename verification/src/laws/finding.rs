//! Laws of where a search looks, of what it finds there, and of what it takes.
use crate::bytesinner::PyBytesInner;
use crate::error::PyException;
use crate::object::{Either, PyObject};
use crate::parts::split_parts;
use crate::search::{
    affix_result, contained, contains_result, count_result, find_result, first_occurrence,
    has_affix, has_any_affix, last_occurrence, lemma_first_exists, lemma_last_exists, needle_of,
    occurrences, occurs_at, rfind_result, ByteInnerFindOptions, StartsEndsWithArgs,
};
use vstd::prelude::*;

verus! {

/// A search for `sub` from `start` to `end`.
pub open spec fn sought(
    sub: Either<PyBytesInner, i128>,
    start: Option<isize>,
    end: Option<isize>,
) -> ByteInnerFindOptions {
    ByteInnerFindOptions { sub, start, end }
}

/// A test for `affix` from `start` to `end`.
pub open spec fn tested(
    affix: PyObject,
    start: Option<isize>,
    end: Option<isize>,
) -> StartsEndsWithArgs {
    StartsEndsWithArgs { affix, start, end }
}

/// Whether `needle` stands at `i` between `a` and `b`.
pub open spec fn stands_between(s: Seq<u8>, needle: Seq<u8>, a: int, b: int, i: int) -> bool {
    &&& a <= i
    &&& i + needle.len() <= b
    &&& s.subrange(i, i + needle.len()) == needle
}

proof fn lemma_stands(s: Seq<u8>, needle: Seq<u8>, a: int, b: int, i: int)
    requires
        0 <= a <= b <= s.len(),
    ensures
        stands_between(s, needle, a, b, i) <==> occurs_at(s.subrange(a, b), needle, i - a),
{
    if a <= i && i + needle.len() <= b {
        assert(s.subrange(a, b).subrange(i - a, i - a + needle.len()) =~= s.subrange(
            i,
            i + needle.len(),
        ));
    }
}

/// A search between two bounds finds the leftmost occurrence there, or from the right the rightmost;
/// nothing is found exactly where there is none.
pub proof fn law_find_between(s: Seq<u8>, needle: PyBytesInner, a: isize, b: isize, k: int)
    requires
        0 <= a <= b <= s.len(),
    ensures
        ({
            let options = sought(Either::A(needle), Some(a), Some(b));
            &&& find_result(s, options) is Ok
            &&& rfind_result(s, options) is Ok
            &&& match find_result(s, options)->Ok_0 {
                Some(i) => {
                    &&& stands_between(s, needle@, a as int, b as int, i)
                    &&& stands_between(s, needle@, a as int, b as int, k) ==> i <= k
                },
                None => !stands_between(s, needle@, a as int, b as int, k),
            }
            &&& match rfind_result(s, options)->Ok_0 {
                Some(i) => {
                    &&& stands_between(s, needle@, a as int, b as int, i)
                    &&& stands_between(s, needle@, a as int, b as int, k) ==> k <= i
                },
                None => !stands_between(s, needle@, a as int, b as int, k),
            }
        }),
{
    let part = s.subrange(a as int, b as int);
    lemma_first_exists(part, needle@);
    lemma_last_exists(part, needle@);
    lemma_stands(s, needle@, a as int, b as int, k);
    if let Some(i) = first_occurrence(part, needle@) {
        lemma_stands(s, needle@, a as int, b as int, a + i);
    }
    if let Some(i) = last_occurrence(part, needle@) {
        lemma_stands(s, needle@, a as int, b as int, a + i);
    }
}

/// To count, or to test for an affix, between two bounds is to do so in what stands between them.
pub proof fn law_count_between(
    s: Seq<u8>,
    sub: Either<PyBytesInner, i128>,
    affix: PyObject,
    at_end: bool,
    a: isize,
    b: isize,
)
    requires
        0 <= a <= b <= s.len(),
    ensures
        ({
            let part = s.subrange(a as int, b as int);
            &&& count_result(s, sought(sub, Some(a), Some(b))) == count_result(
                part,
                sought(sub, None, None),
            )
            &&& affix_result(s, tested(affix, Some(a), Some(b)), at_end) == affix_result(
                part,
                tested(affix, None, None),
                at_end,
            )
        }),
{
    let part = s.subrange(a as int, b as int);
    assert(part.subrange(0, part.len() as int) =~= part);
}

/// Whether two pairs of bounds mean the same to every search.
pub open spec fn same_searches(
    s: Seq<u8>,
    sub: Either<PyBytesInner, i128>,
    affix: PyObject,
    at_end: bool,
    x: (Option<isize>, Option<isize>),
    y: (Option<isize>, Option<isize>),
) -> bool {
    &&& find_result(s, sought(sub, x.0, x.1)) == find_result(s, sought(sub, y.0, y.1))
    &&& rfind_result(s, sought(sub, x.0, x.1)) == rfind_result(s, sought(sub, y.0, y.1))
    &&& count_result(s, sought(sub, x.0, x.1)) == count_result(s, sought(sub, y.0, y.1))
    &&& affix_result(s, tested(affix, x.0, x.1), at_end) == affix_result(
        s,
        tested(affix, y.0, y.1),
        at_end,
    )
}

/// A negative bound of a search counts from the end.
pub proof fn law_search_from_the_end(
    s: Seq<u8>,
    sub: Either<PyBytesInner, i128>,
    affix: PyObject,
    at_end: bool,
    v: isize,
    other: Option<isize>,
)
    requires
        s.len() <= isize::MAX,
        -s.len() <= v < 0,
    ensures
        ({
            let w = (v + s.len()) as isize;
            &&& same_searches(s, sub, affix, at_end, (Some(v), other), (Some(w), other))
            &&& same_searches(s, sub, affix, at_end, (other, Some(v)), (other, Some(w)))
        }),
{
}

/// A search without bounds goes from the front to the end.
pub proof fn law_search_everywhere(
    s: Seq<u8>,
    sub: Either<PyBytesInner, i128>,
    affix: PyObject,
    at_end: bool,
    other: Option<isize>,
)
    requires
        s.len() <= isize::MAX,
    ensures
        same_searches(s, sub, affix, at_end, (None, other), (Some(0), other)),
        same_searches(s, sub, affix, at_end, (other, None), (other, Some(s.len() as isize))),
{
}

/// Bounds of a search before the front mean the front, and an end behind the end means the end; from
/// a start behind the end, or from one behind the stop, nothing is found.
pub proof fn law_search_outside(
    s: Seq<u8>,
    sub: Either<PyBytesInner, i128>,
    affix: PyObject,
    at_end: bool,
    v: isize,
    other: Option<isize>,
)
    requires
        s.len() <= isize::MAX,
        needle_of(sub) is Ok,
    ensures
        v < -s.len() ==> {
            &&& same_searches(s, sub, affix, at_end, (Some(v), other), (Some(0), other))
            &&& same_searches(s, sub, affix, at_end, (other, Some(v)), (other, Some(0)))
        },
        v >= s.len() ==> same_searches(
            s,
            sub,
            affix,
            at_end,
            (other, Some(v)),
            (other, Some(s.len() as isize)),
        ),
        v > s.len() || (other matches Some(w) && 0 <= w < v) ==> {
            &&& find_result(s, sought(sub, Some(v), other)) == Ok::<Option<int>, PyException>(None)
            &&& rfind_result(s, sought(sub, Some(v), other)) == Ok::<Option<int>, PyException>(
                None,
            )
            &&& count_result(s, sought(sub, Some(v), other)) == Ok::<nat, PyException>(0)
            &&& affix_result(s, tested(affix, Some(v), other), at_end) == Ok::<bool, PyException>(
                false,
            )
        },
{
}

/// An integer is sought as the byte that it is, and refused where it is none.
pub proof fn law_integers_sought(
    s: Seq<u8>,
    i: i128,
    single: PyBytesInner,
    start: Option<isize>,
    end: Option<isize>,
)
    ensures
        0 <= i < 256 && single@ == seq![i as u8] ==> {
            &&& find_result(s, sought(Either::B(i), start, end)) == find_result(
                s,
                sought(Either::A(single), start, end),
            )
            &&& rfind_result(s, sought(Either::B(i), start, end)) == rfind_result(
                s,
                sought(Either::A(single), start, end),
            )
            &&& count_result(s, sought(Either::B(i), start, end)) == count_result(
                s,
                sought(Either::A(single), start, end),
            )
            &&& contains_result(s, Either::B(i)) == contains_result(s, Either::A(single))
        },
        i < 0 || i >= 256 ==> {
            &&& find_result(s, sought(Either::B(i), start, end)) == Err::<Option<int>, PyException>(
                PyException::ByteOutOfRange,
            )
            &&& rfind_result(s, sought(Either::B(i), start, end)) == Err::<
                Option<int>,
                PyException,
            >(PyException::ByteOutOfRange)
            &&& count_result(s, sought(Either::B(i), start, end)) == Err::<nat, PyException>(
                PyException::ByteOutOfRange,
            )
            &&& contains_result(s, Either::B(i)) == Err::<bool, PyException>(
                PyException::ByteOutOfRange,
            )
        },
{
    if 0 <= i < 256 && single@ == seq![i as u8] {
        let b = i as u8;
        if s.contains(b) {
            let k = choose|k: int| 0 <= k < s.len() && s[k] == b;
            assert(s.subrange(k, k + 1) =~= single@);
            assert(occurs_at(s, single@, k));
        }
        if contained(s, single@) {
            let k = choose|k: int| occurs_at(s, single@, k);
            assert(s.subrange(k, k + 1)[0] == s[k]);
        }
    }
}

/// A subsequence is contained exactly where it stands somewhere.
pub proof fn law_contained(s: Seq<u8>, needle: PyBytesInner)
    ensures
        contains_result(s, Either::A(needle)) == Ok::<bool, PyException>(
            exists|i: int| stands_between(s, needle@, 0, s.len() as int, i),
        ),
{
    assert(s.subrange(0, s.len() as int) =~= s);
    if contained(s, needle@) {
        let i = choose|i: int| occurs_at(s, needle@, i);
        lemma_stands(s, needle@, 0, s.len() as int, i);
    }
    if exists|i: int| stands_between(s, needle@, 0, s.len() as int, i) {
        let i = choose|i: int| stands_between(s, needle@, 0, s.len() as int, i);
        lemma_stands(s, needle@, 0, s.len() as int, i);
    }
}

/// The count of a subsequence is one more than the count behind its first occurrence; where it does
/// not occur, the count is zero.
pub proof fn law_count_behind_first(s: Seq<u8>, needle: PyBytesInner, i: int)
    requires
        needle@.len() > 0,
    ensures
        ({
            let everywhere = sought(Either::A(needle), None, None);
            &&& find_result(s, everywhere) == Ok::<Option<int>, PyException>(Some(i))
                ==> count_result(s, everywhere) is Ok && count_result(
                s.skip(i + needle@.len()),
                everywhere,
            ) is Ok && count_result(s, everywhere)->Ok_0 == 1 + count_result(
                s.skip(i + needle@.len()),
                everywhere,
            )->Ok_0
            &&& find_result(s, everywhere) == Ok::<Option<int>, PyException>(None)
                ==> count_result(s, everywhere) == Ok::<nat, PyException>(0)
        }),
{
    assert(s.subrange(0, s.len() as int) =~= s);
    lemma_first_exists(s, needle@);
    let rest = s.skip(i + needle@.len());
    assert(rest.subrange(0, rest.len() as int) =~= rest);
}

/// Nothing is counted before each byte and at the end.
pub proof fn law_count_nothing(s: Seq<u8>, needle: PyBytesInner)
    requires
        needle@.len() == 0,
    ensures
        count_result(s, sought(Either::A(needle), None, None)) == Ok::<nat, PyException>(
            s.len() + 1,
        ),
{
    assert(s.subrange(0, s.len() as int) =~= s);
    assert(needle@ =~= Seq::empty());
    crate::laws::searching::law_count_empty(s);
}

/// A subsequence is counted as often as splitting at it cuts.
pub proof fn law_count_is_cuts(s: Seq<u8>, needle: Seq<u8>)
    requires
        needle.len() > 0,
    ensures
        split_parts(s, needle, -1).len() == occurrences(s, needle) + 1,
    decreases s.len(),
{
    lemma_first_exists(s, needle);
    if let Some(i) = first_occurrence(s, needle) {
        law_count_is_cuts(s.skip(i + needle.len()), needle);
    }
}

/// The bytes of an affix.
pub open spec fn affix_bytes(affix: PyObject) -> Seq<u8> {
    match affix {
        PyObject::Bytes(v) => v@,
        _ => Seq::empty(),
    }
}

/// Whether the affix at `k` is bytes and fits.
pub open spec fn fits_at(s: Seq<u8>, affixes: Seq<PyObject>, at_end: bool, k: int) -> bool {
    &&& affixes[k] is Bytes
    &&& affix_bytes(affixes[k]).len() <= s.len()
    &&& if at_end {
        s.skip(s.len() - affix_bytes(affixes[k]).len()) == affix_bytes(affixes[k])
    } else {
        s.take(affix_bytes(affixes[k]).len() as int) == affix_bytes(affixes[k])
    }
}

/// A single affix fits where the sequence begins, or ends, with its bytes.
pub proof fn law_single_affix(s: Seq<u8>, affix: Vec<u8>, at_end: bool)
    ensures
        affix_result(s, tested(PyObject::Bytes(affix), None, None), at_end) == Ok::<
            bool,
            PyException,
        >(fits_at(s, seq![PyObject::Bytes(affix)], at_end, 0)),
{
    assert(s.subrange(0, s.len() as int) =~= s);
    lemma_fits(s, affix@, at_end);
}

proof fn lemma_fits(s: Seq<u8>, affix: Seq<u8>, at_end: bool)
    ensures
        has_affix(s, affix, at_end) <==> affix.len() <= s.len() && if at_end {
            s.skip(s.len() - affix.len()) == affix
        } else {
            s.take(affix.len() as int) == affix
        },
{
    if affix.len() <= s.len() {
        assert(s.skip(s.len() - affix.len()) =~= s.subrange(
            s.len() - affix.len(),
            s.len() as int,
        ));
        assert(s.take(affix.len() as int) =~= s.subrange(0, affix.len() as int));
    }
}

/// Whether the affix at `k` fits, and those before it are bytes.
pub open spec fn fits_first(s: Seq<u8>, affixes: Seq<PyObject>, at_end: bool, k: int) -> bool {
    &&& 0 <= k < affixes.len()
    &&& fits_at(s, affixes, at_end, k)
    &&& forall|j: int| 0 <= j < k ==> (#[trigger] affixes[j]) is Bytes
}

/// A tuple of affixes fits exactly where one of them fits, with nothing before it that is no bytes;
/// otherwise it does not fit where all are bytes, and is refused where one is not.
pub proof fn law_any_affix(s: Seq<u8>, affixes: Vec<PyObject>, at_end: bool)
    ensures
        ({
            let r = affix_result(s, tested(PyObject::Tuple(affixes), None, None), at_end);
            let some = exists|k: int| fits_first(s, affixes@, at_end, k);
            let all = forall|k: int| 0 <= k < affixes@.len() ==> (#[trigger] affixes@[k]) is Bytes;
            &&& some ==> r == Ok::<bool, PyException>(true)
            &&& !some && all ==> r == Ok::<bool, PyException>(false)
            &&& !some && !all ==> r == Err::<bool, PyException>(PyException::NotBytesLike)
        }),
{
    assert(s.subrange(0, s.len() as int) =~= s);
    let some = exists|k: int| fits_first(s, affixes@, at_end, k);
    if some {
        let k = choose|k: int| fits_first(s, affixes@, at_end, k);
        lemma_some_affix(s, affixes@, at_end, k);
    } else {
        lemma_no_affix(s, affixes@, at_end);
    }
}

/// Where one fits and those before it are bytes, the affixes fit.
proof fn lemma_some_affix(s: Seq<u8>, affixes: Seq<PyObject>, at_end: bool, k: int)
    requires
        fits_first(s, affixes, at_end, k),
    ensures
        has_any_affix(s, affixes, at_end) == Ok::<bool, PyException>(true),
    decreases k,
{
    lemma_fits(s, affix_bytes(affixes[0]), at_end);
    if k > 0 {
        let rest = affixes.drop_first();
        assert(affixes[0] is Bytes);
        assert forall|j: int| 0 <= j < k - 1 implies (#[trigger] rest[j]) is Bytes by {
            assert(rest[j] == affixes[j + 1]);
        }
        assert(rest[k - 1] == affixes[k]);
        lemma_some_affix(s, rest, at_end, k - 1);
    }
}

/// Where none fits that has bytes only before it, the affixes do not fit, or one is no bytes.
proof fn lemma_no_affix(s: Seq<u8>, affixes: Seq<PyObject>, at_end: bool)
    requires
        forall|k: int| !fits_first(s, affixes, at_end, k),
    ensures
        ({
            let all = forall|k: int| 0 <= k < affixes.len() ==> (#[trigger] affixes[k]) is Bytes;
            &&& all ==> has_any_affix(s, affixes, at_end) == Ok::<bool, PyException>(false)
            &&& !all ==> has_any_affix(s, affixes, at_end) == Err::<bool, PyException>(
                PyException::NotBytesLike,
            )
        }),
    decreases affixes.len(),
{
    if affixes.len() > 0 {
        lemma_fits(s, affix_bytes(affixes[0]), at_end);
        assert(!fits_first(s, affixes, at_end, 0));
        if affixes[0] is Bytes {
            let rest = affixes.drop_first();
            assert forall|k: int| !fits_first(s, rest, at_end, k) by {
                if fits_first(s, rest, at_end, k) {
                    assert(rest[k] == affixes[k + 1]);
                    assert forall|j: int| 0 <= j < k + 1 implies (#[trigger] affixes[j]) is Bytes by {
                        if j > 0 {
                            assert(rest[j - 1] == affixes[j]);
                        }
                    }
                    assert(fits_first(s, affixes, at_end, k + 1));
                }
            }
            lemma_no_affix(s, rest, at_end);
            let all = forall|k: int| 0 <= k < affixes.len() ==> (#[trigger] affixes[k]) is Bytes;
            if all {
                assert forall|k: int| 0 <= k < rest.len() implies (#[trigger] rest[k]) is Bytes by {
                    assert(rest[k] == affixes[k + 1]);
                }
            } else {
                let k = choose|k: int| 0 <= k < affixes.len() && !((#[trigger] affixes[k]) is Bytes);
                assert(rest[k - 1] == affixes[k]);
            }
        }
    }
}

/// What is neither bytes nor a tuple is no affix.
pub proof fn law_no_affix(s: Seq<u8>, affix: PyObject, at_end: bool)
    requires
        !(affix is Bytes) && !(affix is Tuple),
    ensures
        affix_result(s, tested(affix, None, None), at_end) == Err::<bool, PyException>(
            PyException::BadAffix,
        ),
{
}

} // verus!
