//! Splitting a sequence of bytes into parts, and joining parts.
use crate::bytesinner::PyBytesInner;
use crate::error::{PyException, PyResult};
use crate::object::{agrees, PyObject};
use crate::search::{
    find, first_occurrence, last_occurrence, lemma_first_exists, lemma_last_exists, occurs_at,
    rfind,
};
use crate::span::{
    lemma_rspan_exact, lemma_span_exact, lstripped, rspan, rspan_len, rstripped, span, span_len,
    whitespace, whitespace_bytes,
};
use vstd::prelude::*;
use vstd::slice::{slice_subrange, slice_to_vec};

verus! {

/// The bytes of each of the vectors `v`.
pub open spec fn pieces(v: Seq<Vec<u8>>) -> Seq<Seq<u8>> {
    Seq::new(v.len(), |i: int| v[i]@)
}

/// How many splits are left after one of `max`, where a negative number sets no limit.
pub open spec fn fewer(max: int) -> int {
    if max > 0 {
        max - 1
    } else {
        max
    }
}

/// The parts of `s` between the occurrences of `sep`, from the left, after `max` splits at most.
pub open spec fn split_parts(s: Seq<u8>, sep: Seq<u8>, max: int) -> Seq<Seq<u8>>
    decreases s.len(),
{
    match first_occurrence(s, sep) {
        Some(i) => if max != 0 && sep.len() > 0 && occurs_at(s, sep, i) {
            seq![s.take(i)] + split_parts(s.skip(i + sep.len()), sep, fewer(max))
        } else {
            seq![s]
        },
        None => seq![s],
    }
}

/// The parts of `s` between the occurrences of `sep`, from the right, after `max` splits at most.
pub open spec fn rsplit_parts(s: Seq<u8>, sep: Seq<u8>, max: int) -> Seq<Seq<u8>>
    decreases s.len(),
{
    match last_occurrence(s, sep) {
        Some(i) => if max != 0 && sep.len() > 0 && occurs_at(s, sep, i) {
            rsplit_parts(s.take(i), sep, fewer(max)).push(s.skip(i + sep.len()))
        } else {
            seq![s]
        },
        None => seq![s],
    }
}

/// The words of `s` between runs of whitespace, from the left, after `max` splits at most. What is
/// left after the last split keeps the whitespace at its end.
pub open spec fn split_words(s: Seq<u8>, max: int) -> Seq<Seq<u8>>
    decreases s.len(),
    when true
    via split_words_decreases
{
    let t = lstripped(s, whitespace());
    let n = span_len(t, whitespace(), false) as int;
    if t.len() == 0 {
        Seq::empty()
    } else if max == 0 {
        seq![t]
    } else {
        seq![t.take(n)] + split_words(t.skip(n), fewer(max))
    }
}

#[via_fn]
proof fn split_words_decreases(s: Seq<u8>, max: int) {
    lemma_word(s);
}

/// The words of `s` between runs of whitespace, from the right, after `max` splits at most. What is
/// left after the last split keeps the whitespace at its start.
pub open spec fn rsplit_words(s: Seq<u8>, max: int) -> Seq<Seq<u8>>
    decreases s.len(),
    when true
    via rsplit_words_decreases
{
    let t = rstripped(s, whitespace());
    let n = rspan_len(t, whitespace(), false) as int;
    if t.len() == 0 {
        Seq::empty()
    } else if max == 0 {
        seq![t]
    } else {
        rsplit_words(t.take(t.len() - n), fewer(max)).push(t.skip(t.len() - n))
    }
}

#[via_fn]
proof fn rsplit_words_decreases(s: Seq<u8>, max: int) {
    lemma_rword(s);
}

/// Stripped of whitespace at its start, a sequence is empty or begins with a word.
pub proof fn lemma_word(s: Seq<u8>)
    ensures
        lstripped(s, whitespace()).len() <= s.len(),
        span_len(lstripped(s, whitespace()), whitespace(), false) <= lstripped(
            s,
            whitespace(),
        ).len(),
        lstripped(s, whitespace()).len() > 0 ==> span_len(
            lstripped(s, whitespace()),
            whitespace(),
            false,
        ) > 0,
{
    lemma_span_exact(s, whitespace(), true);
    lemma_span_exact(lstripped(s, whitespace()), whitespace(), false);
}

/// Stripped of whitespace at its end, a sequence is empty or ends with a word.
pub proof fn lemma_rword(s: Seq<u8>)
    ensures
        rstripped(s, whitespace()).len() <= s.len(),
        rspan_len(rstripped(s, whitespace()), whitespace(), false) <= rstripped(
            s,
            whitespace(),
        ).len(),
        rstripped(s, whitespace()).len() > 0 ==> rspan_len(
            rstripped(s, whitespace()),
            whitespace(),
            false,
        ) > 0,
{
    lemma_rspan_exact(s, whitespace(), true);
    lemma_rspan_exact(rstripped(s, whitespace()), whitespace(), false);
}

/// The arguments of `split` and `rsplit`: without a separator, runs of whitespace separate; a
/// negative `maxsplit` sets no limit.
#[derive(Debug)]
pub struct ByteInnerSplitOptions {
    pub sep: Option<PyBytesInner>,
    pub maxsplit: isize,
}

/// The parts that `split` yields.
pub open spec fn split_result(s: Seq<u8>, options: ByteInnerSplitOptions) -> PyResult<
    Seq<Seq<u8>>,
> {
    match options.sep {
        None => Ok(split_words(s, options.maxsplit as int)),
        Some(sep) => if sep@.len() == 0 {
            Err(PyException::EmptySeparator)
        } else {
            Ok(split_parts(s, sep@, options.maxsplit as int))
        },
    }
}

/// The parts that `rsplit` yields.
pub open spec fn rsplit_result(s: Seq<u8>, options: ByteInnerSplitOptions) -> PyResult<
    Seq<Seq<u8>>,
> {
    match options.sep {
        None => Ok(rsplit_words(s, options.maxsplit as int)),
        Some(sep) => if sep@.len() == 0 {
            Err(PyException::EmptySeparator)
        } else {
            Ok(rsplit_parts(s, sep@, options.maxsplit as int))
        },
    }
}

/// One split less, unless there is no limit.
fn one_fewer(max: isize) -> (r: isize)
    ensures
        r == fewer(max as int),
{
    if max > 0 {
        max - 1
    } else {
        max
    }
}

/// A further part behind those that are there.
proof fn lemma_pushed(v: Seq<Vec<u8>>, part: Vec<u8>, rest: Seq<Seq<u8>>)
    ensures
        pieces(v.push(part)) =~= pieces(v).push(part@),
        pieces(v.push(part)) + rest =~= pieces(v) + (seq![part@] + rest),
{
}

/// A further part in front of those that are there, which are kept in reverse order.
proof fn lemma_pushed_front(v: Seq<Vec<u8>>, part: Vec<u8>, rest: Seq<Seq<u8>>)
    ensures
        rest + pieces(v.push(part)).reverse() =~= rest.push(part@) + pieces(v).reverse(),
{
    let p = pieces(v);
    let q = pieces(v.push(part));
    assert(q =~= p.push(part@));
    assert(q.reverse() =~= seq![part@] + p.reverse());
}

/// Splits at the occurrences of `sep` from the left.
fn split_at_sep(s: &[u8], sep: &[u8], max: isize) -> (r: Vec<Vec<u8>>)
    requires
        sep@.len() > 0,
    ensures
        pieces(r@) == split_parts(s@, sep@, max as int),
{
    let mut parts: Vec<Vec<u8>> = Vec::new();
    let mut rest = s;
    let mut left: isize = max;
    assert(pieces(parts@) =~= Seq::<Seq<u8>>::empty());
    assert(pieces(parts@) + split_parts(s@, sep@, max as int) =~= split_parts(
        s@,
        sep@,
        max as int,
    ));
    loop
        invariant
            sep@.len() > 0,
            pieces(parts@) + split_parts(rest@, sep@, left as int) == split_parts(
                s@,
                sep@,
                max as int,
            ),
        decreases rest@.len(),
    {
        proof {
            lemma_first_exists(rest@, sep@);
        }
        let cut = if left == 0 {
            None
        } else {
            find(rest, sep)
        };
        match cut {
            Some(i) => {
                let part = slice_to_vec(slice_subrange(rest, 0, i));
                let next = slice_subrange(rest, i + sep.len(), rest.len());
                proof {
                    assert(next@ =~= rest@.skip(i + sep@.len()));
                    assert(part@ =~= rest@.take(i as int));
                    lemma_pushed(
                        parts@,
                        part,
                        split_parts(next@, sep@, fewer(left as int)),
                    );
                }
                parts.push(part);
                rest = next;
                left = one_fewer(left);
            },
            None => {
                let part = slice_to_vec(rest);
                proof {
                    lemma_pushed(parts@, part, Seq::empty());
                    assert(seq![part@] + Seq::<Seq<u8>>::empty() =~= seq![part@]);
                }
                parts.push(part);
                assert(pieces(parts@) =~= pieces(parts@) + Seq::<Seq<u8>>::empty());
                return parts;
            },
        }
    }
}

/// The vectors `v` in reverse order.
fn reversed(v: Vec<Vec<u8>>) -> (r: Vec<Vec<u8>>)
    ensures
        pieces(r@) == pieces(v@).reverse(),
{
    let mut rest = v;
    let mut r: Vec<Vec<u8>> = Vec::new();
    while rest.len() > 0
        invariant
            rest@.len() + r@.len() == v@.len(),
            rest@ =~= v@.take(rest@.len() as int),
            r@ =~= v@.skip(rest@.len() as int).reverse(),
        decreases rest.len(),
    {
        if let Some(x) = rest.pop() {
            r.push(x);
        }
    }
    assert(r@ =~= v@.reverse());
    assert(pieces(r@) =~= pieces(v@).reverse());
    r
}

/// Splits at the occurrences of `sep` from the right.
fn rsplit_at_sep(s: &[u8], sep: &[u8], max: isize) -> (r: Vec<Vec<u8>>)
    requires
        sep@.len() > 0,
    ensures
        pieces(r@) == rsplit_parts(s@, sep@, max as int),
{
    let mut parts: Vec<Vec<u8>> = Vec::new();
    let mut rest = s;
    let mut left: isize = max;
    assert(pieces(parts@).reverse() =~= Seq::<Seq<u8>>::empty());
    assert(rsplit_parts(s@, sep@, max as int) + pieces(parts@).reverse() =~= rsplit_parts(
        s@,
        sep@,
        max as int,
    ));
    loop
        invariant
            sep@.len() > 0,
            rsplit_parts(rest@, sep@, left as int) + pieces(parts@).reverse() == rsplit_parts(
                s@,
                sep@,
                max as int,
            ),
        decreases rest@.len(),
    {
        proof {
            lemma_last_exists(rest@, sep@);
        }
        let cut = if left == 0 {
            None
        } else {
            rfind(rest, sep)
        };
        match cut {
            Some(i) => {
                let part = slice_to_vec(slice_subrange(rest, i + sep.len(), rest.len()));
                let next = slice_subrange(rest, 0, i);
                proof {
                    assert(part@ =~= rest@.skip(i + sep@.len()));
                    assert(next@ =~= rest@.take(i as int));
                    lemma_pushed_front(
                        parts@,
                        part,
                        rsplit_parts(next@, sep@, fewer(left as int)),
                    );
                }
                parts.push(part);
                rest = next;
                left = one_fewer(left);
            },
            None => {
                let part = slice_to_vec(rest);
                proof {
                    lemma_pushed_front(parts@, part, Seq::empty());
                    assert(Seq::<Seq<u8>>::empty().push(part@) =~= seq![part@]);
                }
                parts.push(part);
                assert(Seq::<Seq<u8>>::empty() + pieces(parts@).reverse() =~= pieces(
                    parts@,
                ).reverse());
                return reversed(parts);
            },
        }
    }
}

/// Splits at runs of whitespace from the left.
fn split_at_space(s: &[u8], max: isize) -> (r: Vec<Vec<u8>>)
    ensures
        pieces(r@) == split_words(s@, max as int),
{
    let space = whitespace_bytes();
    let mut parts: Vec<Vec<u8>> = Vec::new();
    let mut rest = s;
    let mut left: isize = max;
    assert(pieces(parts@) + split_words(s@, max as int) =~= split_words(s@, max as int));
    loop
        invariant
            space@ == whitespace(),
            pieces(parts@) + split_words(rest@, left as int) == split_words(s@, max as int),
        decreases rest@.len(),
    {
        proof {
            lemma_word(rest@);
        }
        let n: usize = span(rest, space.as_slice(), true);
        let word = slice_subrange(rest, n, rest.len());
        assert(word@ =~= lstripped(rest@, whitespace()));
        if word.len() == 0 {
            assert(pieces(parts@) + Seq::<Seq<u8>>::empty() =~= pieces(parts@));
            return parts;
        }
        if left == 0 {
            let part = slice_to_vec(word);
            proof {
                lemma_pushed(parts@, part, Seq::empty());
                assert(seq![part@] + Seq::<Seq<u8>>::empty() =~= seq![part@]);
            }
            parts.push(part);
            assert(pieces(parts@) + Seq::<Seq<u8>>::empty() =~= pieces(parts@));
            return parts;
        }
        let m: usize = span(word, space.as_slice(), false);
        let part = slice_to_vec(slice_subrange(word, 0, m));
        let next = slice_subrange(word, m, word.len());
        proof {
            assert(part@ =~= word@.take(m as int));
            assert(next@ =~= word@.skip(m as int));
            lemma_pushed(parts@, part, split_words(next@, fewer(left as int)));
        }
        parts.push(part);
        rest = next;
        left = one_fewer(left);
    }
}

/// Splits at runs of whitespace from the right.
fn rsplit_at_space(s: &[u8], max: isize) -> (r: Vec<Vec<u8>>)
    ensures
        pieces(r@) == rsplit_words(s@, max as int),
{
    let space = whitespace_bytes();
    let mut parts: Vec<Vec<u8>> = Vec::new();
    let mut rest = s;
    let mut left: isize = max;
    assert(rsplit_words(s@, max as int) + pieces(parts@).reverse() =~= rsplit_words(
        s@,
        max as int,
    ));
    loop
        invariant
            space@ == whitespace(),
            rsplit_words(rest@, left as int) + pieces(parts@).reverse() == rsplit_words(
                s@,
                max as int,
            ),
        decreases rest@.len(),
    {
        proof {
            lemma_rword(rest@);
        }
        let n: usize = rspan(rest, space.as_slice(), true);
        let word = slice_subrange(rest, 0, rest.len() - n);
        assert(word@ =~= rstripped(rest@, whitespace()));
        if word.len() == 0 {
            assert(Seq::<Seq<u8>>::empty() + pieces(parts@).reverse() =~= pieces(
                parts@,
            ).reverse());
            return reversed(parts);
        }
        if left == 0 {
            let part = slice_to_vec(word);
            proof {
                lemma_pushed_front(parts@, part, Seq::empty());
                assert(Seq::<Seq<u8>>::empty().push(part@) =~= seq![part@]);
            }
            parts.push(part);
            assert(Seq::<Seq<u8>>::empty() + pieces(parts@).reverse() =~= pieces(
                parts@,
            ).reverse());
            return reversed(parts);
        }
        let m: usize = rspan(word, space.as_slice(), false);
        let part = slice_to_vec(slice_subrange(word, word.len() - m, word.len()));
        let next = slice_subrange(word, 0, word.len() - m);
        proof {
            assert(part@ =~= word@.skip(word@.len() - m));
            assert(next@ =~= word@.take(word@.len() - m));
            lemma_pushed_front(parts@, part, rsplit_words(next@, fewer(left as int)));
        }
        parts.push(part);
        rest = next;
        left = one_fewer(left);
    }
}

/// Whether the executable result `r` of a split is the result `s`.
pub open spec fn same_parts(r: PyResult<Vec<Vec<u8>>>, s: PyResult<Seq<Seq<u8>>>) -> bool {
    match (r, s) {
        (Ok(v), Ok(t)) => pieces(v@) == t,
        (Err(e), Err(f)) => e == f,
        _ => false,
    }
}

/// Splits from the left.
pub fn split(s: &[u8], options: &ByteInnerSplitOptions) -> (r: PyResult<Vec<Vec<u8>>>)
    ensures
        same_parts(r, split_result(s@, *options)),
{
    match &options.sep {
        None => Ok(split_at_space(s, options.maxsplit)),
        Some(sep) => if sep.elements.len() == 0 {
            Err(PyException::EmptySeparator)
        } else {
            Ok(split_at_sep(s, sep.elements.as_slice(), options.maxsplit))
        },
    }
}

/// Splits from the right.
pub fn rsplit(s: &[u8], options: &ByteInnerSplitOptions) -> (r: PyResult<Vec<Vec<u8>>>)
    ensures
        same_parts(r, rsplit_result(s@, *options)),
{
    match &options.sep {
        None => Ok(rsplit_at_space(s, options.maxsplit)),
        Some(sep) => if sep.elements.len() == 0 {
            Err(PyException::EmptySeparator)
        } else {
            Ok(rsplit_at_sep(s, sep.elements.as_slice(), options.maxsplit))
        },
    }
}

/// `s` cut at the first occurrence of `sep`: what stands before it, whether it occurs, and what
/// stands behind it. Where it does not occur, everything stands before it.
pub open spec fn partition_result(s: Seq<u8>, sep: Seq<u8>) -> PyResult<
    (Seq<u8>, bool, Seq<u8>),
> {
    if sep.len() == 0 {
        Err(PyException::EmptySeparator)
    } else {
        match first_occurrence(s, sep) {
            Some(i) => Ok((s.take(i), true, s.skip(i + sep.len()))),
            None => Ok((s, false, Seq::empty())),
        }
    }
}

/// `s` cut at the last occurrence of `sep`, from the right: what stands behind it, whether it
/// occurs, and what stands before it. Where it does not occur, everything stands behind it.
pub open spec fn rpartition_result(s: Seq<u8>, sep: Seq<u8>) -> PyResult<
    (Seq<u8>, bool, Seq<u8>),
> {
    if sep.len() == 0 {
        Err(PyException::EmptySeparator)
    } else {
        match last_occurrence(s, sep) {
            Some(i) => Ok((s.skip(i + sep.len()), true, s.take(i))),
            None => Ok((s, false, Seq::empty())),
        }
    }
}

/// Whether the executable result `r` of a partition is the result `s`.
pub open spec fn same_cut(
    r: PyResult<(Vec<u8>, bool, Vec<u8>)>,
    s: PyResult<(Seq<u8>, bool, Seq<u8>)>,
) -> bool {
    match (r, s) {
        (Ok(v), Ok(t)) => v.0@ == t.0 && v.1 == t.1 && v.2@ == t.2,
        (Err(e), Err(f)) => e == f,
        _ => false,
    }
}

/// Cuts at the first occurrence of `sep`.
pub fn partition(s: &[u8], sep: &[u8]) -> (r: PyResult<(Vec<u8>, bool, Vec<u8>)>)
    ensures
        same_cut(r, partition_result(s@, sep@)),
{
    if sep.len() == 0 {
        return Err(PyException::EmptySeparator);
    }
    proof {
        lemma_first_exists(s@, sep@);
    }
    match find(s, sep) {
        Some(i) => Ok(
            (
                slice_to_vec(slice_subrange(s, 0, i)),
                true,
                slice_to_vec(slice_subrange(s, i + sep.len(), s.len())),
            ),
        ),
        None => Ok((slice_to_vec(s), false, Vec::new())),
    }
}

/// Cuts at the last occurrence of `sep`, from the right.
pub fn rpartition(s: &[u8], sep: &[u8]) -> (r: PyResult<(Vec<u8>, bool, Vec<u8>)>)
    ensures
        same_cut(r, rpartition_result(s@, sep@)),
{
    if sep.len() == 0 {
        return Err(PyException::EmptySeparator);
    }
    proof {
        lemma_last_exists(s@, sep@);
    }
    match rfind(s, sep) {
        Some(i) => Ok(
            (
                slice_to_vec(slice_subrange(s, i + sep.len(), s.len())),
                true,
                slice_to_vec(slice_subrange(s, 0, i)),
            ),
        ),
        None => Ok((slice_to_vec(s), false, Vec::new())),
    }
}

/// The bytes that end a line.
pub open spec fn line_ends() -> Seq<u8> {
    seq![0x0au8, 0x0d]
}

/// The length of the end of the line that stands at the position `n` of `s`: a carriage return and
/// the line feed behind it end a line together.
pub open spec fn line_end_len(s: Seq<u8>, n: int) -> int {
    if n >= s.len() {
        0
    } else if s[n] == 0x0d && n + 1 < s.len() && s[n + 1] == 0x0a {
        2
    } else {
        1
    }
}

/// The lines of `s`, with their ends when `keepends`.
pub open spec fn lines(s: Seq<u8>, keepends: bool) -> Seq<Seq<u8>>
    decreases s.len(),
    when true
    via lines_decreases
{
    let n = span_len(s, line_ends(), false) as int;
    let e = n + line_end_len(s, n);
    if s.len() == 0 {
        Seq::empty()
    } else if keepends {
        seq![s.take(e)] + lines(s.skip(e), keepends)
    } else {
        seq![s.take(n)] + lines(s.skip(e), keepends)
    }
}

#[via_fn]
proof fn lines_decreases(s: Seq<u8>, keepends: bool) {
    lemma_span_exact(s, line_ends(), false);
}

/// Splits into lines.
pub fn splitlines(s: &[u8], keepends: bool) -> (r: Vec<Vec<u8>>)
    ensures
        pieces(r@) == lines(s@, keepends),
{
    let ends: Vec<u8> = vec![0x0au8, 0x0d];
    assert(ends@ =~= line_ends());
    let mut parts: Vec<Vec<u8>> = Vec::new();
    let mut rest = s;
    assert(pieces(parts@) + lines(s@, keepends) =~= lines(s@, keepends));
    while rest.len() > 0
        invariant
            ends@ == line_ends(),
            pieces(parts@) + lines(rest@, keepends) == lines(s@, keepends),
        decreases rest@.len(),
    {
        proof {
            lemma_span_exact(rest@, line_ends(), false);
        }
        let n: usize = span(rest, ends.as_slice(), false);
        let e: usize = if n >= rest.len() {
            n
        } else if rest[n] == 0x0d && n + 1 < rest.len() && rest[n + 1] == 0x0a {
            n + 2
        } else {
            n + 1
        };
        let part = if keepends {
            slice_to_vec(slice_subrange(rest, 0, e))
        } else {
            slice_to_vec(slice_subrange(rest, 0, n))
        };
        let next = slice_subrange(rest, e, rest.len());
        proof {
            assert(part@ =~= if keepends {
                rest@.take(e as int)
            } else {
                rest@.take(n as int)
            });
            assert(next@ =~= rest@.skip(e as int));
            lemma_pushed(parts@, part, lines(next@, keepends));
        }
        parts.push(part);
        rest = next;
    }
    assert(pieces(parts@) + Seq::<Seq<u8>>::empty() =~= pieces(parts@));
    parts
}

/// `parts` one behind the other, with `sep` between each two.
pub open spec fn joined(sep: Seq<u8>, parts: Seq<Seq<u8>>) -> Seq<u8>
    decreases parts.len(),
{
    if parts.len() == 0 {
        Seq::empty()
    } else if parts.len() == 1 {
        parts[0]
    } else {
        joined(sep, parts.drop_last()) + sep + parts.last()
    }
}

/// The contents of the bytes-like objects `items`, or the exception of the first that is none.
pub open spec fn contents_of(items: Seq<PyObject>) -> PyResult<Seq<Seq<u8>>>
    decreases items.len(),
{
    if items.len() == 0 {
        Ok(Seq::empty())
    } else {
        match contents_of(items.drop_last()) {
            Err(e) => Err(e),
            Ok(parts) => match items.last() {
                PyObject::Bytes(v) => Ok(parts.push(v@)),
                _ => Err(PyException::NotBytesLike),
            },
        }
    }
}

/// What `sep.join(items)` yields.
pub open spec fn join_result(sep: Seq<u8>, items: Seq<PyObject>) -> PyResult<Seq<u8>> {
    match contents_of(items) {
        Err(e) => Err(e),
        Ok(parts) => Ok(joined(sep, parts)),
    }
}

/// An exception among the first items is the exception of them all.
proof fn lemma_contents_error(items: Seq<PyObject>, n: int)
    requires
        0 <= n <= items.len(),
        contents_of(items.take(n)) is Err,
    ensures
        contents_of(items) == contents_of(items.take(n)),
    decreases items.len() - n,
{
    if n == items.len() {
        assert(items.take(n) =~= items);
    } else {
        assert(items.take(n + 1).drop_last() =~= items.take(n));
        lemma_contents_error(items, n + 1);
    }
}

/// There are as many contents as items.
proof fn lemma_contents_len(items: Seq<PyObject>)
    ensures
        contents_of(items) is Ok ==> contents_of(items)->Ok_0.len() == items.len(),
    decreases items.len(),
{
    if items.len() > 0 {
        lemma_contents_len(items.drop_last());
    }
}

/// Joins the contents of `items`, with `sep` between each two.
pub fn join(sep: &[u8], items: &Vec<PyObject>) -> (r: PyResult<Vec<u8>>)
    ensures
        agrees(r, join_result(sep@, items@)),
{
    let mut bytes: Vec<u8> = Vec::new();
    let mut i: usize = 0;
    while i < items.len()
        invariant
            i <= items.len(),
            contents_of(items@.take(i as int)) is Ok,
            bytes@ == joined(sep@, contents_of(items@.take(i as int))->Ok_0),
        decreases items.len() - i,
    {
        let ghost front = contents_of(items@.take(i as int))->Ok_0;
        proof {
            assert(items@.take(i + 1).drop_last() =~= items@.take(i as int));
            lemma_contents_len(items@.take(i as int));
        }
        match &items[i] {
            PyObject::Bytes(v) => {
                let ghost before = bytes@;
                if i > 0 {
                    bytes.extend_from_slice(sep);
                }
                bytes.extend_from_slice(v.as_slice());
                proof {
                    assert(front.push(v@).drop_last() =~= front);
                    if i > 0 {
                        assert(bytes@ =~= before + sep@ + v@);
                    } else {
                        assert(bytes@ =~= v@);
                    }
                }
            },
            _ => {
                proof {
                    lemma_contents_error(items@, i + 1);
                }
                return Err(PyException::NotBytesLike);
            },
        }
        i += 1;
    }
    assert(items@.take(items.len() as int) =~= items@);
    Ok(bytes)
}

} // verus!
