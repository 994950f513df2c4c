//! Laws of what a position and a slice mean: which bytes they select, and that all operations select
//! the same.
use crate::bytearray::getitem_result;
use crate::error::PyException;
use crate::laws::slices::{law_written, lemma_count_nonnegative};
use crate::object::{Either, Operand, PyObject, PySlice, SequenceIndex};
use crate::outcome::{delitem_outcome, pop_outcome, setitem_outcome};
use crate::sliceable::{
    lemma_positions_inside, positions, selected, slice_assigned, slice_assigned_in_place,
    slice_deleted, slice_items, spliced, unselected, Positions,
};
use vstd::prelude::*;

verus! {

/// The slice from `start` to `stop` by `step`.
pub open spec fn from_to(start: Option<isize>, stop: Option<isize>, step: Option<isize>) -> PySlice {
    PySlice { start, stop, step }
}

/// Whether `k` is a step, and `a` and `b` are bounds that need no adjustment for it in a sequence of
/// length `len`: forwards, they are positions or the end; backwards, they are positions.
pub open spec fn plain_bounds(a: isize, b: isize, k: isize, len: int) -> bool {
    &&& k > 0 ==> 0 <= a <= len && 0 <= b <= len
    &&& k < 0 ==> 0 <= a < len && 0 <= b < len
    &&& k != 0
}

/// Whether walking from `a` by `k`, the `j`-th position has not yet reached `b`.
pub open spec fn short_of(a: int, b: int, k: int, j: int) -> bool {
    if k > 0 {
        a + j * k < b
    } else {
        a + j * k > b
    }
}

/// Multiples up to a bound.
proof fn lemma_multiples(d: int, k: int, j: int)
    requires
        k > 0,
        j >= 0,
        d >= 0,
    ensures
        j < d / k + 1 <==> j * k <= d,
{
    let q = d / k;
    vstd::arithmetic::div_mod::lemma_fundamental_div_mod(d, k);
    vstd::arithmetic::div_mod::lemma_mod_bound(d, k);
    if j <= q {
        assert(j * k <= q * k) by (nonlinear_arith)
            requires
                j <= q,
                k > 0,
        ;
        assert(k * q == q * k) by (nonlinear_arith);
    } else {
        assert(j * k >= (q + 1) * k) by (nonlinear_arith)
            requires
                j >= q + 1,
                k > 0,
        ;
        assert((q + 1) * k == k * q + k) by (nonlinear_arith);
    }
}

/// Which positions are counted.
proof fn lemma_counted(p: Positions, j: int)
    requires
        p.step != 0,
        j >= 0,
    ensures
        j < p.count() <==> short_of(p.start, p.stop, p.step, j),
{
    if p.step > 0 {
        let d = p.stop - p.start - 1;
        if d >= 0 {
            lemma_multiples(d, p.step, j);
        } else {
            assert(j * p.step >= 0) by (nonlinear_arith)
                requires
                    j >= 0,
                    p.step > 0,
            ;
        }
    } else {
        let d = p.start - p.stop - 1;
        let k = -p.step;
        assert(j * p.step == -(j * k)) by (nonlinear_arith)
            requires
                k == -p.step,
        ;
        if d >= 0 {
            lemma_multiples(d, k, j);
        } else {
            assert(j * k >= 0) by (nonlinear_arith)
                requires
                    j >= 0,
                    k > 0,
            ;
        }
    }
}

/// A slice selects, from its start on and step by step, every position short of its stop, and
/// yields what stands there.
pub proof fn law_slice_selects(s: Seq<u8>, a: isize, b: isize, k: isize, j: int)
    requires
        plain_bounds(a, b, k, s.len() as int),
        j >= 0,
    ensures
        ({
            let items = slice_items(s, from_to(Some(a), Some(b), Some(k)))->Ok_0;
            &&& slice_items(s, from_to(Some(a), Some(b), Some(k))) is Ok
            &&& j < items.len() <==> short_of(a as int, b as int, k as int, j)
            &&& j < items.len() ==> 0 <= a + j * k < s.len() && items[j] == s[a + j * k]
        }),
{
    let slice = from_to(Some(a), Some(b), Some(k));
    let p = positions(slice, s.len() as int);
    lemma_count_nonnegative(p);
    lemma_counted(p, j);
    if j < p.count() {
        lemma_positions_inside(slice, s.len() as int, j);
    }
}

/// Backwards and without a stop, a slice goes on to the first byte.
pub proof fn law_slice_to_the_front(s: Seq<u8>, a: isize, k: isize, j: int)
    requires
        k < 0,
        0 <= a < s.len(),
        j >= 0,
    ensures
        ({
            let items = slice_items(s, from_to(Some(a), None, Some(k)))->Ok_0;
            &&& slice_items(s, from_to(Some(a), None, Some(k))) is Ok
            &&& j < items.len() <==> a + j * k >= 0
            &&& j < items.len() ==> items[j] == s[a + j * k]
        }),
{
    let slice = from_to(Some(a), None, Some(k));
    let p = positions(slice, s.len() as int);
    lemma_count_nonnegative(p);
    lemma_counted(p, j);
}

/// Whether two slices mean the same in every operation.
pub open spec fn same_slices(s: Seq<u8>, x: PySlice, y: PySlice, items: Seq<u8>) -> bool {
    &&& slice_items(s, x) == slice_items(s, y)
    &&& slice_assigned(s, x, items) == slice_assigned(s, y, items)
    &&& slice_assigned_in_place(s, x, items) == slice_assigned_in_place(s, y, items)
    &&& slice_deleted(s, x) == slice_deleted(s, y)
}

/// A negative bound counts from the end, whatever the step: to give it as `v` or as `v` more than
/// the length, where that is a position, selects the same.
pub proof fn law_bounds_from_the_end(
    s: Seq<u8>,
    v: isize,
    other: Option<isize>,
    step: Option<isize>,
    items: Seq<u8>,
)
    requires
        s.len() <= isize::MAX,
        -s.len() <= v < 0,
    ensures
        ({
            let w = (v + s.len()) as isize;
            &&& same_slices(s, from_to(Some(v), other, step), from_to(Some(w), other, step), items)
            &&& same_slices(s, from_to(other, Some(v), step), from_to(other, Some(w), step), items)
        }),
{
    let w = (v + s.len()) as isize;
    let len = s.len() as int;
    assert(positions(from_to(Some(v), other, step), len) == positions(
        from_to(Some(w), other, step),
        len,
    ));
    assert(positions(from_to(other, Some(v), step), len) == positions(
        from_to(other, Some(w), step),
        len,
    ));
}

/// Backwards from a negative start, the first byte that is selected is the one that the start means.
pub proof fn law_backwards_from_the_end(s: Seq<u8>, v: isize, stop: Option<isize>, k: isize)
    requires
        k < 0,
        -s.len() <= v < 0,
        slice_items(s, from_to(Some(v), stop, Some(k)))->Ok_0.len() > 0,
    ensures
        slice_items(s, from_to(Some(v), stop, Some(k)))->Ok_0[0] == s[s.len() + v],
{
    let p = positions(from_to(Some(v), stop, Some(k)), s.len() as int);
    assert(p.at(0) == p.start);
}

/// What is not given: the step is one; forwards, a slice starts at the front and stops at the end;
/// backwards, it starts at the last byte.
pub proof fn law_bounds_not_given(
    s: Seq<u8>,
    other: Option<isize>,
    step: Option<isize>,
    k: isize,
    items: Seq<u8>,
)
    requires
        s.len() <= isize::MAX,
    ensures
        same_slices(s, from_to(other, step, None), from_to(other, step, Some(1)), items),
        k > 0 ==> same_slices(
            s,
            from_to(None, other, Some(k)),
            from_to(Some(0), other, Some(k)),
            items,
        ),
        k > 0 ==> same_slices(
            s,
            from_to(other, None, Some(k)),
            from_to(other, Some(s.len() as isize), Some(k)),
            items,
        ),
        k < 0 && s.len() > 0 ==> same_slices(
            s,
            from_to(None, other, Some(k)),
            from_to(Some((s.len() - 1) as isize), other, Some(k)),
            items,
        ),
{
    let len = s.len() as int;
    assert(positions(from_to(other, step, None), len) == positions(
        from_to(other, step, Some(1)),
        len,
    ));
    if k > 0 {
        assert(positions(from_to(None, other, Some(k)), len) == positions(
            from_to(Some(0), other, Some(k)),
            len,
        ));
        assert(positions(from_to(other, None, Some(k)), len) == positions(
            from_to(other, Some(len as isize), Some(k)),
            len,
        ));
    }
    if k < 0 && len > 0 {
        assert(positions(from_to(None, other, Some(k)), len) == positions(
            from_to(Some((len - 1) as isize), other, Some(k)),
            len,
        ));
    }
}

/// Bounds behind the end mean the end, or backwards the last byte.
pub proof fn law_bounds_behind_the_end(
    s: Seq<u8>,
    v: isize,
    other: Option<isize>,
    k: isize,
    items: Seq<u8>,
)
    requires
        v >= s.len(),
    ensures
        k > 0 ==> same_slices(
            s,
            from_to(Some(v), other, Some(k)),
            from_to(Some(s.len() as isize), other, Some(k)),
            items,
        ),
        k > 0 ==> same_slices(
            s,
            from_to(other, Some(v), Some(k)),
            from_to(other, Some(s.len() as isize), Some(k)),
            items,
        ),
        k < 0 && s.len() > 0 ==> same_slices(
            s,
            from_to(Some(v), other, Some(k)),
            from_to(Some((s.len() - 1) as isize), other, Some(k)),
            items,
        ),
        k < 0 && s.len() > 0 ==> same_slices(
            s,
            from_to(other, Some(v), Some(k)),
            from_to(other, Some((s.len() - 1) as isize), Some(k)),
            items,
        ),
{
    let len = s.len() as int;
    if k > 0 {
        assert(positions(from_to(Some(v), other, Some(k)), len) == positions(
            from_to(Some(len as isize), other, Some(k)),
            len,
        ));
        assert(positions(from_to(other, Some(v), Some(k)), len) == positions(
            from_to(other, Some(len as isize), Some(k)),
            len,
        ));
    }
    if k < 0 && len > 0 {
        assert(positions(from_to(Some(v), other, Some(k)), len) == positions(
            from_to(Some((len - 1) as isize), other, Some(k)),
            len,
        ));
        assert(positions(from_to(other, Some(v), Some(k)), len) == positions(
            from_to(other, Some((len - 1) as isize), Some(k)),
            len,
        ));
    }
}

/// Bounds before the front mean the front; backwards, a stop there is none, and from a start there
/// nothing is selected.
pub proof fn law_bounds_before_the_front(
    s: Seq<u8>,
    v: isize,
    other: Option<isize>,
    k: isize,
    items: Seq<u8>,
)
    requires
        v < -s.len(),
    ensures
        k > 0 ==> same_slices(
            s,
            from_to(Some(v), other, Some(k)),
            from_to(Some(0), other, Some(k)),
            items,
        ),
        k > 0 ==> same_slices(
            s,
            from_to(other, Some(v), Some(k)),
            from_to(other, Some(0), Some(k)),
            items,
        ),
        k < 0 ==> same_slices(
            s,
            from_to(other, Some(v), Some(k)),
            from_to(other, None, Some(k)),
            items,
        ),
        k < 0 ==> slice_items(s, from_to(Some(v), other, Some(k))) == Ok::<Seq<u8>, PyException>(
            Seq::empty(),
        ),
        k < 0 ==> slice_deleted(s, from_to(Some(v), other, Some(k))) == Ok::<Seq<u8>, PyException>(
            s,
        ),
{
    let len = s.len() as int;
    if k > 0 {
        assert(positions(from_to(Some(v), other, Some(k)), len) == positions(
            from_to(Some(0), other, Some(k)),
            len,
        ));
        assert(positions(from_to(other, Some(v), Some(k)), len) == positions(
            from_to(other, Some(0), Some(k)),
            len,
        ));
    }
    if k < 0 {
        assert(positions(from_to(other, Some(v), Some(k)), len) == positions(
            from_to(other, None, Some(k)),
            len,
        ));
        let p = positions(from_to(Some(v), other, Some(k)), len);
        assert(p.count() == 0);
        assert(selected(s, p) =~= Seq::empty());
        lemma_nothing_unselected(s, p);
    }
}

proof fn lemma_nothing_unselected(s: Seq<u8>, p: Positions)
    requires
        p.count() == 0,
    ensures
        unselected(s, p) == s,
    decreases s.len(),
{
    if s.len() > 0 {
        lemma_nothing_unselected(s.drop_last(), p);
        assert(!p.selects(s.len() - 1));
        assert(s.drop_last().push(s.last()) =~= s);
    }
}

/// Of nothing, every slice selects nothing.
pub proof fn law_slice_of_nothing(slice: PySlice)
    requires
        slice.step != Some(0isize),
    ensures
        slice_items(Seq::empty(), slice) == Ok::<Seq<u8>, PyException>(Seq::empty()),
        slice_deleted(Seq::empty(), slice) == Ok::<Seq<u8>, PyException>(Seq::empty()),
{
    let s = Seq::<u8>::empty();
    let p = positions(slice, 0);
    if p.count() > 0 {
        lemma_positions_inside(slice, 0, 0);
    }
    lemma_count_nonnegative(p);
    assert(selected(s, p) =~= s);
}

/// A step of zero is refused by every operation.
pub proof fn law_step_zero(
    s: Seq<u8>,
    start: Option<isize>,
    stop: Option<isize>,
    items: Seq<u8>,
)
    ensures
        ({
            let slice = from_to(start, stop, Some(0));
            let refused = Err::<Seq<u8>, PyException>(PyException::SliceStepZero);
            &&& slice_items(s, slice) == refused
            &&& slice_assigned(s, slice, items) == refused
            &&& slice_assigned_in_place(s, slice, items) == refused
            &&& slice_deleted(s, slice) == refused
        }),
{
}

/// To assign to a slice of step one puts the items in the place of what stands from its start to its
/// stop, or in at its start, where the stop lies before it.
pub proof fn law_range_assigned(s: Seq<u8>, a: isize, b: isize, items: Seq<u8>)
    requires
        0 <= a <= s.len(),
        0 <= b <= s.len(),
    ensures
        slice_assigned(s, from_to(Some(a), Some(b), None), items) == Ok::<Seq<u8>, PyException>(
            s.take(a as int) + items + s.skip(
                if b < a {
                    a as int
                } else {
                    b as int
                },
            ),
        ),
{
    let p = positions(from_to(Some(a), Some(b), None), s.len() as int);
    assert(spliced(s, p, items) =~= s.take(a as int) + items + s.skip(p.end()));
}

/// To assign to a slice with another step writes the items, which are as many, one by one, from its
/// start on and step by step, and leaves all else as it was.
pub proof fn law_extended_assigned(
    s: Seq<u8>,
    a: isize,
    b: isize,
    k: isize,
    items: Seq<u8>,
    i: int,
)
    requires
        plain_bounds(a, b, k, s.len() as int),
        k != 1,
        slice_items(s, from_to(Some(a), Some(b), Some(k)))->Ok_0.len() == items.len(),
        0 <= i < s.len(),
    ensures
        ({
            let t = slice_assigned(s, from_to(Some(a), Some(b), Some(k)), items)->Ok_0;
            &&& slice_assigned(s, from_to(Some(a), Some(b), Some(k)), items) is Ok
            &&& t.len() == s.len()
            &&& forall|j: int| #![trigger items[j]] 0 <= j < items.len() ==> t[a + j * k] == items[j]
            &&& (forall|j: int| 0 <= j < items.len() ==> #[trigger] (a + j * k) != i) ==> t[i]
                == s[i]
        }),
{
    let slice = from_to(Some(a), Some(b), Some(k));
    let p = positions(slice, s.len() as int);
    lemma_count_nonnegative(p);
    law_written(s, slice, items, items.len());
    let t = slice_assigned(s, slice, items)->Ok_0;
    assert forall|j: int| #![trigger items[j]] 0 <= j < items.len() implies t[a + j * k]
        == items[j] by {
        assert(p.at(j) == a + j * k);
    }
    if forall|j: int| 0 <= j < items.len() ==> #[trigger] (a + j * k) != i {
        assert forall|j: int| 0 <= j < items.len() implies #[trigger] p.at(j) != i by {
            assert(a + j * k != i);
        }
    }
}

/// A slice with a step other than one takes as many items as it selects, and no other number of
/// them.
pub proof fn law_extended_refuses(s: Seq<u8>, slice: PySlice, items: Seq<u8>)
    requires
        slice.step matches Some(k) && k != 0 && k != 1,
        slice_items(s, slice)->Ok_0.len() != items.len(),
    ensures
        slice_assigned(s, slice, items) == Err::<Seq<u8>, PyException>(
            PyException::SliceSizeMismatch {
                given: items.len() as usize,
                expected: slice_items(s, slice)->Ok_0.len() as usize,
            },
        ),
        slice_assigned_in_place(s, slice, items) == Err::<Seq<u8>, PyException>(
            PyException::ExistingExports,
        ),
{
    lemma_count_nonnegative(positions(slice, s.len() as int));
}

/// Whether one of the first `n` positions from `a` on by `k` is `i`.
pub open spec fn reached(a: int, k: int, n: nat, i: int) -> bool {
    exists|j: int| 0 <= j < n && #[trigger] (a + j * k) == i
}

/// The positions below `len` that are not reached, in order.
pub open spec fn positions_left(a: int, k: int, n: nat, len: nat) -> Seq<int> {
    Seq::new(len, |i: int| i).filter(|i: int| !reached(a, k, n, i))
}

proof fn lemma_left(s: Seq<u8>, p: Positions, n: nat, m: nat)
    requires
        p.count() == n,
        m <= s.len(),
    ensures
        ({
            let left = positions_left(p.start, p.step, n, m);
            &&& unselected(s.take(m as int), p) == Seq::new(left.len(), |i: int| s[left[i]])
        }),
    decreases m,
{
    reveal(Seq::filter);
    let left = positions_left(p.start, p.step, n, m);
    let all = Seq::new(m, |i: int| i);
    if m > 0 {
        let before = Seq::new((m - 1) as nat, |i: int| i);
        assert(all.drop_last() =~= before);
        lemma_left(s, p, n, (m - 1) as nat);
        assert(s.take(m as int).drop_last() =~= s.take(m - 1));
        if p.selects(m - 1) {
            let j = choose|j: int| 0 <= j < p.count() && #[trigger] p.at(j) == m - 1;
            assert(p.start + j * p.step == m - 1);
            assert(reached(p.start, p.step, n, m - 1));
        } else {
            if reached(p.start, p.step, n, m - 1) {
                let j = choose|j: int|
                    0 <= j < n && #[trigger] (p.start + j * p.step) == m - 1;
                assert(p.at(j) == m - 1);
            }
        }
        assert(all.last() == m - 1);
    }
    assert(unselected(s.take(m as int), p) =~= Seq::new(left.len(), |i: int| s[left[i]]));
}

/// To delete a slice leaves the bytes at the positions that are not reached from its start step by
/// step, in their order.
pub proof fn law_slice_deleted(s: Seq<u8>, a: isize, b: isize, k: isize)
    requires
        plain_bounds(a, b, k, s.len() as int),
    ensures
        ({
            let slice = from_to(Some(a), Some(b), Some(k));
            let n = slice_items(s, slice)->Ok_0.len();
            let left = positions_left(a as int, k as int, n, s.len());
            slice_deleted(s, slice) == Ok::<Seq<u8>, PyException>(
                Seq::new(left.len(), |i: int| s[left[i]]),
            )
        }),
{
    let slice = from_to(Some(a), Some(b), Some(k));
    let p = positions(slice, s.len() as int);
    lemma_count_nonnegative(p);
    lemma_left(s, p, p.count() as nat, s.len());
    assert(s.take(s.len() as int) =~= s);
}

/// A position from the front: read, assigned, deleted and popped, it is the byte with that many
/// before it. It can be assigned while the buffer is exported.
pub proof fn law_position(s: Seq<u8>, exports: usize, i: isize, b: u8)
    requires
        0 <= i < s.len(),
    ensures
        getitem_result(s, PyObject::Int(i as i128)) == Ok::<Either<u8, Seq<u8>>, PyException>(
            Either::A(s[i as int]),
        ),
        setitem_outcome(
            s,
            exports,
            PyObject::Int(i as i128),
            Operand::Object(PyObject::Int(b as i128)),
        ) == (Ok::<(), PyException>(()), s.take(i as int) + seq![b] + s.skip(i + 1)),
        delitem_outcome(s, 0, SequenceIndex::Int(i)) == (
            Ok::<(), PyException>(()),
            s.take(i as int) + s.skip(i + 1),
        ),
        pop_outcome(s, 0, Some(i)) == (
            Ok::<u8, PyException>(s[i as int]),
            s.take(i as int) + s.skip(i + 1),
        ),
{
    assert(s.update(i as int, b) =~= s.take(i as int) + seq![b] + s.skip(i + 1));
    assert(s.remove(i as int) =~= s.take(i as int) + s.skip(i + 1));
}

/// A position from the end: to give it as `v` or as `v` more than the length is the same in every
/// operation.
pub proof fn law_position_from_the_end(s: Seq<u8>, exports: usize, v: isize, value: Operand)
    requires
        s.len() <= isize::MAX,
        -s.len() <= v < 0,
    ensures
        ({
            let w = (v + s.len()) as isize;
            &&& getitem_result(s, PyObject::Int(v as i128)) == getitem_result(
                s,
                PyObject::Int(w as i128),
            )
            &&& setitem_outcome(s, exports, PyObject::Int(v as i128), value) == setitem_outcome(
                s,
                exports,
                PyObject::Int(w as i128),
                value,
            )
            &&& delitem_outcome(s, exports, SequenceIndex::Int(v)) == delitem_outcome(
                s,
                exports,
                SequenceIndex::Int(w),
            )
            &&& pop_outcome(s, exports, Some(v)) == pop_outcome(s, exports, Some(w))
        }),
{
}

/// Without a position, the last byte is popped.
pub proof fn law_pop_last(s: Seq<u8>)
    ensures
        s.len() > 0 ==> pop_outcome(s, 0, None) == (
            Ok::<u8, PyException>(s.last()),
            s.drop_last(),
        ),
        s.len() == 0 ==> pop_outcome(s, 0, None) == (
            Err::<u8, PyException>(PyException::IndexOutOfRange),
            s,
        ),
{
    if s.len() > 0 {
        assert(s.remove(s.len() - 1) =~= s.drop_last());
    }
}

/// A position outside is refused in every operation; to assign, with a byte.
pub proof fn law_position_outside(s: Seq<u8>, exports: usize, i: isize, b: u8)
    requires
        i >= s.len() || i < -s.len(),
    ensures
        getitem_result(s, PyObject::Int(i as i128)) == Err::<Either<u8, Seq<u8>>, PyException>(
            PyException::IndexOutOfRange,
        ),
        setitem_outcome(
            s,
            exports,
            PyObject::Int(i as i128),
            Operand::Object(PyObject::Int(b as i128)),
        ) == (Err::<(), PyException>(PyException::IndexOutOfRange), s),
        delitem_outcome(s, 0, SequenceIndex::Int(i)) == (
            Err::<(), PyException>(PyException::IndexOutOfRange),
            s,
        ),
        pop_outcome(s, 0, Some(i)) == (Err::<u8, PyException>(PyException::IndexOutOfRange), s),
{
}

/// What is no subscript is refused: what is neither an integer nor a slice, and an integer that is no
/// index.
pub proof fn law_subscripts(s: Seq<u8>, exports: usize, needle: PyObject, value: Operand)
    ensures
        !(needle is Int) && !(needle is Slice) ==> {
            &&& getitem_result(s, needle) == Err::<Either<u8, Seq<u8>>, PyException>(
                PyException::BadSubscript,
            )
            &&& setitem_outcome(s, exports, needle, value) == (
                Err::<(), PyException>(PyException::BadSubscript),
                s,
            )
        },
        needle matches PyObject::Int(i) ==> i > isize::MAX || i < isize::MIN ==> {
            &&& getitem_result(s, needle) == Err::<Either<u8, Seq<u8>>, PyException>(
                PyException::IndexTooLarge,
            )
            &&& setitem_outcome(s, exports, needle, value) == (
                Err::<(), PyException>(PyException::IndexTooLarge),
                s,
            )
        },
{
}

/// The operations on the byte array read, assign and delete what a slice selects.
pub proof fn law_slice_operations(s: Seq<u8>, slice: PySlice, items: Vec<u8>)
    ensures
        getitem_result(s, PyObject::Slice(slice)) == match slice_items(s, slice) {
            Ok(bytes) => Ok::<Either<u8, Seq<u8>>, PyException>(Either::B(bytes)),
            Err(e) => Err::<Either<u8, Seq<u8>>, PyException>(e),
        },
        ({
            let (r, t) = setitem_outcome(
                s,
                0,
                PyObject::Slice(slice),
                Operand::Object(PyObject::Bytes(items)),
            );
            match slice_assigned(s, slice, items@) {
                Ok(new) => r is Ok && t == new,
                Err(e) => r == Err::<(), PyException>(e) && t == s,
            }
        }),
        ({
            let (r, t) = setitem_outcome(s, 0, PyObject::Slice(slice), Operand::Itself);
            match slice_assigned(s, slice, s) {
                Ok(new) => r is Ok && t == new,
                Err(e) => r == Err::<(), PyException>(e) && t == s,
            }
        }),
        ({
            let (r, t) = delitem_outcome(s, 0, SequenceIndex::Slice(slice));
            match slice_deleted(s, slice) {
                Ok(new) => r is Ok && t == new,
                Err(e) => r == Err::<(), PyException>(e) && t == s,
            }
        }),
{
}

} // verus!
