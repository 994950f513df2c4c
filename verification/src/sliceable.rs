//! Positions and slices of a sequence of bytes: reading, assigning and deleting.
use crate::error::{PyException, PyResult};
use crate::object::{agrees, PySlice};
use vstd::prelude::*;

verus! {

/// The position that the index `i` means in a sequence of length `len`: from the end when negative,
/// and none when it lies outside.
pub open spec fn wrapped(i: int, len: int) -> Option<int> {
    if 0 <= i < len {
        Some(i)
    } else if -len <= i < 0 {
        Some(i + len)
    } else {
        None
    }
}

/// The position in `0..=len` nearest to the one that the index `i` means.
pub open spec fn saturated(i: int, len: int) -> int {
    let position = if i < 0 {
        i + len
    } else {
        i
    };
    if position < 0 {
        0
    } else if position > len {
        len
    } else {
        position
    }
}

/// The positions that a slice selects: `start`, `start + step`, and so on, short of `stop`.
pub struct Positions {
    pub start: int,
    pub stop: int,
    pub step: int,
}

/// A bound of a slice, brought into `lower..=upper`.
pub open spec fn bound(part: Option<isize>, len: int, lower: int, upper: int, absent: int) -> int {
    match part {
        None => absent,
        Some(v) => if v < 0 {
            if v + len < lower {
                lower
            } else {
                v + len
            }
        } else {
            if v > upper {
                upper
            } else {
                v as int
            }
        },
    }
}

/// The step of a slice; one where none is given.
pub open spec fn step_of(slice: PySlice) -> int {
    match slice.step {
        None => 1,
        Some(v) => v as int,
    }
}

/// The positions that `slice` selects in a sequence of length `len`.
pub open spec fn positions(slice: PySlice, len: int) -> Positions {
    let step = step_of(slice);
    if step < 0 {
        Positions {
            start: bound(slice.start, len, -1, len - 1, len - 1),
            stop: bound(slice.stop, len, -1, len - 1, -1),
            step,
        }
    } else {
        Positions {
            start: bound(slice.start, len, 0, len, 0),
            stop: bound(slice.stop, len, 0, len, len),
            step,
        }
    }
}

impl Positions {
    /// How many positions there are.
    pub open spec fn count(self) -> int {
        if self.step > 0 && self.start < self.stop {
            (self.stop - self.start - 1) / self.step + 1
        } else if self.step < 0 && self.stop < self.start {
            (self.start - self.stop - 1) / (-self.step) + 1
        } else {
            0
        }
    }

    /// The `k`-th position.
    pub open spec fn at(self, k: int) -> int {
        self.start + k * self.step
    }

    /// Whether the position `i` is selected.
    pub open spec fn selects(self, i: int) -> bool {
        exists|k: int| 0 <= k < self.count() && #[trigger] self.at(k) == i
    }

    /// Where the range that a slice of step one covers ends.
    pub open spec fn end(self) -> int {
        if self.stop < self.start {
            self.start
        } else {
            self.stop
        }
    }
}

/// The items of `s` at the positions `p`, in the order of the positions.
pub open spec fn selected(s: Seq<u8>, p: Positions) -> Seq<u8> {
    Seq::new(p.count() as nat, |k: int| s[p.at(k)])
}

/// `s` with the range that `p` covers replaced by `items`.
pub open spec fn spliced(s: Seq<u8>, p: Positions, items: Seq<u8>) -> Seq<u8> {
    s.subrange(0, p.start) + items + s.subrange(p.end(), s.len() as int)
}

/// `s` with the first `n` items of `items` written, one each, to the first `n` positions of `p`.
pub open spec fn written(s: Seq<u8>, p: Positions, items: Seq<u8>, n: nat) -> Seq<u8>
    decreases n,
{
    if n == 0 {
        s
    } else {
        written(s, p, items, (n - 1) as nat).update(p.at(n - 1), items[n - 1])
    }
}

/// The items of `s` at positions that `p` does not select, in order.
pub open spec fn unselected(s: Seq<u8>, p: Positions) -> Seq<u8>
    decreases s.len(),
{
    if s.len() == 0 {
        s
    } else if p.selects(s.len() - 1) {
        unselected(s.drop_last(), p)
    } else {
        unselected(s.drop_last(), p).push(s.last())
    }
}

/// The value of `s[slice]`.
pub open spec fn slice_items(s: Seq<u8>, slice: PySlice) -> PyResult<Seq<u8>> {
    if step_of(slice) == 0 {
        Err(PyException::SliceStepZero)
    } else {
        Ok(selected(s, positions(slice, s.len() as int)))
    }
}

/// What `s[slice] = items` makes of `s`.
pub open spec fn slice_assigned(s: Seq<u8>, slice: PySlice, items: Seq<u8>) -> PyResult<Seq<u8>> {
    let p = positions(slice, s.len() as int);
    if p.step == 0 {
        Err(PyException::SliceStepZero)
    } else if p.step == 1 {
        Ok(spliced(s, p, items))
    } else if p.count() == items.len() {
        Ok(written(s, p, items, items.len()))
    } else {
        Err(
            PyException::SliceSizeMismatch {
                given: items.len() as usize,
                expected: p.count() as usize,
            },
        )
    }
}

/// What `s[slice] = items` makes of `s` where its length may not change.
pub open spec fn slice_assigned_in_place(
    s: Seq<u8>,
    slice: PySlice,
    items: Seq<u8>,
) -> PyResult<Seq<u8>> {
    let p = positions(slice, s.len() as int);
    if p.step == 0 {
        Err(PyException::SliceStepZero)
    } else if p.count() != items.len() {
        Err(PyException::ExistingExports)
    } else {
        slice_assigned(s, slice, items)
    }
}

/// What `del s[slice]` makes of `s`.
pub open spec fn slice_deleted(s: Seq<u8>, slice: PySlice) -> PyResult<Seq<u8>> {
    if step_of(slice) == 0 {
        Err(PyException::SliceStepZero)
    } else {
        Ok(unselected(s, positions(slice, s.len() as int)))
    }
}

/// `new` is what the attempt `attempt` leaves of `old`, and `r` says how it ended.
pub open spec fn attempted(
    r: PyResult<()>,
    old: Seq<u8>,
    new: Seq<u8>,
    attempt: PyResult<Seq<u8>>,
) -> bool {
    match attempt {
        Ok(s) => r == Ok::<(), PyException>(()) && new == s,
        Err(e) => r == Err::<(), PyException>(e) && new == old,
    }
}

/// The positions of a slice lie inside the sequence, and are no more than its items.
pub proof fn lemma_positions_inside(slice: PySlice, len: int, k: int)
    requires
        0 <= len,
        step_of(slice) != 0,
        0 <= k < positions(slice, len).count(),
    ensures
        0 <= positions(slice, len).at(k) < len,
        positions(slice, len).count() <= len,
{
    let p = positions(slice, len);
    let n = p.count();
    let step = p.step;
    if step > 0 {
        let d = p.stop - p.start - 1;
        assert(n == d / step + 1);
        assert(0 <= k * step <= d && d / step <= d) by (nonlinear_arith)
            requires
                0 <= k < d / step + 1,
                step > 0,
                d >= 0,
        ;
    } else {
        let d = p.start - p.stop - 1;
        let size = -step;
        assert(0 <= k * size <= d && d / size <= d) by (nonlinear_arith)
            requires
                0 <= k < d / size + 1,
                size > 0,
                d >= 0,
        ;
        assert(k * step == -(k * size)) by (nonlinear_arith)
            requires
                size == -step,
        ;
    }
}

/// With a step of one, the selected positions are exactly the covered range.
pub proof fn lemma_unit_step(p: Positions)
    requires
        p.step == 1,
    ensures
        p.count() == p.end() - p.start,
        forall|k: int| #[trigger] p.at(k) == p.start + k,
{
    assert((p.stop - p.start - 1) / 1 == p.stop - p.start - 1);
}

/// The executable form of `Positions`, with the count in place of the bound.
struct Selection {
    start: i128,
    step: i128,
    count: usize,
    end: usize,
}

/// Brings a bound of a slice into range.
fn clamp_bound(part: Option<isize>, len: usize, lower: i128, upper: i128, absent: i128) -> (r: i128)
    ensures
        r == bound(part, len as int, lower as int, upper as int, absent as int),
{
    match part {
        None => absent,
        Some(v) => if v < 0 {
            let shifted: i128 = v as i128 + len as i128;
            if shifted < lower {
                lower
            } else {
                shifted
            }
        } else {
            if v as i128 > upper {
                upper
            } else {
                v as i128
            }
        },
    }
}

/// The positions that `slice` selects in a sequence of length `len`.
fn select(slice: &PySlice, len: usize) -> (r: PyResult<Selection>)
    ensures
        match r {
            Err(e) => step_of(*slice) == 0 && e == PyException::SliceStepZero,
            Ok(sel) => {
                let p = positions(*slice, len as int);
                &&& p.step != 0
                &&& sel.start == p.start
                &&& sel.step == p.step
                &&& sel.count == p.count()
                &&& sel.step == 1 ==> sel.end == p.end() && 0 <= sel.start <= sel.end <= len
            },
        },
{
    let step: i128 = match slice.step {
        None => 1,
        Some(v) => v as i128,
    };
    if step == 0 {
        return Err(PyException::SliceStepZero);
    }
    let ghost p = positions(*slice, len as int);
    if step < 0 {
        let start: i128 = clamp_bound(slice.start, len, -1, len as i128 - 1, len as i128 - 1);
        let stop: i128 = clamp_bound(slice.stop, len, -1, len as i128 - 1, -1);
        let count: usize = if stop < start {
            let n: i128 = (start - stop - 1) / (-step) + 1;
            proof {
                lemma_positions_inside(*slice, len as int, 0);
            }
            n as usize
        } else {
            0
        };
        Ok(Selection { start, step, count, end: 0 })
    } else {
        let start: i128 = clamp_bound(slice.start, len, 0, len as i128, 0);
        let stop: i128 = clamp_bound(slice.stop, len, 0, len as i128, len as i128);
        let count: usize = if start < stop {
            let n: i128 = (stop - start - 1) / step + 1;
            proof {
                lemma_positions_inside(*slice, len as int, 0);
            }
            n as usize
        } else {
            0
        };
        let end: usize = if stop < start {
            start as usize
        } else {
            stop as usize
        };
        Ok(Selection { start, step, count, end })
    }
}

/// The position that the index `p` means in a sequence of length `len`.
pub fn wrap_index(p: isize, len: usize) -> (r: Option<usize>)
    ensures
        match (r, wrapped(p as int, len as int)) {
            (Some(i), Some(j)) => i == j,
            (None, None) => true,
            _ => false,
        },
{
    let position: i128 = if p < 0 {
        p as i128 + len as i128
    } else {
        p as i128
    };
    if 0 <= position && position < len as i128 {
        Some(position as usize)
    } else {
        None
    }
}

/// The position in `0..=len` nearest to the one that the index `p` means.
pub fn saturate_index(p: isize, len: usize) -> (r: usize)
    ensures
        r == saturated(p as int, len as int),
{
    let position: i128 = if p < 0 {
        p as i128 + len as i128
    } else {
        p as i128
    };
    if position < 0 {
        0
    } else if position > len as i128 {
        len
    } else {
        position as usize
    }
}

/// Moving on by one position.
proof fn lemma_next_position(p: Positions, k: int)
    ensures
        p.at(k + 1) == p.at(k) + p.step,
{
    assert((k + 1) * p.step == k * p.step + p.step) by (nonlinear_arith);
}

/// Copies the items that a slice selects.
pub fn get_slice_items(elements: &[u8], slice: &PySlice) -> (r: PyResult<Vec<u8>>)
    ensures
        agrees(r, slice_items(elements@, *slice)),
{
    let sel = match select(slice, elements.len()) {
        Ok(sel) => sel,
        Err(e) => return Err(e),
    };
    let ghost p = positions(*slice, elements@.len() as int);
    let mut items: Vec<u8> = Vec::new();
    let mut k: usize = 0;
    let mut position: i128 = sel.start;
    while k < sel.count
        invariant
            p == positions(*slice, elements@.len() as int),
            p.step != 0,
            sel.step == p.step,
            k <= sel.count == p.count(),
            position == p.at(k as int),
            -2 * usize::MAX <= position <= 2 * usize::MAX,
            items@ =~= Seq::new(k as nat, |j: int| elements@[p.at(j)]),
        decreases sel.count - k,
    {
        proof {
            lemma_positions_inside(*slice, elements@.len() as int, k as int);
            lemma_next_position(p, k as int);
        }
        items.push(elements[position as usize]);
        position = position + sel.step;
        k += 1;
    }
    Ok(items)
}

/// Replaces a range of `elements` by `items`.
fn splice(elements: &mut Vec<u8>, start: usize, end: usize, items: &[u8])
    requires
        start <= end <= old(elements)@.len(),
    ensures
        final(elements)@ == old(elements)@.subrange(0, start as int) + items@
            + old(elements)@.subrange(end as int, old(elements)@.len() as int),
{
    let mut tail = elements.split_off(end);
    elements.truncate(start);
    elements.extend_from_slice(items);
    assert(elements@ =~= old(elements)@.subrange(0, start as int) + items@);
    elements.append(&mut tail);
}

/// Writes `items`, one each, to the positions that a slice selects.
fn replace_selected(elements: &mut Vec<u8>, slice: &PySlice, sel: &Selection, items: &[u8])
    requires
        ({
            let p = positions(*slice, old(elements)@.len() as int);
            &&& p.step != 0
            &&& sel.start == p.start
            &&& sel.step == p.step
            &&& sel.count == p.count() == items@.len()
        }),
    ensures
        final(elements)@ == written(
            old(elements)@,
            positions(*slice, old(elements)@.len() as int),
            items@,
            items@.len(),
        ),
{
    let ghost s = elements@;
    let ghost p = positions(*slice, s.len() as int);
    let len: usize = elements.len();
    let mut k: usize = 0;
    let mut position: i128 = sel.start;
    while k < items.len()
        invariant
            s.len() == len,
            p == positions(*slice, s.len() as int),
            p.step != 0,
            sel.step == p.step,
            k <= items@.len() == p.count(),
            elements@.len() == s.len(),
            position == p.at(k as int),
            -2 * usize::MAX <= position <= 2 * usize::MAX,
            elements@ == written(s, p, items@, k as nat),
        decreases items.len() - k,
    {
        proof {
            lemma_positions_inside(*slice, s.len() as int, k as int);
            lemma_next_position(p, k as int);
        }
        elements.set(position as usize, items[k]);
        position = position + sel.step;
        k += 1;
    }
}

/// Assigns `items` to a slice of `elements`.
pub fn set_slice_items(elements: &mut Vec<u8>, slice: &PySlice, items: &[u8]) -> (r: PyResult<()>)
    ensures
        attempted(
            r,
            old(elements)@,
            final(elements)@,
            slice_assigned(old(elements)@, *slice, items@),
        ),
{
    let sel = match select(slice, elements.len()) {
        Ok(sel) => sel,
        Err(e) => return Err(e),
    };
    if sel.step == 1 {
        splice(elements, sel.start as usize, sel.end, items);
        Ok(())
    } else if sel.count == items.len() {
        replace_selected(elements, slice, &sel, items);
        Ok(())
    } else {
        Err(PyException::SliceSizeMismatch { given: items.len(), expected: sel.count })
    }
}

/// Assigns `items` to a slice of `elements` without a change of its length.
pub fn set_slice_items_no_resize(
    elements: &mut Vec<u8>,
    slice: &PySlice,
    items: &[u8],
) -> (r: PyResult<()>)
    ensures
        attempted(
            r,
            old(elements)@,
            final(elements)@,
            slice_assigned_in_place(old(elements)@, *slice, items@),
        ),
        final(elements)@.len() == old(elements)@.len(),
{
    let sel = match select(slice, elements.len()) {
        Ok(sel) => sel,
        Err(e) => return Err(e),
    };
    let ghost p = positions(*slice, elements@.len() as int);
    if sel.count != items.len() {
        Err(PyException::ExistingExports)
    } else {
        proof {
            if p.step == 1 {
                lemma_unit_step(p);
            } else {
                lemma_written_len(elements@, *slice, items@, items@.len());
            }
        }
        set_slice_items(elements, slice, items)
    }
}

/// Writing to the positions of a slice changes no length.
pub proof fn lemma_written_len(s: Seq<u8>, slice: PySlice, items: Seq<u8>, n: nat)
    requires
        step_of(slice) != 0,
        n <= positions(slice, s.len() as int).count(),
    ensures
        written(s, positions(slice, s.len() as int), items, n).len() == s.len(),
    decreases n,
{
    if n > 0 {
        lemma_written_len(s, slice, items, (n - 1) as nat);
        lemma_positions_inside(slice, s.len() as int, n - 1);
    }
}

/// Whether the position `i` is among the selected ones.
fn is_selected(slice: &PySlice, sel: &Selection, len: usize, i: usize) -> (r: bool)
    requires
        ({
            let p = positions(*slice, len as int);
            &&& p.step != 0
            &&& sel.start == p.start
            &&& sel.step == p.step
            &&& sel.count == p.count()
        }),
        i < len,
    ensures
        r == positions(*slice, len as int).selects(i as int),
{
    let ghost p = positions(*slice, len as int);
    let size: i128 = if sel.step < 0 {
        -sel.step
    } else {
        sel.step
    };
    proof {
        if sel.count > 0 {
            lemma_positions_inside(*slice, len as int, 0);
            assert(0 * p.step == 0);
        }
    }
    if sel.count == 0 {
        return false;
    }
    let offset: i128 = if sel.step < 0 {
        sel.start - i as i128
    } else {
        i as i128 - sel.start
    };
    if offset < 0 {
        proof {
            assert forall|k: int| 0 <= k < p.count() implies #[trigger] p.at(k) != i by {
                lemma_multiple(k, size as int, p.step);
            }
        }
        return false;
    }
    let k: i128 = offset / size;
    let exact = offset % size == 0;
    proof {
        lemma_quotient(offset as int, size as int, p.step);
        if exact && k < sel.count {
            assert(p.at(k as int) == i);
        } else {
            assert forall|j: int| 0 <= j < p.count() implies #[trigger] p.at(j) != i by {
                lemma_multiple(j, size as int, p.step);
                if p.at(j) == i {
                    lemma_exact(j, offset as int, size as int);
                }
            }
        }
    }
    exact && k < sel.count as i128
}

proof fn lemma_multiple(k: int, size: int, step: int)
    by (nonlinear_arith)
    requires
        0 <= k,
        size > 0,
        step == size || step == -size,
    ensures
        k * size >= 0,
        step == size ==> k * step == k * size,
        step == -size ==> k * step == -(k * size),
{
}

proof fn lemma_quotient(offset: int, size: int, step: int)
    requires
        offset >= 0,
        size > 0,
        step == size || step == -size,
    ensures
        offset / size >= 0,
        offset % size == 0 ==> (offset / size) * size == offset,
        offset % size == 0 && step == size ==> (offset / size) * step == offset,
        offset % size == 0 && step == -size ==> (offset / size) * step == -offset,
{
    vstd::arithmetic::div_mod::lemma_fundamental_div_mod(offset, size);
    vstd::arithmetic::div_mod::lemma_div_pos_is_pos(offset, size);
    assert(size * (offset / size) == (offset / size) * size) by (nonlinear_arith);
    assert((offset / size) * (-size) == -((offset / size) * size)) by (nonlinear_arith);
}

proof fn lemma_exact(k: int, offset: int, size: int)
    requires
        0 <= k,
        size > 0,
        k * size == offset,
    ensures
        offset % size == 0,
        offset / size == k,
{
    vstd::arithmetic::div_mod::lemma_mod_multiples_basic(k, size);
    vstd::arithmetic::div_mod::lemma_div_by_multiple(k, size);
}

/// Deletes the items that a slice selects.
pub fn delete_slice(elements: &mut Vec<u8>, slice: &PySlice) -> (r: PyResult<()>)
    ensures
        attempted(r, old(elements)@, final(elements)@, slice_deleted(old(elements)@, *slice)),
{
    let sel = match select(slice, elements.len()) {
        Ok(sel) => sel,
        Err(e) => return Err(e),
    };
    let ghost s = elements@;
    let ghost p = positions(*slice, s.len() as int);
    let len: usize = elements.len();
    let mut kept: Vec<u8> = Vec::new();
    let mut i: usize = 0;
    while i < len
        invariant
            elements@ == s,
            len == s.len(),
            i <= len,
            p == positions(*slice, len as int),
            p.step != 0,
            sel.start == p.start,
            sel.step == p.step,
            sel.count == p.count(),
            kept@ == unselected(s.take(i as int), p),
        decreases len - i,
    {
        assert(s.take(i + 1).drop_last() =~= s.take(i as int));
        if !is_selected(slice, &sel, len, i) {
            kept.push(elements[i]);
        }
        i += 1;
    }
    assert(s.take(len as int) =~= s);
    *elements = kept;
    Ok(())
}

} // verus!
