//! Laws of slices.
use crate::object::PySlice;
use crate::sliceable::{
    lemma_positions_inside, lemma_unit_step, positions, selected, slice_assigned,
    slice_assigned_in_place, slice_deleted, slice_items, spliced, step_of, unselected, written,
    Positions,
};
use vstd::prelude::*;

verus! {

/// The slice without bounds and with the step `step`.
pub open spec fn whole(step: Option<isize>) -> PySlice {
    PySlice { start: None, stop: None, step }
}

/// The slice without bounds is everything.
pub proof fn law_whole_slice(s: Seq<u8>)
    ensures
        slice_items(s, whole(None)) == Ok::<Seq<u8>, crate::error::PyException>(s),
{
    let p = positions(whole(None), s.len() as int);
    lemma_unit_step(p);
    assert(selected(s, p) =~= s);
}

/// The slice without bounds and with the step -1 is everything in reverse order.
pub proof fn law_reversed_slice(s: Seq<u8>)
    ensures
        slice_items(s, whole(Some((-1) as isize))) == Ok::<Seq<u8>, crate::error::PyException>(s.reverse()),
{
    let p = positions(whole(Some((-1) as isize)), s.len() as int);
    assert((p.start - p.stop - 1) / 1 == p.start - p.stop - 1);
    assert forall|k: int| #[trigger] p.at(k) == p.start - k by {
        assert(k * (-1) == -k);
    }
    assert(selected(s, p) =~= s.reverse());
}

/// No two positions of a slice are the same.
pub proof fn law_positions_distinct(slice: PySlice, len: int, j: int, k: int)
    requires
        step_of(slice) != 0,
        positions(slice, len).at(j) == positions(slice, len).at(k),
    ensures
        j == k,
{
    let step = step_of(slice);
    assert(j == k) by (nonlinear_arith)
        requires
            step != 0,
            j * step == k * step,
    ;
}

/// Written to the positions of a slice, items stand there, and no other position changes.
pub proof fn law_written(s: Seq<u8>, slice: PySlice, items: Seq<u8>, n: nat)
    requires
        step_of(slice) != 0,
        n <= positions(slice, s.len() as int).count(),
        n <= items.len(),
    ensures
        ({
            let p = positions(slice, s.len() as int);
            let t = written(s, p, items, n);
            &&& t.len() == s.len()
            &&& forall|k: int| 0 <= k < n ==> t[#[trigger] p.at(k)] == items[k]
            &&& forall|i: int|
                0 <= i < s.len() && (forall|k: int| 0 <= k < n ==> #[trigger] p.at(k) != i)
                    ==> #[trigger] t[i] == s[i]
        }),
    decreases n,
{
    let p = positions(slice, s.len() as int);
    if n > 0 {
        let m = (n - 1) as nat;
        law_written(s, slice, items, m);
        lemma_positions_inside(slice, s.len() as int, n - 1);
        let t = written(s, p, items, n);
        assert forall|k: int| 0 <= k < n implies t[#[trigger] p.at(k)] == items[k] by {
            lemma_positions_inside(slice, s.len() as int, k);
            if k < n - 1 && p.at(k) == p.at(n - 1) {
                law_positions_distinct(slice, s.len() as int, k, n - 1);
            }
        }
        assert forall|i: int|
            0 <= i < s.len() && (forall|k: int| 0 <= k < n ==> #[trigger] p.at(k) != i) implies
            #[trigger] t[i] == s[i] by {
            assert(p.at(n - 1) != i);
            assert(forall|k: int| 0 <= k < m ==> #[trigger] p.at(k) != i);
        }
    }
}

/// A slice that was assigned items without a change of the length holds these items.
pub proof fn law_slice_set_get(s: Seq<u8>, slice: PySlice, items: Seq<u8>)
    requires
        slice_assigned_in_place(s, slice, items) is Ok,
    ensures
        slice_items(slice_assigned_in_place(s, slice, items)->Ok_0, slice) == Ok::<
            Seq<u8>,
            crate::error::PyException,
        >(items),
{
    let p = positions(slice, s.len() as int);
    let t = slice_assigned_in_place(s, slice, items)->Ok_0;
    if p.step == 1 {
        lemma_unit_step(p);
        assert(t.len() == s.len());
        assert(selected(t, p) =~= items);
    } else {
        law_written(s, slice, items, items.len());
        assert(selected(t, p) =~= items);
    }
}

/// To assign a slice its own items changes nothing.
pub proof fn law_slice_set_same(s: Seq<u8>, slice: PySlice)
    requires
        step_of(slice) != 0,
    ensures
        slice_assigned_in_place(s, slice, slice_items(s, slice)->Ok_0) == Ok::<
            Seq<u8>,
            crate::error::PyException,
        >(s),
{
    let p = positions(slice, s.len() as int);
    let items = selected(s, p);
    lemma_count_nonnegative(p);
    if p.step == 1 {
        lemma_unit_step(p);
        assert(spliced(s, p, items) =~= s);
    } else {
        law_written(s, slice, items, items.len());
        let t = written(s, p, items, items.len());
        assert forall|i: int| 0 <= i < s.len() implies t[i] == s[i] by {
            if exists|k: int| 0 <= k < items.len() && #[trigger] p.at(k) == i {
                let k = choose|k: int| 0 <= k < items.len() && #[trigger] p.at(k) == i;
                assert(t[p.at(k)] == items[k]);
            }
        }
        assert(t =~= s);
    }
}

/// There is no negative number of positions.
pub proof fn lemma_count_nonnegative(p: Positions)
    ensures
        p.count() >= 0,
{
    if p.step > 0 && p.start < p.stop {
        vstd::arithmetic::div_mod::lemma_div_pos_is_pos(p.stop - p.start - 1, p.step);
    } else if p.step < 0 && p.stop < p.start {
        vstd::arithmetic::div_mod::lemma_div_pos_is_pos(p.start - p.stop - 1, -p.step);
    }
}

/// To delete a slice of step one is to assign it nothing.
pub proof fn law_delete_is_empty_assignment(s: Seq<u8>, slice: PySlice)
    requires
        step_of(slice) == 1,
    ensures
        slice_deleted(s, slice) == slice_assigned(s, slice, Seq::empty()),
{
    let p = positions(slice, s.len() as int);
    lemma_unit_step(p);
    lemma_unselected_range(s, p);
    assert(unselected(s, p) =~= spliced(s, p, Seq::empty()));
}

/// Without the positions of a range, what stands before it and what stands behind it is left.
proof fn lemma_unselected_range(s: Seq<u8>, p: Positions)
    requires
        p.step == 1,
        p.count() == p.end() - p.start,
        0 <= p.start <= p.end(),
    ensures
        unselected(s, p) == if s.len() <= p.start {
            s
        } else if s.len() <= p.end() {
            s.take(p.start)
        } else {
            s.take(p.start) + s.skip(p.end())
        },
    decreases s.len(),
{
    if s.len() > 0 {
        let i = s.len() - 1;
        lemma_unselected_range(s.drop_last(), p);
        if p.start <= i < p.end() {
            assert(p.at(i - p.start) == i);
            assert(p.selects(i));
        } else {
            assert(!p.selects(i));
        }
        let t = unselected(s, p);
        if s.len() <= p.start {
            assert(t =~= s);
        } else if s.len() <= p.end() {
            assert(t =~= s.take(p.start));
        } else {
            assert(t =~= s.take(p.start) + s.skip(p.end()));
        }
    }
}

/// The deleted bytes and those that are left are as many as there were.
pub proof fn law_deleted_len(s: Seq<u8>, slice: PySlice)
    requires
        step_of(slice) != 0,
    ensures
        slice_deleted(s, slice) is Ok,
        slice_items(s, slice) is Ok,
        slice_deleted(s, slice)->Ok_0.len() + slice_items(s, slice)->Ok_0.len() == s.len(),
{
    let p = positions(slice, s.len() as int);
    lemma_count_nonnegative(p);
    let n = s.len();
    lemma_unselected_len(s, slice, n, n);
    assert(s.take(n as int) =~= s);
    lemma_selected_below_all(slice, n);
}

/// How many of the first `k` positions of `p` lie below `bound`.
spec fn selected_below(p: Positions, k: nat, bound: int) -> nat
    decreases k,
{
    if k == 0 {
        0
    } else if p.at(k - 1) < bound {
        selected_below(p, (k - 1) as nat, bound) + 1
    } else {
        selected_below(p, (k - 1) as nat, bound)
    }
}

/// All positions lie below the length.
proof fn lemma_selected_below_all(slice: PySlice, len: nat)
    requires
        step_of(slice) != 0,
    ensures
        selected_below(
            positions(slice, len as int),
            positions(slice, len as int).count() as nat,
            len as int,
        ) == positions(slice, len as int).count(),
{
    lemma_count_nonnegative(positions(slice, len as int));
    lemma_selected_below_first(slice, len, positions(slice, len as int).count() as nat);
}

proof fn lemma_selected_below_first(slice: PySlice, len: nat, k: nat)
    requires
        step_of(slice) != 0,
        k <= positions(slice, len as int).count(),
    ensures
        selected_below(positions(slice, len as int), k, len as int) == k,
    decreases k,
{
    if k > 0 {
        lemma_selected_below_first(slice, len, (k - 1) as nat);
        lemma_positions_inside(slice, len as int, k - 1);
    }
}

/// One position more below the bound counts exactly where it is selected.
proof fn lemma_selected_below_step(slice: PySlice, len: nat, k: nat, bound: int)
    requires
        step_of(slice) != 0,
        k <= positions(slice, len as int).count(),
    ensures
        ({
            let p = positions(slice, len as int);
            selected_below(p, k, bound + 1) == selected_below(p, k, bound) + if exists|j: int|
                0 <= j < k && #[trigger] p.at(j) == bound {
                1int
            } else {
                0int
            }
        }),
    decreases k,
{
    let p = positions(slice, len as int);
    if k > 0 {
        let m = (k - 1) as nat;
        lemma_selected_below_step(slice, len, m, bound);
        if exists|j: int| 0 <= j < m && #[trigger] p.at(j) == bound {
            let j = choose|j: int| 0 <= j < m && #[trigger] p.at(j) == bound;
            if p.at(k - 1) == bound {
                law_positions_distinct(slice, len as int, j, k - 1);
            }
            assert(0 <= j < k && p.at(j) == bound);
        } else if p.at(k - 1) == bound {
            assert(0 <= k - 1 < k && p.at(k - 1) == bound);
        } else {
            assert forall|j: int| 0 <= j < k implies #[trigger] p.at(j) != bound by {
                if j < m {
                }
            }
        }
    }
}

/// No position lies below zero.
proof fn lemma_selected_below_none(slice: PySlice, len: nat, k: nat)
    requires
        step_of(slice) != 0,
        k <= positions(slice, len as int).count(),
    ensures
        selected_below(positions(slice, len as int), k, 0) == 0,
    decreases k,
{
    if k > 0 {
        lemma_selected_below_none(slice, len, (k - 1) as nat);
        lemma_positions_inside(slice, len as int, k - 1);
    }
}

proof fn lemma_unselected_len(s: Seq<u8>, slice: PySlice, len: nat, m: nat)
    requires
        s.len() == len,
        m <= len,
        step_of(slice) != 0,
    ensures
        ({
            let p = positions(slice, len as int);
            unselected(s.take(m as int), p).len() + selected_below(p, p.count() as nat, m as int)
                == m
        }),
    decreases m,
{
    let p = positions(slice, len as int);
    lemma_count_nonnegative(p);
    if m == 0 {
        lemma_selected_below_none(slice, len, p.count() as nat);
    } else {
        lemma_unselected_len(s, slice, len, (m - 1) as nat);
        lemma_selected_below_step(slice, len, p.count() as nat, m - 1);
        assert(s.take(m as int).drop_last() =~= s.take(m - 1));
        if p.selects(m - 1) {
            let k = choose|k: int| 0 <= k < p.count() && #[trigger] p.at(k) == m - 1;
            assert(0 <= k < p.count() as nat && p.at(k) == m - 1);
        }
    }
}

} // verus!
