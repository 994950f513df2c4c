//! Laws of the operations that change a byte array.
use crate::bytesinner::repeated;
use crate::counter::{decremented, incremented};
use crate::edit::multiplied;
use crate::error::PyException;
use crate::object::{byte_of, bytes_of, subscript_of, Operand, PyObject, PySlice, SequenceIndex};
use crate::outcome::{
    append_outcome, bytes_of_operand, clear_outcome, delitem_outcome, extend_outcome,
    iadd_outcome, insert_outcome, irepeat_outcome, pop_outcome, position_assigned, remove_outcome,
    setitem_outcome,
};
use crate::search::first_byte_at;
use crate::sliceable::{
    lemma_unit_step, lemma_written_len, positions, saturated, slice_assigned,
    slice_assigned_in_place, step_of, wrapped,
};
use crate::span::lemma_first_byte;
use vstd::prelude::*;

verus! {

/// An operation that raises leaves the contents as they were.
pub proof fn law_failure_changes_nothing(
    s: Seq<u8>,
    exports: usize,
    needle: PyObject,
    subscript: SequenceIndex,
    object: PyObject,
    operand: Operand,
    other: Seq<u8>,
    index: isize,
    optional_index: Option<isize>,
)
    ensures
        setitem_outcome(s, exports, needle, operand).0 is Err ==> setitem_outcome(
            s,
            exports,
            needle,
            operand,
        ).1 == s,
        delitem_outcome(s, exports, subscript).0 is Err ==> delitem_outcome(
            s,
            exports,
            subscript,
        ).1 == s,
        iadd_outcome(s, exports, other).0 is Err ==> iadd_outcome(s, exports, other).1 == s,
        pop_outcome(s, exports, optional_index).0 is Err ==> pop_outcome(
            s,
            exports,
            optional_index,
        ).1 == s,
        insert_outcome(s, exports, index, object).0 is Err ==> insert_outcome(
            s,
            exports,
            index,
            object,
        ).1 == s,
        append_outcome(s, exports, object).0 is Err ==> append_outcome(s, exports, object).1 == s,
        remove_outcome(s, exports, object).0 is Err ==> remove_outcome(s, exports, object).1 == s,
        extend_outcome(s, exports, operand).0 is Err ==> extend_outcome(s, exports, operand).1
            == s,
        irepeat_outcome(s, exports, index).0 is Err ==> irepeat_outcome(s, exports, index).1 == s,
        clear_outcome(s, exports).0 is Err ==> clear_outcome(s, exports).1 == s,
{
}

/// While the buffer is exported, no operation changes the length; of those that may raise, only an
/// assignment changes the contents at all.
pub proof fn law_exported_keeps_length(
    s: Seq<u8>,
    exports: usize,
    needle: PyObject,
    subscript: SequenceIndex,
    object: PyObject,
    operand: Operand,
    other: Seq<u8>,
    index: isize,
    optional_index: Option<isize>,
)
    requires
        exports != 0,
    ensures
        setitem_outcome(s, exports, needle, operand).1.len() == s.len(),
        delitem_outcome(s, exports, subscript).1 == s,
        iadd_outcome(s, exports, other).1 == s,
        pop_outcome(s, exports, optional_index).1 == s,
        insert_outcome(s, exports, index, object).1 == s,
        append_outcome(s, exports, object).1 == s,
        remove_outcome(s, exports, object).1 == s,
        extend_outcome(s, exports, operand).1 == s,
        irepeat_outcome(s, exports, index).1 == s,
        clear_outcome(s, exports).1 == s,
        s.reverse().len() == s.len(),
{
    if let Ok(SequenceIndex::Slice(slice)) = subscript_of(needle) {
        if let Ok(items) = bytes_of_operand(s, operand) {
            if slice_assigned_in_place(s, slice, items) is Ok {
                law_in_place_is_assignment(s, slice, items);
            }
        }
    }
}

/// While the buffer is exported, every operation that would resize the byte array is refused with
/// the same exception, unless an argument is wrong in itself.
pub proof fn law_exported_refuses(
    s: Seq<u8>,
    exports: usize,
    subscript: SequenceIndex,
    object: PyObject,
    other: Seq<u8>,
    index: isize,
    optional_index: Option<isize>,
)
    requires
        exports != 0,
    ensures
        delitem_outcome(s, exports, subscript).0 == Err::<(), PyException>(
            PyException::ExistingExports,
        ),
        iadd_outcome(s, exports, other).0 == Err::<(), PyException>(PyException::ExistingExports),
        pop_outcome(s, exports, optional_index).0 == Err::<u8, PyException>(
            PyException::ExistingExports,
        ),
        clear_outcome(s, exports).0 == Err::<(), PyException>(PyException::ExistingExports),
        byte_of(object) is Ok ==> insert_outcome(s, exports, index, object).0 == Err::<
            (),
            PyException,
        >(PyException::ExistingExports),
        byte_of(object) is Ok ==> append_outcome(s, exports, object).0 == Err::<(), PyException>(
            PyException::ExistingExports,
        ),
        byte_of(object) is Ok ==> remove_outcome(s, exports, object).0 == Err::<(), PyException>(
            PyException::ExistingExports,
        ),
        bytes_of(object) is Ok ==> extend_outcome(s, exports, Operand::Object(object)).0 == Err::<
            (),
            PyException,
        >(PyException::ExistingExports),
        index != 1 && s.len() > 0 ==> irepeat_outcome(s, exports, index).0 == Err::<
            (),
            PyException,
        >(PyException::ExistingExports),
{
}

/// An assignment to a slice succeeds in place exactly where it keeps the length and succeeds at all,
/// and then it does the same.
pub proof fn law_in_place_is_assignment(s: Seq<u8>, slice: PySlice, items: Seq<u8>)
    ensures
        slice_assigned_in_place(s, slice, items) is Ok <==> slice_assigned(s, slice, items) is Ok
            && slice_assigned(s, slice, items)->Ok_0.len() == s.len(),
        slice_assigned_in_place(s, slice, items) is Ok ==> slice_assigned_in_place(
            s,
            slice,
            items,
        ) == slice_assigned(s, slice, items),
{
    let p = positions(slice, s.len() as int);
    if step_of(slice) != 0 {
        if p.step == 1 {
            lemma_unit_step(p);
        } else if p.count() == items.len() {
            lemma_written_len(s, slice, items, items.len());
        }
    }
}

/// A position that an assignment succeeds for holds the assigned byte afterwards, and no other
/// position changes.
pub proof fn law_assigned_position(s: Seq<u8>, i: int, value: Operand)
    ensures
        ({
            let (r, t) = position_assigned(s, i, value);
            r is Ok ==> {
                &&& wrapped(i, s.len() as int) is Some
                &&& t.len() == s.len()
                &&& crate::outcome::byte_of_operand(value) == Ok::<u8, PyException>(
                    t[wrapped(i, s.len() as int)->0],
                )
                &&& forall|j: int|
                    0 <= j < s.len() && j != wrapped(i, s.len() as int)->0 ==> t[j] == s[j]
            }
        }),
{
}

/// What is appended can be popped, and the byte array is then as it was.
pub proof fn law_append_pop(s: Seq<u8>, object: PyObject)
    requires
        byte_of(object) is Ok,
    ensures
        append_outcome(s, 0, object).0 is Ok,
        pop_outcome(append_outcome(s, 0, object).1, 0, None) == (byte_of(object), s),
{
    let t = append_outcome(s, 0, object).1;
    assert(t.remove(t.len() - 1) =~= s);
}

/// What is inserted can be popped from where it was inserted, and the byte array is then as it was.
pub proof fn law_insert_pop(s: Seq<u8>, index: isize, object: PyObject)
    requires
        byte_of(object) is Ok,
        s.len() <= isize::MAX,
    ensures
        insert_outcome(s, 0, index, object).0 is Ok,
        pop_outcome(
            insert_outcome(s, 0, index, object).1,
            0,
            Some(saturated(index as int, s.len() as int) as isize),
        ) == (byte_of(object), s),
{
    let t = insert_outcome(s, 0, index, object).1;
    assert(t.remove(saturated(index as int, s.len() as int)) =~= s);
}

/// To delete a position is to pop it and to forget the byte.
pub proof fn law_delete_is_pop(s: Seq<u8>, exports: usize, i: isize)
    ensures
        delitem_outcome(s, exports, SequenceIndex::Int(i)).1 == pop_outcome(
            s,
            exports,
            Some(i),
        ).1,
        delitem_outcome(s, exports, SequenceIndex::Int(i)).0 == match pop_outcome(
            s,
            exports,
            Some(i),
        ).0 {
            Ok(_) => Ok::<(), PyException>(()),
            Err(e) => Err::<(), PyException>(e),
        },
{
}

/// A byte can be removed exactly where it occurs; its first occurrence goes and the others stay.
pub proof fn law_remove(s: Seq<u8>, object: PyObject)
    requires
        byte_of(object) is Ok,
    ensures
        remove_outcome(s, 0, object).0 is Ok <==> s.contains(byte_of(object)->Ok_0),
        remove_outcome(s, 0, object).0 is Ok ==> exists|k: int| #[trigger]
            first_byte_at(s, byte_of(object)->Ok_0, k) && remove_outcome(s, 0, object).1
                == s.remove(k),
        !s.contains(byte_of(object)->Ok_0) ==> remove_outcome(s, 0, object).0 == Err::<
            (),
            PyException,
        >(PyException::ValueNotFound),
{
    let b = byte_of(object)->Ok_0;
    if s.contains(b) {
        lemma_first_byte(s, b);
    } else {
        assert forall|i: int| !first_byte_at(s, b, i) by {
            if first_byte_at(s, b, i) {
                assert(s[i] == b);
            }
        }
    }
}

/// A byte array can be extended by itself, which is to repeat it twice, and which is to append its
/// own contents.
pub proof fn law_extend_itself(s: Seq<u8>, exports: usize)
    ensures
        extend_outcome(s, exports, Operand::Itself) == irepeat_outcome(s, exports, 2),
        exports == 0 ==> extend_outcome(s, exports, Operand::Itself) == iadd_outcome(s, exports, s),
{
    lemma_repeated_twice(s);
}

proof fn lemma_repeated_twice(s: Seq<u8>)
    ensures
        repeated(s, 2) == s + s,
{
    reveal_with_fuel(repeated, 3);
    assert(repeated(s, 1) =~= s);
    assert(repeated(s, 2) =~= s + s);
}

/// Repeated `n` times, a sequence is `n` times as long, and its bytes recur.
pub proof fn law_repeated(s: Seq<u8>, n: nat)
    ensures
        repeated(s, n).len() == n * s.len(),
        forall|i: int|
            0 <= i < n * s.len() ==> #[trigger] repeated(s, n)[i] == s[i % (s.len() as int)],
    decreases n,
{
    if n > 0 {
        let m = (n - 1) as nat;
        law_repeated(s, m);
        assert(n * s.len() == m * s.len() + s.len()) by (nonlinear_arith)
            requires
                n == m + 1,
        ;
        assert forall|i: int| 0 <= i < n * s.len() implies #[trigger] repeated(s, n)[i] == s[i % (
        s.len() as int)] by {
            if i >= m * s.len() {
                let len = s.len() as int;
                let j = i - m * len;
                assert(i == len * m + j) by (nonlinear_arith)
                    requires
                        j == i - m * len,
                ;
                vstd::arithmetic::div_mod::lemma_fundamental_div_mod_converse(
                    i,
                    len,
                    m as int,
                    j,
                );
            }
        }
    }
}

/// To repeat in place leaves what a repeated copy holds, where the buffer is not exported.
pub proof fn law_repeat_in_place(s: Seq<u8>, n: isize)
    ensures
        irepeat_outcome(s, 0, n) == (Ok::<(), PyException>(()), multiplied(s, n as int)),
{
    reveal_with_fuel(repeated, 2);
    assert(repeated(s, 1) =~= s);
}

/// Reversed twice, a byte array is as it was.
pub proof fn law_reverse_twice(s: Seq<u8>)
    ensures
        s.reverse().reverse() == s,
{
    assert(s.reverse().reverse() =~= s);
}

/// A buffer that is exported and released leaves the number of exports as it was; an export is
/// counted, so that the byte array cannot be resized in between.
pub proof fn law_export_release(exports: usize)
    ensures
        decremented(incremented(exports, 1), 1) == exports,
        exports < usize::MAX ==> incremented(exports, 1) == exports + 1,
        exports < usize::MAX ==> incremented(exports, 1) != 0,
{
}

} // verus!
