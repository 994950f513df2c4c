//! Laws that tie what the operations hand back to what they were asked for.
use crate::bytearray::{
    certain_position, fresh, fresh_instance, fresh_list, fresh_triple, signed_position, PyByteArray,
};
use crate::context::{bytearray_methods, bytearray_slots, iterator_slots};
use crate::error::{message_of, PyException, PyResult};
use crate::object::{agrees, bytes_of, Operand, PyObject, PySlice};
use crate::outcome::{irepeat_outcome, setitem_outcome};
use crate::parts::{pieces, same_cut, same_parts};
use crate::sliceable::{positions, slice_assigned, step_of};
use crate::text::decimal_text;
use vstd::prelude::*;

verus! {

/// A position is handed back as it is, where it can be signed; nothing as -1, or as an exception.
pub proof fn law_positions_returned(i: int, signed: PyResult<isize>, certain: PyResult<usize>)
    requires
        0 <= i <= isize::MAX,
    ensures
        signed_position(signed, Ok(Some(i))) <==> signed == Ok::<isize, PyException>(i as isize),
        certain_position(certain, Ok(Some(i))) <==> certain == Ok::<usize, PyException>(i as usize),
        signed_position(signed, Ok(None)) <==> (signed matches Ok(p) && p == -1),
        certain_position(certain, Ok(None)) <==> certain == Err::<usize, PyException>(
            PyException::SubstringNotFound,
        ),
{
}

/// Byte arrays that are handed back have the contents that were asked for and no exports.
pub proof fn law_arrays_returned<C>(
    r: PyResult<PyByteArray>,
    made: PyResult<(C, PyByteArray)>,
    class: C,
    list: PyResult<Vec<PyByteArray>>,
    parts: Seq<Seq<u8>>,
    triple: PyResult<(PyByteArray, PyByteArray, PyByteArray)>,
    t: (Seq<u8>, Seq<u8>, Seq<u8>),
    s: Seq<u8>,
    e: PyException,
    k: int,
)
    ensures
        fresh(r, Ok(s)) ==> r is Ok && r->Ok_0@ == s && r->Ok_0.export_count() == 0,
        fresh(r, Err(e)) <==> r == Err::<PyByteArray, PyException>(e),
        fresh_instance(made, class, Ok(s)) ==> made is Ok && made->Ok_0.0 == class
            && made->Ok_0.1@ == s && made->Ok_0.1.export_count() == 0,
        fresh_instance(made, class, Err(e)) <==> made == Err::<(C, PyByteArray), PyException>(e),
        fresh_list(list, Ok(parts)) ==> list is Ok && list->Ok_0@.len() == parts.len(),
        fresh_list(list, Ok(parts)) && 0 <= k < parts.len() ==> list->Ok_0@[k]@ == parts[k]
            && list->Ok_0@[k].export_count() == 0,
        fresh_list(list, Err(e)) <==> list == Err::<Vec<PyByteArray>, PyException>(e),
        fresh_triple(triple, Ok(t)) ==> triple is Ok && triple->Ok_0.0@ == t.0 && triple->Ok_0.1@
            == t.1 && triple->Ok_0.2@ == t.2,
        fresh_triple(triple, Ok(t)) ==> triple->Ok_0.0.export_count() == 0
            && triple->Ok_0.1.export_count() == 0 && triple->Ok_0.2.export_count() == 0,
        fresh_triple(triple, Err(e)) <==> triple == Err::<
            (PyByteArray, PyByteArray, PyByteArray),
            PyException,
        >(e),
{
}

/// Bytes that are handed back are those that were asked for.
pub proof fn law_bytes_returned(
    r: PyResult<Vec<u8>>,
    parts: PyResult<Vec<Vec<u8>>>,
    many: Seq<Seq<u8>>,
    cut: PyResult<(Vec<u8>, bool, Vec<u8>)>,
    t: (Seq<u8>, bool, Seq<u8>),
    s: Seq<u8>,
    e: PyException,
    k: int,
)
    ensures
        agrees(r, Ok(s)) <==> r is Ok && r->Ok_0@ == s,
        agrees(r, Err(e)) <==> r == Err::<Vec<u8>, PyException>(e),
        same_parts(parts, Ok(many)) ==> parts is Ok && parts->Ok_0@.len() == many.len() && (0 <= k
            < many.len() ==> parts->Ok_0@[k]@ == many[k]),
        same_parts(parts, Err(e)) <==> parts == Err::<Vec<Vec<u8>>, PyException>(e),
        same_cut(cut, Ok(t)) <==> cut is Ok && cut->Ok_0.0@ == t.0 && cut->Ok_0.1 == t.1
            && cut->Ok_0.2@ == t.2,
        same_cut(cut, Err(e)) <==> cut == Err::<(Vec<u8>, bool, Vec<u8>), PyException>(e),
{
    if let Ok(v) = parts {
        assert(pieces(v@).len() == v@.len());
        if 0 <= k < v@.len() {
            assert(pieces(v@)[k] == v@[k]@);
        }
    }
}

/// While the buffer is exported, bytes are assigned to a slice as always, where their number stays,
/// and refused otherwise, unless the slice is refused in itself.
pub proof fn law_slice_exported(s: Seq<u8>, exports: usize, slice: PySlice, items: Vec<u8>)
    requires
        exports != 0,
    ensures
        ({
            let (r, t) = setitem_outcome(
                s,
                exports,
                PyObject::Slice(slice),
                Operand::Object(PyObject::Bytes(items)),
            );
            let free = slice_assigned(s, slice, items@);
            &&& free matches Ok(new) ==> new.len() == s.len() ==> r is Ok && t == new
            &&& free matches Ok(new) ==> new.len() != s.len() ==> r == Err::<(), PyException>(
                PyException::ExistingExports,
            ) && t == s
            &&& slice.step == Some(0isize) ==> r == Err::<(), PyException>(
                PyException::SliceStepZero,
            ) && t == s
        }),
{
    crate::laws::mutation::law_in_place_is_assignment(s, slice, items@);
    let p = positions(slice, s.len() as int);
    if step_of(slice) != 0 && slice_assigned(s, slice, items@) is Ok {
        if p.step == 1 {
            crate::sliceable::lemma_unit_step(p);
        } else {
            crate::sliceable::lemma_written_len(s, slice, items@, items@.len());
        }
    }
}

/// What supplies bytes is assigned to a slice by them, and what supplies none is refused.
pub proof fn law_slice_supplied(
    s: Seq<u8>,
    exports: usize,
    slice: PySlice,
    object: PyObject,
    items: Vec<u8>,
)
    ensures
        bytes_of(object) == Ok::<Seq<u8>, PyException>(items@) ==> setitem_outcome(
            s,
            exports,
            PyObject::Slice(slice),
            Operand::Object(object),
        ) == setitem_outcome(
            s,
            exports,
            PyObject::Slice(slice),
            Operand::Object(PyObject::Bytes(items)),
        ),
        items@ == s ==> setitem_outcome(s, exports, PyObject::Slice(slice), Operand::Itself)
            == setitem_outcome(
            s,
            exports,
            PyObject::Slice(slice),
            Operand::Object(PyObject::Bytes(items)),
        ),
        bytes_of(object) matches Err(e) ==> setitem_outcome(
            s,
            exports,
            PyObject::Slice(slice),
            Operand::Object(object),
        ) == (Err::<(), PyException>(e), s),
{
}

/// While the buffer is exported, to repeat once is done, and to repeat nothing is done any number of
/// times.
pub proof fn law_repeat_exported(s: Seq<u8>, exports: usize, n: isize)
    requires
        exports != 0,
        n == 1 || s.len() == 0,
    ensures
        irepeat_outcome(s, exports, n) == (Ok::<(), PyException>(()), s),
{
}

/// The numbers in a message are those that it is about.
pub proof fn law_numbers_in_messages(given: usize, expected: usize)
    ensures
        message_of(PyException::SliceSizeMismatch { given, expected })
            == "attempt to assign sequence of size "@ + decimal_text(given as nat)
            + " to extended slice of size "@ + decimal_text(expected as nat),
        message_of(PyException::NotHexadecimal { position: given })
            == "non-hexadecimal number found in fromhex() arg at position "@ + decimal_text(
            given as nat,
        ),
{
}

/// Whether `name` is the name of `function` between double underscores.
pub open spec fn in_underscores(name: Seq<char>, function: Seq<char>) -> bool {
    name == "__"@ + function + "__"@
}

/// Whether a method is named after the function that carries it out: by its name, by its name
/// between double underscores, or, for the two whose functions have other names, as multiplication
/// from the right and as the remainder.
pub open spec fn named_after(entry: (Seq<char>, Seq<char>)) -> bool {
    ||| entry.0 == entry.1
    ||| in_underscores(entry.0, entry.1)
    ||| entry == ("__rmul__"@, "mul"@)
    ||| entry == ("__mod__"@, "modulo"@)
}

/// Every method of the byte array is named after the function that carries it out.
#[verifier::rlimit(60)]
pub proof fn law_methods_named()
    ensures
        bytearray_methods().len() == 66,
        forall|i: int|
            0 <= i < bytearray_methods().len() ==> named_after(#[trigger] bytearray_methods()[i]),
{
    assert(in_underscores("__repr__"@, "repr"@)) by {
        reveal_strlit("__repr__");
        reveal_strlit("repr");
        reveal_strlit("__");
        assert("__repr__"@ =~= "__"@ + "repr"@ + "__"@);
    }
    assert(in_underscores("__len__"@, "len"@)) by {
        reveal_strlit("__len__");
        reveal_strlit("len");
        reveal_strlit("__");
        assert("__len__"@ =~= "__"@ + "len"@ + "__"@);
    }
    assert(in_underscores("__sizeof__"@, "sizeof"@)) by {
        reveal_strlit("__sizeof__");
        reveal_strlit("sizeof");
        reveal_strlit("__");
        assert("__sizeof__"@ =~= "__"@ + "sizeof"@ + "__"@);
    }
    assert(in_underscores("__add__"@, "add"@)) by {
        reveal_strlit("__add__");
        reveal_strlit("add");
        reveal_strlit("__");
        assert("__add__"@ =~= "__"@ + "add"@ + "__"@);
    }
    assert(in_underscores("__contains__"@, "contains"@)) by {
        reveal_strlit("__contains__");
        reveal_strlit("contains");
        reveal_strlit("__");
        assert("__contains__"@ =~= "__"@ + "contains"@ + "__"@);
    }
    assert(in_underscores("__setitem__"@, "setitem"@)) by {
        reveal_strlit("__setitem__");
        reveal_strlit("setitem");
        reveal_strlit("__");
        assert("__setitem__"@ =~= "__"@ + "setitem"@ + "__"@);
    }
    assert(in_underscores("__iadd__"@, "iadd"@)) by {
        reveal_strlit("__iadd__");
        reveal_strlit("iadd");
        reveal_strlit("__");
        assert("__iadd__"@ =~= "__"@ + "iadd"@ + "__"@);
    }
    assert(in_underscores("__getitem__"@, "getitem"@)) by {
        reveal_strlit("__getitem__");
        reveal_strlit("getitem");
        reveal_strlit("__");
        assert("__getitem__"@ =~= "__"@ + "getitem"@ + "__"@);
    }
    assert(in_underscores("__delitem__"@, "delitem"@)) by {
        reveal_strlit("__delitem__");
        reveal_strlit("delitem");
        reveal_strlit("__");
        assert("__delitem__"@ =~= "__"@ + "delitem"@ + "__"@);
    }
    assert(in_underscores("__mul__"@, "mul"@)) by {
        reveal_strlit("__mul__");
        reveal_strlit("mul");
        reveal_strlit("__");
        assert("__mul__"@ =~= "__"@ + "mul"@ + "__"@);
    }
    assert(in_underscores("__imul__"@, "imul"@)) by {
        reveal_strlit("__imul__");
        reveal_strlit("imul");
        reveal_strlit("__");
        assert("__imul__"@ =~= "__"@ + "imul"@ + "__"@);
    }
    assert(in_underscores("__rmod__"@, "rmod"@)) by {
        reveal_strlit("__rmod__");
        reveal_strlit("rmod");
        reveal_strlit("__");
        assert("__rmod__"@ =~= "__"@ + "rmod"@ + "__"@);
    }
    assert(in_underscores("__reduce_ex__"@, "reduce_ex"@)) by {
        reveal_strlit("__reduce_ex__");
        reveal_strlit("reduce_ex");
        reveal_strlit("__");
        assert("__reduce_ex__"@ =~= "__"@ + "reduce_ex"@ + "__"@);
    }
    assert(in_underscores("__reduce__"@, "reduce"@)) by {
        reveal_strlit("__reduce__");
        reveal_strlit("reduce");
        reveal_strlit("__");
        assert("__reduce__"@ =~= "__"@ + "reduce"@ + "__"@);
    }
}

/// The special behaviour of the byte array and of its iterator is that of making one, of having no
/// hash, of comparing, of exporting the buffer, and of walking through it.
pub proof fn law_slots_named()
    ensures
        bytearray_slots().contains(("new"@, "tp_new"@)),
        bytearray_slots().contains(("hash"@, "unhashable"@)),
        bytearray_slots().contains(("richcompare"@, "cmp"@)),
        bytearray_slots().contains(("buffer"@, "get_buffer"@)),
        bytearray_slots().contains(("iter"@, "iter"@)),
        iterator_slots().contains(("iternext"@, "next"@)),
{
    let slots = bytearray_slots();
    assert(slots[0] == ("new"@, "tp_new"@));
    assert(slots[1] == ("hash"@, "unhashable"@));
    assert(slots[2] == ("richcompare"@, "cmp"@));
    assert(slots[3] == ("buffer"@, "get_buffer"@));
    assert(slots[4] == ("iter"@, "iter"@));
    assert(iterator_slots()[0] == ("iternext"@, "next"@));
}

} // verus!
