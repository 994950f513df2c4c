//! What each operation that changes a byte array does to it: how the operation ends, and the
//! contents that it leaves. Each is given by the contents before, by the number of exports of the
//! buffer, and by the arguments.
use crate::bytesinner::repeated;
use crate::error::{PyException, PyResult};
use crate::object::{
    byte_of, bytes_of, subscript_of, Operand, PyObject, PySlice, SequenceIndex,
};
use crate::search::first_byte;
use crate::sliceable::{
    saturated, slice_assigned, slice_assigned_in_place, slice_deleted, wrapped,
};
use vstd::prelude::*;

verus! {

/// An operation that raises `e` and changes nothing.
pub open spec fn raised<T>(s: Seq<u8>, e: PyException) -> (PyResult<T>, Seq<u8>) {
    (Err(e), s)
}

/// An operation that leaves what `attempt` yields, or that raises and changes nothing.
pub open spec fn ended(s: Seq<u8>, attempt: PyResult<Seq<u8>>) -> (PyResult<()>, Seq<u8>) {
    match attempt {
        Ok(new) => (Ok(()), new),
        Err(e) => raised(s, e),
    }
}

/// The byte that an argument stands for. A byte array stands for none.
pub open spec fn byte_of_operand(operand: Operand) -> PyResult<u8> {
    match operand {
        Operand::Itself => Err(PyException::NotAnInteger),
        Operand::Object(object) => byte_of(object),
    }
}

/// The bytes that an argument supplies to the byte array with the contents `s`.
pub open spec fn bytes_of_operand(s: Seq<u8>, operand: Operand) -> PyResult<Seq<u8>> {
    match operand {
        Operand::Itself => Ok(s),
        Operand::Object(object) => bytes_of(object),
    }
}

/// `s[i] = value`. The length does not change, so that exports do not matter.
pub open spec fn position_assigned(s: Seq<u8>, i: int, value: Operand) -> (
    PyResult<()>,
    Seq<u8>,
) {
    match byte_of_operand(value) {
        Err(e) => raised(s, e),
        Ok(b) => match wrapped(i, s.len() as int) {
            None => raised(s, PyException::IndexOutOfRange),
            Some(k) => (Ok(()), s.update(k, b)),
        },
    }
}

/// `s[slice] = value`. With exports, only an assignment that keeps the length succeeds.
pub open spec fn slice_set(s: Seq<u8>, exports: usize, slice: PySlice, value: Operand) -> (
    PyResult<()>,
    Seq<u8>,
) {
    match bytes_of_operand(s, value) {
        Err(e) => raised(s, e),
        Ok(items) => if exports == 0 {
            ended(s, slice_assigned(s, slice, items))
        } else {
            ended(s, slice_assigned_in_place(s, slice, items))
        },
    }
}

/// `s[needle] = value`.
pub open spec fn setitem_outcome(
    s: Seq<u8>,
    exports: usize,
    needle: PyObject,
    value: Operand,
) -> (PyResult<()>, Seq<u8>) {
    match subscript_of(needle) {
        Err(e) => raised(s, e),
        Ok(SequenceIndex::Int(i)) => position_assigned(s, i as int, value),
        Ok(SequenceIndex::Slice(slice)) => slice_set(s, exports, slice, value),
    }
}

/// `del s[needle]`.
pub open spec fn delitem_outcome(s: Seq<u8>, exports: usize, needle: SequenceIndex) -> (
    PyResult<()>,
    Seq<u8>,
) {
    if exports != 0 {
        raised(s, PyException::ExistingExports)
    } else {
        match needle {
            SequenceIndex::Int(i) => match wrapped(i as int, s.len() as int) {
                None => raised(s, PyException::IndexOutOfRange),
                Some(k) => (Ok(()), s.remove(k)),
            },
            SequenceIndex::Slice(slice) => ended(s, slice_deleted(s, slice)),
        }
    }
}

/// `s += other`.
pub open spec fn iadd_outcome(s: Seq<u8>, exports: usize, other: Seq<u8>) -> (
    PyResult<()>,
    Seq<u8>,
) {
    if exports != 0 {
        raised(s, PyException::ExistingExports)
    } else {
        (Ok(()), s + other)
    }
}

/// `s.pop(index)`; without an index, the last byte.
pub open spec fn pop_outcome(s: Seq<u8>, exports: usize, index: Option<isize>) -> (
    PyResult<u8>,
    Seq<u8>,
) {
    let i = match index {
        Some(i) => i as int,
        None => -1,
    };
    if exports != 0 {
        raised(s, PyException::ExistingExports)
    } else {
        match wrapped(i, s.len() as int) {
            None => raised(s, PyException::IndexOutOfRange),
            Some(k) => (Ok(s[k]), s.remove(k)),
        }
    }
}

/// `s.insert(index, object)`.
pub open spec fn insert_outcome(s: Seq<u8>, exports: usize, index: isize, object: PyObject) -> (
    PyResult<()>,
    Seq<u8>,
) {
    match byte_of(object) {
        Err(e) => raised(s, e),
        Ok(b) => if exports != 0 {
            raised(s, PyException::ExistingExports)
        } else {
            (Ok(()), s.insert(saturated(index as int, s.len() as int), b))
        },
    }
}

/// `s.append(object)`.
pub open spec fn append_outcome(s: Seq<u8>, exports: usize, object: PyObject) -> (
    PyResult<()>,
    Seq<u8>,
) {
    match byte_of(object) {
        Err(e) => raised(s, e),
        Ok(b) => if exports != 0 {
            raised(s, PyException::ExistingExports)
        } else {
            (Ok(()), s.push(b))
        },
    }
}

/// `s.remove(object)`: the first occurrence of the byte goes.
pub open spec fn remove_outcome(s: Seq<u8>, exports: usize, object: PyObject) -> (
    PyResult<()>,
    Seq<u8>,
) {
    match byte_of(object) {
        Err(e) => raised(s, e),
        Ok(b) => if exports != 0 {
            raised(s, PyException::ExistingExports)
        } else {
            match first_byte(s, b) {
                None => raised(s, PyException::ValueNotFound),
                Some(k) => (Ok(()), s.remove(k)),
            }
        },
    }
}

/// `s *= n`. To repeat once changes nothing, nor does it to repeat nothing: neither needs the buffer
/// to be free of exports.
pub open spec fn irepeat_outcome(s: Seq<u8>, exports: usize, n: isize) -> (
    PyResult<()>,
    Seq<u8>,
) {
    if n == 1 {
        (Ok(()), s)
    } else if exports != 0 {
        if s.len() == 0 {
            (Ok(()), s)
        } else {
            raised(s, PyException::ExistingExports)
        }
    } else if n <= 0 {
        (Ok(()), Seq::empty())
    } else {
        (Ok(()), repeated(s, n as nat))
    }
}

/// Whether `s *= n` can be carried out: what it yields fits a vector.
pub open spec fn irepeat_fits(s: Seq<u8>, exports: usize, n: isize) -> bool {
    exports == 0 && n > 1 ==> s.len() * n <= isize::MAX
}

/// `s.extend(object)`.
pub open spec fn extend_outcome(s: Seq<u8>, exports: usize, object: Operand) -> (
    PyResult<()>,
    Seq<u8>,
) {
    match object {
        Operand::Itself => irepeat_outcome(s, exports, 2),
        Operand::Object(object) => match bytes_of(object) {
            Err(e) => raised(s, e),
            Ok(items) => iadd_outcome(s, exports, items),
        },
    }
}

/// `s.clear()`.
pub open spec fn clear_outcome(s: Seq<u8>, exports: usize) -> (PyResult<()>, Seq<u8>) {
    if exports != 0 {
        raised(s, PyException::ExistingExports)
    } else {
        (Ok(()), Seq::empty())
    }
}

} // verus!
