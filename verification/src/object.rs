//! The objects that the byte array operations take as arguments, as far as the operations read
//! them.
use crate::error::{PyException, PyResult};
use vstd::prelude::*;

verus! {

/// The parts of a slice object. A part that is not given is `None`; an integer outside the range of
/// `isize` stands as the nearest value of that range, which selects the same items.
#[derive(Debug, Clone, Copy, PartialEq, Eq)]
pub struct PySlice {
    pub start: Option<isize>,
    pub stop: Option<isize>,
    pub step: Option<isize>,
}

/// An argument object. An integer outside the range of `i128` stands as the nearest value of that
/// range: no operation accepts either.
#[derive(Debug)]
pub enum PyObject {
    /// An integer.
    Int(i128),
    /// A bytes-like object, by its contents.
    Bytes(Vec<u8>),
    /// A slice object.
    Slice(PySlice),
    /// A tuple.
    Tuple(Vec<PyObject>),
    /// Any other iterable, by the items that it yields.
    Iterable(Vec<PyObject>),
    /// An object that is none of these.
    Other,
}

/// One of two kinds of argument.
#[derive(Debug)]
pub enum Either<A, B> {
    A(A),
    B(B),
}

/// A subscript: a single position or a slice.
#[derive(Debug, Clone, Copy)]
pub enum SequenceIndex {
    Int(isize),
    Slice(PySlice),
}

/// An argument that may be the very byte array that the operation is applied to.
#[derive(Debug)]
pub enum Operand {
    /// The byte array itself.
    Itself,
    /// Another object.
    Object(PyObject),
}

/// Whether `r` is the executable counterpart of `s`: the same exception, or the same bytes.
pub open spec fn agrees(r: PyResult<Vec<u8>>, s: PyResult<Seq<u8>>) -> bool {
    match (r, s) {
        (Ok(v), Ok(t)) => v@ == t,
        (Err(e), Err(f)) => e == f,
        _ => false,
    }
}

/// The byte that the integer `i` stands for.
pub open spec fn byte_of_int(i: int) -> PyResult<u8> {
    if 0 <= i < 256 {
        Ok(i as u8)
    } else {
        Err(PyException::ByteOutOfRange)
    }
}

/// The byte that the object `o` stands for.
pub open spec fn byte_of(o: PyObject) -> PyResult<u8> {
    match o {
        PyObject::Int(i) => byte_of_int(i as int),
        _ => Err(PyException::NotAnInteger),
    }
}

/// The bytes that the objects `items` stand for, in order, or the exception of the first that
/// stands for none.
pub open spec fn bytes_of_items(items: Seq<PyObject>) -> PyResult<Seq<u8>>
    decreases items.len(),
{
    if items.len() == 0 {
        Ok(Seq::empty())
    } else {
        match bytes_of_items(items.drop_last()) {
            Err(e) => Err(e),
            Ok(bytes) => match byte_of(items.last()) {
                Err(e) => Err(e),
                Ok(b) => Ok(bytes.push(b)),
            },
        }
    }
}

/// The bytes that the object `o` supplies: its contents, or those of its items.
pub open spec fn bytes_of(o: PyObject) -> PyResult<Seq<u8>> {
    match o {
        PyObject::Bytes(v) => Ok(v@),
        PyObject::Tuple(items) | PyObject::Iterable(items) => bytes_of_items(items@),
        _ => Err(PyException::NotByteSource),
    }
}

/// The subscript that the object `o` stands for.
pub open spec fn subscript_of(o: PyObject) -> PyResult<SequenceIndex> {
    match o {
        PyObject::Int(i) => if isize::MIN <= i <= isize::MAX {
            Ok(SequenceIndex::Int(i as isize))
        } else {
            Err(PyException::IndexTooLarge)
        },
        PyObject::Slice(slice) => Ok(SequenceIndex::Slice(slice)),
        _ => Err(PyException::BadSubscript),
    }
}

/// Reads an integer as a byte.
pub fn value_from_int(i: i128) -> (r: PyResult<u8>)
    ensures
        r == byte_of_int(i as int),
{
    if 0 <= i && i < 256 {
        Ok(i as u8)
    } else {
        Err(PyException::ByteOutOfRange)
    }
}

/// Reads an object as a byte.
pub fn value_from_object(object: &PyObject) -> (r: PyResult<u8>)
    ensures
        r == byte_of(*object),
{
    match object {
        PyObject::Int(i) => value_from_int(*i),
        _ => Err(PyException::NotAnInteger),
    }
}

/// Reads every item as a byte.
fn bytes_from_items(items: &Vec<PyObject>) -> (r: PyResult<Vec<u8>>)
    ensures
        agrees(r, bytes_of_items(items@)),
{
    let mut bytes: Vec<u8> = Vec::new();
    let mut i: usize = 0;
    while i < items.len()
        invariant
            i <= items.len(),
            bytes_of_items(items@.take(i as int)) == Ok::<Seq<u8>, PyException>(bytes@),
        decreases items.len() - i,
    {
        let value = value_from_object(&items[i]);
        proof {
            assert(items@.take(i + 1).drop_last() =~= items@.take(i as int));
            if value is Err {
                lemma_first_error(items@, i + 1);
            }
        }
        match value {
            Ok(b) => bytes.push(b),
            Err(e) => return Err(e),
        }
        i += 1;
    }
    assert(items@.take(items.len() as int) =~= items@);
    Ok(bytes)
}

/// An exception among the first items is the exception of them all.
proof fn lemma_first_error(items: Seq<PyObject>, n: int)
    requires
        0 <= n <= items.len(),
        bytes_of_items(items.take(n)) is Err,
    ensures
        bytes_of_items(items) == bytes_of_items(items.take(n)),
    decreases items.len() - n,
{
    if n == items.len() {
        assert(items.take(n) =~= items);
    } else {
        assert(items.take(n + 1).drop_last() =~= items.take(n));
        lemma_first_error(items, n + 1);
    }
}

/// Copies the bytes that an object supplies.
pub fn bytes_from_object(object: &PyObject) -> (r: PyResult<Vec<u8>>)
    ensures
        agrees(r, bytes_of(*object)),
{
    match object {
        PyObject::Bytes(v) => {
            let copy = v.clone();
            assert(copy@ =~= v@);
            Ok(copy)
        },
        PyObject::Tuple(items) => bytes_from_items(items),
        PyObject::Iterable(items) => bytes_from_items(items),
        _ => Err(PyException::NotByteSource),
    }
}

impl SequenceIndex {
    /// Reads an object as a subscript of a byte array.
    pub fn try_from_object(object: &PyObject) -> (r: PyResult<SequenceIndex>)
        ensures
            r == subscript_of(*object),
    {
        match object {
            PyObject::Int(i) => if isize::MIN as i128 <= *i && *i <= isize::MAX as i128 {
                Ok(SequenceIndex::Int(*i as isize))
            } else {
                Err(PyException::IndexTooLarge)
            },
            PyObject::Slice(slice) => Ok(SequenceIndex::Slice(*slice)),
            _ => Err(PyException::BadSubscript),
        }
    }
}

} // verus!
