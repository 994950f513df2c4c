//! The byte array object: a growable sequence of bytes whose buffer can be exported. While it is
//! exported, the byte array can be changed but not resized.
use crate::ascii;
use crate::ascii::{
    all_lower, all_of, all_upper, capitalized, is_alnum, is_alpha, is_ascii, is_digit, is_space,
    lowered, swapped, titlecased, titled, uppered,
};
use crate::bytesinner::PyBytesInner;
use crate::compare::{comparison, relate, PyComparisonOp, PyComparisonValue};
use crate::context::{PyClass, PyContext};
use crate::counter::{
    counter_fetch_add, counter_fetch_sub, counter_load, counter_new, counter_value, decremented,
    incremented,
};
use crate::edit;
use crate::edit::{
    center_result, expanded, ljust_result, multiplied, replace_limit, replaced, rjust_result,
    tab_size, translate_result, zero_filled, ByteInnerPaddingOptions, ByteInnerTranslateOptions,
};
use crate::error::{PyException, PyResult};
use crate::hexadecimal;
use crate::hexadecimal::{hex_result, read_hex};
use crate::layout::ByteArrayObject;
use crate::object::{
    bytes_from_object, bytes_of, subscript_of, value_from_object, Either, Operand, PyObject,
    SequenceIndex,
};
use crate::outcome::{
    append_outcome, clear_outcome, delitem_outcome, extend_outcome, iadd_outcome, insert_outcome,
    irepeat_fits, irepeat_outcome, pop_outcome, remove_outcome, setitem_outcome,
};
use crate::parts;
use crate::parts::{
    join_result, lines, partition_result, rpartition_result, rsplit_result, split_result,
    ByteInnerSplitOptions,
};
use crate::repr;
use crate::repr::repr_text;
use crate::search;
use crate::search::{
    affix_result, contains_result, count_fits, count_result, find_byte, find_result, rfind_result,
    ByteInnerFindOptions, StartsEndsWithArgs,
};
use crate::sliceable::{
    delete_slice, get_slice_items, saturate_index, set_slice_items, set_slice_items_no_resize,
    slice_items, wrap_index, wrapped,
};
use crate::span;
use crate::span::{lstripped, rstripped, strip_set, stripped, without_prefix, without_suffix};
use crossbeam_utils::atomic::AtomicCell;
use vstd::prelude::*;
use vstd::std_specs::convert::FromSpecImpl;

verus! {

/// A mutable array of bytes.
#[derive(Debug)]
pub struct PyByteArray {
    inner: PyBytesInner,
    exports: AtomicCell<usize>,
}

impl View for PyByteArray {
    type V = Seq<u8>;

    closed spec fn view(&self) -> Seq<u8> {
        self.inner@
    }
}

impl PyByteArray {
    /// How many buffers of the byte array are exported.
    pub closed spec fn export_count(&self) -> usize {
        counter_value(self.exports)
    }

    /// A byte array with the contents `inner`, free of exports.
    fn from_inner(inner: PyBytesInner) -> (r: Self)
        ensures
            r@ == inner@,
            r.export_count() == 0,
    {
        PyByteArray { inner, exports: counter_new(0) }
    }

    /// The bytes of the byte array.
    pub fn borrow_buf(&self) -> (r: &[u8])
        ensures
            r@ == self@,
    {
        self.inner.elements.as_slice()
    }

    /// The bytes of the byte array, to be changed in any way.
    pub fn borrow_buf_mut(&mut self) -> (r: &mut Vec<u8>)
        ensures
            r@ == old(self)@,
            final(self)@ == final(r)@,
            final(self).export_count() == old(self).export_count(),
    {
        &mut self.inner.elements
    }

    /// Gives access to the contents for an operation that may resize them: only where no buffer is
    /// exported.
    pub fn try_resizable(&mut self) -> (r: PyResult<&mut PyBytesInner>)
        ensures
            final(self).export_count() == old(self).export_count(),
            match r {
                Ok(w) => {
                    &&& old(self).export_count() == 0
                    &&& w@ == old(self)@
                    &&& final(self)@ == final(w)@
                },
                Err(e) => {
                    &&& old(self).export_count() != 0
                    &&& e == PyException::ExistingExports
                    &&& final(self)@ == old(self)@
                },
            },
    {
        if counter_load(&mut self.exports) == 0 {
            Ok(&mut self.inner)
        } else {
            Err(PyException::ExistingExports)
        }
    }

    /// The number of bytes.
    pub fn len(&self) -> (r: usize)
        ensures
            r == self@.len(),
    {
        self.borrow_buf().len()
    }

    /// Assigns to a position or to a slice.
    pub fn setitem(&mut self, needle: &PyObject, value: &Operand) -> (r: PyResult<()>)
        ensures
            final(self).export_count() == old(self).export_count(),
            (r, final(self)@) == setitem_outcome(
                old(self)@,
                old(self).export_count(),
                *needle,
                *value,
            ),
    {
        match SequenceIndex::try_from_object(needle) {
            Err(e) => Err(e),
            Ok(SequenceIndex::Int(i)) => {
                let value = match value {
                    Operand::Itself => return Err(PyException::NotAnInteger),
                    Operand::Object(object) => match value_from_object(object) {
                        Ok(value) => value,
                        Err(e) => return Err(e),
                    },
                };
                let elements = self.borrow_buf_mut();
                match wrap_index(i, elements.len()) {
                    Some(i) => {
                        elements.set(i, value);
                        Ok(())
                    },
                    None => Err(PyException::IndexOutOfRange),
                }
            },
            Ok(SequenceIndex::Slice(slice)) => {
                let items = match value {
                    Operand::Itself => vstd::slice::slice_to_vec(self.borrow_buf()),
                    Operand::Object(object) => match bytes_from_object(object) {
                        Ok(items) => items,
                        Err(e) => return Err(e),
                    },
                };
                match self.try_resizable() {
                    Ok(w) => set_slice_items(&mut w.elements, &slice, items.as_slice()),
                    Err(_) => set_slice_items_no_resize(
                        self.borrow_buf_mut(),
                        &slice,
                        items.as_slice(),
                    ),
                }
            },
        }
    }

    /// Appends the bytes `other`, and returns the byte array itself.
    pub fn iadd(&mut self, other: &[u8]) -> (r: PyResult<&mut Self>)
        ensures
            match r {
                Ok(zelf) => {
                    &&& zelf.export_count() == old(self).export_count()
                    &&& (Ok::<(), PyException>(()), zelf@) == iadd_outcome(
                        old(self)@,
                        old(self).export_count(),
                        other@,
                    )
                    &&& *final(self) == *final(zelf)
                },
                Err(e) => {
                    &&& final(self).export_count() == old(self).export_count()
                    &&& (Err::<(), PyException>(e), final(self)@) == iadd_outcome(
                        old(self)@,
                        old(self).export_count(),
                        other@,
                    )
                },
            },
    {
        match self.append_all(other) {
            Ok(()) => Ok(self),
            Err(e) => Err(e),
        }
    }

    /// Appends the bytes `other`.
    fn append_all(&mut self, other: &[u8]) -> (r: PyResult<()>)
        ensures
            final(self).export_count() == old(self).export_count(),
            (r, final(self)@) == iadd_outcome(old(self)@, old(self).export_count(), other@),
    {
        match self.try_resizable() {
            Ok(w) => {
                w.elements.extend_from_slice(other);
                assert(w@ =~= old(self)@ + other@);
                Ok(())
            },
            Err(e) => Err(e),
        }
    }

    /// Deletes a position or a slice.
    pub fn delitem(&mut self, needle: SequenceIndex) -> (r: PyResult<()>)
        ensures
            final(self).export_count() == old(self).export_count(),
            (r, final(self)@) == delitem_outcome(old(self)@, old(self).export_count(), needle),
    {
        let w = match self.try_resizable() {
            Ok(w) => w,
            Err(e) => return Err(e),
        };
        match needle {
            SequenceIndex::Int(i) => match wrap_index(i, w.elements.len()) {
                Some(idx) => {
                    w.elements.remove(idx);
                    Ok(())
                },
                None => Err(PyException::IndexOutOfRange),
            },
            SequenceIndex::Slice(slice) => delete_slice(&mut w.elements, &slice),
        }
    }

    /// Removes the byte at `index`, or the last byte, and returns it.
    pub fn pop(&mut self, index: Option<isize>) -> (r: PyResult<u8>)
        ensures
            final(self).export_count() == old(self).export_count(),
            (r, final(self)@) == pop_outcome(old(self)@, old(self).export_count(), index),
    {
        let w = match self.try_resizable() {
            Ok(w) => w,
            Err(e) => return Err(e),
        };
        match wrap_index(index.unwrap_or(-1), w.elements.len()) {
            Some(index) => Ok(w.elements.remove(index)),
            None => Err(PyException::IndexOutOfRange),
        }
    }

    /// Inserts a byte before `index`.
    pub fn insert(&mut self, index: isize, object: &PyObject) -> (r: PyResult<()>)
        ensures
            final(self).export_count() == old(self).export_count(),
            (r, final(self)@) == insert_outcome(
                old(self)@,
                old(self).export_count(),
                index,
                *object,
            ),
    {
        let value = match value_from_object(object) {
            Ok(value) => value,
            Err(e) => return Err(e),
        };
        match self.try_resizable() {
            Ok(w) => {
                let index: usize = saturate_index(index, w.elements.len());
                w.elements.insert(index, value);
                Ok(())
            },
            Err(e) => Err(e),
        }
    }

    /// Appends a byte.
    pub fn append(&mut self, object: &PyObject) -> (r: PyResult<()>)
        ensures
            final(self).export_count() == old(self).export_count(),
            (r, final(self)@) == append_outcome(old(self)@, old(self).export_count(), *object),
    {
        let value = match value_from_object(object) {
            Ok(value) => value,
            Err(e) => return Err(e),
        };
        match self.try_resizable() {
            Ok(w) => {
                w.elements.push(value);
                Ok(())
            },
            Err(e) => Err(e),
        }
    }

    /// Removes the first occurrence of a byte.
    pub fn remove(&mut self, object: &PyObject) -> (r: PyResult<()>)
        ensures
            final(self).export_count() == old(self).export_count(),
            (r, final(self)@) == remove_outcome(old(self)@, old(self).export_count(), *object),
    {
        let value = match value_from_object(object) {
            Ok(value) => value,
            Err(e) => return Err(e),
        };
        let w = match self.try_resizable() {
            Ok(w) => w,
            Err(e) => return Err(e),
        };
        match find_byte(w.elements.as_slice(), value) {
            Some(index) => {
                w.elements.remove(index);
                Ok(())
            },
            None => Err(PyException::ValueNotFound),
        }
    }

    /// Appends the bytes that an object supplies.
    pub fn extend(&mut self, object: &Operand) -> (r: PyResult<()>)
        requires
            object is Itself ==> irepeat_fits(old(self)@, old(self).export_count(), 2),
        ensures
            final(self).export_count() == old(self).export_count(),
            (r, final(self)@) == extend_outcome(old(self)@, old(self).export_count(), *object),
    {
        match object {
            Operand::Itself => self.irepeat(2),
            Operand::Object(object) => match bytes_from_object(object) {
                Ok(items) => self.append_all(items.as_slice()),
                Err(e) => Err(e),
            },
        }
    }

    /// Repeats the contents `n` times.
    fn irepeat(&mut self, n: isize) -> (r: PyResult<()>)
        requires
            irepeat_fits(old(self)@, old(self).export_count(), n),
        ensures
            final(self).export_count() == old(self).export_count(),
            (r, final(self)@) == irepeat_outcome(old(self)@, old(self).export_count(), n),
    {
        if n == 1 {
            return Ok(());
        }
        let w = match self.try_resizable() {
            Ok(w) => w,
            Err(err) => {
                return if self.borrow_buf().is_empty() {
                    Ok(())
                } else {
                    Err(err)
                };
            },
        };
        if n <= 0 {
            w.elements.clear();
        } else {
            w.repeat_in_place(n as usize);
        }
        Ok(())
    }

    /// Repeats the contents `n` times, and returns the byte array itself.
    pub fn imul(&mut self, n: isize) -> (r: PyResult<&mut Self>)
        requires
            irepeat_fits(old(self)@, old(self).export_count(), n),
        ensures
            match r {
                Ok(zelf) => {
                    &&& zelf.export_count() == old(self).export_count()
                    &&& (Ok::<(), PyException>(()), zelf@) == irepeat_outcome(
                        old(self)@,
                        old(self).export_count(),
                        n,
                    )
                    &&& *final(self) == *final(zelf)
                },
                Err(e) => {
                    &&& final(self).export_count() == old(self).export_count()
                    &&& (Err::<(), PyException>(e), final(self)@) == irepeat_outcome(
                        old(self)@,
                        old(self).export_count(),
                        n,
                    )
                },
            },
    {
        match self.irepeat(n) {
            Ok(()) => Ok(self),
            Err(e) => Err(e),
        }
    }

    /// Removes all bytes.
    pub fn clear(&mut self) -> (r: PyResult<()>)
        ensures
            final(self).export_count() == old(self).export_count(),
            (r, final(self)@) == clear_outcome(old(self)@, old(self).export_count()),
    {
        match self.try_resizable() {
            Ok(w) => {
                w.elements.clear();
                Ok(())
            },
            Err(e) => Err(e),
        }
    }

    /// Reverses the order of the bytes.
    pub fn reverse(&mut self)
        ensures
            final(self).export_count() == old(self).export_count(),
            final(self)@ == old(self)@.reverse(),
    {
        self.inner.reverse();
    }

    /// A new byte array with the same contents, free of exports.
    pub fn copy(&self) -> (r: Self)
        ensures
            r@ == self@,
            r.export_count() == 0,
    {
        PyByteArray::from(vstd::slice::slice_to_vec(self.borrow_buf()))
    }
}

/// Whether `r` is a byte array with the contents `s` and free of exports, or the exception of `s`.
pub open spec fn fresh(r: PyResult<PyByteArray>, s: PyResult<Seq<u8>>) -> bool {
    match (r, s) {
        (Ok(b), Ok(t)) => b@ == t && b.export_count() == 0,
        (Err(e), Err(f)) => e == f,
        _ => false,
    }
}

/// Whether `r` is an instance of `class`, a byte array with the contents `s` and free of exports, or
/// the exception of `s`.
pub open spec fn fresh_instance<C>(
    r: PyResult<(C, PyByteArray)>,
    class: C,
    s: PyResult<Seq<u8>>,
) -> bool {
    match (r, s) {
        (Ok((c, b)), Ok(t)) => c == class && b@ == t && b.export_count() == 0,
        (Err(e), Err(f)) => e == f,
        _ => false,
    }
}

/// Whether `v` are byte arrays with the contents `parts` and free of exports.
pub open spec fn all_fresh(v: Seq<PyByteArray>, parts: Seq<Seq<u8>>) -> bool {
    &&& v.len() == parts.len()
    &&& forall|i: int|
        0 <= i < v.len() ==> (#[trigger] v[i])@ == parts[i] && v[i].export_count() == 0
}

/// Whether `v` are byte arrays with the contents `parts` and free of exports, or the exception of
/// `parts`.
pub open spec fn fresh_list(v: PyResult<Vec<PyByteArray>>, parts: PyResult<Seq<Seq<u8>>>) -> bool {
    match (v, parts) {
        (Ok(v), Ok(parts)) => all_fresh(v@, parts),
        (Err(e), Err(f)) => e == f,
        _ => false,
    }
}

/// Whether `r` are three byte arrays with the contents `s` and free of exports, or the exception of
/// `s`.
pub open spec fn fresh_triple(
    r: PyResult<(PyByteArray, PyByteArray, PyByteArray)>,
    s: PyResult<(Seq<u8>, Seq<u8>, Seq<u8>)>,
) -> bool {
    match (r, s) {
        (Ok((a, b, c)), Ok(t)) => {
            &&& a@ == t.0 && b@ == t.1 && c@ == t.2
            &&& a.export_count() == 0 && b.export_count() == 0 && c.export_count() == 0
        },
        (Err(e), Err(f)) => e == f,
        _ => false,
    }
}

/// Whether `r` is the position `s`, with -1 for none, or the exception of `s`.
pub open spec fn signed_position(r: PyResult<isize>, s: PyResult<Option<int>>) -> bool {
    match s {
        Err(e) => r == Err::<isize, PyException>(e),
        Ok(Some(i)) => r == Ok::<isize, PyException>((i as usize) as isize),
        Ok(None) => r == Ok::<isize, PyException>((-1) as isize),
    }
}

/// Whether `r` is the position `s`, with an exception for none, or the exception of `s`.
pub open spec fn certain_position(r: PyResult<usize>, s: PyResult<Option<int>>) -> bool {
    match s {
        Err(e) => r == Err::<usize, PyException>(e),
        Ok(Some(i)) => r == Ok::<usize, PyException>(i as usize),
        Ok(None) => r == Err::<usize, PyException>(PyException::SubstringNotFound),
    }
}

/// What `partition` yields: the part before the first separator, the separator, and the part behind
/// it; where there is none, everything, and twice nothing.
pub open spec fn partitioned(s: Seq<u8>, sep: Seq<u8>) -> PyResult<(Seq<u8>, Seq<u8>, Seq<u8>)> {
    match partition_result(s, sep) {
        Err(e) => Err(e),
        Ok((front, has_mid, back)) => Ok(
            (
                front,
                if has_mid {
                    sep
                } else {
                    Seq::empty()
                },
                back,
            ),
        ),
    }
}

/// What `rpartition` yields: the part before the last separator, the separator, and the part behind
/// it; where there is none, twice nothing, and everything.
pub open spec fn rpartitioned(s: Seq<u8>, sep: Seq<u8>) -> PyResult<(Seq<u8>, Seq<u8>, Seq<u8>)> {
    match rpartition_result(s, sep) {
        Err(e) => Err(e),
        Ok((back, has_mid, front)) => Ok(
            (
                front,
                if has_mid {
                    sep
                } else {
                    Seq::empty()
                },
                back,
            ),
        ),
    }
}

/// What `s[needle]` is: a byte, or the bytes of a slice.
pub open spec fn getitem_result(s: Seq<u8>, needle: PyObject) -> PyResult<Either<u8, Seq<u8>>> {
    match subscript_of(needle) {
        Err(e) => Err(e),
        Ok(SequenceIndex::Int(i)) => match wrapped(i as int, s.len() as int) {
            None => Err(PyException::IndexOutOfRange),
            Some(k) => Ok(Either::A(s[k])),
        },
        Ok(SequenceIndex::Slice(slice)) => match slice_items(s, slice) {
            Err(e) => Err(e),
            Ok(items) => Ok(Either::B(items)),
        },
    }
}

/// A source of a new byte array.
#[derive(Debug)]
pub enum NewSource {
    /// A string, by its bytes in the encoding that is given with it.
    Text(Vec<u8>),
    /// Any other object.
    Object(PyObject),
}

/// The arguments from which a byte array is made.
#[derive(Debug)]
pub struct ByteInnerNewOptions {
    pub source: Option<NewSource>,
    /// Whether an encoding is given.
    pub encoding: bool,
}

/// The contents of the byte array that is made from `options`: those of an encoded string, as many
/// zeros as an integer says, the bytes that another object supplies, or nothing.
pub open spec fn new_result(options: ByteInnerNewOptions) -> PyResult<Seq<u8>> {
    if options.encoding {
        match options.source {
            Some(NewSource::Text(encoded)) => Ok(encoded@),
            _ => Err(PyException::EncodingWithoutString),
        }
    } else {
        match options.source {
            None => Ok(Seq::empty()),
            Some(NewSource::Text(_)) => Err(PyException::StringWithoutEncoding),
            Some(NewSource::Object(PyObject::Int(n))) => if n < 0 {
                Err(PyException::NegativeCount)
            } else if n > isize::MAX {
                Err(PyException::SizeTooLarge)
            } else {
                Ok(Seq::new(n as nat, |i: int| 0u8))
            },
            Some(NewSource::Object(object)) => bytes_of(object),
        }
    }
}

/// Byte arrays with the contents `parts`.
fn new_bytearrays(parts: Vec<Vec<u8>>) -> (r: Vec<PyByteArray>)
    ensures
        all_fresh(r@, parts::pieces(parts@)),
{
    let mut r: Vec<PyByteArray> = Vec::new();
    let mut i: usize = 0;
    while i < parts.len()
        invariant
            i <= parts.len(),
            r@.len() == i,
            forall|j: int|
                0 <= j < i ==> (#[trigger] r@[j])@ == parts@[j]@ && r@[j].export_count() == 0,
        decreases parts.len() - i,
    {
        r.push(PyByteArray::from(vstd::slice::slice_to_vec(parts[i].as_slice())));
        i += 1;
    }
    r
}

impl PyByteArray {
    /// The class of the byte array.
    pub fn class(context: &PyContext) -> (r: &PyClass)
        ensures
            *r == context.bytearray_type,
    {
        &context.bytearray_type
    }

    /// Makes a byte array that is an instance of `class`, which is the class of byte arrays or one
    /// derived from it.
    pub fn tp_new<C>(class: C, options: ByteInnerNewOptions) -> (r: PyResult<(C, PyByteArray)>)
        ensures
            fresh_instance(r, class, new_result(options)),
    {
        match PyByteArray::from_options(options) {
            Ok(bytearray) => Ok((class, bytearray)),
            Err(e) => Err(e),
        }
    }

    /// Makes a byte array.
    fn from_options(options: ByteInnerNewOptions) -> (r: PyResult<PyByteArray>)
        ensures
            fresh(r, new_result(options)),
    {
        if options.encoding {
            match options.source {
                Some(NewSource::Text(encoded)) => Ok(PyByteArray::from(encoded)),
                _ => Err(PyException::EncodingWithoutString),
            }
        } else {
            match options.source {
                None => {
                    let empty: Vec<u8> = Vec::new();
                    Ok(PyByteArray::from(empty))
                },
                Some(NewSource::Text(_)) => Err(PyException::StringWithoutEncoding),
                Some(NewSource::Object(PyObject::Int(n))) => if n < 0 {
                    Err(PyException::NegativeCount)
                } else if n > isize::MAX as i128 {
                    Err(PyException::SizeTooLarge)
                } else {
                    let zeros: Vec<u8> = vec![0u8; n as usize];
                    assert(zeros@ =~= Seq::new(n as nat, |i: int| 0u8));
                    Ok(PyByteArray::from(zeros))
                },
                Some(NewSource::Object(object)) => match bytes_from_object(&object) {
                    Ok(elements) => Ok(PyByteArray::from(elements)),
                    Err(e) => Err(e),
                },
            }
        }
    }

    /// The representation of the byte array.
    pub fn repr(&self) -> (r: String)
        ensures
            r@ == repr_text(self@, "bytearray("@, ")"@),
    {
        repr::repr(self.borrow_buf(), "bytearray(", ")")
    }

    /// The size of the byte array in memory, in bytes: that of the object, which has a lock, and that
    /// of its bytes.
    pub fn sizeof(&self) -> (r: usize)
        requires
            vstd::layout::size_of::<ByteArrayObject>() + self@.len() <= usize::MAX,
        ensures
            r == vstd::layout::size_of::<ByteArrayObject>() + self@.len(),
    {
        std::mem::size_of::<ByteArrayObject>() + self.borrow_buf().len()
    }

    /// A new byte array with `other` behind the contents.
    pub fn add(&self, other: &[u8]) -> (r: PyByteArray)
        ensures
            r@ == self@ + other@,
            r.export_count() == 0,
    {
        PyByteArray::from(edit::concat(self.borrow_buf(), other))
    }

    /// Whether a subsequence or a byte occurs.
    pub fn contains(&self, needle: &Either<PyBytesInner, i128>) -> (r: PyResult<bool>)
        ensures
            r == contains_result(self@, *needle),
    {
        search::contains(self.borrow_buf(), needle)
    }

    /// Reads a position or a slice.
    pub fn getitem(&self, needle: &PyObject) -> (r: PyResult<Either<u8, PyBytesInner>>)
        ensures
            match (r, getitem_result(self@, *needle)) {
                (Ok(Either::A(b)), Ok(Either::A(c))) => b == c,
                (Ok(Either::B(items)), Ok(Either::B(t))) => items@ == t,
                (Err(e), Err(f)) => e == f,
                _ => false,
            },
    {
        match SequenceIndex::try_from_object(needle) {
            Err(e) => Err(e),
            Ok(SequenceIndex::Int(i)) => match wrap_index(i, self.inner.elements.len()) {
                Some(k) => Ok(Either::A(self.inner.elements[k])),
                None => Err(PyException::IndexOutOfRange),
            },
            Ok(SequenceIndex::Slice(slice)) => match get_slice_items(self.borrow_buf(), &slice) {
                Ok(elements) => Ok(Either::B(PyBytesInner { elements })),
                Err(e) => Err(e),
            },
        }
    }

    /// Whether all bytes are ASCII letters or digits, and there is one.
    pub fn isalnum(&self) -> (r: bool)
        ensures
            r == all_of(self@, |b: u8| is_alnum(b)),
    {
        ascii::isalnum(self.borrow_buf())
    }

    /// Whether all bytes are ASCII letters, and there is one.
    pub fn isalpha(&self) -> (r: bool)
        ensures
            r == all_of(self@, |b: u8| is_alpha(b)),
    {
        ascii::isalpha(self.borrow_buf())
    }

    /// Whether all bytes are ASCII characters.
    pub fn isascii(&self) -> (r: bool)
        ensures
            r == (forall|i: int| 0 <= i < self@.len() ==> is_ascii(#[trigger] self@[i])),
    {
        ascii::isascii(self.borrow_buf())
    }

    /// Whether all bytes are ASCII digits, and there is one.
    pub fn isdigit(&self) -> (r: bool)
        ensures
            r == all_of(self@, |b: u8| is_digit(b)),
    {
        ascii::isdigit(self.borrow_buf())
    }

    /// Whether there is a lower-case ASCII letter and no upper-case one.
    pub fn islower(&self) -> (r: bool)
        ensures
            r == all_lower(self@),
    {
        ascii::islower(self.borrow_buf())
    }

    /// Whether all bytes are ASCII whitespace, and there is one.
    pub fn isspace(&self) -> (r: bool)
        ensures
            r == all_of(self@, |b: u8| is_space(b)),
    {
        ascii::isspace(self.borrow_buf())
    }

    /// Whether there is an upper-case ASCII letter and no lower-case one.
    pub fn isupper(&self) -> (r: bool)
        ensures
            r == all_upper(self@),
    {
        ascii::isupper(self.borrow_buf())
    }

    /// Whether there is an ASCII letter, and the words are written in title case.
    pub fn istitle(&self) -> (r: bool)
        ensures
            r == titlecased(self@),
    {
        ascii::istitle(self.borrow_buf())
    }

    /// A copy in lower case.
    pub fn lower(&self) -> (r: Self)
        ensures
            r@ == lowered(self@),
            r.export_count() == 0,
    {
        PyByteArray::from(ascii::lower(self.borrow_buf()))
    }

    /// A copy in upper case.
    pub fn upper(&self) -> (r: Self)
        ensures
            r@ == uppered(self@),
            r.export_count() == 0,
    {
        PyByteArray::from(ascii::upper(self.borrow_buf()))
    }

    /// A copy with the first byte in upper case and the others in lower case.
    pub fn capitalize(&self) -> (r: Self)
        ensures
            r@ == capitalized(self@),
            r.export_count() == 0,
    {
        PyByteArray::from(ascii::capitalize(self.borrow_buf()))
    }

    /// A copy with the letter case exchanged.
    pub fn swapcase(&self) -> (r: Self)
        ensures
            r@ == swapped(self@),
            r.export_count() == 0,
    {
        PyByteArray::from(ascii::swapcase(self.borrow_buf()))
    }

    /// A copy with the words in title case.
    pub fn title(&self) -> (r: Self)
        ensures
            r@ == titled(self@),
            r.export_count() == 0,
    {
        PyByteArray::from(ascii::title(self.borrow_buf()))
    }

    /// The bytes in hexadecimal digits, with a separator between groups of bytes.
    pub fn hex(
        &self,
        sep: &Option<Either<String, PyBytesInner>>,
        bytes_per_sep: Option<isize>,
    ) -> (r: PyResult<String>)
        ensures
            match (r, hex_result(self@, *sep, bytes_per_sep)) {
                (Ok(text), Ok(t)) => text@ == t,
                (Err(e), Err(f)) => e == f,
                _ => false,
            },
    {
        hexadecimal::hex(self.borrow_buf(), sep, bytes_per_sep)
    }

    /// A byte array of the bytes that hexadecimal digits stand for.
    pub fn fromhex(string: &str) -> (r: PyResult<PyByteArray>)
        ensures
            fresh(r, read_hex(vstd::utf8::encode_utf8(string@), 0)),
    {
        match hexadecimal::fromhex(string) {
            Ok(elements) => Ok(PyByteArray::from(elements)),
            Err(e) => Err(e),
        }
    }

    /// A copy in the middle of a given width.
    pub fn center(&self, options: &ByteInnerPaddingOptions) -> (r: PyResult<PyByteArray>)
        ensures
            fresh(r, center_result(self@, *options)),
    {
        match edit::center(self.borrow_buf(), options) {
            Ok(elements) => Ok(PyByteArray::from(elements)),
            Err(e) => Err(e),
        }
    }

    /// A copy at the start of a given width.
    pub fn ljust(&self, options: &ByteInnerPaddingOptions) -> (r: PyResult<PyByteArray>)
        ensures
            fresh(r, ljust_result(self@, *options)),
    {
        match edit::ljust(self.borrow_buf(), options) {
            Ok(elements) => Ok(PyByteArray::from(elements)),
            Err(e) => Err(e),
        }
    }

    /// A copy at the end of a given width.
    pub fn rjust(&self, options: &ByteInnerPaddingOptions) -> (r: PyResult<PyByteArray>)
        ensures
            fresh(r, rjust_result(self@, *options)),
    {
        match edit::rjust(self.borrow_buf(), options) {
            Ok(elements) => Ok(PyByteArray::from(elements)),
            Err(e) => Err(e),
        }
    }

    /// How often a subsequence occurs without overlap.
    pub fn count(&self, options: &ByteInnerFindOptions) -> (r: PyResult<usize>)
        requires
            count_fits(self@, *options),
        ensures
            match (r, count_result(self@, *options)) {
                (Ok(n), Ok(m)) => n == m,
                (Err(e), Err(f)) => e == f,
                _ => false,
            },
    {
        search::count(self.borrow_buf(), options)
    }

    /// The contents of bytes-like objects, with the byte array between each two.
    pub fn join(&self, iter: &Vec<PyObject>) -> (r: PyResult<PyByteArray>)
        ensures
            fresh(r, join_result(self@, iter@)),
    {
        match parts::join(self.borrow_buf(), iter) {
            Ok(elements) => Ok(PyByteArray::from(elements)),
            Err(e) => Err(e),
        }
    }

    /// Whether the byte array, or a part of it, ends with one of the given suffixes.
    pub fn endswith(&self, options: &StartsEndsWithArgs) -> (r: PyResult<bool>)
        ensures
            r == affix_result(self@, *options, true),
    {
        search::startsendswith(self.borrow_buf(), options, true)
    }

    /// Whether the byte array, or a part of it, begins with one of the given prefixes.
    pub fn startswith(&self, options: &StartsEndsWithArgs) -> (r: PyResult<bool>)
        ensures
            r == affix_result(self@, *options, false),
    {
        search::startsendswith(self.borrow_buf(), options, false)
    }

    /// The first position of a subsequence, or -1.
    pub fn find(&self, options: &ByteInnerFindOptions) -> (r: PyResult<isize>)
        ensures
            signed_position(r, find_result(self@, *options)),
    {
        match search::find_first(self.borrow_buf(), options) {
            Ok(Some(i)) => Ok(i as isize),
            Ok(None) => Ok(-1),
            Err(e) => Err(e),
        }
    }

    /// The first position of a subsequence.
    pub fn index(&self, options: &ByteInnerFindOptions) -> (r: PyResult<usize>)
        ensures
            certain_position(r, find_result(self@, *options)),
    {
        match search::find_first(self.borrow_buf(), options) {
            Ok(Some(i)) => Ok(i),
            Ok(None) => Err(PyException::SubstringNotFound),
            Err(e) => Err(e),
        }
    }

    /// The last position of a subsequence, or -1.
    pub fn rfind(&self, options: &ByteInnerFindOptions) -> (r: PyResult<isize>)
        ensures
            signed_position(r, rfind_result(self@, *options)),
    {
        match search::find_last(self.borrow_buf(), options) {
            Ok(Some(i)) => Ok(i as isize),
            Ok(None) => Ok(-1),
            Err(e) => Err(e),
        }
    }

    /// The last position of a subsequence.
    pub fn rindex(&self, options: &ByteInnerFindOptions) -> (r: PyResult<usize>)
        ensures
            certain_position(r, rfind_result(self@, *options)),
    {
        match search::find_last(self.borrow_buf(), options) {
            Ok(Some(i)) => Ok(i),
            Ok(None) => Err(PyException::SubstringNotFound),
            Err(e) => Err(e),
        }
    }

    /// A copy without the bytes to delete and with the others translated.
    pub fn translate(&self, options: &ByteInnerTranslateOptions) -> (r: PyResult<PyByteArray>)
        ensures
            fresh(r, translate_result(self@, *options)),
    {
        match edit::translate(self.borrow_buf(), options) {
            Ok(elements) => Ok(PyByteArray::from(elements)),
            Err(e) => Err(e),
        }
    }

    /// A copy without the given bytes, or without whitespace, at its start and at its end.
    pub fn strip(&self, chars: Option<PyBytesInner>) -> (r: Self)
        ensures
            r@ == stripped(self@, strip_set(chars)),
            r.export_count() == 0,
    {
        PyByteArray::from(span::strip(self.borrow_buf(), chars))
    }

    /// A copy without the given bytes, or without whitespace, at its start.
    pub fn lstrip(&self, chars: Option<PyBytesInner>) -> (r: Self)
        ensures
            r@ == lstripped(self@, strip_set(chars)),
            r.export_count() == 0,
    {
        PyByteArray::from(span::lstrip(self.borrow_buf(), chars))
    }

    /// A copy without the given bytes, or without whitespace, at its end.
    pub fn rstrip(&self, chars: Option<PyBytesInner>) -> (r: Self)
        ensures
            r@ == rstripped(self@, strip_set(chars)),
            r.export_count() == 0,
    {
        PyByteArray::from(span::rstrip(self.borrow_buf(), chars))
    }

    /// A copy with the given prefix removed if present.
    pub fn removeprefix(&self, prefix: PyBytesInner) -> (r: Self)
        ensures
            r@ == without_prefix(self@, prefix@),
            r.export_count() == 0,
    {
        PyByteArray::from(span::removeprefix(self.borrow_buf(), prefix.elements.as_slice()))
    }

    /// A copy with the given suffix removed if present.
    pub fn removesuffix(&self, suffix: PyBytesInner) -> (r: Self)
        ensures
            r@ == without_suffix(self@, suffix@),
            r.export_count() == 0,
    {
        PyByteArray::from(span::removesuffix(self.borrow_buf(), suffix.elements.as_slice()))
    }

    /// The parts between separators, split from the left.
    pub fn split(&self, options: &ByteInnerSplitOptions) -> (r: PyResult<Vec<PyByteArray>>)
        ensures
            fresh_list(r, split_result(self@, *options)),
    {
        match parts::split(self.borrow_buf(), options) {
            Ok(parts) => Ok(new_bytearrays(parts)),
            Err(e) => Err(e),
        }
    }

    /// The parts between separators, split from the right.
    pub fn rsplit(&self, options: &ByteInnerSplitOptions) -> (r: PyResult<Vec<PyByteArray>>)
        ensures
            fresh_list(r, rsplit_result(self@, *options)),
    {
        match parts::rsplit(self.borrow_buf(), options) {
            Ok(parts) => Ok(new_bytearrays(parts)),
            Err(e) => Err(e),
        }
    }

    /// The part before the first separator, the separator, and the part behind it.
    pub fn partition(&self, sep: PyBytesInner) -> (r: PyResult<
        (PyByteArray, PyByteArray, PyByteArray),
    >)
        ensures
            fresh_triple(r, partitioned(self@, sep@)),
    {
        let (front, has_mid, back) = match parts::partition(
            self.borrow_buf(),
            sep.elements.as_slice(),
        ) {
            Ok(cut) => cut,
            Err(e) => return Err(e),
        };
        let mid: Vec<u8> = if has_mid {
            sep.elements
        } else {
            Vec::new()
        };
        Ok((PyByteArray::from(front), PyByteArray::from(mid), PyByteArray::from(back)))
    }

    /// The part before the last separator, the separator, and the part behind it.
    pub fn rpartition(&self, sep: PyBytesInner) -> (r: PyResult<
        (PyByteArray, PyByteArray, PyByteArray),
    >)
        ensures
            fresh_triple(r, rpartitioned(self@, sep@)),
    {
        let (back, has_mid, front) = match parts::rpartition(
            self.borrow_buf(),
            sep.elements.as_slice(),
        ) {
            Ok(cut) => cut,
            Err(e) => return Err(e),
        };
        let mid: Vec<u8> = if has_mid {
            sep.elements
        } else {
            Vec::new()
        };
        Ok((PyByteArray::from(front), PyByteArray::from(mid), PyByteArray::from(back)))
    }

    /// A copy with its tabs replaced by spaces.
    pub fn expandtabs(&self, tabsize: Option<isize>) -> (r: Self)
        ensures
            r@ == expanded(self@, tab_size(tabsize), 0),
            r.export_count() == 0,
    {
        PyByteArray::from(edit::expandtabs(self.borrow_buf(), tabsize))
    }

    /// The lines, with their ends when `keepends`.
    pub fn splitlines(&self, keepends: bool) -> (r: Vec<PyByteArray>)
        ensures
            all_fresh(r@, lines(self@, keepends)),
    {
        new_bytearrays(parts::splitlines(self.borrow_buf(), keepends))
    }

    /// A copy with zeros behind its sign, up to a given width.
    pub fn zfill(&self, width: isize) -> (r: Self)
        ensures
            r@ == zero_filled(self@, width as int),
            r.export_count() == 0,
    {
        PyByteArray::from(edit::zfill(self.borrow_buf(), width))
    }

    /// A copy with occurrences of `old_bytes` replaced by `new_bytes`, `count` of them at most.
    pub fn replace(
        &self,
        old_bytes: PyBytesInner,
        new_bytes: PyBytesInner,
        count: Option<isize>,
    ) -> (r: PyResult<PyByteArray>)
        ensures
            fresh(r, Ok(replaced(self@, old_bytes@, new_bytes@, replace_limit(count)))),
    {
        Ok(
            PyByteArray::from(
                edit::replace(
                    self.borrow_buf(),
                    old_bytes.elements.as_slice(),
                    new_bytes.elements.as_slice(),
                    count,
                ),
            ),
        )
    }

    /// A copy repeated `n` times.
    pub fn mul(&self, n: isize) -> (r: Self)
        requires
            n > 0 ==> self@.len() * n <= isize::MAX,
        ensures
            r@ == multiplied(self@, n as int),
            r.export_count() == 0,
    {
        PyByteArray::from(edit::repeat(self.borrow_buf(), n))
    }

    /// A byte array of the bytes that formatting with the contents as the template yielded.
    pub fn modulo(&self, formatted: PyResult<PyBytesInner>) -> (r: PyResult<PyByteArray>)
        ensures
            match formatted {
                Ok(inner) => fresh(r, Ok(inner@)),
                Err(e) => r == Err::<PyByteArray, PyException>(e),
            },
    {
        match formatted {
            Ok(inner) => Ok(PyByteArray::from(inner)),
            Err(e) => Err(e),
        }
    }

    /// A byte array does not format another object.
    pub fn rmod(&self, _values: &PyObject) -> (r: PyComparisonValue)
        ensures
            r == PyComparisonValue::NotImplemented,
    {
        PyComparisonValue::NotImplemented
    }

    /// What it takes to make the byte array anew: its class, the arguments, which are its bytes, and
    /// its attributes.
    pub fn reduce<C, D>(&self, class: C, dict: Option<D>) -> (r: (C, Vec<PyObject>, Option<D>))
        ensures
            r.0 == class,
            r.1@.len() == 1,
            r.1@[0] matches PyObject::Bytes(v) && v@ == self@,
            r.2 == dict,
    {
        let bytes = PyObject::Bytes(vstd::slice::slice_to_vec(self.borrow_buf()));
        let mut args: Vec<PyObject> = Vec::new();
        args.push(bytes);
        (class, args, dict)
    }

    /// The same as `reduce`, whatever the protocol.
    pub fn reduce_ex<C, D>(&self, _proto: usize, class: C, dict: Option<D>) -> (r: (
        C,
        Vec<PyObject>,
        Option<D>,
    ))
        ensures
            r.0 == class,
            r.1@.len() == 1,
            r.1@[0] matches PyObject::Bytes(v) && v@ == self@,
            r.2 == dict,
    {
        self.reduce(class, dict)
    }

    /// A byte array has no hash: it can change.
    pub fn unhashable(&self) -> (r: PyResult<i64>)
        ensures
            r == Err::<i64, PyException>(PyException::Unhashable),
    {
        Err(PyException::Unhashable)
    }

    /// Compares the byte array with another object.
    pub fn cmp(&self, other: &Operand, op: PyComparisonOp) -> (r: PyComparisonValue)
        ensures
            r == comparison(self@, *other, op),
    {
        match other {
            Operand::Itself => {
                proof {
                    crate::compare::lemma_relation_reflexive(self@);
                }
                match op.identical_optimization(true) {
                    Some(value) => PyComparisonValue::Implemented(value),
                    None => PyComparisonValue::Implemented(
                        op.eval(relate(self.borrow_buf(), self.borrow_buf())),
                    ),
                }
            },
            Operand::Object(PyObject::Bytes(v)) => PyComparisonValue::Implemented(
                op.eval(relate(self.borrow_buf(), v.as_slice())),
            ),
            Operand::Object(_) => PyComparisonValue::NotImplemented,
        }
    }

    /// Exports the buffer of the byte array.
    pub fn get_buffer(&mut self) -> (r: PyResult<ByteArrayBuffer>)
        ensures
            final(self)@ == old(self)@,
            final(self).export_count() == incremented(old(self).export_count(), 1),
            r matches Ok(buffer) && buffer.options().len == old(self)@.len()
                && !buffer.options().readonly && buffer.options().itemsize == 1
                && buffer.options().contiguous && buffer.options().ndim == 1,
    {
        counter_fetch_add(&mut self.exports, 1);
        let mut options = BufferOptions::default();
        options.readonly = false;
        options.len = self.len();
        Ok(ByteArrayBuffer { options })
    }

    /// An iterator over the byte array, at its start.
    pub fn iter(&self) -> (r: PyByteArrayIterator)
        ensures
            r.next_position() == 0,
    {
        PyByteArrayIterator { position: counter_new(0) }
    }
}

/// How the bytes of an exported buffer are laid out, and whether they can be changed.
#[derive(Debug, Clone, Copy)]
pub struct BufferOptions {
    pub readonly: bool,
    pub len: usize,
    pub itemsize: usize,
    pub contiguous: bool,
    pub ndim: usize,
}

impl Default for BufferOptions {
    /// An empty read-only buffer of single bytes, one behind the other.
    fn default() -> (r: Self)
        ensures
            r.readonly,
            r.len == 0,
            r.itemsize == 1,
            r.contiguous,
            r.ndim == 1,
    {
        BufferOptions { readonly: true, len: 0, itemsize: 1, contiguous: true, ndim: 1 }
    }
}

/// An exported buffer of a byte array. Its operations take the byte array that it was exported from.
#[derive(Debug)]
pub struct ByteArrayBuffer {
    options: BufferOptions,
}

impl ByteArrayBuffer {
    /// The layout of the buffer when it was exported.
    pub closed spec fn options(&self) -> BufferOptions {
        self.options
    }

    /// The bytes of the buffer.
    pub fn obj_bytes<'a>(&self, bytearray: &'a PyByteArray) -> (r: &'a [u8])
        ensures
            r@ == bytearray@,
    {
        bytearray.borrow_buf()
    }

    /// The bytes of the buffer, to be changed in place. That a slice keeps its length is up to its
    /// type.
    pub fn obj_bytes_mut<'a>(&self, bytearray: &'a mut PyByteArray) -> (r: &'a mut [u8])
        ensures
            r@ == old(bytearray)@,
            final(bytearray)@ == final(r)@,
            final(bytearray).export_count() == old(bytearray).export_count(),
    {
        bytearray.inner.elements.as_mut_slice()
    }

    /// Ends the export.
    pub fn release(&self, bytearray: &mut PyByteArray)
        ensures
            final(bytearray)@ == old(bytearray)@,
            final(bytearray).export_count() == decremented(old(bytearray).export_count(), 1),
    {
        counter_fetch_sub(&mut bytearray.exports, 1);
    }

    /// The layout of the buffer when it was exported.
    pub fn get_options(&self) -> (r: &BufferOptions)
        ensures
            *r == self.options(),
    {
        &self.options
    }
}

/// What a step of an iterator over `s` yields at the position `position`.
pub open spec fn next_result(s: Seq<u8>, position: usize) -> PyResult<u8> {
    if position < s.len() {
        Ok(s[position as int])
    } else {
        Err(PyException::StopIteration)
    }
}

/// An iterator over a byte array. It takes the byte array with each step, and so sees what becomes
/// of it meanwhile.
#[derive(Debug)]
pub struct PyByteArrayIterator {
    position: AtomicCell<usize>,
}

impl PyByteArrayIterator {
    /// The position of the byte that the next step yields.
    pub closed spec fn next_position(&self) -> usize {
        counter_value(self.position)
    }

    /// The class of the iterator.
    pub fn class(context: &PyContext) -> (r: &PyClass)
        ensures
            *r == context.bytearray_iterator_type,
    {
        &context.bytearray_iterator_type
    }

    /// The next byte, where there is one.
    pub fn next(&mut self, bytearray: &PyByteArray) -> (r: PyResult<u8>)
        ensures
            final(self).next_position() == incremented(old(self).next_position(), 1),
            r == next_result(bytearray@, old(self).next_position()),
    {
        let pos: usize = counter_fetch_add(&mut self.position, 1);
        if pos < bytearray.inner.elements.len() {
            Ok(bytearray.inner.elements[pos])
        } else {
            Err(PyException::StopIteration)
        }
    }
}

impl From<PyBytesInner> for PyByteArray {
    fn from(inner: PyBytesInner) -> (r: Self)
        ensures
            r@ == inner@,
            r.export_count() == 0,
    {
        Self::from_inner(inner)
    }
}

impl FromSpecImpl<PyBytesInner> for PyByteArray {
    open spec fn obeys_from_spec() -> bool {
        false
    }

    open spec fn from_spec(inner: PyBytesInner) -> Self {
        arbitrary()
    }
}

impl From<Vec<u8>> for PyByteArray {
    fn from(elements: Vec<u8>) -> (r: Self)
        ensures
            r@ == elements@,
            r.export_count() == 0,
    {
        Self::from(PyBytesInner { elements })
    }
}

impl FromSpecImpl<Vec<u8>> for PyByteArray {
    open spec fn obeys_from_spec() -> bool {
        false
    }

    open spec fn from_spec(elements: Vec<u8>) -> Self {
        arbitrary()
    }
}

} // verus!
