use pybytearray::bytearray::PyByteArray;
use pybytearray::error::{ExceptionClass, PyException};
use pybytearray::object::{Operand, PyObject, PySlice, SequenceIndex};

fn array(bytes: &[u8]) -> PyByteArray {
    PyByteArray::from(bytes.to_vec())
}

fn object(bytes: &[u8]) -> Operand {
    Operand::Object(PyObject::Bytes(bytes.to_vec()))
}

fn integer(i: i128) -> PyObject {
    PyObject::Int(i)
}

fn slice(start: Option<isize>, stop: Option<isize>, step: Option<isize>) -> PyObject {
    PyObject::Slice(PySlice { start, stop, step })
}

#[test]
fn append_then_pop() {
    let mut a = array(b"ab");
    assert_eq!(a.append(&integer(0x63)), Ok(()));
    assert_eq!(a.borrow_buf(), b"abc");
    assert_eq!(a.pop(None), Ok(0x63));
    assert_eq!(a.borrow_buf(), b"ab");
    assert_eq!(a.pop(Some(0)), Ok(0x61));
    assert_eq!(a.borrow_buf(), b"b");
    assert_eq!(a.pop(Some(1)), Err(PyException::IndexOutOfRange));
    assert_eq!(a.pop(Some(-2)), Err(PyException::IndexOutOfRange));
    assert_eq!(a.pop(Some(-1)), Ok(0x62));
    assert_eq!(a.pop(None), Err(PyException::IndexOutOfRange));
    assert_eq!(a.len(), 0);
}

#[test]
fn append_only_bytes() {
    let mut a = array(b"x");
    assert_eq!(a.append(&integer(256)), Err(PyException::ByteOutOfRange));
    assert_eq!(a.append(&integer(-1)), Err(PyException::ByteOutOfRange));
    assert_eq!(a.append(&PyObject::Other), Err(PyException::NotAnInteger));
    assert_eq!(a.append(&PyObject::Bytes(vec![1])), Err(PyException::NotAnInteger));
    assert_eq!(a.borrow_buf(), b"x");
    assert_eq!(a.append(&integer(255)), Ok(()));
    assert_eq!(a.borrow_buf(), &[0x78, 0xff]);
}

#[test]
fn insert_saturates() {
    let mut a = array(b"bd");
    assert_eq!(a.insert(1, &integer(0x63)), Ok(()));
    assert_eq!(a.borrow_buf(), b"bcd");
    assert_eq!(a.insert(-100, &integer(0x61)), Ok(()));
    assert_eq!(a.borrow_buf(), b"abcd");
    assert_eq!(a.insert(100, &integer(0x66)), Ok(()));
    assert_eq!(a.borrow_buf(), b"abcdf");
    assert_eq!(a.insert(-1, &integer(0x65)), Ok(()));
    assert_eq!(a.borrow_buf(), b"abcdef");
    assert_eq!(a.insert(0, &PyObject::Other), Err(PyException::NotAnInteger));
    assert_eq!(a.insert(0, &integer(300)), Err(PyException::ByteOutOfRange));
    assert_eq!(a.borrow_buf(), b"abcdef");
}

#[test]
fn remove_first_occurrence() {
    let mut a = array(b"banana");
    assert_eq!(a.remove(&integer(0x61)), Ok(()));
    assert_eq!(a.borrow_buf(), b"bnana");
    assert_eq!(a.remove(&integer(0x78)), Err(PyException::ValueNotFound));
    assert_eq!(a.remove(&integer(999)), Err(PyException::ByteOutOfRange));
    assert_eq!(a.borrow_buf(), b"bnana");
}

#[test]
fn extend_takes_what_yields_bytes() {
    let mut a = array(b"a");
    assert_eq!(a.extend(&object(b"bc")), Ok(()));
    assert_eq!(a.borrow_buf(), b"abc");
    let items = PyObject::Iterable(vec![integer(0x64), integer(0x65)]);
    assert_eq!(a.extend(&Operand::Object(items)), Ok(()));
    assert_eq!(a.borrow_buf(), b"abcde");
    let tuple = PyObject::Tuple(vec![integer(0x66)]);
    assert_eq!(a.extend(&Operand::Object(tuple)), Ok(()));
    assert_eq!(a.borrow_buf(), b"abcdef");
    let bad = PyObject::Iterable(vec![integer(1), integer(256)]);
    assert_eq!(a.extend(&Operand::Object(bad)), Err(PyException::ByteOutOfRange));
    let worse = PyObject::Iterable(vec![PyObject::Other, integer(256)]);
    assert_eq!(a.extend(&Operand::Object(worse)), Err(PyException::NotAnInteger));
    assert_eq!(a.extend(&Operand::Object(integer(3))), Err(PyException::NotByteSource));
    assert_eq!(a.borrow_buf(), b"abcdef");
}

#[test]
fn extend_with_itself_doubles() {
    let mut a = array(b"ab");
    assert_eq!(a.extend(&Operand::Itself), Ok(()));
    assert_eq!(a.borrow_buf(), b"abab");
    let mut b = array(b"ab");
    assert_eq!(b.imul(2).map(|_| ()), Ok(()));
    assert_eq!(b.borrow_buf(), a.borrow_buf());
}

#[test]
fn iadd_appends() {
    let mut a = array(b"ab");
    assert_eq!(a.iadd(b"cd").map(|_| ()), Ok(()));
    assert_eq!(a.borrow_buf(), b"abcd");
    assert_eq!(a.iadd(b"").map(|_| ()), Ok(()));
    assert_eq!(a.borrow_buf(), b"abcd");
}

#[test]
fn operators_in_place_return_the_byte_array() {
    let mut a = array(b"ab");
    let b = a.iadd(b"c").unwrap();
    assert_eq!(b.borrow_buf(), b"abc");
    assert_eq!(b.append(&integer(0x64)), Ok(()));
    assert_eq!(a.borrow_buf(), b"abcd");
    a.imul(2).unwrap().reverse();
    assert_eq!(a.borrow_buf(), b"dcbadcba");
}

#[test]
fn imul_repeats_in_place() {
    let mut a = array(b"ab");
    assert_eq!(a.imul(1).map(|_| ()), Ok(()));
    assert_eq!(a.borrow_buf(), b"ab");
    assert_eq!(a.imul(3).map(|_| ()), Ok(()));
    assert_eq!(a.borrow_buf(), b"ababab");
    assert_eq!(a.imul(0).map(|_| ()), Ok(()));
    assert_eq!(a.borrow_buf(), b"");
    let mut b = array(b"xy");
    assert_eq!(b.imul(-5).map(|_| ()), Ok(()));
    assert_eq!(b.len(), 0);
}

#[test]
fn repeated_copy_agrees_with_repetition_in_place() {
    let mut a = array(b"abc");
    let copy = a.mul(4);
    assert_eq!(a.borrow_buf(), b"abc");
    assert_eq!(a.imul(4).map(|_| ()), Ok(()));
    assert_eq!(copy.borrow_buf(), a.borrow_buf());
    assert_eq!(copy.len(), 12);
    assert_eq!(a.mul(-1).len(), 0);
    assert_eq!(a.mul(0).len(), 0);
}

#[test]
fn clear_and_reverse() {
    let mut a = array(b"abc");
    a.reverse();
    assert_eq!(a.borrow_buf(), b"cba");
    a.reverse();
    assert_eq!(a.borrow_buf(), b"abc");
    assert_eq!(a.clear(), Ok(()));
    assert_eq!(a.borrow_buf(), b"");
}

#[test]
fn copy_is_independent() {
    let mut a = array(b"abc");
    let b = a.copy();
    a.reverse();
    assert_eq!(b.borrow_buf(), b"abc");
    assert_eq!(a.borrow_buf(), b"cba");
}

#[test]
fn setitem_at_a_position() {
    let mut a = array(b"abc");
    assert_eq!(a.setitem(&integer(1), &Operand::Object(integer(0x78))), Ok(()));
    assert_eq!(a.borrow_buf(), b"axc");
    assert_eq!(a.setitem(&integer(-1), &Operand::Object(integer(0x79))), Ok(()));
    assert_eq!(a.borrow_buf(), b"axy");
    assert_eq!(
        a.setitem(&integer(3), &Operand::Object(integer(0))),
        Err(PyException::IndexOutOfRange)
    );
    assert_eq!(
        a.setitem(&integer(-4), &Operand::Object(integer(0))),
        Err(PyException::IndexOutOfRange)
    );
    assert_eq!(
        a.setitem(&integer(7), &Operand::Object(integer(256))),
        Err(PyException::ByteOutOfRange)
    );
    assert_eq!(a.setitem(&integer(0), &Operand::Itself), Err(PyException::NotAnInteger));
    assert_eq!(
        a.setitem(&integer(i128::MAX), &Operand::Object(integer(0))),
        Err(PyException::IndexTooLarge)
    );
    assert_eq!(
        a.setitem(&PyObject::Other, &Operand::Object(integer(0))),
        Err(PyException::BadSubscript)
    );
    assert_eq!(a.borrow_buf(), b"axy");
}

#[test]
fn setitem_with_a_slice() {
    let mut a = array(b"abcdef");
    assert_eq!(a.setitem(&slice(Some(1), Some(3), None), &object(b"XYZ")), Ok(()));
    assert_eq!(a.borrow_buf(), b"aXYZdef");
    assert_eq!(a.setitem(&slice(Some(1), Some(4), None), &object(b"")), Ok(()));
    assert_eq!(a.borrow_buf(), b"adef");
    assert_eq!(a.setitem(&slice(None, None, Some(2)), &object(b"12")), Ok(()));
    assert_eq!(a.borrow_buf(), b"1d2f");
    assert_eq!(a.setitem(&slice(None, None, Some(-1)), &object(b"wxyz")), Ok(()));
    assert_eq!(a.borrow_buf(), b"zyxw");
    assert_eq!(
        a.setitem(&slice(None, None, Some(2)), &object(b"123")),
        Err(PyException::SliceSizeMismatch { given: 3, expected: 2 })
    );
    assert_eq!(
        a.setitem(&slice(None, None, Some(0)), &object(b"1")),
        Err(PyException::SliceStepZero)
    );
    assert_eq!(
        a.setitem(&slice(None, None, None), &Operand::Object(PyObject::Other)),
        Err(PyException::NotByteSource)
    );
    assert_eq!(a.borrow_buf(), b"zyxw");
}

#[test]
fn setitem_with_itself() {
    let mut a = array(b"abc");
    assert_eq!(a.setitem(&slice(Some(1), Some(1), None), &Operand::Itself), Ok(()));
    assert_eq!(a.borrow_buf(), b"aabcbc");
    assert_eq!(a.setitem(&slice(None, None, Some(-1)), &Operand::Itself), Ok(()));
    assert_eq!(a.borrow_buf(), b"cbcbaa");
}

#[test]
fn delitem_removes() {
    let mut a = array(b"abcdef");
    assert_eq!(a.delitem(SequenceIndex::Int(-1)), Ok(()));
    assert_eq!(a.borrow_buf(), b"abcde");
    assert_eq!(a.delitem(SequenceIndex::Int(0)), Ok(()));
    assert_eq!(a.borrow_buf(), b"bcde");
    assert_eq!(a.delitem(SequenceIndex::Int(4)), Err(PyException::IndexOutOfRange));
    let even = PySlice { start: None, stop: None, step: Some(2) };
    assert_eq!(a.delitem(SequenceIndex::Slice(even)), Ok(()));
    assert_eq!(a.borrow_buf(), b"ce");
    let zero = PySlice { start: None, stop: None, step: Some(0) };
    assert_eq!(a.delitem(SequenceIndex::Slice(zero)), Err(PyException::SliceStepZero));
    assert_eq!(a.borrow_buf(), b"ce");
}

#[test]
fn delete_agrees_with_pop() {
    let mut a = array(b"abcd");
    let mut b = array(b"abcd");
    assert_eq!(a.delitem(SequenceIndex::Int(-3)), Ok(()));
    assert_eq!(b.pop(Some(-3)), Ok(0x62));
    assert_eq!(a.borrow_buf(), b.borrow_buf());
}

#[test]
fn exports_forbid_resizing() {
    let mut a = array(b"abc");
    let buffer = a.get_buffer().unwrap();
    let refused = PyException::ExistingExports;
    assert_eq!(a.append(&integer(1)), Err(refused));
    assert_eq!(a.insert(0, &integer(1)), Err(refused));
    assert_eq!(a.pop(None), Err(refused));
    assert_eq!(a.remove(&integer(0x61)), Err(refused));
    assert_eq!(a.remove(&integer(1)), Err(refused));
    assert_eq!(a.extend(&object(b"d")), Err(refused));
    assert_eq!(a.extend(&Operand::Itself), Err(refused));
    assert_eq!(a.iadd(b"").map(|_| ()), Err(refused));
    assert_eq!(a.imul(2).map(|_| ()), Err(refused));
    assert_eq!(a.imul(0).map(|_| ()), Err(refused));
    assert_eq!(a.clear(), Err(refused));
    assert_eq!(a.delitem(SequenceIndex::Int(0)), Err(refused));
    assert_eq!(a.setitem(&slice(None, None, None), &object(b"abcd")), Err(refused));
    assert!(a.try_resizable().is_err());
    assert_eq!(a.append(&PyObject::Other), Err(PyException::NotAnInteger));
    assert_eq!(a.borrow_buf(), b"abc");
    buffer.release(&mut a);
    assert!(a.try_resizable().is_ok());
    assert_eq!(a.append(&integer(0x64)), Ok(()));
    assert_eq!(a.borrow_buf(), b"abcd");
}

#[test]
fn exports_allow_changes_in_place() {
    let mut a = array(b"abc");
    let buffer = a.get_buffer().unwrap();
    assert_eq!(a.imul(1).map(|_| ()), Ok(()));
    assert_eq!(a.setitem(&integer(0), &Operand::Object(integer(0x41))), Ok(()));
    assert_eq!(a.borrow_buf(), b"Abc");
    assert_eq!(a.setitem(&slice(Some(1), None, None), &object(b"BC")), Ok(()));
    assert_eq!(a.borrow_buf(), b"ABC");
    assert_eq!(a.setitem(&slice(None, None, Some(-1)), &Operand::Itself), Ok(()));
    assert_eq!(a.borrow_buf(), b"CBA");
    a.reverse();
    assert_eq!(a.borrow_buf(), b"ABC");
    buffer.obj_bytes_mut(&mut a)[1] = 0x21;
    assert_eq!(buffer.obj_bytes(&a), b"A!C");
    a.borrow_buf_mut()[0] = 0x3f;
    assert_eq!(buffer.obj_bytes(&a), b"?!C");
}

#[test]
fn exports_of_an_empty_array_can_be_repeated() {
    let mut a = array(b"");
    let _buffer = a.get_buffer().unwrap();
    assert_eq!(a.imul(5).map(|_| ()), Ok(()));
    assert_eq!(a.imul(-5).map(|_| ()), Ok(()));
    assert_eq!(a.extend(&Operand::Itself), Ok(()));
    assert_eq!(a.len(), 0);
    assert_eq!(a.clear(), Err(PyException::ExistingExports));
}

#[test]
fn every_export_counts() {
    let mut a = array(b"abc");
    let first = a.get_buffer().unwrap();
    let second = a.get_buffer().unwrap();
    first.release(&mut a);
    assert_eq!(a.clear(), Err(PyException::ExistingExports));
    second.release(&mut a);
    assert_eq!(a.clear(), Ok(()));
}

#[test]
fn buffer_options_are_those_of_the_export() {
    let mut a = array(b"abc");
    let buffer = a.get_buffer().unwrap();
    let options = buffer.get_options();
    assert!(!options.readonly);
    assert_eq!(options.len, 3);
    assert_eq!(options.itemsize, 1);
    assert!(options.contiguous);
    assert_eq!(options.ndim, 1);
    buffer.release(&mut a);
    assert_eq!(a.append(&integer(0)), Ok(()));
    assert_eq!(buffer.get_options().len, 3);
}

#[test]
fn copies_are_free_of_exports() {
    let mut a = array(b"abc");
    let _buffer = a.get_buffer().unwrap();
    let mut b = a.copy();
    assert_eq!(b.clear(), Ok(()));
    assert_eq!(a.borrow_buf(), b"abc");
}

#[test]
fn borrow_buf_mut_reaches_the_contents() {
    let mut a = array(b"ab");
    a.borrow_buf_mut().push(0x63);
    assert_eq!(a.borrow_buf(), b"abc");
    a.try_resizable().unwrap().elements.truncate(1);
    assert_eq!(a.borrow_buf(), b"a");
}

#[test]
fn exception_classes_and_messages() {
    let cases: Vec<(PyException, ExceptionClass, &str)> = vec![
        (
            PyException::ExistingExports,
            ExceptionClass::BufferError,
            "Existing exports of data: object cannot be re-sized",
        ),
        (PyException::IndexOutOfRange, ExceptionClass::IndexError, "index out of range"),
        (
            PyException::IndexTooLarge,
            ExceptionClass::IndexError,
            "cannot fit 'int' into an index-sized integer",
        ),
        (
            PyException::SizeTooLarge,
            ExceptionClass::OverflowError,
            "cannot fit 'int' into an index-sized integer",
        ),
        (
            PyException::BadSubscript,
            ExceptionClass::TypeError,
            "bytearray indices must be integers or slices",
        ),
        (
            PyException::NotAnInteger,
            ExceptionClass::TypeError,
            "object cannot be interpreted as an integer",
        ),
        (PyException::ByteOutOfRange, ExceptionClass::ValueError, "byte must be in range(0, 256)"),
        (PyException::ValueNotFound, ExceptionClass::ValueError, "value not found in bytearray"),
        (PyException::SubstringNotFound, ExceptionClass::ValueError, "substring not found"),
        (PyException::EmptySeparator, ExceptionClass::ValueError, "empty separator"),
        (PyException::SliceStepZero, ExceptionClass::ValueError, "slice step cannot be zero"),
        (
            PyException::SliceSizeMismatch { given: 10, expected: 205 },
            ExceptionClass::ValueError,
            "attempt to assign sequence of size 10 to extended slice of size 205",
        ),
        (
            PyException::NotHexadecimal { position: 0 },
            ExceptionClass::ValueError,
            "non-hexadecimal number found in fromhex() arg at position 0",
        ),
        (PyException::StopIteration, ExceptionClass::StopIteration, ""),
        (PyException::NotBytesLike, ExceptionClass::TypeError, "a bytes-like object is required"),
        (
            PyException::BadFillByte,
            ExceptionClass::TypeError,
            "argument 2 must be a byte string of length 1",
        ),
        (PyException::NegativeCount, ExceptionClass::ValueError, "negative count"),
    ];
    for (exception, class, message) in cases {
        assert_eq!(exception.class(), class);
        assert_eq!(exception.message(), message);
    }
}
