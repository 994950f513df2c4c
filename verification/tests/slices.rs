use pybytearray::bytearray::PyByteArray;
use pybytearray::error::PyException;
use pybytearray::object::{Either, Operand, PyObject, PySlice, SequenceIndex};

fn array(bytes: &[u8]) -> PyByteArray {
    PyByteArray::from(bytes.to_vec())
}

fn part(start: Option<isize>, stop: Option<isize>, step: Option<isize>) -> PySlice {
    PySlice { start, stop, step }
}

fn get(a: &PyByteArray, slice: PySlice) -> Vec<u8> {
    match a.getitem(&PyObject::Slice(slice)) {
        Ok(Either::B(inner)) => inner.elements,
        _ => panic!("a slice yields bytes"),
    }
}

#[test]
fn getitem_at_a_position() {
    let a = array(b"abc");
    assert!(matches!(a.getitem(&PyObject::Int(0)), Ok(Either::A(0x61))));
    assert!(matches!(a.getitem(&PyObject::Int(-1)), Ok(Either::A(0x63))));
    assert!(matches!(a.getitem(&PyObject::Int(3)), Err(PyException::IndexOutOfRange)));
    assert!(matches!(a.getitem(&PyObject::Int(-4)), Err(PyException::IndexOutOfRange)));
    assert!(matches!(a.getitem(&PyObject::Int(i128::MIN)), Err(PyException::IndexTooLarge)));
    assert!(matches!(a.getitem(&PyObject::Other), Err(PyException::BadSubscript)));
    assert!(matches!(
        a.getitem(&PyObject::Slice(part(None, None, Some(0)))),
        Err(PyException::SliceStepZero)
    ));
}

#[test]
fn getitem_with_a_slice() {
    let a = array(b"abcdef");
    assert_eq!(get(&a, part(Some(1), Some(4), None)), b"bcd");
    assert_eq!(get(&a, part(Some(-3), None, None)), b"def");
    assert_eq!(get(&a, part(None, Some(-3), None)), b"abc");
    assert_eq!(get(&a, part(Some(4), Some(1), None)), b"");
    assert_eq!(get(&a, part(Some(4), Some(1), Some(-1))), b"edc");
    assert_eq!(get(&a, part(None, None, Some(2))), b"ace");
    assert_eq!(get(&a, part(Some(1), None, Some(2))), b"bdf");
    assert_eq!(get(&a, part(None, None, Some(-2))), b"fdb");
    assert_eq!(get(&a, part(Some(100), None, Some(-3))), b"fc");
    assert_eq!(get(&a, part(Some(-100), Some(100), None)), b"abcdef");
    assert_eq!(get(&a, part(None, None, Some(isize::MAX))), b"a");
    assert_eq!(get(&a, part(None, None, Some(isize::MIN))), b"f");
    assert_eq!(get(&array(b""), part(None, None, None)), b"");
    assert_eq!(get(&array(b""), part(None, None, Some(-1))), b"");
}

#[test]
fn whole_slice_and_reversed_slice() {
    let mut a = array(b"abcd");
    assert_eq!(get(&a, part(None, None, None)), b"abcd");
    let reversed = get(&a, part(None, None, Some(-1)));
    a.reverse();
    assert_eq!(a.borrow_buf(), &reversed[..]);
}

#[test]
fn what_is_assigned_to_a_slice_is_read_from_it() {
    let slice = part(Some(5), Some(0), Some(-2));
    let mut a = array(b"abcdefg");
    let items = Operand::Object(PyObject::Bytes(b"XYZ".to_vec()));
    assert_eq!(a.setitem(&PyObject::Slice(slice), &items), Ok(()));
    assert_eq!(a.borrow_buf(), b"aZcYeXg");
    assert_eq!(get(&a, slice), b"XYZ");
}

#[test]
fn a_slice_is_assigned_its_own_items() {
    let slice = part(Some(1), None, Some(3));
    let mut a = array(b"abcdefgh");
    let items = Operand::Object(PyObject::Bytes(get(&a, slice)));
    assert_eq!(a.setitem(&PyObject::Slice(slice), &items), Ok(()));
    assert_eq!(a.borrow_buf(), b"abcdefgh");
}

#[test]
fn deletion_is_assignment_of_nothing() {
    let slice = part(Some(1), Some(3), None);
    let mut a = array(b"abcde");
    let mut b = array(b"abcde");
    assert_eq!(a.delitem(SequenceIndex::Slice(slice)), Ok(()));
    let nothing = Operand::Object(PyObject::Bytes(Vec::new()));
    assert_eq!(b.setitem(&PyObject::Slice(slice), &nothing), Ok(()));
    assert_eq!(a.borrow_buf(), b"ade");
    assert_eq!(b.borrow_buf(), b"ade");
}

#[test]
fn deleted_and_left_bytes_add_up() {
    for step in [-3isize, -2, -1, 1, 2, 3] {
        let slice = part(None, None, Some(step));
        let mut a = array(b"abcdefg");
        let taken = get(&a, slice).len();
        assert_eq!(a.delitem(SequenceIndex::Slice(slice)), Ok(()));
        assert_eq!(a.len() + taken, 7);
    }
    let mut a = array(b"abcdefg");
    assert_eq!(a.delitem(SequenceIndex::Slice(part(None, None, Some(-3)))), Ok(()));
    assert_eq!(a.borrow_buf(), b"bcef");
}

#[test]
fn assignment_behind_the_stop_inserts_at_the_start() {
    let mut a = array(b"abcdef");
    let items = Operand::Object(PyObject::Bytes(b"XY".to_vec()));
    assert_eq!(a.setitem(&PyObject::Slice(part(Some(4), Some(2), None)), &items), Ok(()));
    assert_eq!(a.borrow_buf(), b"abcdXYef");
}
