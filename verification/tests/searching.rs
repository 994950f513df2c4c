use pybytearray::bytearray::PyByteArray;
use pybytearray::bytesinner::PyBytesInner;
use pybytearray::error::{ExceptionClass, PyException};
use pybytearray::object::{Either, PyObject};
use pybytearray::search::{ByteInnerFindOptions, StartsEndsWithArgs};

fn array(bytes: &[u8]) -> PyByteArray {
    PyByteArray::from(bytes.to_vec())
}

fn within(sub: &[u8], start: Option<isize>, end: Option<isize>) -> ByteInnerFindOptions {
    ByteInnerFindOptions {
        sub: Either::A(PyBytesInner { elements: sub.to_vec() }),
        start,
        end,
    }
}

fn bytes(sub: &[u8]) -> ByteInnerFindOptions {
    within(sub, None, None)
}

fn byte(i: i128) -> ByteInnerFindOptions {
    ByteInnerFindOptions { sub: Either::B(i), start: None, end: None }
}

fn affix(object: PyObject, start: Option<isize>, end: Option<isize>) -> StartsEndsWithArgs {
    StartsEndsWithArgs { affix: object, start, end }
}

fn plain(b: &[u8]) -> StartsEndsWithArgs {
    affix(PyObject::Bytes(b.to_vec()), None, None)
}

#[test]
fn find_and_rfind() {
    let a = array(b"abcabc");
    assert_eq!(a.find(&bytes(b"bc")), Ok(1));
    assert_eq!(a.rfind(&bytes(b"bc")), Ok(4));
    assert_eq!(a.find(&bytes(b"x")), Ok(-1));
    assert_eq!(a.rfind(&bytes(b"x")), Ok(-1));
    assert_eq!(a.find(&bytes(b"abcabcabc")), Ok(-1));
    assert_eq!(a.find(&byte(0x63)), Ok(2));
    assert_eq!(a.rfind(&byte(0x63)), Ok(5));
    assert_eq!(a.find(&byte(256)), Err(PyException::ByteOutOfRange));
    assert_eq!(a.rfind(&byte(-1)), Err(PyException::ByteOutOfRange));
}

#[test]
fn find_in_a_part() {
    let a = array(b"abcabc");
    assert_eq!(a.find(&within(b"a", Some(1), None)), Ok(3));
    assert_eq!(a.find(&within(b"a", Some(1), Some(3))), Ok(-1));
    assert_eq!(a.find(&within(b"c", Some(-1), None)), Ok(5));
    assert_eq!(a.rfind(&within(b"a", None, Some(-3))), Ok(0));
    assert_eq!(a.rfind(&within(b"c", None, Some(-1))), Ok(2));
    assert_eq!(a.find(&within(b"a", Some(-100), Some(100))), Ok(0));
    assert_eq!(a.find(&within(b"a", Some(100), None)), Ok(-1));
}

#[test]
fn find_nothing() {
    let a = array(b"abc");
    assert_eq!(a.find(&bytes(b"")), Ok(0));
    assert_eq!(a.rfind(&bytes(b"")), Ok(3));
    assert_eq!(a.find(&within(b"", Some(2), None)), Ok(2));
    assert_eq!(a.rfind(&within(b"", None, Some(2))), Ok(2));
    assert_eq!(a.find(&within(b"", Some(3), None)), Ok(3));
    assert_eq!(a.find(&within(b"", Some(4), None)), Ok(-1));
    assert_eq!(array(b"").find(&bytes(b"")), Ok(0));
    assert_eq!(array(b"").rfind(&bytes(b"")), Ok(0));
}

#[test]
fn index_and_rindex() {
    let a = array(b"abcabc");
    assert_eq!(a.index(&bytes(b"c")), Ok(2));
    assert_eq!(a.rindex(&bytes(b"c")), Ok(5));
    assert_eq!(a.index(&bytes(b"x")), Err(PyException::SubstringNotFound));
    assert_eq!(a.rindex(&bytes(b"x")), Err(PyException::SubstringNotFound));
    assert_eq!(a.index(&byte(300)), Err(PyException::ByteOutOfRange));
    assert_eq!(a.rindex(&byte(300)), Err(PyException::ByteOutOfRange));
}

#[test]
fn find_a_long_needle_in_a_long_haystack() {
    let mut v = vec![0x61u8; 500];
    v[250] = 0x62;
    let a = PyByteArray::from(v);
    let mut needle = vec![0x61u8; 100];
    assert_eq!(a.find(&bytes(&needle)), Ok(0));
    assert_eq!(a.rfind(&bytes(&needle)), Ok(400));
    needle[0] = 0x62;
    assert_eq!(a.find(&bytes(&needle)), Ok(250));
    assert_eq!(a.rfind(&bytes(&needle)), Ok(250));
    needle[99] = 0x63;
    assert_eq!(a.find(&bytes(&needle)), Ok(-1));
}

#[test]
fn contains_bytes_and_integers() {
    let a = array(b"abc");
    let inner = |b: &[u8]| -> Either<PyBytesInner, i128> {
        Either::A(PyBytesInner { elements: b.to_vec() })
    };
    assert_eq!(a.contains(&inner(b"bc")), Ok(true));
    assert_eq!(a.contains(&inner(b"ac")), Ok(false));
    assert_eq!(a.contains(&inner(b"")), Ok(true));
    assert_eq!(a.contains(&Either::B(0x61)), Ok(true));
    assert_eq!(a.contains(&Either::B(0x7a)), Ok(false));
    assert_eq!(a.contains(&Either::B(256)), Err(PyException::ByteOutOfRange));
}

#[test]
fn count_does_not_overlap() {
    let a = array(b"aaaa");
    assert_eq!(a.count(&bytes(b"a")), Ok(4));
    assert_eq!(a.count(&bytes(b"aa")), Ok(2));
    assert_eq!(a.count(&bytes(b"aaa")), Ok(1));
    assert_eq!(a.count(&bytes(b"b")), Ok(0));
    assert_eq!(a.count(&byte(0x61)), Ok(4));
    assert_eq!(a.count(&byte(-5)), Err(PyException::ByteOutOfRange));
    assert_eq!(a.count(&within(b"a", Some(1), Some(3))), Ok(2));
}

#[test]
fn count_of_nothing() {
    assert_eq!(array(b"abc").count(&bytes(b"")), Ok(4));
    assert_eq!(array(b"").count(&bytes(b"")), Ok(1));
}

#[test]
fn startswith_and_endswith() {
    let a = array(b"hello");
    assert_eq!(a.startswith(&plain(b"he")), Ok(true));
    assert_eq!(a.startswith(&plain(b"lo")), Ok(false));
    assert_eq!(a.endswith(&plain(b"lo")), Ok(true));
    assert_eq!(a.endswith(&plain(b"he")), Ok(false));
    assert_eq!(a.startswith(&plain(b"")), Ok(true));
    assert_eq!(a.endswith(&plain(b"")), Ok(true));
    assert_eq!(a.startswith(&plain(b"hello world")), Ok(false));
    assert_eq!(a.endswith(&plain(b"oh hello")), Ok(false));
}

#[test]
fn affixes_of_a_part_and_of_a_tuple() {
    let a = array(b"hello");
    let ell = PyObject::Bytes(b"ell".to_vec());
    assert_eq!(a.startswith(&affix(ell, Some(1), None)), Ok(true));
    let ell = PyObject::Bytes(b"ell".to_vec());
    assert_eq!(a.endswith(&affix(ell, None, Some(-1))), Ok(true));
    let tuple = PyObject::Tuple(vec![
        PyObject::Bytes(b"x".to_vec()),
        PyObject::Bytes(b"he".to_vec()),
    ]);
    assert_eq!(a.startswith(&affix(tuple, None, None)), Ok(true));
    let tuple = PyObject::Tuple(vec![
        PyObject::Bytes(b"x".to_vec()),
        PyObject::Bytes(b"he".to_vec()),
    ]);
    assert_eq!(a.endswith(&affix(tuple, None, None)), Ok(false));
    assert_eq!(a.startswith(&affix(PyObject::Tuple(vec![]), None, None)), Ok(false));
    let refused = a.startswith(&affix(PyObject::Int(1), None, None));
    assert_eq!(refused, Err(PyException::BadAffix));
    assert_eq!(PyException::BadAffix.class(), ExceptionClass::TypeError);
    assert_eq!(PyException::BadAffix.message(), "first arg must be bytes or a tuple of bytes");
}
