use pybytearray::bytearray::PyByteArray;
use pybytearray::bytesinner::PyBytesInner;
use pybytearray::error::PyException;
use pybytearray::object::PyObject;
use pybytearray::parts::ByteInnerSplitOptions;

fn array(bytes: &[u8]) -> PyByteArray {
    PyByteArray::from(bytes.to_vec())
}

fn inner(bytes: &[u8]) -> PyBytesInner {
    PyBytesInner { elements: bytes.to_vec() }
}

fn at(sep: &[u8], maxsplit: isize) -> ByteInnerSplitOptions {
    ByteInnerSplitOptions { sep: Some(inner(sep)), maxsplit }
}

fn words(maxsplit: isize) -> ByteInnerSplitOptions {
    ByteInnerSplitOptions { sep: None, maxsplit }
}

fn contents(parts: Vec<PyByteArray>) -> Vec<Vec<u8>> {
    parts.iter().map(|p| p.borrow_buf().to_vec()).collect()
}

fn split(s: &[u8], options: &ByteInnerSplitOptions) -> Vec<Vec<u8>> {
    contents(array(s).split(options).unwrap())
}

fn rsplit(s: &[u8], options: &ByteInnerSplitOptions) -> Vec<Vec<u8>> {
    contents(array(s).rsplit(options).unwrap())
}

fn join(sep: &[u8], parts: &[Vec<u8>]) -> Vec<u8> {
    let items = parts.iter().map(|p| PyObject::Bytes(p.clone())).collect();
    array(sep).join(&items).unwrap().borrow_buf().to_vec()
}

fn list(parts: &[&[u8]]) -> Vec<Vec<u8>> {
    parts.iter().map(|p| p.to_vec()).collect()
}

#[test]
fn split_at_a_separator() {
    assert_eq!(split(b"a,b,c", &at(b",", -1)), list(&[b"a", b"b", b"c"]));
    assert_eq!(split(b"a,b,c", &at(b",", 1)), list(&[b"a", b"b,c"]));
    assert_eq!(split(b"a,b,c", &at(b",", 0)), list(&[b"a,b,c"]));
    assert_eq!(split(b",a,,", &at(b",", -1)), list(&[b"", b"a", b"", b""]));
    assert_eq!(split(b"", &at(b",", -1)), list(&[b""]));
    assert_eq!(split(b"aaa", &at(b"aa", -1)), list(&[b"", b"a"]));
    assert_eq!(array(b"a").split(&at(b"", -1)).err(), Some(PyException::EmptySeparator));
}

#[test]
fn rsplit_at_a_separator() {
    assert_eq!(rsplit(b"a,b,c", &at(b",", -1)), list(&[b"a", b"b", b"c"]));
    assert_eq!(rsplit(b"a,b,c", &at(b",", 1)), list(&[b"a,b", b"c"]));
    assert_eq!(rsplit(b"a,b,c", &at(b",", 0)), list(&[b"a,b,c"]));
    assert_eq!(rsplit(b"aaa", &at(b"aa", -1)), list(&[b"a", b""]));
    assert_eq!(array(b"a").rsplit(&at(b"", -1)).err(), Some(PyException::EmptySeparator));
}

#[test]
fn split_into_words() {
    assert_eq!(split(b"  a  b c ", &words(-1)), list(&[b"a", b"b", b"c"]));
    assert_eq!(split(b"  a  b c ", &words(1)), list(&[b"a", b"b c "]));
    assert_eq!(split(b"  a  b c ", &words(0)), list(&[b"a  b c "]));
    assert_eq!(split(b" \t\n", &words(-1)), list(&[]));
    assert_eq!(split(b"", &words(-1)), list(&[]));
    assert_eq!(rsplit(b"  a  b c ", &words(-1)), list(&[b"a", b"b", b"c"]));
    assert_eq!(rsplit(b"  a  b c ", &words(1)), list(&[b"  a  b", b"c"]));
    assert_eq!(rsplit(b"  a  b c ", &words(0)), list(&[b"  a  b c"]));
    assert_eq!(rsplit(b" ", &words(3)), list(&[]));
}

#[test]
fn joined_parts_are_the_whole() {
    let s: &[u8] = b"--a--b----";
    for limit in [-1isize, 0, 1, 2, 7] {
        assert_eq!(join(b"--", &split(s, &at(b"--", limit))), s);
        assert_eq!(join(b"--", &rsplit(s, &at(b"--", limit))), s);
    }
}

#[test]
fn a_limit_bounds_the_parts() {
    for limit in 0isize..5 {
        assert!(split(b"a,b,c,d", &at(b",", limit)).len() as isize <= limit + 1);
        assert!(rsplit(b"a b c d", &words(limit)).len() as isize <= limit + 1);
    }
    assert_eq!(split(b"a,b,c,d", &at(b",", 2)).len(), 3);
}

#[test]
fn join_takes_bytes_only() {
    assert_eq!(join(b", ", &list(&[b"a", b"b", b"c"])), b"a, b, c");
    assert_eq!(join(b", ", &list(&[])), b"");
    assert_eq!(join(b", ", &list(&[b"a"])), b"a");
    assert_eq!(join(b"", &list(&[b"a", b"b"])), b"ab");
    let items = vec![PyObject::Bytes(vec![1]), PyObject::Int(2)];
    assert_eq!(array(b"-").join(&items).err(), Some(PyException::NotBytesLike));
}

#[test]
fn partition_and_rpartition() {
    let a = array(b"a=b=c");
    let triple = |t: (PyByteArray, PyByteArray, PyByteArray)| -> Vec<Vec<u8>> {
        contents(vec![t.0, t.1, t.2])
    };
    assert_eq!(triple(a.partition(inner(b"=")).unwrap()), list(&[b"a", b"=", b"b=c"]));
    assert_eq!(triple(a.rpartition(inner(b"=")).unwrap()), list(&[b"a=b", b"=", b"c"]));
    assert_eq!(triple(a.partition(inner(b"x")).unwrap()), list(&[b"a=b=c", b"", b""]));
    assert_eq!(triple(a.rpartition(inner(b"x")).unwrap()), list(&[b"", b"", b"a=b=c"]));
    assert_eq!(a.partition(inner(b"")).err(), Some(PyException::EmptySeparator));
    assert_eq!(a.rpartition(inner(b"")).err(), Some(PyException::EmptySeparator));
}

#[test]
fn lines_with_and_without_ends() {
    let a = array(b"a\nb\r\nc\rd\n\n");
    assert_eq!(contents(a.splitlines(false)), list(&[b"a", b"b", b"c", b"d", b""]));
    assert_eq!(
        contents(a.splitlines(true)),
        list(&[b"a\n", b"b\r\n", b"c\r", b"d\n", b"\n"])
    );
    assert_eq!(contents(a.splitlines(true)).concat(), a.borrow_buf());
    assert_eq!(contents(array(b"").splitlines(false)), list(&[]));
    assert_eq!(contents(array(b"x").splitlines(true)), list(&[b"x"]));
}

#[test]
fn a_carriage_return_keeps_its_line_feed() {
    let a = array(b"\r\r\n\n\rx");
    assert_eq!(contents(a.splitlines(true)), list(&[b"\r", b"\r\n", b"\n", b"\r", b"x"]));
    assert_eq!(contents(a.splitlines(false)), list(&[b"", b"", b"", b"", b"x"]));
}

#[test]
fn strip_ends() {
    let a = array(b"  xaxx ");
    assert_eq!(a.strip(None).borrow_buf(), b"xaxx");
    assert_eq!(a.lstrip(None).borrow_buf(), b"xaxx ");
    assert_eq!(a.rstrip(None).borrow_buf(), b"  xaxx");
    assert_eq!(a.strip(Some(inner(b"x "))).borrow_buf(), b"a");
    assert_eq!(a.strip(Some(inner(b" "))).strip(Some(inner(b" "))).borrow_buf(), b"xaxx");
    assert_eq!(a.strip(Some(inner(b""))).borrow_buf(), b"  xaxx ");
    assert_eq!(array(b"xxx").strip(Some(inner(b"x"))).borrow_buf(), b"");
    assert_eq!(array(b"\t\n\x0b\x0c\r a").lstrip(None).borrow_buf(), b"a");
    assert_eq!(array(b"").rstrip(None).borrow_buf(), b"");
}

#[test]
fn blank_is_stripped_to_nothing() {
    assert!(array(b" \t\r").isspace());
    assert_eq!(array(b" \t\r").strip(None).len(), 0);
    assert!(!array(b" x ").isspace());
    assert_eq!(array(b" x ").strip(None).borrow_buf(), b"x");
}

#[test]
fn remove_affixes() {
    let a = array(b"spam-eggs");
    assert_eq!(a.removeprefix(inner(b"spam")).borrow_buf(), b"-eggs");
    assert_eq!(a.removeprefix(inner(b"eggs")).borrow_buf(), b"spam-eggs");
    assert_eq!(a.removesuffix(inner(b"eggs")).borrow_buf(), b"spam-");
    assert_eq!(a.removesuffix(inner(b"spam")).borrow_buf(), b"spam-eggs");
    assert_eq!(a.removesuffix(inner(b"")).borrow_buf(), b"spam-eggs");
    assert_eq!(a.removeprefix(inner(b"spam-eggs")).borrow_buf(), b"");
    let b = array(b"p").add(b"rest").removeprefix(inner(b"p"));
    assert_eq!(b.borrow_buf(), b"rest");
    let c = array(b"rest").add(b"s").removesuffix(inner(b"s"));
    assert_eq!(c.borrow_buf(), b"rest");
}
