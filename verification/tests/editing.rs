use pybytearray::bytearray::PyByteArray;
use pybytearray::bytesinner::PyBytesInner;
use pybytearray::edit::{ByteInnerPaddingOptions, ByteInnerTranslateOptions};
use pybytearray::error::{ExceptionClass, PyException};
use pybytearray::object::PyObject;

fn array(bytes: &[u8]) -> PyByteArray {
    PyByteArray::from(bytes.to_vec())
}

fn inner(bytes: &[u8]) -> PyBytesInner {
    PyBytesInner { elements: bytes.to_vec() }
}

fn width(width: isize) -> ByteInnerPaddingOptions {
    ByteInnerPaddingOptions { width, fillchar: None }
}

fn filled(width: isize, fill: &[u8]) -> ByteInnerPaddingOptions {
    ByteInnerPaddingOptions { width, fillchar: Some(PyObject::Bytes(fill.to_vec())) }
}

fn table(table: Option<Vec<u8>>, delete: Option<&[u8]>) -> ByteInnerTranslateOptions {
    ByteInnerTranslateOptions {
        table: table.map(PyObject::Bytes),
        delete: delete.map(|d| PyObject::Bytes(d.to_vec())),
    }
}

#[test]
fn justify() {
    let a = array(b"ab");
    assert_eq!(a.ljust(&width(5)).unwrap().borrow_buf(), b"ab   ");
    assert_eq!(a.rjust(&width(5)).unwrap().borrow_buf(), b"   ab");
    assert_eq!(a.ljust(&filled(4, b"*")).unwrap().borrow_buf(), b"ab**");
    assert_eq!(a.rjust(&filled(4, b"*")).unwrap().borrow_buf(), b"**ab");
    assert_eq!(a.ljust(&width(1)).unwrap().borrow_buf(), b"ab");
    assert_eq!(a.rjust(&width(-1)).unwrap().borrow_buf(), b"ab");
}

#[test]
fn center_puts_the_odd_byte_by_the_width() {
    assert_eq!(array(b"ab").center(&filled(5, b"-")).unwrap().borrow_buf(), b"--ab-");
    assert_eq!(array(b"abc").center(&filled(6, b"-")).unwrap().borrow_buf(), b"-abc--");
    assert_eq!(array(b"abc").center(&filled(7, b"-")).unwrap().borrow_buf(), b"--abc--");
    assert_eq!(array(b"abc").center(&width(3)).unwrap().borrow_buf(), b"abc");
    assert_eq!(array(b"").center(&filled(2, b"x")).unwrap().borrow_buf(), b"xx");
}

#[test]
fn fill_is_a_single_byte() {
    let a = array(b"ab");
    assert_eq!(a.center(&filled(9, b"xy")).err(), Some(PyException::BadFillByte));
    assert_eq!(a.ljust(&filled(9, b"")).err(), Some(PyException::BadFillByte));
    let options = ByteInnerPaddingOptions { width: 9, fillchar: Some(PyObject::Int(32)) };
    assert_eq!(a.rjust(&options).err(), Some(PyException::BadFillByte));
}

#[test]
fn zfill_behind_the_sign() {
    assert_eq!(array(b"42").zfill(5).borrow_buf(), b"00042");
    assert_eq!(array(b"-42").zfill(5).borrow_buf(), b"-0042");
    assert_eq!(array(b"+42").zfill(6).borrow_buf(), b"+00042");
    assert_eq!(array(b"-").zfill(3).borrow_buf(), b"-00");
    assert_eq!(array(b"").zfill(2).borrow_buf(), b"00");
    assert_eq!(array(b"12345").zfill(3).borrow_buf(), b"12345");
    assert_eq!(array(b"-1").zfill(-3).borrow_buf(), b"-1");
}

#[test]
fn expandtabs_to_columns() {
    assert_eq!(array(b"a\tb").expandtabs(None).borrow_buf(), b"a       b");
    assert_eq!(array(b"a\tb").expandtabs(Some(4)).borrow_buf(), b"a   b");
    assert_eq!(array(b"abcd\tb").expandtabs(Some(4)).borrow_buf(), b"abcd    b");
    assert_eq!(array(b"ab\n\tc").expandtabs(Some(4)).borrow_buf(), b"ab\n    c");
    assert_eq!(array(b"a\tb").expandtabs(Some(0)).borrow_buf(), b"ab");
    assert_eq!(array(b"a\tb").expandtabs(Some(-2)).borrow_buf(), b"ab");
    assert_eq!(array(b"no tabs").expandtabs(Some(3)).borrow_buf(), b"no tabs");
}

#[test]
fn replace_occurrences() {
    let a = array(b"banana");
    let replaced = |from: &[u8], to: &[u8], count: Option<isize>| -> Vec<u8> {
        a.replace(inner(from), inner(to), count).unwrap().borrow_buf().to_vec()
    };
    assert_eq!(replaced(b"an", b"AN", None), b"bANANa");
    assert_eq!(replaced(b"an", b"AN", Some(1)), b"bANana");
    assert_eq!(replaced(b"an", b"AN", Some(0)), b"banana");
    assert_eq!(replaced(b"an", b"AN", Some(-1)), b"bANANa");
    assert_eq!(replaced(b"an", b"", None), b"ba");
    assert_eq!(replaced(b"x", b"y", None), b"banana");
    assert_eq!(replaced(b"a", b"a", None), b"banana");
    assert_eq!(replaced(b"ana", b"-", None), b"b-na");
    assert_eq!(replaced(b"", b".", None), b".b.a.n.a.n.a.");
    assert_eq!(replaced(b"", b".", Some(2)), b".b.anana");
}

#[test]
fn replacing_is_splitting_and_joining() {
    let a = array(b"a--b--c");
    let replaced = a.replace(inner(b"--"), inner(b"+"), None).unwrap();
    let options = pybytearray::parts::ByteInnerSplitOptions {
        sep: Some(inner(b"--")),
        maxsplit: -1,
    };
    let parts = a.split(&options).unwrap();
    let items = parts.iter().map(|p| PyObject::Bytes(p.borrow_buf().to_vec())).collect();
    assert_eq!(array(b"+").join(&items).unwrap().borrow_buf(), replaced.borrow_buf());
    assert_eq!(replaced.borrow_buf(), b"a+b+c");
}

#[test]
fn translate_with_a_table() {
    let t = PyBytesInner::maketrans(&inner(b"abc"), &inner(b"xyz")).unwrap();
    assert_eq!(t.elements.len(), 256);
    let a = array(b"aabbccdd");
    let moved = a.translate(&table(Some(t.elements.clone()), None)).unwrap();
    assert_eq!(moved.borrow_buf(), b"xxyyzzdd");
    let fewer = a.translate(&table(Some(t.elements), Some(b"bd"))).unwrap();
    assert_eq!(fewer.borrow_buf(), b"xxzz");
    let deleted = a.translate(&table(None, Some(b"a"))).unwrap();
    assert_eq!(deleted.borrow_buf(), b"bbccdd");
    assert_eq!(a.translate(&table(None, None)).unwrap().borrow_buf(), b"aabbccdd");
}

#[test]
fn translate_refuses_bad_tables() {
    let a = array(b"abc");
    let short = a.translate(&table(Some(vec![0; 255]), None));
    assert_eq!(short.err(), Some(PyException::BadTranslationTable));
    let options = ByteInnerTranslateOptions { table: Some(PyObject::Int(1)), delete: None };
    assert_eq!(a.translate(&options).err(), Some(PyException::NotBytesLike));
    let options = ByteInnerTranslateOptions { table: None, delete: Some(PyObject::Other) };
    assert_eq!(a.translate(&options).err(), Some(PyException::NotBytesLike));
    assert_eq!(PyException::BadTranslationTable.class(), ExceptionClass::ValueError);
    assert_eq!(
        PyException::BadTranslationTable.message(),
        "translation table must be 256 characters long"
    );
}

#[test]
fn maketrans_takes_equal_lengths() {
    let refused = PyBytesInner::maketrans(&inner(b"ab"), &inner(b"x"));
    assert_eq!(refused.err(), Some(PyException::MaketransLengths));
    assert_eq!(
        PyException::MaketransLengths.message(),
        "the two maketrans arguments must have equal length"
    );
    let t = PyBytesInner::maketrans(&inner(b"ab"), &inner(b"ba")).unwrap();
    assert_eq!(t.elements[0x61], 0x62);
    assert_eq!(t.elements[0x62], 0x61);
    assert_eq!(t.elements[0x63], 0x63);
}

#[test]
fn add_makes_a_new_array() {
    let a = array(b"ab");
    assert_eq!(a.add(b"cd").borrow_buf(), b"abcd");
    assert_eq!(a.borrow_buf(), b"ab");
    assert_eq!(a.add(b"").borrow_buf(), b"ab");
}

#[test]
fn modulo_takes_what_was_formatted() {
    let a = array(b"%d");
    assert_eq!(a.modulo(Ok(inner(b"7"))).unwrap().borrow_buf(), b"7");
    assert_eq!(
        a.modulo(Err(PyException::NotBytesLike)).err(),
        Some(PyException::NotBytesLike)
    );
}
