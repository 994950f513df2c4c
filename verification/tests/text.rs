use pybytearray::bytearray::PyByteArray;
use pybytearray::bytesinner::PyBytesInner;
use pybytearray::error::{ExceptionClass, PyException};
use pybytearray::object::Either;

fn array(bytes: &[u8]) -> PyByteArray {
    PyByteArray::from(bytes.to_vec())
}

fn text(s: &str) -> Option<Either<String, PyBytesInner>> {
    Some(Either::A(s.to_string()))
}

fn bytes(b: &[u8]) -> Option<Either<String, PyBytesInner>> {
    Some(Either::B(PyBytesInner { elements: b.to_vec() }))
}

#[test]
fn hex_digits() {
    let a = array(b"\x00\x7f\xab\xff\x10");
    assert_eq!(a.hex(&None, None).unwrap(), "007fabff10");
    assert_eq!(a.hex(&None, Some(2)).unwrap(), "007fabff10");
    assert_eq!(array(b"").hex(&None, None).unwrap(), "");
}

#[test]
fn hex_groups() {
    let a = array(b"\x00\x7f\xab\xff\x10");
    assert_eq!(a.hex(&text(":"), None).unwrap(), "00:7f:ab:ff:10");
    assert_eq!(a.hex(&text(":"), Some(2)).unwrap(), "00:7fab:ff10");
    assert_eq!(a.hex(&text(":"), Some(-2)).unwrap(), "007f:abff:10");
    assert_eq!(a.hex(&bytes(b"-"), Some(4)).unwrap(), "00-7fabff10");
    assert_eq!(a.hex(&bytes(b"-"), Some(0)).unwrap(), "007fabff10");
    assert_eq!(a.hex(&text(":"), Some(9)).unwrap(), "007fabff10");
    assert_eq!(a.hex(&text(":"), Some(-9)).unwrap(), "007fabff10");
    assert_eq!(array(b"").hex(&text(":"), None).unwrap(), "");
}

#[test]
fn hex_separator_is_one_ascii_character() {
    let a = array(b"ab");
    assert_eq!(a.hex(&text("::"), None), Err(PyException::HexSeparatorLength));
    assert_eq!(a.hex(&bytes(b""), None), Err(PyException::HexSeparatorLength));
    assert_eq!(a.hex(&text("\u{e9}"), None), Err(PyException::HexSeparatorNotAscii));
    assert_eq!(a.hex(&bytes(b"\x80"), None), Err(PyException::HexSeparatorNotAscii));
    assert_eq!(PyException::HexSeparatorLength.message(), "sep must be length 1.");
    assert_eq!(PyException::HexSeparatorNotAscii.message(), "sep must be ASCII.");
    assert_eq!(PyException::HexSeparatorLength.class(), ExceptionClass::ValueError);
}

#[test]
fn fromhex_reads_pairs() {
    let read = |s: &str| -> Vec<u8> { PyByteArray::fromhex(s).unwrap().borrow_buf().to_vec() };
    assert_eq!(read("007FabfF"), b"\x00\x7f\xab\xff");
    assert_eq!(read(" 00 7f\t\nab "), b"\x00\x7f\xab");
    assert_eq!(read(""), b"");
}

#[test]
fn fromhex_tells_where_it_failed() {
    let refused = |s: &str| -> PyException { PyByteArray::fromhex(s).err().unwrap() };
    assert_eq!(refused("0"), PyException::NotHexadecimal { position: 1 });
    assert_eq!(refused("00 g0"), PyException::NotHexadecimal { position: 3 });
    assert_eq!(refused("00 0g"), PyException::NotHexadecimal { position: 4 });
    assert_eq!(refused("0 0"), PyException::NotHexadecimal { position: 1 });
    assert_eq!(refused("\u{e9}"), PyException::NotHexadecimal { position: 0 });
    assert_eq!(
        refused("12345678901g").message(),
        "non-hexadecimal number found in fromhex() arg at position 11"
    );
}

#[test]
fn fromhex_reads_what_hex_writes() {
    let all: Vec<u8> = (0u8..=255).collect();
    let a = PyByteArray::from(all.clone());
    let plain = a.hex(&None, None).unwrap();
    assert_eq!(plain.len(), 512);
    assert_eq!(PyByteArray::fromhex(&plain).unwrap().borrow_buf(), &all[..]);
    let spaced = a.hex(&text(" "), Some(-3)).unwrap();
    assert_eq!(PyByteArray::fromhex(&spaced).unwrap().borrow_buf(), &all[..]);
}

#[test]
fn representation() {
    assert_eq!(array(b"abc").repr(), "bytearray(b'abc')");
    assert_eq!(array(b"").repr(), "bytearray(b'')");
    assert_eq!(array(b"it's").repr(), "bytearray(b\"it's\")");
    assert_eq!(array(b"\"it's\"").repr(), "bytearray(b'\"it\\'s\"')");
    assert_eq!(array(b"\"").repr(), "bytearray(b'\"')");
    assert_eq!(array(b"\\").repr(), "bytearray(b'\\\\')");
    assert_eq!(array(b"\t\n\r").repr(), "bytearray(b'\\t\\n\\r')");
    assert_eq!(array(b"\x00\x1f\x7f\x80\xff").repr(), "bytearray(b'\\x00\\x1f\\x7f\\x80\\xff')");
    assert_eq!(array(b" ~").repr(), "bytearray(b' ~')");
}

#[test]
fn representations_differ() {
    assert_ne!(array(b"\\n").repr(), array(b"\n").repr());
    assert_ne!(array(b"x41").repr(), array(b"A").repr());
}
