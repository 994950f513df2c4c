use pybytearray::bytearray::PyByteArray;

fn array(bytes: &[u8]) -> PyByteArray {
    PyByteArray::from(bytes.to_vec())
}

#[test]
fn change_case() {
    let a = array(b"hELLO wORLD 1x\xe9");
    assert_eq!(a.lower().borrow_buf(), b"hello world 1x\xe9");
    assert_eq!(a.upper().borrow_buf(), b"HELLO WORLD 1X\xe9");
    assert_eq!(a.swapcase().borrow_buf(), b"Hello World 1X\xe9");
    assert_eq!(a.capitalize().borrow_buf(), b"Hello world 1x\xe9");
    assert_eq!(a.title().borrow_buf(), b"Hello World 1X\xe9");
    assert_eq!(array(b"they're bill's").title().borrow_buf(), b"They'Re Bill'S");
    assert_eq!(array(b"").capitalize().borrow_buf(), b"");
}

#[test]
fn swapped_twice_is_the_same() {
    let a = array(b"aBc-123-XyZ");
    assert_eq!(a.swapcase().swapcase().borrow_buf(), a.borrow_buf());
    assert_eq!(a.upper().lower().borrow_buf(), a.lower().borrow_buf());
    assert_eq!(a.lower().upper().borrow_buf(), a.upper().borrow_buf());
}

#[test]
fn tests_of_case() {
    assert!(array(b"abc1").islower());
    assert!(!array(b"abC").islower());
    assert!(!array(b"123").islower());
    assert!(array(b"ABC1").isupper());
    assert!(!array(b"ABc").isupper());
    assert!(!array(b"").isupper());
    assert!(array(b"Hello World").istitle());
    assert!(!array(b"Hello world").istitle());
    assert!(!array(b"HEllo").istitle());
    assert!(!array(b"123").istitle());
    assert!(array(b"A1B").istitle());
    assert!(array(b"x y").title().istitle());
    assert!(array(b"X y").lower().islower());
    assert!(array(b"X y").upper().isupper());
}

#[test]
fn tests_of_classes() {
    assert!(array(b"abc123").isalnum());
    assert!(!array(b"abc 123").isalnum());
    assert!(!array(b"").isalnum());
    assert!(array(b"abc").isalpha());
    assert!(!array(b"abc1").isalpha());
    assert!(!array(b"").isalpha());
    assert!(array(b"0123").isdigit());
    assert!(!array(b"0x1").isdigit());
    assert!(!array(b"").isdigit());
    assert!(array(b" \t\n\r\x0b\x0c").isspace());
    assert!(!array(b" a").isspace());
    assert!(!array(b"").isspace());
    assert!(array(b"abc\x7f").isascii());
    assert!(!array(b"abc\x80").isascii());
    assert!(array(b"").isascii());
}
