use pybytearray::bytearray::{ByteInnerNewOptions, NewSource, PyByteArray, PyByteArrayIterator};
use pybytearray::compare::{PyComparisonOp, PyComparisonValue};
use pybytearray::context::{init, PyContext};
use pybytearray::error::{ExceptionClass, PyException};
use pybytearray::object::{Operand, PyObject};

fn array(bytes: &[u8]) -> PyByteArray {
    PyByteArray::from(bytes.to_vec())
}

fn from_object(object: PyObject) -> ByteInnerNewOptions {
    ByteInnerNewOptions { source: Some(NewSource::Object(object)), encoding: false }
}

fn made(options: ByteInnerNewOptions) -> Vec<u8> {
    PyByteArray::tp_new("bytearray", options).unwrap().1.borrow_buf().to_vec()
}

fn refused(options: ByteInnerNewOptions) -> PyException {
    PyByteArray::tp_new("bytearray", options).err().unwrap()
}

#[test]
fn make_from_sources() {
    assert_eq!(made(ByteInnerNewOptions { source: None, encoding: false }), b"");
    assert_eq!(made(from_object(PyObject::Int(3))), vec![0u8; 3]);
    assert_eq!(made(from_object(PyObject::Int(0))), b"");
    assert_eq!(made(from_object(PyObject::Bytes(vec![1, 2]))), vec![1u8, 2]);
    let items = vec![PyObject::Int(7), PyObject::Int(255)];
    assert_eq!(made(from_object(PyObject::Iterable(items))), vec![7u8, 255]);
    let encoded = Some(NewSource::Text(b"h\xc3\xa9".to_vec()));
    assert_eq!(made(ByteInnerNewOptions { source: encoded, encoding: true }), b"h\xc3\xa9");
}

#[test]
fn make_an_instance_of_a_class() {
    let (class, mut a) = PyByteArray::tp_new("derived", from_object(PyObject::Int(2))).unwrap();
    assert_eq!(class, "derived");
    assert_eq!(a.borrow_buf(), b"\x00\x00");
    assert_eq!(a.clear(), Ok(()));
    let (class, args, _) = a.reduce::<&str, u8>(class, None);
    let (again, b) = PyByteArray::tp_new(class, from_object(args.into_iter().next().unwrap()))
        .unwrap();
    assert_eq!(again, "derived");
    assert_eq!(b.borrow_buf(), a.borrow_buf());
}

#[test]
fn byte_arrays_have_no_hash() {
    let a = array(b"abc");
    assert_eq!(a.unhashable(), Err(PyException::Unhashable));
    assert_eq!(PyException::Unhashable.class(), ExceptionClass::TypeError);
    assert_eq!(PyException::Unhashable.message(), "unhashable type: 'bytearray'");
    let mut context = PyContext::new();
    init(&mut context);
    assert_eq!(PyByteArray::class(&context).slots.get("hash"), Some("unhashable"));
    assert_eq!(PyByteArray::class(&context).slots.get("new"), Some("tp_new"));
}

#[test]
fn refuse_to_make() {
    assert_eq!(refused(from_object(PyObject::Int(-1))), PyException::NegativeCount);
    assert_eq!(refused(from_object(PyObject::Int(i128::MAX))), PyException::SizeTooLarge);
    assert_eq!(refused(from_object(PyObject::Other)), PyException::NotByteSource);
    let items = vec![PyObject::Int(256)];
    assert_eq!(refused(from_object(PyObject::Iterable(items))), PyException::ByteOutOfRange);
    let text = Some(NewSource::Text(vec![]));
    assert_eq!(
        refused(ByteInnerNewOptions { source: text, encoding: false }),
        PyException::StringWithoutEncoding
    );
    assert_eq!(
        refused(ByteInnerNewOptions { source: None, encoding: true }),
        PyException::EncodingWithoutString
    );
    let object = Some(NewSource::Object(PyObject::Bytes(vec![])));
    assert_eq!(
        refused(ByteInnerNewOptions { source: object, encoding: true }),
        PyException::EncodingWithoutString
    );
    assert_eq!(
        PyException::StringWithoutEncoding.message(),
        "string argument without an encoding"
    );
    assert_eq!(PyException::EncodingWithoutString.message(), "encoding without a string argument");
    assert_eq!(PyException::NotByteSource.class(), ExceptionClass::TypeError);
    assert_eq!(
        PyException::NotByteSource.message(),
        "can assign only bytes, buffers, or iterables of ints in range(0, 256)"
    );
}

#[test]
fn reduce_gives_the_bytes_back() {
    let a = array(b"abc");
    let (class, mut args, dict) = a.reduce("bytearray", Some(5));
    assert_eq!(class, "bytearray");
    assert_eq!(dict, Some(5));
    assert_eq!(args.len(), 1);
    assert_eq!(made(from_object(args.remove(0))), b"abc");
    let (class, mut args, dict) = a.reduce_ex::<u8, u8>(2, 1, None);
    assert_eq!(class, 1);
    assert_eq!(dict, None);
    assert_eq!(args.len(), 1);
    assert_eq!(made(from_object(args.remove(0))), b"abc");
}

#[test]
fn iterate_to_the_end() {
    let a = array(b"ab");
    let mut it = a.iter();
    assert_eq!(it.next(&a), Ok(0x61));
    assert_eq!(it.next(&a), Ok(0x62));
    assert_eq!(it.next(&a), Err(PyException::StopIteration));
    assert_eq!(it.next(&a), Err(PyException::StopIteration));
}

#[test]
fn iteration_sees_changes() {
    let mut a = array(b"ab");
    let mut it = a.iter();
    assert_eq!(it.next(&a), Ok(0x61));
    assert_eq!(a.append(&PyObject::Int(0x63)), Ok(()));
    assert_eq!(it.next(&a), Ok(0x62));
    assert_eq!(it.next(&a), Ok(0x63));
    assert_eq!(it.next(&a), Err(PyException::StopIteration));
    assert_eq!(a.append(&PyObject::Int(0x64)), Ok(()));
    assert_eq!(it.next(&a), Err(PyException::StopIteration));
}

#[test]
fn compare_in_lexicographic_order() {
    let a = array(b"abc");
    let with = |b: &[u8], op: PyComparisonOp| -> PyComparisonValue {
        a.cmp(&Operand::Object(PyObject::Bytes(b.to_vec())), op)
    };
    let yes = PyComparisonValue::Implemented(true);
    let no = PyComparisonValue::Implemented(false);
    assert_eq!(with(b"abc", PyComparisonOp::Eq), yes);
    assert_eq!(with(b"abc", PyComparisonOp::Ne), no);
    assert_eq!(with(b"abd", PyComparisonOp::Lt), yes);
    assert_eq!(with(b"abd", PyComparisonOp::Ge), no);
    assert_eq!(with(b"ab", PyComparisonOp::Gt), yes);
    assert_eq!(with(b"abcd", PyComparisonOp::Lt), yes);
    assert_eq!(with(b"abc", PyComparisonOp::Le), yes);
    assert_eq!(with(b"abc", PyComparisonOp::Ge), yes);
    assert_eq!(with(b"\xff", PyComparisonOp::Lt), yes);
    assert_eq!(with(b"", PyComparisonOp::Gt), yes);
}

#[test]
fn compare_with_itself_and_with_others() {
    let a = array(b"abc");
    let yes = PyComparisonValue::Implemented(true);
    let no = PyComparisonValue::Implemented(false);
    assert_eq!(a.cmp(&Operand::Itself, PyComparisonOp::Eq), yes);
    assert_eq!(a.cmp(&Operand::Itself, PyComparisonOp::Le), yes);
    assert_eq!(a.cmp(&Operand::Itself, PyComparisonOp::Ge), yes);
    assert_eq!(a.cmp(&Operand::Itself, PyComparisonOp::Ne), no);
    assert_eq!(a.cmp(&Operand::Itself, PyComparisonOp::Lt), no);
    assert_eq!(a.cmp(&Operand::Itself, PyComparisonOp::Gt), no);
    assert_eq!(
        a.cmp(&Operand::Object(PyObject::Int(1)), PyComparisonOp::Eq),
        PyComparisonValue::NotImplemented
    );
    assert_eq!(a.rmod(&PyObject::Other), PyComparisonValue::NotImplemented);
}

#[test]
fn size_counts_the_bytes() {
    let empty = array(b"").sizeof();
    assert_eq!(
        empty,
        std::mem::size_of::<parking_lot::RwLock<Vec<u8>>>()
            + std::mem::size_of::<crossbeam_utils::atomic::AtomicCell<usize>>()
    );
    assert_eq!(empty, 5 * std::mem::size_of::<usize>());
    assert_eq!(array(b"abcde").sizeof(), empty + 5);
}

#[test]
fn init_fills_the_classes() {
    let mut context = PyContext::new();
    assert_eq!(PyByteArray::class(&context).methods.get("append"), None);
    init(&mut context);
    let class = PyByteArray::class(&context);
    assert_eq!(class.methods.get("append"), Some("append"));
    assert_eq!(class.methods.get("__len__"), Some("len"));
    assert_eq!(class.methods.get("__rmul__"), Some("mul"));
    assert_eq!(class.methods.get("maketrans"), Some("maketrans"));
    assert_eq!(class.methods.get("irepeat"), None);
    let iterator = PyByteArrayIterator::class(&context);
    assert_eq!(iterator.slots.get("iternext"), Some("next"));
    assert_eq!(iterator.methods.get("append"), None);
}

#[test]
fn init_twice_is_init_once() {
    let mut context = PyContext::new();
    context.bytearray_type.methods.set("extra", "mine");
    context.bytearray_type.methods.set("pop", "other");
    init(&mut context);
    init(&mut context);
    let class = PyByteArray::class(&context);
    assert_eq!(class.methods.get("extra"), Some("mine"));
    assert_eq!(class.methods.get("pop"), Some("pop"));
    assert_eq!(class.methods.get("decode"), Some("decode"));
}
