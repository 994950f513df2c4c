//! Laws of what the operations take, of what the operations that change a byte array leave, and of
//! how byte arrays compare.
use crate::bytearray::{new_result, ByteInnerNewOptions, NewSource};
use crate::bytesinner::repeated;
use crate::compare::{comparison, relation, PyComparisonOp, PyComparisonValue, Relation};
use crate::edit::multiplied;
use crate::error::{class_of, ExceptionClass, PyException, PyResult};
use crate::object::{bytes_of, bytes_of_items, Operand, PyObject};
use crate::outcome::{
    append_outcome, clear_outcome, extend_outcome, iadd_outcome, insert_outcome, irepeat_outcome,
    remove_outcome, setitem_outcome,
};
use crate::search::first_byte_at;
use crate::span::lemma_first_byte;
use vstd::prelude::*;

verus! {

/// An operation that changed the contents to `t`.
pub open spec fn done(t: Seq<u8>) -> (PyResult<()>, Seq<u8>) {
    (Ok(()), t)
}

/// An operation that raised `e` and left `s`.
pub open spec fn refused(e: PyException, s: Seq<u8>) -> (PyResult<()>, Seq<u8>) {
    (Err(e), s)
}

/// Why `object` stands for no byte: it is no integer, or none from 0 to 255.
pub open spec fn no_byte(object: PyObject) -> Option<PyException> {
    match object {
        PyObject::Int(i) => if 0 <= i <= 255 {
            None
        } else {
            Some(PyException::ByteOutOfRange)
        },
        _ => Some(PyException::NotAnInteger),
    }
}

/// What is no byte is refused first, exported or not, by every operation that takes one.
pub proof fn law_no_byte(s: Seq<u8>, exports: usize, index: isize, object: PyObject)
    ensures
        no_byte(object) matches Some(e) ==> {
            &&& append_outcome(s, exports, object) == refused(e, s)
            &&& insert_outcome(s, exports, index, object) == refused(e, s)
            &&& remove_outcome(s, exports, object) == refused(e, s)
            &&& setitem_outcome(
                s,
                exports,
                PyObject::Int(index as i128),
                Operand::Object(object),
            ) == refused(e, s)
        },
        setitem_outcome(s, exports, PyObject::Int(index as i128), Operand::Itself) == refused(
            PyException::NotAnInteger,
            s,
        ),
{
}

/// A byte is appended behind all others, and inserted with as many before it as its index says; an
/// index behind the end means the end, a negative one counts from the end, and one before the front
/// means the front.
pub proof fn law_inserted(s: Seq<u8>, index: isize, b: u8)
    requires
        s.len() <= isize::MAX,
    ensures
        ({
            let object = PyObject::Int(b as i128);
            &&& append_outcome(s, 0, object) == done(s + seq![b])
            &&& 0 <= index <= s.len() ==> insert_outcome(s, 0, index, object) == done(
                s.take(index as int) + seq![b] + s.skip(index as int),
            )
            &&& index >= s.len() ==> insert_outcome(s, 0, index, object) == append_outcome(
                s,
                0,
                object,
            )
            &&& -s.len() <= index < 0 ==> insert_outcome(s, 0, index, object) == insert_outcome(
                s,
                0,
                (index + s.len()) as isize,
                object,
            )
            &&& index < -s.len() ==> insert_outcome(s, 0, index, object) == done(seq![b] + s)
        }),
{
    let object = PyObject::Int(b as i128);
    assert(s.push(b) =~= s + seq![b]);
    if 0 <= index <= s.len() {
        assert(s.insert(index as int, b) =~= s.take(index as int) + seq![b] + s.skip(
            index as int,
        ));
    }
    if index >= s.len() {
        assert(s.insert(s.len() as int, b) =~= s.push(b));
    }
    if index < -s.len() {
        assert(s.insert(0, b) =~= seq![b] + s);
    }
}

/// The leftmost occurrence of a byte is removed: what stood before it holds none, and all else stays.
pub proof fn law_removed(s: Seq<u8>, b: u8)
    ensures
        ({
            let (r, t) = remove_outcome(s, 0, PyObject::Int(b as i128));
            &&& s.contains(b) ==> r is Ok && t.len() == s.len() - 1 && exists|k: int|
                #![trigger s.take(k)]
                0 <= k < s.len() && s[k] == b && !s.take(k).contains(b) && t == s.take(k) + s.skip(
                    k + 1,
                )
            &&& !s.contains(b) ==> (r, t) == refused(PyException::ValueNotFound, s)
        }),
{
    let (r, t) = remove_outcome(s, 0, PyObject::Int(b as i128));
    if s.contains(b) {
        lemma_first_byte(s, b);
        let k = crate::search::first_byte(s, b)->0;
        assert(first_byte_at(s, b, k));
        let front = s.take(k);
        assert forall|j: int| 0 <= j < front.len() implies front[j] != b by {
            assert(front[j] == s[j]);
        }
        assert(s.remove(k) =~= front + s.skip(k + 1));
    } else {
        assert forall|i: int| !first_byte_at(s, b, i) by {
            if first_byte_at(s, b, i) {
                assert(s[i] == b);
            }
        }
    }
}

/// What is added stands behind, what is cleared is empty, and what is repeated stands there that
/// often.
pub proof fn law_added(s: Seq<u8>, other: Vec<u8>, n: isize)
    ensures
        iadd_outcome(s, 0, other@) == done(s + other@),
        extend_outcome(s, 0, Operand::Object(PyObject::Bytes(other))) == done(s + other@),
        extend_outcome(s, 0, Operand::Itself) == done(s + s),
        clear_outcome(s, 0) == done(Seq::empty()),
        irepeat_outcome(s, 0, n) == done(multiplied(s, n as int)),
{
    crate::laws::mutation::law_extend_itself(s, 0);
    crate::laws::mutation::law_repeat_in_place(s, n);
}

/// Repeated once, a sequence is itself; no more than zero times, nothing; and `n` and then `m` times,
/// it stands there as often as both together.
pub proof fn law_multiplied(s: Seq<u8>, n: int, m: int)
    ensures
        multiplied(s, 1) == s,
        n <= 0 ==> multiplied(s, n) == Seq::<u8>::empty(),
        n >= 0 && m >= 0 ==> multiplied(s, n + m) == multiplied(s, n) + multiplied(s, m),
    decreases
            if m > 0 {
                m
            } else {
                0
            },
{
    reveal_with_fuel(repeated, 2);
    assert(multiplied(s, 1) =~= s);
    if n >= 0 && m >= 0 {
        if m == 0 {
            assert(multiplied(s, n) + multiplied(s, 0) =~= multiplied(s, n));
        } else {
            law_multiplied(s, n, m - 1);
            lemma_once_more(s, n + m - 1);
            lemma_once_more(s, m - 1);
            assert(multiplied(s, n + m) =~= multiplied(s, n) + multiplied(s, m));
        }
    }
}

proof fn lemma_once_more(s: Seq<u8>, n: int)
    requires
        n >= 0,
    ensures
        multiplied(s, n + 1) == multiplied(s, n) + s,
{
    if n == 0 {
        reveal_with_fuel(repeated, 2);
        assert(multiplied(s, 1) =~= multiplied(s, 0) + s);
    }
}

/// Items that are bytes are taken one by one.
pub proof fn law_items_taken(items: Vec<PyObject>)
    requires
        forall|i: int| 0 <= i < items@.len() ==> no_byte(#[trigger] items@[i]) is None,
    ensures
        bytes_of(PyObject::Iterable(items)) is Ok,
        bytes_of(PyObject::Tuple(items)) == bytes_of(PyObject::Iterable(items)),
        bytes_of(PyObject::Iterable(items))->Ok_0.len() == items@.len(),
        forall|i: int|
            0 <= i < items@.len() ==> #[trigger] items@[i] == PyObject::Int(
                bytes_of(PyObject::Iterable(items))->Ok_0[i] as i128,
            ),
{
    lemma_items_taken(items@);
}

proof fn lemma_items_taken(items: Seq<PyObject>)
    requires
        forall|i: int| 0 <= i < items.len() ==> no_byte(#[trigger] items[i]) is None,
    ensures
        bytes_of_items(items) is Ok,
        bytes_of_items(items)->Ok_0.len() == items.len(),
        forall|i: int|
            0 <= i < items.len() ==> #[trigger] items[i] == PyObject::Int(
                bytes_of_items(items)->Ok_0[i] as i128,
            ),
    decreases items.len(),
{
    if items.len() > 0 {
        let front = items.drop_last();
        assert forall|i: int| 0 <= i < front.len() implies no_byte(#[trigger] front[i]) is None by {
            assert(front[i] == items[i]);
        }
        lemma_items_taken(front);
        assert(no_byte(items[items.len() - 1]) is None);
        let bytes = bytes_of_items(items)->Ok_0;
        assert forall|i: int| 0 <= i < items.len() implies #[trigger] items[i] == PyObject::Int(
            bytes[i] as i128,
        ) by {
            if i < items.len() - 1 {
                assert(front[i] == items[i]);
            }
        }
    }
}

/// The first item that is no byte is the one that is refused.
pub proof fn law_items_refused(items: Vec<PyObject>, k: int)
    requires
        0 <= k < items@.len(),
        no_byte(items@[k]) is Some,
        forall|i: int| 0 <= i < k ==> no_byte(#[trigger] items@[i]) is None,
    ensures
        bytes_of(PyObject::Iterable(items)) == Err::<Seq<u8>, PyException>(no_byte(items@[k])->0),
        bytes_of(PyObject::Tuple(items)) == Err::<Seq<u8>, PyException>(no_byte(items@[k])->0),
{
    lemma_items_refused(items@, k);
}

proof fn lemma_items_refused(items: Seq<PyObject>, k: int)
    requires
        0 <= k < items.len(),
        no_byte(items[k]) is Some,
        forall|i: int| 0 <= i < k ==> no_byte(#[trigger] items[i]) is None,
    ensures
        bytes_of_items(items) == Err::<Seq<u8>, PyException>(no_byte(items[k])->0),
    decreases items.len(),
{
    let front = items.drop_last();
    if k < items.len() - 1 {
        assert forall|i: int| 0 <= i < k implies no_byte(#[trigger] front[i]) is None by {
            assert(front[i] == items[i]);
        }
        lemma_items_refused(front, k);
    } else {
        assert forall|i: int| 0 <= i < front.len() implies no_byte(#[trigger] front[i]) is None by {
            assert(front[i] == items[i]);
        }
        lemma_items_taken(front);
    }
}

/// An object supplies its contents, where it is bytes-like, or its items; any other supplies none.
pub proof fn law_bytes_supplied(object: PyObject, s: Seq<u8>, exports: usize)
    ensures
        object matches PyObject::Bytes(v) ==> bytes_of(object) == Ok::<Seq<u8>, PyException>(v@),
        object is Int || object is Slice || object is Other ==> {
            &&& bytes_of(object) == Err::<Seq<u8>, PyException>(PyException::NotByteSource)
            &&& extend_outcome(s, exports, Operand::Object(object)) == refused(
                PyException::NotByteSource,
                s,
            )
        },
        bytes_of(object) matches Ok(bytes) ==> extend_outcome(s, 0, Operand::Object(object)) == done(
            s + bytes,
        ),
        bytes_of(object) matches Err(e) ==> extend_outcome(s, exports, Operand::Object(object))
            == refused(e, s),
{
}

/// The ways to make a byte array: from nothing, from a number of zeros, from what supplies bytes, and
/// from text with an encoding.
pub proof fn law_made(n: i128, object: PyObject, text: Vec<u8>)
    ensures
        ({
            let of = |source: Option<NewSource>, encoding: bool|
                new_result(ByteInnerNewOptions { source, encoding });
            &&& of(None, false) == Ok::<Seq<u8>, PyException>(Seq::empty())
            &&& 0 <= n <= isize::MAX ==> {
                let zeros = of(Some(NewSource::Object(PyObject::Int(n))), false);
                &&& zeros is Ok
                &&& zeros->Ok_0.len() == n
                &&& forall|i: int| 0 <= i < n ==> #[trigger] zeros->Ok_0[i] == 0
            }
            &&& n < 0 ==> of(Some(NewSource::Object(PyObject::Int(n))), false) == Err::<
                Seq<u8>,
                PyException,
            >(PyException::NegativeCount)
            &&& n > isize::MAX ==> of(Some(NewSource::Object(PyObject::Int(n))), false) == Err::<
                Seq<u8>,
                PyException,
            >(PyException::SizeTooLarge)
            &&& !(object is Int) ==> of(Some(NewSource::Object(object)), false) == bytes_of(object)
            &&& of(Some(NewSource::Object(object)), true) == Err::<Seq<u8>, PyException>(
                PyException::EncodingWithoutString,
            )
            &&& of(None, true) == Err::<Seq<u8>, PyException>(PyException::EncodingWithoutString)
            &&& of(Some(NewSource::Text(text)), true) == Ok::<Seq<u8>, PyException>(text@)
            &&& of(Some(NewSource::Text(text)), false) == Err::<Seq<u8>, PyException>(
                PyException::StringWithoutEncoding,
            )
        }),
{
}

/// The first byte in which two sequences differ decides; where they differ in none, the longer one is
/// the greater.
pub proof fn law_first_difference(
    start: Seq<u8>,
    x: u8,
    y: u8,
    a: Seq<u8>,
    b: Seq<u8>,
)
    ensures
        x < y ==> relation(start + seq![x] + a, start + seq![y] + b) == Relation::Less,
        x > y ==> relation(start + seq![x] + a, start + seq![y] + b) == Relation::Greater,
        relation(start, start) == Relation::Equal,
        relation(start, start + seq![x] + a) == Relation::Less,
        relation(start + seq![x] + a, start) == Relation::Greater,
    decreases start.len(),
{
    let p = start + seq![x] + a;
    let q = start + seq![y] + b;
    if start.len() > 0 {
        let rest = start.drop_first();
        law_first_difference(rest, x, y, a, b);
        assert(p.drop_first() =~= rest + seq![x] + a);
        assert(q.drop_first() =~= rest + seq![y] + b);
        assert(p[0] == start[0] && q[0] == start[0]);
    } else {
        assert(p[0] == x && q[0] == y);
    }
}

/// What each operator asks of the order.
pub proof fn law_operators(s: Seq<u8>, other: Vec<u8>)
    ensures
        ({
            let value = |op: PyComparisonOp|
                comparison(s, Operand::Object(PyObject::Bytes(other)), op);
            let less = relation(s, other@) == Relation::Less;
            let same = s == other@;
            &&& value(PyComparisonOp::Lt) == PyComparisonValue::Implemented(less)
            &&& value(PyComparisonOp::Eq) == PyComparisonValue::Implemented(same)
            &&& value(PyComparisonOp::Gt) == PyComparisonValue::Implemented(!less && !same)
            &&& value(PyComparisonOp::Le) == PyComparisonValue::Implemented(less || same)
            &&& value(PyComparisonOp::Ge) == PyComparisonValue::Implemented(!less)
            &&& value(PyComparisonOp::Ne) == PyComparisonValue::Implemented(!same)
        }),
{
    crate::laws::order::law_equal_is_same(s, other@);
}

/// A byte array compares with itself as with its own contents, and not at all with what is not
/// bytes-like.
pub proof fn law_compared_with_itself(s: Seq<u8>, own: Vec<u8>, object: PyObject, op: PyComparisonOp)
    requires
        own@ == s,
    ensures
        comparison(s, Operand::Itself, op) == comparison(
            s,
            Operand::Object(PyObject::Bytes(own)),
            op,
        ),
        !(object is Bytes) ==> comparison(s, Operand::Object(object), op)
            == PyComparisonValue::NotImplemented,
{
}

/// Exceptions are of the class that tells their kind: of exports, of positions, of values, of types.
pub proof fn law_exception_classes(e: PyException)
    ensures
        class_of(e) == ExceptionClass::BufferError <==> e == PyException::ExistingExports,
        class_of(e) == ExceptionClass::IndexError <==> e == PyException::IndexOutOfRange || e
            == PyException::IndexTooLarge,
        class_of(e) == ExceptionClass::StopIteration <==> e == PyException::StopIteration,
        class_of(e) == ExceptionClass::OverflowError <==> e == PyException::SizeTooLarge,
        class_of(e) == ExceptionClass::TypeError <==> {
            ||| e == PyException::BadSubscript
            ||| e == PyException::NotAnInteger
            ||| e == PyException::NotByteSource
            ||| e == PyException::NotBytesLike
            ||| e == PyException::BadAffix
            ||| e == PyException::BadFillByte
            ||| e == PyException::StringWithoutEncoding
            ||| e == PyException::EncodingWithoutString
            ||| e == PyException::Unhashable
        },
{
}

} // verus!
