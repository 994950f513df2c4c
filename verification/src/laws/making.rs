//! Laws of making byte arrays and walking through them, and of filling their classes.
use crate::bytearray::{
    fresh_instance, new_result, next_result, ByteInnerNewOptions, NewSource, PyByteArray,
};
use crate::context::extended;
use crate::counter::incremented;
use crate::error::{PyException, PyResult};
use crate::object::PyObject;
use vstd::prelude::*;

verus! {

/// Made anew from the class and the arguments that `reduce` gives, which are its bytes, a byte array
/// has the same class and the same contents, and is free of exports.
pub proof fn law_reduce_rebuilds<C>(r: PyResult<(C, PyByteArray)>, class: C, v: Vec<u8>)
    requires
        fresh_instance(
            r,
            class,
            new_result(
                ByteInnerNewOptions {
                    source: Some(NewSource::Object(PyObject::Bytes(v))),
                    encoding: false,
                },
            ),
        ),
    ensures
        r matches Ok((c, b)) && c == class && b@ == v@ && b.export_count() == 0,
{
}

/// The position of an iterator after `n` steps from `position`.
pub open spec fn stepped(position: usize, n: nat) -> usize
    decreases n,
{
    if n == 0 {
        position
    } else {
        incremented(stepped(position, (n - 1) as nat), 1)
    }
}

/// From the start, `n` steps lead to the position `n`.
pub proof fn law_stepped(n: nat)
    requires
        n <= usize::MAX,
    ensures
        stepped(0, n) == n,
    decreases n,
{
    if n > 0 {
        law_stepped((n - 1) as nat);
    }
}

/// Step by step, an iterator yields the bytes in their order and then stops, and stays stopped for
/// as long as its position can be counted.
pub proof fn law_iteration(s: Seq<u8>, n: nat)
    requires
        s.len() <= usize::MAX,
        n <= usize::MAX,
    ensures
        n < s.len() ==> next_result(s, stepped(0, n)) == Ok::<u8, PyException>(s[n as int]),
        n >= s.len() ==> next_result(s, stepped(0, n)) == Err::<u8, PyException>(
            PyException::StopIteration,
        ),
{
    law_stepped(n);
}

/// The entries of a table are there once they were added, the last of each name, and no other entry
/// changes.
pub proof fn law_extended(
    m: Map<Seq<char>, Seq<char>>,
    table: Seq<(Seq<char>, Seq<char>)>,
    name: Seq<char>,
)
    ensures
        (forall|i: int| 0 <= i < table.len() ==> (#[trigger] table[i]).0 != name) ==> {
            &&& extended(m, table).dom().contains(name) == m.dom().contains(name)
            &&& m.dom().contains(name) ==> extended(m, table)[name] == m[name]
        },
        forall|i: int|
            0 <= i < table.len() && (#[trigger] table[i]).0 == name && (forall|j: int|
                i < j < table.len() ==> (#[trigger] table[j]).0 != name) ==> {
                &&& extended(m, table).dom().contains(name)
                &&& extended(m, table)[name] == table[i].1
            },
    decreases table.len(),
{
    if table.len() > 0 {
        let front = table.drop_last();
        law_extended(m, front, name);
        if table.last().0 != name {
            assert forall|i: int|
                0 <= i < table.len() && (#[trigger] table[i]).0 == name && (forall|j: int|
                    i < j < table.len() ==> (#[trigger] table[j]).0 != name) implies {
                &&& extended(m, table).dom().contains(name)
                &&& extended(m, table)[name] == table[i].1
            } by {
                assert(front[i] == table[i]);
                assert forall|j: int| i < j < front.len() implies (#[trigger] front[j]).0
                    != name by {
                    assert(front[j] == table[j]);
                }
            }
            if forall|i: int| 0 <= i < table.len() ==> (#[trigger] table[i]).0 != name {
                assert forall|i: int| 0 <= i < front.len() implies (#[trigger] front[i]).0
                    != name by {
                    assert(front[i] == table[i]);
                }
            }
        } else {
            assert(table[table.len() - 1].0 == name);
        }
    }
}

/// To fill a class a second time changes nothing.
pub proof fn law_extend_twice(
    m: Map<Seq<char>, Seq<char>>,
    table: Seq<(Seq<char>, Seq<char>)>,
)
    ensures
        extended(extended(m, table), table) == extended(m, table),
{
    let once = extended(m, table);
    let twice = extended(once, table);
    assert forall|name: Seq<char>| #[trigger]
        twice.dom().contains(name) == once.dom().contains(name) && (once.dom().contains(name)
            ==> twice[name] == once[name]) by {
        law_extended(m, table, name);
        law_extended(once, table, name);
        if exists|i: int| 0 <= i < table.len() && (#[trigger] table[i]).0 == name {
            let i = choose|i: int| 0 <= i < table.len() && (#[trigger] table[i]).0 == name;
            let k = lemma_last_named(table, name, i);
            assert(table[k].0 == name);
        }
    }
    assert(twice =~= once);
}

/// Of the entries with one name there is a last.
proof fn lemma_last_named(
    table: Seq<(Seq<char>, Seq<char>)>,
    name: Seq<char>,
    i: int,
) -> (k: int)
    requires
        0 <= i < table.len(),
        table[i].0 == name,
    ensures
        i <= k < table.len(),
        table[k].0 == name,
        forall|j: int| k < j < table.len() ==> (#[trigger] table[j]).0 != name,
    decreases table.len() - i,
{
    if exists|j: int| i < j < table.len() && (#[trigger] table[j]).0 == name {
        let j = choose|j: int| i < j < table.len() && (#[trigger] table[j]).0 == name;
        lemma_last_named(table, name, j)
    } else {
        i
    }
}

} // verus!
