//! Operations that yield an edited copy: padding, tabs, translation, replacement, repetition.
use crate::bytesinner::{repeated, PyBytesInner};
use crate::error::{PyException, PyResult};
use crate::object::{agrees, PyObject};
use crate::parts::fewer;
use crate::search::{find, find_byte, first_byte, first_occurrence, lemma_first_exists, occurs_at};
use crate::span::is_among;
use vstd::prelude::*;
use vstd::slice::{slice_subrange, slice_to_vec};

verus! {

/// `n` times the byte `b`.
pub open spec fn filled(n: int, b: u8) -> Seq<u8> {
    Seq::new(
        if n > 0 {
            n as nat
        } else {
            0
        },
        |i: int| b,
    )
}

/// Appends `n` times the byte `b`.
fn push_filled(v: &mut Vec<u8>, n: usize, b: u8)
    ensures
        final(v)@ == old(v)@ + filled(n as int, b),
{
    let ghost before = v@;
    let mut i: usize = 0;
    while i < n
        invariant
            i <= n,
            v@ =~= before + filled(i as int, b),
        decreases n - i,
    {
        v.push(b);
        i += 1;
    }
}

/// The arguments of `center`, `ljust` and `rjust`. Without a fill byte, a space fills.
#[derive(Debug)]
pub struct ByteInnerPaddingOptions {
    pub width: isize,
    pub fillchar: Option<PyObject>,
}

/// The byte that fills.
pub open spec fn fill_of(fillchar: Option<PyObject>) -> PyResult<u8> {
    match fillchar {
        None => Ok(0x20),
        Some(PyObject::Bytes(v)) => if v@.len() == 1 {
            Ok(v@[0])
        } else {
            Err(PyException::BadFillByte)
        },
        Some(_) => Err(PyException::BadFillByte),
    }
}

/// How many bytes are missing for `s` to be `width` long.
pub open spec fn margin(s: Seq<u8>, width: int) -> int {
    if width > s.len() {
        width - s.len()
    } else {
        0
    }
}

/// How many of `m` bytes that are missing for the width `width` go to the left when centering: half
/// of them; of an odd number, the larger half where the width is odd.
pub open spec fn left_margin(m: int, width: int) -> int {
    m / 2 + if m % 2 == 1 && width % 2 == 1 {
        1int
    } else {
        0int
    }
}

/// What `center` yields.
pub open spec fn center_result(s: Seq<u8>, options: ByteInnerPaddingOptions) -> PyResult<Seq<u8>> {
    match fill_of(options.fillchar) {
        Err(e) => Err(e),
        Ok(b) => {
            let m = margin(s, options.width as int);
            let left = left_margin(m, options.width as int);
            Ok(
                if m == 0 {
                    s
                } else {
                    filled(left, b) + s + filled(m - left, b)
                },
            )
        },
    }
}

/// What `ljust` yields.
pub open spec fn ljust_result(s: Seq<u8>, options: ByteInnerPaddingOptions) -> PyResult<Seq<u8>> {
    match fill_of(options.fillchar) {
        Err(e) => Err(e),
        Ok(b) => Ok(s + filled(margin(s, options.width as int), b)),
    }
}

/// What `rjust` yields.
pub open spec fn rjust_result(s: Seq<u8>, options: ByteInnerPaddingOptions) -> PyResult<Seq<u8>> {
    match fill_of(options.fillchar) {
        Err(e) => Err(e),
        Ok(b) => Ok(filled(margin(s, options.width as int), b) + s),
    }
}

/// The byte that fills.
fn fill(fillchar: &Option<PyObject>) -> (r: PyResult<u8>)
    ensures
        r == fill_of(*fillchar),
{
    match fillchar {
        None => Ok(0x20),
        Some(PyObject::Bytes(v)) => if v.len() == 1 {
            Ok(v[0])
        } else {
            Err(PyException::BadFillByte)
        },
        Some(_) => Err(PyException::BadFillByte),
    }
}

/// How many bytes are missing for `len` bytes to be `width` long.
fn missing(len: usize, width: isize) -> (r: usize)
    ensures
        r == if width > len {
            width - len
        } else {
            0
        },
{
    if width as i128 > len as i128 {
        (width as i128 - len as i128) as usize
    } else {
        0
    }
}

/// `s` with `left` times the byte `b` before it and `right` times behind it.
fn pad(s: &[u8], left: usize, right: usize, b: u8) -> (r: Vec<u8>)
    ensures
        r@ == filled(left as int, b) + s@ + filled(right as int, b),
{
    let mut r: Vec<u8> = Vec::new();
    push_filled(&mut r, left, b);
    r.extend_from_slice(s);
    assert(r@ =~= filled(left as int, b) + s@);
    push_filled(&mut r, right, b);
    r
}

/// A copy in the middle of `width` bytes.
pub fn center(s: &[u8], options: &ByteInnerPaddingOptions) -> (r: PyResult<Vec<u8>>)
    ensures
        agrees(r, center_result(s@, *options)),
{
    let b: u8 = match fill(&options.fillchar) {
        Ok(b) => b,
        Err(e) => return Err(e),
    };
    let m: usize = missing(s.len(), options.width);
    if m == 0 {
        return Ok(slice_to_vec(s));
    }
    let left: usize = m / 2 + if m % 2 == 1 && options.width % 2 == 1 {
        1
    } else {
        0
    };
    Ok(pad(s, left, m - left, b))
}

/// A copy at the start of `width` bytes.
pub fn ljust(s: &[u8], options: &ByteInnerPaddingOptions) -> (r: PyResult<Vec<u8>>)
    ensures
        agrees(r, ljust_result(s@, *options)),
{
    let b: u8 = match fill(&options.fillchar) {
        Ok(b) => b,
        Err(e) => return Err(e),
    };
    let r = pad(s, 0, missing(s.len(), options.width), b);
    assert(r@ =~= s@ + filled(margin(s@, options.width as int), b));
    Ok(r)
}

/// A copy at the end of `width` bytes.
pub fn rjust(s: &[u8], options: &ByteInnerPaddingOptions) -> (r: PyResult<Vec<u8>>)
    ensures
        agrees(r, rjust_result(s@, *options)),
{
    let b: u8 = match fill(&options.fillchar) {
        Ok(b) => b,
        Err(e) => return Err(e),
    };
    let r = pad(s, missing(s.len(), options.width), 0, b);
    assert(r@ =~= filled(margin(s@, options.width as int), b) + s@);
    Ok(r)
}

/// How many bytes of `s` are its sign: one, where it begins with a plus or a minus.
pub open spec fn sign_len(s: Seq<u8>) -> int {
    if s.len() > 0 && (s[0] == 0x2b || s[0] == 0x2d) {
        1
    } else {
        0
    }
}

/// `s` with zeros behind its sign, as many as are missing for it to be `width` long.
pub open spec fn zero_filled(s: Seq<u8>, width: int) -> Seq<u8> {
    s.take(sign_len(s)) + filled(margin(s, width), 0x30) + s.skip(sign_len(s))
}

/// A copy with zeros behind its sign.
pub fn zfill(s: &[u8], width: isize) -> (r: Vec<u8>)
    ensures
        r@ == zero_filled(s@, width as int),
{
    let sign: usize = if s.len() > 0 && (s[0] == 0x2b || s[0] == 0x2d) {
        1
    } else {
        0
    };
    let mut r = slice_to_vec(slice_subrange(s, 0, sign));
    push_filled(&mut r, missing(s.len(), width), 0x30);
    let ghost front = r@;
    r.extend_from_slice(slice_subrange(s, sign, s.len()));
    assert(r@ =~= front + s@.skip(sign as int));
    r
}

/// `s`, which begins at the column `column` counted modulo `tabsize`, with its tabs replaced by
/// spaces up to the next multiple of `tabsize`. With a `tabsize` of zero the tabs go.
pub open spec fn expanded(s: Seq<u8>, tabsize: nat, column: nat) -> Seq<u8>
    decreases s.len(),
{
    if s.len() == 0 {
        Seq::empty()
    } else if s[0] == 0x09 {
        filled(tabsize - column, 0x20) + expanded(s.drop_first(), tabsize, 0)
    } else {
        seq![s[0]] + expanded(s.drop_first(), tabsize, next_column(s[0], tabsize, column))
    }
}

/// The column behind the byte `b`.
pub open spec fn next_column(b: u8, tabsize: nat, column: nat) -> nat {
    if b == 0x0a || b == 0x0d || column + 1 >= tabsize {
        0
    } else {
        column + 1
    }
}

/// The size of a tab: none where it is negative, and eight where it is not given.
pub open spec fn tab_size(tabsize: Option<isize>) -> nat {
    match tabsize {
        None => 8,
        Some(v) => if v < 0 {
            0
        } else {
            v as nat
        },
    }
}

/// A copy with the tabs replaced by spaces.
pub fn expandtabs(s: &[u8], tabsize: Option<isize>) -> (r: Vec<u8>)
    ensures
        r@ == expanded(s@, tab_size(tabsize), 0),
{
    let size: usize = match tabsize {
        None => 8,
        Some(v) => if v < 0 {
            0
        } else {
            v as usize
        },
    };
    let mut r: Vec<u8> = Vec::new();
    let mut column: usize = 0;
    let mut i: usize = 0;
    assert(s@.skip(0) =~= s@);
    assert(r@ + expanded(s@, size as nat, 0) =~= expanded(s@, size as nat, 0));
    while i < s.len()
        invariant
            i <= s.len(),
            size == 0 ==> column == 0,
            size > 0 ==> column < size,
            r@ + expanded(s@.skip(i as int), size as nat, column as nat) == expanded(
                s@,
                size as nat,
                0,
            ),
        decreases s.len() - i,
    {
        let b: u8 = s[i];
        let ghost before = r@;
        let ghost rest = s@.skip(i as int);
        assert(rest.drop_first() =~= s@.skip(i + 1));
        if b == 0x09 {
            push_filled(&mut r, size - column, 0x20);
            column = 0;
            assert(r@ + expanded(s@.skip(i + 1), size as nat, 0) =~= before + expanded(
                rest,
                size as nat,
                (size - (r@.len() - before.len())) as nat,
            ));
        } else {
            r.push(b);
            let next: usize = if b == 0x0a || b == 0x0d || column + 1 >= size {
                0
            } else {
                column + 1
            };
            assert(r@ + expanded(s@.skip(i + 1), size as nat, next as nat) =~= before + expanded(
                rest,
                size as nat,
                column as nat,
            ));
            column = next;
        }
        i += 1;
    }
    assert(r@ + Seq::<u8>::empty() =~= r@);
    r
}

/// The arguments of `translate`. Without a table every byte is kept; the bytes to delete go.
#[derive(Debug)]
pub struct ByteInnerTranslateOptions {
    pub table: Option<PyObject>,
    pub delete: Option<PyObject>,
}

/// The table that maps every byte to itself.
pub open spec fn identity_table() -> Seq<u8> {
    Seq::new(256, |i: int| i as u8)
}

/// The translation table.
pub open spec fn table_of(table: Option<PyObject>) -> PyResult<Seq<u8>> {
    match table {
        None => Ok(identity_table()),
        Some(PyObject::Bytes(v)) => if v@.len() == 256 {
            Ok(v@)
        } else {
            Err(PyException::BadTranslationTable)
        },
        Some(_) => Err(PyException::NotBytesLike),
    }
}

/// The bytes to delete.
pub open spec fn deletions_of(delete: Option<PyObject>) -> PyResult<Seq<u8>> {
    match delete {
        None => Ok(Seq::empty()),
        Some(PyObject::Bytes(v)) => Ok(v@),
        Some(_) => Err(PyException::NotBytesLike),
    }
}

/// The bytes of `s` that are not among `delete`, each replaced by its entry in `table`.
pub open spec fn translated(s: Seq<u8>, table: Seq<u8>, delete: Seq<u8>) -> Seq<u8>
    decreases s.len(),
{
    if s.len() == 0 {
        Seq::empty()
    } else if delete.contains(s.last()) {
        translated(s.drop_last(), table, delete)
    } else {
        translated(s.drop_last(), table, delete).push(table[s.last() as int])
    }
}

/// What `translate` yields.
pub open spec fn translate_result(s: Seq<u8>, options: ByteInnerTranslateOptions) -> PyResult<
    Seq<u8>,
> {
    match table_of(options.table) {
        Err(e) => Err(e),
        Ok(table) => match deletions_of(options.delete) {
            Err(e) => Err(e),
            Ok(delete) => Ok(translated(s, table, delete)),
        },
    }
}

/// The translation table.
fn read_table(table: &Option<PyObject>) -> (r: PyResult<Vec<u8>>)
    ensures
        agrees(r, table_of(*table)),
{
    match table {
        None => {
            let mut identity: Vec<u8> = Vec::new();
            let mut i: usize = 0;
            while i < 256
                invariant
                    i <= 256,
                    identity@ =~= identity_table().take(i as int),
                decreases 256 - i,
            {
                identity.push(i as u8);
                i += 1;
            }
            assert(identity@ =~= identity_table());
            Ok(identity)
        },
        Some(PyObject::Bytes(v)) => if v.len() == 256 {
            Ok(slice_to_vec(v.as_slice()))
        } else {
            Err(PyException::BadTranslationTable)
        },
        Some(_) => Err(PyException::NotBytesLike),
    }
}

/// The bytes to delete.
fn deletions(delete: &Option<PyObject>) -> (r: PyResult<Vec<u8>>)
    ensures
        agrees(r, deletions_of(*delete)),
{
    match delete {
        None => Ok(Vec::new()),
        Some(PyObject::Bytes(v)) => Ok(slice_to_vec(v.as_slice())),
        Some(_) => Err(PyException::NotBytesLike),
    }
}

/// A copy without the bytes to delete and with the others translated.
pub fn translate(s: &[u8], options: &ByteInnerTranslateOptions) -> (r: PyResult<Vec<u8>>)
    ensures
        agrees(r, translate_result(s@, *options)),
{
    let table = match read_table(&options.table) {
        Ok(table) => table,
        Err(e) => return Err(e),
    };
    let delete = match deletions(&options.delete) {
        Ok(delete) => delete,
        Err(e) => return Err(e),
    };
    let mut r: Vec<u8> = Vec::new();
    let mut i: usize = 0;
    while i < s.len()
        invariant
            i <= s.len(),
            table@.len() == 256,
            r@ == translated(s@.take(i as int), table@, delete@),
        decreases s.len() - i,
    {
        assert(s@.take(i + 1).drop_last() =~= s@.take(i as int));
        if !is_among(delete.as_slice(), s[i]) {
            r.push(table[s[i] as usize]);
        }
        i += 1;
    }
    assert(s@.take(s@.len() as int) =~= s@);
    Ok(r)
}

/// The byte that a table from `maketrans` gives for `b`: the one that stands in `to` where `b` first
/// stands in `source`, and `b` itself where it does not stand there.
pub open spec fn mapped_byte(source: Seq<u8>, to: Seq<u8>, b: u8) -> u8 {
    match first_byte(source, b) {
        Some(k) => to[k],
        None => b,
    }
}

/// What `maketrans` yields.
pub open spec fn maketrans_result(source: Seq<u8>, to: Seq<u8>) -> PyResult<Seq<u8>> {
    if source.len() != to.len() {
        Err(PyException::MaketransLengths)
    } else {
        Ok(Seq::new(256, |i: int| mapped_byte(source, to, i as u8)))
    }
}

impl PyBytesInner {
    /// A translation table that maps the bytes of `source` to those of `to`.
    pub fn maketrans(source: &PyBytesInner, to: &PyBytesInner) -> (r: PyResult<PyBytesInner>)
        ensures
            match (r, maketrans_result(source@, to@)) {
                (Ok(table), Ok(t)) => table@ == t,
                (Err(e), Err(f)) => e == f,
                _ => false,
            },
    {
        if source.elements.len() != to.elements.len() {
            return Err(PyException::MaketransLengths);
        }
        let ghost t = Seq::new(256, |i: int| mapped_byte(source@, to@, i as u8));
        let mut elements: Vec<u8> = Vec::new();
        let mut i: usize = 0;
        while i < 256
            invariant
                i <= 256,
                source@.len() == to@.len(),
                t == Seq::new(256, |i: int| mapped_byte(source@, to@, i as u8)),
                elements@ =~= t.take(i as int),
            decreases 256 - i,
        {
            let b: u8 = i as u8;
            match find_byte(source.elements.as_slice(), b) {
                Some(position) => elements.push(to.elements[position]),
                None => elements.push(b),
            }
            i += 1;
        }
        assert(elements@ =~= t);
        Ok(PyBytesInner { elements })
    }
}

/// `s` with the first `count` occurrences of `from`, which is not empty, replaced by `to`; all of
/// them where `count` is negative.
pub open spec fn replaced_occurrences(
    s: Seq<u8>,
    from: Seq<u8>,
    to: Seq<u8>,
    count: int,
) -> Seq<u8>
    decreases s.len(),
{
    match first_occurrence(s, from) {
        Some(i) => if count != 0 && from.len() > 0 && occurs_at(s, from, i) {
            s.take(i) + to + replaced_occurrences(
                s.skip(i + from.len()),
                from,
                to,
                fewer(count),
            )
        } else {
            s
        },
        None => s,
    }
}

/// `s` with `to` before each of its bytes and at its end, `count` times at most; without a limit
/// where `count` is negative.
pub open spec fn interleaved(s: Seq<u8>, to: Seq<u8>, count: int) -> Seq<u8>
    decreases s.len(),
{
    if count == 0 {
        s
    } else if s.len() == 0 {
        to
    } else {
        to + seq![s[0]] + interleaved(s.drop_first(), to, fewer(count))
    }
}

/// What `replace` yields.
pub open spec fn replaced(s: Seq<u8>, from: Seq<u8>, to: Seq<u8>, count: int) -> Seq<u8> {
    if from.len() == 0 {
        interleaved(s, to, count)
    } else {
        replaced_occurrences(s, from, to, count)
    }
}

/// The limit of `replace`; without one, all occurrences are replaced.
pub open spec fn replace_limit(count: Option<isize>) -> int {
    match count {
        Some(count) => count as int,
        None => -1,
    }
}

/// Replaces occurrences.
fn replace_occurrences(s: &[u8], from: &[u8], to: &[u8], count: isize) -> (r: Vec<u8>)
    requires
        from@.len() > 0,
    ensures
        r@ == replaced_occurrences(s@, from@, to@, count as int),
{
    let mut r: Vec<u8> = Vec::new();
    let mut rest = s;
    let mut left: isize = count;
    let ghost whole = replaced_occurrences(s@, from@, to@, count as int);
    assert(r@ + whole =~= whole);
    loop
        invariant
            from@.len() > 0,
            r@ + replaced_occurrences(rest@, from@, to@, left as int) == whole,
        ensures
            r@ + rest@ == whole,
        decreases rest@.len(),
    {
        proof {
            lemma_first_exists(rest@, from@);
        }
        if left == 0 {
            break;
        }
        match find(rest, from) {
            Some(i) => {
                let ghost before = r@;
                r.extend_from_slice(slice_subrange(rest, 0, i));
                assert(r@ =~= before + rest@.take(i as int));
                r.extend_from_slice(to);
                assert(r@ =~= before + rest@.take(i as int) + to@);
                let next = slice_subrange(rest, i + from.len(), rest.len());
                proof {
                    assert(next@ =~= rest@.skip(i + from@.len()));
                    let tail = replaced_occurrences(next@, from@, to@, fewer(left as int));
                    assert(r@ + tail =~= before + (rest@.take(i as int) + to@ + tail));
                }
                rest = next;
                if left > 0 {
                    left = left - 1;
                }
            },
            None => {
                break;
            },
        }
    }
    let ghost before = r@;
    r.extend_from_slice(rest);
    assert(r@ =~= before + rest@);
    r
}

/// Inserts `to` before each byte and at the end.
fn interleave(s: &[u8], to: &[u8], count: isize) -> (r: Vec<u8>)
    ensures
        r@ == interleaved(s@, to@, count as int),
{
    let mut r: Vec<u8> = Vec::new();
    let mut left: isize = count;
    let mut i: usize = 0;
    let ghost whole = interleaved(s@, to@, count as int);
    assert(s@.skip(0) =~= s@);
    assert(r@ + whole =~= whole);
    while i < s.len() && left != 0
        invariant
            i <= s.len(),
            r@ + interleaved(s@.skip(i as int), to@, left as int) == whole,
        decreases s.len() - i,
    {
        let ghost before = r@;
        let ghost rest = s@.skip(i as int);
        r.extend_from_slice(to);
        assert(r@ =~= before + to@);
        r.push(s[i]);
        proof {
            assert(rest.drop_first() =~= s@.skip(i + 1));
            let tail = interleaved(s@.skip(i + 1), to@, fewer(left as int));
            assert(r@ + tail =~= before + (to@ + seq![rest[0]] + tail));
        }
        if left > 0 {
            left = left - 1;
        }
        i += 1;
    }
    let ghost before = r@;
    if left == 0 {
        r.extend_from_slice(slice_subrange(s, i, s.len()));
        assert(r@ =~= before + s@.skip(i as int));
    } else {
        r.extend_from_slice(to);
        assert(r@ =~= before + to@);
    }
    r
}

/// A copy with occurrences of `from` replaced by `to`.
pub fn replace(s: &[u8], from: &[u8], to: &[u8], count: Option<isize>) -> (r: Vec<u8>)
    ensures
        r@ == replaced(s@, from@, to@, replace_limit(count)),
{
    let count: isize = match count {
        Some(count) => count,
        None => -1,
    };
    if from.len() == 0 {
        interleave(s, to, count)
    } else {
        replace_occurrences(s, from, to, count)
    }
}

/// `s` repeated `n` times; nothing where `n` is negative.
pub open spec fn multiplied(s: Seq<u8>, n: int) -> Seq<u8> {
    if n <= 0 {
        Seq::empty()
    } else {
        repeated(s, n as nat)
    }
}

/// A copy repeated `n` times.
pub fn repeat(s: &[u8], n: isize) -> (r: Vec<u8>)
    requires
        n > 0 ==> s@.len() * n <= isize::MAX,
    ensures
        r@ == multiplied(s@, n as int),
{
    if n <= 0 {
        return Vec::new();
    }
    let mut inner = PyBytesInner { elements: slice_to_vec(s) };
    inner.repeat_in_place(n as usize);
    inner.elements
}

/// `s` and `other` behind it.
pub fn concat(s: &[u8], other: &[u8]) -> (r: Vec<u8>)
    ensures
        r@ == s@ + other@,
{
    let mut r = slice_to_vec(s);
    r.extend_from_slice(other);
    assert(r@ =~= s@ + other@);
    r
}

} // verus!
