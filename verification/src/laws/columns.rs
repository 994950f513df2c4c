//! Laws of where bytes come to stand: padded, behind tabs, between what replaces nothing, and in a
//! table.
use crate::edit::{
    center_result, expanded, fill_of, filled, interleaved, ljust_result, maketrans_result,
    mapped_byte, next_column, replace_limit, replaced, replaced_occurrences, rjust_result, sign_len,
    tab_size, translate_result, translated, zero_filled, ByteInnerPaddingOptions,
    ByteInnerTranslateOptions,
};
use crate::error::PyException;
use crate::laws::editing::{law_translate_identity, law_translated, law_without_tabs};
use crate::object::PyObject;
use crate::search::{first_byte_at, first_occurrence, lemma_first_exists};
use vstd::prelude::*;

verus! {

/// `n` times the byte `b`.
pub open spec fn run(n: int, b: u8) -> Seq<u8> {
    Seq::new(
        if n > 0 {
            n as nat
        } else {
            0
        },
        |i: int| b,
    )
}

/// Whether `s` is a piece of a line: it holds neither a line feed nor a carriage return.
pub open spec fn in_line(s: Seq<u8>) -> bool {
    forall|i: int| 0 <= i < s.len() ==> #[trigger] s[i] != '\n' as u8 && s[i] != '\r' as u8
}

/// The column behind `s`, which begins at the column `column`.
spec fn column_after(s: Seq<u8>, tabsize: nat, column: nat) -> nat
    decreases s.len(),
{
    if s.len() == 0 {
        column
    } else if s[0] == 0x09 {
        column_after(s.drop_first(), tabsize, 0)
    } else {
        column_after(s.drop_first(), tabsize, next_column(s[0], tabsize, column))
    }
}

/// What stands behind something is expanded from the column behind it.
proof fn lemma_expanded_both(a: Seq<u8>, b: Seq<u8>, tabsize: nat, column: nat)
    ensures
        expanded(a + b, tabsize, column) == expanded(a, tabsize, column) + expanded(
            b,
            tabsize,
            column_after(a, tabsize, column),
        ),
    decreases a.len(),
{
    if a.len() == 0 {
        assert(a + b =~= b);
        assert(expanded(a, tabsize, column) + expanded(b, tabsize, column) =~= expanded(
            b,
            tabsize,
            column,
        ));
    } else {
        let next = if a[0] == 0x09 {
            0
        } else {
            next_column(a[0], tabsize, column)
        };
        assert((a + b).drop_first() =~= a.drop_first() + b);
        lemma_expanded_both(a.drop_first(), b, tabsize, next);
        assert(expanded(a + b, tabsize, column) =~= expanded(a, tabsize, column) + expanded(
            b,
            tabsize,
            column_after(a, tabsize, column),
        ));
    }
}

/// In a line, the column is what is written so far, counted modulo the size of a tab.
proof fn lemma_column(s: Seq<u8>, tabsize: nat, column: nat)
    requires
        in_line(s),
        column < tabsize,
    ensures
        column_after(s, tabsize, column) < tabsize,
        (column + expanded(s, tabsize, column).len()) % tabsize == column_after(
            s,
            tabsize,
            column,
        ),
    decreases s.len(),
{
    let size = tabsize as int;
    if s.len() == 0 {
        vstd::arithmetic::div_mod::lemma_small_mod(column, tabsize);
    } else {
        let rest = s.drop_first();
        assert forall|i: int| 0 <= i < rest.len() implies #[trigger] rest[i] != '\n' as u8
            && rest[i] != '\r' as u8 by {
            assert(rest[i] == s[i + 1]);
        }
        assert(s[0] != '\n' as u8 && s[0] != '\r' as u8);
        if s[0] == 0x09 {
            lemma_column(rest, tabsize, 0);
            let n = expanded(rest, tabsize, 0).len() as int;
            assert(column + expanded(s, tabsize, column).len() == size + n);
            vstd::arithmetic::div_mod::lemma_mod_add_multiples_vanish(n, size);
        } else {
            let next = next_column(s[0], tabsize, column);
            lemma_column(rest, tabsize, next);
            let n = expanded(rest, tabsize, next).len() as int;
            assert(column + expanded(s, tabsize, column).len() == column + 1 + n);
            if column + 1 >= tabsize {
                vstd::arithmetic::div_mod::lemma_mod_add_multiples_vanish(n, size);
            }
        }
    }
}

/// What follows a tab stands at a tab stop: up to and with any tab of a line, what is written is a
/// multiple of the size of a tab long; and the tab adds one space at least, and that size at most.
pub proof fn law_tab_stops(s: Seq<u8>, tabsize: nat, i: int)
    requires
        tabsize > 0,
        0 <= i < s.len(),
        s[i] == '\t' as u8,
        in_line(s.take(i)),
    ensures
        expanded(s.take(i + 1), tabsize, 0).len() % tabsize == 0,
        ({
            let n = expanded(s.take(i + 1), tabsize, 0).len() - expanded(
                s.take(i),
                tabsize,
                0,
            ).len();
            &&& 1 <= n <= tabsize
            &&& expanded(s.take(i + 1), tabsize, 0) == expanded(s.take(i), tabsize, 0) + run(
                n,
                ' ' as u8,
            )
        }),
{
    let a = s.take(i);
    let tab = seq![s[i]];
    let c = column_after(a, tabsize, 0);
    assert(s.take(i + 1) =~= a + tab);
    lemma_expanded_both(a, tab, tabsize, 0);
    lemma_column(a, tabsize, 0);
    assert(tab.drop_first() =~= Seq::empty());
    assert(expanded(tab.drop_first(), tabsize, 0) =~= Seq::empty());
    assert(expanded(tab, tabsize, c) =~= run(tabsize - c, ' ' as u8));
    let n = expanded(a, tabsize, 0).len() as int;
    let size = tabsize as int;
    vstd::arithmetic::div_mod::lemma_fundamental_div_mod(n, size);
    let q = n / size;
    assert(n + (size - c) == size * (q + 1)) by (nonlinear_arith)
        requires
            n == size * q + c,
    ;
    assert((size * (q + 1)) % size == 0) by {
        vstd::arithmetic::div_mod::lemma_mod_multiples_basic(q + 1, size);
        assert(size * (q + 1) == (q + 1) * size) by (nonlinear_arith);
    }
    assert(expanded(s.take(i + 1), tabsize, 0).len() == n + (size - c));
}

/// A tab behind a piece of a line without tabs is filled with spaces up to the next tab stop, and
/// what follows begins anew.
pub proof fn law_first_tab(a: Seq<u8>, b: Seq<u8>, tabsize: nat)
    requires
        tabsize > 0,
        in_line(a),
        !a.contains('\t' as u8),
    ensures
        expanded(a + seq!['\t' as u8] + b, tabsize, 0) == a + run(
            tabsize - a.len() % tabsize,
            ' ' as u8,
        ) + expanded(b, tabsize, 0),
{
    let tab = seq!['\t' as u8];
    let c = column_after(a, tabsize, 0);
    lemma_expanded_both(a + tab, b, tabsize, 0);
    lemma_expanded_both(a, tab, tabsize, 0);
    lemma_column_both(a, tab, tabsize, 0);
    law_without_tabs(a, tabsize, 0);
    lemma_column(a, tabsize, 0);
    assert(tab.drop_first() =~= Seq::empty());
    assert(expanded(tab.drop_first(), tabsize, 0) =~= Seq::empty());
    assert(column_after(tab.drop_first(), tabsize, 0) == 0);
    assert(column_after(tab, tabsize, c) == 0);
    assert(expanded(tab, tabsize, c) =~= run(tabsize - c, ' ' as u8));
}

proof fn lemma_column_both(a: Seq<u8>, b: Seq<u8>, tabsize: nat, column: nat)
    ensures
        column_after(a + b, tabsize, column) == column_after(
            b,
            tabsize,
            column_after(a, tabsize, column),
        ),
    decreases a.len(),
{
    if a.len() == 0 {
        assert(a + b =~= b);
    } else {
        let next = if a[0] == 0x09 {
            0
        } else {
            next_column(a[0], tabsize, column)
        };
        assert((a + b).drop_first() =~= a.drop_first() + b);
        lemma_column_both(a.drop_first(), b, tabsize, next);
    }
}

/// Lines are expanded each for itself.
pub proof fn law_tabs_by_line(a: Seq<u8>, end: u8, b: Seq<u8>, tabsize: nat)
    requires
        end == '\n' as u8 || end == '\r' as u8,
    ensures
        expanded(a + seq![end] + b, tabsize, 0) == expanded(a, tabsize, 0) + seq![end] + expanded(
            b,
            tabsize,
            0,
        ),
{
    let e = seq![end];
    let c = column_after(a, tabsize, 0);
    lemma_expanded_both(a + e, b, tabsize, 0);
    lemma_expanded_both(a, e, tabsize, 0);
    lemma_column_both(a, e, tabsize, 0);
    assert(e.drop_first() =~= Seq::empty());
    assert(expanded(e.drop_first(), tabsize, 0) =~= Seq::empty());
    assert(column_after(e.drop_first(), tabsize, 0) == 0);
    assert(expanded(e, tabsize, c) =~= e);
}

/// Tabs of no size go.
pub proof fn law_tabs_of_no_size(s: Seq<u8>)
    ensures
        expanded(s, 0, 0) == s.filter(|b: u8| b != '\t' as u8),
    decreases s.len(),
{
    reveal(Seq::filter);
    if s.len() == 0 {
        assert(expanded(s, 0, 0) =~= s.filter(|b: u8| b != '\t' as u8));
    } else {
        let rest = s.drop_first();
        law_tabs_of_no_size(rest);
        let one = seq![s[0]];
        assert(s =~= one + rest);
        Seq::filter_distributes_over_add(one, rest, |b: u8| b != '\t' as u8);
        assert(one.drop_last() =~= Seq::empty());
        assert(one.drop_last().filter(|b: u8| b != '\t' as u8) =~= Seq::empty());
        assert(one.last() == s[0]);
        assert(one.filter(|b: u8| b != '\t' as u8) =~= if s[0] == '\t' as u8 {
            Seq::empty()
        } else {
            one
        });
        assert(expanded(s, 0, 0) =~= s.filter(|b: u8| b != '\t' as u8));
    }
}

/// A tab is of the size that is given, of eight where none is given, and of none where a negative
/// one is given.
pub proof fn law_tab_size(size: Option<isize>)
    ensures
        size is None ==> tab_size(size) == 8,
        size matches Some(n) ==> n >= 0 ==> tab_size(size) == n,
        size matches Some(n) ==> n < 0 ==> tab_size(size) == 0,
{
}

/// Padded with the byte `b` to a width that exceeds the length by `m`: all of it behind, all of it
/// before, or half of it on either side; of an odd number, one more before exactly where the width
/// is odd.
pub proof fn law_padding(s: Seq<u8>, options: ByteInnerPaddingOptions, b: u8)
    requires
        fill_of(options.fillchar) == Ok::<u8, PyException>(b),
    ensures
        ({
            let m = options.width - s.len();
            let before = if m % 2 == 1 && options.width as int % 2 == 1 {
                m / 2 + 1
            } else {
                m / 2
            };
            &&& m > 0 ==> {
                &&& ljust_result(s, options) == Ok::<Seq<u8>, PyException>(s + run(m, b))
                &&& rjust_result(s, options) == Ok::<Seq<u8>, PyException>(run(m, b) + s)
                &&& center_result(s, options) == Ok::<Seq<u8>, PyException>(
                    run(before, b) + s + run(m - before, b),
                )
            }
            &&& m <= 0 ==> {
                &&& ljust_result(s, options) == Ok::<Seq<u8>, PyException>(s)
                &&& rjust_result(s, options) == Ok::<Seq<u8>, PyException>(s)
                &&& center_result(s, options) == Ok::<Seq<u8>, PyException>(s)
            }
        }),
{
    let m = options.width - s.len();
    if m > 0 {
        let before = if m % 2 == 1 && options.width as int % 2 == 1 {
            m / 2 + 1
        } else {
            m / 2
        };
        assert(filled(m, b) =~= run(m, b));
        assert(filled(before, b) =~= run(before, b));
        assert(filled(m - before, b) =~= run(m - before, b));
    } else {
        assert(s + filled(0, b) =~= s);
        assert(filled(0, b) + s =~= s);
    }
}

/// What fills is a single byte, or a space where nothing is given.
pub proof fn law_padding_byte(s: Seq<u8>, options: ByteInnerPaddingOptions)
    ensures
        options.fillchar is None ==> fill_of(options.fillchar) == Ok::<u8, PyException>(' ' as u8),
        options.fillchar matches Some(PyObject::Bytes(v)) ==> v@.len() == 1 ==> fill_of(
            options.fillchar,
        ) == Ok::<u8, PyException>(v@[0]),
        !(options.fillchar is None) && !(options.fillchar matches Some(PyObject::Bytes(v))
            && v@.len() == 1) ==> {
            let refused = Err::<Seq<u8>, PyException>(PyException::BadFillByte);
            &&& ljust_result(s, options) == refused
            &&& rjust_result(s, options) == refused
            &&& center_result(s, options) == refused
        },
{
}

/// Zeros are filled in at the front, or behind a sign.
pub proof fn law_zeros_behind_sign(s: Seq<u8>, width: int)
    ensures
        ({
            let zeros = run(width - s.len(), '0' as u8);
            &&& s.len() > 0 && (s[0] == '+' as u8 || s[0] == '-' as u8) ==> zero_filled(s, width)
                == seq![s[0]] + zeros + s.skip(1)
            &&& s.len() == 0 || (s[0] != '+' as u8 && s[0] != '-' as u8) ==> zero_filled(s, width)
                == zeros + s
        }),
{
    let zeros = run(width - s.len(), '0' as u8);
    if sign_len(s) == 1 {
        assert(zero_filled(s, width) =~= seq![s[0]] + zeros + s.skip(1));
    } else {
        assert(zero_filled(s, width) =~= zeros + s);
    }
}

/// A negative limit of replacements is none, and so is one that is not given.
pub proof fn law_replace_limit(s: Seq<u8>, from: Seq<u8>, to: Seq<u8>, count: Option<isize>)
    ensures
        count is None ==> replace_limit(count) == -1,
        count matches Some(n) ==> replace_limit(count) == n,
        replace_limit(count) < 0 ==> replaced(s, from, to, replace_limit(count)) == replaced(
            s,
            from,
            to,
            -1,
        ),
{
    if replace_limit(count) < 0 {
        lemma_replace_unlimited(s, from, to, replace_limit(count));
    }
}

proof fn lemma_replace_unlimited(s: Seq<u8>, from: Seq<u8>, to: Seq<u8>, count: int)
    requires
        count < 0,
    ensures
        replaced_occurrences(s, from, to, count) == replaced_occurrences(s, from, to, -1),
        interleaved(s, to, count) == interleaved(s, to, -1),
    decreases s.len(),
{
    lemma_first_exists(s, from);
    if let Some(i) = first_occurrence(s, from) {
        if from.len() > 0 {
            lemma_replace_unlimited(s.skip(i + from.len()), from, to, count);
        }
    }
    if s.len() > 0 {
        lemma_replace_unlimited(s.drop_first(), from, to, count);
    }
}

/// To replace nothing puts what replaces it before each byte and at the end, as often as the limit
/// allows.
pub proof fn law_replace_empty(b: u8, rest: Seq<u8>, to: Seq<u8>, count: int)
    ensures
        ({
            let nothing = Seq::<u8>::empty();
            let next = if count > 0 {
                count - 1
            } else {
                -1
            };
            &&& count != 0 ==> replaced(nothing, nothing, to, count) == to
            &&& count != 0 ==> replaced(seq![b] + rest, nothing, to, count) == to + seq![b]
                + replaced(rest, nothing, to, next)
            &&& replaced(rest, nothing, to, 0) == rest
        }),
{
    let s = seq![b] + rest;
    assert(s.drop_first() =~= rest);
    if count < 0 {
        lemma_replace_unlimited(rest, Seq::empty(), to, count);
    }
}

/// To translate with deletions is to delete first and to look up what is left.
pub proof fn law_translate_deletes_first(s: Seq<u8>, table: Seq<u8>, delete: Seq<u8>)
    ensures
        translated(s, table, delete) == translated(
            s.filter(|b: u8| !delete.contains(b)),
            table,
            Seq::empty(),
        ),
    decreases s.len(),
{
    reveal(Seq::filter);
    if s.len() > 0 {
        law_translate_deletes_first(s.drop_last(), table, delete);
        let kept = s.drop_last().filter(|b: u8| !delete.contains(b));
        if !delete.contains(s.last()) {
            assert(kept.push(s.last()).drop_last() =~= kept);
        }
    }
}

/// A translation is by the table that is given, of two hundred and fifty-six bytes, or by none; and
/// it deletes the bytes that are given, or none.
pub proof fn law_translate_arguments(s: Seq<u8>, options: ByteInnerTranslateOptions)
    ensures
        options.table is None && options.delete is None ==> translate_result(s, options) == Ok::<
            Seq<u8>,
            PyException,
        >(s),
        options.table matches Some(PyObject::Bytes(t)) ==> t@.len() == 256 && options.delete is None
            ==> translate_result(s, options) == Ok::<Seq<u8>, PyException>(
            Seq::new(s.len(), |i: int| t@[s[i] as int]),
        ),
        options.table matches Some(PyObject::Bytes(t)) ==> t@.len() != 256 ==> translate_result(
            s,
            options,
        ) == Err::<Seq<u8>, PyException>(PyException::BadTranslationTable),
        options.table matches Some(PyObject::Bytes(t)) ==> (options.delete matches Some(
            PyObject::Bytes(d),
        ) ==> t@.len() == 256 ==> translate_result(s, options) == Ok::<Seq<u8>, PyException>(
            translated(s, t@, d@),
        )),
        options.delete matches Some(PyObject::Bytes(d)) ==> options.table is None
            ==> translate_result(s, options) == Ok::<Seq<u8>, PyException>(
            s.filter(|b: u8| !d@.contains(b)),
        ),
        options.delete matches Some(d) ==> !(d is Bytes) && options.table is None
            ==> translate_result(s, options) == Err::<Seq<u8>, PyException>(
            PyException::NotBytesLike,
        ),
        options.table matches Some(t) ==> !(t is Bytes) ==> translate_result(s, options) == Err::<
            Seq<u8>,
            PyException,
        >(PyException::NotBytesLike),
{
    law_translate_identity(s);
    if let Some(PyObject::Bytes(t)) = options.table {
        law_translated(s, t@);
    }
    if let Some(PyObject::Bytes(d)) = options.delete {
        crate::laws::editing::law_translate_deletes(s, d@);
    }
}

/// The table of `maketrans` maps a byte to what stands where it first stands in the source, and to
/// itself where it does not stand in it.
pub proof fn law_maketrans_first(source: Seq<u8>, to: Seq<u8>, k: int, b: u8)
    requires
        source.len() == to.len(),
    ensures
        ({
            let table = maketrans_result(source, to)->Ok_0;
            &&& maketrans_result(source, to) is Ok
            &&& table.len() == 256
            &&& 0 <= k < source.len() && source[k] == b && !source.take(k).contains(b)
                ==> table[b as int] == to[k]
            &&& !source.contains(b) ==> table[b as int] == b
        }),
{
    let table = maketrans_result(source, to)->Ok_0;
    assert(table[b as int] == mapped_byte(source, to, b));
    if 0 <= k < source.len() && source[k] == b && !source.take(k).contains(b) {
        assert forall|j: int| 0 <= j < k implies source[j] != b by {
            assert(source.take(k)[j] == source[j]);
        }
        assert(first_byte_at(source, b, k));
        let j = choose|j: int| first_byte_at(source, b, j);
        assert(first_byte_at(source, b, j));
        assert(j == k);
    }
    if !source.contains(b) {
        if exists|j: int| first_byte_at(source, b, j) {
            let j = choose|j: int| first_byte_at(source, b, j);
            assert(source[j] == b);
        }
    }
}

/// Sequences of different lengths make no table.
pub proof fn law_maketrans_lengths(source: Seq<u8>, to: Seq<u8>)
    requires
        source.len() != to.len(),
    ensures
        maketrans_result(source, to) == Err::<Seq<u8>, PyException>(PyException::MaketransLengths),
{
}

} // verus!
