//! Laws of padding, replacing, translating and expanding.
use crate::edit::{
    center_result, expanded, fill_of, identity_table, interleaved, left_margin,
    ljust_result, maketrans_result, margin, mapped_byte, next_column, replaced,
    rjust_result, sign_len, translated, zero_filled,
    ByteInnerPaddingOptions,
};
use crate::laws::pieces::lemma_joined_front;
use crate::parts::{fewer, joined, split_parts};
use crate::search::{
    contained, first_byte_at, first_occurrence, lemma_first_exists, occurs_at,
};
use vstd::prelude::*;

verus! {

/// The length `len`, or the width, where that is more.
pub open spec fn padded_len(len: nat, width: int) -> int {
    if width > len {
        width
    } else {
        len as int
    }
}

/// Padded to a width, a sequence is that long, unless it is longer by itself; it is kept at the
/// start, at the end, or in the middle; and what is added is the byte that fills.
pub proof fn law_padded(s: Seq<u8>, options: ByteInnerPaddingOptions)
    requires
        fill_of(options.fillchar) is Ok,
    ensures
        ({
            let b = fill_of(options.fillchar)->Ok_0;
            let n = padded_len(s.len(), options.width as int);
            let l = ljust_result(s, options)->Ok_0;
            let r = rjust_result(s, options)->Ok_0;
            let c = center_result(s, options)->Ok_0;
            let left = left_margin(margin(s, options.width as int), options.width as int);
            &&& l.len() == n && r.len() == n && c.len() == n
            &&& l.take(s.len() as int) == s
            &&& r.skip(n - s.len()) == s
            &&& c.subrange(left, left + s.len()) == s
            &&& forall|i: int| s.len() <= i < n ==> l[i] == b
            &&& forall|i: int| 0 <= i < n - s.len() ==> r[i] == b
            &&& forall|i: int| 0 <= i < left || left + s.len() <= i < n ==> c[i] == b
        }),
{
    let n = padded_len(s.len(), options.width as int);
    let l = ljust_result(s, options)->Ok_0;
    let r = rjust_result(s, options)->Ok_0;
    let c = center_result(s, options)->Ok_0;
    let left = left_margin(margin(s, options.width as int), options.width as int);
    assert(l.take(s.len() as int) =~= s);
    assert(r.skip(n - s.len()) =~= s);
    assert(c.subrange(left, left + s.len()) =~= s);
}

/// Centered, a sequence has as much on its left as on its right, or one byte more on one side.
pub proof fn law_centered(s: Seq<u8>, width: int)
    ensures
        ({
            let m = margin(s, width);
            let left = left_margin(m, width);
            &&& 0 <= left <= m
            &&& -1 <= left - (m - left) <= 1
        }),
{
}

/// Filled with zeros to a width, a sequence is that long, unless it is longer by itself; its sign
/// stays at its start, and the rest at its end.
pub proof fn law_zero_filled(s: Seq<u8>, width: int)
    ensures
        ({
            let t = zero_filled(s, width);
            let n = padded_len(s.len(), width);
            let sign = sign_len(s);
            &&& t.len() == n
            &&& t.take(sign) == s.take(sign)
            &&& t.skip(n - s.len() + sign) == s.skip(sign)
            &&& forall|i: int| sign <= i < sign + n - s.len() ==> t[i] == 0x30
        }),
{
    let t = zero_filled(s, width);
    let n = padded_len(s.len(), width);
    let sign = sign_len(s);
    assert(t.take(sign) =~= s.take(sign));
    assert(t.skip(n - s.len() + sign) =~= s.skip(sign));
}

/// To replace occurrences is to split at them and to join with what replaces them.
pub proof fn law_replace_is_split_join(s: Seq<u8>, from: Seq<u8>, to: Seq<u8>, count: int)
    requires
        from.len() > 0,
    ensures
        split_parts(s, from, count).len() > 0,
        replaced(s, from, to, count) == joined(to, split_parts(s, from, count)),
    decreases s.len(),
{
    lemma_first_exists(s, from);
    if let Some(i) = first_occurrence(s, from) {
        if count != 0 {
            let rest = s.skip(i + from.len());
            law_replace_is_split_join(rest, from, to, fewer(count));
            lemma_joined_front(to, s.take(i), split_parts(rest, from, fewer(count)));
        }
    }
}

/// Nothing changes where nothing is replaced: with a limit of zero, or where what is to be replaced
/// does not occur.
pub proof fn law_replace_nothing(s: Seq<u8>, from: Seq<u8>, to: Seq<u8>, count: int)
    ensures
        replaced(s, from, to, 0) == s,
        !contained(s, from) ==> replaced(s, from, to, count) == s,
{
    lemma_first_exists(s, from);
    if from.len() == 0 {
        assert(s.subrange(0, 0) =~= from);
        assert(occurs_at(s, from, 0));
    }
}

/// To replace something by itself changes nothing.
pub proof fn law_replace_same(s: Seq<u8>, from: Seq<u8>, count: int)
    ensures
        replaced(s, from, from, count) == s,
    decreases s.len(),
{
    if from.len() > 0 {
        law_replace_is_split_join(s, from, from, count);
        crate::laws::pieces::law_split_join(s, from, count);
    } else {
        lemma_interleaved_nothing(s, from, count);
    }
}

proof fn lemma_interleaved_nothing(s: Seq<u8>, to: Seq<u8>, count: int)
    requires
        to.len() == 0,
    ensures
        interleaved(s, to, count) == s,
    decreases s.len(),
{
    if count != 0 && s.len() > 0 {
        lemma_interleaved_nothing(s.drop_first(), to, fewer(count));
        assert(to + seq![s[0]] + s.drop_first() =~= s);
    } else {
        assert(interleaved(s, to, count) =~= s);
    }
}

/// What is translated without deletions keeps its length, and each byte is looked up in the table.
pub proof fn law_translated(s: Seq<u8>, table: Seq<u8>)
    ensures
        translated(s, table, Seq::empty()) == Seq::new(s.len(), |i: int| table[s[i] as int]),
    decreases s.len(),
{
    let t = Seq::new(s.len(), |i: int| table[s[i] as int]);
    if s.len() > 0 {
        law_translated(s.drop_last(), table);
    }
    assert(translated(s, table, Seq::empty()) =~= t);
}

/// Without a table and without deletions, nothing changes.
pub proof fn law_translate_identity(s: Seq<u8>)
    ensures
        translated(s, identity_table(), Seq::empty()) == s,
{
    law_translated(s, identity_table());
    assert(translated(s, identity_table(), Seq::empty()) =~= s);
}

/// Without a table, those bytes are left that are not deleted, in their order.
pub proof fn law_translate_deletes(s: Seq<u8>, delete: Seq<u8>)
    ensures
        translated(s, identity_table(), delete) == s.filter(|b: u8| !delete.contains(b)),
    decreases s.len(),
{
    reveal(Seq::filter);
    if s.len() > 0 {
        law_translate_deletes(s.drop_last(), delete);
        assert(identity_table()[s.last() as int] == s.last());
    } else {
        assert(translated(s, identity_table(), delete) =~= s.filter(
            |b: u8| !delete.contains(b),
        ));
    }
}

/// The table of `maketrans` maps the bytes of the one sequence to those of the other, where each
/// stands in it once, and every other byte to itself.
pub proof fn law_maketrans(source: Seq<u8>, to: Seq<u8>, b: u8)
    requires
        source.len() == to.len(),
        source.no_duplicates(),
    ensures
        ({
            let table = maketrans_result(source, to)->Ok_0;
            &&& maketrans_result(source, to) is Ok
            &&& table.len() == 256
            &&& forall|k: int| 0 <= k < source.len() ==> table[#[trigger] source[k] as int] == to[k]
            &&& !source.contains(b) ==> table[b as int] == b
        }),
{
    let table = maketrans_result(source, to)->Ok_0;
    assert forall|k: int| 0 <= k < source.len() implies table[#[trigger] source[k] as int]
        == to[k] by {
        assert(first_byte_at(source, source[k], k));
        let j = choose|j: int| first_byte_at(source, source[k], j);
        assert(first_byte_at(source, source[k], j));
        assert(j == k);
        assert(table[source[k] as int] == mapped_byte(source, to, source[k]));
    }
    if !source.contains(b) {
        assert(table[b as int] == mapped_byte(source, to, b));
        if exists|j: int| first_byte_at(source, b, j) {
            let j = choose|j: int| first_byte_at(source, b, j);
            assert(source[j] == b);
        }
    }
}

/// No tab is left where tabs are expanded.
pub proof fn law_no_tabs_left(s: Seq<u8>, tabsize: nat, column: nat)
    ensures
        !expanded(s, tabsize, column).contains(0x09),
    decreases s.len(),
{
    let t = expanded(s, tabsize, column);
    if s.len() > 0 {
        let tail = if s[0] == 0x09 {
            expanded(s.drop_first(), tabsize, 0)
        } else {
            expanded(s.drop_first(), tabsize, next_column(s[0], tabsize, column))
        };
        if s[0] == 0x09 {
            law_no_tabs_left(s.drop_first(), tabsize, 0);
        } else {
            law_no_tabs_left(s.drop_first(), tabsize, next_column(s[0], tabsize, column));
        }
        let n = t.len() - tail.len();
        assert forall|i: int| 0 <= i < t.len() implies t[i] != 0x09 by {
            if i >= n {
                assert(t[i] == tail[i - n]);
                assert(tail.contains(tail[i - n]));
            }
        }
    }
}

/// What holds no tab is not changed by expanding tabs.
pub proof fn law_without_tabs(s: Seq<u8>, tabsize: nat, column: nat)
    requires
        !s.contains(0x09),
    ensures
        expanded(s, tabsize, column) == s,
    decreases s.len(),
{
    if s.len() > 0 {
        let rest = s.drop_first();
        assert(s.contains(s[0]));
        assert forall|i: int| 0 <= i < rest.len() implies rest[i] != 0x09 by {
            assert(s.contains(s[i + 1]));
        }
        law_without_tabs(rest, tabsize, next_column(s[0], tabsize, column));
        assert(seq![s[0]] + rest =~= s);
    } else {
        assert(expanded(s, tabsize, column) =~= s);
    }
}

} // verus!
