//! Laws of splitting, joining, stripping and cutting.
use crate::ascii::{all_of, is_space};
use crate::bytearray::{partitioned, rpartitioned};
use crate::parts::{
    fewer, joined, lemma_rword, lemma_word, line_end_len, line_ends, lines, rsplit_parts,
    rsplit_words, split_parts, split_words,
};
use crate::search::{
    contained, first_occurrence, last_occurrence, lemma_first_exists, lemma_last_exists, occurs_at,
};
use crate::span::{
    lemma_rspan, lemma_rspan_exact, lemma_span, lemma_span_exact, lemma_whitespace, lstripped,
    rspan_len, rstripped, span_len, stripped, whitespace, without_prefix, without_suffix,
};
use vstd::prelude::*;

verus! {

/// Put together again, what `partition` yields is the whole.
pub proof fn law_partition_whole(s: Seq<u8>, sep: Seq<u8>)
    requires
        sep.len() > 0,
    ensures
        partitioned(s, sep) is Ok,
        rpartitioned(s, sep) is Ok,
        ({
            let (front, mid, back) = partitioned(s, sep)->Ok_0;
            front + mid + back == s
        }),
        ({
            let (front, mid, back) = rpartitioned(s, sep)->Ok_0;
            front + mid + back == s
        }),
{
    lemma_first_exists(s, sep);
    lemma_last_exists(s, sep);
    let (front, mid, back) = partitioned(s, sep)->Ok_0;
    if let Some(i) = first_occurrence(s, sep) {
        lemma_cut(s, sep, i);
    }
    assert(front + mid + back =~= s);
    let (front, mid, back) = rpartitioned(s, sep)->Ok_0;
    if let Some(i) = last_occurrence(s, sep) {
        lemma_cut(s, sep, i);
    }
    assert(front + mid + back =~= s);
}

/// A sequence is what stands before an occurrence, the occurrence, and what stands behind it.
proof fn lemma_cut(s: Seq<u8>, sep: Seq<u8>, i: int)
    requires
        occurs_at(s, sep, i),
    ensures
        s.take(i) + sep + s.skip(i + sep.len()) == s,
{
    let t = s.take(i) + sep + s.skip(i + sep.len());
    assert(t.len() == s.len());
    assert forall|j: int| 0 <= j < s.len() implies t[j] == s[j] by {
        if i <= j < i + sep.len() {
            assert(s.subrange(i, i + sep.len())[j - i] == s[j]);
        }
    }
    assert(t =~= s);
}

/// Where the separator does not occur, `partition` puts everything first and `rpartition` everything
/// last; where it occurs, it stands in the middle.
pub proof fn law_partition_middle(s: Seq<u8>, sep: Seq<u8>)
    requires
        sep.len() > 0,
    ensures
        contained(s, sep) ==> partitioned(s, sep)->Ok_0.1 == sep && rpartitioned(s, sep)->Ok_0.1
            == sep,
        !contained(s, sep) ==> partitioned(s, sep)->Ok_0 == (s, Seq::<u8>::empty(), Seq::<
            u8,
        >::empty()),
        !contained(s, sep) ==> rpartitioned(s, sep)->Ok_0 == (
            Seq::<u8>::empty(),
            Seq::<u8>::empty(),
            s,
        ),
        !contained(partitioned(s, sep)->Ok_0.0, sep),
        !contained(rpartitioned(s, sep)->Ok_0.2, sep),
{
    lemma_first_exists(s, sep);
    lemma_last_exists(s, sep);
    if contained(s, sep) {
        let i = first_occurrence(s, sep)->0;
        let front = s.take(i);
        assert forall|j: int| !occurs_at(front, sep, j) by {
            if occurs_at(front, sep, j) {
                assert(front.subrange(j, j + sep.len()) =~= s.subrange(j, j + sep.len()));
                assert(occurs_at(s, sep, j));
            }
        }
        let k = last_occurrence(s, sep)->0;
        let back = s.skip(k + sep.len());
        assert forall|j: int| !occurs_at(back, sep, j) by {
            if occurs_at(back, sep, j) {
                let at = j + k + sep.len();
                assert(back.subrange(j, j + sep.len()) =~= s.subrange(at, at + sep.len()));
                assert(occurs_at(s, sep, at));
            }
        }
    }
}

/// One part in front of others.
pub proof fn lemma_joined_front(sep: Seq<u8>, part: Seq<u8>, rest: Seq<Seq<u8>>)
    requires
        rest.len() > 0,
    ensures
        joined(sep, seq![part] + rest) == part + sep + joined(sep, rest),
    decreases rest.len(),
{
    let all = seq![part] + rest;
    if rest.len() == 1 {
        assert(all.drop_last() =~= seq![part]);
        assert(joined(sep, seq![part]) == part);
        assert(joined(sep, all) =~= part + sep + rest[0]);
    } else {
        assert(all.drop_last() =~= seq![part] + rest.drop_last());
        lemma_joined_front(sep, part, rest.drop_last());
        assert(joined(sep, all) =~= part + sep + joined(sep, rest));
    }
}

/// Joined with the separator, what `split` yields is the whole, whatever the limit.
pub proof fn law_split_join(s: Seq<u8>, sep: Seq<u8>, max: int)
    ensures
        split_parts(s, sep, max).len() > 0,
        joined(sep, split_parts(s, sep, max)) == s,
    decreases s.len(),
{
    lemma_first_exists(s, sep);
    if let Some(i) = first_occurrence(s, sep) {
        if max != 0 && sep.len() > 0 {
            let rest = s.skip(i + sep.len());
            law_split_join(rest, sep, fewer(max));
            lemma_joined_front(sep, s.take(i), split_parts(rest, sep, fewer(max)));
            lemma_cut(s, sep, i);
        }
    }
}

/// Joined with the separator, what `rsplit` yields is the whole, whatever the limit.
pub proof fn law_rsplit_join(s: Seq<u8>, sep: Seq<u8>, max: int)
    ensures
        rsplit_parts(s, sep, max).len() > 0,
        joined(sep, rsplit_parts(s, sep, max)) == s,
    decreases s.len(),
{
    lemma_last_exists(s, sep);
    if let Some(i) = last_occurrence(s, sep) {
        if max != 0 && sep.len() > 0 {
            let rest = s.take(i);
            law_rsplit_join(rest, sep, fewer(max));
            let parts = rsplit_parts(rest, sep, fewer(max));
            assert(parts.push(s.skip(i + sep.len())).drop_last() =~= parts);
            lemma_cut(s, sep, i);
        }
    }
}

/// A limit of `max` splits yields one part more at most.
pub proof fn law_split_limit(s: Seq<u8>, sep: Seq<u8>, max: int)
    requires
        max >= 0,
    ensures
        split_parts(s, sep, max).len() <= max + 1,
        rsplit_parts(s, sep, max).len() <= max + 1,
        split_words(s, max).len() <= max + 1,
        rsplit_words(s, max).len() <= max + 1,
    decreases max,
{
    if max > 0 {
        if let Some(i) = first_occurrence(s, sep) {
            law_split_limit(s.skip(i + sep.len()), sep, max - 1);
        }
        if let Some(i) = last_occurrence(s, sep) {
            law_split_limit(s.take(i), sep, max - 1);
        }
        let t = lstripped(s, whitespace());
        law_split_limit(t.skip(span_len(t, whitespace(), false) as int), sep, max - 1);
        let t = rstripped(s, whitespace());
        law_split_limit(t.take(t.len() - rspan_len(t, whitespace(), false)), sep, max - 1);
    }
}

/// Without a limit, the separator occurs in no part.
pub proof fn law_split_complete(s: Seq<u8>, sep: Seq<u8>, max: int, k: int)
    requires
        sep.len() > 0,
        max < 0,
        0 <= k < split_parts(s, sep, max).len(),
    ensures
        !contained(split_parts(s, sep, max)[k], sep),
    decreases s.len(),
{
    lemma_first_exists(s, sep);
    if let Some(i) = first_occurrence(s, sep) {
        let rest = split_parts(s.skip(i + sep.len()), sep, max);
        if k == 0 {
            law_partition_middle(s, sep);
            assert(split_parts(s, sep, max)[0] == s.take(i));
        } else {
            law_split_complete(s.skip(i + sep.len()), sep, max, k - 1);
            assert(split_parts(s, sep, max)[k] == rest[k - 1]);
        }
    }
}

/// Without a limit, no word holds whitespace.
pub proof fn law_words(s: Seq<u8>, max: int, k: int, j: int)
    requires
        max < 0,
        0 <= k < split_words(s, max).len(),
        0 <= j < split_words(s, max)[k].len(),
    ensures
        !whitespace().contains(split_words(s, max)[k][j]),
    decreases s.len(),
{
    let t = lstripped(s, whitespace());
    let n = span_len(t, whitespace(), false) as int;
    lemma_word(s);
    lemma_span_exact(t, whitespace(), false);
    if t.len() > 0 {
        let rest = split_words(t.skip(n), max);
        if k == 0 {
            assert(split_words(s, max)[0] == t.take(n));
            assert(t.take(n)[j] == t[j]);
        } else {
            assert(split_words(s, max)[k] == rest[k - 1]);
            law_words(t.skip(n), max, k - 1, j);
        }
    }
}

/// No word is empty.
pub proof fn law_words_not_empty(s: Seq<u8>, max: int, k: int)
    requires
        0 <= k < split_words(s, max).len(),
    ensures
        split_words(s, max)[k].len() > 0,
    decreases s.len(),
{
    let t = lstripped(s, whitespace());
    let n = span_len(t, whitespace(), false) as int;
    lemma_word(s);
    if t.len() > 0 && max != 0 {
        let rest = split_words(t.skip(n), fewer(max));
        if k == 0 {
            assert(split_words(s, max)[0] == t.take(n));
        } else {
            assert(split_words(s, max)[k] == rest[k - 1]);
            law_words_not_empty(t.skip(n), fewer(max), k - 1);
        }
    }
}

/// Without a limit, no word holds whitespace, nor is one empty, where words are split from the right.
pub proof fn law_words_from_right(s: Seq<u8>, max: int, k: int)
    requires
        max < 0,
        0 <= k < rsplit_words(s, max).len(),
    ensures
        rsplit_words(s, max)[k].len() > 0,
        forall|j: int|
            0 <= j < rsplit_words(s, max)[k].len() ==> !whitespace().contains(
                #[trigger] rsplit_words(s, max)[k][j],
            ),
    decreases s.len(),
{
    let t = rstripped(s, whitespace());
    let n = rspan_len(t, whitespace(), false) as int;
    lemma_rword(s);
    lemma_rspan_exact(t, whitespace(), false);
    if t.len() > 0 {
        let rest = rsplit_words(t.take(t.len() - n), max);
        let word = t.skip(t.len() - n);
        if k == rest.len() {
            assert(rsplit_words(s, max)[k] == word);
            assert forall|j: int| 0 <= j < word.len() implies !whitespace().contains(
                #[trigger] word[j],
            ) by {
                assert(word[j] == t[t.len() - n + j]);
            }
        } else {
            assert(rsplit_words(s, max)[k] == rest[k]);
            law_words_from_right(t.take(t.len() - n), max, k);
        }
    }
}

/// One part in front of others, with nothing between them.
proof fn lemma_joined_front_plain(part: Seq<u8>, rest: Seq<Seq<u8>>)
    ensures
        joined(Seq::empty(), seq![part] + rest) == part + joined(Seq::empty(), rest),
{
    if rest.len() > 0 {
        lemma_joined_front(Seq::empty(), part, rest);
        assert(part + Seq::<u8>::empty() + joined(Seq::empty(), rest) =~= part + joined(
            Seq::empty(),
            rest,
        ));
    } else {
        assert(seq![part] + rest =~= seq![part]);
        assert(part + joined(Seq::empty(), rest) =~= part);
    }
}

/// Lines with their ends, one behind the other, are the whole.
pub proof fn law_lines_whole(s: Seq<u8>)
    ensures
        joined(Seq::empty(), lines(s, true)) == s,
    decreases s.len(),
{
    if s.len() > 0 {
        lemma_span_exact(s, line_ends(), false);
        let n = span_len(s, line_ends(), false) as int;
        let e = n + line_end_len(s, n);
        law_lines_whole(s.skip(e));
        lemma_joined_front_plain(s.take(e), lines(s.skip(e), true));
        assert(s.take(e) + s.skip(e) =~= s);
    } else {
        assert(joined(Seq::empty(), lines(s, true)) =~= s);
    }
}

/// There are as many lines with their ends as without, and each without is the start of the one
/// with; none without its end holds a byte that ends a line.
pub proof fn law_lines_ends(s: Seq<u8>, k: int)
    ensures
        lines(s, true).len() == lines(s, false).len(),
        0 <= k < lines(s, false).len() ==> {
            &&& lines(s, false)[k].is_prefix_of(lines(s, true)[k])
            &&& forall|j: int|
                0 <= j < lines(s, false)[k].len() ==> !line_ends().contains(
                    #[trigger] lines(s, false)[k][j],
                )
        },
    decreases s.len(),
{
    if s.len() > 0 {
        lemma_span_exact(s, line_ends(), false);
        let n = span_len(s, line_ends(), false) as int;
        let e = n + line_end_len(s, n);
        law_lines_ends(s.skip(e), k - 1);
        if k == 0 {
            assert(lines(s, false)[0] == s.take(n));
            assert(lines(s, true)[0] == s.take(e));
            assert(s.take(n) =~= s.take(e).subrange(0, n));
        } else if k > 0 && k < lines(s, false).len() {
            assert(lines(s, false)[k] == lines(s.skip(e), false)[k - 1]);
            assert(lines(s, true)[k] == lines(s.skip(e), true)[k - 1]);
        }
    }
}

/// Whether `e` ends a line: a line feed, a carriage return, or the one behind the other.
pub open spec fn is_line_end(e: Seq<u8>) -> bool {
    e == seq![0x0au8] || e == seq![0x0du8] || e == seq![0x0du8, 0x0au8]
}

/// With their ends kept, no line is empty; each is the line without its end, and the end behind it;
/// every line but the last has an end, which is a line feed, a carriage return, or both together;
/// and no carriage return is parted from the line feed behind it.
pub proof fn law_lines_shape(s: Seq<u8>, k: int)
    requires
        0 <= k < lines(s, true).len(),
    ensures
        k < lines(s, false).len(),
        lines(s, true)[k].len() > 0,
        ({
            let line = lines(s, true)[k];
            let bare = lines(s, false)[k];
            let end = line.skip(bare.len() as int);
            &&& line == bare + end
            &&& end.len() > 0 ==> is_line_end(end)
            &&& k + 1 < lines(s, true).len() ==> {
                &&& is_line_end(end)
                &&& !(line.last() == 0x0d && lines(s, true)[k + 1][0] == 0x0a)
            }
        }),
    decreases s.len(),
{
    lemma_span_exact(s, line_ends(), false);
    let n = span_len(s, line_ends(), false) as int;
    let e = n + line_end_len(s, n);
    let rest = s.skip(e);
    let full = lines(s, true);
    law_lines_ends(s, k);
    if k == 0 {
        assert(full[0] == s.take(e));
        assert(lines(s, false)[0] == s.take(n));
        let end = full[0].skip(n);
        assert(full[0] =~= s.take(n) + end);
        if n < s.len() {
            assert(line_ends()[0] == 0x0a && line_ends()[1] == 0x0d);
            assert(end =~= if e == n + 2 {
                seq![0x0du8, 0x0au8]
            } else {
                seq![s[n]]
            });
        }
        if 1 < full.len() {
            law_lines_shape(rest, 0);
            lemma_span_exact(rest, line_ends(), false);
            assert(full[1] == lines(rest, true)[0]);
            assert(full[1][0] == s[e]);
        }
    } else {
        law_lines_shape(rest, k - 1);
        assert(full[k] == lines(rest, true)[k - 1]);
        assert(lines(s, false)[k] == lines(rest, false)[k - 1]);
        if k + 1 < full.len() {
            assert(full[k + 1] == lines(rest, true)[k]);
        }
    }
}

/// Without its end, a line holds neither a line feed nor a carriage return.
pub proof fn law_lines_hold_no_ends(s: Seq<u8>, k: int, j: int)
    requires
        0 <= k < lines(s, false).len(),
        0 <= j < lines(s, false)[k].len(),
    ensures
        lines(s, false)[k][j] != '\n' as u8,
        lines(s, false)[k][j] != '\r' as u8,
{
    law_lines_ends(s, k);
    assert(line_ends()[0] == '\n' as u8 && line_ends()[1] == '\r' as u8);
}

/// What stands before the first end of a line is the first line, and what stands behind it holds the
/// others.
pub proof fn law_lines_cut(a: Seq<u8>, end: Seq<u8>, b: Seq<u8>)
    requires
        forall|i: int| 0 <= i < a.len() ==> #[trigger] a[i] != '\n' as u8 && a[i] != '\r' as u8,
        is_line_end(end),
        end == seq!['\r' as u8] && b.len() > 0 ==> b[0] != '\n' as u8,
    ensures
        lines(a + end + b, false) == seq![a] + lines(b, false),
        lines(a + end + b, true) == seq![a + end] + lines(b, true),
{
    let s = a + end + b;
    let ends = line_ends();
    assert(ends[0] == 0x0a && ends[1] == 0x0d);
    assert forall|j: int| 0 <= j < a.len() implies ends.contains(#[trigger] s[j]) == false by {
        assert(s[j] == a[j]);
    }
    assert(s[a.len() as int] == end[0]);
    assert(ends.contains(end[0]));
    lemma_span(s, ends, false, a.len());
    let n = a.len() as int;
    if end.len() == 2 {
        assert(s[n + 1] == end[1]);
    } else if n + 1 < s.len() {
        assert(s[n + 1] == b[0]);
    }
    let e = n + line_end_len(s, n);
    assert(s.take(n) =~= a);
    assert(s.take(e) =~= a + end);
    assert(s.skip(e) =~= b);
}

/// A prefix that is put before a sequence can be removed again, and a suffix that is put behind it.
pub proof fn law_affix_removed(s: Seq<u8>, affix: Seq<u8>)
    ensures
        without_prefix(affix + s, affix) == s,
        without_suffix(s + affix, affix) == s,
{
    assert((affix + s).subrange(0, affix.len() as int) =~= affix);
    assert((affix + s).skip(affix.len() as int) =~= s);
    assert((s + affix).subrange(s.len() as int, (s + affix).len() as int) =~= affix);
    assert((s + affix).take(s.len() as int) =~= s);
}

/// Put back, a removed prefix and a removed suffix make up what was there.
pub proof fn law_affix_restored(s: Seq<u8>, affix: Seq<u8>)
    ensures
        affix.is_prefix_of(s) ==> affix + without_prefix(s, affix) == s,
        affix.is_suffix_of(s) ==> without_suffix(s, affix) + affix == s,
        !affix.is_prefix_of(s) ==> without_prefix(s, affix) == s,
        !affix.is_suffix_of(s) ==> without_suffix(s, affix) == s,
{
    if affix.is_prefix_of(s) {
        assert(affix + without_prefix(s, affix) =~= s);
    }
    if affix.is_suffix_of(s) {
        assert(without_suffix(s, affix) + affix =~= s);
    }
}

/// Stripped, a sequence is empty, or neither begins nor ends with a byte that is stripped; it is a
/// part of what it was, and the rest are stripped bytes.
pub proof fn law_stripped(s: Seq<u8>, chars: Seq<u8>)
    ensures
        ({
            let t = stripped(s, chars);
            let i = span_len(s, chars, true) as int;
            &&& i + t.len() <= s.len()
            &&& t == s.subrange(i, i + t.len())
            &&& t.len() > 0 ==> !chars.contains(t[0]) && !chars.contains(t.last())
            &&& forall|j: int|
                0 <= j < i || i + t.len() <= j < s.len() ==> chars.contains(#[trigger] s[j])
        }),
{
    lemma_span_exact(s, chars, true);
    let l = lstripped(s, chars);
    lemma_rspan_exact(l, chars, true);
    let t = stripped(s, chars);
    let i = span_len(s, chars, true) as int;
    assert(t =~= s.subrange(i, i + t.len()));
    assert forall|j: int| 0 <= j < i || i + t.len() <= j < s.len() implies chars.contains(
        #[trigger] s[j],
    ) by {
        if j >= i + t.len() {
            assert(l[j - i] == s[j]);
        }
    }
}

/// Stripped of whitespace, nothing is left exactly of what consists of whitespace.
pub proof fn law_blank(s: Seq<u8>)
    requires
        s.len() > 0,
    ensures
        stripped(s, whitespace()).len() == 0 <==> all_of(s, |b: u8| is_space(b)),
{
    law_stripped(s, whitespace());
    let t = stripped(s, whitespace());
    if t.len() == 0 {
        assert forall|i: int| 0 <= i < s.len() implies is_space(#[trigger] s[i]) by {
            lemma_whitespace(s[i]);
        }
    } else {
        let i = span_len(s, whitespace(), true) as int;
        lemma_whitespace(s[i]);
        assert(t[0] == s[i]);
    }
}

/// What is stripped is not stripped further.
pub proof fn law_strip_twice(s: Seq<u8>, chars: Seq<u8>)
    ensures
        stripped(stripped(s, chars), chars) == stripped(s, chars),
        lstripped(lstripped(s, chars), chars) == lstripped(s, chars),
        rstripped(rstripped(s, chars), chars) == rstripped(s, chars),
{
    law_stripped(s, chars);
    let t = stripped(s, chars);
    lemma_span(t, chars, true, 0);
    assert(lstripped(t, chars) =~= t);
    lemma_rspan(t, chars, true, 0);
    assert(rstripped(t, chars) =~= t);
    lemma_span_exact(s, chars, true);
    let l = lstripped(s, chars);
    lemma_span(l, chars, true, 0);
    assert(lstripped(l, chars) =~= l);
    lemma_rspan_exact(s, chars, true);
    let r = rstripped(s, chars);
    lemma_rspan(r, chars, true, 0);
    assert(rstripped(r, chars) =~= r);
}

} // verus!
