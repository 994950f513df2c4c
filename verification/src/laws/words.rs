//! Laws of the words and parts that splitting yields, and of joining and stripping.
use crate::ascii::is_space;
use crate::bytearray::{partitioned, rpartitioned};
use crate::error::PyException;
use crate::laws::finding::stands_between;
use crate::laws::pieces::lemma_joined_front;
use crate::object::PyObject;
use crate::parts::{
    contents_of, fewer, join_result, joined, lemma_rword, lemma_word, rsplit_parts, rsplit_result,
    rsplit_words, split_parts, split_result, split_words, ByteInnerSplitOptions,
};
use crate::search::{
    first_occurrence, last_occurrence, lemma_first_exists, lemma_last_exists, occurs_at,
};
use crate::span::{
    lemma_rspan, lemma_rspan_exact, lemma_span, lemma_span_exact, lemma_whitespace, lstripped,
    rspan_len, rstripped, span_len, strip_set, stripped, whitespace,
};
use vstd::prelude::*;

verus! {

/// Whether `s` is whitespace throughout.
pub open spec fn blank(s: Seq<u8>) -> bool {
    forall|i: int| 0 <= i < s.len() ==> is_space(#[trigger] s[i])
}

/// Whether `s` is not empty and holds no whitespace.
pub open spec fn solid(s: Seq<u8>) -> bool {
    s.len() > 0 && forall|i: int| 0 <= i < s.len() ==> !is_space(#[trigger] s[i])
}

/// What is not whitespace.
pub open spec fn visible() -> spec_fn(u8) -> bool {
    |b: u8| !is_space(b)
}

/// Whitespace at the start does not matter.
proof fn lemma_blank_start(a: Seq<u8>, b: Seq<u8>)
    requires
        blank(a),
    ensures
        lstripped(a + b, whitespace()) == lstripped(b, whitespace()),
{
    let n = span_len(b, whitespace(), true);
    lemma_span_exact(b, whitespace(), true);
    let s = a + b;
    assert forall|j: int| 0 <= j < a.len() + n implies whitespace().contains(#[trigger] s[j])
        == true by {
        if j < a.len() {
            assert(s[j] == a[j]);
            lemma_whitespace(a[j]);
        } else {
            assert(s[j] == b[j - a.len()]);
        }
    }
    if a.len() + n < s.len() {
        assert(s[(a.len() + n) as int] == b[n as int]);
    }
    lemma_span(s, whitespace(), true, a.len() + n);
    assert(s.skip((a.len() + n) as int) =~= b.skip(n as int));
}

/// Whitespace at the end does not matter.
proof fn lemma_blank_end(a: Seq<u8>, b: Seq<u8>)
    requires
        blank(b),
    ensures
        rstripped(a + b, whitespace()) == rstripped(a, whitespace()),
{
    let n = rspan_len(a, whitespace(), true);
    lemma_rspan_exact(a, whitespace(), true);
    let s = a + b;
    assert forall|j: int|
        s.len() - (b.len() + n) <= j < s.len() implies whitespace().contains(#[trigger] s[j])
        == true by {
        if j < a.len() {
            assert(s[j] == a[j]);
        } else {
            assert(s[j] == b[j - a.len()]);
            lemma_whitespace(b[j - a.len()]);
        }
    }
    if b.len() + n < s.len() {
        assert(s[s.len() - 1 - (b.len() + n)] == a[a.len() - 1 - n]);
    }
    lemma_rspan(s, whitespace(), true, b.len() + n);
    assert(s.take(s.len() - (b.len() + n)) =~= a.take(a.len() - n));
}

/// A sequence is whitespace, a word and the rest.
proof fn lemma_first_word(s: Seq<u8>)
    ensures
        ({
            let t = lstripped(s, whitespace());
            let n = span_len(t, whitespace(), false) as int;
            let w = s.len() - t.len();
            &&& 0 <= w
            &&& t == s.skip(w)
            &&& blank(s.take(w))
            &&& t.len() == 0 ==> blank(s)
            &&& t.len() > 0 ==> 0 < n <= t.len() && solid(t.take(n))
            &&& n < t.len() ==> is_space(t[n])
        }),
{
    let t = lstripped(s, whitespace());
    let n = span_len(t, whitespace(), false) as int;
    lemma_word(s);
    lemma_span_exact(s, whitespace(), true);
    lemma_span_exact(t, whitespace(), false);
    let w = s.len() - t.len();
    assert forall|i: int| 0 <= i < w implies is_space(#[trigger] s.take(w)[i]) by {
        lemma_whitespace(s[i]);
    }
    if t.len() == 0 {
        assert(s.take(w) =~= s);
    } else {
        assert forall|i: int| 0 <= i < n implies !is_space(#[trigger] t.take(n)[i]) by {
            lemma_whitespace(t[i]);
        }
        if n < t.len() {
            lemma_whitespace(t[n]);
        }
    }
}

/// A sequence is the rest, a word and whitespace.
proof fn lemma_last_word(s: Seq<u8>)
    ensures
        ({
            let t = rstripped(s, whitespace());
            let n = rspan_len(t, whitespace(), false) as int;
            &&& t.len() <= s.len()
            &&& t == s.take(t.len() as int)
            &&& blank(s.skip(t.len() as int))
            &&& t.len() == 0 ==> blank(s)
            &&& t.len() > 0 ==> 0 < n <= t.len() && solid(t.skip(t.len() - n))
            &&& 0 < n < t.len() ==> is_space(t[t.len() - n - 1])
        }),
{
    let t = rstripped(s, whitespace());
    let n = rspan_len(t, whitespace(), false) as int;
    lemma_rword(s);
    lemma_rspan_exact(s, whitespace(), true);
    lemma_rspan_exact(t, whitespace(), false);
    let tail = s.skip(t.len() as int);
    assert forall|i: int| 0 <= i < tail.len() implies is_space(#[trigger] tail[i]) by {
        lemma_whitespace(s[t.len() + i]);
    }
    if t.len() == 0 {
        assert(tail =~= s);
    } else {
        let word = t.skip(t.len() - n);
        assert forall|i: int| 0 <= i < word.len() implies !is_space(#[trigger] word[i]) by {
            lemma_whitespace(t[t.len() - n + i]);
        }
        if n < t.len() {
            lemma_whitespace(t[t.len() - n - 1]);
        }
    }
}

/// The first word of what begins with a word and whitespace behind it.
proof fn lemma_word_then(word: Seq<u8>, rest: Seq<u8>)
    requires
        solid(word),
        rest.len() > 0 ==> is_space(rest[0]),
    ensures
        lstripped(word + rest, whitespace()) == word + rest,
        span_len(word + rest, whitespace(), false) == word.len(),
{
    let s = word + rest;
    assert(s[0] == word[0]);
    lemma_whitespace(s[0]);
    lemma_span(s, whitespace(), true, 0);
    assert(s.skip(0) =~= s);
    assert forall|j: int| 0 <= j < word.len() implies whitespace().contains(#[trigger] s[j])
        == false by {
        assert(s[j] == word[j]);
        lemma_whitespace(s[j]);
    }
    if rest.len() > 0 {
        assert(s[word.len() as int] == rest[0]);
        lemma_whitespace(rest[0]);
    }
    lemma_span(s, whitespace(), false, word.len());
}

/// The last word of what ends with whitespace and a word behind it.
proof fn lemma_then_word(rest: Seq<u8>, word: Seq<u8>)
    requires
        solid(word),
        rest.len() > 0 ==> is_space(rest.last()),
    ensures
        rstripped(rest + word, whitespace()) == rest + word,
        rspan_len(rest + word, whitespace(), false) == word.len(),
{
    let s = rest + word;
    assert(s.last() == word.last());
    assert(!is_space(word[word.len() - 1]));
    lemma_whitespace(s.last());
    lemma_rspan(s, whitespace(), true, 0);
    assert(s.take(s.len() as int) =~= s);
    assert forall|j: int| s.len() - word.len() <= j < s.len() implies whitespace().contains(
        #[trigger] s[j],
    ) == false by {
        assert(s[j] == word[j - rest.len()]);
        lemma_whitespace(s[j]);
    }
    if rest.len() > 0 {
        assert(s[rest.len() - 1] == rest.last());
        lemma_whitespace(rest.last());
    }
    lemma_rspan(s, whitespace(), false, word.len());
}

/// Whitespace holds no word.
pub proof fn law_no_words(s: Seq<u8>, max: int)
    requires
        blank(s),
    ensures
        split_words(s, max) == Seq::<Seq<u8>>::empty(),
        rsplit_words(s, max) == Seq::<Seq<u8>>::empty(),
{
    lemma_first_word(s);
    lemma_last_word(s);
    let t = lstripped(s, whitespace());
    if t.len() > 0 {
        let n = span_len(t, whitespace(), false) as int;
        assert(t.take(n)[0] == s[s.len() - t.len()]);
    }
    let t = rstripped(s, whitespace());
    if t.len() > 0 {
        let n = rspan_len(t, whitespace(), false) as int;
        assert(t.skip(t.len() - n)[n - 1] == s[t.len() - 1]);
    }
}

/// What holds no whitespace is one word.
pub proof fn law_one_word(s: Seq<u8>, max: int)
    requires
        solid(s),
    ensures
        split_words(s, max) == seq![s],
        rsplit_words(s, max) == seq![s],
{
    let nothing = Seq::<u8>::empty();
    assert(s + nothing =~= s);
    assert(nothing + s =~= s);
    lemma_word_then(s, nothing);
    lemma_then_word(nothing, s);
    law_no_words(nothing, fewer(max));
    assert(s.take(s.len() as int) =~= s);
    assert(s.skip(s.len() as int) =~= nothing);
    assert(s.skip(0) =~= s);
    assert(s.take(0) =~= nothing);
    assert(split_words(s, max) =~= seq![s]);
    assert(rsplit_words(s, max) =~= seq![s]);
}

/// Words are cut at whitespace: those of two sequences with whitespace between them are those of the
/// one and then those of the other.
pub proof fn law_words_cut(a: Seq<u8>, space: u8, b: Seq<u8>)
    requires
        is_space(space),
    ensures
        split_words(a + seq![space] + b, -1) == split_words(a, -1) + split_words(b, -1),
        rsplit_words(a + seq![space] + b, -1) == rsplit_words(a, -1) + rsplit_words(b, -1),
{
    lemma_words_cut(a, space, b);
    lemma_rwords_cut(a, space, b);
}

proof fn lemma_words_cut(a: Seq<u8>, space: u8, b: Seq<u8>)
    requires
        is_space(space),
    ensures
        split_words(a + seq![space] + b, -1) == split_words(a, -1) + split_words(b, -1),
    decreases a.len(),
{
    lemma_first_word(a);
    let t = lstripped(a, whitespace());
    let w = a.len() - t.len();
    let s = a + seq![space] + b;
    if t.len() == 0 {
        assert(s =~= (a + seq![space]) + b);
        lemma_blank_start(a + seq![space], b);
        law_no_words(a, -1);
        assert(split_words(a, -1) + split_words(b, -1) =~= split_words(b, -1));
        assert(split_words(s, -1) == split_words(b, -1));
    } else {
        let n = span_len(t, whitespace(), false) as int;
        let word = t.take(n);
        let rest = t.skip(n) + seq![space] + b;
        assert(s =~= a.take(w) + (word + rest));
        lemma_blank_start(a.take(w), word + rest);
        if t.skip(n).len() > 0 {
            assert(rest[0] == t[n]);
        } else {
            assert(rest[0] == space);
        }
        lemma_word_then(word, rest);
        assert((word + rest).take(n) =~= word);
        assert((word + rest).skip(n) =~= rest);
        lemma_words_cut(t.skip(n), space, b);
        assert(split_words(s, -1) == seq![word] + split_words(rest, -1));
        assert(split_words(a, -1) == seq![word] + split_words(t.skip(n), -1));
        assert(seq![word] + (split_words(t.skip(n), -1) + split_words(b, -1)) =~= (seq![word]
            + split_words(t.skip(n), -1)) + split_words(b, -1));
    }
}

proof fn lemma_rwords_cut(a: Seq<u8>, space: u8, b: Seq<u8>)
    requires
        is_space(space),
    ensures
        rsplit_words(a + seq![space] + b, -1) == rsplit_words(a, -1) + rsplit_words(b, -1),
    decreases b.len(),
{
    lemma_last_word(b);
    let t = rstripped(b, whitespace());
    let s = a + seq![space] + b;
    if t.len() == 0 {
        assert(s =~= a + (seq![space] + b));
        lemma_blank_end(a, seq![space] + b);
        law_no_words(b, -1);
        assert(rsplit_words(a, -1) + rsplit_words(b, -1) =~= rsplit_words(a, -1));
        assert(rsplit_words(s, -1) == rsplit_words(a, -1));
    } else {
        let n = rspan_len(t, whitespace(), false) as int;
        let word = t.skip(t.len() - n);
        let front = t.take(t.len() - n);
        let rest = a + seq![space] + front;
        assert(s =~= (rest + word) + b.skip(t.len() as int));
        lemma_blank_end(rest + word, b.skip(t.len() as int));
        if front.len() > 0 {
            assert(rest.last() == t[t.len() - n - 1]);
        } else {
            assert(rest.last() == space);
        }
        lemma_then_word(rest, word);
        let whole = rest + word;
        assert(whole.take(whole.len() - n) =~= rest);
        assert(whole.skip(whole.len() - n) =~= word);
        lemma_rwords_cut(a, space, front);
        assert(rsplit_words(s, -1) == rsplit_words(rest, -1).push(word));
        assert(rsplit_words(b, -1) == rsplit_words(front, -1).push(word));
        assert((rsplit_words(a, -1) + rsplit_words(front, -1)).push(word) =~= rsplit_words(a, -1)
            + rsplit_words(front, -1).push(word));
    }
}

/// Without a limit, it does not matter from which side words are split.
pub proof fn law_words_either_way(s: Seq<u8>)
    ensures
        split_words(s, -1) == rsplit_words(s, -1),
    decreases s.len(),
{
    if s.len() == 0 {
        law_no_words(s, -1);
    } else if solid(s) {
        law_one_word(s, -1);
    } else {
        let i = choose|i: int| 0 <= i < s.len() && is_space(#[trigger] s[i]);
        let a = s.take(i);
        let b = s.skip(i + 1);
        assert(s =~= a + seq![s[i]] + b);
        law_words_cut(a, s[i], b);
        law_words_either_way(a);
        law_words_either_way(b);
    }
}

/// A negative limit is none.
pub proof fn law_negative_limit(s: Seq<u8>, sep: Seq<u8>, max: int)
    requires
        max < 0,
    ensures
        split_words(s, max) == split_words(s, -1),
        rsplit_words(s, max) == rsplit_words(s, -1),
        split_parts(s, sep, max) == split_parts(s, sep, -1),
        rsplit_parts(s, sep, max) == rsplit_parts(s, sep, -1),
    decreases s.len(),
{
    lemma_first_word(s);
    lemma_last_word(s);
    let t = lstripped(s, whitespace());
    if t.len() > 0 {
        law_negative_limit(t.skip(span_len(t, whitespace(), false) as int), sep, max);
    }
    let t = rstripped(s, whitespace());
    if t.len() > 0 {
        law_negative_limit(t.take(t.len() - rspan_len(t, whitespace(), false)), sep, max);
    }
    lemma_first_exists(s, sep);
    lemma_last_exists(s, sep);
    if sep.len() > 0 {
        if let Some(i) = first_occurrence(s, sep) {
            law_negative_limit(s.skip(i + sep.len()), sep, max);
        }
        if let Some(i) = last_occurrence(s, sep) {
            law_negative_limit(s.take(i), sep, max);
        }
    }
}

/// What consists of kept bytes is kept whole, and what consists of others goes.
proof fn lemma_filtered(s: Seq<u8>)
    ensures
        solid(s) ==> s.filter(visible()) == s,
        blank(s) ==> s.filter(visible()) == Seq::<u8>::empty(),
    decreases s.len(),
{
    reveal(Seq::filter);
    if s.len() > 0 {
        let front = s.drop_last();
        lemma_filtered(front);
        if solid(s) {
            assert forall|i: int| 0 <= i < front.len() implies !is_space(#[trigger] front[i]) by {
                assert(front[i] == s[i]);
            }
            assert(!is_space(s[s.len() - 1]));
            if front.len() == 0 {
                assert(front =~= Seq::empty());
            }
            assert(s.filter(visible()) =~= s);
        }
        if blank(s) {
            assert forall|i: int| 0 <= i < front.len() implies is_space(#[trigger] front[i]) by {
                assert(front[i] == s[i]);
            }
            assert(is_space(s[s.len() - 1]));
        }
    } else {
        assert(s.filter(visible()) =~= Seq::empty());
    }
}

/// Without a limit, the words one behind the other are the bytes that are not whitespace, in their
/// order: none is lost.
pub proof fn law_words_keep_bytes(s: Seq<u8>)
    ensures
        joined(Seq::empty(), split_words(s, -1)) == s.filter(|b: u8| !is_space(b)),
        joined(Seq::empty(), rsplit_words(s, -1)) == s.filter(|b: u8| !is_space(b)),
{
    lemma_words_keep_bytes(s);
    law_words_either_way(s);
    assert(visible() =~= (|b: u8| !is_space(b)));
}

proof fn lemma_words_keep_bytes(s: Seq<u8>)
    ensures
        joined(Seq::empty(), split_words(s, -1)) == s.filter(visible()),
    decreases s.len(),
{
    lemma_first_word(s);
    let t = lstripped(s, whitespace());
    let w = s.len() - t.len();
    let nothing = Seq::<u8>::empty();
    if t.len() == 0 {
        lemma_filtered(s);
    } else {
        let n = span_len(t, whitespace(), false) as int;
        let word = t.take(n);
        let rest = t.skip(n);
        lemma_words_keep_bytes(rest);
        assert(s =~= s.take(w) + (word + rest));
        Seq::filter_distributes_over_add(s.take(w), word + rest, visible());
        Seq::filter_distributes_over_add(word, rest, visible());
        lemma_filtered(s.take(w));
        lemma_filtered(word);
        let words = split_words(rest, -1);
        if words.len() > 0 {
            lemma_joined_front(nothing, word, words);
        } else {
            assert(seq![word] + words =~= seq![word]);
        }
        assert(joined(nothing, seq![word] + words) =~= word + joined(nothing, words));
        assert(s.filter(visible()) =~= word + rest.filter(visible()));
    }
}

/// Every word is a run that cannot be longer: it stands in the sequence with whitespace or nothing
/// on either side, and holds none.
pub proof fn law_word_is_run(s: Seq<u8>, k: int) -> (i: int)
    requires
        0 <= k < split_words(s, -1).len(),
    ensures
        ({
            let word = split_words(s, -1)[k];
            &&& solid(word)
            &&& 0 <= i <= s.len() - word.len()
            &&& s.subrange(i, i + word.len()) == word
            &&& i > 0 ==> is_space(s[i - 1])
            &&& i + word.len() < s.len() ==> is_space(s[i + word.len()])
        }),
    decreases s.len(),
{
    lemma_first_word(s);
    let t = lstripped(s, whitespace());
    let w = s.len() - t.len();
    let n = span_len(t, whitespace(), false) as int;
    if k == 0 {
        assert(split_words(s, -1)[0] == t.take(n));
        assert(s.subrange(w, w + n) =~= t.take(n));
        if w > 0 {
            assert(s.take(w)[w - 1] == s[w - 1]);
        }
        w
    } else {
        let rest = t.skip(n);
        assert(split_words(s, -1)[k] == split_words(rest, -1)[k - 1]);
        let i = law_word_is_run(rest, k - 1);
        let word = split_words(rest, -1)[k - 1];
        assert(s.subrange(w + n + i, w + n + i + word.len()) =~= rest.subrange(
            i,
            i + word.len(),
        ));
        if i > 0 {
            assert(rest[i - 1] == s[w + n + i - 1]);
        } else {
            assert(rest[0] == t[n]);
            assert(rest.subrange(0, word.len() as int)[0] == rest[0]);
            assert(word[0] == rest[0]);
        }
        w + n + i
    }
}

/// With a limit, as many words are split off as without one, up to the limit; what is left stands
/// whole at the end, from its first word on.
pub proof fn law_words_limited(s: Seq<u8>, max: int)
    requires
        max >= 0,
    ensures
        ({
            let all = split_words(s, -1);
            let some = split_words(s, max);
            &&& all.len() <= max ==> some == all
            &&& all.len() > max ==> {
                &&& some.len() == max + 1
                &&& some.take(max) == all.take(max)
                &&& 0 < some.last().len() <= s.len()
                &&& some.last() == s.skip(s.len() - some.last().len())
                &&& !is_space(some.last()[0])
                &&& split_words(some.last(), -1) == all.skip(max)
            }
        }),
    decreases max,
{
    lemma_first_word(s);
    let t = lstripped(s, whitespace());
    let n = span_len(t, whitespace(), false) as int;
    let all = split_words(s, -1);
    let some = split_words(s, max);
    if t.len() > 0 {
        assert(t.take(n)[0] == t[0]);
        if max == 0 {
            assert(some.take(0) =~= all.take(0));
            assert(all.skip(0) =~= all);
            lemma_blank_start(s.take(s.len() - t.len()), t);
            assert(s =~= s.take(s.len() - t.len()) + t);
            assert(split_words(t, -1) == all);
        } else {
            let rest = t.skip(n);
            law_words_limited(rest, max - 1);
            let others = split_words(rest, -1);
            let few = split_words(rest, max - 1);
            assert(all == seq![t.take(n)] + others);
            assert(some == seq![t.take(n)] + few);
            if all.len() > max {
                assert(some.take(max) =~= seq![t.take(n)] + few.take(max - 1));
                assert(all.take(max) =~= seq![t.take(n)] + others.take(max - 1));
                assert(some.last() == few.last());
                assert(all.skip(max) =~= others.skip(max - 1));
                assert(rest.skip(rest.len() - few.last().len()) =~= s.skip(
                    s.len() - few.last().len(),
                ));
            }
        }
    }
}

/// From the right and with a limit, as many words are split off as without one, up to the limit; what
/// is left stands whole at the front, up to its last word.
pub proof fn law_rwords_limited(s: Seq<u8>, max: int)
    requires
        max >= 0,
    ensures
        ({
            let all = rsplit_words(s, -1);
            let some = rsplit_words(s, max);
            &&& all.len() <= max ==> some == all
            &&& all.len() > max ==> {
                &&& some.len() == max + 1
                &&& some.skip(1) == all.skip(all.len() - max)
                &&& 0 < some[0].len() <= s.len()
                &&& some[0] == s.take(some[0].len() as int)
                &&& !is_space(some[0].last())
                &&& rsplit_words(some[0], -1) == all.take(all.len() - max)
            }
        }),
    decreases max,
{
    lemma_last_word(s);
    let t = rstripped(s, whitespace());
    let n = rspan_len(t, whitespace(), false) as int;
    let all = rsplit_words(s, -1);
    let some = rsplit_words(s, max);
    if t.len() > 0 {
        let word = t.skip(t.len() - n);
        assert(word[n - 1] == t.last());
        if max == 0 {
            assert(some.skip(1) =~= all.skip(all.len() as int));
            assert(all.take(all.len() as int) =~= all);
            lemma_blank_end(t, s.skip(t.len() as int));
            assert(s =~= t + s.skip(t.len() as int));
            assert(rsplit_words(t, -1) == all);
        } else {
            let rest = t.take(t.len() - n);
            law_rwords_limited(rest, max - 1);
            let others = rsplit_words(rest, -1);
            let few = rsplit_words(rest, max - 1);
            assert(all == others.push(word));
            assert(some == few.push(word));
            if all.len() > max {
                assert(some.skip(1) =~= few.skip(1).push(word));
                assert(all.skip(all.len() - max) =~= others.skip(others.len() - (max - 1)).push(
                    word,
                ));
                assert(some[0] == few[0]);
                assert(all.take(all.len() - max) =~= others.take(others.len() - (max - 1)));
                assert(rest.take(few[0].len() as int) =~= s.take(few[0].len() as int));
            }
        }
    }
}

/// A cut is made at the leftmost occurrence, or from the right at the rightmost.
pub proof fn law_partition_cut(s: Seq<u8>, sep: Seq<u8>, k: int)
    requires
        sep.len() > 0,
    ensures
        partitioned(s, sep) is Ok,
        rpartitioned(s, sep) is Ok,
        ({
            let (front, mid, back) = partitioned(s, sep)->Ok_0;
            let (rfront, rmid, rback) = rpartitioned(s, sep)->Ok_0;
            let occurs = stands_between(s, sep, 0, s.len() as int, k);
            &&& occurs ==> mid == sep && rmid == sep
            &&& occurs ==> front.len() <= k <= rfront.len()
            &&& mid.len() > 0 ==> s == front + sep + back
            &&& rmid.len() > 0 ==> s == rfront + sep + rback
            &&& mid.len() == 0 ==> front == s && back.len() == 0 && !occurs
            &&& rmid.len() == 0 ==> rback == s && rfront.len() == 0 && !occurs
        }),
{
    lemma_first_exists(s, sep);
    lemma_last_exists(s, sep);
    crate::laws::pieces::law_partition_whole(s, sep);
    if stands_between(s, sep, 0, s.len() as int, k) {
        assert(occurs_at(s, sep, k));
    }
}

/// Where nothing separates, there is nothing to cut at or to split at.
pub proof fn law_empty_separator(s: Seq<u8>, sep: Seq<u8>, options: ByteInnerSplitOptions)
    ensures
        sep.len() == 0 ==> partitioned(s, sep) == Err::<(Seq<u8>, Seq<u8>, Seq<u8>), PyException>(
            PyException::EmptySeparator,
        ),
        sep.len() == 0 ==> rpartitioned(s, sep) == Err::<
            (Seq<u8>, Seq<u8>, Seq<u8>),
            PyException,
        >(PyException::EmptySeparator),
        options.sep matches Some(bytes) ==> bytes@.len() == 0 ==> {
            &&& split_result(s, options) == Err::<Seq<Seq<u8>>, PyException>(
                PyException::EmptySeparator,
            )
            &&& rsplit_result(s, options) == Err::<Seq<Seq<u8>>, PyException>(
                PyException::EmptySeparator,
            )
        },
        options.sep matches Some(bytes) ==> bytes@.len() > 0 ==> {
            &&& split_result(s, options) == Ok::<Seq<Seq<u8>>, PyException>(
                split_parts(s, bytes@, options.maxsplit as int),
            )
            &&& rsplit_result(s, options) == Ok::<Seq<Seq<u8>>, PyException>(
                rsplit_parts(s, bytes@, options.maxsplit as int),
            )
        },
        options.sep is None ==> {
            &&& split_result(s, options) == Ok::<Seq<Seq<u8>>, PyException>(
                split_words(s, options.maxsplit as int),
            )
            &&& rsplit_result(s, options) == Ok::<Seq<Seq<u8>>, PyException>(
                rsplit_words(s, options.maxsplit as int),
            )
        },
{
}

/// To split is to cut, and to split what is left behind the cut, until the limit is reached or the
/// separator does not occur; from the right, what is left before it.
pub proof fn law_split_is_cuts(s: Seq<u8>, sep: Seq<u8>, max: int)
    requires
        sep.len() > 0,
    ensures
        ({
            let (front, mid, back) = partitioned(s, sep)->Ok_0;
            let (rfront, rmid, rback) = rpartitioned(s, sep)->Ok_0;
            let next = if max > 0 {
                max - 1
            } else {
                -1
            };
            &&& max == 0 || mid.len() == 0 ==> split_parts(s, sep, max) == seq![s]
            &&& max == 0 || rmid.len() == 0 ==> rsplit_parts(s, sep, max) == seq![s]
            &&& max != 0 && mid.len() > 0 ==> split_parts(s, sep, max) == seq![front]
                + split_parts(back, sep, next)
            &&& max != 0 && rmid.len() > 0 ==> rsplit_parts(s, sep, max) == rsplit_parts(
                rfront,
                sep,
                next,
            ).push(rback)
        }),
{
    lemma_first_exists(s, sep);
    lemma_last_exists(s, sep);
    if max < 0 {
        if let Some(i) = first_occurrence(s, sep) {
            law_negative_limit(s.skip(i + sep.len()), sep, max);
        }
        if let Some(i) = last_occurrence(s, sep) {
            law_negative_limit(s.take(i), sep, max);
        }
    }
}

/// Joined are no parts to nothing, one part to itself, and two lists of parts to what each is joined
/// to, with the separator between.
pub proof fn law_joined(sep: Seq<u8>, part: Seq<u8>, a: Seq<Seq<u8>>, b: Seq<Seq<u8>>)
    ensures
        joined(sep, Seq::empty()) == Seq::<u8>::empty(),
        joined(sep, seq![part]) == part,
        a.len() > 0 && b.len() > 0 ==> joined(sep, a + b) == joined(sep, a) + sep + joined(sep, b),
    decreases b.len(),
{
    if a.len() > 0 && b.len() > 0 {
        assert((a + b).drop_last() =~= a + b.drop_last());
        if b.len() == 1 {
            assert(a + b.drop_last() =~= a);
        } else {
            law_joined(sep, part, a, b.drop_last());
            assert(joined(sep, a + b) =~= joined(sep, a) + sep + joined(sep, b));
        }
    }
}

/// Bytes-like items are joined by their contents; another item is refused.
pub proof fn law_join_items(sep: Seq<u8>, items: Seq<PyObject>, parts: Seq<Seq<u8>>)
    requires
        parts.len() == items.len(),
    ensures
        (forall|i: int|
            0 <= i < items.len() ==> ((#[trigger] items[i]) matches PyObject::Bytes(v) && v@
                == parts[i])) ==> join_result(sep, items) == Ok::<Seq<u8>, PyException>(
            joined(sep, parts),
        ),
        (exists|i: int| 0 <= i < items.len() && !((#[trigger] items[i]) is Bytes)) ==> join_result(
            sep,
            items,
        ) == Err::<Seq<u8>, PyException>(PyException::NotBytesLike),
{
    lemma_contents(items, parts);
}

proof fn lemma_contents(items: Seq<PyObject>, parts: Seq<Seq<u8>>)
    requires
        parts.len() == items.len(),
    ensures
        (forall|i: int|
            0 <= i < items.len() ==> ((#[trigger] items[i]) matches PyObject::Bytes(v) && v@
                == parts[i])) ==> contents_of(items) == Ok::<Seq<Seq<u8>>, PyException>(parts),
        (exists|i: int| 0 <= i < items.len() && !((#[trigger] items[i]) is Bytes)) ==> contents_of(
            items,
        ) == Err::<Seq<Seq<u8>>, PyException>(PyException::NotBytesLike),
        contents_of(items) is Err ==> contents_of(items) == Err::<Seq<Seq<u8>>, PyException>(
            PyException::NotBytesLike,
        ),
    decreases items.len(),
{
    if items.len() > 0 {
        let front = items.drop_last();
        lemma_contents(front, parts.drop_last());
        if forall|i: int|
            0 <= i < items.len() ==> ((#[trigger] items[i]) matches PyObject::Bytes(v) && v@
                == parts[i]) {
            assert forall|i: int| 0 <= i < front.len() implies ((
            #[trigger] front[i]) matches PyObject::Bytes(v) && v@ == parts.drop_last()[i]) by {
                assert(front[i] == items[i]);
            }
            assert(items[items.len() - 1] is Bytes);
            assert(parts.drop_last().push(parts.last()) =~= parts);
        }
        if exists|i: int| 0 <= i < items.len() && !((#[trigger] items[i]) is Bytes) {
            let i = choose|i: int| 0 <= i < items.len() && !((#[trigger] items[i]) is Bytes);
            if i < items.len() - 1 {
                assert(front[i] == items[i]);
            }
        }
    } else {
        assert(parts =~= Seq::empty());
    }
}

/// Stripped at one end, a sequence has nothing to be stripped there, and what went is to be stripped.
pub proof fn law_stripped_at_one_end(s: Seq<u8>, chars: Seq<u8>)
    ensures
        ({
            let l = lstripped(s, chars);
            let r = rstripped(s, chars);
            &&& l.len() <= s.len() && l == s.skip(s.len() - l.len())
            &&& r.len() <= s.len() && r == s.take(r.len() as int)
            &&& l.len() > 0 ==> !chars.contains(l[0])
            &&& r.len() > 0 ==> !chars.contains(r.last())
            &&& forall|i: int| 0 <= i < s.len() - l.len() ==> chars.contains(#[trigger] s[i])
            &&& forall|i: int| r.len() <= i < s.len() ==> chars.contains(#[trigger] s[i])
        }),
{
    lemma_span_exact(s, chars, true);
    lemma_rspan_exact(s, chars, true);
}

/// To strip both ends is to strip one and then the other, in either order.
pub proof fn law_strip_either_order(s: Seq<u8>, chars: Seq<u8>)
    ensures
        stripped(s, chars) == rstripped(lstripped(s, chars), chars),
        stripped(s, chars) == lstripped(rstripped(s, chars), chars),
{
    crate::laws::pieces::law_stripped(s, chars);
    law_stripped_at_one_end(s, chars);
    let r = rstripped(s, chars);
    law_stripped_at_one_end(r, chars);
    let t = stripped(s, chars);
    let u = lstripped(r, chars);
    let i = span_len(s, chars, true) as int;
    if t.len() > 0 {
        let last = i + t.len() - 1;
        assert(s[i] == t[0]);
        assert(s[last] == t.last());
        if r.len() <= last {
            assert(chars.contains(s[last]));
        }
        if r.len() > last + 1 {
            assert(r.last() == s[r.len() - 1]);
            assert(chars.contains(s[r.len() - 1]));
        }
        assert(r.len() == last + 1);
        let f = r.len() - u.len();
        if f > i {
            assert(r[i] == s[i]);
            assert(chars.contains(r[i]));
        }
        if f < i {
            assert(u[0] == r[f]);
            assert(r[f] == s[f]);
            assert(chars.contains(s[f]));
        }
        assert(t =~= u);
    } else {
        if u.len() > 0 {
            let f = r.len() - u.len();
            assert(u[0] == r[f]);
            assert(r[f] == s[f]);
            assert(chars.contains(s[f]));
        }
        assert(t =~= u);
    }
}

/// What is not given to be stripped is whitespace.
pub proof fn law_strip_whitespace(chars: Option<crate::bytesinner::PyBytesInner>, b: u8)
    ensures
        chars is None ==> (strip_set(chars).contains(b) <==> is_space(b)),
        chars matches Some(bytes) ==> strip_set(chars) == bytes@,
{
    lemma_whitespace(b);
}

} // verus!
