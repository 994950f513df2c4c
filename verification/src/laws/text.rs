//! Laws of the texts that stand for bytes.
use crate::ascii::is_space;
use crate::bytesinner::PyBytesInner;
use crate::error::PyException;
use crate::hexadecimal::{hex_pair, hex_result, hex_text, read_hex, separation, separator_of};
use crate::object::Either;
use crate::repr::{escaped, escaped_all, quote_of, repr_text};
use crate::text::{hex_digit, hex_value};
use vstd::prelude::*;
use vstd::utf8::{encode_utf8, is_ascii_chars, is_ascii_chars_encode_utf8};

verus! {

/// Whether bytes that are written with the separator `sep` can be read again: there is none, or it
/// is whitespace.
pub open spec fn readable_separator(sep: Option<char>) -> bool {
    sep matches Some(c) ==> (c as int) < 128 && is_space(c as u8)
}

/// No character has a negative number.
proof fn lemma_char(c: char)
    ensures
        0 <= c as int,
{
}

/// The text of the first bytes begins the text of all.
proof fn lemma_hex_prefix(s: Seq<u8>, k: nat, n: nat, sep: Option<char>, group: int)
    requires
        k <= n,
    ensures
        hex_text(s, k, sep, group).is_prefix_of(hex_text(s, n, sep, group)),
    decreases n,
{
    if k < n {
        lemma_hex_prefix(s, k, (n - 1) as nat, sep, group);
    }
}

/// Hexadecimal text is ASCII.
proof fn lemma_hex_ascii(s: Seq<u8>, n: nat, sep: Option<char>, group: int)
    requires
        n <= s.len(),
        readable_separator(sep),
    ensures
        is_ascii_chars(hex_text(s, n, sep, group)),
    decreases n,
{
    if n > 0 {
        lemma_hex_ascii(s, (n - 1) as nat, sep, group);
        let before = hex_text(s, (n - 1) as nat, sep, group);
        let between = separation(s.len() as int, n - 1, sep, group);
        let pair = hex_pair(s[n - 1]);
        let t = hex_text(s, n, sep, group);
        assert forall|i: int| 0 <= i < t.len() implies '\0' <= #[trigger] t[i] <= '\u{7f}' by {
            if i < before.len() {
                assert(t[i] == before[i]);
            } else if i < before.len() + between.len() {
                assert(t[i] == between[i - before.len()]);
                lemma_char(sep->0);
                assert(t[i] == sep->0);
            } else {
                let j = i - before.len() - between.len();
                assert(t[i] == pair[j]);
                assert(pair[0] == hex_digit((s[n - 1] / 16) as u8) as char);
                assert(pair[1] == hex_digit((s[n - 1] % 16) as u8) as char);
                assert(j == 0 || j == 1);
            }
        }
    }
}

/// The digits of a byte are read as the byte.
proof fn lemma_hex_digits(b: u8)
    ensures
        ({
            let top = hex_pair(b)[0] as u8;
            let bottom = hex_pair(b)[1] as u8;
            &&& !is_space(top)
            &&& hex_value(top) == Some((b / 16) as u8)
            &&& hex_value(bottom) == Some((b % 16) as u8)
            &&& 16 * (b / 16) + b % 16 == b
        }),
{
}

/// From where the text of the first `k` bytes ends, the other bytes are read.
proof fn lemma_hex_read(s: Seq<u8>, k: nat, sep: Option<char>, group: int)
    requires
        k <= s.len(),
        readable_separator(sep),
    ensures
        read_hex(
            encode_utf8(hex_text(s, s.len(), sep, group)),
            hex_text(s, k, sep, group).len() as int,
        ) == Ok::<Seq<u8>, PyException>(s.skip(k as int)),
    decreases s.len() - k,
{
    let text = hex_text(s, s.len(), sep, group);
    let t = encode_utf8(text);
    lemma_hex_ascii(s, s.len(), sep, group);
    is_ascii_chars_encode_utf8(text);
    let from = hex_text(s, k, sep, group).len() as int;
    if k < s.len() {
        let next = hex_text(s, k + 1, sep, group);
        let between = separation(s.len() as int, k as int, sep, group);
        lemma_hex_read(s, k + 1, sep, group);
        lemma_hex_prefix(s, k + 1, s.len(), sep, group);
        lemma_hex_digits(s[k as int]);
        let at = from + between.len();
        assert(next.len() == at + 2);
        assert(text[at] == next[at] == hex_pair(s[k as int])[0]);
        assert(text[at + 1] == next[at + 1] == hex_pair(s[k as int])[1]);
        assert(t[at] == text[at] as u8);
        assert(t[at + 1] == text[at + 1] as u8);
        assert(seq![s[k as int]] + s.skip(k as int + 1) =~= s.skip(k as int));
        assert(read_hex(t, at) == Ok::<Seq<u8>, PyException>(s.skip(k as int)));
        if between.len() > 0 {
            assert(text[from] == next[from] == sep->0);
            assert(t[from] == text[from] as u8);
            assert(read_hex(t, from) == read_hex(t, from + 1));
        }
    } else {
        assert(s.skip(k as int) =~= Seq::empty());
    }
}

/// `fromhex` reads what `hex` writes, with whitespace as the separator or with none.
pub proof fn law_hex_round_trip(
    s: Seq<u8>,
    sep: Option<Either<String, PyBytesInner>>,
    bytes_per_sep: Option<isize>,
)
    requires
        sep matches Some(sep) ==> separator_of(sep) is Ok && is_space(
            separator_of(sep)->Ok_0 as u8,
        ),
    ensures
        hex_result(s, sep, bytes_per_sep) is Ok,
        read_hex(encode_utf8(hex_result(s, sep, bytes_per_sep)->Ok_0), 0) == Ok::<
            Seq<u8>,
            PyException,
        >(s),
{
    let group = match bytes_per_sep {
        Some(n) => n as int,
        None => 1,
    };
    let c = match sep {
        Some(sep) => Some(separator_of(sep)->Ok_0),
        None => None,
    };
    lemma_hex_read(s, 0, c, group);
    assert(s.skip(0) =~= s);
}

/// Every byte takes two digits.
pub proof fn law_hex_len(s: Seq<u8>, n: nat, group: int)
    ensures
        hex_text(s, n, None, group).len() == 2 * n,
    decreases n,
{
    if n > 0 {
        law_hex_len(s, (n - 1) as nat, group);
    }
}

/// The first byte is written first.
proof fn lemma_escaped_front(s: Seq<u8>, quote: u8)
    requires
        s.len() > 0,
    ensures
        escaped_all(s, quote) == escaped(s[0], quote) + escaped_all(s.drop_first(), quote),
    decreases s.len(),
{
    let rest = s.drop_first();
    if s.len() == 1 {
        assert(s.drop_last() =~= Seq::empty());
        assert(rest =~= Seq::empty());
        assert(escaped_all(s, quote) =~= escaped(s[0], quote) + escaped_all(rest, quote));
    } else {
        lemma_escaped_front(s.drop_last(), quote);
        assert(s.drop_last().drop_first() =~= rest.drop_last());
        assert(escaped_all(s, quote) =~= escaped(s[0], quote) + escaped_all(rest, quote));
    }
}

/// No byte is written as the start of what another byte is written as.
proof fn lemma_escaped_distinct(a: u8, b: u8, quote: u8, s: Seq<char>, t: Seq<char>)
    requires
        quote == 0x27 || quote == 0x22,
        escaped(a, quote) + s == escaped(b, quote) + t,
    ensures
        a == b,
        s == t,
{
    let x = escaped(a, quote);
    let y = escaped(b, quote);
    let z = x + s;
    assert(z == y + t);
    assert forall|i: int| 0 <= i < x.len() && i < y.len() implies x[i] == y[i] by {
        assert((x + s)[i] == (y + t)[i]);
    }
    assert(x[0] == y[0]);
    if x.len() > 1 && y.len() > 1 {
        assert(x[1] == y[1]);
        if x.len() == 4 && y.len() == 4 {
            assert(x[2] == hex_pair(a)[0]);
            assert(x[3] == hex_pair(a)[1]);
            assert(y[2] == hex_pair(b)[0]);
            assert(y[3] == hex_pair(b)[1]);
        }
    }
    assert(a == b);
    assert(s =~= z.skip(x.len() as int));
    assert(t =~= z.skip(x.len() as int));
}

proof fn lemma_escaped_injective(s: Seq<u8>, t: Seq<u8>, quote: u8)
    requires
        quote == 0x27 || quote == 0x22,
        escaped_all(s, quote) == escaped_all(t, quote),
    ensures
        s == t,
    decreases s.len(),
{
    if s.len() > 0 {
        lemma_escaped_front(s, quote);
    }
    if t.len() > 0 {
        lemma_escaped_front(t, quote);
    }
    if s.len() > 0 && t.len() > 0 {
        lemma_escaped_distinct(
            s[0],
            t[0],
            quote,
            escaped_all(s.drop_first(), quote),
            escaped_all(t.drop_first(), quote),
        );
        lemma_escaped_injective(s.drop_first(), t.drop_first(), quote);
        assert(s =~= seq![s[0]] + s.drop_first());
        assert(t =~= seq![t[0]] + t.drop_first());
    } else {
        if s.len() > 0 {
            assert(escaped(s[0], quote).len() > 0);
            assert(escaped_all(s, quote).len() > 0);
            assert(escaped_all(t, quote).len() == 0);
        }
        if t.len() > 0 {
            assert(escaped(t[0], quote).len() > 0);
            assert(escaped_all(t, quote).len() > 0);
            assert(escaped_all(s, quote).len() == 0);
        }
        assert(s.len() == 0 && t.len() == 0);
        assert(s =~= t);
    }
}

/// The representation tells the bytes: those of two byte arrays differ where the bytes differ.
pub proof fn law_repr_injective(s: Seq<u8>, t: Seq<u8>, prefix: Seq<char>, suffix: Seq<char>)
    requires
        repr_text(s, prefix, suffix) == repr_text(t, prefix, suffix),
    ensures
        s == t,
{
    let x = repr_text(s, prefix, suffix);
    let n = prefix.len() as int;
    assert(x[n + 1] == quote_of(s) as char);
    assert(x[n + 1] == quote_of(t) as char);
    let quote = quote_of(s);
    assert(quote_of(t) == quote);
    let a = escaped_all(s, quote);
    let b = escaped_all(t, quote);
    assert(a.len() == x.len() - n - 3 - suffix.len());
    assert(b.len() == x.len() - n - 3 - suffix.len());
    assert(a =~= x.subrange(n + 2, n + 2 + a.len()));
    assert(b =~= x.subrange(n + 2, n + 2 + a.len()));
    lemma_escaped_injective(s, t, quote);
}

/// Between the quotes stands printable ASCII only.
pub proof fn law_repr_printable(s: Seq<u8>, quote: u8, i: int)
    requires
        quote == quote_of(s),
        0 <= i < escaped_all(s, quote).len(),
    ensures
        0x20 <= escaped_all(s, quote)[i] as int <= 0x7e,
{
    lemma_printable(s, quote, i);
}

proof fn lemma_printable(s: Seq<u8>, quote: u8, i: int)
    requires
        quote == 0x27 || quote == 0x22,
        0 <= i < escaped_all(s, quote).len(),
    ensures
        0x20 <= escaped_all(s, quote)[i] as int <= 0x7e,
    decreases s.len(),
{
    let front = escaped_all(s.drop_last(), quote);
    if i < front.len() {
        lemma_printable(s.drop_last(), quote, i);
    } else {
        let e = escaped(s.last(), quote);
        assert(escaped_all(s, quote)[i] == e[i - front.len()]);
        if e.len() == 4 && i - front.len() >= 2 {
            assert(e[i - front.len()] == hex_pair(s.last())[i - front.len() - 2]);
        }
    }
}

} // verus!
