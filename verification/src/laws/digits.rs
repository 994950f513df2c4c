//! Laws of digits, of grouping them and of reading them, and of the representation of bytes.
use crate::ascii::{is_space, lowered, to_lower, to_upper, uppered};
use crate::bytesinner::PyBytesInner;
use crate::error::{PyException, PyResult};
use crate::hexadecimal::{
    group_begins, hex_pair, hex_result, hex_text, read_hex, separation, separator_of,
};
use crate::object::Either;
use crate::repr::{escaped, escaped_all, repr_text};
use crate::text::{decimal_text, digit_char, hex_digit, hex_value};
use vstd::prelude::*;

verus! {

/// The digits up to nine are the decimal digits, and those from ten on the letters from `a` or from
/// `A` on; nothing else is a digit. Written are the small letters.
pub proof fn law_hex_digits(d: u8, b: u8)
    ensures
        d < 10 ==> hex_value(('0' as u8 + d) as u8) == Some(d) && hex_digit(d) == '0' as u8 + d,
        10 <= d < 16 ==> {
            &&& hex_value(('a' as u8 + d - 10) as u8) == Some(d)
            &&& hex_value(('A' as u8 + d - 10) as u8) == Some(d)
            &&& hex_digit(d) == 'a' as u8 + d - 10
        },
        hex_value(b) matches Some(v) ==> {
            ||| v < 10 && b == '0' as u8 + v
            ||| 10 <= v < 16 && b == 'a' as u8 + v - 10
            ||| 10 <= v < 16 && b == 'A' as u8 + v - 10
        },
{
}

/// The case of digits does not matter.
pub proof fn law_read_any_case(t: Seq<u8>)
    ensures
        read_hex(uppered(t), 0) == read_hex(t, 0),
        read_hex(lowered(t), 0) == read_hex(t, 0),
{
    lemma_read_any_case(t, 0);
}

proof fn lemma_read_any_case(t: Seq<u8>, i: int)
    requires
        0 <= i,
    ensures
        read_hex(uppered(t), i) == read_hex(t, i),
        read_hex(lowered(t), i) == read_hex(t, i),
    decreases t.len() - i,
{
    if i < t.len() {
        let u = uppered(t);
        let l = lowered(t);
        assert(u[i] == to_upper(t[i]) && l[i] == to_lower(t[i]));
        assert(hex_value(u[i]) == hex_value(t[i]) && hex_value(t[i]) == hex_value(l[i]));
        if is_space(t[i]) {
            lemma_read_any_case(t, i + 1);
        } else if i + 1 < t.len() {
            assert(u[i + 1] == to_upper(t[i + 1]) && l[i + 1] == to_lower(t[i + 1]));
            assert(hex_value(u[i + 1]) == hex_value(t[i + 1]) && hex_value(t[i + 1]) == hex_value(
                l[i + 1],
            ));
            lemma_read_any_case(t, i + 2);
        }
    }
}

/// What reading a text behind `n` others yields: where it fails, it fails that much later.
pub open spec fn later(r: PyResult<Seq<u8>>, n: int) -> PyResult<Seq<u8>> {
    match r {
        Err(PyException::NotHexadecimal { position }) => Err(
            PyException::NotHexadecimal { position: (position + n) as usize },
        ),
        _ => r,
    }
}

/// To read two texts, one behind the other, of which the first can be read, is to read each.
pub proof fn law_read_both(a: Seq<u8>, b: Seq<u8>)
    requires
        a.len() + b.len() <= usize::MAX,
        read_hex(a, 0) is Ok,
    ensures
        read_hex(a + b, 0) == match later(read_hex(b, 0), a.len() as int) {
            Ok(rest) => Ok::<Seq<u8>, PyException>(read_hex(a, 0)->Ok_0 + rest),
            Err(e) => Err::<Seq<u8>, PyException>(e),
        },
{
    lemma_read_front(a, b, 0);
    lemma_read_behind(a, b, 0);
}

proof fn lemma_read_behind(a: Seq<u8>, b: Seq<u8>, i: int)
    requires
        0 <= i,
        a.len() + b.len() <= usize::MAX,
    ensures
        read_hex(a + b, a.len() + i) == later(read_hex(b, i), a.len() as int),
        read_hex(b, i) matches Err(e) ==> (e matches PyException::NotHexadecimal { position }
            && position <= b.len()),
    decreases b.len() - i,
{
    let t = a + b;
    if i < b.len() {
        assert(t[a.len() + i] == b[i]);
        if is_space(b[i]) {
            lemma_read_behind(a, b, i + 1);
        } else if i + 1 < b.len() {
            assert(t[a.len() + i + 1] == b[i + 1]);
            lemma_read_behind(a, b, i + 2);
        }
    }
}

proof fn lemma_read_front(a: Seq<u8>, b: Seq<u8>, i: int)
    requires
        0 <= i <= a.len(),
        read_hex(a, i) is Ok,
    ensures
        read_hex(a + b, i) == match read_hex(a + b, a.len() as int) {
            Ok(rest) => Ok::<Seq<u8>, PyException>(read_hex(a, i)->Ok_0 + rest),
            Err(e) => Err::<Seq<u8>, PyException>(e),
        },
    decreases a.len() - i,
{
    let t = a + b;
    if i < a.len() {
        assert(t[i] == a[i]);
        if is_space(a[i]) {
            lemma_read_front(a, b, i + 1);
        } else {
            assert(t[i + 1] == a[i + 1]);
            lemma_read_front(a, b, i + 2);
            if let Ok(rest) = read_hex(t, a.len() as int) {
                let byte = (16 * hex_value(a[i])->0 + hex_value(a[i + 1])->0) as u8;
                let tail = read_hex(a, i + 2)->Ok_0;
                assert(seq![byte] + (tail + rest) =~= (seq![byte] + tail) + rest);
            }
        }
    } else {
        if let Ok(rest) = read_hex(t, a.len() as int) {
            assert(Seq::<u8>::empty() + rest =~= rest);
        }
    }
}

/// A whitespace byte reads as nothing, and two digits as the byte with these two; where another byte
/// stands first, or behind a digit another byte or none, that is where reading fails.
pub proof fn law_read_start(t: Seq<u8>)
    requires
        t.len() > 0,
    ensures
        is_space(t[0]) ==> read_hex(t.take(1), 0) == Ok::<Seq<u8>, PyException>(Seq::empty()),
        !is_space(t[0]) && hex_value(t[0]) is None ==> read_hex(t, 0) == Err::<
            Seq<u8>,
            PyException,
        >(PyException::NotHexadecimal { position: 0 }),
        hex_value(t[0]) is Some && (t.len() == 1 || hex_value(t[1]) is None) ==> read_hex(t, 0)
            == Err::<Seq<u8>, PyException>(PyException::NotHexadecimal { position: 1 }),
        t.len() > 1 ==> hex_value(t[0]) is Some && hex_value(t[1]) is Some ==> {
            let r = read_hex(t.take(2), 0);
            &&& r is Ok
            &&& r->Ok_0.len() == 1
            &&& r->Ok_0[0] == 16 * hex_value(t[0])->0 + hex_value(t[1])->0
        },
        read_hex(Seq::empty(), 0) == Ok::<Seq<u8>, PyException>(Seq::empty()),
{
    reveal_with_fuel(read_hex, 2);
    let one = t.take(1);
    assert(one[0] == t[0]);
    if t.len() > 1 {
        let two = t.take(2);
        assert(two[0] == t[0] && two[1] == t[1]);
        if hex_value(t[0]) is Some && hex_value(t[1]) is Some {
            assert(read_hex(two, 2) == Ok::<Seq<u8>, PyException>(Seq::empty()));
        }
    }
}

/// The text of bytes without a separator holds two digits for each, the one of the sixteens first.
pub proof fn law_hex_plain(s: Seq<u8>, bytes_per_sep: Option<isize>, i: int)
    requires
        0 <= i < s.len(),
    ensures
        ({
            let text = hex_result(s, None, bytes_per_sep)->Ok_0;
            &&& hex_result(s, None, bytes_per_sep) is Ok
            &&& text.len() == 2 * s.len()
            &&& text[2 * i] == hex_digit((s[i] / 16) as u8) as char
            &&& text[2 * i + 1] == hex_digit((s[i] % 16) as u8) as char
        }),
{
    let group = match bytes_per_sep {
        Some(n) => n as int,
        None => 1,
    };
    lemma_hex_plain(s, s.len(), group, i);
}

proof fn lemma_hex_plain(s: Seq<u8>, n: nat, group: int, i: int)
    requires
        n <= s.len(),
    ensures
        hex_text(s, n, None, group).len() == 2 * n,
        0 <= i < n ==> hex_text(s, n, None, group)[2 * i] == hex_digit((s[i] / 16) as u8) as char,
        0 <= i < n ==> hex_text(s, n, None, group)[2 * i + 1] == hex_digit(
            (s[i] % 16) as u8,
        ) as char,
    decreases n,
{
    if n > 0 {
        lemma_hex_plain(s, (n - 1) as nat, group, i);
    }
}

/// Without a separator, the digits depend on the bytes alone.
proof fn lemma_same_plain(s: Seq<u8>, t: Seq<u8>, n: nat, group: int, other: int)
    requires
        n <= s.len(),
        n <= t.len(),
        forall|i: int| 0 <= i < n ==> s[i] == t[i],
    ensures
        hex_text(s, n, None, group) == hex_text(t, n, None, other),
    decreases n,
{
    if n > 0 {
        lemma_same_plain(s, t, (n - 1) as nat, group, other);
    }
}

/// Grouped from the right: all but the last group are grouped so among themselves.
proof fn lemma_groups_front(s: Seq<u8>, m: nat, c: char, group: int)
    requires
        group > 0,
        m + group <= s.len(),
    ensures
        hex_text(s, m, Some(c), group) == hex_text(s.take(s.len() - group), m, Some(c), group),
    decreases m,
{
    if m > 0 {
        lemma_groups_front(s, (m - 1) as nat, c, group);
        let len = s.len() as int;
        let i = m - 1;
        vstd::arithmetic::div_mod::lemma_mod_sub_multiples_vanish(len - i, group);
        assert(len - group - i == len - i - group);
        assert(group_begins(len, i, group) == group_begins(len - group, i, group));
        assert(s.take(len - group)[i] == s[i]);
    }
}

/// Grouped from the right: the last group has no separator inside.
proof fn lemma_groups_last(s: Seq<u8>, j: nat, c: char, group: int)
    requires
        group > 0,
        s.len() > group,
        0 < j <= group,
    ensures
        hex_text(s, (s.len() - group + j) as nat, Some(c), group) == hex_text(
            s,
            (s.len() - group) as nat,
            Some(c),
            group,
        ) + seq![c] + hex_text(s.skip(s.len() - group), j, None, group),
    decreases j,
{
    let len = s.len() as int;
    let from = len - group;
    let i = from + j - 1;
    let front = hex_text(s, from as nat, Some(c), group);
    let tail = s.skip(from);
    assert(tail[j - 1] == s[i]);
    if j == 1 {
        vstd::arithmetic::div_mod::lemma_mod_self_0(group);
        assert(separation(len, i, Some(c), group) == seq![c]);
        assert(hex_text(tail, 0, None, group) =~= Seq::empty());
        assert(hex_text(tail, 1, None, group) =~= hex_pair(s[i]));
        assert(hex_text(s, (from + 1) as nat, Some(c), group) =~= front + seq![c] + hex_text(
            tail,
            1,
            None,
            group,
        ));
    } else {
        lemma_groups_last(s, (j - 1) as nat, c, group);
        vstd::arithmetic::div_mod::lemma_small_mod((len - i) as nat, group as nat);
        assert(separation(len, i, Some(c), group) =~= Seq::empty());
        assert(hex_text(s, (from + j) as nat, Some(c), group) =~= front + seq![c] + hex_text(
            tail,
            j,
            None,
            group,
        ));
    }
}

/// In one group there is no separator.
proof fn lemma_one_group(s: Seq<u8>, n: nat, c: char, group: int)
    requires
        n <= s.len(),
        group > 0 ==> s.len() <= group,
        group < 0 ==> n <= -group,
    ensures
        hex_text(s, n, Some(c), group) == hex_text(s, n, None, group),
    decreases n,
{
    if n > 0 {
        lemma_one_group(s, (n - 1) as nat, c, group);
        let i = n - 1;
        if i > 0 {
            if group > 0 {
                vstd::arithmetic::div_mod::lemma_small_mod((s.len() - i) as nat, group as nat);
            } else if group < 0 {
                vstd::arithmetic::div_mod::lemma_small_mod(i as nat, (-group) as nat);
            }
        }
        assert(separation(s.len() as int, i, Some(c), group) =~= separation(
            s.len() as int,
            i,
            None,
            group,
        ));
    }
}

/// Grouped from the left: what stands behind the first group is grouped so among itself.
proof fn lemma_groups_behind(s: Seq<u8>, j: nat, c: char, size: int)
    requires
        size > 0,
        s.len() >= size + j,
        0 < j,
    ensures
        hex_text(s, (size + j) as nat, Some(c), -size) == hex_text(
            s,
            size as nat,
            Some(c),
            -size,
        ) + seq![c] + hex_text(s.skip(size), j, Some(c), -size),
    decreases j,
{
    let i = size + j - 1;
    let tail = s.skip(size);
    let front = hex_text(s, size as nat, Some(c), -size);
    assert(tail[j - 1] == s[i]);
    if j == 1 {
        vstd::arithmetic::div_mod::lemma_mod_self_0(size);
        assert(separation(s.len() as int, i, Some(c), -size) == seq![c]);
        assert(hex_text(tail, 0, Some(c), -size) =~= Seq::empty());
        assert(hex_text(tail, 1, Some(c), -size) =~= hex_pair(s[i]));
        assert(hex_text(s, (size + 1) as nat, Some(c), -size) =~= front + seq![c] + hex_text(
            tail,
            1,
            Some(c),
            -size,
        ));
    } else {
        lemma_groups_behind(s, (j - 1) as nat, c, size);
        vstd::arithmetic::div_mod::lemma_mod_add_multiples_vanish(j - 1, size);
        assert(group_begins(s.len() as int, i, -size) == group_begins(
            tail.len() as int,
            j - 1,
            -size,
        ));
        assert(hex_text(s, (size + j) as nat, Some(c), -size) =~= front + seq![c] + hex_text(
            tail,
            j,
            Some(c),
            -size,
        ));
    }
}

/// With a separator, groups of `n` bytes are counted from the right: the last stands behind a
/// separator, and the others are grouped before it.
pub proof fn law_hex_groups(s: Seq<u8>, sep: Either<String, PyBytesInner>, n: isize)
    requires
        separator_of(sep) is Ok,
        n > 0,
    ensures
        s.len() <= n ==> hex_result(s, Some(sep), Some(n)) == hex_result(s, None, None),
        s.len() > n ==> hex_result(s, Some(sep), Some(n)) == Ok::<Seq<char>, PyException>(
            hex_result(s.take(s.len() - n), Some(sep), Some(n))->Ok_0 + seq![
                separator_of(sep)->Ok_0,
            ] + hex_result(s.skip(s.len() - n), None, None)->Ok_0,
        ),
        hex_result(s, Some(sep), None) == hex_result(s, Some(sep), Some(1)),
{
    let c = separator_of(sep)->Ok_0;
    if s.len() <= n {
        lemma_one_group(s, s.len(), c, n as int);
        lemma_same_plain(s, s, s.len(), n as int, 1);
    } else {
        lemma_groups_front(s, (s.len() - n) as nat, c, n as int);
        lemma_groups_last(s, n as nat, c, n as int);
        let tail = s.skip(s.len() - n);
        lemma_same_plain(tail, tail, n as nat, n as int, 1);
    }
}

/// A negative size counts the groups from the left: the first stands before a separator, and the
/// others are grouped behind it. A size of zero makes no groups.
pub proof fn law_hex_groups_from_left(s: Seq<u8>, sep: Either<String, PyBytesInner>, n: isize)
    requires
        separator_of(sep) is Ok,
        n <= 0,
    ensures
        s.len() <= -n || n == 0 ==> hex_result(s, Some(sep), Some(n)) == hex_result(s, None, None),
        s.len() > -n && n < 0 ==> hex_result(s, Some(sep), Some(n)) == Ok::<
            Seq<char>,
            PyException,
        >(
            hex_result(s.take(-n), None, None)->Ok_0 + seq![separator_of(sep)->Ok_0]
                + hex_result(s.skip(-n), Some(sep), Some(n))->Ok_0,
        ),
{
    let c = separator_of(sep)->Ok_0;
    let size = -n;
    if n == 0 || s.len() <= size {
        lemma_one_group(s, s.len(), c, n as int);
        lemma_same_plain(s, s, s.len(), n as int, 1);
    } else {
        lemma_groups_behind(s, (s.len() - size) as nat, c, size);
        lemma_one_group(s, size as nat, c, n as int);
        lemma_same_plain(s, s.take(size), size as nat, n as int, 1);
    }
}

/// A separator is a single ASCII character, given as text or as bytes.
pub proof fn law_separators(s: Seq<u8>, sep: Either<String, PyBytesInner>, n: Option<isize>)
    ensures
        sep matches Either::A(text) ==> {
            &&& text@.len() != 1 ==> hex_result(s, Some(sep), n) == Err::<Seq<char>, PyException>(
                PyException::HexSeparatorLength,
            )
            &&& text@.len() == 1 && text@[0] > '\u{7f}' ==> hex_result(s, Some(sep), n) == Err::<
                Seq<char>,
                PyException,
            >(PyException::HexSeparatorNotAscii)
            &&& text@.len() == 1 && text@[0] <= '\u{7f}' ==> separator_of(sep) == Ok::<
                char,
                PyException,
            >(text@[0])
        },
        sep matches Either::B(bytes) ==> {
            &&& bytes@.len() != 1 ==> hex_result(s, Some(sep), n) == Err::<Seq<char>, PyException>(
                PyException::HexSeparatorLength,
            )
            &&& bytes@.len() == 1 && bytes@[0] > 0x7f ==> hex_result(s, Some(sep), n) == Err::<
                Seq<char>,
                PyException,
            >(PyException::HexSeparatorNotAscii)
            &&& bytes@.len() == 1 && bytes@[0] <= 0x7f ==> separator_of(sep) == Ok::<
                char,
                PyException,
            >(bytes@[0] as char)
        },
{
}

/// The representation stands between quotes: single ones, unless only single ones are held.
pub proof fn law_repr_quotes(s: Seq<u8>, prefix: Seq<char>, suffix: Seq<char>)
    ensures
        ({
            let single = exists|i: int| 0 <= i < s.len() && s[i] == '\'' as u8;
            let double = exists|i: int| 0 <= i < s.len() && s[i] == '"' as u8;
            let quote = if single && !double {
                '"'
            } else {
                '\''
            };
            repr_text(s, prefix, suffix) == prefix + seq!['b', quote] + escaped_all(
                s,
                quote as u8,
            ) + seq![quote] + suffix
        }),
{
    if s.contains(0x27) {
        let i = choose|i: int| 0 <= i < s.len() && s[i] == 0x27;
        assert(s[i] == '\'' as u8);
    }
    if s.contains(0x22) {
        let i = choose|i: int| 0 <= i < s.len() && s[i] == 0x22;
        assert(s[i] == '"' as u8);
    }
}

/// Bytes are represented one by one.
pub proof fn law_repr_each(a: Seq<u8>, b: Seq<u8>, quote: u8)
    ensures
        escaped_all(a + b, quote) == escaped_all(a, quote) + escaped_all(b, quote),
        escaped_all(Seq::empty(), quote) == Seq::<char>::empty(),
    decreases b.len(),
{
    if b.len() > 0 {
        law_repr_each(a, b.drop_last(), quote);
        assert((a + b).drop_last() =~= a + b.drop_last());
        assert(escaped_all(a + b, quote) =~= escaped_all(a, quote) + escaped_all(b, quote));
    } else {
        assert(a + b =~= a);
        assert(escaped_all(a + b, quote) =~= escaped_all(a, quote) + escaped_all(b, quote));
    }
}

/// A single byte is represented by itself, where it is printable and neither the quote nor a
/// backslash; these stand behind a backslash; tab, line feed and carriage return have letters; and
/// any other byte has its two digits.
pub proof fn law_repr_byte(b: u8, quote: u8)
    requires
        quote == '\'' as u8 || quote == '"' as u8,
    ensures
        ({
            let text = escaped_all(seq![b], quote);
            &&& b == quote || b == '\\' as u8 ==> text == seq!['\\', b as char]
            &&& b == '\t' as u8 ==> text == seq!['\\', 't']
            &&& b == '\n' as u8 ==> text == seq!['\\', 'n']
            &&& b == '\r' as u8 ==> text == seq!['\\', 'r']
            &&& ' ' as u8 <= b <= '~' as u8 && b != quote && b != '\\' as u8 ==> text == seq![
                b as char,
            ]
            &&& (b < ' ' as u8 && b != '\t' as u8 && b != '\n' as u8 && b != '\r' as u8) || b
                > '~' as u8 ==> text == seq![
                '\\',
                'x',
                hex_digit((b / 16) as u8) as char,
                hex_digit((b % 16) as u8) as char,
            ]
        }),
{
    let s = seq![b];
    assert(s.drop_last() =~= Seq::empty());
    assert(escaped_all(s.drop_last(), quote) =~= Seq::empty());
    assert(escaped_all(s, quote) =~= escaped(b, quote));
    if (b < ' ' as u8 && b != '\t' as u8 && b != '\n' as u8 && b != '\r' as u8) || b > '~' as u8 {
        assert(escaped(b, quote) =~= seq![
            '\\',
            'x',
            hex_digit((b / 16) as u8) as char,
            hex_digit((b % 16) as u8) as char,
        ]);
    }
}

/// The number that decimal digits stand for.
pub open spec fn decimal_value(t: Seq<char>) -> int
    decreases t.len(),
{
    if t.len() == 0 {
        0
    } else {
        10 * decimal_value(t.drop_last()) + (t.last() as int - '0' as int)
    }
}

/// A number is written in decimal digits that stand for it, without a zero in front of others.
pub proof fn law_decimal(n: nat)
    ensures
        decimal_value(decimal_text(n)) == n,
        decimal_text(n).len() > 0,
        decimal_text(n).len() > 1 ==> decimal_text(n)[0] != '0',
        n > 0 ==> decimal_text(n)[0] != '0',
        forall|i: int| 0 <= i < decimal_text(n).len() ==> '0' <= #[trigger] decimal_text(n)[i] <= '9',
    decreases n,
{
    let t = decimal_text(n);
    if n < 10 {
        assert(t.drop_last() =~= Seq::empty());
        assert(decimal_value(t.drop_last()) == 0);
        assert(t.last() as int == 0x30 + n);
    } else {
        law_decimal(n / 10);
        assert(t.drop_last() =~= decimal_text(n / 10));
        assert(t.last() == digit_char((n % 10) as int));
    }
}

} // verus!
