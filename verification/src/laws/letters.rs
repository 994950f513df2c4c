//! Laws of the classes of bytes, and of what a change of case does to each byte and to each word.
use crate::ascii::{
    all_lower, all_of, all_upper, capitalized, inside_word, is_alnum, is_alpha, is_ascii, is_digit,
    is_lower, is_space, is_upper, lowered, swapped, titlecased, titled, uppered,
};
use crate::laws::case::{law_case_tests, law_title_fixed};
use vstd::prelude::*;

verus! {

/// The classes of bytes, by the characters that they stand for in ASCII.
pub proof fn law_byte_classes(b: u8)
    ensures
        is_lower(b) <==> 'a' as u8 <= b <= 'z' as u8,
        is_upper(b) <==> 'A' as u8 <= b <= 'Z' as u8,
        is_digit(b) <==> '0' as u8 <= b <= '9' as u8,
        is_alpha(b) <==> is_lower(b) || is_upper(b),
        is_alnum(b) <==> is_alpha(b) || is_digit(b),
        is_space(b) <==> {
            ||| b == ' ' as u8
            ||| b == '\t' as u8
            ||| b == '\n' as u8
            ||| b == '\u{b}' as u8
            ||| b == '\u{c}' as u8
            ||| b == '\r' as u8
        },
        is_ascii(b) <==> b <= '\u{7f}' as u8,
{
}

/// A change of case exchanges a letter for the one at the same place of the other alphabet, and
/// leaves every other byte.
pub proof fn law_changed_letters(s: Seq<u8>, i: int)
    requires
        0 <= i < s.len(),
    ensures
        ({
            let b = s[i];
            let low = 'A' as u8 <= b <= 'Z' as u8;
            let high = 'a' as u8 <= b <= 'z' as u8;
            &&& lowered(s)[i] == if low {
                b - 'A' as u8 + 'a' as u8
            } else {
                b as int
            }
            &&& uppered(s)[i] == if high {
                b - 'a' as u8 + 'A' as u8
            } else {
                b as int
            }
            &&& swapped(s)[i] == if low {
                b - 'A' as u8 + 'a' as u8
            } else if high {
                b - 'a' as u8 + 'A' as u8
            } else {
                b as int
            }
        }),
{
}

/// To capitalize puts the first byte in upper case and all others in lower case.
pub proof fn law_capitalized(s: Seq<u8>)
    requires
        s.len() > 0,
    ensures
        capitalized(s) == uppered(s.take(1)) + lowered(s.skip(1)),
{
    assert(capitalized(s) =~= uppered(s.take(1)) + lowered(s.skip(1)));
}

/// A title capitalizes each word: what is cut at a byte that is no letter has the titles of both
/// sides, and of letters alone the title is the capitalized word.
pub proof fn law_titled(a: Seq<u8>, c: u8, b: Seq<u8>)
    ensures
        !is_alpha(c) ==> titled(a + seq![c] + b) == titled(a) + seq![c] + titled(b),
        (forall|i: int| 0 <= i < a.len() ==> is_alpha(#[trigger] a[i])) ==> titled(a)
            == capitalized(a),
{
    if !is_alpha(c) {
        let s = a + seq![c] + b;
        let t = titled(a) + seq![c] + titled(b);
        let n = a.len() as int;
        assert forall|i: int| 0 <= i < s.len() implies titled(s)[i] == t[i] by {
            if i < n {
                assert(s[i] == a[i]);
                if i > 0 {
                    assert(s[i - 1] == a[i - 1]);
                }
            } else if i == n {
                assert(s[i] == c);
            } else {
                let j = i - n - 1;
                assert(s[i] == b[j]);
                if j > 0 {
                    assert(s[i - 1] == b[j - 1]);
                } else {
                    assert(s[i - 1] == c);
                }
                assert(inside_word(s, i) == inside_word(b, j));
                assert(t[i] == titled(b)[j]);
            }
        }
        assert(titled(s) =~= t);
    }
    if forall|i: int| 0 <= i < a.len() ==> is_alpha(#[trigger] a[i]) {
        assert(titled(a) =~= capitalized(a));
    }
}

/// Whether `s` holds a letter.
pub open spec fn has_letter(s: Seq<u8>) -> bool {
    exists|i: int| 0 <= i < s.len() && is_alpha(#[trigger] s[i])
}

/// The tests of case hold exactly of what has a letter and is not changed by putting it in that case.
pub proof fn law_case_is_fixed(s: Seq<u8>)
    ensures
        all_lower(s) <==> has_letter(s) && lowered(s) == s,
        all_upper(s) <==> has_letter(s) && uppered(s) == s,
        titlecased(s) <==> has_letter(s) && titled(s) == s,
{
    if has_letter(s) {
        let i = choose|i: int| 0 <= i < s.len() && is_alpha(#[trigger] s[i]);
        law_title_fixed(s, i);
        law_case_tests(s, i);
    }
    if all_lower(s) {
        let i = choose|i: int| 0 <= i < s.len() && is_lower(#[trigger] s[i]);
        assert(is_alpha(s[i]));
        assert(lowered(s) =~= s);
    }
    if all_upper(s) {
        let i = choose|i: int| 0 <= i < s.len() && is_upper(#[trigger] s[i]);
        assert(is_alpha(s[i]));
        assert(uppered(s) =~= s);
    }
}

/// A class holds of nothing never, of one byte where it holds of it, and of two pieces where it holds
/// of both.
pub proof fn law_class_of_pieces(a: Seq<u8>, b: Seq<u8>, c: u8, class: spec_fn(u8) -> bool)
    ensures
        !all_of(Seq::empty(), class),
        all_of(seq![c], class) <==> class(c),
        a.len() > 0 && b.len() > 0 ==> (all_of(a + b, class) <==> all_of(a, class) && all_of(
            b,
            class,
        )),
{
    let one = seq![c];
    assert(one[0] == c);
    if a.len() > 0 && b.len() > 0 {
        let s = a + b;
        if all_of(s, class) {
            assert forall|i: int| 0 <= i < a.len() implies class(#[trigger] a[i]) by {
                assert(s[i] == a[i]);
            }
            assert forall|i: int| 0 <= i < b.len() implies class(#[trigger] b[i]) by {
                assert(s[a.len() + i] == b[i]);
            }
        }
        if all_of(a, class) && all_of(b, class) {
            assert forall|i: int| 0 <= i < s.len() implies class(#[trigger] s[i]) by {
                if i < a.len() {
                    assert(s[i] == a[i]);
                } else {
                    assert(s[i] == b[i - a.len()]);
                }
            }
        }
    }
}

} // verus!
