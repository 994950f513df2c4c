//! Laws of letter case and of the classes of bytes.
use crate::ascii::{
    all_lower, all_of, all_upper, capitalized, inside_word, is_alnum, is_alpha, is_digit, is_lower,
    is_upper, lowered, swapped, titlecased, titled, uppered,
};
use vstd::prelude::*;

verus! {

/// The case of letters is changed, nothing else: lengths stay, and so does every byte that is no
/// letter.
pub proof fn law_case_keeps_others(s: Seq<u8>)
    ensures
        lowered(s).len() == s.len(),
        uppered(s).len() == s.len(),
        swapped(s).len() == s.len(),
        capitalized(s).len() == s.len(),
        titled(s).len() == s.len(),
        forall|i: int|
            0 <= i < s.len() && !is_alpha(#[trigger] s[i]) ==> lowered(s)[i] == s[i] && uppered(
                s,
            )[i] == s[i] && swapped(s)[i] == s[i] && capitalized(s)[i] == s[i] && titled(s)[i]
                == s[i],
{
}

/// The last change of case decides.
pub proof fn law_last_case_decides(s: Seq<u8>)
    ensures
        lowered(lowered(s)) == lowered(s),
        lowered(uppered(s)) == lowered(s),
        lowered(swapped(s)) == lowered(s),
        uppered(uppered(s)) == uppered(s),
        uppered(lowered(s)) == uppered(s),
        uppered(swapped(s)) == uppered(s),
        capitalized(lowered(s)) == capitalized(s),
        capitalized(uppered(s)) == capitalized(s),
{
    assert(lowered(lowered(s)) =~= lowered(s));
    assert(lowered(uppered(s)) =~= lowered(s));
    assert(lowered(swapped(s)) =~= lowered(s));
    assert(uppered(uppered(s)) =~= uppered(s));
    assert(uppered(lowered(s)) =~= uppered(s));
    assert(uppered(swapped(s)) =~= uppered(s));
    assert(capitalized(lowered(s)) =~= capitalized(s));
    assert(capitalized(uppered(s)) =~= capitalized(s));
}

/// Exchanged twice, the case is as it was.
pub proof fn law_swap_twice(s: Seq<u8>)
    ensures
        swapped(swapped(s)) == s,
{
    assert(swapped(swapped(s)) =~= s);
}

/// What has a letter is in lower case once it was put in lower case, and so on.
pub proof fn law_case_tests(s: Seq<u8>, i: int)
    requires
        0 <= i < s.len(),
        is_alpha(s[i]),
    ensures
        all_lower(lowered(s)),
        all_upper(uppered(s)),
        titlecased(titled(s)),
{
    assert(is_lower(lowered(s)[i]));
    assert(is_upper(uppered(s)[i]));
    let t = titled(s);
    assert(is_alpha(t[i]));
    assert forall|j: int| 0 <= j < t.len() implies (is_upper(#[trigger] t[j]) ==> !inside_word(
        t,
        j,
    )) && (is_lower(t[j]) ==> inside_word(t, j)) by {
        if j > 0 {
            assert(is_alpha(t[j - 1]) == is_alpha(s[j - 1]));
        }
        assert(inside_word(t, j) == inside_word(s, j));
    }
}

/// Title case is kept by `title`, and changed otherwise: what has a letter is in title case exactly
/// where `title` leaves it as it is.
pub proof fn law_title_fixed(s: Seq<u8>, i: int)
    requires
        0 <= i < s.len(),
        is_alpha(s[i]),
    ensures
        titlecased(s) <==> titled(s) == s,
{
    if titlecased(s) {
        assert(titled(s) =~= s);
    }
    if titled(s) == s {
        law_case_tests(s, i);
    }
}

/// Nothing is in lower case and in upper case.
pub proof fn law_lower_not_upper(s: Seq<u8>)
    ensures
        !(all_lower(s) && all_upper(s)),
{
}

/// What consists of letters, or of digits, consists of letters and digits.
pub proof fn law_classes(s: Seq<u8>)
    ensures
        all_of(s, |b: u8| is_alpha(b)) ==> all_of(s, |b: u8| is_alnum(b)),
        all_of(s, |b: u8| is_digit(b)) ==> all_of(s, |b: u8| is_alnum(b)),
        !(all_of(s, |b: u8| is_alpha(b)) && all_of(s, |b: u8| is_digit(b))),
{
    if all_of(s, |b: u8| is_alpha(b)) && all_of(s, |b: u8| is_digit(b)) {
        assert(is_alpha(s[0]) && is_digit(s[0]));
    }
}

} // verus!
