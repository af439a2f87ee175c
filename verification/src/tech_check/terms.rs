//! Case-insensitive, word-bounded occurrences of a term in a text.
//!
//! Positions are character indices into the text.

use vstd::prelude::*;
use crate::text::{
    ascii_lower, ascii_lower_exec, eq_ignore_ascii_case, is_ascii_alnum, is_ascii_alnum_exec,
    same_char_ignoring_ascii_case, lemma_ascii_lower_same,
};
use crate::tech_check::spans::ranges_view;

verus! {

/// `needle` matches `hay` at `i`, ignoring ASCII case.
pub open spec fn ci_match_at(hay: Seq<char>, needle: Seq<char>, i: int) -> bool {
    0 <= i && i + needle.len() <= hay.len() && eq_ignore_ascii_case(
        hay.subrange(i, i + needle.len()),
        needle,
    )
}

/// A match is whole-word when the characters next to it are not ASCII
/// letters or digits (or it is at the text's start or end): position `pos`
/// is past the end or holds such a character.
pub open spec fn word_boundary_at(t: Seq<char>, pos: int) -> bool {
    pos >= t.len() || !is_ascii_alnum(t[pos])
}

/// `term` occurs at `i` as a whole word, ignoring ASCII case.
pub open spec fn term_match(t: Seq<char>, term: Seq<char>, i: int) -> bool {
    &&& term.len() > 0
    &&& ci_match_at(t, term, i)
    &&& (i == 0 || word_boundary_at(t, i - 1))
    &&& word_boundary_at(t, i + term.len())
}

/// The whole-word occurrences of `term` at or after `pos`, as ranges, in order.
pub open spec fn occurrences_from(t: Seq<char>, term: Seq<char>, pos: int) -> Seq<(int, int)>
    decreases t.len() + 1 - pos,
{
    if pos < 0 || pos > t.len() {
        Seq::empty()
    } else {
        let here = if term_match(t, term, pos) {
            seq![(pos, pos + term.len())]
        } else {
            Seq::empty()
        };
        here + occurrences_from(t, term, pos + 1)
    }
}

/// The whole-word occurrences of `term` in the text, in order.
pub open spec fn term_occurrences(t: Seq<char>, term: Seq<char>) -> Seq<(int, int)> {
    occurrences_from(t, term, 0)
}

/// Whether the character at `pos` is not an ASCII letter or digit (or
/// `pos` is past the end).
pub fn is_word_boundary(text: &[char], pos: usize) -> (r: bool)
    ensures
        r == word_boundary_at(text@, pos as int),
{
    if pos >= text.len() {
        return true;
    }
    !is_ascii_alnum_exec(text[pos])
}

/// Whether `needle` matches `hay` at `i`, ignoring ASCII case.
pub fn ci_match_exec(hay: &[char], needle: &[char], i: usize) -> (r: bool)
    ensures
        r == ci_match_at(hay@, needle@, i as int),
{
    if i > hay.len() || needle.len() > hay.len() - i {
        return false;
    }
    let ghost sub = hay@.subrange(i as int, i + needle@.len());
    let mut k: usize = 0;
    while k < needle.len()
        invariant
            i + needle@.len() <= hay@.len(),
            hay@.len() <= usize::MAX,
            k <= needle@.len(),
            sub == hay@.subrange(i as int, i + needle@.len()),
            forall|j: int| 0 <= j < k ==> ascii_lower(#[trigger] sub[j]) == ascii_lower(needle@[j]),
        decreases needle@.len() - k,
    {
        if ascii_lower_exec(hay[i + k]) != ascii_lower_exec(needle[k]) {
            assert(sub[k as int] == hay@[i + k]);
            return false;
        }
        k = k + 1;
    }
    true
}

/// The first position at or after `start` where `needle` matches, ignoring
/// ASCII case; `None` for an empty needle.
pub fn find_case_insensitive(haystack: &[char], needle: &[char], start: usize) -> (r: Option<usize>)
    ensures
        match r {
            Some(i) => needle@.len() > 0 && start <= i && ci_match_at(haystack@, needle@, i as int)
                && forall|k: int| start <= k < i ==> !ci_match_at(haystack@, needle@, k),
            None => needle@.len() == 0 || forall|k: int|
                start <= k ==> !ci_match_at(haystack@, needle@, k),
        },
{
    let hl = haystack.len();
    let nl = needle.len();
    if nl == 0 {
        return None;
    }
    if start > hl || nl > hl - start {
        assert forall|k: int| start <= k implies !ci_match_at(haystack@, needle@, k) by {
            assert(k + needle@.len() > haystack@.len());
        }
        return None;
    }
    let last = hl - nl;
    let mut i = start;
    while i <= last
        invariant
            start <= i,
            last + nl == hl,
            hl == haystack@.len(),
            nl == needle@.len(),
            nl > 0,
            forall|k: int| start <= k < i ==> !ci_match_at(haystack@, needle@, k),
        decreases last + 1 - i,
    {
        if ci_match_exec(haystack, needle, i) {
            return Some(i);
        }
        i = i + 1;
    }
    assert forall|k: int| start <= k implies !ci_match_at(haystack@, needle@, k) by {
        if k > last {
            assert(k + needle@.len() > haystack@.len());
        }
    }
    None
}

proof fn lemma_occurrences_skip(t: Seq<char>, term: Seq<char>, a: int, b: int)
    requires
        0 <= a <= b <= t.len() + 1,
        forall|k: int| a <= k < b ==> !ci_match_at(t, term, k),
    ensures
        occurrences_from(t, term, a) == occurrences_from(t, term, b),
    decreases b - a,
{
    if a < b {
        lemma_occurrences_skip(t, term, a + 1, b);
        assert(!term_match(t, term, a));
        assert(occurrences_from(t, term, a) == Seq::<(int, int)>::empty() + occurrences_from(t, term, a + 1));
    }
}

proof fn lemma_occurrences_none(t: Seq<char>, term: Seq<char>, a: int)
    requires
        0 <= a,
        term.len() == 0 || forall|k: int| a <= k ==> !ci_match_at(t, term, k),
    ensures
        occurrences_from(t, term, a) == Seq::<(int, int)>::empty(),
    decreases t.len() + 1 - a,
{
    if a <= t.len() {
        lemma_occurrences_none(t, term, a + 1);
        assert(!term_match(t, term, a));
        assert(occurrences_from(t, term, a) == Seq::<(int, int)>::empty() + occurrences_from(t, term, a + 1));
    }
}

/// Every whole-word occurrence of `term` in `text` (ignoring ASCII case), as ranges.
pub fn find_term_occurrences(text: &[char], term: &[char]) -> (r: Vec<(usize, usize)>)
    ensures
        ranges_view(r@) == term_occurrences(text@, term@),
{
    let ghost t = text@;
    let mut results: Vec<(usize, usize)> = Vec::new();
    let mut pos: usize = 0;
    loop
        invariant
            t == text@,
            pos <= t.len() + 1,
            ranges_view(results@) + occurrences_from(t, term@, pos as int) == term_occurrences(t, term@),
        decreases t.len() + 1 - pos,
    {
        match find_case_insensitive(text, term, pos) {
            None => {
                proof {
                    lemma_occurrences_none(t, term@, pos as int);
                    assert(ranges_view(results@) + Seq::<(int, int)>::empty() == ranges_view(results@));
                }
                return results;
            },
            Some(start) => {
                proof {
                    lemma_occurrences_skip(t, term@, pos as int, start as int);
                }
                let tl = text.len();
                assert(start + term@.len() <= tl);
                let end = start + term.len();
                let before_ok = start == 0 || is_word_boundary(text, start - 1);
                let after_ok = end >= text.len() || is_word_boundary(text, end);
                let ghost old_results = results@;
                if before_ok && after_ok {
                    results.push((start, end));
                    assert(ranges_view(results@) == ranges_view(old_results).push((start as int, end as int)));
                }
                proof {
                    let here = if term_match(t, term@, start as int) {
                        seq![(start as int, start + term@.len())]
                    } else {
                        Seq::<(int, int)>::empty()
                    };
                    assert(occurrences_from(t, term@, start as int) == here + occurrences_from(t, term@, start + 1));
                    assert(ranges_view(results@) == ranges_view(old_results) + here);
                }
                pos = start + 1;
            },
        }
    }
}


/// Every range listed by `occurrences_from` is a whole-word match of the term.
pub proof fn lemma_occurrences_sound(t: Seq<char>, term: Seq<char>, pos: int)
    ensures
        forall|k: int| 0 <= k < occurrences_from(t, term, pos).len() ==> {
            let o = #[trigger] occurrences_from(t, term, pos)[k];
            &&& pos <= o.0
            &&& term_match(t, term, o.0)
            &&& o.1 == o.0 + term.len()
        },
    decreases t.len() + 1 - pos,
{
    if !(pos < 0 || pos > t.len()) {
        lemma_occurrences_sound(t, term, pos + 1);
        let here = if term_match(t, term, pos) {
            seq![(pos, pos + term.len())]
        } else {
            Seq::<(int, int)>::empty()
        };
        let rest = occurrences_from(t, term, pos + 1);
        assert(occurrences_from(t, term, pos) == here + rest);
        assert forall|k: int| 0 <= k < occurrences_from(t, term, pos).len() implies {
            let o = #[trigger] occurrences_from(t, term, pos)[k];
            &&& pos <= o.0
            &&& term_match(t, term, o.0)
            &&& o.1 == o.0 + term.len()
        } by {
            if k >= here.len() {
                assert(occurrences_from(t, term, pos)[k] == rest[k - here.len()]);
            }
        }
    }
}

/// Every whole-word match of the term at or after `pos` is listed by `occurrences_from`.
pub proof fn lemma_occurrences_complete(t: Seq<char>, term: Seq<char>, pos: int, i: int)
    requires
        0 <= pos <= i,
        term_match(t, term, i),
    ensures
        occurrences_from(t, term, pos).contains((i, i + term.len())),
    decreases i - pos,
{
    let here = if term_match(t, term, pos) {
        seq![(pos, pos + term.len())]
    } else {
        Seq::<(int, int)>::empty()
    };
    let rest = occurrences_from(t, term, pos + 1);
    assert(occurrences_from(t, term, pos) == here + rest);
    if pos == i {
        assert(occurrences_from(t, term, pos)[0] == (i, i + term.len()));
    } else {
        lemma_occurrences_complete(t, term, pos + 1, i);
        let k = choose|k: int| 0 <= k < rest.len() && rest[k] == (i, i + term.len());
        assert(occurrences_from(t, term, pos)[k + here.len()] == (i, i + term.len()));
    }
}

/// Not an ASCII letter or digit, stated on the character's range.
spec fn outside_word(c: char) -> bool {
    !(('a' <= c && c <= 'z') || ('A' <= c && c <= 'Z') || ('0' <= c && c <= '9'))
}

/// The term is found at `i` as a whole word, ignoring ASCII case: its
/// characters match up to case, and the characters just before and just
/// after it, where there are any, are not ASCII letters or digits.
spec fn found_as_word(t: Seq<char>, term: Seq<char>, i: int) -> bool {
    &&& term.len() > 0
    &&& 0 <= i
    &&& i + term.len() <= t.len()
    &&& forall|j: int| 0 <= j < term.len() ==> same_char_ignoring_ascii_case(#[trigger] t[i + j], term[j])
    &&& (i == 0 || outside_word(t[i - 1]))
    &&& (i + term.len() == t.len() || outside_word(t[i + term.len()]))
}

proof fn lemma_term_match_found(t: Seq<char>, term: Seq<char>, i: int)
    ensures
        term_match(t, term, i) == found_as_word(t, term, i),
{
    if term.len() > 0 && 0 <= i && i + term.len() <= t.len() {
        let sub = t.subrange(i, i + term.len());
        assert forall|j: int| 0 <= j < term.len() implies (ascii_lower(#[trigger] sub[j]) == ascii_lower(term[j]))
            == same_char_ignoring_ascii_case(t[i + j], term[j]) by {
            assert(sub[j] == t[i + j]);
            lemma_ascii_lower_same(t[i + j], term[j]);
        }
        if term_match(t, term, i) {
            assert forall|j: int| 0 <= j < term.len() implies same_char_ignoring_ascii_case(
                #[trigger] t[i + j],
                term[j],
            ) by {
                assert(ascii_lower(sub[j]) == ascii_lower(term[j]));
            }
        }
        if found_as_word(t, term, i) {
            assert forall|j: int| 0 <= j < sub.len() implies ascii_lower(#[trigger] sub[j]) == ascii_lower(
                term[j],
            ) by {
                assert(same_char_ignoring_ascii_case(t[i + j], term[j]));
            }
        }
    }
}

/// The occurrences of a term in a text are exactly its whole-word matches
/// up to ASCII case: every range listed spans the term (not empty), each of
/// its characters equals the term's or is the same letter in the other case
/// (`A`..`Z` and `a`..`z` lie 32 apart), and the characters just before and
/// just after it, where there are any, are not ASCII letters or digits;
/// and every such place is listed.
pub proof fn lemma_term_occurrences_law(t: Seq<char>, term: Seq<char>)
    ensures
        forall|k: int| 0 <= k < term_occurrences(t, term).len() ==> {
            let o = #[trigger] term_occurrences(t, term)[k];
            let i = o.0;
            &&& o.1 == i + term.len()
            &&& term.len() > 0
            &&& 0 <= i
            &&& i + term.len() <= t.len()
            &&& forall|j: int|
                0 <= j < term.len() ==> (#[trigger] t[i + j] == term[j] || ('A' <= t[i + j] && t[i + j] <= 'Z'
                    && term[j] as int == t[i + j] as int + 32) || ('a' <= t[i + j] && t[i + j] <= 'z'
                    && t[i + j] as int == term[j] as int + 32))
            &&& (i == 0 || !(('a' <= t[i - 1] && t[i - 1] <= 'z') || ('A' <= t[i - 1] && t[i - 1] <= 'Z') || (
            '0' <= t[i - 1] && t[i - 1] <= '9')))
            &&& (i + term.len() == t.len() || !(('a' <= t[i + term.len()] && t[i + term.len()] <= 'z') || (
            'A' <= t[i + term.len()] && t[i + term.len()] <= 'Z') || ('0' <= t[i + term.len()]
                && t[i + term.len()] <= '9')))
        },
        forall|i: int|
            term.len() > 0 && 0 <= i && i + term.len() <= t.len() && (forall|j: int|
                0 <= j < term.len() ==> (#[trigger] t[i + j] == term[j] || ('A' <= t[i + j] && t[i + j] <= 'Z'
                    && term[j] as int == t[i + j] as int + 32) || ('a' <= t[i + j] && t[i + j] <= 'z'
                    && t[i + j] as int == term[j] as int + 32))) && (i == 0 || !(('a' <= t[i - 1] && t[i - 1]
                <= 'z') || ('A' <= t[i - 1] && t[i - 1] <= 'Z') || ('0' <= t[i - 1] && t[i - 1] <= '9')))
                && (i + term.len() == t.len() || !(('a' <= t[i + term.len()] && t[i + term.len()] <= 'z') || (
            'A' <= t[i + term.len()] && t[i + term.len()] <= 'Z') || ('0' <= t[i + term.len()]
                && t[i + term.len()] <= '9'))) ==> #[trigger] term_occurrences(t, term).contains(
                (i, i + term.len()),
            ),
{
    lemma_occurrences_sound(t, term, 0);
    assert forall|k: int| 0 <= k < term_occurrences(t, term).len() implies found_as_word(
        t,
        term,
        (#[trigger] term_occurrences(t, term)[k]).0,
    ) by {
        lemma_term_match_found(t, term, term_occurrences(t, term)[k].0);
    }
    assert forall|i: int| found_as_word(t, term, i) implies #[trigger] term_occurrences(t, term).contains(
        (i, i + term.len()),
    ) by {
        lemma_term_match_found(t, term, i);
        lemma_occurrences_complete(t, term, 0, i);
    }
}

} // verus!
