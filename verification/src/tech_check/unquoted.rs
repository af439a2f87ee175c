//! Term occurrences that are not backtick-quoted.
//!
//! Terms are tried in the order given (longest first, as the callers sort
//! them); an occurrence is reported unless it lies inside a fenced code
//! block, inside an inline backtick span, or overlaps an occurrence already
//! reported for an earlier term or earlier in the text.

use vstd::prelude::*;
use crate::text::{strs_view, to_chars, from_chars, string_of_range, newline_count, count_newlines};
use crate::tech_check::spans::{
    ranges_view, fenced_ranges, backtick_spans, inside_any, fenced_code_ranges,
    backtick_span_ranges, inside_ranges,
};
use crate::tech_check::terms::{
    term_occurrences, find_term_occurrences, term_match, lemma_occurrences_sound,
    lemma_occurrences_complete,
};

verus! {

/// `[s, e)` overlaps one of the reported matches.
pub open spec fn overlaps_any(s: int, e: int, found: Seq<(int, int, int)>) -> bool {
    exists|k: int| 0 <= k < found.len() && s < found[k].1 && e > found[k].0
}

/// An occurrence `[s, e)` is reported, given the matches reported before it.
pub open spec fn accepted(
    fenced: Seq<(int, int)>,
    spans: Seq<(int, int)>,
    found: Seq<(int, int, int)>,
    s: int,
    e: int,
) -> bool {
    !inside_any(s, e, fenced) && !inside_any(s, e, spans) && !overlaps_any(s, e, found)
}

/// Reported matches after going through the occurrences `occs` of term number `ti`,
/// starting from the matches `found`.
pub open spec fn scan_occurrences(
    fenced: Seq<(int, int)>,
    spans: Seq<(int, int)>,
    found: Seq<(int, int, int)>,
    occs: Seq<(int, int)>,
    ti: int,
) -> Seq<(int, int, int)>
    decreases occs.len(),
{
    if occs.len() == 0 {
        found
    } else {
        let before = scan_occurrences(fenced, spans, found, occs.drop_last(), ti);
        let (s, e) = occs.last();
        if accepted(fenced, spans, before, s, e) {
            before.push((s, e, ti))
        } else {
            before
        }
    }
}

/// Reported matches `(start, end, term index)` after going through the terms in order.
pub open spec fn scan_terms(
    t: Seq<char>,
    fenced: Seq<(int, int)>,
    spans: Seq<(int, int)>,
    terms: Seq<Seq<char>>,
) -> Seq<(int, int, int)>
    decreases terms.len(),
{
    if terms.len() == 0 {
        Seq::empty()
    } else {
        let before = scan_terms(t, fenced, spans, terms.drop_last());
        scan_occurrences(
            fenced,
            spans,
            before,
            term_occurrences(t, terms.last()),
            terms.len() - 1,
        )
    }
}

/// The unquoted occurrences of the terms in the text, as `(start, end, term index)`.
pub open spec fn unquoted_spec(t: Seq<char>, terms: Seq<Seq<char>>) -> Seq<(int, int, int)> {
    scan_terms(t, fenced_ranges(t), backtick_spans(t), terms)
}

pub open spec fn matches_view(v: Seq<(usize, usize, usize)>) -> Seq<(int, int, int)> {
    v.map_values(|m: (usize, usize, usize)| (m.0 as int, m.1 as int, m.2 as int))
}

pub open spec fn chars_vecs_view(v: Seq<Vec<char>>) -> Seq<Seq<char>> {
    v.map_values(|s: Vec<char>| s@)
}

/// Whether `[s, e)` overlaps one of the matches.
fn overlaps_found(s: usize, e: usize, found: &Vec<(usize, usize, usize)>) -> (r: bool)
    ensures
        r == overlaps_any(s as int, e as int, matches_view(found@)),
{
    let mut k: usize = 0;
    while k < found.len()
        invariant
            k <= found@.len(),
            forall|j: int| 0 <= j < k ==> !(s < found@[j].1 && e > found@[j].0),
        decreases found@.len() - k,
    {
        let (cs, ce, _) = found[k];
        if s < ce && e > cs {
            assert(matches_view(found@)[k as int] == (cs as int, ce as int, found@[k as int].2 as int));
            return true;
        }
        k = k + 1;
    }
    proof {
        assert forall|j: int| 0 <= j < matches_view(found@).len() implies !(s < matches_view(found@)[j].1
            && e > matches_view(found@)[j].0) by {
            assert(matches_view(found@)[j].0 == found@[j].0);
            assert(matches_view(found@)[j].1 == found@[j].1);
        }
    }
    false
}

/// The unquoted occurrences of the terms in the text, as `(start, end, term index)`.
pub fn unquoted_matches(text: &[char], terms: &Vec<Vec<char>>) -> (r: Vec<(usize, usize, usize)>)
    ensures
        matches_view(r@) == unquoted_spec(text@, chars_vecs_view(terms@)),
{
    let ghost t = text@;
    let ghost tv = chars_vecs_view(terms@);
    let fenced = fenced_code_ranges(text);
    let spans = backtick_span_ranges(text, fenced.as_slice());
    let ghost fv = ranges_view(fenced@);
    let ghost sv = ranges_view(spans@);
    let mut found: Vec<(usize, usize, usize)> = Vec::new();
    let mut ti: usize = 0;
    assert(tv.take(0).len() == 0);
    while ti < terms.len()
        invariant
            t == text@,
            tv == chars_vecs_view(terms@),
            fv == fenced_ranges(t),
            sv == backtick_spans(t),
            fv == ranges_view(fenced@),
            sv == ranges_view(spans@),
            ti <= terms@.len(),
            matches_view(found@) == scan_terms(t, fv, sv, tv.take(ti as int)),
        decreases terms@.len() - ti,
    {
        let occs = find_term_occurrences(text, terms[ti].as_slice());
        let ghost ov = ranges_view(occs@);
        let ghost start_found = matches_view(found@);
        let mut j: usize = 0;
        assert(ov.take(0).len() == 0);
        while j < occs.len()
            invariant
                t == text@,
                fv == ranges_view(fenced@),
                sv == ranges_view(spans@),
                ov == ranges_view(occs@),
                j <= occs@.len(),
                ti < terms@.len(),
                matches_view(found@) == scan_occurrences(fv, sv, start_found, ov.take(j as int), ti as int),
            decreases occs@.len() - j,
        {
            let (s, e) = occs[j];
            proof {
                assert(ov.take(j + 1).drop_last() == ov.take(j as int));
                assert(ov.take(j + 1).last() == (s as int, e as int));
            }
            let ghost old_found = found@;
            if !inside_ranges(s, e, fenced.as_slice()) && !inside_ranges(s, e, spans.as_slice())
                && !overlaps_found(s, e, &found) {
                found.push((s, e, ti));
                assert(matches_view(found@) == matches_view(old_found).push((s as int, e as int, ti as int)));
            }
            j = j + 1;
        }
        proof {
            assert(ov.take(occs@.len() as int) == ov);
            assert(tv.take(ti + 1).drop_last() == tv.take(ti as int));
            assert(tv.take(ti + 1).last() == terms@[ti as int]@);
        }
        ti = ti + 1;
    }
    assert(tv.take(terms@.len() as int) == tv);
    found
}

/// The characters of each string.
pub fn strs_to_chars(v: &[&str]) -> (r: Vec<Vec<char>>)
    ensures
        chars_vecs_view(r@) == strs_view(v@),
{
    let mut r: Vec<Vec<char>> = Vec::new();
    let mut i: usize = 0;
    while i < v.len()
        invariant
            i <= v@.len(),
            chars_vecs_view(r@) == strs_view(v@).take(i as int),
        decreases v@.len() - i,
    {
        let c = to_chars(v[i]);
        let ghost old_r = r@;
        r.push(c);
        assert(chars_vecs_view(r@) == chars_vecs_view(old_r).push(v@[i as int]@));
        assert(strs_view(v@).take(i + 1) == strs_view(v@).take(i as int).push(v@[i as int]@));
        i = i + 1;
    }
    assert(strs_view(v@).take(v@.len() as int) == strs_view(v@));
    r
}


/// Match `m` is a whole-word occurrence of its term outside code.
pub open spec fn sound_match(
    t: Seq<char>,
    terms: Seq<Seq<char>>,
    fenced: Seq<(int, int)>,
    spans: Seq<(int, int)>,
    m: (int, int, int),
) -> bool {
    &&& 0 <= m.2 < terms.len()
    &&& term_match(t, terms[m.2], m.0)
    &&& m.1 == m.0 + terms[m.2].len()
    &&& !inside_any(m.0, m.1, fenced)
    &&& !inside_any(m.0, m.1, spans)
}

/// The matches are sound and pairwise disjoint.
pub open spec fn good_matches(
    t: Seq<char>,
    terms: Seq<Seq<char>>,
    fenced: Seq<(int, int)>,
    spans: Seq<(int, int)>,
    found: Seq<(int, int, int)>,
) -> bool {
    &&& forall|k: int| 0 <= k < found.len() ==> sound_match(t, terms, fenced, spans, #[trigger] found[k])
    &&& forall|j: int, k: int|
        0 <= j < k < found.len() ==> #[trigger] found[j].1 <= #[trigger] found[k].0 || found[k].1
            <= found[j].0
}

/// `[s, e)` lies in code or overlaps one of the matches.
pub open spec fn covered(
    fenced: Seq<(int, int)>,
    spans: Seq<(int, int)>,
    found: Seq<(int, int, int)>,
    s: int,
    e: int,
) -> bool {
    inside_any(s, e, fenced) || inside_any(s, e, spans) || overlaps_any(s, e, found)
}

proof fn lemma_overlaps_prefix(s: int, e: int, a: Seq<(int, int, int)>, b: Seq<(int, int, int)>)
    requires
        a.len() <= b.len(),
        b.take(a.len() as int) == a,
        overlaps_any(s, e, a),
    ensures
        overlaps_any(s, e, b),
{
    let k = choose|k: int| 0 <= k < a.len() && s < a[k].1 && e > a[k].0;
    assert(b.take(a.len() as int)[k] == b[k]);
}

proof fn lemma_scan_occurrences(
    t: Seq<char>,
    terms: Seq<Seq<char>>,
    fenced: Seq<(int, int)>,
    spans: Seq<(int, int)>,
    found: Seq<(int, int, int)>,
    occs: Seq<(int, int)>,
    ti: int,
)
    requires
        good_matches(t, terms, fenced, spans, found),
        0 <= ti < terms.len(),
        forall|k: int| 0 <= k < occs.len() ==> term_match(t, terms[ti], (#[trigger] occs[k]).0)
            && occs[k].1 == occs[k].0 + terms[ti].len(),
    ensures
        ({
            let r = scan_occurrences(fenced, spans, found, occs, ti);
            &&& good_matches(t, terms, fenced, spans, r)
            &&& found.len() <= r.len()
            &&& r.take(found.len() as int) == found
            &&& forall|k: int| 0 <= k < occs.len() ==> covered(fenced, spans, r, (#[trigger] occs[k]).0, occs[k].1)
        }),
    decreases occs.len(),
{
    if occs.len() > 0 {
        let prev = occs.drop_last();
        lemma_scan_occurrences(t, terms, fenced, spans, found, prev, ti);
        let before = scan_occurrences(fenced, spans, found, prev, ti);
        let (s, e) = occs.last();
        let r = scan_occurrences(fenced, spans, found, occs, ti);
        assert(occs[occs.len() - 1] == (s, e));
        if accepted(fenced, spans, before, s, e) {
            assert(r == before.push((s, e, ti)));
            assert(r.take(before.len() as int) == before);
            assert(r.take(found.len() as int) == before.take(found.len() as int));
            assert forall|j: int, k: int| 0 <= j < k < r.len() implies #[trigger] r[j].1 <= #[trigger] r[k].0
                || r[k].1 <= r[j].0 by {
                if k == r.len() - 1 {
                    assert(!(s < before[j].1 && e > before[j].0));
                } else {
                    assert(r[j] == before[j] && r[k] == before[k]);
                }
            }
            assert forall|k: int| 0 <= k < r.len() implies sound_match(t, terms, fenced, spans, #[trigger] r[k]) by {
                if k < before.len() {
                    assert(r[k] == before[k]);
                }
            }
            assert(overlaps_any(s, e, r)) by {
                assert(r[r.len() - 1] == (s, e, ti));
                assert(terms[ti].len() > 0);
            }
            assert forall|k: int| 0 <= k < occs.len() implies covered(fenced, spans, r, (#[trigger] occs[k]).0, occs[k].1) by {
                if k < prev.len() {
                    assert(prev[k] == occs[k]);
                    if overlaps_any(occs[k].0, occs[k].1, before) {
                        lemma_overlaps_prefix(occs[k].0, occs[k].1, before, r);
                    }
                }
            }
        } else {
            assert(r == before);
            assert forall|k: int| 0 <= k < occs.len() implies covered(fenced, spans, r, (#[trigger] occs[k]).0, occs[k].1) by {
                if k < prev.len() {
                    assert(prev[k] == occs[k]);
                }
            }
        }
    } else {
        assert(found.take(found.len() as int) == found);
    }
}

proof fn lemma_scan_terms(
    t: Seq<char>,
    fenced: Seq<(int, int)>,
    spans: Seq<(int, int)>,
    terms: Seq<Seq<char>>,
    all: Seq<Seq<char>>,
)
    requires
        terms.len() <= all.len(),
        all.take(terms.len() as int) == terms,
    ensures
        ({
            let r = scan_terms(t, fenced, spans, terms);
            &&& good_matches(t, all, fenced, spans, r)
            &&& forall|ti: int, s: int|
                0 <= ti < terms.len() && term_match(t, terms[ti], s) ==> covered(
                    fenced,
                    spans,
                    r,
                    s,
                    s + terms[ti].len(),
                )
        }),
    decreases terms.len(),
{
    if terms.len() > 0 {
        let prev = terms.drop_last();
        let ti = terms.len() - 1;
        assert(all.take(prev.len() as int) == prev);
        lemma_scan_terms(t, fenced, spans, prev, all);
        let before = scan_terms(t, fenced, spans, prev);
        let occs = term_occurrences(t, terms.last());
        assert(terms.last() == all[ti]);
        lemma_occurrences_sound(t, terms.last(), 0);
        lemma_scan_occurrences(t, all, fenced, spans, before, occs, ti);
        let r = scan_terms(t, fenced, spans, terms);
        assert(r == scan_occurrences(fenced, spans, before, occs, ti));
        assert forall|tj: int, s: int|
            0 <= tj < terms.len() && term_match(t, terms[tj], s) implies covered(
            fenced,
            spans,
            r,
            s,
            s + terms[tj].len(),
        ) by {
            if tj < prev.len() {
                assert(prev[tj] == terms[tj]);
                if overlaps_any(s, s + terms[tj].len(), before) {
                    lemma_overlaps_prefix(s, s + terms[tj].len(), before, r);
                }
            } else {
                lemma_occurrences_complete(t, terms.last(), 0, s);
                let k = choose|k: int| 0 <= k < occs.len() && occs[k] == (s, s + terms.last().len());
                assert(covered(fenced, spans, r, occs[k].0, occs[k].1));
            }
        }
    }
}

/// The unquoted-term scan reports whole-word, case-insensitive occurrences
/// of listed terms that lie outside fenced code blocks and backtick spans;
/// no two reported occurrences overlap (a longer term tried first claims
/// its text); and every such occurrence of any listed term is reported or
/// overlaps one that is.
pub proof fn lemma_unquoted_matches_sound_and_complete(t: Seq<char>, terms: Seq<Seq<char>>)
    ensures
        good_matches(t, terms, fenced_ranges(t), backtick_spans(t), unquoted_spec(t, terms)),
        forall|ti: int, s: int|
            0 <= ti < terms.len() && term_match(t, terms[ti], s) ==> covered(
                fenced_ranges(t),
                backtick_spans(t),
                unquoted_spec(t, terms),
                s,
                s + terms[ti].len(),
            ),
{
    assert(terms.take(terms.len() as int) == terms);
    lemma_scan_terms(t, fenced_ranges(t), backtick_spans(t), terms, terms);
}


/// Finds the unquoted technical terms of a Markdown text, as
/// `(line number, term)` pairs; lines are numbered from 1.
pub fn find_unquoted_terms(content: &str, sorted_terms: &[&str]) -> (r: Vec<(usize, String)>)
    ensures
        ({
            let m = unquoted_spec(content@, strs_view(sorted_terms@));
            &&& r@.len() == m.len()
            &&& forall|k: int|
                0 <= k < m.len() ==> (#[trigger] r@[k]).0 == newline_count(content@.take(m[k].0)) + 1
                    && r@[k].1@ == sorted_terms@[m[k].2]@
        }),
{
    let t = to_chars(content);
    let tv = strs_to_chars(sorted_terms);
    let ms = unquoted_matches(t.as_slice(), &tv);
    let ghost m = matches_view(ms@);
    proof {
        lemma_unquoted_matches_sound_and_complete(t@, chars_vecs_view(tv@));
    }
    let mut r: Vec<(usize, String)> = Vec::new();
    let mut k: usize = 0;
    while k < ms.len()
        invariant
            m == matches_view(ms@),
            m == unquoted_spec(content@, strs_view(sorted_terms@)),
            t@ == content@,
            chars_vecs_view(tv@) == strs_view(sorted_terms@),
            good_matches(t@, chars_vecs_view(tv@), fenced_ranges(t@), backtick_spans(t@), m),
            k <= ms@.len(),
            r@.len() == k,
            forall|j: int|
                0 <= j < k ==> (#[trigger] r@[j]).0 == newline_count(content@.take(m[j].0)) + 1
                    && r@[j].1@ == sorted_terms@[m[j].2]@,
        decreases ms@.len() - k,
    {
        let (s, e, ti) = ms[k];
        proof {
            assert(m[k as int] == (s as int, e as int, ti as int));
            assert(sound_match(t@, chars_vecs_view(tv@), fenced_ranges(t@), backtick_spans(t@), m[k as int]));
            assert(chars_vecs_view(tv@)[ti as int] == tv@[ti as int]@);
            assert(strs_view(sorted_terms@)[ti as int] == sorted_terms@[ti as int]@);
        }
        let line = count_newlines(t.as_slice(), s) + 1;
        let term = from_chars(tv[ti].as_slice());
        r.push((line, term));
        k = k + 1;
    }
    r
}

/// Finds the unquoted technical terms of a Markdown text, as
/// `(start, end, matched text)` with character positions.
pub fn find_unquoted_positions(content: &str, sorted_terms: &[&str]) -> (r: Vec<(usize, usize, String)>)
    ensures
        ({
            let m = unquoted_spec(content@, strs_view(sorted_terms@));
            &&& r@.len() == m.len()
            &&& forall|k: int|
                0 <= k < m.len() ==> (#[trigger] r@[k]).0 == m[k].0 && r@[k].1 == m[k].1 && r@[k].2@
                    == content@.subrange(m[k].0, m[k].1)
        }),
{
    let t = to_chars(content);
    let tv = strs_to_chars(sorted_terms);
    let ms = unquoted_matches(t.as_slice(), &tv);
    let ghost m = matches_view(ms@);
    proof {
        lemma_unquoted_matches_sound_and_complete(t@, chars_vecs_view(tv@));
    }
    let mut r: Vec<(usize, usize, String)> = Vec::new();
    let mut k: usize = 0;
    while k < ms.len()
        invariant
            m == matches_view(ms@),
            m == unquoted_spec(content@, strs_view(sorted_terms@)),
            t@ == content@,
            good_matches(t@, chars_vecs_view(tv@), fenced_ranges(t@), backtick_spans(t@), m),
            k <= ms@.len(),
            r@.len() == k,
            forall|j: int|
                0 <= j < k ==> (#[trigger] r@[j]).0 == m[j].0 && r@[j].1 == m[j].1 && r@[j].2@
                    == content@.subrange(m[j].0, m[j].1),
        decreases ms@.len() - k,
    {
        let (s, e, ti) = ms[k];
        proof {
            assert(m[k as int] == (s as int, e as int, ti as int));
            assert(sound_match(t@, chars_vecs_view(tv@), fenced_ranges(t@), backtick_spans(t@), m[k as int]));
        }
        let text = string_of_range(t.as_slice(), s, e);
        r.push((s, e, text));
        k = k + 1;
    }
    r
}

} // verus!
