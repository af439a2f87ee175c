//! Sorting the term list, and the automatic fix of a Markdown text.

use vstd::prelude::*;
use vstd::utf8::encode_utf8;
use crate::text::{to_chars, string_of_range, push_char, strings_view, strs_view};
use crate::tech_check::spans::{ranges_view, backtick_spans};
use crate::tech_check::backticked::{
    unlisted_spans, span_inner, find_non_tech_backticked_positions,
};
use crate::tech_check::unquoted::{unquoted_spec, find_unquoted_positions};
use crate::tech_check::edits::{EditView, edits_view, apply_all, kept_edits, apply_edits};

verus! {

/// The length of a term in UTF-8 bytes (what `str::len` gives).
pub open spec fn byte_len(s: Seq<char>) -> nat {
    encode_utf8(s).len()
}

/// Inserts `x` into a list sorted by decreasing byte length, after every
/// element at least as long.
pub open spec fn insert_by_len(sorted: Seq<Seq<char>>, x: Seq<char>) -> Seq<Seq<char>>
    decreases sorted.len(),
{
    if sorted.len() == 0 {
        seq![x]
    } else if byte_len(sorted.last()) >= byte_len(x) {
        sorted.push(x)
    } else {
        insert_by_len(sorted.drop_last(), x).push(sorted.last())
    }
}

/// The terms sorted longest first (by byte length); terms of equal length keep their order.
pub open spec fn sort_by_len_desc(terms: Seq<Seq<char>>) -> Seq<Seq<char>>
    decreases terms.len(),
{
    if terms.len() == 0 {
        Seq::empty()
    } else {
        insert_by_len(sort_by_len_desc(terms.drop_last()), terms.last())
    }
}

/// The terms are in order of non-increasing byte length.
pub open spec fn longest_first(s: Seq<Seq<char>>) -> bool {
    forall|i: int, j: int| 0 <= i < j < s.len() ==> byte_len(#[trigger] s[i]) >= byte_len(#[trigger] s[j])
}

proof fn lemma_insert_by_len(sorted: Seq<Seq<char>>, x: Seq<char>)
    requires
        longest_first(sorted),
    ensures
        longest_first(insert_by_len(sorted, x)),
        insert_by_len(sorted, x).to_multiset() == sorted.to_multiset().insert(x),
        forall|k: int|
            0 <= k < insert_by_len(sorted, x).len() ==> #[trigger] insert_by_len(sorted, x)[k] == x
                || sorted.contains(insert_by_len(sorted, x)[k]),
    decreases sorted.len(),
{
    broadcast use vstd::seq_lib::group_to_multiset_ensures;

    if sorted.len() == 0 {
        assert(seq![x] == Seq::<Seq<char>>::empty().push(x));
    } else if byte_len(sorted.last()) >= byte_len(x) {
        let r = sorted.push(x);
        assert forall|k: int| 0 <= k < r.len() implies #[trigger] r[k] == x || sorted.contains(r[k]) by {
            if k < sorted.len() {
                assert(r[k] == sorted[k]);
            }
        }
    } else {
        let d = sorted.drop_last();
        assert(longest_first(d));
        lemma_insert_by_len(d, x);
        let ins = insert_by_len(d, x);
        let b = byte_len(sorted.last());
        assert forall|k: int| 0 <= k < d.len() implies byte_len(#[trigger] d[k]) >= b by {
            assert(d[k] == sorted[k]);
        }
        assert(sorted == d.push(sorted.last()));
        assert(ins.push(sorted.last()).to_multiset() == ins.to_multiset().insert(sorted.last()));
        assert(sorted.to_multiset() == d.to_multiset().insert(sorted.last()));
        assert(ins.to_multiset().insert(sorted.last()) =~= sorted.to_multiset().insert(x));
        let r = ins.push(sorted.last());
        assert forall|i: int, j: int| 0 <= i < j < r.len() implies byte_len(#[trigger] r[i]) >= byte_len(
            #[trigger] r[j],
        ) by {
            if j == r.len() - 1 {
                assert(r[i] == ins[i]);
                if ins[i] != x {
                    let q = choose|q: int| 0 <= q < d.len() && d[q] == ins[i];
                    assert(sorted[q] == d[q]);
                }
            } else {
                assert(r[i] == ins[i] && r[j] == ins[j]);
            }
        }
        assert forall|k: int| 0 <= k < r.len() implies #[trigger] r[k] == x || sorted.contains(r[k]) by {
            if k < ins.len() {
                assert(r[k] == ins[k]);
                if ins[k] != x {
                    let q = choose|q: int| 0 <= q < d.len() && d[q] == ins[k];
                    assert(sorted[q] == ins[k]);
                }
            } else {
                assert(r[k] == sorted[sorted.len() - 1]);
            }
        }
    }
}

/// The sorted terms are the given terms, each as often as given, longest
/// first.
pub proof fn lemma_sort_by_len_desc(terms: Seq<Seq<char>>)
    ensures
        longest_first(sort_by_len_desc(terms)),
        sort_by_len_desc(terms).to_multiset() == terms.to_multiset(),
    decreases terms.len(),
{
    broadcast use vstd::seq_lib::group_to_multiset_ensures;

    if terms.len() > 0 {
        lemma_sort_by_len_desc(terms.drop_last());
        lemma_insert_by_len(sort_by_len_desc(terms.drop_last()), terms.last());
        assert(terms == terms.drop_last().push(terms.last()));
    } else {
        assert(terms.to_multiset() =~= vstd::multiset::Multiset::empty());
        assert(sort_by_len_desc(terms).to_multiset() =~= vstd::multiset::Multiset::empty());
    }
}

/// Sorts the terms longest first (by byte length), so that a longer term
/// ("Android Studio") is matched before a shorter one it contains ("Android").
pub fn sorted_terms(terms: &[String]) -> (r: Vec<&str>)
    ensures
        strs_view(r@) == sort_by_len_desc(strings_view(terms@)),
{
    let ghost tv = strings_view(terms@);
    let mut sorted: Vec<&str> = Vec::new();
    let mut i: usize = 0;
    assert(tv.take(0).len() == 0);
    while i < terms.len()
        invariant
            i <= terms@.len(),
            tv == strings_view(terms@),
            strs_view(sorted@) == sort_by_len_desc(tv.take(i as int)),
        decreases terms@.len() - i,
    {
        let x: &str = terms[i].as_str();
        let key = x.as_bytes().len();
        proof {
            assert(tv.take(i + 1).drop_last() == tv.take(i as int));
            assert(tv.take(i + 1).last() == x@);
        }
        let ghost s0 = strs_view(sorted@);
        let mut p = sorted.len();
        assert(s0.take(p as int) == s0);
        assert(s0 + s0.skip(p as int) == s0);
        loop
            invariant
                p <= sorted@.len(),
                s0 == strs_view(sorted@),
                key == byte_len(x@),
                insert_by_len(s0, x@) == insert_by_len(s0.take(p as int), x@) + s0.skip(p as int),
            ensures
                p == 0 || byte_len(s0[p - 1]) >= byte_len(x@),
            decreases p,
        {
            if p == 0 {
                break;
            }
            let lp = sorted[p - 1].as_bytes().len();
            if lp >= key {
                assert(s0[p - 1] == sorted@[p - 1]@);
                break;
            }
            proof {
                let t = s0.take(p as int);
                assert(t.last() == sorted@[p - 1]@);
                assert(t.drop_last() == s0.take(p - 1));
                assert(t.len() > 0);
                assert(byte_len(t.last()) < byte_len(x@));
                assert(insert_by_len(t, x@) == insert_by_len(s0.take(p - 1), x@).push(s0[p - 1]));
                assert(s0.skip(p - 1) == seq![s0[p - 1]] + s0.skip(p as int));
                assert(insert_by_len(s0.take(p - 1), x@).push(s0[p - 1]) + s0.skip(p as int)
                    == insert_by_len(s0.take(p - 1), x@) + s0.skip(p - 1));
            }
            p = p - 1;
        }
        proof {
            let t = s0.take(p as int);
            if p > 0 {
                assert(t.last() == sorted@[p - 1]@);
            }
            assert(insert_by_len(t, x@) == t.push(x@));
        }
        sorted.insert(p, x);
        assert(strs_view(sorted@) == s0.take(p as int).push(x@) + s0.skip(p as int));
        i = i + 1;
    }
    assert(tv.take(terms@.len() as int) == tv);
    sorted
}

/// The edits that unquote each backtick span naming no listed term.
pub open spec fn removal_edits(t: Seq<char>, terms: Seq<Seq<char>>) -> Seq<EditView> {
    unlisted_spans(t, backtick_spans(t), terms).map_values(
        |sp: (int, int)| (sp.0, sp.1, span_inner(t, sp)),
    )
}

/// The edits that backtick-quote each unquoted term occurrence.
pub open spec fn addition_edits(t: Seq<char>, sorted: Seq<Seq<char>>) -> Seq<EditView> {
    unquoted_spec(t, sorted).map_values(
        |m: (int, int, int)| (m.0, m.1, seq!['`'] + t.subrange(m.0, m.1) + seq!['`']),
    )
}

/// The text with backticks removed around unlisted words.
pub open spec fn cleaned_spec(t: Seq<char>, terms: Seq<Seq<char>>) -> Seq<char> {
    apply_all(t, kept_edits(removal_edits(t, terms)))
}

/// The fixed text: first backticks are removed around unlisted words, then
/// unquoted term occurrences of the cleaned text are backtick-quoted.
pub open spec fn fix_spec(t: Seq<char>, terms: Seq<Seq<char>>, sorted: Seq<Seq<char>>) -> Seq<char> {
    let cleaned = cleaned_spec(t, terms);
    apply_all(cleaned, kept_edits(addition_edits(cleaned, sorted)))
}

/// Computes the automatic fix of a Markdown text: removes the backticks of
/// spans naming no listed term (so `CI`/`CD` becomes CI/CD), then
/// backtick-quotes the unquoted occurrences of listed terms.
pub fn fix_content(original: &str, terms: &[String], sorted_terms: &[&str]) -> (r: String)
    ensures
        r@ == fix_spec(original@, strings_view(terms@), strs_view(sorted_terms@)),
{
    let t = to_chars(original);
    let spans = find_non_tech_backticked_positions(original, terms);
    let ghost sv = ranges_view(spans@);
    proof {
        crate::tech_check::spans::lemma_spans_valid(original@, crate::tech_check::spans::fenced_ranges(original@), 0);
        lemma_unlisted_spans_sub(original@, backtick_spans(original@), strings_view(terms@));
    }
    let mut removals: Vec<(usize, usize, String)> = Vec::new();
    let mut i: usize = 0;
    while i < spans.len()
        invariant
            i <= spans@.len(),
            t@ == original@,
            sv == ranges_view(spans@),
            sv == unlisted_spans(original@, backtick_spans(original@), strings_view(terms@)),
            forall|k: int| 0 <= k < sv.len() ==> crate::tech_check::spans::valid_span(original@, #[trigger] sv[k]),
            edits_view(removals@) == removal_edits(original@, strings_view(terms@)).take(i as int),
        decreases spans@.len() - i,
    {
        let (s, e) = spans[i];
        proof {
            assert(sv[i as int] == (s as int, e as int));
            assert(crate::tech_check::spans::valid_span(original@, sv[i as int]));
        }
        let inner = string_of_range(t.as_slice(), s + 1, e - 1);
        let ghost old_r = edits_view(removals@);
        removals.push((s, e, inner));
        proof {
            let re = removal_edits(original@, strings_view(terms@));
            assert(re[i as int] == (s as int, e as int, span_inner(original@, sv[i as int])));
            assert(edits_view(removals@) == old_r.push(re[i as int]));
            assert(re.take(i + 1) == re.take(i as int).push(re[i as int]));
        }
        i = i + 1;
    }
    let ghost re = removal_edits(original@, strings_view(terms@));
    assert(re.take(spans@.len() as int) == re);
    proof {
        assert forall|k: int| 0 <= k < re.len() implies 0 <= (#[trigger] re[k]).0 <= re[k].1 <= original@.len() by {
            assert(crate::tech_check::spans::valid_span(original@, sv[k]));
        }
    }
    let cleaned = apply_edits(original, &mut removals);
    let adds = find_unquoted_positions(cleaned.as_str(), sorted_terms);
    let ghost m = unquoted_spec(cleaned@, strs_view(sorted_terms@));
    proof {
        crate::tech_check::unquoted::lemma_unquoted_matches_sound_and_complete(cleaned@, strs_view(sorted_terms@));
    }
    let mut additions: Vec<(usize, usize, String)> = Vec::new();
    let mut j: usize = 0;
    while j < adds.len()
        invariant
            j <= adds@.len(),
            adds@.len() == m.len(),
            m == unquoted_spec(cleaned@, strs_view(sorted_terms@)),
            crate::tech_check::unquoted::good_matches(
                cleaned@,
                strs_view(sorted_terms@),
                crate::tech_check::spans::fenced_ranges(cleaned@),
                backtick_spans(cleaned@),
                m,
            ),
            forall|k: int|
                0 <= k < m.len() ==> (#[trigger] adds@[k]).0 == m[k].0 && adds@[k].1 == m[k].1
                    && adds@[k].2@ == cleaned@.subrange(m[k].0, m[k].1),
            edits_view(additions@) == addition_edits(cleaned@, strs_view(sorted_terms@)).take(j as int),
        decreases adds@.len() - j,
    {
        let mut q = String::new();
        push_char(&mut q, '`');
        let mid = to_chars(adds[j].2.as_str());
        let mut w: usize = 0;
        while w < mid.len()
            invariant
                w <= mid@.len(),
                q@ == seq!['`'] + mid@.take(w as int),
            decreases mid@.len() - w,
        {
            push_char(&mut q, mid[w]);
            assert(mid@.take(w + 1) == mid@.take(w as int).push(mid@[w as int]));
            w = w + 1;
        }
        push_char(&mut q, '`');
        assert(mid@.take(mid@.len() as int) == mid@);
        let ghost old_a = edits_view(additions@);
        additions.push((adds[j].0, adds[j].1, q));
        proof {
            assert(crate::tech_check::unquoted::sound_match(
                cleaned@,
                strs_view(sorted_terms@),
                crate::tech_check::spans::fenced_ranges(cleaned@),
                backtick_spans(cleaned@),
                m[j as int],
            ));
            assert(q@ == seq!['`'] + cleaned@.subrange(m[j as int].0, m[j as int].1) + seq!['`']);
            let ae = addition_edits(cleaned@, strs_view(sorted_terms@));
            assert(ae[j as int] == (m[j as int].0, m[j as int].1, seq!['`'] + cleaned@.subrange(m[j as int].0, m[j as int].1) + seq!['`']));
            assert(edits_view(additions@) == old_a.push(ae[j as int]));
            assert(ae.take(j + 1) == ae.take(j as int).push(ae[j as int]));
        }
        j = j + 1;
    }
    let ghost ae = addition_edits(cleaned@, strs_view(sorted_terms@));
    assert(ae.take(adds@.len() as int) == ae);
    proof {
        assert forall|k: int| 0 <= k < ae.len() implies 0 <= (#[trigger] ae[k]).0 <= ae[k].1 <= cleaned@.len() by {
            assert(crate::tech_check::unquoted::sound_match(
                cleaned@,
                strs_view(sorted_terms@),
                crate::tech_check::spans::fenced_ranges(cleaned@),
                backtick_spans(cleaned@),
                m[k],
            ));
        }
    }
    apply_edits(cleaned.as_str(), &mut additions)
}

/// Every span kept by `unlisted_spans` is one of the given spans.
pub proof fn lemma_unlisted_spans_sub(t: Seq<char>, spans: Seq<(int, int)>, terms: Seq<Seq<char>>)
    ensures
        forall|k: int| 0 <= k < unlisted_spans(t, spans, terms).len() ==> spans.contains(
            #[trigger] unlisted_spans(t, spans, terms)[k],
        ),
    decreases spans.len(),
{
    if spans.len() > 0 {
        let prev = spans.drop_last();
        lemma_unlisted_spans_sub(t, prev, terms);
        let u = unlisted_spans(t, spans, terms);
        let up = unlisted_spans(t, prev, terms);
        assert forall|k: int| 0 <= k < u.len() implies spans.contains(#[trigger] u[k]) by {
            if k < up.len() {
                assert(u[k] == up[k]);
                let j = choose|j: int| 0 <= j < prev.len() && prev[j] == up[k];
                assert(spans[j] == u[k]);
            } else {
                assert(u[k] == spans.last());
                assert(spans[spans.len() - 1] == u[k]);
            }
        }
    }
}

} // verus!
