//! Backtick-quoted words of a Markdown text.

use vstd::prelude::*;
use crate::text::{
    strings_view, split_on, trim, vecs_view, split_chars, trim_chars, to_chars, from_chars,
    chars_eq, chars_eq_ignore_ascii_case, eq_ignore_ascii_case, sub_vec, ascii_lower,
    lemma_ascii_lower_same, split_from, occurs_at, trim_start, trim_end, is_whitespace,
};
use crate::tech_check::spans::{
    ranges_view, fenced_ranges, backtick_spans, spans_from, fence_skip, tick_close,
    lemma_fence_skip, lemma_tick_close, fenced_code_ranges, backtick_span_ranges, valid_span,
    lemma_spans_valid,
};

verus! {

/// The pieces of every sequence split on `sep`, concatenated in order.
pub open spec fn flat_split(pieces: Seq<Seq<char>>, sep: Seq<char>) -> Seq<Seq<char>>
    decreases pieces.len(),
{
    if pieces.len() == 0 {
        Seq::empty()
    } else {
        flat_split(pieces.drop_last(), sep) + split_on(pieces.last(), sep)
    }
}

/// The trimmed tokens that are not empty after trimming, in order.
pub open spec fn trimmed_nonempty(toks: Seq<Seq<char>>) -> Seq<Seq<char>>
    decreases toks.len(),
{
    if toks.len() == 0 {
        Seq::empty()
    } else {
        let prev = trimmed_nonempty(toks.drop_last());
        let x = trim(toks.last());
        if x.len() > 0 {
            prev.push(x)
        } else {
            prev
        }
    }
}

pub open spec fn comma() -> Seq<char> {
    seq![',']
}

pub open spec fn and_sep() -> Seq<char> {
    seq![' ', 'a', 'n', 'd', ' ']
}

pub open spec fn or_sep() -> Seq<char> {
    seq![' ', 'o', 'r', ' ']
}

/// The terms of a backtick-quoted string: split on commas, then on " and ",
/// then on " or ", each piece trimmed, empty pieces dropped.
pub open spec fn split_backticked_spec(inner: Seq<char>) -> Seq<Seq<char>> {
    trimmed_nonempty(flat_split(flat_split(split_on(inner, comma()), and_sep()), or_sep()))
}

/// Characters that mark inline code rather than a term.
pub open spec fn is_code_char(c: char) -> bool {
    c == '(' || c == ')' || c == '{' || c == '}' || c == '[' || c == ']' || c == ';' || c == '='
        || c == '>' || c == '<' || c == '|' || c == '\\' || c == '"' || c == '\''
}

/// A backtick-quoted string names terms: it splits into at least one term,
/// and no term holds a space or a code character.
pub open spec fn looks_like_term_reference_spec(inner: Seq<char>) -> bool {
    let parts = split_backticked_spec(inner);
    &&& parts.len() > 0
    &&& forall|k: int, j: int|
        0 <= k < parts.len() && 0 <= j < parts[k].len() ==> #[trigger] parts[k][j] != ' '
            && !is_code_char(parts[k][j])
}

proof fn lemma_split_keeps_char(s: Seq<char>, sep: Seq<char>, start: int, pos: int, q: int)
    requires
        0 <= start <= q < s.len(),
        start <= pos,
        !sep.contains(s[q]),
    ensures
        exists|k: int|
            0 <= k < split_from(s, sep, start, pos).len() && (#[trigger] split_from(s, sep, start, pos)[k]).contains(
                s[q],
            ),
    decreases s.len() + 1 - pos,
{
    let r = split_from(s, sep, start, pos);
    if sep.len() == 0 || pos < start || start < 0 || pos + sep.len() > s.len() {
        let piece = s.subrange(start, s.len() as int);
        assert(r[0] == piece);
        assert(piece[q - start] == s[q]);
    } else if occurs_at(s, sep, pos) {
        if q < pos {
            let piece = s.subrange(start, pos);
            assert(r[0] == piece);
            assert(piece[q - start] == s[q]);
        } else if q < pos + sep.len() {
            assert(s.subrange(pos, pos + sep.len())[q - pos] == s[q]);
            assert(sep[q - pos] == s[q]);
        } else {
            lemma_split_keeps_char(s, sep, pos + sep.len(), pos + sep.len(), q);
            let rest = split_from(s, sep, pos + sep.len(), pos + sep.len());
            let k = choose|k: int| 0 <= k < rest.len() && (#[trigger] rest[k]).contains(s[q]);
            assert(r[k + 1] == rest[k]);
        }
    } else {
        lemma_split_keeps_char(s, sep, start, pos + 1, q);
    }
}

proof fn lemma_flat_split_keeps_char(pieces: Seq<Seq<char>>, sep: Seq<char>, c: char)
    requires
        exists|k: int| 0 <= k < pieces.len() && (#[trigger] pieces[k]).contains(c),
        !sep.contains(c),
    ensures
        exists|m: int| 0 <= m < flat_split(pieces, sep).len() && (#[trigger] flat_split(pieces, sep)[m]).contains(c),
    decreases pieces.len(),
{
    let k = choose|k: int| 0 <= k < pieces.len() && (#[trigger] pieces[k]).contains(c);
    let d = pieces.drop_last();
    let a = flat_split(d, sep);
    let b = split_on(pieces.last(), sep);
    assert(flat_split(pieces, sep) == a + b);
    if k == pieces.len() - 1 {
        let q = choose|q: int| 0 <= q < pieces.last().len() && pieces.last()[q] == c;
        lemma_split_keeps_char(pieces.last(), sep, 0, 0, q);
        let m = choose|m: int| 0 <= m < b.len() && (#[trigger] b[m]).contains(c);
        assert((a + b)[a.len() + m] == b[m]);
    } else {
        assert(d[k] == pieces[k]);
        lemma_flat_split_keeps_char(d, sep, c);
        let m = choose|m: int| 0 <= m < a.len() && (#[trigger] a[m]).contains(c);
        assert((a + b)[m] == a[m]);
    }
}

proof fn lemma_trim_start_keeps_char(s: Seq<char>, c: char)
    requires
        s.contains(c),
        !is_whitespace(c),
    ensures
        trim_start(s).contains(c),
    decreases s.len(),
{
    if s.len() > 0 && is_whitespace(s[0]) {
        let q = choose|q: int| 0 <= q < s.len() && s[q] == c;
        assert(q != 0);
        assert(s.drop_first()[q - 1] == c);
        lemma_trim_start_keeps_char(s.drop_first(), c);
    }
}

proof fn lemma_trim_end_keeps_char(s: Seq<char>, c: char)
    requires
        s.contains(c),
        !is_whitespace(c),
    ensures
        trim_end(s).contains(c),
    decreases s.len(),
{
    if s.len() > 0 && is_whitespace(s.last()) {
        let q = choose|q: int| 0 <= q < s.len() && s[q] == c;
        assert(q != s.len() - 1);
        assert(s.drop_last()[q] == c);
        lemma_trim_end_keeps_char(s.drop_last(), c);
    }
}

proof fn lemma_trimmed_keeps_char(toks: Seq<Seq<char>>, c: char)
    requires
        exists|k: int| 0 <= k < toks.len() && (#[trigger] toks[k]).contains(c),
        !is_whitespace(c),
    ensures
        exists|m: int| 0 <= m < trimmed_nonempty(toks).len() && (#[trigger] trimmed_nonempty(toks)[m]).contains(c),
    decreases toks.len(),
{
    let k = choose|k: int| 0 <= k < toks.len() && (#[trigger] toks[k]).contains(c);
    let d = toks.drop_last();
    let prev = trimmed_nonempty(d);
    if k == toks.len() - 1 {
        lemma_trim_start_keeps_char(toks.last(), c);
        lemma_trim_end_keeps_char(trim_start(toks.last()), c);
        let x = trim(toks.last());
        assert(x.contains(c));
        assert(x.len() > 0);
        assert(trimmed_nonempty(toks) == prev.push(x));
        assert(trimmed_nonempty(toks)[prev.len() as int] == x);
    } else {
        assert(d[k] == toks[k]);
        lemma_trimmed_keeps_char(d, c);
        let m = choose|m: int| 0 <= m < prev.len() && (#[trigger] prev[m]).contains(c);
        let x = trim(toks.last());
        if x.len() > 0 {
            assert(trimmed_nonempty(toks) == prev.push(x));
            assert(trimmed_nonempty(toks)[m] == prev[m]);
        } else {
            assert(trimmed_nonempty(toks) == prev);
        }
    }
}

/// A backtick-quoted string that holds any of `(` `)` `{` `}` `[` `]` `;`
/// `=` `>` `<` `|` `\` `"` `'` is inline code, never a term reference.
pub proof fn lemma_term_reference_has_no_code(inner: Seq<char>)
    requires
        looks_like_term_reference_spec(inner),
    ensures
        forall|i: int|
            0 <= i < inner.len() ==> #[trigger] inner[i] != '(' && inner[i] != ')' && inner[i] != '{' && inner[i]
                != '}' && inner[i] != '[' && inner[i] != ']' && inner[i] != ';' && inner[i] != '=' && inner[i]
                != '>' && inner[i] != '<' && inner[i] != '|' && inner[i] != '\\' && inner[i] != '"' && inner[i]
                != '\'',
{
    assert forall|i: int| 0 <= i < inner.len() implies #[trigger] inner[i] != '(' && inner[i] != ')' && inner[i]
        != '{' && inner[i] != '}' && inner[i] != '[' && inner[i] != ']' && inner[i] != ';' && inner[i] != '='
        && inner[i] != '>' && inner[i] != '<' && inner[i] != '|' && inner[i] != '\\' && inner[i] != '"'
        && inner[i] != '\'' by {
        let c = inner[i];
        if c == '(' || c == ')' || c == '{' || c == '}' || c == '[' || c == ']' || c == ';' || c == '='
            || c == '>' || c == '<' || c == '|' || c == '\\' || c == '"' || c == '\'' {
            assert(!comma().contains(c));
            assert(!and_sep().contains(c));
            assert(!or_sep().contains(c));
            assert(!is_whitespace(c));
            lemma_split_keeps_char(inner, comma(), 0, 0, i);
            let p1 = split_on(inner, comma());
            lemma_flat_split_keeps_char(p1, and_sep(), c);
            let p2 = flat_split(p1, and_sep());
            lemma_flat_split_keeps_char(p2, or_sep(), c);
            let p3 = flat_split(p2, or_sep());
            lemma_trimmed_keeps_char(p3, c);
            let parts = split_backticked_spec(inner);
            let m = choose|m: int| 0 <= m < parts.len() && (#[trigger] parts[m]).contains(c);
            let j = choose|j: int| 0 <= j < parts[m].len() && parts[m][j] == c;
            assert(parts[m][j] != ' ' && !is_code_char(parts[m][j]));
        }
    }
}

/// The text between the backticks of a span.
pub open spec fn span_inner(t: Seq<char>, span: (int, int)) -> Seq<char> {
    t.subrange(span.0 + 1, span.1 - 1)
}

/// The terms named by the given spans, in order, repeats kept.
pub open spec fn terms_of_spans(t: Seq<char>, spans: Seq<(int, int)>) -> Seq<Seq<char>>
    decreases spans.len(),
{
    if spans.len() == 0 {
        Seq::empty()
    } else {
        let prev = terms_of_spans(t, spans.drop_last());
        let inner = span_inner(t, spans.last());
        if looks_like_term_reference_spec(inner) {
            prev + split_backticked_spec(inner)
        } else {
            prev
        }
    }
}

/// The sequence without repeats, each element kept where it first occurs.
pub open spec fn dedup(s: Seq<Seq<char>>) -> Seq<Seq<char>>
    decreases s.len(),
{
    if s.len() == 0 {
        Seq::empty()
    } else {
        let prev = dedup(s.drop_last());
        if prev.contains(s.last()) {
            prev
        } else {
            prev.push(s.last())
        }
    }
}

/// `dedup` keeps each element of the sequence exactly once: the result
/// holds the same elements, none twice (the set of terms).
pub proof fn lemma_dedup(s: Seq<Seq<char>>)
    ensures
        forall|i: int, j: int| 0 <= i < j < dedup(s).len() ==> #[trigger] dedup(s)[i] != #[trigger] dedup(s)[j],
        forall|x: Seq<char>| #[trigger] dedup(s).contains(x) <==> s.contains(x),
    decreases s.len(),
{
    if s.len() > 0 {
        let d = s.drop_last();
        lemma_dedup(d);
        let prev = dedup(d);
        let r = dedup(s);
        assert forall|i: int, j: int| 0 <= i < j < r.len() implies #[trigger] r[i] != #[trigger] r[j] by {
            if j == prev.len() {
                assert(r[i] == prev[i]);
                assert(prev.contains(prev[i]));
            } else {
                assert(r[i] == prev[i] && r[j] == prev[j]);
            }
        }
        assert forall|x: Seq<char>| #[trigger] r.contains(x) <==> s.contains(x) by {
            if s.contains(x) {
                let k = choose|k: int| 0 <= k < s.len() && s[k] == x;
                if k < s.len() - 1 {
                    assert(d[k] == x);
                    assert(d.contains(x));
                    assert(prev.contains(x));
                    let q = choose|q: int| 0 <= q < prev.len() && prev[q] == x;
                    assert(r[q] == x);
                } else if !prev.contains(s.last()) {
                    assert(r[prev.len() as int] == x);
                } else {
                    let q = choose|q: int| 0 <= q < prev.len() && prev[q] == x;
                    assert(r[q] == x);
                }
            }
            if r.contains(x) {
                let q = choose|q: int| 0 <= q < r.len() && r[q] == x;
                if q < prev.len() {
                    assert(r[q] == prev[q]);
                    assert(prev.contains(x));
                    assert(d.contains(x));
                    let k = choose|k: int| 0 <= k < d.len() && d[k] == x;
                    assert(s[k] == x);
                } else {
                    assert(s[s.len() - 1] == x);
                }
            }
        }
    }
}

/// The distinct backtick-quoted terms of a text, in order of first appearance.
pub open spec fn backticked_terms_spec(t: Seq<char>) -> Seq<Seq<char>> {
    dedup(terms_of_spans(t, backtick_spans(t)))
}

/// Some listed term equals `p` up to ASCII case.
pub open spec fn is_listed(terms: Seq<Seq<char>>, p: Seq<char>) -> bool {
    exists|k: int| 0 <= k < terms.len() && eq_ignore_ascii_case(terms[k], p)
}

/// None of the span's terms is listed.
pub open spec fn all_unlisted(terms: Seq<Seq<char>>, parts: Seq<Seq<char>>) -> bool {
    forall|k: int| 0 <= k < parts.len() ==> !is_listed(terms, #[trigger] parts[k])
}

/// The spans that look like term references and name no listed term.
pub open spec fn unlisted_spans(t: Seq<char>, spans: Seq<(int, int)>, terms: Seq<Seq<char>>) -> Seq<
    (int, int),
>
    decreases spans.len(),
{
    if spans.len() == 0 {
        Seq::empty()
    } else {
        let prev = unlisted_spans(t, spans.drop_last(), terms);
        let inner = span_inner(t, spans.last());
        if looks_like_term_reference_spec(inner) && all_unlisted(
            terms,
            split_backticked_spec(inner),
        ) {
            prev.push(spans.last())
        } else {
            prev
        }
    }
}

/// No listed term equals `p` up to ASCII case, stated on the characters:
/// every term differs from `p` in length or in some character that is not
/// the same letter in the other case.
pub open spec fn unlisted_literal(terms: Seq<Seq<char>>, p: Seq<char>) -> bool {
    forall|q: int|
        #![trigger terms[q]]
        0 <= q < terms.len() ==> !(terms[q].len() == p.len() && forall|j: int|
            #![trigger p[j]]
            0 <= j < p.len() ==> (terms[q][j] == p[j] || ('A' <= terms[q][j] && terms[q][j] <= 'Z'
                && p[j] as int == terms[q][j] as int + 32) || ('a' <= terms[q][j] && terms[q][j] <= 'z'
                && terms[q][j] as int == p[j] as int + 32)))
}

proof fn lemma_unlisted_literal(terms: Seq<Seq<char>>, p: Seq<char>)
    ensures
        !is_listed(terms, p) == unlisted_literal(terms, p),
{
    assert forall|q: int| 0 <= q < terms.len() implies eq_ignore_ascii_case(terms[q], p) == (terms[q].len()
        == p.len() && forall|j: int|
        #![trigger p[j]]
        0 <= j < p.len() ==> (terms[q][j] == p[j] || ('A' <= terms[q][j] && terms[q][j] <= 'Z' && p[j] as int
            == terms[q][j] as int + 32) || ('a' <= terms[q][j] && terms[q][j] <= 'z' && terms[q][j] as int
            == p[j] as int + 32))) by {
        assert forall|j: int| 0 <= j < p.len() && j < terms[q].len() implies (ascii_lower(terms[q][j])
            == ascii_lower(#[trigger] p[j])) == (terms[q][j] == p[j] || ('A' <= terms[q][j] && terms[q][j]
            <= 'Z' && p[j] as int == terms[q][j] as int + 32) || ('a' <= terms[q][j] && terms[q][j] <= 'z'
            && terms[q][j] as int == p[j] as int + 32)) by {
            lemma_ascii_lower_same(terms[q][j], p[j]);
        }
    }
}

/// The spans the fix unquotes are exactly those of the text's spans that
/// look like term references and none of whose terms is listed: for each
/// span given, and each of its terms, every listed term differs from it in
/// length or in some character other than by ASCII case; and each span
/// that looks like a term reference with no listed term is given.
pub proof fn lemma_unlisted_spans_law(t: Seq<char>, spans: Seq<(int, int)>, terms: Seq<Seq<char>>)
    ensures
        forall|k: int| 0 <= k < unlisted_spans(t, spans, terms).len() ==> {
            let parts = split_backticked_spec(span_inner(t, #[trigger] unlisted_spans(t, spans, terms)[k]));
            &&& spans.contains(unlisted_spans(t, spans, terms)[k])
            &&& looks_like_term_reference_spec(span_inner(t, unlisted_spans(t, spans, terms)[k]))
            &&& forall|m: int, q: int|
                #![trigger parts[m], terms[q]]
                0 <= m < parts.len() && 0 <= q < terms.len() ==> !(terms[q].len() == parts[m].len() && forall|j: int|
                    #![trigger parts[m][j]]
                    0 <= j < parts[m].len() ==> (terms[q][j] == parts[m][j] || ('A' <= terms[q][j] && terms[q][j]
                        <= 'Z' && parts[m][j] as int == terms[q][j] as int + 32) || ('a' <= terms[q][j]
                        && terms[q][j] <= 'z' && terms[q][j] as int == parts[m][j] as int + 32)))
        },
        forall|i: int|
            0 <= i < spans.len() && looks_like_term_reference_spec(span_inner(t, #[trigger] spans[i])) && (
            forall|m: int|
                0 <= m < split_backticked_spec(span_inner(t, spans[i])).len() ==> unlisted_literal(
                    terms,
                    #[trigger] split_backticked_spec(span_inner(t, spans[i]))[m],
                )) ==> unlisted_spans(t, spans, terms).contains(spans[i]),
    decreases spans.len(),
{
    if spans.len() > 0 {
        let d = spans.drop_last();
        lemma_unlisted_spans_law(t, d, terms);
        let prev = unlisted_spans(t, d, terms);
        let u = unlisted_spans(t, spans, terms);
        let last = spans.last();
        let parts_last = split_backticked_spec(span_inner(t, last));
        assert forall|m: int| 0 <= m < parts_last.len() implies !is_listed(terms, #[trigger] parts_last[m])
            == unlisted_literal(terms, parts_last[m]) by {
            lemma_unlisted_literal(terms, parts_last[m]);
        }
        assert forall|k: int| 0 <= k < u.len() implies {
            let parts = split_backticked_spec(span_inner(t, #[trigger] u[k]));
            &&& spans.contains(u[k])
            &&& looks_like_term_reference_spec(span_inner(t, u[k]))
            &&& forall|m: int, q: int|
                #![trigger parts[m], terms[q]]
                0 <= m < parts.len() && 0 <= q < terms.len() ==> !(terms[q].len() == parts[m].len() && forall|j: int|
                    #![trigger parts[m][j]]
                    0 <= j < parts[m].len() ==> (terms[q][j] == parts[m][j] || ('A' <= terms[q][j] && terms[q][j]
                        <= 'Z' && parts[m][j] as int == terms[q][j] as int + 32) || ('a' <= terms[q][j]
                        && terms[q][j] <= 'z' && terms[q][j] as int == parts[m][j] as int + 32)))
        } by {
            if k < prev.len() {
                assert(u[k] == prev[k]);
                let w = choose|w: int| 0 <= w < d.len() && d[w] == prev[k];
                assert(spans[w] == d[w]);
            } else {
                assert(u[k] == last);
                assert(spans[spans.len() - 1] == last);
                assert forall|m: int, q: int|
                    #![trigger parts_last[m], terms[q]]
                    0 <= m < parts_last.len() && 0 <= q < terms.len() implies !(terms[q].len()
                        == parts_last[m].len() && forall|j: int|
                        #![trigger parts_last[m][j]]
                        0 <= j < parts_last[m].len() ==> (terms[q][j] == parts_last[m][j] || ('A' <= terms[q][j]
                            && terms[q][j] <= 'Z' && parts_last[m][j] as int == terms[q][j] as int + 32) || (
                        'a' <= terms[q][j] && terms[q][j] <= 'z' && terms[q][j] as int == parts_last[m][j] as int
                            + 32))) by {
                    assert(!is_listed(terms, parts_last[m]));
                    assert(unlisted_literal(terms, parts_last[m]));
                }
            }
        }
        assert forall|i: int|
            0 <= i < spans.len() && looks_like_term_reference_spec(span_inner(t, #[trigger] spans[i])) && (
            forall|m: int|
                0 <= m < split_backticked_spec(span_inner(t, spans[i])).len() ==> unlisted_literal(
                    terms,
                    #[trigger] split_backticked_spec(span_inner(t, spans[i]))[m],
                )) implies u.contains(spans[i]) by {
            if i < spans.len() - 1 {
                assert(d[i] == spans[i]);
                assert(prev.contains(d[i]));
                let w = choose|w: int| 0 <= w < prev.len() && prev[w] == d[i];
                assert(u[w] == prev[w]);
            } else {
                assert(all_unlisted(terms, parts_last)) by {
                    assert forall|m: int| 0 <= m < parts_last.len() implies !is_listed(terms, #[trigger] parts_last[m]) by {
                        assert(unlisted_literal(terms, parts_last[m]));
                    }
                }
                assert(u[prev.len() as int] == spans[i]);
            }
        }
    }
}

/// The pieces of every sequence split on a non-empty `sep`, concatenated.
fn flat_split_exec(pieces: &Vec<Vec<char>>, sep: &[char]) -> (r: Vec<Vec<char>>)
    requires
        sep@.len() > 0,
    ensures
        vecs_view(r@) == flat_split(vecs_view(pieces@), sep@),
{
    let ghost pv = vecs_view(pieces@);
    let mut r: Vec<Vec<char>> = Vec::new();
    let mut i: usize = 0;
    assert(pv.take(0).len() == 0);
    while i < pieces.len()
        invariant
            pv == vecs_view(pieces@),
            i <= pieces@.len(),
            sep@.len() > 0,
            vecs_view(r@) == flat_split(pv.take(i as int), sep@),
        decreases pieces@.len() - i,
    {
        let parts = split_chars(pieces[i].as_slice(), sep);
        let ghost before = vecs_view(r@);
        let mut j: usize = 0;
        while j < parts.len()
            invariant
                j <= parts@.len(),
                vecs_view(r@) == before + vecs_view(parts@).take(j as int),
            decreases parts@.len() - j,
        {
            let ghost old_r = vecs_view(r@);
            r.push(parts[j].clone());
            assert(vecs_view(r@) == old_r.push(parts@[j as int]@));
            assert(vecs_view(parts@).take(j + 1) == vecs_view(parts@).take(j as int).push(parts@[j as int]@));
            j = j + 1;
        }
        proof {
            assert(vecs_view(parts@).take(parts@.len() as int) == vecs_view(parts@));
            assert(pv.take(i + 1).drop_last() == pv.take(i as int));
            assert(pv.take(i + 1).last() == pieces@[i as int]@);
        }
        i = i + 1;
    }
    assert(pv.take(pieces@.len() as int) == pv);
    r
}

/// The trimmed tokens that are not empty after trimming.
fn trimmed_nonempty_exec(toks: &Vec<Vec<char>>) -> (r: Vec<Vec<char>>)
    ensures
        vecs_view(r@) == trimmed_nonempty(vecs_view(toks@)),
{
    let ghost tv = vecs_view(toks@);
    let mut r: Vec<Vec<char>> = Vec::new();
    let mut i: usize = 0;
    assert(tv.take(0).len() == 0);
    while i < toks.len()
        invariant
            tv == vecs_view(toks@),
            i <= toks@.len(),
            vecs_view(r@) == trimmed_nonempty(tv.take(i as int)),
        decreases toks@.len() - i,
    {
        proof {
            assert(tv.take(i + 1).drop_last() == tv.take(i as int));
            assert(tv.take(i + 1).last() == toks@[i as int]@);
        }
        let x = trim_chars(toks[i].as_slice());
        if x.len() > 0 {
            let ghost old_r = vecs_view(r@);
            r.push(x);
            assert(vecs_view(r@) == old_r.push(trim(toks@[i as int]@)));
        }
        i = i + 1;
    }
    assert(tv.take(toks@.len() as int) == tv);
    r
}

/// The terms of a backtick-quoted string, as characters.
pub fn split_backticked_chars(inner: &[char]) -> (r: Vec<Vec<char>>)
    ensures
        vecs_view(r@) == split_backticked_spec(inner@),
{
    let comma_v: Vec<char> = vec![','];
    let and_v: Vec<char> = vec![' ', 'a', 'n', 'd', ' '];
    let or_v: Vec<char> = vec![' ', 'o', 'r', ' '];
    assert(comma_v@ == comma());
    assert(and_v@ == and_sep());
    assert(or_v@ == or_sep());
    let parts = split_chars(inner, comma_v.as_slice());
    let ands = flat_split_exec(&parts, and_v.as_slice());
    let ors = flat_split_exec(&ands, or_v.as_slice());
    trimmed_nonempty_exec(&ors)
}

/// Splits a backtick-quoted string into its terms: on commas (`sed, awk`),
/// then on the words " and " and " or "; each term is trimmed and empty ones dropped.
pub fn split_backticked(inner: &str) -> (r: Vec<String>)
    ensures
        strings_view(r@) == split_backticked_spec(inner@),
{
    let c = to_chars(inner);
    let parts = split_backticked_chars(c.as_slice());
    let mut r: Vec<String> = Vec::new();
    let mut i: usize = 0;
    while i < parts.len()
        invariant
            i <= parts@.len(),
            strings_view(r@) == vecs_view(parts@).take(i as int),
        decreases parts@.len() - i,
    {
        let s = from_chars(parts[i].as_slice());
        let ghost old_r = strings_view(r@);
        r.push(s);
        assert(strings_view(r@) == old_r.push(parts@[i as int]@));
        assert(vecs_view(parts@).take(i + 1) == vecs_view(parts@).take(i as int).push(parts@[i as int]@));
        i = i + 1;
    }
    assert(vecs_view(parts@).take(parts@.len() as int) == vecs_view(parts@));
    r
}

fn is_code_char_exec(c: char) -> (r: bool)
    ensures
        r == is_code_char(c),
{
    c == '(' || c == ')' || c == '{' || c == '}' || c == '[' || c == ']' || c == ';' || c == '='
        || c == '>' || c == '<' || c == '|' || c == '\\' || c == '"' || c == '\''
}

/// Whether a backtick-quoted string (as characters) names terms.
pub fn looks_like_term_reference_chars(inner: &[char]) -> (r: bool)
    ensures
        r == looks_like_term_reference_spec(inner@),
{
    let parts = split_backticked_chars(inner);
    let ghost pv = vecs_view(parts@);
    if parts.len() == 0 {
        return false;
    }
    let mut k: usize = 0;
    while k < parts.len()
        invariant
            pv == vecs_view(parts@),
            pv == split_backticked_spec(inner@),
            k <= parts@.len(),
            forall|a: int, j: int|
                0 <= a < k && 0 <= j < pv[a].len() ==> #[trigger] pv[a][j] != ' ' && !is_code_char(
                    pv[a][j],
                ),
        decreases parts@.len() - k,
    {
        let part = &parts[k];
        assert(pv[k as int] == part@);
        let mut j: usize = 0;
        while j < part.len()
            invariant
                j <= part@.len(),
                k < pv.len(),
                pv == split_backticked_spec(inner@),
                pv[k as int] == part@,
                forall|b: int| 0 <= b < j ==> #[trigger] part@[b] != ' ' && !is_code_char(part@[b]),
            decreases part@.len() - j,
        {
            let c = part[j];
            if c == ' ' || is_code_char_exec(c) {
                assert(pv[k as int][j as int] == c);
                return false;
            }
            j = j + 1;
        }
        k = k + 1;
    }
    true
}

/// Whether a backtick-quoted string names terms rather than being arbitrary
/// inline code: it splits into at least one term and no term holds a space
/// or one of `(){}[];=><|\"'`.
pub fn looks_like_term_reference(inner: &str) -> (r: bool)
    ensures
        r == looks_like_term_reference_spec(inner@),
{
    let c = to_chars(inner);
    looks_like_term_reference_chars(c.as_slice())
}


/// The inline backtick spans of a text (outside fenced blocks), all valid.
fn spans_of(t: &[char]) -> (r: Vec<(usize, usize)>)
    ensures
        ranges_view(r@) == backtick_spans(t@),
        forall|k: int| 0 <= k < r@.len() ==> valid_span(t@, #[trigger] ranges_view(r@)[k]),
{
    let fenced = fenced_code_ranges(t);
    let spans = backtick_span_ranges(t, fenced.as_slice());
    proof {
        lemma_spans_valid(t@, fenced_ranges(t@), 0);
    }
    spans
}

/// Whether the characters are among the vectors.
fn contains_chars_vec(v: &Vec<Vec<char>>, x: &[char]) -> (r: bool)
    ensures
        r == vecs_view(v@).contains(x@),
{
    let mut k: usize = 0;
    while k < v.len()
        invariant
            k <= v@.len(),
            forall|j: int| 0 <= j < k ==> v@[j]@ != x@,
        decreases v@.len() - k,
    {
        if chars_eq(v[k].as_slice(), x) {
            assert(vecs_view(v@)[k as int] == x@);
            return true;
        }
        k = k + 1;
    }
    proof {
        if vecs_view(v@).contains(x@) {
            let j = choose|j: int| 0 <= j < vecs_view(v@).len() && vecs_view(v@)[j] == x@;
            assert(v@[j]@ == x@);
        }
    }
    false
}

/// Extracts the distinct backtick-quoted terms of a Markdown text, outside
/// fenced code blocks, in order of first appearance. A span such as
/// `sed, awk` contributes each of its terms; spans that look like code
/// contribute nothing.
pub fn find_backticked_terms(content: &str) -> (r: Vec<String>)
    ensures
        strings_view(r@) == backticked_terms_spec(content@),
{
    let t = to_chars(content);
    let spans = spans_of(t.as_slice());
    let ghost sv = ranges_view(spans@);
    let ghost tt = t@;
    let mut seen: Vec<Vec<char>> = Vec::new();
    let mut i: usize = 0;
    assert(sv.take(0).len() == 0);
    while i < spans.len()
        invariant
            tt == t@,
            sv == ranges_view(spans@),
            sv == backtick_spans(tt),
            forall|k: int| 0 <= k < spans@.len() ==> valid_span(tt, #[trigger] sv[k]),
            i <= spans@.len(),
            vecs_view(seen@) == dedup(terms_of_spans(tt, sv.take(i as int))),
        decreases spans@.len() - i,
    {
        let (s, e) = spans[i];
        proof {
            assert(sv[i as int] == (s as int, e as int));
            assert(valid_span(tt, sv[i as int]));
            assert(sv.take(i + 1).drop_last() == sv.take(i as int));
            assert(sv.take(i + 1).last() == sv[i as int]);
        }
        let inner = sub_vec(t.as_slice(), s + 1, e - 1);
        let ghost prev_terms = terms_of_spans(tt, sv.take(i as int));
        if looks_like_term_reference_chars(inner.as_slice()) {
            let parts = split_backticked_chars(inner.as_slice());
            let ghost pv = vecs_view(parts@);
            let mut j: usize = 0;
            assert(pv.take(0) == Seq::<Seq<char>>::empty());
            assert(prev_terms + pv.take(0) == prev_terms);
            while j < parts.len()
                invariant
                    j <= parts@.len(),
                    pv == vecs_view(parts@),
                    vecs_view(seen@) == dedup(prev_terms + pv.take(j as int)),
                decreases parts@.len() - j,
            {
                proof {
                    assert((prev_terms + pv.take(j + 1)).drop_last() == prev_terms + pv.take(j as int));
                    assert((prev_terms + pv.take(j + 1)).last() == parts@[j as int]@);
                }
                if !contains_chars_vec(&seen, parts[j].as_slice()) {
                    let ghost old_seen = vecs_view(seen@);
                    seen.push(parts[j].clone());
                    assert(vecs_view(seen@) == old_seen.push(parts@[j as int]@));
                }
                j = j + 1;
            }
            assert(pv.take(parts@.len() as int) == pv);
        }
        i = i + 1;
    }
    assert(sv.take(spans@.len() as int) == sv);
    let mut r: Vec<String> = Vec::new();
    let mut k: usize = 0;
    while k < seen.len()
        invariant
            k <= seen@.len(),
            strings_view(r@) == vecs_view(seen@).take(k as int),
        decreases seen@.len() - k,
    {
        let ghost old_r = strings_view(r@);
        r.push(from_chars(seen[k].as_slice()));
        assert(strings_view(r@) == old_r.push(seen@[k as int]@));
        assert(vecs_view(seen@).take(k + 1) == vecs_view(seen@).take(k as int).push(seen@[k as int]@));
        k = k + 1;
    }
    assert(vecs_view(seen@).take(seen@.len() as int) == vecs_view(seen@));
    r
}

/// Whether some listed term equals `p` up to ASCII case.
pub fn is_listed_exec(terms: &Vec<Vec<char>>, p: &[char]) -> (r: bool)
    ensures
        r == is_listed(vecs_view(terms@), p@),
{
    let mut k: usize = 0;
    while k < terms.len()
        invariant
            k <= terms@.len(),
            forall|j: int| 0 <= j < k ==> !eq_ignore_ascii_case(#[trigger] vecs_view(terms@)[j], p@),
        decreases terms@.len() - k,
    {
        assert(vecs_view(terms@)[k as int] == terms@[k as int]@);
        if chars_eq_ignore_ascii_case(terms[k].as_slice(), p) {
            return true;
        }
        k = k + 1;
    }
    false
}

/// The characters of each string.
pub fn strings_to_chars(v: &[String]) -> (r: Vec<Vec<char>>)
    ensures
        vecs_view(r@) == strings_view(v@),
{
    let mut r: Vec<Vec<char>> = Vec::new();
    let mut i: usize = 0;
    while i < v.len()
        invariant
            i <= v@.len(),
            vecs_view(r@) == strings_view(v@).take(i as int),
        decreases v@.len() - i,
    {
        let c = to_chars(v[i].as_str());
        let ghost old_r = vecs_view(r@);
        r.push(c);
        assert(vecs_view(r@) == old_r.push(v@[i as int]@));
        assert(strings_view(v@).take(i + 1) == strings_view(v@).take(i as int).push(v@[i as int]@));
        i = i + 1;
    }
    assert(strings_view(v@).take(v@.len() as int) == strings_view(v@));
    r
}

/// Finds the backtick spans (character ranges, backticks included) whose
/// terms are all missing from the term list (compared ignoring ASCII case);
/// spans that look like code are left alone.
pub fn find_non_tech_backticked_positions(content: &str, terms: &[String]) -> (r: Vec<(usize, usize)>)
    ensures
        ranges_view(r@) == unlisted_spans(content@, backtick_spans(content@), strings_view(terms@)),
{
    let t = to_chars(content);
    let tv = strings_to_chars(terms);
    let spans = spans_of(t.as_slice());
    let ghost sv = ranges_view(spans@);
    let ghost tt = t@;
    let ghost lv = vecs_view(tv@);
    let mut r: Vec<(usize, usize)> = Vec::new();
    let mut i: usize = 0;
    assert(sv.take(0).len() == 0);
    while i < spans.len()
        invariant
            tt == t@,
            tt == content@,
            lv == vecs_view(tv@),
            lv == strings_view(terms@),
            sv == ranges_view(spans@),
            sv == backtick_spans(tt),
            forall|k: int| 0 <= k < spans@.len() ==> valid_span(tt, #[trigger] sv[k]),
            i <= spans@.len(),
            ranges_view(r@) == unlisted_spans(tt, sv.take(i as int), lv),
        decreases spans@.len() - i,
    {
        let (s, e) = spans[i];
        proof {
            assert(sv[i as int] == (s as int, e as int));
            assert(valid_span(tt, sv[i as int]));
            assert(sv.take(i + 1).drop_last() == sv.take(i as int));
            assert(sv.take(i + 1).last() == sv[i as int]);
        }
        let inner = sub_vec(t.as_slice(), s + 1, e - 1);
        if looks_like_term_reference_chars(inner.as_slice()) {
            let parts = split_backticked_chars(inner.as_slice());
            let ghost pv = vecs_view(parts@);
            let mut all_non_tech = true;
            let mut j: usize = 0;
            while j < parts.len()
                invariant
                    j <= parts@.len(),
                    pv == vecs_view(parts@),
                    lv == vecs_view(tv@),
                    all_non_tech == forall|k: int| 0 <= k < j ==> !is_listed(lv, #[trigger] pv[k]),
                decreases parts@.len() - j,
            {
                assert(pv[j as int] == parts@[j as int]@);
                if is_listed_exec(&tv, parts[j].as_slice()) {
                    all_non_tech = false;
                }
                j = j + 1;
            }
            if all_non_tech {
                let ghost old_r = ranges_view(r@);
                r.push((s, e));
                assert(ranges_view(r@) == old_r.push((s as int, e as int)));
            }
        }
        i = i + 1;
    }
    assert(sv.take(spans@.len() as int) == sv);
    r
}

} // verus!
