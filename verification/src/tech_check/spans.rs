//! Fenced code blocks and inline backtick spans of a Markdown text.
//!
//! Positions are character indices into the text.

use vstd::prelude::*;

verus! {

pub open spec fn is_char(t: Seq<char>, i: int, c: char) -> bool {
    0 <= i < t.len() && t[i] == c
}

/// Three backticks start at `p`.
pub open spec fn fence_at(t: Seq<char>, p: int) -> bool {
    is_char(t, p, '`') && is_char(t, p + 1, '`') && is_char(t, p + 2, '`')
}

/// The first position at or after `p` that does not hold a backtick.
pub open spec fn skip_ticks(t: Seq<char>, p: int) -> int
    decreases t.len() - p,
{
    if 0 <= p < t.len() && t[p] == '`' {
        skip_ticks(t, p + 1)
    } else {
        p
    }
}

/// The first position at or after `p` that holds a newline, or the text's end.
pub open spec fn line_end(t: Seq<char>, p: int) -> int
    decreases t.len() - p,
{
    if 0 <= p < t.len() && t[p] != '\n' {
        line_end(t, p + 1)
    } else {
        p
    }
}

/// Searching from `q`, the start of the first line that opens with three
/// backticks, that line's newline lying at or after `q`.
pub open spec fn closing_fence(t: Seq<char>, q: int) -> Option<int>
    decreases t.len() - q,
{
    if q < 0 || q >= t.len() {
        None
    } else if t[q] == '\n' && fence_at(t, q + 1) {
        Some(q + 1)
    } else {
        closing_fence(t, q + 1)
    }
}

/// The position just past the line that holds `e` (past its newline, if any).
pub open spec fn after_line(t: Seq<char>, e: int) -> int {
    let e2 = line_end(t, e);
    if e2 < t.len() {
        e2 + 1
    } else {
        e2
    }
}

pub proof fn lemma_skip_ticks_ge(t: Seq<char>, p: int)
    ensures
        skip_ticks(t, p) >= p,
        p <= t.len() ==> skip_ticks(t, p) <= t.len(),
    decreases t.len() - p,
{
    if 0 <= p < t.len() && t[p] == '`' {
        lemma_skip_ticks_ge(t, p + 1);
    }
}

pub proof fn lemma_line_end_ge(t: Seq<char>, p: int)
    ensures
        line_end(t, p) >= p,
        p <= t.len() ==> line_end(t, p) <= t.len(),
        0 <= p <= t.len() ==> line_end(t, p) == t.len() || is_char(t, line_end(t, p), '\n'),
    decreases t.len() - p,
{
    if 0 <= p < t.len() && t[p] != '\n' {
        lemma_line_end_ge(t, p + 1);
    }
}

pub proof fn lemma_closing_fence(t: Seq<char>, q: int)
    ensures
        closing_fence(t, q) matches Some(x) ==> q < x && fence_at(t, x) && is_char(t, x - 1, '\n'),
    decreases t.len() - q,
{
    if !(q < 0 || q >= t.len()) && !(t[q] == '\n' && fence_at(t, q + 1)) {
        lemma_closing_fence(t, q + 1);
    }
}

pub proof fn lemma_after_line(t: Seq<char>, e: int)
    ensures
        e <= after_line(t, e),
        e <= t.len() ==> after_line(t, e) <= t.len(),
{
    lemma_line_end_ge(t, e);
}

/// The fenced code blocks found by scanning the text from `pos`.
///
/// Three backticks anywhere open a block; it runs to the end of the first
/// later line that starts with three backticks (that line's newline
/// included), or to the end of the text when no such line follows.
pub open spec fn fenced_from(t: Seq<char>, pos: int) -> Seq<(int, int)>
    decreases t.len() - pos,
{
    if pos < 0 || pos >= t.len() {
        Seq::empty()
    } else if fence_at(t, pos) {
        let q = line_end(t, skip_ticks(t, pos + 3));
        match closing_fence(t, q) {
            None => seq![(pos, t.len() as int)],
            Some(ls) => {
                let end = after_line(t, ls + 3);
                proof {
                    lemma_skip_ticks_ge(t, pos + 3);
                    lemma_line_end_ge(t, skip_ticks(t, pos + 3));
                    lemma_closing_fence(t, q);
                    lemma_after_line(t, ls + 3);
                }
                seq![(pos, end)] + fenced_from(t, end)
            },
        }
    } else {
        fenced_from(t, pos + 1)
    }
}

/// A fenced block found from `pos`: it starts with three backticks at or
/// after `pos`, and ends at the text's end or just after a newline.
pub open spec fn fence_range_ok(t: Seq<char>, pos: int, r: (int, int)) -> bool {
    &&& pos <= r.0
    &&& fence_at(t, r.0)
    &&& r.0 + 3 <= r.1 <= t.len()
    &&& (r.1 == t.len() || is_char(t, r.1 - 1, '\n'))
}

proof fn lemma_fenced_from_structure(t: Seq<char>, pos: int)
    requires
        0 <= pos,
    ensures
        forall|k: int| 0 <= k < fenced_from(t, pos).len() ==> fence_range_ok(t, pos, #[trigger] fenced_from(t, pos)[k]),
        forall|k: int|
            0 <= k && k + 1 < fenced_from(t, pos).len() ==> (#[trigger] fenced_from(t, pos)[k]).1 <= fenced_from(
                t,
                pos,
            )[k + 1].0,
        forall|p: int|
            pos <= p && #[trigger] fence_at(t, p) ==> exists|k: int|
                0 <= k < fenced_from(t, pos).len() && (#[trigger] fenced_from(t, pos)[k]).0 <= p && p + 3
                    <= fenced_from(t, pos)[k].1,
    decreases t.len() - pos,
{
    let r = fenced_from(t, pos);
    if pos >= t.len() {
    } else if fence_at(t, pos) {
        let q = line_end(t, skip_ticks(t, pos + 3));
        lemma_skip_ticks_ge(t, pos + 3);
        lemma_line_end_ge(t, skip_ticks(t, pos + 3));
        lemma_closing_fence(t, q);
        match closing_fence(t, q) {
            None => {
                assert(r == seq![(pos, t.len() as int)]);
                assert forall|p: int| pos <= p && #[trigger] fence_at(t, p) implies exists|k: int|
                    0 <= k < r.len() && (#[trigger] r[k]).0 <= p && p + 3 <= r[k].1 by {
                    assert(r[0].0 <= p && p + 3 <= r[0].1);
                }
            },
            Some(ls) => {
                let end = after_line(t, ls + 3);
                lemma_after_line(t, ls + 3);
                lemma_line_end_ge(t, ls + 3);
                lemma_fenced_from_structure(t, end);
                let rest = fenced_from(t, end);
                assert(r == seq![(pos, end)] + rest);
                assert(end == t.len() || is_char(t, end - 1, '\n'));
                assert forall|k: int| 0 <= k < r.len() implies fence_range_ok(t, pos, #[trigger] r[k]) by {
                    if k > 0 {
                        assert(r[k] == rest[k - 1]);
                        assert(fence_range_ok(t, end, rest[k - 1]));
                    }
                }
                assert forall|k: int| 0 <= k && k + 1 < r.len() implies (#[trigger] r[k]).1 <= r[k + 1].0 by {
                    if k > 0 {
                        assert(r[k] == rest[k - 1] && r[k + 1] == rest[k]);
                    } else {
                        assert(r[1] == rest[0]);
                        assert(fence_range_ok(t, end, rest[0]));
                    }
                }
                assert forall|p: int| pos <= p && #[trigger] fence_at(t, p) implies exists|k: int|
                    0 <= k < r.len() && (#[trigger] r[k]).0 <= p && p + 3 <= r[k].1 by {
                    if p < end {
                        if end < t.len() {
                            assert(t[end - 1] == '\n');
                            assert(p + 3 <= end) by {
                                if p + 3 > end {
                                    assert(is_char(t, end - 1, '`'));
                                }
                            }
                        }
                        assert(r[0] == (pos, end));
                    } else {
                        let k = choose|k: int|
                            0 <= k < rest.len() && (#[trigger] rest[k]).0 <= p && p + 3 <= rest[k].1;
                        assert(r[k + 1] == rest[k]);
                    }
                }
            },
        }
    } else {
        lemma_fenced_from_structure(t, pos + 1);
        assert(r == fenced_from(t, pos + 1));
        assert forall|k: int| 0 <= k < r.len() implies fence_range_ok(t, pos, #[trigger] r[k]) by {
            assert(fence_range_ok(t, pos + 1, r[k]));
        }
        assert forall|p: int| pos <= p && #[trigger] fence_at(t, p) implies exists|k: int|
            0 <= k < r.len() && (#[trigger] r[k]).0 <= p && p + 3 <= r[k].1 by {
            assert(p != pos);
        }
    }
}

/// The fenced blocks of a text are in order and do not overlap; each starts
/// with three backticks and ends at the text's end or just after a
/// newline; and every three backticks in the text lie inside one of them.
pub proof fn lemma_fenced_ranges_structure(t: Seq<char>)
    ensures
        forall|k: int| 0 <= k < fenced_ranges(t).len() ==> fence_range_ok(t, 0, #[trigger] fenced_ranges(t)[k]),
        forall|k: int|
            0 <= k && k + 1 < fenced_ranges(t).len() ==> (#[trigger] fenced_ranges(t)[k]).1 <= fenced_ranges(
                t,
            )[k + 1].0,
        forall|p: int|
            0 <= p && #[trigger] fence_at(t, p) ==> exists|k: int|
                0 <= k < fenced_ranges(t).len() && (#[trigger] fenced_ranges(t)[k]).0 <= p && p + 3
                    <= fenced_ranges(t)[k].1,
{
    lemma_fenced_from_structure(t, 0);
    let r = fenced_ranges(t);
    assert(r == fenced_from(t, 0));
    assert forall|p: int| 0 <= p && #[trigger] fence_at(t, p) implies exists|k: int|
        0 <= k < r.len() && (#[trigger] r[k]).0 <= p && p + 3 <= r[k].1 by {
        let k = choose|k: int|
            0 <= k < fenced_from(t, 0).len() && (#[trigger] fenced_from(t, 0)[k]).0 <= p && p + 3 <= fenced_from(t, 0)[k].1;
        assert(r[k] == fenced_from(t, 0)[k]);
    }
}

/// All fenced code blocks of the text, in order.
pub open spec fn fenced_ranges(t: Seq<char>) -> Seq<(int, int)> {
    fenced_from(t, 0)
}

pub open spec fn ranges_view(v: Seq<(usize, usize)>) -> Seq<(int, int)> {
    v.map_values(|p: (usize, usize)| (p.0 as int, p.1 as int))
}

/// Finds the fenced code blocks (three backticks ... a line starting with three backticks).
pub fn fenced_code_ranges(text: &[char]) -> (r: Vec<(usize, usize)>)
    ensures
        ranges_view(r@) == fenced_ranges(text@),
{
    let ghost t = text@;
    let n = text.len();
    let mut ranges: Vec<(usize, usize)> = Vec::new();
    let mut pos: usize = 0;
    while pos < n
        invariant
            n == t.len(),
            t == text@,
            pos <= n,
            ranges_view(ranges@) + fenced_from(t, pos as int) == fenced_ranges(t),
        decreases n - pos,
    {
        if text[pos] == '`' && n - pos > 2 && text[pos + 1] == '`' && text[pos + 2] == '`' {
            let start = pos;
            pos = pos + 3;
            while pos < n && text[pos] == '`'
                invariant
                    n == t.len(),
                    t == text@,
                    start + 3 <= pos <= n,
                    skip_ticks(t, pos as int) == skip_ticks(t, start + 3),
                decreases n - pos,
            {
                pos = pos + 1;
            }
            while pos < n && text[pos] != '\n'
                invariant
                    n == t.len(),
                    t == text@,
                    start + 3 <= pos <= n,
                    line_end(t, pos as int) == line_end(t, skip_ticks(t, start + 3)),
                decreases n - pos,
            {
                pos = pos + 1;
            }
            let ghost q = pos as int;
            loop
                invariant_except_break
                    q <= pos <= n,
                    closing_fence(t, pos as int) == closing_fence(t, q),
                    ranges_view(ranges@) + fenced_from(t, start as int) == fenced_ranges(t),
                invariant
                    n == t.len(),
                    t == text@,
                    start + 3 <= q,
                    q == line_end(t, skip_ticks(t, start + 3)),
                    fence_at(t, start as int),
                ensures
                    start < pos <= n,
                    ranges_view(ranges@) + fenced_from(t, pos as int) == fenced_ranges(t),
                decreases n - pos,
            {
                if pos >= n {
                    let ghost old_ranges = ranges@;
                    ranges.push((start, n));
                    proof {
                        assert(ranges_view(ranges@) == ranges_view(old_ranges).push((start as int, n as int)));
                        assert(fenced_from(t, n as int) == Seq::<(int, int)>::empty());
                        lemma_skip_ticks_ge(t, start + 3);
                        lemma_line_end_ge(t, skip_ticks(t, start + 3));
                        assert(closing_fence(t, q) is None);
                        assert(fenced_from(t, start as int) == seq![(start as int, n as int)]);
                    }
                    pos = n;
                    break;
                }
                if text[pos] == '\n' {
                    let line_start = pos + 1;
                    if line_start < n && n - line_start > 2 && text[line_start] == '`'
                        && text[line_start + 1] == '`' && text[line_start + 2] == '`' {
                        let mut end = line_start + 3;
                        while end < n && text[end] != '\n'
                            invariant
                                n == t.len(),
                                t == text@,
                                line_start + 3 <= end <= n,
                                line_end(t, end as int) == line_end(t, line_start + 3),
                            decreases n - end,
                        {
                            end = end + 1;
                        }
                        if end < n {
                            end = end + 1;
                        }
                        let ghost old_ranges = ranges@;
                        ranges.push((start, end));
                        proof {
                            assert(ranges_view(ranges@) == ranges_view(old_ranges).push((start as int, end as int)));
                            assert(closing_fence(t, pos as int) == Some(line_start as int));
                            assert(end as int == after_line(t, line_start + 3));
                            assert(fenced_from(t, start as int) == seq![(start as int, end as int)] + fenced_from(t, end as int));
                            assert(ranges_view(ranges@) + fenced_from(t, end as int) == ranges_view(old_ranges) + fenced_from(t, start as int));
                        }
                        pos = end;
                        break;
                    }
                }
                pos = pos + 1;
            }
        } else {
            pos = pos + 1;
        }
    }
    proof {
        assert(fenced_from(t, pos as int) == Seq::<(int, int)>::empty());
        assert(ranges_view(ranges@) + Seq::<(int, int)>::empty() == ranges_view(ranges@));
    }
    ranges
}


/// The end of the first range of `fenced` (in list order) that contains `i`.
pub open spec fn fence_skip(fenced: Seq<(int, int)>, i: int) -> Option<int>
    decreases fenced.len(),
{
    if fenced.len() == 0 {
        None
    } else if fenced[0].0 <= i < fenced[0].1 {
        Some(fenced[0].1)
    } else {
        fence_skip(fenced.drop_first(), i)
    }
}

pub proof fn lemma_fence_skip(fenced: Seq<(int, int)>, i: int)
    ensures
        fence_skip(fenced, i) matches Some(e) ==> i < e,
    decreases fenced.len(),
{
    if fenced.len() > 0 && !(fenced[0].0 <= i < fenced[0].1) {
        lemma_fence_skip(fenced.drop_first(), i);
    }
}

/// The first position at or after `p` holding a backtick or a newline, or the text's end.
pub open spec fn tick_close(t: Seq<char>, p: int) -> int
    decreases t.len() - p,
{
    if 0 <= p < t.len() && t[p] != '`' && t[p] != '\n' {
        tick_close(t, p + 1)
    } else {
        p
    }
}

pub proof fn lemma_tick_close(t: Seq<char>, p: int)
    ensures
        tick_close(t, p) >= p,
        p <= t.len() ==> tick_close(t, p) <= t.len(),
    decreases t.len() - p,
{
    if 0 <= p < t.len() && t[p] != '`' && t[p] != '\n' {
        lemma_tick_close(t, p + 1);
    }
}

/// The inline backtick spans found by scanning from `i`, skipping fenced blocks.
///
/// A span is a backtick, at least one character that is neither a backtick
/// nor a newline, and a closing backtick; a span's range includes both backticks.
pub open spec fn spans_from(t: Seq<char>, fenced: Seq<(int, int)>, i: int) -> Seq<(int, int)>
    decreases t.len() - i,
{
    if i < 0 || i >= t.len() {
        Seq::empty()
    } else {
        match fence_skip(fenced, i) {
            Some(e) => {
                proof {
                    lemma_fence_skip(fenced, i);
                }
                spans_from(t, fenced, if e > t.len() { t.len() as int } else { e })
            },
            None => {
                if t[i] == '`' {
                    let j = tick_close(t, i + 1);
                    proof {
                        lemma_tick_close(t, i + 1);
                    }
                    let here = if j < t.len() && t[j] == '`' && j > i + 1 {
                        seq![(i, j + 1)]
                    } else {
                        Seq::empty()
                    };
                    here + spans_from(t, fenced, if j < t.len() { j + 1 } else { j })
                } else {
                    spans_from(t, fenced, i + 1)
                }
            },
        }
    }
}

/// The inline backtick spans of the text outside its fenced code blocks, in order.
pub open spec fn backtick_spans(t: Seq<char>) -> Seq<(int, int)> {
    spans_from(t, fenced_ranges(t), 0)
}

proof fn lemma_tick_close_inner(t: Seq<char>, p: int)
    requires
        0 <= p,
    ensures
        forall|m: int| p <= m < tick_close(t, p) ==> #[trigger] t[m] != '`' && t[m] != '\n',
    decreases t.len() - p,
{
    if 0 <= p < t.len() && t[p] != '`' && t[p] != '\n' {
        lemma_tick_close_inner(t, p + 1);
    }
}

/// A span found from `i`: it starts at or after `i`, outside the fenced
/// blocks, is a valid span, and holds no backtick or newline between its
/// backticks.
pub open spec fn span_ok(t: Seq<char>, fenced: Seq<(int, int)>, i: int, sp: (int, int)) -> bool {
    &&& i <= sp.0
    &&& fence_skip(fenced, sp.0) is None
    &&& valid_span(t, sp)
    &&& forall|m: int| sp.0 < m < sp.1 - 1 ==> #[trigger] t[m] != '`' && t[m] != '\n'
}

proof fn lemma_spans_from_structure(t: Seq<char>, fenced: Seq<(int, int)>, i: int)
    requires
        0 <= i,
    ensures
        forall|k: int| 0 <= k < spans_from(t, fenced, i).len() ==> span_ok(t, fenced, i, #[trigger] spans_from(t, fenced, i)[k]),
        forall|k: int|
            0 <= k && k + 1 < spans_from(t, fenced, i).len() ==> (#[trigger] spans_from(t, fenced, i)[k]).1
                <= spans_from(t, fenced, i)[k + 1].0,
    decreases t.len() - i,
{
    let r = spans_from(t, fenced, i);
    if i >= t.len() {
    } else {
        match fence_skip(fenced, i) {
            Some(e) => {
                lemma_fence_skip(fenced, i);
                let n = if e > t.len() { t.len() as int } else { e };
                lemma_spans_from_structure(t, fenced, n);
                assert(r == spans_from(t, fenced, n));
                assert forall|k: int| 0 <= k < r.len() implies span_ok(t, fenced, i, #[trigger] r[k]) by {
                    assert(span_ok(t, fenced, n, r[k]));
                }
            },
            None => {
                if t[i] == '`' {
                    let j = tick_close(t, i + 1);
                    lemma_tick_close(t, i + 1);
                    lemma_tick_close_inner(t, i + 1);
                    let n = if j < t.len() { j + 1 } else { j };
                    lemma_spans_from_structure(t, fenced, n);
                    let rest = spans_from(t, fenced, n);
                    let here = if j < t.len() && t[j] == '`' && j > i + 1 {
                        seq![(i, j + 1)]
                    } else {
                        Seq::<(int, int)>::empty()
                    };
                    assert(r == here + rest);
                    assert forall|k: int| 0 <= k < r.len() implies span_ok(t, fenced, i, #[trigger] r[k]) by {
                        if k < here.len() {
                            assert(r[k] == (i, j + 1));
                        } else {
                            assert(r[k] == rest[k - here.len()]);
                            assert(span_ok(t, fenced, n, rest[k - here.len()]));
                        }
                    }
                    assert forall|k: int| 0 <= k && k + 1 < r.len() implies (#[trigger] r[k]).1 <= r[k + 1].0 by {
                        if k + 1 < here.len() {
                        } else if k < here.len() {
                            assert(r[k + 1] == rest[0]);
                            assert(span_ok(t, fenced, n, rest[0]));
                        } else {
                            assert(r[k] == rest[k - here.len()] && r[k + 1] == rest[k + 1 - here.len()]);
                        }
                    }
                } else {
                    lemma_spans_from_structure(t, fenced, i + 1);
                    assert(r == spans_from(t, fenced, i + 1));
                    assert forall|k: int| 0 <= k < r.len() implies span_ok(t, fenced, i, #[trigger] r[k]) by {
                        assert(span_ok(t, fenced, i + 1, r[k]));
                    }
                }
            },
        }
    }
}

/// The inline spans of a text are in order and do not overlap; each lies
/// outside every fenced block, starts and ends with a backtick, and holds
/// at least one character, none of them a backtick or a newline.
pub proof fn lemma_backtick_spans_structure(t: Seq<char>)
    ensures
        forall|k: int| 0 <= k < backtick_spans(t).len() ==> span_ok(t, fenced_ranges(t), 0, #[trigger] backtick_spans(t)[k]),
        forall|k: int|
            0 <= k && k + 1 < backtick_spans(t).len() ==> (#[trigger] backtick_spans(t)[k]).1 <= backtick_spans(
                t,
            )[k + 1].0,
{
    lemma_spans_from_structure(t, fenced_ranges(t), 0);
}

/// The end of the first range of `fenced` that contains `i`.
fn fence_skip_exec(fenced: &[(usize, usize)], i: usize) -> (r: Option<usize>)
    ensures
        r matches Some(e) ==> fence_skip(ranges_view(fenced@), i as int) == Some(e as int),
        r is None ==> fence_skip(ranges_view(fenced@), i as int) is None,
{
    let ghost f = ranges_view(fenced@);
    let mut k: usize = 0;
    assert(f.skip(0) == f);
    while k < fenced.len()
        invariant
            k <= fenced@.len(),
            f == ranges_view(fenced@),
            fence_skip(f, i as int) == fence_skip(f.skip(k as int), i as int),
        decreases fenced@.len() - k,
    {
        let (fs, fe) = fenced[k];
        proof {
            assert(f.skip(k as int)[0] == (fs as int, fe as int));
            assert(f.skip(k as int).drop_first() == f.skip(k + 1));
        }
        if i >= fs && i < fe {
            return Some(fe);
        }
        k = k + 1;
    }
    proof {
        assert(f.skip(k as int).len() == 0);
    }
    None
}

/// Finds the inline backtick spans outside the given fenced ranges; each
/// range runs from the opening backtick to just past the closing one.
pub fn backtick_span_ranges(text: &[char], fenced: &[(usize, usize)]) -> (r: Vec<(usize, usize)>)
    ensures
        ranges_view(r@) == spans_from(text@, ranges_view(fenced@), 0),
{
    let ghost t = text@;
    let ghost f = ranges_view(fenced@);
    let n = text.len();
    let mut spans: Vec<(usize, usize)> = Vec::new();
    let mut i: usize = 0;
    while i < n
        invariant
            n == t.len(),
            t == text@,
            f == ranges_view(fenced@),
            ranges_view(spans@) + spans_from(t, f, i as int) == spans_from(t, f, 0),
        decreases n - i,
    {
        let old_i = i;
        match fence_skip_exec(fenced, i) {
            Some(fe) => {
                proof {
                    lemma_fence_skip(f, i as int);
                }
                i = fe;
                if i > n {
                    i = n;
                }
                assert(spans_from(t, f, old_i as int) == spans_from(t, f, i as int));
            },
            None => {
                if text[i] == '`' {
                    let open = i;
                    i = i + 1;
                    while i < n && text[i] != '`' && text[i] != '\n'
                        invariant
                            n == t.len(),
                            t == text@,
                            open < i <= n,
                            tick_close(t, i as int) == tick_close(t, open + 1),
                        decreases n - i,
                    {
                        i = i + 1;
                    }
                    let ghost old_spans = spans@;
                    let ghost j = i as int;
                    proof {
                        lemma_tick_close(t, open + 1);
                        assert(j == tick_close(t, open + 1));
                    }
                    if i < n && text[i] == '`' && i > open + 1 {
                        spans.push((open, i + 1));
                        assert(ranges_view(spans@) == ranges_view(old_spans).push((open as int, i + 1)));
                    }
                    if i < n {
                        i = i + 1;
                    }
                    proof {
                        let here = if j < t.len() && t[j] == '`' && j > open + 1 {
                            seq![(open as int, j + 1)]
                        } else {
                            Seq::<(int, int)>::empty()
                        };
                        assert(spans_from(t, f, open as int) == here + spans_from(t, f, i as int));
                        assert(ranges_view(spans@) == ranges_view(old_spans) + here);
                    }
                } else {
                    i = i + 1;
                }
            },
        }
    }
    proof {
        assert(ranges_view(spans@) + Seq::<(int, int)>::empty() == ranges_view(spans@));
    }
    spans
}

/// The range `[pos, end)` lies within one of the ranges.
pub open spec fn inside_any(pos: int, end: int, ranges: Seq<(int, int)>) -> bool {
    exists|k: int| 0 <= k < ranges.len() && ranges[k].0 <= pos && end <= ranges[k].1
}

/// Whether `[pos, end)` lies within one of the given ranges.
pub fn inside_ranges(pos: usize, end: usize, ranges: &[(usize, usize)]) -> (r: bool)
    ensures
        r == inside_any(pos as int, end as int, ranges_view(ranges@)),
{
    let mut k: usize = 0;
    while k < ranges.len()
        invariant
            k <= ranges@.len(),
            forall|j: int| 0 <= j < k ==> !(ranges@[j].0 <= pos && end <= ranges@[j].1),
        decreases ranges@.len() - k,
    {
        let (s, e) = ranges[k];
        if pos >= s && end <= e {
            assert(ranges_view(ranges@)[k as int] == (s as int, e as int));
            return true;
        }
        k = k + 1;
    }
    proof {
        assert forall|j: int| 0 <= j < ranges_view(ranges@).len() implies !(ranges_view(ranges@)[j].0 <= pos
            && end <= ranges_view(ranges@)[j].1) by {
            assert(ranges_view(ranges@)[j] == (ranges@[j].0 as int, ranges@[j].1 as int));
        }
    }
    false
}


/// A span starts with a backtick, ends with one, and holds at least one character between them.
pub open spec fn valid_span(t: Seq<char>, sp: (int, int)) -> bool {
    &&& 0 <= sp.0
    &&& sp.0 + 3 <= sp.1 <= t.len()
    &&& t[sp.0] == '`'
    &&& t[sp.1 - 1] == '`'
}

pub proof fn lemma_spans_valid(t: Seq<char>, fenced: Seq<(int, int)>, i: int)
    ensures
        forall|k: int|
            0 <= k < spans_from(t, fenced, i).len() ==> valid_span(t, #[trigger] spans_from(t, fenced, i)[k]),
    decreases t.len() - i,
{
    if !(i < 0 || i >= t.len()) {
        match fence_skip(fenced, i) {
            Some(e) => {
                lemma_fence_skip(fenced, i);
                let c = if e > t.len() { t.len() as int } else { e };
                lemma_spans_valid(t, fenced, c);
                assert(spans_from(t, fenced, i) == spans_from(t, fenced, c));
            },
            None => {
                if t[i] == '`' {
                    let j = tick_close(t, i + 1);
                    lemma_tick_close(t, i + 1);
                    let next = if j < t.len() { j + 1 } else { j };
                    lemma_spans_valid(t, fenced, next);
                    let here = if j < t.len() && t[j] == '`' && j > i + 1 {
                        seq![(i, j + 1)]
                    } else {
                        Seq::<(int, int)>::empty()
                    };
                    let rest = spans_from(t, fenced, next);
                    assert(spans_from(t, fenced, i) == here + rest);
                    assert forall|k: int| 0 <= k < spans_from(t, fenced, i).len() implies valid_span(
                        t,
                        #[trigger] spans_from(t, fenced, i)[k],
                    ) by {
                        if k >= here.len() {
                            assert(spans_from(t, fenced, i)[k] == rest[k - here.len()]);
                        } else {
                            assert(spans_from(t, fenced, i)[k] == (i, j + 1));
                        }
                    }
                } else {
                    lemma_spans_valid(t, fenced, i + 1);
                    assert(spans_from(t, fenced, i) == spans_from(t, fenced, i + 1));
                }
            },
        }
    }
}

} // verus!
