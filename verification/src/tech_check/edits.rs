//! Text edits: replace character ranges, right to left.

use vstd::prelude::*;
use crate::text::{to_chars, from_chars, sub_vec};

verus! {

/// An edit replacing the characters `[start, end)` of a text.
pub type EditView = (int, int, Seq<char>);

pub open spec fn edits_view(v: Seq<(usize, usize, String)>) -> Seq<EditView> {
    v.map_values(|e: (usize, usize, String)| (e.0 as int, e.1 as int, e.2@))
}

/// Inserts `e` into a list sorted by decreasing start, after every element
/// whose start is at least `e`'s.
pub open spec fn insert_desc(sorted: Seq<EditView>, e: EditView) -> Seq<EditView>
    decreases sorted.len(),
{
    if sorted.len() == 0 {
        seq![e]
    } else if sorted.last().0 >= e.0 {
        sorted.push(e)
    } else {
        insert_desc(sorted.drop_last(), e).push(sorted.last())
    }
}

/// The edits sorted by decreasing start; edits with equal starts keep their order.
pub open spec fn sort_desc(edits: Seq<EditView>) -> Seq<EditView>
    decreases edits.len(),
{
    if edits.len() == 0 {
        Seq::empty()
    } else {
        insert_desc(sort_desc(edits.drop_last()), edits.last())
    }
}

/// Drops each edit that ends after the start of the last edit kept before it.
pub open spec fn drop_overlapping(edits: Seq<EditView>) -> Seq<EditView>
    decreases edits.len(),
{
    if edits.len() == 0 {
        Seq::empty()
    } else {
        let kept = drop_overlapping(edits.drop_last());
        if kept.len() > 0 && edits.last().1 > kept.last().0 {
            kept
        } else {
            kept.push(edits.last())
        }
    }
}

/// Replaces `[e.0, e.1)` of the text by `e.2`.
pub open spec fn splice(t: Seq<char>, e: EditView) -> Seq<char> {
    t.take(e.0) + e.2 + t.skip(e.1)
}

/// The text after applying the edits in order.
pub open spec fn apply_all(t: Seq<char>, edits: Seq<EditView>) -> Seq<char>
    decreases edits.len(),
{
    if edits.len() == 0 {
        t
    } else {
        splice(apply_all(t, edits.drop_last()), edits.last())
    }
}

/// The edits that `apply_edits` keeps, in the order it applies them.
pub open spec fn kept_edits(edits: Seq<EditView>) -> Seq<EditView> {
    drop_overlapping(sort_desc(edits))
}

/// Every edit lies within a text of length `len`.
pub open spec fn edits_in_bounds(edits: Seq<EditView>, len: int) -> bool {
    forall|k: int| 0 <= k < edits.len() ==> 0 <= (#[trigger] edits[k]).0 <= edits[k].1 <= len
}

proof fn lemma_insert_desc_props(sorted: Seq<EditView>, e: EditView)
    ensures
        insert_desc(sorted, e).len() == sorted.len() + 1,
        forall|x: EditView| #[trigger] insert_desc(sorted, e).contains(x) <==> (sorted.contains(x) || x == e),
    decreases sorted.len(),
{
    let r = insert_desc(sorted, e);
    if sorted.len() > 0 && sorted.last().0 < e.0 {
        let d = sorted.drop_last();
        lemma_insert_desc_props(d, e);
        let r0 = insert_desc(d, e);
        assert(r == r0.push(sorted.last()));
        assert forall|x: EditView| #[trigger] r.contains(x) <==> (sorted.contains(x) || x == e) by {
            if r.contains(x) {
                let k = choose|k: int| 0 <= k < r.len() && r[k] == x;
                if k < r0.len() {
                    assert(r0[k] == x);
                    assert(r0.contains(x));
                    if d.contains(x) {
                        let j = choose|j: int| 0 <= j < d.len() && d[j] == x;
                        assert(sorted[j] == x);
                    }
                } else {
                    assert(sorted[sorted.len() - 1] == x);
                }
            }
            if sorted.contains(x) {
                let k = choose|k: int| 0 <= k < sorted.len() && sorted[k] == x;
                if k < sorted.len() - 1 {
                    assert(d[k] == x);
                    assert(r0.contains(x));
                    let j = choose|j: int| 0 <= j < r0.len() && r0[j] == x;
                    assert(r[j] == x);
                } else {
                    assert(r[r.len() - 1] == x);
                }
            }
            if x == e {
                assert(r0.contains(x));
                let j = choose|j: int| 0 <= j < r0.len() && r0[j] == x;
                assert(r[j] == x);
            }
        }
    } else if sorted.len() > 0 {
        assert(r == sorted.push(e));
        assert forall|x: EditView| #[trigger] r.contains(x) <==> (sorted.contains(x) || x == e) by {
            if r.contains(x) {
                let k = choose|k: int| 0 <= k < r.len() && r[k] == x;
                if k < sorted.len() {
                    assert(sorted[k] == x);
                }
            }
            if sorted.contains(x) {
                let k = choose|k: int| 0 <= k < sorted.len() && sorted[k] == x;
                assert(r[k] == x);
            }
            if x == e {
                assert(r[sorted.len() as int] == x);
            }
        }
    } else {
        assert(r == seq![e]);
        assert forall|x: EditView| #[trigger] r.contains(x) <==> (sorted.contains(x) || x == e) by {
            if x == e {
                assert(r[0] == x);
            }
        }
    }
}

proof fn lemma_sort_desc_props(edits: Seq<EditView>)
    ensures
        sort_desc(edits).len() == edits.len(),
        forall|x: EditView| sort_desc(edits).contains(x) <==> edits.contains(x),
    decreases edits.len(),
{
    if edits.len() > 0 {
        lemma_sort_desc_props(edits.drop_last());
        lemma_insert_desc_props(sort_desc(edits.drop_last()), edits.last());
        assert forall|x: EditView| sort_desc(edits).contains(x) <==> edits.contains(x) by {
            if edits.contains(x) {
                let k = choose|k: int| 0 <= k < edits.len() && edits[k] == x;
                if k < edits.len() - 1 {
                    assert(edits.drop_last()[k] == x);
                }
            }
            if edits.drop_last().contains(x) {
                let k = choose|k: int| 0 <= k < edits.drop_last().len() && edits.drop_last()[k] == x;
                assert(edits[k] == x);
            }
        }
    }
}

/// Every kept edit is one of the given edits; kept edits run right to left
/// without overlapping: each ends at or before the start of the one kept before it.
pub proof fn lemma_drop_overlapping(edits: Seq<EditView>)
    ensures
        forall|x: EditView| drop_overlapping(edits).contains(x) ==> edits.contains(x),
        forall|k: int|
            0 < k < drop_overlapping(edits).len() ==> (#[trigger] drop_overlapping(edits)[k]).1
                <= drop_overlapping(edits)[k - 1].0,
    decreases edits.len(),
{
    if edits.len() > 0 {
        let prev = edits.drop_last();
        lemma_drop_overlapping(prev);
        let kept = drop_overlapping(prev);
        assert forall|x: EditView| drop_overlapping(edits).contains(x) implies edits.contains(x) by {
            if kept.contains(x) {
                assert(prev.contains(x));
                let k = choose|k: int| 0 <= k < prev.len() && prev[k] == x;
                assert(edits[k] == x);
            } else {
                let r = kept.push(edits.last());
                assert(drop_overlapping(edits) == r);
                let k = choose|k: int| 0 <= k < r.len() && r[k] == x;
                if k < kept.len() {
                    assert(kept[k] == x);
                }
                assert(x == edits.last());
                assert(edits[edits.len() - 1] == x);
            }
        }
        if !(kept.len() > 0 && edits.last().1 > kept.last().0) {
            let r = kept.push(edits.last());
            assert forall|k: int| 0 < k < r.len() implies (#[trigger] r[k]).1 <= r[k - 1].0 by {
                if k < kept.len() {
                    assert(r[k] == kept[k] && r[k - 1] == kept[k - 1]);
                }
            }
        }
    }
}

/// Inserts `e` into `sorted` as `insert_desc` does.
fn insert_desc_exec(sorted: &mut Vec<(usize, usize, String)>, e: (usize, usize, String))
    ensures
        edits_view(final(sorted)@) == insert_desc(edits_view(old(sorted)@), (e.0 as int, e.1 as int, e.2@)),
{
    let ghost ev = (e.0 as int, e.1 as int, e.2@);
    let ghost s0 = edits_view(sorted@);
    let mut p = sorted.len();
    assert(s0.take(p as int) == s0);
    assert(s0.skip(p as int) == Seq::<EditView>::empty());
    assert(s0 + Seq::<EditView>::empty() == s0);
    let key = e.0;
    while p > 0 && sorted[p - 1].0 < key
        invariant
            key == e.0,
            ev == (e.0 as int, e.1 as int, e.2@),
            p <= sorted@.len(),
            s0 == edits_view(sorted@),
            insert_desc(s0, ev) == insert_desc(s0.take(p as int), ev) + s0.skip(p as int),
        decreases p,
    {
        proof {
            let t = s0.take(p as int);
            assert(s0[p - 1].0 == sorted@[p - 1].0);
            assert(t.last() == s0[p - 1]);
            assert(t.drop_last() == s0.take(p - 1));
            assert(t.len() > 0);
            assert(t.last().0 < ev.0);
            assert(insert_desc(t, ev) == insert_desc(s0.take(p - 1), ev).push(s0[p - 1]));
            assert(s0.skip(p - 1) == seq![s0[p - 1]] + s0.skip(p as int));
            assert(insert_desc(s0.take(p - 1), ev).push(s0[p - 1]) + s0.skip(p as int)
                == insert_desc(s0.take(p - 1), ev) + s0.skip(p - 1));
        }
        p = p - 1;
    }
    proof {
        let t = s0.take(p as int);
        if p > 0 {
            assert(s0[p - 1].0 == sorted@[p - 1].0);
            assert(t.last() == s0[p - 1]);
        }
        assert(insert_desc(t, ev) == t.push(ev));
    }
    sorted.insert(p, e);
    proof {
        assert(edits_view(sorted@) == s0.take(p as int).push(ev) + s0.skip(p as int));
    }
}

/// The edits sorted by decreasing start, equal starts keeping their order.
fn sort_edits(edits: &Vec<(usize, usize, String)>) -> (sorted: Vec<(usize, usize, String)>)
    ensures
        edits_view(sorted@) == sort_desc(edits_view(edits@)),
{
    let ghost orig = edits_view(edits@);
    let mut sorted: Vec<(usize, usize, String)> = Vec::new();
    let mut i: usize = 0;
    assert(orig.take(0).len() == 0);
    while i < edits.len()
        invariant
            i <= edits@.len(),
            orig == edits_view(edits@),
            edits_view(sorted@) == sort_desc(orig.take(i as int)),
        decreases edits@.len() - i,
    {
        let e = (edits[i].0, edits[i].1, edits[i].2.clone());
        proof {
            assert(orig.take(i + 1).drop_last() == orig.take(i as int));
            assert(orig.take(i + 1).last() == orig[i as int]);
        }
        insert_desc_exec(&mut sorted, e);
        i = i + 1;
    }
    assert(orig.take(edits@.len() as int) == orig);
    sorted
}

/// The edits without those that end after the start of the last edit kept before them.
fn drop_overlapping_exec(sorted: &Vec<(usize, usize, String)>) -> (kept: Vec<(usize, usize, String)>)
    ensures
        edits_view(kept@) == drop_overlapping(edits_view(sorted@)),
{
    let ghost sv = edits_view(sorted@);
    let mut kept: Vec<(usize, usize, String)> = Vec::new();
    let mut j: usize = 0;
    assert(sv.take(0).len() == 0);
    while j < sorted.len()
        invariant
            j <= sorted@.len(),
            sv == edits_view(sorted@),
            edits_view(kept@) == drop_overlapping(sv.take(j as int)),
        decreases sorted@.len() - j,
    {
        proof {
            assert(sv.take(j + 1).drop_last() == sv.take(j as int));
            assert(sv.take(j + 1).last() == sv[j as int]);
        }
        let keep = if kept.len() > 0 {
            let last_start = kept[kept.len() - 1].0;
            !(sorted[j].1 > last_start)
        } else {
            true
        };
        if keep {
            let e = (sorted[j].0, sorted[j].1, sorted[j].2.clone());
            let ghost old_kept = edits_view(kept@);
            kept.push(e);
            assert(edits_view(kept@) == old_kept.push(sv[j as int]));
        }
        j = j + 1;
    }
    assert(sv.take(sorted@.len() as int) == sv);
    kept
}

/// `splice(text, e)` for an edit within the text.
fn splice_exec(text: &Vec<char>, s: usize, e: usize, rep: &str) -> (r: Vec<char>)
    requires
        s <= e <= text@.len(),
    ensures
        r@ == splice(text@, (s as int, e as int, rep@)),
{
    let mut next = sub_vec(text.as_slice(), 0, s);
    let rep = to_chars(rep);
    let mut q: usize = 0;
    while q < rep.len()
        invariant
            q <= rep@.len(),
            s <= text@.len(),
            next@ == text@.take(s as int) + rep@.take(q as int),
        decreases rep@.len() - q,
    {
        next.push(rep[q]);
        assert(rep@.take(q + 1) == rep@.take(q as int).push(rep@[q as int]));
        q = q + 1;
    }
    assert(rep@.take(rep@.len() as int) == rep@);
    let ghost before_tail = next@;
    let mut w = e;
    while w < text.len()
        invariant
            e <= w <= text@.len(),
            next@ == before_tail + text@.subrange(e as int, w as int),
        decreases text@.len() - w,
    {
        next.push(text[w]);
        assert(text@.subrange(e as int, w + 1) == text@.subrange(e as int, w as int).push(text@[w as int]));
        w = w + 1;
    }
    assert(text@.subrange(e as int, text@.len() as int) == text@.skip(e as int));
    next
}

/// Applies kept edits (right to left, non-overlapping, within the text) in order.
fn apply_kept(content: &str, kept: &Vec<(usize, usize, String)>) -> (r: Vec<char>)
    requires
        forall|k: int| 0 <= k < edits_view(kept@).len() ==> 0 <= (#[trigger] edits_view(kept@)[k]).0
            <= edits_view(kept@)[k].1 <= content@.len(),
        forall|k: int| 0 < k < edits_view(kept@).len() ==> (#[trigger] edits_view(kept@)[k]).1
            <= edits_view(kept@)[k - 1].0,
    ensures
        r@ == apply_all(content@, edits_view(kept@)),
{
    let ghost kv = edits_view(kept@);
    let mut text = to_chars(content);
    let mut m: usize = 0;
    assert(kv.take(0).len() == 0);
    while m < kept.len()
        invariant
            m <= kept@.len(),
            kv == edits_view(kept@),
            forall|k: int| 0 <= k < kv.len() ==> 0 <= (#[trigger] kv[k]).0 <= kv[k].1 <= content@.len(),
            forall|k: int| 0 < k < kv.len() ==> (#[trigger] kv[k]).1 <= kv[k - 1].0,
            text@ == apply_all(content@, kv.take(m as int)),
            m == 0 ==> text@ == content@,
            m > 0 ==> kv[m - 1].0 <= text@.len() && text@.take(kv[m - 1].0) == content@.take(kv[m - 1].0),
        decreases kept@.len() - m,
    {
        let s = kept[m].0;
        let e = kept[m].1;
        proof {
            assert(kv[m as int] == (s as int, e as int, kept@[m as int].2@));
            assert(kv.take(m + 1).drop_last() == kv.take(m as int));
            assert(kv.take(m + 1).last() == kv[m as int]);
            if m > 0 {
                assert(kv[m as int].1 <= kv[m - 1].0);
            }
        }
        let next = splice_exec(&text, s, e, kept[m].2.as_str());
        proof {
            assert(next@.take(s as int) == text@.take(s as int));
            if m > 0 {
                assert(text@.take(s as int) == text@.take(kv[m - 1].0).take(s as int));
                assert(content@.take(s as int) == content@.take(kv[m - 1].0).take(s as int));
            }
        }
        text = next;
        m = m + 1;
    }
    assert(kv.take(kept@.len() as int) == kv);
    text
}

/// Applies non-overlapping edits to a text, right to left: the edits are
/// sorted by decreasing start (equal starts keep their order), each edit
/// that ends after the start of the last edit kept before it is dropped,
/// and the kept ones are applied in turn. `edits` is left sorted and
/// without the dropped edits.
pub fn apply_edits(content: &str, edits: &mut Vec<(usize, usize, String)>) -> (r: String)
    requires
        edits_in_bounds(edits_view(old(edits)@), content@.len() as int),
    ensures
        edits_view(final(edits)@) == kept_edits(edits_view(old(edits)@)),
        r@ == apply_all(content@, kept_edits(edits_view(old(edits)@))),
{
    let ghost orig = edits_view(edits@);
    let sorted = sort_edits(edits);
    let kept = drop_overlapping_exec(&sorted);
    let ghost sv = edits_view(sorted@);
    let ghost kv = edits_view(kept@);
    proof {
        lemma_sort_desc_props(orig);
        lemma_drop_overlapping(sv);
        assert forall|k: int| 0 <= k < kv.len() implies 0 <= (#[trigger] kv[k]).0 <= kv[k].1 <= content@.len() by {
            assert(kv.contains(kv[k]));
            assert(sv.contains(kv[k]));
            assert(orig.contains(kv[k]));
            let j = choose|j: int| 0 <= j < orig.len() && orig[j] == kv[k];
        }
    }
    let text = apply_kept(content, &kept);
    *edits = kept;
    from_chars(text.as_slice())
}

} // verus!
