//! The order in which workspace search results are listed: by source
//! identifier (compared character by character, as `str` compares), then by
//! record index; and a stable insertion sort into that order.

use vstd::prelude::*;
use crate::domain::{HitView, SearchHit, hits_view};
use crate::parser::strings_view;
use crate::text::chars_of;

verus! {

broadcast use vstd::seq_lib::to_multiset_insert;

/// Whether `a` comes strictly before `b` in lexicographic order of their
/// characters (a proper prefix comes first).
pub open spec fn chars_less(a: Seq<char>, b: Seq<char>) -> bool
    decreases a.len(),
{
    if a.len() == 0 {
        b.len() > 0
    } else if b.len() == 0 {
        false
    } else if a[0] < b[0] {
        true
    } else if a[0] > b[0] {
        false
    } else {
        chars_less(a.drop_first(), b.drop_first())
    }
}

/// Whether `a` is a proper prefix of `b`.
pub open spec fn proper_prefix(a: Seq<char>, b: Seq<char>) -> bool {
    a.len() < b.len() && b.subrange(0, a.len() as int) == a
}

/// Whether `a` and `b` agree before position `i` and `a` has the smaller
/// character at `i`.
pub open spec fn smaller_at(a: Seq<char>, b: Seq<char>, i: int) -> bool {
    &&& 0 <= i < a.len()
    &&& i < b.len()
    &&& a.subrange(0, i) == b.subrange(0, i)
    &&& a[i] < b[i]
}

/// The order of texts is `str`'s lexicographic order: `a` comes before `b`
/// exactly when `a` is a proper prefix of `b`, or at the first position
/// where they differ `a` has the smaller character. In particular a text
/// comes before every longer text that starts with it.
pub proof fn law_chars_less_lexicographic(a: Seq<char>, b: Seq<char>)
    ensures
        chars_less(a, b) <==> (proper_prefix(a, b) || exists|i: int| smaller_at(a, b, i)),
        forall|t: Seq<char>| t.len() > 0 ==> #[trigger] chars_less(a, a + t),
    decreases a.len(),
{
    if a.len() == 0 {
        assert(b.subrange(0, 0) =~= a);
    } else if b.len() == 0 {
    } else if a[0] < b[0] {
        assert(a.subrange(0, 0) =~= b.subrange(0, 0));
        assert(smaller_at(a, b, 0));
    } else if a[0] > b[0] {
        if proper_prefix(a, b) {
            assert(b.subrange(0, a.len() as int)[0] == b[0]);
        }
        assert forall|i: int| !smaller_at(a, b, i) by {
            if smaller_at(a, b, i) && i > 0 {
                assert(a.subrange(0, i)[0] == b.subrange(0, i)[0]);
            }
        }
    } else {
        let a1 = a.drop_first();
        let b1 = b.drop_first();
        law_chars_less_lexicographic(a1, b1);
        if proper_prefix(a, b) {
            assert(b1.subrange(0, a1.len() as int) =~= b.subrange(0, a.len() as int).drop_first());
        }
        if proper_prefix(a1, b1) {
            assert(b.subrange(0, a.len() as int) =~= seq![b[0]] + b1.subrange(0, a1.len() as int));
            assert(a =~= seq![a[0]] + a1);
        }
        assert forall|i: int| smaller_at(a, b, i) implies smaller_at(a1, b1, i - 1) by {
            if i == 0 {
            } else {
                assert(a1.subrange(0, i - 1) =~= a.subrange(0, i).drop_first());
                assert(b1.subrange(0, i - 1) =~= b.subrange(0, i).drop_first());
            }
        }
        assert forall|i: int| smaller_at(a1, b1, i) implies smaller_at(a, b, i + 1) by {
            assert(a.subrange(0, i + 1) =~= seq![a[0]] + a1.subrange(0, i));
            assert(b.subrange(0, i + 1) =~= seq![b[0]] + b1.subrange(0, i));
        }
        if exists|i: int| smaller_at(a1, b1, i) {
            let i = choose|i: int| smaller_at(a1, b1, i);
            assert(smaller_at(a, b, i + 1));
        }
        if exists|i: int| smaller_at(a, b, i) {
            let i = choose|i: int| smaller_at(a, b, i);
            assert(smaller_at(a1, b1, i - 1));
        }
    }
    assert forall|t: Seq<char>| t.len() > 0 implies #[trigger] chars_less(a, a + t) by {
        lemma_chars_less_prefix(a, t);
    }
}

/// A text comes before itself followed by more characters.
proof fn lemma_chars_less_prefix(a: Seq<char>, t: Seq<char>)
    requires
        t.len() > 0,
    ensures
        chars_less(a, a + t),
    decreases a.len(),
{
    if a.len() > 0 {
        assert((a + t).drop_first() =~= a.drop_first() + t);
        lemma_chars_less_prefix(a.drop_first(), t);
    }
}

/// Whether hit `a` is listed strictly before hit `b`.
pub open spec fn hit_before(a: HitView, b: HitView) -> bool {
    chars_less(a.source_id, b.source_id) || (a.source_id == b.source_id && a.record_index
        < b.record_index)
}

/// No hit is listed after one that should come after it.
pub open spec fn listed_in_order(s: Seq<HitView>) -> bool {
    forall|i: int, j: int| 0 <= i < j < s.len() ==> !hit_before(#[trigger] s[j], #[trigger] s[i])
}

/// No text comes before itself.
pub proof fn lemma_chars_less_irreflexive(a: Seq<char>)
    ensures
        !chars_less(a, a),
    decreases a.len(),
{
    if a.len() > 0 {
        lemma_chars_less_irreflexive(a.drop_first());
    }
}

/// Of two texts, at most one comes before the other.
pub proof fn lemma_chars_less_asymmetric(a: Seq<char>, b: Seq<char>)
    ensures
        chars_less(a, b) ==> !chars_less(b, a),
    decreases a.len(),
{
    if a.len() > 0 && b.len() > 0 && a[0] == b[0] {
        lemma_chars_less_asymmetric(a.drop_first(), b.drop_first());
    }
}

/// Of two different texts, one comes before the other.
pub proof fn lemma_chars_less_total(a: Seq<char>, b: Seq<char>)
    ensures
        a != b ==> chars_less(a, b) || chars_less(b, a),
    decreases a.len(),
{
    if a.len() > 0 && b.len() > 0 && a[0] == b[0] {
        lemma_chars_less_total(a.drop_first(), b.drop_first());
        if a.drop_first() == b.drop_first() {
            assert(a =~= seq![a[0]] + a.drop_first());
            assert(b =~= seq![b[0]] + b.drop_first());
        }
    } else if a.len() == 0 && b.len() == 0 {
        assert(a =~= b);
    }
}

/// The order of texts is transitive.
pub proof fn lemma_chars_less_transitive(a: Seq<char>, b: Seq<char>, c: Seq<char>)
    ensures
        chars_less(a, b) && chars_less(b, c) ==> chars_less(a, c),
    decreases a.len(),
{
    if a.len() > 0 && b.len() > 0 && c.len() > 0 {
        lemma_chars_less_transitive(a.drop_first(), b.drop_first(), c.drop_first());
    }
}

/// `hit_before` is a strict order that leaves only equal keys unordered.
pub proof fn lemma_hit_before_order(a: HitView, b: HitView, c: HitView)
    ensures
        !hit_before(a, a),
        hit_before(a, b) ==> !hit_before(b, a),
        hit_before(a, b) && hit_before(b, c) ==> hit_before(a, c),
        !hit_before(a, b) && !hit_before(b, a) ==> a.source_id == b.source_id && a.record_index
            == b.record_index,
{
    lemma_chars_less_irreflexive(a.source_id);
    lemma_chars_less_asymmetric(a.source_id, b.source_id);
    lemma_chars_less_total(a.source_id, b.source_id);
    lemma_chars_less_transitive(a.source_id, b.source_id, c.source_id);
    lemma_chars_less_irreflexive(b.source_id);
    if a.source_id == b.source_id {
        lemma_chars_less_irreflexive(c.source_id);
    }
}

/// Whether two hits have the same key: the same source and record.
pub open spec fn same_key(a: HitView, b: HitView) -> bool {
    a.source_id == b.source_id && a.record_index == b.record_index
}

/// The hits of `s` whose key is that of `k`, in order.
pub open spec fn with_key(s: Seq<HitView>, k: HitView) -> Seq<HitView> {
    s.filter(|h: HitView| same_key(h, k))
}

/// Inserting `x` after every hit that does not come after it and before
/// the first that does keeps the hits of each key in the order they came,
/// with `x` last among its own.
proof fn lemma_insert_keeps_key_runs(before: Seq<HitView>, p: int, x: HitView, k: HitView)
    requires
        listed_in_order(before),
        0 <= p <= before.len(),
        forall|q: int| 0 <= q < p ==> !hit_before(x, #[trigger] before[q]),
        p < before.len() ==> hit_before(x, before[p]),
    ensures
        with_key(before.insert(p, x), k) == if same_key(x, k) {
            with_key(before, k).push(x)
        } else {
            with_key(before, k)
        },
{
    let pred = |h: HitView| same_key(h, k);
    let a = before.take(p);
    let b = before.skip(p);
    assert(before =~= a + b);
    assert(before.insert(p, x) =~= a + seq![x] + b);
    Seq::filter_distributes_over_add(a, b, pred);
    Seq::filter_distributes_over_add(a + seq![x], b, pred);
    Seq::filter_distributes_over_add(a, seq![x], pred);
    assert(seq![x] =~= Seq::<HitView>::empty().push(x));
    Seq::<HitView>::empty().lemma_filter_push(x, pred);
    assert(Seq::<HitView>::empty().filter(pred) =~= Seq::<HitView>::empty()) by {
        reveal(Seq::filter);
    }
    if same_key(x, k) {
        assert forall|i: int| 0 <= i < b.len() implies !pred(#[trigger] b[i]) by {
            let q = p + i;
            assert(b[i] == before[q]);
            lemma_hit_before_order(x, before[p], before[q]);
            if q > p && same_key(before[q], k) {
                assert(hit_before(before[q], before[p]));
            }
        }
        b.lemma_all_neg_filter_empty(pred);
        assert(b.filter(pred) =~= Seq::<HitView>::empty());
        assert(with_key(before.insert(p, x), k) =~= with_key(before, k).push(x));
    } else {
        assert(with_key(before.insert(p, x), k) =~= with_key(before, k));
    }
}

/// Whether text `a` comes strictly before text `b` (as `str`'s `<`).
pub fn str_less(a: &str, b: &str) -> (r: bool)
    ensures
        r == chars_less(a@, b@),
{
    let x = chars_of(a);
    let y = chars_of(b);
    let mut i: usize = 0;
    assert(x@.skip(0) =~= x@);
    assert(y@.skip(0) =~= y@);
    while i < x.len() && i < y.len()
        invariant
            i <= x@.len(),
            i <= y@.len(),
            chars_less(a@, b@) == chars_less(x@.skip(i as int), y@.skip(i as int)),
            x@ == a@,
            y@ == b@,
        decreases x@.len() - i,
    {
        let cx = x[i];
        let cy = y[i];
        if cx < cy {
            return true;
        }
        if cx > cy {
            return false;
        }
        assert(x@.skip(i as int).drop_first() =~= x@.skip(i + 1));
        assert(y@.skip(i as int).drop_first() =~= y@.skip(i + 1));
        i = i + 1;
    }
    i == x.len() && i < y.len()
}

/// Whether hit `a` is listed strictly before hit `b`.
pub fn hit_is_before(a: &SearchHit, b: &SearchHit) -> (r: bool)
    ensures
        r == hit_before(a@, b@),
{
    if str_less(a.source_id.0.as_str(), b.source_id.0.as_str()) {
        return true;
    }
    a.source_id.same_as(&b.source_id) && a.record_index < b.record_index
}

/// The hits listed in order: by source identifier, then record index;
/// hits with equal keys keep their relative order.
pub fn sort_hits(hits: &Vec<SearchHit>) -> (r: Vec<SearchHit>)
    ensures
        hits_view(r@).to_multiset() == hits_view(hits@).to_multiset(),
        listed_in_order(hits_view(r@)),
        forall|k: HitView| #[trigger] with_key(hits_view(r@), k) == with_key(hits_view(hits@), k),
{
    let ghost input = hits_view(hits@);
    let mut sorted: Vec<SearchHit> = Vec::new();
    let mut i: usize = 0;
    assert(hits_view(sorted@) =~= input.subrange(0, 0));
    while i < hits.len()
        invariant
            i <= hits@.len(),
            input == hits_view(hits@),
            hits_view(sorted@).to_multiset() == input.subrange(0, i as int).to_multiset(),
            listed_in_order(hits_view(sorted@)),
            forall|k: HitView| #[trigger] with_key(hits_view(sorted@), k) == with_key(input.subrange(0, i as int), k),
        decreases hits@.len() - i,
    {
        let ghost before = hits_view(sorted@);
        let h = hits[i].clone();
        let ghost hv = h@;
        assert(hv == input[i as int]);
        let mut p: usize = 0;
        loop
            invariant_except_break
                hv == h@,
                p <= sorted@.len(),
                before == hits_view(sorted@),
                forall|q: int| 0 <= q < p ==> !hit_before(hv, #[trigger] before[q]),
            ensures
                hv == h@,
                p <= sorted@.len(),
                before == hits_view(sorted@),
                forall|q: int| 0 <= q < p ==> !hit_before(hv, #[trigger] before[q]),
                p < sorted@.len() ==> hit_before(hv, before[p as int]),
            decreases sorted@.len() - p,
        {
            if p >= sorted.len() {
                break;
            }
            let ghost at = sorted@[p as int]@;
            assert(at == before[p as int]);
            if hit_is_before(&h, &sorted[p]) {
                break;
            }
            p = p + 1;
        }
        sorted.insert(p, h);
        proof {
            let after = hits_view(sorted@);
            assert(after =~= before.insert(p as int, hv));
            assert(input.subrange(0, i + 1) =~= input.subrange(0, i as int).push(hv));
            vstd::seq_lib::to_multiset_build(input.subrange(0, i as int), hv);
            assert forall|k: HitView| #[trigger] with_key(after, k) == with_key(input.subrange(0, i + 1), k) by {
                lemma_insert_keeps_key_runs(before, p as int, hv, k);
                input.subrange(0, i as int).lemma_filter_push(hv, |h: HitView| same_key(h, k));
            }
            assert forall|a: int, b: int| 0 <= a < b < after.len() implies !hit_before(
                #[trigger] after[b],
                #[trigger] after[a],
            ) by {
                if b < p {
                    assert(after[a] == before[a]);
                    assert(after[b] == before[b]);
                } else if a > p {
                    assert(after[a] == before[a - 1]);
                    assert(after[b] == before[b - 1]);
                } else if a == p {
                    assert(after[a] == hv);
                    assert(after[b] == before[b - 1]);
                    lemma_hit_before_order(before[b - 1], hv, before[p as int]);
                    lemma_hit_before_order(hv, before[p as int], before[b - 1]);
                } else if b == p {
                    assert(after[a] == before[a]);
                    assert(after[b] == hv);
                } else {
                    assert(after[a] == before[a]);
                    assert(after[b] == before[b - 1]);
                }
            }
        }
        i = i + 1;
    }
    assert(input.subrange(0, i as int) =~= input);
    sorted
}

/// No text is listed after one that comes after it.
pub open spec fn texts_in_order(s: Seq<Seq<char>>) -> bool {
    forall|i: int, j: int| 0 <= i < j < s.len() ==> !chars_less(#[trigger] s[j], #[trigger] s[i])
}

/// The texts in order (as `str` orders them).
pub fn sort_texts(texts: &Vec<String>) -> (r: Vec<String>)
    ensures
        strings_view(r@).to_multiset() == strings_view(texts@).to_multiset(),
        texts_in_order(strings_view(r@)),
{
    let ghost input = strings_view(texts@);
    let mut sorted: Vec<String> = Vec::new();
    let mut i: usize = 0;
    assert(strings_view(sorted@) =~= input.subrange(0, 0));
    while i < texts.len()
        invariant
            i <= texts@.len(),
            input == strings_view(texts@),
            strings_view(sorted@).to_multiset() == input.subrange(0, i as int).to_multiset(),
            texts_in_order(strings_view(sorted@)),
        decreases texts@.len() - i,
    {
        let ghost before = strings_view(sorted@);
        let t = texts[i].clone();
        let ghost tv = t@;
        assert(tv == input[i as int]);
        let mut p: usize = 0;
        loop
            invariant_except_break
                tv == t@,
                p <= sorted@.len(),
                before == strings_view(sorted@),
                forall|q: int| 0 <= q < p ==> !chars_less(tv, #[trigger] before[q]),
            ensures
                tv == t@,
                p <= sorted@.len(),
                before == strings_view(sorted@),
                forall|q: int| 0 <= q < p ==> !chars_less(tv, #[trigger] before[q]),
                p < sorted@.len() ==> chars_less(tv, before[p as int]),
            decreases sorted@.len() - p,
        {
            if p >= sorted.len() {
                break;
            }
            let ghost at = sorted@[p as int]@;
            assert(at == before[p as int]);
            if str_less(t.as_str(), sorted[p].as_str()) {
                break;
            }
            p = p + 1;
        }
        sorted.insert(p, t);
        proof {
            let after = strings_view(sorted@);
            assert(after =~= before.insert(p as int, tv));
            assert(input.subrange(0, i + 1) =~= input.subrange(0, i as int).push(tv));
            vstd::seq_lib::to_multiset_build(input.subrange(0, i as int), tv);
            assert forall|a: int, b: int| 0 <= a < b < after.len() implies !chars_less(
                #[trigger] after[b],
                #[trigger] after[a],
            ) by {
                if b < p {
                    assert(after[a] == before[a]);
                    assert(after[b] == before[b]);
                } else if a > p {
                    assert(after[a] == before[a - 1]);
                    assert(after[b] == before[b - 1]);
                } else if a == p {
                    assert(after[a] == tv);
                    assert(after[b] == before[b - 1]);
                    lemma_chars_less_transitive(before[b - 1], tv, before[p as int]);
                    lemma_chars_less_asymmetric(tv, before[p as int]);
                } else if b == p {
                    assert(after[a] == before[a]);
                    assert(after[b] == tv);
                } else {
                    assert(after[a] == before[a]);
                    assert(after[b] == before[b - 1]);
                }
            }
        }
        i = i + 1;
    }
    assert(input.subrange(0, i as int) =~= input);
    sorted
}

} // verus!
