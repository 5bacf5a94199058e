//! Byte scanning with `memchr`, and the positions of line breaks in raw log
//! data.

use vstd::prelude::*;

verus! {

/// `memchr::memchr` returns the index of the first occurrence of `needle` in
/// `haystack`, or `None` when it does not occur.
pub assume_specification[ memchr::memchr ](needle: u8, haystack: &[u8]) -> (r: Option<usize>)
    ensures
        match r {
            Some(i) => {
                &&& i < haystack@.len()
                &&& haystack@[i as int] == needle
                &&& forall|j: int| 0 <= j < i ==> haystack@[j] != needle
            },
            None => forall|j: int| 0 <= j < haystack@.len() ==> haystack@[j] != needle,
        },
;

/// The line-feed byte.
pub open spec fn lf() -> u8 {
    10u8
}

/// For each line feed at a position `q` in `[lo, hi)`, the position `q + 1`
/// just after it, in increasing order.
pub open spec fn breaks_in(d: Seq<u8>, lo: int, hi: int) -> Seq<u64>
    decreases hi - lo,
{
    if hi <= lo {
        Seq::empty()
    } else if d[hi - 1] == lf() {
        breaks_in(d, lo, hi - 1).push(hi as u64)
    } else {
        breaks_in(d, lo, hi - 1)
    }
}

/// The positions after line feeds in `[lo, hi)` that still lie inside the
/// data: the starts of the lines that follow those line feeds.
pub open spec fn starts_in(d: Seq<u8>, lo: int, hi: int) -> Seq<u64>
    decreases hi - lo,
{
    if hi <= lo {
        Seq::empty()
    } else if d[hi - 1] == lf() && hi < d.len() {
        starts_in(d, lo, hi - 1).push(hi as u64)
    } else {
        starts_in(d, lo, hi - 1)
    }
}

/// The start offsets of all lines of `d`: 0, then every position just after
/// a line feed that is not the end of the data.
pub open spec fn line_starts(d: Seq<u8>) -> Seq<u64> {
    seq![0u64] + starts_in(d, 0, d.len() as int)
}

/// The elements of `s` below `bound`, in order.
pub open spec fn below(s: Seq<u64>, bound: int) -> Seq<u64>
    decreases s.len(),
{
    if s.len() == 0 {
        Seq::empty()
    } else if s.last() < bound {
        below(s.drop_last(), bound).push(s.last())
    } else {
        below(s.drop_last(), bound)
    }
}

/// The position of the first line feed at or after `start`, if any.
pub open spec fn next_lf(d: Seq<u8>, start: int) -> Option<int>
    decreases d.len() - start,
{
    if start < 0 || start >= d.len() {
        None
    } else if d[start] == lf() {
        Some(start)
    } else {
        next_lf(d, start + 1)
    }
}

/// Where a line that starts at `start` ends: just after its line feed, or at
/// the end of the data.
pub open spec fn line_end(d: Seq<u8>, start: int) -> int {
    match next_lf(d, start) {
        Some(p) => p + 1,
        None => d.len() as int,
    }
}

/// Spans free of line feeds add no line starts.
pub proof fn lemma_starts_no_lf(d: Seq<u8>, lo: int, a: int, b: int)
    requires
        lo <= a <= b <= d.len(),
        forall|j: int| a <= j < b ==> d[j] != lf(),
    ensures
        starts_in(d, lo, b) == starts_in(d, lo, a),
    decreases b - a,
{
    if a < b {
        lemma_starts_no_lf(d, lo, a, b - 1);
    }
}

/// `starts_in` splits at any middle point.
pub proof fn lemma_starts_split(d: Seq<u8>, lo: int, mid: int, hi: int)
    requires
        lo <= mid <= hi,
    ensures
        starts_in(d, lo, hi) == starts_in(d, lo, mid) + starts_in(d, mid, hi),
    decreases hi - mid,
{
    if mid < hi {
        lemma_starts_split(d, lo, mid, hi - 1);
        if d[hi - 1] == lf() && hi < d.len() {
            assert(starts_in(d, lo, hi) =~= starts_in(d, lo, mid) + starts_in(d, mid, hi));
        }
    } else {
        assert(starts_in(d, mid, hi) =~= Seq::<u64>::empty());
        assert(starts_in(d, lo, hi) =~= starts_in(d, lo, mid) + starts_in(d, mid, hi));
    }
}

/// `breaks_in` splits at any middle point.
pub proof fn lemma_breaks_split(d: Seq<u8>, lo: int, mid: int, hi: int)
    requires
        lo <= mid <= hi,
    ensures
        breaks_in(d, lo, hi) == breaks_in(d, lo, mid) + breaks_in(d, mid, hi),
    decreases hi - mid,
{
    if mid < hi {
        lemma_breaks_split(d, lo, mid, hi - 1);
        if d[hi - 1] == lf() {
            assert(breaks_in(d, lo, hi) =~= breaks_in(d, lo, mid) + breaks_in(d, mid, hi));
        }
    } else {
        assert(breaks_in(d, mid, hi) =~= Seq::<u64>::empty());
        assert(breaks_in(d, lo, hi) =~= breaks_in(d, lo, mid) + breaks_in(d, mid, hi));
    }
}

/// Keeping the breaks that lie inside the data gives the line starts.
pub proof fn lemma_below_breaks(d: Seq<u8>, lo: int, hi: int)
    requires
        0 <= lo,
        hi <= d.len(),
        d.len() <= u64::MAX,
    ensures
        below(breaks_in(d, lo, hi), d.len() as int) == starts_in(d, lo, hi),
    decreases hi - lo,
{
    if lo < hi {
        lemma_below_breaks(d, lo, hi - 1);
        if d[hi - 1] == lf() {
            let s = breaks_in(d, lo, hi);
            assert(s.drop_last() =~= breaks_in(d, lo, hi - 1));
        }
    }
}

/// `below` distributes over concatenation.
pub proof fn lemma_below_concat(s: Seq<u64>, t: Seq<u64>, bound: int)
    ensures
        below(s + t, bound) == below(s, bound) + below(t, bound),
    decreases t.len(),
{
    if t.len() == 0 {
        assert(s + t =~= s);
        assert(below(s, bound) + below(t, bound) =~= below(s, bound));
    } else {
        assert((s + t).drop_last() =~= s + t.drop_last());
        lemma_below_concat(s, t.drop_last(), bound);
        if t.last() < bound {
            assert(below(s + t, bound) =~= below(s, bound) + below(t, bound));
        }
    }
}

/// Every element of `starts_in(d, lo, hi)` is a position in `(lo, hi]`
/// inside the data that follows a line feed; the elements increase.
pub proof fn lemma_starts_shape(d: Seq<u8>, lo: int, hi: int)
    requires
        0 <= lo,
        hi <= d.len(),
        d.len() <= u64::MAX,
    ensures
        forall|k: int|
            0 <= k < starts_in(d, lo, hi).len() ==> {
                let x = #[trigger] starts_in(d, lo, hi)[k] as int;
                &&& lo < x <= hi
                &&& x < d.len()
                &&& d[x - 1] == lf()
            },
        forall|k: int, l: int|
            0 <= k < l < starts_in(d, lo, hi).len() ==> starts_in(d, lo, hi)[k]
                < starts_in(d, lo, hi)[l],
    decreases hi - lo,
{
    if lo < hi {
        lemma_starts_shape(d, lo, hi - 1);
        let s = starts_in(d, lo, hi - 1);
        let t = starts_in(d, lo, hi);
        if d[hi - 1] == lf() && hi < d.len() {
            assert(t == s.push(hi as u64));
            assert forall|k: int| 0 <= k < t.len() implies {
                let x = #[trigger] t[k] as int;
                &&& lo < x <= hi
                &&& x < d.len()
                &&& d[x - 1] == lf()
            } by {
                if k < s.len() {
                    assert(t[k] == s[k]);
                }
            }
            assert forall|k: int, l: int| 0 <= k < l < t.len() implies t[k] < t[l] by {
                assert(t[k] == s[k]);
                if l < s.len() {
                    assert(t[l] == s[l]);
                }
            }
        }
    }
}

/// Every position inside the data that follows a line feed in `[lo, hi)`
/// occurs in `starts_in(d, lo, hi)`.
pub proof fn lemma_starts_complete(d: Seq<u8>, lo: int, hi: int, x: int)
    requires
        0 <= lo < x <= hi <= d.len(),
        x < d.len(),
        d[x - 1] == lf(),
    ensures
        starts_in(d, lo, hi).contains(x as u64),
    decreases hi - lo,
{
    if x == hi {
        assert(starts_in(d, lo, hi).last() == x as u64);
    } else {
        lemma_starts_complete(d, lo, hi - 1, x);
        let s = starts_in(d, lo, hi - 1);
        let k = choose|k: int| 0 <= k < s.len() && s[k] == x as u64;
        if d[hi - 1] == lf() && hi < d.len() {
            assert(starts_in(d, lo, hi)[k] == x as u64);
        }
    }
}

/// Every element of `breaks_in(d, lo, hi)` lies in `(lo, hi]`, in
/// increasing order.
pub proof fn lemma_breaks_shape(d: Seq<u8>, lo: int, hi: int)
    requires
        0 <= lo,
        hi <= d.len(),
        d.len() <= u64::MAX,
    ensures
        forall|k: int|
            0 <= k < breaks_in(d, lo, hi).len() ==> lo < #[trigger] breaks_in(d, lo, hi)[k]
                <= hi,
        forall|k: int, l: int|
            0 <= k < l < breaks_in(d, lo, hi).len() ==> breaks_in(d, lo, hi)[k]
                < breaks_in(d, lo, hi)[l],
    decreases hi - lo,
{
    if lo < hi {
        lemma_breaks_shape(d, lo, hi - 1);
        let s = breaks_in(d, lo, hi - 1);
        let t = breaks_in(d, lo, hi);
        if d[hi - 1] == lf() {
            assert(t == s.push(hi as u64));
            assert forall|k: int| 0 <= k < t.len() implies lo < #[trigger] t[k] <= hi by {
                if k < s.len() {
                    assert(t[k] == s[k]);
                }
            }
            assert forall|k: int, l: int| 0 <= k < l < t.len() implies t[k] < t[l] by {
                assert(t[k] == s[k]);
                if l < s.len() {
                    assert(t[l] == s[l]);
                }
            }
        }
    }
}

/// The first line feed at or after `a` is at `b` when none lies in `[a, b)`.
pub proof fn lemma_next_lf_found(d: Seq<u8>, a: int, b: int)
    requires
        0 <= a <= b < d.len(),
        d[b] == lf(),
        forall|j: int| a <= j < b ==> d[j] != lf(),
    ensures
        next_lf(d, a) == Some(b),
    decreases b - a,
{
    if a < b {
        lemma_next_lf_found(d, a + 1, b);
    }
}

/// There is no line feed at or after `a` when none lies in `[a, len)`.
pub proof fn lemma_next_lf_none(d: Seq<u8>, a: int)
    requires
        0 <= a,
        forall|j: int| a <= j < d.len() ==> d[j] != lf(),
    ensures
        next_lf(d, a) is None,
    decreases d.len() - a,
{
    if a < d.len() {
        lemma_next_lf_none(d, a + 1);
    }
}

/// Append to `offsets` the start of every line that follows a line feed at
/// or after `start`.
pub fn push_line_starts(offsets: &mut Vec<u64>, data: &[u8], start: usize)
    requires
        start <= data@.len(),
    ensures
        final(offsets)@ == old(offsets)@ + starts_in(data@, start as int, data@.len() as int),
{
    let ghost d = data@;
    let ghost base = old(offsets)@;
    let mut pos = start;
    assert(base =~= base + starts_in(d, start as int, start as int));
    while pos < data.len()
        invariant
            d == data@,
            start <= pos <= d.len(),
            offsets@ == base + starts_in(d, start as int, pos as int),
        decreases d.len() - pos,
    {
        let rest = &data[pos..data.len()];
        match memchr::memchr(10u8, rest) {
            Some(nl) => {
                proof {
                    assert forall|j: int| pos <= j < pos + nl implies d[j] != lf() by {
                        assert(rest@[j - pos] == d[j]);
                    }
                    lemma_starts_no_lf(d, start as int, pos as int, pos + nl);
                    assert(d[pos + nl] == rest@[nl as int]);
                }
                pos = pos + nl + 1;
                if pos < data.len() {
                    offsets.push(pos as u64);
                    assert(offsets@ =~= base + starts_in(d, start as int, pos as int));
                } else {
                    assert(offsets@ =~= base + starts_in(d, start as int, pos as int));
                }
            },
            None => {
                proof {
                    assert forall|j: int| pos <= j < d.len() implies d[j] != lf() by {
                        assert(rest@[j - pos] == d[j]);
                    }
                    lemma_starts_no_lf(d, start as int, pos as int, d.len() as int);
                }
                pos = data.len();
            },
        }
    }
}

} // verus!
