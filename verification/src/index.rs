//! The line index of a log file: the byte offset at which each record
//! (line) starts.

use vstd::prelude::*;
use rayon::iter::{IntoParallelIterator, ParallelIterator};
use crate::scan::{
    below, breaks_in, lemma_below_breaks, lemma_breaks_split, lemma_starts_complete,
    lemma_starts_shape, lemma_starts_split, lf, line_starts, push_line_starts, starts_in,
};

verus! {

/// Access to the records of an indexed source by number.
pub trait RecordIndex: Send + Sync {
    fn record_count(&self) -> u64;

    fn offset_of(&self, record_no: u64) -> Option<u64>;
}

/// Start offsets of the lines of a byte buffer.
pub struct LineIndex {
    offsets: Vec<u64>,
}

impl View for LineIndex {
    type V = Seq<u64>;

    closed spec fn view(&self) -> Seq<u64> {
        self.offsets@
    }
}

/// The size of the pieces the parallel build splits the data into.
pub open spec fn chunk_size() -> int {
    4194304int
}

/// The number of pieces of `chunk_size()` bytes (the last one may be
/// shorter) that cover `len` bytes.
pub open spec fn chunk_count(len: int) -> int {
    if len % chunk_size() == 0 {
        len / chunk_size()
    } else {
        len / chunk_size() + 1
    }
}

/// Where piece `i` of data of length `len` starts.
pub open spec fn chunk_start(i: int) -> int {
    i * chunk_size()
}

/// Where piece `i` of data of length `len` ends.
pub open spec fn chunk_end(i: int, len: int) -> int {
    if len - chunk_start(i) < chunk_size() {
        len
    } else {
        chunk_start(i) + chunk_size()
    }
}

/// What the parallel build computes: the positions after every line feed,
/// kept when inside the data, after a 0 for the first line.
pub open spec fn parallel_line_starts(d: Seq<u8>) -> Seq<u64> {
    seq![0u64] + below(breaks_in(d, 0, d.len() as int), d.len() as int)
}

/// The offsets after appending the lines of `d` from `from`: `from` itself
/// unless it is already the last offset, then every line start after a line
/// feed at or after `from`.
pub open spec fn appended_offsets(offsets: Seq<u64>, d: Seq<u8>, from: u64) -> Seq<u64> {
    if from >= d.len() {
        offsets
    } else {
        let head = if offsets.len() > 0 && offsets.last() == from {
            offsets
        } else {
            offsets.push(from)
        };
        head + starts_in(d, from as int, d.len() as int)
    }
}

proof fn lemma_chunk_arith(i: int, len: int)
    requires
        0 <= i < chunk_count(len),
        0 <= len,
    ensures
        0 <= chunk_start(i) < len,
        chunk_start(i) < chunk_end(i, len) <= len,
        chunk_end(i, len) == if i + 1 == chunk_count(len) {
            len
        } else {
            chunk_start(i + 1)
        },
{
    assert(chunk_start(i) == i * chunk_size());
    assert(chunk_start(i + 1) == i * chunk_size() + chunk_size()) by (nonlinear_arith);
    let q = len / chunk_size();
    let r = len % chunk_size();
    assert(len == q * chunk_size() + r && 0 <= r < chunk_size()) by (nonlinear_arith)
        requires
            q == len / chunk_size(),
            r == len % chunk_size(),
            0 <= len,
    ;
    if i < q {
        assert(i * chunk_size() + chunk_size() <= q * chunk_size()) by (nonlinear_arith)
            requires
                i < q,
        ;
    } else {
        assert(i == q);
        assert(r != 0);
        assert(i * chunk_size() == q * chunk_size());
    }
}

/// Piece `i` of the parallel build: the positions after the line feeds in
/// bytes `[chunk_start(i), chunk_end(i))`.
fn chunk_breaks(data: &[u8], i: usize) -> (v: Vec<u64>)
    requires
        (i as int) < chunk_count(data@.len() as int),
    ensures
        v@ == breaks_in(data@, chunk_start(i as int), chunk_end(i as int, data@.len() as int)),
{
    let ghost d = data@;
    proof {
        lemma_chunk_arith(i as int, d.len() as int);
    }
    let size: usize = 4 * 1024 * 1024;
    assert((i as int) * size == chunk_start(i as int));
    let len = data.len();
    assert((i as int) * size < len);
    let s = i * size;
    let e = if data.len() - s < size {
        data.len()
    } else {
        s + size
    };
    let base = s as u64;
    let mut v: Vec<u64> = Vec::new();
    let mut p: usize = 0;
    assert(v@ =~= breaks_in(d, s as int, s as int));
    while s + p < e
        invariant
            d == data@,
            s < e <= d.len(),
            s + p <= e,
            base == s,
            e == chunk_end(i as int, d.len() as int),
            s == chunk_start(i as int),
            v@ == breaks_in(d, s as int, s + p),
        decreases e - s - p,
    {
        let window = &data[s + p..e];
        match memchr::memchr(10u8, window) {
            Some(nl) => {
                proof {
                    assert forall|j: int| s + p <= j < s + p + nl implies !(d[j] == lf()) by {
                        assert(window@[j - s - p] == d[j]);
                    }
                    lemma_breaks_no_lf(d, s as int, s + p, s + p + nl);
                    assert(d[s + p + nl] == window@[nl as int]);
                }
                v.push(base + (p + nl) as u64 + 1);
                p = p + nl + 1;
                assert(v@ =~= breaks_in(d, s as int, s + p));
            },
            None => {
                proof {
                    assert forall|j: int| s + p <= j < e implies !(d[j] == lf()) by {
                        assert(window@[j - s - p] == d[j]);
                    }
                    lemma_breaks_no_lf(d, s as int, s + p, e as int);
                }
                p = e - s;
            },
        }
    }
    v
}

/// Spans free of line feeds add no breaks.
proof fn lemma_breaks_no_lf(d: Seq<u8>, lo: int, a: int, b: int)
    requires
        lo <= a <= b <= d.len(),
        forall|j: int| a <= j < b ==> !(d[j] == lf()),
    ensures
        breaks_in(d, lo, b) == breaks_in(d, lo, a),
    decreases b - a,
{
    if a < b {
        lemma_breaks_no_lf(d, lo, a, b - 1);
    }
}

/// Runs `chunk_breaks` on every piece on rayon's thread pool and collects
/// the results in piece order (rayon's `collect` into a `Vec` keeps the
/// order of an indexed parallel iterator such as a `usize` range).
#[verifier::external_body]
fn breaks_by_chunk(data: &[u8], n: usize) -> (r: Vec<Vec<u64>>)
    requires
        n as int == chunk_count(data@.len() as int),
    ensures
        r@.len() == n,
        forall|i: int|
            0 <= i < n ==> (#[trigger] r@[i])@ == breaks_in(
                data@,
                chunk_start(i),
                chunk_end(i, data@.len() as int),
            ),
{
    (0..n).into_par_iter().map(|i| chunk_breaks(data, i)).collect()
}

impl LineIndex {
    /// Index the lines of `data`: offset 0, then the position after every
    /// line feed that is not at the end of the data.
    pub fn build(data: &[u8]) -> (idx: LineIndex)
        ensures
            idx@ == line_starts(data@),
    {
        let mut offsets: Vec<u64> = Vec::with_capacity(data.len() / 80);
        offsets.push(0);
        push_line_starts(&mut offsets, data, 0);
        assert(offsets@ =~= line_starts(data@));
        LineIndex { offsets }
    }

    /// Index the lines of `data` by scanning pieces of 4 MiB in parallel.
    /// The pieces' results are already in increasing order when
    /// concatenated (see `lemma_breaks_shape`), so no sorting is needed.
    pub fn build_parallel(data: &[u8]) -> (idx: LineIndex)
        ensures
            idx@ == parallel_line_starts(data@),
    {
        let ghost d = data@;
        let size: usize = 4 * 1024 * 1024;
        assert(data.len() / size < usize::MAX) by (nonlinear_arith)
            requires
                size == 4194304,
                data.len() <= usize::MAX,
        ;
        let n = if data.len() % size == 0 {
            data.len() / size
        } else {
            data.len() / size + 1
        };
        let chunks = breaks_by_chunk(data, n);
        let mut all: Vec<u64> = Vec::new();
        let mut i: usize = 0;
        assert(all@ =~= breaks_in(d, 0, 0));
        while i < n
            invariant
                d == data@,
                n as int == chunk_count(d.len() as int),
                chunks@.len() == n,
                forall|k: int|
                    0 <= k < n ==> (#[trigger] chunks@[k])@ == breaks_in(
                        d,
                        chunk_start(k),
                        chunk_end(k, d.len() as int),
                    ),
                i <= n,
                all@ == breaks_in(d, 0, if i == 0 { 0 } else { chunk_end(i - 1, d.len() as int) }),
            decreases n - i,
        {
            let piece = &chunks[i];
            let mut j: usize = 0;
            let ghost before = all@;
            while j < piece.len()
                invariant
                    all@ == before + piece@.take(j as int),
                    j <= piece@.len(),
                decreases piece@.len() - j,
            {
                all.push(piece[j]);
                j = j + 1;
                assert(all@ =~= before + piece@.take(j as int));
            }
            proof {
                lemma_chunk_arith(i as int, d.len() as int);
                assert(piece@.take(j as int) =~= piece@);
                if i > 0 {
                    lemma_chunk_arith(i - 1, d.len() as int);
                }
                let lo = if i == 0 { 0 } else { chunk_end(i - 1, d.len() as int) };
                assert(lo == chunk_start(i as int)) by (nonlinear_arith)
                    requires
                        lo == if i == 0 { 0 } else { chunk_end(i - 1, d.len() as int) },
                        i > 0 ==> chunk_end(i - 1, d.len() as int) == chunk_start(i as int),
                        chunk_start(i as int) == i * chunk_size(),
                ;
                lemma_breaks_split(d, 0, lo, chunk_end(i as int, d.len() as int));
            }
            i = i + 1;
        }
        proof {
            if n > 0 {
                lemma_chunk_arith(n - 1, d.len() as int);
            } else {
                assert(d.len() == 0) by (nonlinear_arith)
                    requires
                        chunk_count(d.len() as int) == 0,
                ;
            }
            assert(all@ == breaks_in(d, 0, d.len() as int));
        }
        let mut offsets: Vec<u64> = Vec::new();
        offsets.push(0);
        let mut k: usize = 0;
        let len = data.len() as u64;
        while k < all.len()
            invariant
                len == d.len(),
                k <= all@.len(),
                offsets@ == seq![0u64] + below(all@.take(k as int), d.len() as int),
            decreases all@.len() - k,
        {
            proof {
                assert(all@.take(k + 1).drop_last() =~= all@.take(k as int));
            }
            if all[k] < len {
                offsets.push(all[k]);
            }
            k = k + 1;
            assert(offsets@ =~= seq![0u64] + below(all@.take(k as int), d.len() as int));
        }
        assert(all@.take(k as int) =~= all@);
        LineIndex { offsets }
    }

    /// Extend the index with the lines of `data` from offset `from` on (for a
    /// file that has grown): nothing when `from` is not inside the data;
    /// otherwise `from` unless it is already the last offset, then the start
    /// of every line after a line feed at or after `from`.
    pub fn append_new_offsets(&mut self, data: &[u8], from: u64)
        ensures
            final(self)@ == appended_offsets(old(self)@, data@, from),
    {
        if from >= data.len() as u64 {
            return;
        }
        let n = self.offsets.len();
        if n == 0 || self.offsets[n - 1] != from {
            self.offsets.push(from);
        }
        push_line_starts(&mut self.offsets, data, from as usize);
    }

    /// The offsets, in order.
    pub fn offsets(&self) -> (r: &[u64])
        ensures
            r@ == self@,
    {
        self.offsets.as_slice()
    }

    /// An index holding exactly `offsets`.
    pub fn from_offsets(offsets: Vec<u64>) -> (idx: LineIndex)
        ensures
            idx@ == offsets@,
    {
        LineIndex { offsets }
    }
}

impl RecordIndex for LineIndex {
    /// The number of offsets.
    fn record_count(&self) -> (n: u64)
        ensures
            n == self@.len(),
            n <= usize::MAX,
    {
        self.offsets.len() as u64
    }

    /// The offset of record `record_no`, if there is such a record.
    fn offset_of(&self, record_no: u64) -> (r: Option<u64>)
        ensures
            r == if (record_no as usize as int) < self@.len() {
                Some(self@[record_no as usize as int])
            } else {
                None::<u64>
            },
    {
        let i = record_no as usize;
        if i < self.offsets.len() {
            Some(self.offsets[i])
        } else {
            None
        }
    }
}

/// Building the index in parallel gives the same offsets as building it
/// sequentially.
pub proof fn law_parallel_build_matches_build(d: Seq<u8>)
    requires
        d.len() <= u64::MAX,
    ensures
        parallel_line_starts(d) == line_starts(d),
{
    lemma_below_breaks(d, 0, d.len() as int);
}

/// The offsets of a line index: the first is 0; they increase strictly;
/// every later one lies inside the data just after a line feed; and every
/// position inside the data just after a line feed is one of them.
pub proof fn law_line_starts_are_line_starts(d: Seq<u8>)
    requires
        d.len() <= u64::MAX,
    ensures
        line_starts(d).len() >= 1,
        line_starts(d)[0] == 0,
        forall|k: int, l: int|
            0 <= k < l < line_starts(d).len() ==> line_starts(d)[k] < line_starts(d)[l],
        forall|k: int|
            0 < k < line_starts(d).len() ==> {
                let x = #[trigger] line_starts(d)[k] as int;
                &&& 0 < x < d.len()
                &&& d[x - 1] == lf()
            },
        forall|x: int|
            0 < x < d.len() && d[x - 1] == lf() ==> #[trigger] line_starts(d).contains(x as u64),
{
    let s = starts_in(d, 0, d.len() as int);
    let t = line_starts(d);
    lemma_starts_shape(d, 0, d.len() as int);
    assert forall|k: int| 0 < k < t.len() implies t[k] == s[k - 1] by {}
    assert forall|k: int, l: int| 0 <= k < l < t.len() implies t[k] < t[l] by {
        if k > 0 {
            assert(t[k] == s[k - 1]);
        }
        assert(t[l] == s[l - 1]);
    }
    assert forall|x: int| 0 < x < d.len() && d[x - 1] == lf() implies #[trigger] t.contains(
        x as u64,
    ) by {
        lemma_starts_complete(d, 0, d.len() as int, x);
        let k = choose|k: int| 0 <= k < s.len() && s[k] == x as u64;
        assert(t[k + 1] == x as u64);
    }
}

/// Line starts agree on two buffers that agree on a prefix, below its end.
proof fn lemma_starts_agree(a: Seq<u8>, b: Seq<u8>, hi: int)
    requires
        0 <= hi < a.len() <= b.len(),
        a == b.take(a.len() as int),
    ensures
        starts_in(a, 0, hi) == starts_in(b, 0, hi),
    decreases hi,
{
    if hi > 0 {
        lemma_starts_agree(a, b, hi - 1);
        assert(a[hi - 1] == b[hi - 1]);
    }
}

/// Appending the lines of a grown file to the index of its old contents
/// gives the index of the new contents, when the old contents ended at a
/// line break (or were empty).
pub proof fn law_append_matches_rebuild(a: Seq<u8>, b: Seq<u8>)
    requires
        a.len() <= b.len() <= u64::MAX,
        a == b.take(a.len() as int),
        a.len() == 0 || a.last() == lf(),
    ensures
        appended_offsets(line_starts(a), b, a.len() as u64) == line_starts(b),
{
    let n = a.len() as int;
    if n == b.len() {
        assert(a =~= b);
    } else if n == 0 {
        assert(starts_in(a, 0, 0) =~= Seq::<u64>::empty());
        assert(line_starts(a) =~= seq![0u64]);
    } else {
        let la = line_starts(a);
        lemma_starts_shape(a, 0, n);
        lemma_starts_agree(a, b, n - 1);
        assert(a[n - 1] == b[n - 1]);
        assert(starts_in(a, 0, n) == starts_in(a, 0, n - 1));
        assert(starts_in(b, 0, n) == starts_in(b, 0, n - 1).push(n as u64));
        assert(la.last() != n as u64) by {
            let s = starts_in(a, 0, n);
            if s.len() > 0 {
                assert(la.last() == s[s.len() - 1]);
            }
        }
        lemma_starts_split(b, 0, n, b.len() as int);
        assert(appended_offsets(la, b, n as u64) =~= line_starts(b));
    }
}

} // verus!
