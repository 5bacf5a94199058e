//! The index cache: the name of a source's cache file, and the byte format
//! of a cached line index (magic, version, the file's fingerprint, the
//! number of offsets, then the offsets, all little-endian).

use vstd::prelude::*;
use vstd::bytes::{
    lemma_auto_spec_u16_to_from_le_bytes, lemma_auto_spec_u64_to_from_le_bytes, spec_u16_from_le_bytes, spec_u16_to_le_bytes,
    spec_u64_from_le_bytes, spec_u64_to_le_bytes, u16_from_le_bytes, u16_to_le_bytes,
    u64_from_le_bytes, u64_to_le_bytes,
};
use crate::domain::FileFingerprint;
use crate::index::LineIndex;

verus! {

/// What `std`'s `DefaultHasher` (SipHash with fixed zero keys, the same on
/// every machine for a given Rust release) yields for a string hashed with
/// `Hash for str`.
pub uninterp spec fn default_hash_of_text(s: Seq<char>) -> u64;

/// Hash a string with a fresh `DefaultHasher` (via `BuildHasher::hash_one`,
/// which builds a `DefaultHasher::new()`, feeds the value, and finishes).
#[verifier::external_body]
fn default_hash_str(s: &str) -> (h: u64)
    ensures
        h == default_hash_of_text(s@),
{
    std::hash::BuildHasher::hash_one(
        &std::hash::BuildHasherDefault::<std::collections::hash_map::DefaultHasher>::default(),
        s,
    )
}

/// The lowercase hexadecimal digit for `d < 16`.
pub open spec fn hex_char(d: nat) -> char {
    if d < 10 {
        (('0' as nat) + d) as char
    } else {
        (('a' as nat) + (d - 10)) as char
    }
}

/// The last `n` hexadecimal digits of `x`, most significant first.
pub open spec fn hex_digits(x: nat, n: nat) -> Seq<char>
    decreases n,
{
    if n == 0 {
        Seq::empty()
    } else {
        hex_digits(x / 16, (n - 1) as nat).push(hex_char(x % 16))
    }
}

fn hex_digit(d: u64) -> (c: char)
    requires
        d < 16,
    ensures
        c == hex_char(d as nat),
{
    let digits = ['0', '1', '2', '3', '4', '5', '6', '7', '8', '9', 'a', 'b', 'c', 'd', 'e', 'f'];
    let c = digits[d as usize];
    assert(c == hex_char(d as nat)) by {
        assert(digits@ == seq!['0', '1', '2', '3', '4', '5', '6', '7', '8', '9', 'a', 'b', 'c', 'd', 'e', 'f']);
    }
    c
}

fn push_hex_digits(out: &mut String, x: u64, n: usize)
    ensures
        final(out)@ == old(out)@ + hex_digits(x as nat, n as nat),
    decreases n,
{
    if n == 0 {
        assert(old(out)@ + hex_digits(x as nat, 0) =~= old(out)@);
        return;
    }
    push_hex_digits(out, x / 16, n - 1);
    out.push(hex_digit(x % 16));
    assert(final(out)@ =~= old(out)@ + hex_digits(x as nat, n as nat));
}

/// The file name under which the index of the source at `path` is cached:
/// the 16-digit hexadecimal `DefaultHasher` hash of the path text, then
/// ".olidx".
pub fn cache_filename(path: &str) -> (name: String)
    ensures
        name@ == hex_digits(default_hash_of_text(path@) as nat, 16) + ".olidx"@,
{
    let h = default_hash_str(path);
    let mut name = String::new();
    push_hex_digits(&mut name, h, 16);
    name.append(".olidx");
    assert(name@ =~= hex_digits(h as nat, 16) + ".olidx"@);
    name
}

/// The magic bytes at the start of a cache file: "OLIDX".
pub open spec fn cache_magic() -> Seq<u8> {
    seq![0x4Fu8, 0x4Cu8, 0x49u8, 0x44u8, 0x58u8]
}

/// The format version written and accepted.
pub open spec fn cache_version() -> u16 {
    1
}

/// The offsets, each as 8 little-endian bytes.
pub open spec fn offsets_bytes(offsets: Seq<u64>) -> Seq<u8>
    decreases offsets.len(),
{
    if offsets.len() == 0 {
        Seq::empty()
    } else {
        offsets_bytes(offsets.drop_last()) + spec_u64_to_le_bytes(offsets.last())
    }
}

/// The bytes of a cache file for a file with fingerprint `fp` and line
/// offsets `offsets`.
pub open spec fn cache_bytes(fp: FileFingerprint, offsets: Seq<u64>) -> Seq<u8> {
    cache_magic() + spec_u16_to_le_bytes(cache_version()) + spec_u64_to_le_bytes(fp.file_size)
        + spec_u64_to_le_bytes(fp.modified_time) + spec_u64_to_le_bytes(offsets.len() as u64)
        + offsets_bytes(offsets)
}

/// The length of the fixed header of a cache file.
pub open spec fn header_len() -> int {
    31
}

/// The little-endian u64 at byte `at`.
pub open spec fn u64_at(b: Seq<u8>, at: int) -> u64 {
    spec_u64_from_le_bytes(b.subrange(at, at + 8))
}

/// The offsets a cache file holds, when it is a cache for a file with
/// fingerprint `fp`: `None` when it is too short, has the wrong magic or
/// version, was written for another fingerprint, or holds fewer offsets than
/// its count says.
pub open spec fn cached_offsets(b: Seq<u8>, fp: FileFingerprint) -> Option<Seq<u64>> {
    if b.len() < header_len() {
        None
    } else if b.subrange(0, 5) != cache_magic() {
        None
    } else if spec_u16_from_le_bytes(b.subrange(5, 7)) != cache_version() {
        None
    } else if u64_at(b, 7) != fp.file_size || u64_at(b, 15) != fp.modified_time {
        None
    } else if (b.len() - header_len()) / 8 < u64_at(b, 23) {
        None
    } else {
        Some(Seq::new(u64_at(b, 23) as nat, |i: int| u64_at(b, header_len() + 8 * i)))
    }
}

/// Append the bytes of `v` to `out`.
fn append_bytes(out: &mut Vec<u8>, v: &Vec<u8>)
    ensures
        final(out)@ == old(out)@ + v@,
{
    let mut i: usize = 0;
    while i < v.len()
        invariant
            i <= v@.len(),
            out@ == old(out)@ + v@.take(i as int),
        decreases v@.len() - i,
    {
        out.push(v[i]);
        i = i + 1;
        assert(out@ =~= old(out)@ + v@.take(i as int));
    }
    assert(v@.take(i as int) =~= v@);
}

/// The bytes of the cache file for `idx`, the index of a file with
/// fingerprint `fp`.
pub fn index_cache_bytes(fp: &FileFingerprint, idx: &LineIndex) -> (b: Vec<u8>)
    ensures
        b@ == cache_bytes(*fp, idx@),
{
    let offsets = idx.offsets();
    let mut b: Vec<u8> = Vec::new();
    b.push(0x4F);
    b.push(0x4C);
    b.push(0x49);
    b.push(0x44);
    b.push(0x58);
    append_bytes(&mut b, &u16_to_le_bytes(1));
    append_bytes(&mut b, &u64_to_le_bytes(fp.file_size));
    append_bytes(&mut b, &u64_to_le_bytes(fp.modified_time));
    append_bytes(&mut b, &u64_to_le_bytes(offsets.len() as u64));
    let ghost head = b@;
    assert(head =~= cache_magic() + spec_u16_to_le_bytes(cache_version()) + spec_u64_to_le_bytes(
        fp.file_size,
    ) + spec_u64_to_le_bytes(fp.modified_time) + spec_u64_to_le_bytes(idx@.len() as u64));
    let mut i: usize = 0;
    assert(head + offsets_bytes(offsets@.take(0)) =~= head);
    while i < offsets.len()
        invariant
            i <= offsets@.len(),
            b@ == head + offsets_bytes(offsets@.take(i as int)),
        decreases offsets@.len() - i,
    {
        append_bytes(&mut b, &u64_to_le_bytes(offsets[i]));
        proof {
            assert(offsets@.take(i + 1).drop_last() =~= offsets@.take(i as int));
        }
        i = i + 1;
        assert(b@ =~= head + offsets_bytes(offsets@.take(i as int)));
    }
    assert(offsets@.take(i as int) =~= offsets@);
    b
}

/// The offsets held in the cache file `bytes` for a file with fingerprint
/// `fp`, as a line index (see `cached_offsets`).
pub fn parse_index_cache(bytes: &[u8], fp: &FileFingerprint) -> (r: Option<LineIndex>)
    ensures
        match r {
            Some(idx) => cached_offsets(bytes@, *fp) == Some(idx@),
            None => cached_offsets(bytes@, *fp) is None,
        },
{
    let b = bytes;
    if b.len() < 31 {
        return None;
    }
    if !(b[0] == 0x4F && b[1] == 0x4C && b[2] == 0x49 && b[3] == 0x44 && b[4] == 0x58) {
        assert(b@.subrange(0, 5) != cache_magic()) by {
            if b@.subrange(0, 5) == cache_magic() {
                assert(b@[0] == b@.subrange(0, 5)[0]);
                assert(b@[1] == b@.subrange(0, 5)[1]);
                assert(b@[2] == b@.subrange(0, 5)[2]);
                assert(b@[3] == b@.subrange(0, 5)[3]);
                assert(b@[4] == b@.subrange(0, 5)[4]);
            }
        }
        return None;
    }
    assert(b@.subrange(0, 5) =~= cache_magic());
    if u16_from_le_bytes(&b[5..7]) != 1 {
        return None;
    }
    let size = u64_from_le_bytes(&b[7..15]);
    let mtime = u64_from_le_bytes(&b[15..23]);
    if size != fp.file_size || mtime != fp.modified_time {
        return None;
    }
    let count = u64_from_le_bytes(&b[23..31]);
    if (((b.len() - 31) / 8) as u64) < count {
        return None;
    }
    let n = count as usize;
    let mut offsets: Vec<u64> = Vec::with_capacity(n);
    let mut i: usize = 0;
    let len = b.len();
    while i < n
        invariant
            len == b@.len(),
            n == u64_at(b@, 23),
            (b@.len() - 31) / 8 >= n,
            i <= n,
            offsets@ == Seq::new(i as nat, |k: int| u64_at(b@, 31 + 8 * k)),
        decreases n - i,
    {
        assert(31 + 8 * i + 8 <= b@.len()) by (nonlinear_arith)
            requires
                i < n,
                (b@.len() - 31) / 8 >= n,
        ;
        let at = 31 + 8 * i;
        offsets.push(u64_from_le_bytes(&b[at..at + 8]));
        i = i + 1;
        assert(offsets@ =~= Seq::new(i as nat, |k: int| u64_at(b@, 31 + 8 * k)));
    }
    Some(LineIndex::from_offsets(offsets))
}

proof fn lemma_offsets_bytes(offsets: Seq<u64>)
    ensures
        offsets_bytes(offsets).len() == 8 * offsets.len(),
        forall|i: int|
            0 <= i < offsets.len() ==> #[trigger] offsets_bytes(offsets).subrange(8 * i, 8 * i + 8)
                == spec_u64_to_le_bytes(offsets[i]),
    decreases offsets.len(),
{
    lemma_auto_spec_u64_to_from_le_bytes();
    if offsets.len() > 0 {
        let init = offsets.drop_last();
        lemma_offsets_bytes(init);
        let b = offsets_bytes(offsets);
        let a = offsets_bytes(init);
        let last = spec_u64_to_le_bytes(offsets.last());
        assert(b == a + last);
        assert forall|i: int| 0 <= i < offsets.len() implies #[trigger] b.subrange(8 * i, 8 * i + 8)
            == spec_u64_to_le_bytes(offsets[i]) by {
            if i < init.len() {
                assert(b.subrange(8 * i, 8 * i + 8) =~= a.subrange(8 * i, 8 * i + 8));
                assert(init[i] == offsets[i]);
            } else {
                assert(b.subrange(8 * i, 8 * i + 8) =~= last);
            }
        }
    }
}

/// Reading back a cache file with the fingerprint it was written for gives
/// the offsets that were written.
pub proof fn law_cache_roundtrip(fp: FileFingerprint, offsets: Seq<u64>)
    requires
        offsets.len() <= u64::MAX,
    ensures
        cached_offsets(cache_bytes(fp, offsets), fp) == Some(offsets),
{
    lemma_auto_spec_u64_to_from_le_bytes();
    lemma_auto_spec_u16_to_from_le_bytes();
    lemma_offsets_bytes(offsets);
    let b = cache_bytes(fp, offsets);
    let body = offsets_bytes(offsets);
    assert(b.subrange(0, 5) =~= cache_magic());
    assert(b.subrange(5, 7) =~= spec_u16_to_le_bytes(cache_version()));
    assert(b.subrange(7, 15) =~= spec_u64_to_le_bytes(fp.file_size));
    assert(b.subrange(15, 23) =~= spec_u64_to_le_bytes(fp.modified_time));
    assert(b.subrange(23, 31) =~= spec_u64_to_le_bytes(offsets.len() as u64));
    assert(b.len() - header_len() == 8 * offsets.len());
    assert((b.len() - header_len()) / 8 == offsets.len()) by (nonlinear_arith)
        requires
            b.len() - header_len() == 8 * offsets.len(),
    ;
    let got = Seq::new(u64_at(b, 23) as nat, |i: int| u64_at(b, header_len() + 8 * i));
    assert forall|i: int| 0 <= i < offsets.len() implies got[i] == offsets[i] by {
        assert(b.subrange(header_len() + 8 * i, header_len() + 8 * i + 8) =~= body.subrange(
            8 * i,
            8 * i + 8,
        ));
    }
    assert(got =~= offsets);
}

/// A cache file is not accepted for a file whose fingerprint differs from
/// the one it was written for.
pub proof fn law_cache_rejects_other_fingerprint(
    fp: FileFingerprint,
    other: FileFingerprint,
    offsets: Seq<u64>,
)
    requires
        fp != other,
    ensures
        cached_offsets(cache_bytes(fp, offsets), other) is None,
{
    lemma_auto_spec_u64_to_from_le_bytes();
    lemma_auto_spec_u16_to_from_le_bytes();
    let b = cache_bytes(fp, offsets);
    assert(b.subrange(7, 15) =~= spec_u64_to_le_bytes(fp.file_size));
    assert(b.subrange(15, 23) =~= spec_u64_to_le_bytes(fp.modified_time));
}

} // verus!
