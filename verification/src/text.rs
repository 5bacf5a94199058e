//! Character-level helpers: whitespace, trimming, lower-casing, string
//! equality, conversions between strings and character vectors, and
//! number formatting.

use vstd::prelude::*;

verus! {

/// The Unicode `White_Space` property.
pub open spec fn is_white_space(c: char) -> bool {
    ||| ('\u{9}' <= c && c <= '\u{d}')
    ||| c == ' '
    ||| c == '\u{85}'
    ||| c == '\u{a0}'
    ||| c == '\u{1680}'
    ||| ('\u{2000}' <= c && c <= '\u{200a}')
    ||| c == '\u{2028}'
    ||| c == '\u{2029}'
    ||| c == '\u{202f}'
    ||| c == '\u{205f}'
    ||| c == '\u{3000}'
}

/// `char::is_whitespace` is documented to test the Unicode `White_Space`
/// property, which is the fixed list of code points in `is_white_space`.
pub assume_specification[ char::is_whitespace ](c: char) -> (r: bool)
    ensures
        r == is_white_space(c),
;

/// `String::push` appends one character.
pub assume_specification[ String::push ](s: &mut String, ch: char)
    ensures
        final(s)@ == old(s)@.push(ch),
;

/// What `str::to_lowercase` returns: the string lower-cased by the Unicode
/// `Lowercase` mapping (a fixed table; not written out here).
pub uninterp spec fn unicode_lowercase(s: Seq<char>) -> Seq<char>;

/// A character lower-cased as ASCII: `A` to `Z` become `a` to `z`, every
/// other character stays.
pub open spec fn ascii_lower(c: char) -> char {
    if 0x41 <= (c as u32) <= 0x5A {
        ((c as u32) + 32) as char
    } else {
        c
    }
}

/// `str::to_lowercase`: its result is a function of the input text alone.
/// On ASCII text the Unicode mapping is the ASCII one: each letter `A` to
/// `Z` becomes its small letter and every other character stays.
pub assume_specification[ str::to_lowercase ](s: &str) -> (r: String)
    ensures
        r@ == unicode_lowercase(s@),
        (forall|i: int| 0 <= i < s@.len() ==> (#[trigger] s@[i] as u32) < 0x80) ==> r@
            == s@.map_values(|c: char| ascii_lower(c)),
;

/// The text with trailing white space removed (as `str::trim_end`).
pub open spec fn trim_end_seq(s: Seq<char>) -> Seq<char>
    decreases s.len(),
{
    if s.len() > 0 && is_white_space(s.last()) {
        trim_end_seq(s.drop_last())
    } else {
        s
    }
}

/// The text with leading white space removed (as `str::trim_start`).
pub open spec fn trim_start_seq(s: Seq<char>) -> Seq<char>
    decreases s.len(),
{
    if s.len() > 0 && is_white_space(s[0]) {
        trim_start_seq(s.drop_first())
    } else {
        s
    }
}

/// The text with white space removed at both ends (as `str::trim`).
pub open spec fn trim_seq(s: Seq<char>) -> Seq<char> {
    trim_start_seq(trim_end_seq(s))
}

/// Whether two strings hold the same characters.
pub fn str_eq(a: &str, b: &str) -> (r: bool)
    ensures
        r == (a@ == b@),
{
    let n = a.unicode_len();
    if n != b.unicode_len() {
        return false;
    }
    let mut i: usize = 0;
    while i < n
        invariant
            n == a@.len(),
            n == b@.len(),
            i <= n,
            forall|j: int| 0 <= j < i ==> a@[j] == b@[j],
        decreases n - i,
    {
        if a.get_char(i) != b.get_char(i) {
            return false;
        }
        i = i + 1;
    }
    assert(a@ =~= b@);
    true
}

/// The characters of a string, in order.
pub fn chars_of(s: &str) -> (v: Vec<char>)
    ensures
        v@ == s@,
{
    broadcast use vstd::string::group_string_axioms;
    let mut v: Vec<char> = Vec::new();
    for c in it: s.chars()
        invariant
            it.seq() == s@,
            v@ == it.seq().take(it.index() as int),
    {
        v.push(c);
        assert(v@ =~= it.seq().take(it.index() as int + 1));
    }
    assert(v@ =~= s@);
    v
}

/// A string made of the characters `v[from..to]`.
pub fn string_of_range(v: &Vec<char>, from: usize, to: usize) -> (s: String)
    requires
        from <= to <= v@.len(),
    ensures
        s@ == v@.subrange(from as int, to as int),
{
    let mut s = String::new();
    let mut i = from;
    while i < to
        invariant
            from <= i <= to,
            to <= v@.len(),
            s@ == v@.subrange(from as int, i as int),
        decreases to - i,
    {
        s.push(v[i]);
        i = i + 1;
        assert(s@ =~= v@.subrange(from as int, i as int));
    }
    s
}

/// A string made of all the characters of `v`.
pub fn string_of_chars(v: &Vec<char>) -> (s: String)
    ensures
        s@ == v@,
{
    let s = string_of_range(v, 0, v.len());
    assert(v@.subrange(0, v@.len() as int) =~= v@);
    s
}

/// Removing trailing white space from a prefix of length `k` that already
/// ends in a non-space gives that prefix.
proof fn lemma_trim_end_prefix(s: Seq<char>, k: int)
    requires
        0 <= k <= s.len(),
        forall|j: int| k <= j < s.len() ==> is_white_space(#[trigger] s[j]),
    ensures
        trim_end_seq(s) == trim_end_seq(s.subrange(0, k)),
    decreases s.len() - k,
{
    if k < s.len() {
        assert(s.drop_last() =~= s.subrange(0, s.len() - 1));
        lemma_trim_end_prefix(s.drop_last(), k);
        assert(s.drop_last().subrange(0, k) =~= s.subrange(0, k));
    } else {
        assert(s.subrange(0, k) =~= s);
    }
}

/// The length at which `trim_end_seq` cuts `v`.
pub fn trim_end_len(v: &Vec<char>) -> (k: usize)
    ensures
        k <= v@.len(),
        trim_end_seq(v@) == v@.subrange(0, k as int),
{
    let mut k = v.len();
    while k > 0 && v[k - 1].is_whitespace()
        invariant
            k <= v@.len(),
            forall|j: int| k <= j < v@.len() ==> is_white_space(#[trigger] v@[j]),
        decreases k,
    {
        k = k - 1;
    }
    proof {
        lemma_trim_end_prefix(v@, k as int);
        let p = v@.subrange(0, k as int);
        assert(!(p.len() > 0 && is_white_space(p.last())));
    }
    k
}

/// Removing leading white space from a suffix starting at `k`, when all
/// characters before `k` are white space, gives the trimmed whole.
proof fn lemma_trim_start_suffix(s: Seq<char>, k: int)
    requires
        0 <= k <= s.len(),
        forall|j: int| 0 <= j < k ==> is_white_space(#[trigger] s[j]),
    ensures
        trim_start_seq(s) == trim_start_seq(s.subrange(k, s.len() as int)),
    decreases k,
{
    if k > 0 {
        lemma_trim_start_suffix(s.drop_first(), k - 1);
        assert(s.drop_first().subrange(k - 1, s.len() - 1) =~= s.subrange(k, s.len() as int));
    } else {
        assert(s.subrange(0, s.len() as int) =~= s);
    }
}

/// The characters of `v` with white space removed at the end (as
/// `str::trim_end`), as a string.
pub fn trim_end_string(v: &Vec<char>) -> (s: String)
    ensures
        s@ == trim_end_seq(v@),
{
    let k = trim_end_len(v);
    string_of_range(v, 0, k)
}

/// The characters of `v` with white space removed at both ends (as
/// `str::trim`), as a string.
pub fn trim_string(v: &Vec<char>) -> (s: String)
    ensures
        s@ == trim_seq(v@),
{
    let k = trim_end_len(v);
    let mut i: usize = 0;
    while i < k && v[i].is_whitespace()
        invariant
            i <= k <= v@.len(),
            forall|j: int| 0 <= j < i ==> is_white_space(#[trigger] v@[j]),
        decreases k - i,
    {
        i = i + 1;
    }
    proof {
        let p = v@.subrange(0, k as int);
        assert forall|j: int| 0 <= j < i implies is_white_space(#[trigger] p[j]) by {
            assert(p[j] == v@[j]);
        }
        lemma_trim_start_suffix(p, i as int);
        assert(p.subrange(i as int, k as int) =~= v@.subrange(i as int, k as int));
        let q = v@.subrange(i as int, k as int);
        assert(!(q.len() > 0 && is_white_space(q[0])));
    }
    string_of_range(v, i, k)
}

/// The decimal digit character for `d < 10`.
pub open spec fn digit_char(d: nat) -> char {
    (('0' as nat) + d) as char
}

/// The decimal representation of `n`, without leading zeros.
pub open spec fn decimal(n: nat) -> Seq<char>
    decreases n,
{
    if n < 10 {
        seq![digit_char(n)]
    } else {
        decimal(n / 10).push(digit_char(n % 10))
    }
}

fn digit(d: u64) -> (c: char)
    requires
        d < 10,
    ensures
        c == digit_char(d as nat),
{
    let digits = ['0', '1', '2', '3', '4', '5', '6', '7', '8', '9'];
    let c = digits[d as usize];
    assert(c == digit_char(d as nat)) by {
        assert(digits@ == seq!['0', '1', '2', '3', '4', '5', '6', '7', '8', '9']);
    }
    c
}

/// Append the decimal representation of `n` (as `format!("{}", n)`).
pub fn push_decimal(out: &mut String, n: u64)
    ensures
        final(out)@ == old(out)@ + decimal(n as nat),
    decreases n,
{
    if n >= 10 {
        push_decimal(out, n / 10);
    }
    out.push(digit(n % 10));
    assert(final(out)@ =~= old(out)@ + decimal(n as nat));
}

/// Whether `needle` occurs in `hay` as a run of consecutive characters.
pub open spec fn contains_run(hay: Seq<char>, needle: Seq<char>) -> bool {
    exists|i: int|
        0 <= i && i + needle.len() <= hay.len() && #[trigger] hay.subrange(i, i + needle.len())
            == needle
}

/// Whether `needle` occurs at position `i` of `hay`.
fn occurs_at(hay: &Vec<char>, needle: &Vec<char>, i: usize) -> (r: bool)
    requires
        i + needle@.len() <= hay@.len(),
    ensures
        r == (hay@.subrange(i as int, i + needle@.len()) == needle@),
{
    let mut k: usize = 0;
    let n = hay.len();
    while k < needle.len()
        invariant
            n == hay@.len(),
            i + needle@.len() <= hay@.len(),
            k <= needle@.len(),
            forall|j: int| 0 <= j < k ==> hay@[i + j] == needle@[j],
        decreases needle@.len() - k,
    {
        if hay[i + k] != needle[k] {
            assert(hay@.subrange(i as int, i + needle@.len())[k as int] != needle@[k as int]);
            return false;
        }
        k = k + 1;
    }
    assert(hay@.subrange(i as int, i + needle@.len()) =~= needle@);
    true
}

/// Whether `needle` occurs in `hay` (as `str::contains` on the texts).
pub fn contains_chars(hay: &Vec<char>, needle: &Vec<char>) -> (r: bool)
    ensures
        r == contains_run(hay@, needle@),
{
    if needle.len() > hay.len() {
        return false;
    }
    if needle.len() == 0 {
        assert(hay@.subrange(0int, 0int + needle@.len()) =~= needle@);
        return true;
    }
    let last = hay.len() - needle.len();
    let mut i: usize = 0;
    while i < last + 1
        invariant
            last + needle@.len() == hay@.len(),
            last < usize::MAX,
            needle@.len() >= 1,
            i <= last + 1,
            forall|j: int| 0 <= j < i ==> #[trigger] hay@.subrange(j, j + needle@.len()) != needle@,
        decreases last + 1 - i,
    {
        if occurs_at(hay, needle, i) {
            return true;
        }
        i = i + 1;
    }
    false
}

/// The first position at or after `i` where `needle` occurs in `hay`.
pub open spec fn first_run_from(hay: Seq<char>, needle: Seq<char>, i: int) -> Option<int>
    decreases hay.len() + 1 - i,
{
    if i < 0 || i + needle.len() > hay.len() {
        None
    } else if hay.subrange(i, i + needle.len()) == needle {
        Some(i)
    } else {
        first_run_from(hay, needle, i + 1)
    }
}

/// The first position where `needle` occurs in `hay`, if it does (as
/// `str::find`, counted in characters).
pub open spec fn first_run(hay: Seq<char>, needle: Seq<char>) -> Option<int> {
    first_run_from(hay, needle, 0)
}

/// A position found lies at or after `i`, with room for the needle.
pub proof fn lemma_first_run_in_range(hay: Seq<char>, needle: Seq<char>, i: int)
    requires
        0 <= i,
    ensures
        first_run_from(hay, needle, i) matches Some(k) ==> i <= k && k + needle.len() <= hay.len(),
    decreases hay.len() + 1 - i,
{
    if i + needle.len() <= hay.len() && hay.subrange(i, i + needle.len()) != needle {
        lemma_first_run_in_range(hay, needle, i + 1);
    }
}

/// The first position where `needle` occurs in `hay`, if any.
pub fn find_chars(hay: &Vec<char>, needle: &Vec<char>) -> (r: Option<usize>)
    ensures
        match first_run(hay@, needle@) {
            Some(k) => r == Some(k as usize),
            None => r is None,
        },
        r matches Some(k) ==> k + needle@.len() <= hay@.len(),
        first_run(hay@, needle@) matches Some(k) ==> 0 <= k && k + needle@.len() <= hay@.len(),
{
    proof {
        lemma_first_run_in_range(hay@, needle@, 0);
    }
    if needle.len() > hay.len() {
        return None;
    }
    let last = hay.len() - needle.len();
    let mut i: usize = 0;
    while i <= last
        invariant
            last + needle@.len() == hay@.len(),
            i <= last + 1,
            first_run_from(hay@, needle@, 0) == first_run_from(hay@, needle@, i as int),
        decreases last + 1 - i,
    {
        if occurs_at(hay, needle, i) {
            return Some(i);
        }
        if i == last {
            assert(first_run_from(hay@, needle@, i + 1) is None);
            return None;
        }
        i = i + 1;
    }
    None
}

} // verus!
