//! Searching the records of a source: plain text or regular expression,
//! optionally case-insensitive and whole-word, with field filters.

use vstd::prelude::*;
use rayon::iter::{IntoParallelIterator, ParallelIterator};
use crate::backend::{BackendView, LogBackend, backend_record};
use crate::domain::{HitView, LogRecord, SearchHit, hits_view};

verus! {

#[verifier::external_type_specification]
#[verifier::external_body]
pub struct ExRegex(regex::Regex);

/// The characters `regex` treats as meta characters (`is_meta_character`).
pub open spec fn is_regex_meta(c: char) -> bool {
    c == '\\' || c == '.' || c == '+' || c == '*' || c == '?' || c == '(' || c == ')' || c == '|'
        || c == '[' || c == ']' || c == '{' || c == '}' || c == '^' || c == '$' || c == '#'
        || c == '&' || c == '-' || c == '~'
}

/// The text with a backslash before every meta character.
pub open spec fn regex_escaped(s: Seq<char>) -> Seq<char>
    decreases s.len(),
{
    if s.len() == 0 {
        Seq::empty()
    } else if is_regex_meta(s.last()) {
        regex_escaped(s.drop_last()) + seq!['\\', s.last()]
    } else {
        regex_escaped(s.drop_last()).push(s.last())
    }
}

/// `regex::escape` puts a backslash before every meta character (as
/// `regex_syntax::escape_into` does) and copies every other character.
pub assume_specification[ regex::escape ](pattern: &str) -> (r: String)
    ensures
        r@ == regex_escaped(pattern@),
;

/// Whether `regex::Regex::new` accepts a pattern (its syntax and its size
/// limits decide; not written out here).
pub uninterp spec fn regex_accepts(pattern: Seq<char>) -> bool;

/// A compiled regular expression together with the pattern it was compiled
/// from (its view). Only `compile_regex` makes one.
pub struct CompiledRegex {
    pattern: String,
    re: regex::Regex,
}

impl View for CompiledRegex {
    type V = Seq<char>;

    closed spec fn view(&self) -> Seq<char> {
        self.pattern@
    }
}

/// Whether the regex with this pattern matches somewhere in the text (as
/// `Regex::is_match`).
pub uninterp spec fn regex_matches(pattern: Seq<char>, text: Seq<char>) -> bool;

/// The message of the error `regex::Regex::new` reports for a pattern it
/// rejects (the error's `Display`).
pub uninterp spec fn regex_error_text(pattern: Seq<char>) -> Seq<char>;

/// `regex::Regex::new`: succeeds exactly on the accepted patterns, and the
/// result is kept with the pattern it was compiled from; a rejected pattern
/// yields the error's message.
#[verifier::external_body]
pub(crate) fn compile_regex(pattern: &str) -> (r: Result<CompiledRegex, String>)
    ensures
        r is Ok <==> regex_accepts(pattern@),
        r matches Ok(re) ==> re@ == pattern@,
        r matches Err(msg) ==> msg@ == regex_error_text(pattern@),
{
    match regex::Regex::new(pattern) {
        Ok(re) => Ok(CompiledRegex { pattern: pattern.to_string(), re }),
        Err(e) => Err(e.to_string()),
    }
}

/// `Regex::is_match`.
#[verifier::external_body]
pub(crate) fn regex_is_match(re: &CompiledRegex, text: &str) -> (b: bool)
    ensures
        b == regex_matches(re@, text@),
{
    re.re.is_match(text)
}

/// The byte span of the first match of the regex with this pattern in the
/// text (as `Regex::find`), if any.
pub uninterp spec fn regex_first_match(pattern: Seq<char>, text: Seq<char>) -> Option<(usize, usize)>;

/// `Regex::find`: the start and end byte offsets of the first match.
#[verifier::external_body]
pub(crate) fn regex_find(re: &CompiledRegex, text: &str) -> (r: Option<(usize, usize)>)
    ensures
        r == regex_first_match(re@, text@),
{
    re.re.find(text).map(|m| (m.start(), m.end()))
}

/// The byte spans of the successive non-overlapping matches of the regex
/// with this pattern in the text (as `Regex::find_iter`).
pub uninterp spec fn regex_all_matches(pattern: Seq<char>, text: Seq<char>) -> Seq<(usize, usize)>;

/// `Regex::find_iter`, collected: the start and end byte offsets of every
/// match.
#[verifier::external_body]
pub(crate) fn regex_find_all(re: &CompiledRegex, text: &str) -> (r: Vec<(usize, usize)>)
    ensures
        r@ == regex_all_matches(re@, text@),
{
    re.re.find_iter(text).map(|m| (m.start(), m.end())).collect()
}

/// A filter on a structured field: the record must have this key with this
/// value.
pub struct FieldFilter {
    pub key: String,
    pub value: String,
}

impl View for FieldFilter {
    type V = (Seq<char>, Seq<char>);

    open spec fn view(&self) -> (Seq<char>, Seq<char>) {
        (self.key@, self.value@)
    }
}

/// A search request.
pub struct SearchQuery {
    pub pattern: String,
    pub is_regex: bool,
    pub case_insensitive: bool,
    pub whole_word: bool,
    pub field_filters: Vec<FieldFilter>,
}

/// A search request as values.
pub struct QueryView {
    pub pattern: Seq<char>,
    pub is_regex: bool,
    pub case_insensitive: bool,
    pub whole_word: bool,
    pub field_filters: Seq<(Seq<char>, Seq<char>)>,
}

impl View for SearchQuery {
    type V = QueryView;

    open spec fn view(&self) -> QueryView {
        QueryView {
            pattern: self.pattern@,
            is_regex: self.is_regex,
            case_insensitive: self.case_insensitive,
            whole_word: self.whole_word,
            field_filters: self.field_filters@.map_values(|f: FieldFilter| f@),
        }
    }
}

/// The regular expression a query searches for: the pattern (escaped unless
/// it is a regex), wrapped in word boundaries for whole-word search with a
/// non-empty pattern, prefixed with the case-insensitive flag if asked.
pub open spec fn search_pattern(q: QueryView) -> Seq<char> {
    let base = if q.is_regex {
        q.pattern
    } else {
        regex_escaped(q.pattern)
    };
    let word = if q.whole_word && q.pattern.len() > 0 {
        "\\b"@ + base + "\\b"@
    } else {
        base
    };
    if q.case_insensitive {
        "(?i)"@ + word
    } else {
        word
    }
}

/// Every filter is met by some field with the same key and value.
pub open spec fn filters_met(
    filters: Seq<(Seq<char>, Seq<char>)>,
    fields: Seq<(Seq<char>, Seq<char>)>,
) -> bool {
    forall|i: int| 0 <= i < filters.len() ==> #[trigger] fields.contains(filters[i])
}

/// The hit for record `i`, if the record exists, its text matches the
/// regex with pattern `pattern`, and its fields meet the filters.
pub open spec fn hit_at_spec(
    b: BackendView,
    q: QueryView,
    pattern: Seq<char>,
    i: u64,
) -> Option<HitView> {
    match backend_record(b, i) {
        Some(rec) => if regex_matches(pattern, rec.raw) && filters_met(q.field_filters, rec.fields) {
            Some(HitView { source_id: rec.source_id, record_index: i, byte_range: rec.byte_range })
        } else {
            None
        },
        None => None,
    }
}

/// The hits among the first `n` records, in record order.
pub open spec fn hits_upto(b: BackendView, q: QueryView, pattern: Seq<char>, n: nat) -> Seq<
    HitView,
>
    decreases n,
{
    if n == 0 {
        Seq::empty()
    } else {
        let prev = hits_upto(b, q, pattern, (n - 1) as nat);
        match hit_at_spec(b, q, pattern, (n - 1) as u64) {
            Some(h) => prev.push(h),
            None => prev,
        }
    }
}

/// The hits are listed by strictly increasing record index.
pub open spec fn in_record_order(hits: Seq<HitView>) -> bool {
    forall|i: int, j: int|
        0 <= i < j < hits.len() ==> (#[trigger] hits[i]).record_index < (#[trigger] hits[j]).record_index
}

/// A record is a hit exactly when its text matches the pattern and each of
/// the query's field filters is met by one of the record's fields (the same
/// key and value): a filter that no field meets excludes the record,
/// whichever filter it is.
pub proof fn law_hit_meets_every_filter(b: BackendView, q: QueryView, pattern: Seq<char>, i: u64)
    ensures
        hit_at_spec(b, q, pattern, i) is Some <==> (backend_record(b, i) matches Some(rec) && {
            &&& regex_matches(pattern, rec.raw)
            &&& forall|k: int|
                0 <= k < q.field_filters.len() ==> rec.fields.contains(#[trigger] q.field_filters[k])
        }),
        hit_at_spec(b, q, pattern, i) matches Some(h) ==> h.record_index == i,
{
}

/// The hits among the first `n` records come in record order, each with an
/// index below `n`.
pub proof fn lemma_hits_in_record_order(b: BackendView, q: QueryView, pattern: Seq<char>, n: nat)
    requires
        n <= u64::MAX,
    ensures
        in_record_order(hits_upto(b, q, pattern, n)),
        forall|i: int|
            0 <= i < hits_upto(b, q, pattern, n).len() ==> (#[trigger] hits_upto(
                b,
                q,
                pattern,
                n,
            )[i]).record_index < n,
    decreases n,
{
    if n > 0 {
        lemma_hits_in_record_order(b, q, pattern, (n - 1) as nat);
    }
}

/// The result of searching a source with a query.
pub open spec fn search_result(b: BackendView, q: QueryView) -> Option<Seq<HitView>> {
    if regex_accepts(search_pattern(q)) {
        Some(hits_upto(b, q, search_pattern(q), b.offsets.len()))
    } else {
        None
    }
}

/// Errors of a search.
#[derive(Debug)]
pub enum SearchError {
    /// The pattern is not a valid regular expression (with the message).
    InvalidPattern(String),
}

impl SearchError {
    /// The message of the error.
    pub fn message(&self) -> (m: String)
        ensures
            m@ == match self {
                SearchError::InvalidPattern(t) => t@,
            },
    {
        match self {
            SearchError::InvalidPattern(m) => m.clone(),
        }
    }
}

/// Build the regular expression of a query (see `search_pattern`).
pub fn build_search_pattern(query: &SearchQuery) -> (p: String)
    ensures
        p@ == search_pattern(query@),
{
    let base = if query.is_regex {
        query.pattern.clone()
    } else {
        regex::escape(query.pattern.as_str())
    };
    let word = if query.whole_word && !query.pattern.as_str().is_empty() {
        let mut w = String::new();
        w.append("\\b");
        w.append(base.as_str());
        w.append("\\b");
        w
    } else {
        base
    };
    if query.case_insensitive {
        let mut p = String::new();
        p.append("(?i)");
        p.append(word.as_str());
        p
    } else {
        word
    }
}

/// Whether `fields` has a field with this key and value.
fn has_field(fields: &Vec<crate::domain::FieldValue>, key: &String, value: &String) -> (r: bool)
    ensures
        r == crate::domain::fields_view(fields@).contains((key@, value@)),
{
    let ghost fv = crate::domain::fields_view(fields@);
    let mut i: usize = 0;
    while i < fields.len()
        invariant
            i <= fields@.len(),
            fv == crate::domain::fields_view(fields@),
            forall|j: int| 0 <= j < i ==> fv[j] != (key@, value@),
        decreases fields@.len() - i,
    {
        if fields[i].key == *key && fields[i].value == *value {
            assert(fv[i as int] == (key@, value@));
            return true;
        }
        i = i + 1;
    }
    false
}

/// Whether a record's fields meet all the filters of a query.
fn record_meets_filters(query: &SearchQuery, rec: &LogRecord) -> (r: bool)
    ensures
        r == filters_met(query@.field_filters, rec@.fields),
{
    let ghost filters = query@.field_filters;
    let mut i: usize = 0;
    while i < query.field_filters.len()
        invariant
            i <= query.field_filters@.len(),
            filters == query@.field_filters,
            forall|j: int| 0 <= j < i ==> #[trigger] rec@.fields.contains(filters[j]),
        decreases query.field_filters@.len() - i,
    {
        let f = &query.field_filters[i];
        if !has_field(&rec.fields, &f.key, &f.value) {
            assert(filters[i as int] == f@);
            return false;
        }
        i = i + 1;
    }
    true
}

/// The hit for record `i`, when it matches (see `hit_at_spec`).
fn hit_at(backend: &LogBackend, re: &CompiledRegex, query: &SearchQuery, i: usize) -> (r: Option<
    SearchHit,
>)
    ensures
        match r {
            Some(h) => hit_at_spec(backend@, query@, re@, i as u64) == Some(h@),
            None => hit_at_spec(backend@, query@, re@, i as u64) is None,
        },
{
    match backend.record_at(i as u64) {
        Some(rec) => {
            let pattern_ok = regex_is_match(re, rec.raw.as_str());
            let filters_ok = record_meets_filters(query, &rec);
            if pattern_ok && filters_ok {
                Some(
                    SearchHit {
                        source_id: rec.source_id,
                        record_index: i as u64,
                        byte_range: rec.byte_range,
                    },
                )
            } else {
                None
            }
        },
        None => None,
    }
}

/// The hit (or none) for every record, computed on rayon's thread pool and
/// collected in record order (rayon's `collect` into a `Vec` keeps the order
/// of an indexed parallel iterator such as a `usize` range).
#[verifier::external_body]
fn hits_by_record(backend: &LogBackend, re: &CompiledRegex, query: &SearchQuery, n: usize) -> (r:
    Vec<Option<SearchHit>>)
    ensures
        r@.len() == n,
        forall|i: int|
            0 <= i < n ==> match #[trigger] r@[i] {
                Some(h) => hit_at_spec(backend@, query@, re@, i as u64) == Some(h@),
                None => hit_at_spec(backend@, query@, re@, i as u64) is None,
            },
{
    (0..n).into_par_iter().map(|i| hit_at(backend, re, query, i)).collect()
}

/// Search engine over a backend's records.
pub struct QueryEngine;

impl QueryEngine {
    /// The records that match the query, in record order; an error when the
    /// query's pattern is not a valid regular expression.
    pub fn search(backend: &LogBackend, query: &SearchQuery) -> (r: Result<
        Vec<SearchHit>,
        SearchError,
    >)
        ensures
            r matches Ok(hits) ==> in_record_order(hits_view(hits@)),
            match r {
                Ok(hits) => search_result(backend@, query@) == Some(hits_view(hits@)),
                Err(SearchError::InvalidPattern(msg)) => {
                    &&& search_result(backend@, query@) is None
                    &&& msg@ == regex_error_text(search_pattern(query@))
                },
            },
    {
        let pattern = build_search_pattern(query);
        let re = match compile_regex(pattern.as_str()) {
            Ok(re) => re,
            Err(msg) => {
                return Err(SearchError::InvalidPattern(msg));
            },
        };
        let total = backend.record_count();
        let ghost p = pattern@;
        proof {
            lemma_hits_in_record_order(backend@, query@, p, total as nat);
        }
        let mut hits: Vec<SearchHit> = Vec::new();
        let mut i: u64 = 0;
        while i < total
            invariant
                total == backend@.offsets.len(),
                total <= usize::MAX,
                re@ == p,
                p == search_pattern(query@),
                i <= total,
                hits_view(hits@) == hits_upto(backend@, query@, p, i as nat),
            decreases total - i,
        {
            let ghost before = hits@;
            match hit_at(backend, &re, query, i as usize) {
                Some(h) => {
                    hits.push(h);
                    assert(hits_view(hits@) =~= hits_view(before).push(h@));
                },
                None => {},
            }
            i = i + 1;
        }
        Ok(hits)
    }

    /// The same search with the records checked in parallel.
    pub fn search_parallel(backend: &LogBackend, query: &SearchQuery) -> (r: Result<
        Vec<SearchHit>,
        SearchError,
    >)
        ensures
            r matches Ok(hits) ==> in_record_order(hits_view(hits@)),
            match r {
                Ok(hits) => search_result(backend@, query@) == Some(hits_view(hits@)),
                Err(SearchError::InvalidPattern(msg)) => {
                    &&& search_result(backend@, query@) is None
                    &&& msg@ == regex_error_text(search_pattern(query@))
                },
            },
    {
        let pattern = build_search_pattern(query);
        let re = match compile_regex(pattern.as_str()) {
            Ok(re) => re,
            Err(msg) => {
                return Err(SearchError::InvalidPattern(msg));
            },
        };
        let n = backend.record_count() as usize;
        let ghost p = pattern@;
        proof {
            lemma_hits_in_record_order(backend@, query@, p, n as nat);
        }
        let found = hits_by_record(backend, &re, query, n);
        let mut hits: Vec<SearchHit> = Vec::new();
        let mut i: usize = 0;
        while i < n
            invariant
                n == backend@.offsets.len(),
                found@.len() == n,
                forall|k: int|
                    0 <= k < n ==> match #[trigger] found@[k] {
                        Some(h) => hit_at_spec(backend@, query@, p, k as u64) == Some(h@),
                        None => hit_at_spec(backend@, query@, p, k as u64) is None,
                    },
                p == search_pattern(query@),
                i <= n,
                hits_view(hits@) == hits_upto(backend@, query@, p, i as nat),
            decreases n - i,
        {
            let ghost before = hits@;
            match &found[i] {
                Some(h) => {
                    let h2 = h.clone();
                    hits.push(h2);
                    assert(hits_view(hits@) =~= hits_view(before).push(h2@));
                },
                None => {},
            }
            i = i + 1;
        }
        Ok(hits)
    }
}

} // verus!
