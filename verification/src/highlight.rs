//! What the views highlight: the entries of the search results panel with
//! the span of the match in each line, and the pieces of a log line cut at
//! the matches of the search pattern. A piece is a byte range of the text
//! and whether it is highlighted.

use vstd::prelude::*;
use crate::backend::backend_record;
use crate::domain::{HitView, hits_view};
use crate::query::{
    QueryView, SearchQuery, build_search_pattern, compile_regex, regex_accepts, regex_all_matches,
    regex_find, regex_find_all, regex_first_match, search_pattern,
};
use crate::state::{AppState, LogSource, SearchResultItem, find_source, first_source_from};
use crate::text::{chars_of, find_chars, first_run, string_of_range, unicode_lowercase};
use vstd::utf8::{encode_utf8, is_char_boundary};

verus! {

/// A results panel entry as values.
pub struct ItemView {
    pub hit: HitView,
    pub source_name: Seq<char>,
    pub line_number: u64,
    pub content: Seq<char>,
    pub match_start: usize,
    pub match_end: usize,
}

impl View for SearchResultItem {
    type V = ItemView;

    open spec fn view(&self) -> ItemView {
        ItemView {
            hit: self.hit@,
            source_name: self.source_name@,
            line_number: self.line_number,
            content: self.content@,
            match_start: self.match_start,
            match_end: self.match_end,
        }
    }
}

/// The entries as values.
pub open spec fn items_view(items: Seq<SearchResultItem>) -> Seq<ItemView> {
    items.map_values(|it: SearchResultItem| it@)
}

/// The byte length of a text in UTF-8, as `str::len` gives it.
pub open spec fn byte_len(s: Seq<char>) -> usize {
    encode_utf8(s).len() as usize
}

/// The byte span the results panel highlights in a line `content`: the
/// first match of the regular expression `pattern` (if it is valid), or for
/// a plain pattern the first occurrence of the lower-cased pattern in the
/// lower-cased line. When lower-casing gives the line as many characters as
/// it had (each character became one), that occurrence covers the line's
/// characters at the same places, and the span is theirs, in bytes of the
/// line; otherwise it is counted in bytes of the lower-cased line and is as
/// long as the pattern (the end capped at `usize::MAX`). `(0, 0)` when there
/// is none or the pattern is empty.
pub open spec fn match_span(content: Seq<char>, pattern: Seq<char>, is_regex: bool) -> (usize, usize) {
    if pattern.len() == 0 {
        (0, 0)
    } else if is_regex {
        if regex_accepts(pattern) {
            match regex_first_match(pattern, content) {
                Some(m) => m,
                None => (0, 0),
            }
        } else {
            (0, 0)
        }
    } else {
        let lower = unicode_lowercase(content);
        let needle = unicode_lowercase(pattern);
        match first_run(lower, needle) {
            Some(k) => if lower.len() == content.len() {
                (byte_len(content.take(k)), byte_len(content.take(k + needle.len())))
            } else {
                let pos = byte_len(lower.take(k));
                let len = byte_len(pattern);
                (pos, if pos + len > usize::MAX {
                    usize::MAX
                } else {
                    (pos + len) as usize
                })
            },
            None => (0, 0),
        }
    }
}

/// The panel entry for a hit: the first source with the hit's identifier
/// and the hit's record in it, when both exist.
pub open spec fn result_item(
    sources: Seq<LogSource>,
    pattern: Seq<char>,
    is_regex: bool,
    h: HitView,
) -> Option<ItemView> {
    match first_source_from(sources, h.source_id, 0) {
        Some(i) => match backend_record(sources[i].backend@, h.record_index) {
            Some(rec) => {
                let span = match_span(rec.raw, pattern, is_regex);
                Some(
                    ItemView {
                        hit: h,
                        source_name: sources[i].name@,
                        line_number: h.record_index,
                        content: rec.raw,
                        match_start: span.0,
                        match_end: span.1,
                    },
                )
            },
            None => None,
        },
        None => None,
    }
}

/// The panel entries for the hits, in order, skipping hits without one.
pub open spec fn result_items(
    sources: Seq<LogSource>,
    pattern: Seq<char>,
    is_regex: bool,
    hits: Seq<HitView>,
) -> Seq<ItemView>
    decreases hits.len(),
{
    if hits.len() == 0 {
        Seq::empty()
    } else {
        let prev = result_items(sources, pattern, is_regex, hits.drop_last());
        match result_item(sources, pattern, is_regex, hits.last()) {
            Some(it) => prev.push(it),
            None => prev,
        }
    }
}

/// The span the results panel highlights in `content` (see `match_span`).
pub fn find_match_span(content: &str, pattern: &str, is_regex: bool) -> (r: (usize, usize))
    ensures
        r == match_span(content@, pattern@, is_regex),
{
    if pattern.is_empty() {
        return (0, 0);
    }
    if is_regex {
        match compile_regex(pattern) {
            Ok(re) => match regex_find(&re, content) {
                Some(m) => m,
                None => (0, 0),
            },
            Err(_) => (0, 0),
        }
    } else {
        let lower = content.to_lowercase();
        let hay = chars_of(lower.as_str());
        let needle_text = pattern.to_lowercase();
        let needle = chars_of(needle_text.as_str());
        let line = chars_of(content);
        match find_chars(&hay, &needle) {
            Some(k) => if hay.len() == line.len() {
                let before = string_of_range(&line, 0, k);
                assert(before@ =~= content@.take(k as int));
                let through = string_of_range(&line, 0, k + needle.len());
                assert(through@ =~= content@.take(k + needle@.len()));
                (before.as_str().len(), through.as_str().len())
            } else {
                let before = string_of_range(&hay, 0, k);
                assert(before@ =~= hay@.take(k as int));
                let pos = before.as_str().len();
                let len = pattern.len();
                (pos, pos.saturating_add(len))
            },
            None => (0, 0),
        }
    }
}

impl AppState {
    /// The results panel entries for the current search results (see
    /// `result_items`).
    pub fn build_result_items(&self) -> (r: Vec<SearchResultItem>)
        ensures
            items_view(r@) == result_items(
                self.sources@,
                self.search_query.pattern@,
                self.search_query.is_regex,
                hits_view(self.search_results@),
            ),
    {
        let ghost hits = hits_view(self.search_results@);
        let ghost pattern = self.search_query.pattern@;
        let ghost is_regex = self.search_query.is_regex;
        let mut items: Vec<SearchResultItem> = Vec::new();
        let mut k: usize = 0;
        while k < self.search_results.len()
            invariant
                k <= self.search_results@.len(),
                hits == hits_view(self.search_results@),
                pattern == self.search_query.pattern@,
                is_regex == self.search_query.is_regex,
                items_view(items@) == result_items(
                    self.sources@,
                    pattern,
                    is_regex,
                    hits.take(k as int),
                ),
            decreases self.search_results@.len() - k,
        {
            let ghost before = items_view(items@);
            assert(hits.take(k + 1).drop_last() =~= hits.take(k as int));
            assert(hits.take(k + 1).last() == hits[k as int]);
            let hit = &self.search_results[k];
            match find_source(&self.sources, &hit.source_id) {
                Some(i) => {
                    let source = &self.sources[i];
                    match source.backend.record_at(hit.record_index) {
                        Some(rec) => {
                            let span = find_match_span(
                                rec.raw.as_str(),
                                self.search_query.pattern.as_str(),
                                self.search_query.is_regex,
                            );
                            let item = SearchResultItem {
                                hit: hit.clone(),
                                source_name: source.name.clone(),
                                line_number: hit.record_index,
                                content: rec.raw,
                                match_start: span.0,
                                match_end: span.1,
                            };
                            items.push(item);
                            assert(items_view(items@) =~= before.push(items@[items@.len() - 1]@));
                        },
                        None => {},
                    }
                },
                None => {},
            }
            k = k + 1;
        }
        assert(hits.take(k as int) =~= hits);
        items
    }
}

/// The pieces of the line `text` around the byte span `start..end`: the
/// whole line unhighlighted when the span is empty, does not fit, or does
/// not start and end between characters; else the text before it (if
/// any), the span highlighted, and the text after it (if any).
pub open spec fn span_pieces(text: Seq<char>, start: usize, end: usize) -> Seq<(usize, usize, bool)> {
    let len = byte_len(text);
    if start >= end || end > len || !is_char_boundary(encode_utf8(text), start as int)
        || !is_char_boundary(encode_utf8(text), end as int) {
        seq![(0usize, len, false)]
    } else {
        let before: Seq<(usize, usize, bool)> = if start > 0 {
            seq![(0usize, start, false)]
        } else {
            Seq::empty()
        };
        let after: Seq<(usize, usize, bool)> = if end < len {
            seq![(end, len, false)]
        } else {
            Seq::empty()
        };
        before.push((start, end, true)) + after
    }
}

/// The pieces of `text` around the span `start..end` (see `span_pieces`).
pub fn highlight_match(text: &str, start: usize, end: usize) -> (r: Vec<(usize, usize, bool)>)
    ensures
        r@ == span_pieces(text@, start, end),
{
    let len = text.len();
    let mut r: Vec<(usize, usize, bool)> = Vec::new();
    if start >= end || end > len || !text.is_char_boundary(start) || !text.is_char_boundary(end) {
        r.push((0, len, false));
        assert(r@ =~= span_pieces(text@, start, end));
        return r;
    }
    if start > 0 {
        r.push((0, start, false));
    }
    r.push((start, end, true));
    if end < len {
        r.push((end, len, false));
    }
    assert(r@ =~= span_pieces(text@, start, end));
    r
}

/// The pieces cut at the first `k` matches, and where the last of them
/// ends: before each match the text since the previous one (if any), then
/// the match highlighted.
pub open spec fn pieces_upto(matches: Seq<(usize, usize)>, k: nat) -> (Seq<(usize, usize, bool)>, usize)
    decreases k,
{
    if k == 0 {
        (Seq::empty(), 0usize)
    } else {
        let (prev, last) = pieces_upto(matches, (k - 1) as nat);
        let (s, e) = matches[k - 1];
        let gap: Seq<(usize, usize, bool)> = if s > last {
            prev.push((last, s, false))
        } else {
            prev
        };
        (gap.push((s, e, true)), e)
    }
}

/// The pieces of a line of `len` bytes cut at the matches: the whole line
/// unhighlighted when there are none, else the pieces up to the last match
/// and the rest of the line (if any).
pub open spec fn match_pieces(matches: Seq<(usize, usize)>, len: usize) -> Seq<(usize, usize, bool)> {
    if matches.len() == 0 {
        seq![(0usize, len, false)]
    } else {
        let (pieces, last) = pieces_upto(matches, matches.len());
        if last < len {
            pieces.push((last, len, false))
        } else {
            pieces
        }
    }
}

/// The pieces of a log line under a search: cut at every match of the
/// search's regular expression (see `search_pattern`), or the whole line
/// when the pattern is empty or not a valid expression.
pub open spec fn line_pieces(text: Seq<char>, q: QueryView) -> Seq<(usize, usize, bool)> {
    if q.pattern.len() == 0 || !regex_accepts(search_pattern(q)) {
        seq![(0usize, byte_len(text), false)]
    } else {
        match_pieces(regex_all_matches(search_pattern(q), text), byte_len(text))
    }
}

/// The pieces of `text` under the search `query` (see `line_pieces`; its
/// field filters play no part).
pub fn highlight_text(text: &str, query: &SearchQuery) -> (r: Vec<(usize, usize, bool)>)
    ensures
        r@ == line_pieces(text@, query@),
{
    let len = text.len();
    let mut r: Vec<(usize, usize, bool)> = Vec::new();
    if query.pattern.as_str().is_empty() {
        r.push((0, len, false));
        assert(r@ =~= line_pieces(text@, query@));
        return r;
    }
    let pattern = build_search_pattern(query);
    let matches = match compile_regex(pattern.as_str()) {
        Ok(re) => regex_find_all(&re, text),
        Err(_) => {
            r.push((0, len, false));
            assert(r@ =~= line_pieces(text@, query@));
            return r;
        },
    };
    if matches.len() == 0 {
        r.push((0, len, false));
        assert(r@ =~= line_pieces(text@, query@));
        return r;
    }
    let mut last: usize = 0;
    let mut k: usize = 0;
    while k < matches.len()
        invariant
            k <= matches@.len(),
            (r@, last) == pieces_upto(matches@, k as nat),
        decreases matches@.len() - k,
    {
        let (s, e) = matches[k];
        if s > last {
            r.push((last, s, false));
        }
        r.push((s, e, true));
        last = e;
        k = k + 1;
    }
    if last < len {
        r.push((last, len, false));
    }
    r
}

} // verus!
