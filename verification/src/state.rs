//! The viewer's application state and the rules that change it: open
//! sources and the active one, searching and stepping through matches,
//! filtering, and the confirmation flags of the dialogs.

use vstd::prelude::*;
use std::sync::Arc;
use crate::backend::{BackendView, LogBackend, backend_record};
use crate::domain::{HitView, LogFormat, SearchHit, SourceId, hits_view};
use crate::query::{
    FieldFilter, QueryEngine, SearchQuery, compile_regex, in_record_order,
    regex_accepts, regex_error_text, regex_is_match, regex_matches, search_pattern, search_result,
};
use crate::session::Session;
use crate::text::{chars_of, contains_chars, contains_run, decimal, push_decimal, unicode_lowercase};
use crate::ordering::{listed_in_order, sort_hits, with_key};
use crate::parser::strings_view;
use crate::query::QueryView;
use crate::theme::{ThemeMode, other_theme};
use crate::workspace::{Workspace, contains_path, has_path, paths_equal};

verus! {

/// Name of the default workspace, which cannot be deleted.
pub const DEFAULT_WORKSPACE_NAME: &'static str = "默认工作区";

/// An open log source with its backend.
pub struct LogSource {
    pub id: SourceId,
    pub name: String,
    pub path: String,
    pub format: LogFormat,
    pub backend: Arc<LogBackend>,
}

/// A search hit with what the results panel shows of it.
pub struct SearchResultItem {
    pub hit: SearchHit,
    pub source_name: String,
    pub line_number: u64,
    pub content: String,
    pub match_start: usize,
    pub match_end: usize,
}

/// Central application state (all but the timing and font settings of the
/// window, which live with the user interface). `file_sizes` records the
/// size last seen of each file, by path, to notice files that grew.
pub struct AppState {
    pub sources: Vec<LogSource>,
    pub active_source: Option<usize>,
    pub search_query: SearchQuery,
    pub search_results: Vec<SearchHit>,
    pub session: Session,
    pub show_structured_view: bool,
    pub status_message: String,
    pub theme: ThemeMode,
    pub show_search_results: bool,
    pub selected_search_result: Option<usize>,
    pub scroll_to_line: Option<u64>,
    pub current_match_index: Option<usize>,
    pub show_font_settings: bool,
    pub filter_pattern: String,
    pub filter_enabled: bool,
    pub filter_is_regex: bool,
    pub filtered_lines: Vec<u64>,
    pub current_workspace: Option<Workspace>,
    pub available_workspaces: Vec<String>,
    pub show_new_workspace_dialog: bool,
    pub new_workspace_name: String,
    pub auto_refresh: bool,
    pub show_update_dialog: bool,
    pub file_sizes: Vec<(String, u64)>,
    pub show_clear_confirm_dialog: bool,
}

/// The active-source index fits the sources: none exactly when there are
/// no sources, otherwise one of them.
pub open spec fn active_fits(active: Option<usize>, n: nat) -> bool {
    match active {
        None => n == 0,
        Some(i) => i < n,
    }
}

/// The index of the first source with identifier `id` at or after `i`.
pub open spec fn first_source_from(sources: Seq<LogSource>, id: Seq<char>, i: int) -> Option<int>
    decreases sources.len() - i,
{
    if i < 0 || i >= sources.len() {
        None
    } else if sources[i].id@ == id {
        Some(i)
    } else {
        first_source_from(sources, id, i + 1)
    }
}

/// The index of the first source read from the same path as `path` at or
/// after `i`.
pub open spec fn first_path_from(sources: Seq<LogSource>, path: Seq<char>, i: int) -> Option<int>
    decreases sources.len() - i,
{
    if i < 0 || i >= sources.len() {
        None
    } else if paths_equal(sources[i].path@, path) {
        Some(i)
    } else {
        first_path_from(sources, path, i + 1)
    }
}

/// The active source after switching to the source with identifier `id`:
/// the first such source, or unchanged if there is none.
pub open spec fn active_after_switch(
    sources: Seq<LogSource>,
    id: Seq<char>,
    active: Option<usize>,
) -> Option<usize> {
    match first_source_from(sources, id, 0) {
        Some(i) => Some(i as usize),
        None => active,
    }
}

/// The sum of the record counts of the sources.
pub open spec fn records_total(sources: Seq<LogSource>) -> int
    decreases sources.len(),
{
    if sources.len() == 0 {
        0
    } else {
        records_total(sources.drop_last()) + sources.last().backend@.offsets.len()
    }
}

/// "匹配 k/n": the status shown after stepping to match `k` of `n`.
pub open spec fn match_status(k: nat, n: nat) -> Seq<char> {
    "匹配 "@ + decimal(k) + "/"@ + decimal(n)
}

/// The status shown when no log file is open.
pub open spec fn no_file_status() -> Seq<char> {
    "没有打开的日志文件"@
}

/// The match index after "next": the one after the current (wrapping), or
/// the first when none is current.
pub open spec fn next_match_index(current: Option<usize>, n: nat) -> nat {
    match current {
        Some(c) => ((c + 1) % (n as int)) as nat,
        None => 0,
    }
}

/// The match index after "previous": the one before the current (wrapping),
/// or the last when none is current.
pub open spec fn previous_match_index(current: Option<usize>, n: nat) -> nat {
    match current {
        Some(c) => if c == 0 {
            (n - 1) as nat
        } else {
            (c - 1) as nat
        },
        None => (n - 1) as nat,
    }
}

/// The backend of the active source, if there is one.
pub open spec fn active_backend_of(sources: Seq<LogSource>, active: Option<usize>) -> Option<
    BackendView,
> {
    match active {
        Some(i) => if i < sources.len() {
            Some(sources[i as int].backend@)
        } else {
            None
        },
        None => None,
    }
}

/// Whether the line filter keeps record `i`: its text matches the regular
/// expression, or (plain filter) contains the pattern, both lower-cased.
pub open spec fn filter_keeps(b: BackendView, pattern: Seq<char>, is_regex: bool, i: u64) -> bool {
    match backend_record(b, i) {
        Some(rec) => if is_regex {
            regex_matches(pattern, rec.raw)
        } else {
            contains_run(unicode_lowercase(rec.raw), unicode_lowercase(pattern))
        },
        None => false,
    }
}

/// The records among the first `n` that the filter keeps, in order.
pub open spec fn kept_lines(b: BackendView, pattern: Seq<char>, is_regex: bool, n: nat) -> Seq<u64>
    decreases n,
{
    if n == 0 {
        Seq::empty()
    } else {
        let prev = kept_lines(b, pattern, is_regex, (n - 1) as nat);
        if filter_keeps(b, pattern, is_regex, (n - 1) as u64) {
            prev.push((n - 1) as u64)
        } else {
            prev
        }
    }
}

/// The plain line filter ignores case: which lines it keeps depends on the
/// pattern only through its lower-cased form (so two patterns that differ
/// only in case keep the same lines), and a line whose text is the pattern
/// itself is kept.
pub proof fn law_plain_filter_ignores_case(
    b: BackendView,
    p: Seq<char>,
    p2: Seq<char>,
    i: u64,
    n: nat,
)
    requires
        n <= u64::MAX + 1,
    ensures
        unicode_lowercase(p) == unicode_lowercase(p2) ==> filter_keeps(b, p, false, i) == filter_keeps(b, p2, false, i),
        unicode_lowercase(p) == unicode_lowercase(p2) ==> kept_lines(b, p, false, n) == kept_lines(b, p2, false, n),
        backend_record(b, i) matches Some(rec) && rec.raw == p ==> filter_keeps(b, p, false, i),
    decreases n,
{
    if n > 0 {
        law_plain_filter_ignores_case(b, p, p2, (n - 1) as u64, (n - 1) as nat);
    }
    match backend_record(b, i) {
        Some(rec) => {
            let l = unicode_lowercase(rec.raw);
            assert(l.subrange(0int, 0int + l.len()) =~= l);
            assert(contains_run(l, l));
        },
        None => {},
    }
}

/// The lines a filter shows: none when its regular expression is invalid.
pub open spec fn filter_lines(b: BackendView, pattern: Seq<char>, is_regex: bool) -> Seq<u64> {
    if is_regex && !regex_accepts(pattern) {
        Seq::empty()
    } else {
        kept_lines(b, pattern, is_regex, b.offsets.len())
    }
}

/// The status after filtering: the regex error, or "过滤: 显示 k/n 行".
pub open spec fn filter_status(b: BackendView, pattern: Seq<char>, is_regex: bool) -> Seq<char> {
    if is_regex && !regex_accepts(pattern) {
        "正则表达式错误: "@ + regex_error_text(pattern)
    } else {
        "过滤: 显示 "@ + decimal(filter_lines(b, pattern, is_regex).len()) + "/"@ + decimal(
            b.offsets.len(),
        ) + " 行"@
    }
}

/// The kept lines are among the first `n`, in increasing order.
proof fn lemma_kept_lines_shape(b: BackendView, pattern: Seq<char>, is_regex: bool, n: nat)
    ensures
        kept_lines(b, pattern, is_regex, n).len() <= n,
        forall|k: int|
            0 <= k < kept_lines(b, pattern, is_regex, n).len() ==> #[trigger] kept_lines(
                b,
                pattern,
                is_regex,
                n,
            )[k] < n,
    decreases n,
{
    if n > 0 {
        lemma_kept_lines_shape(b, pattern, is_regex, (n - 1) as nat);
    }
}

/// The lines of a backend that a filter shows, and the status it reports
/// (see `filter_lines` and `filter_status`).
pub fn filter_records(backend: &LogBackend, pattern: &str, is_regex: bool) -> (r: (
    Vec<u64>,
    String,
))
    ensures
        r.0@ == filter_lines(backend@, pattern@, is_regex),
        r.1@ == filter_status(backend@, pattern@, is_regex),
{
    let total = backend.record_count();
    let mut lines: Vec<u64> = Vec::new();
    if is_regex {
        let re = match compile_regex(pattern) {
            Ok(re) => re,
            Err(msg) => {
                let mut s = String::new();
                s.append("正则表达式错误: ");
                s.append(msg.as_str());
                return (lines, s);
            },
        };
        let mut i: u64 = 0;
        while i < total
            invariant
                total == backend@.offsets.len(),
                i <= total,
                re@ == pattern@,
                lines@ == kept_lines(backend@, pattern@, true, i as nat),
            decreases total - i,
        {
            match backend.record_at(i) {
                Some(rec) => {
                    if regex_is_match(&re, rec.raw.as_str()) {
                        lines.push(i);
                    }
                },
                None => {},
            }
            i = i + 1;
        }
    } else {
        let lower = pattern.to_lowercase();
        let needle = chars_of(lower.as_str());
        let mut i: u64 = 0;
        while i < total
            invariant
                total == backend@.offsets.len(),
                i <= total,
                needle@ == unicode_lowercase(pattern@),
                lines@ == kept_lines(backend@, pattern@, false, i as nat),
            decreases total - i,
        {
            match backend.record_at(i) {
                Some(rec) => {
                    let hay_text = rec.raw.as_str().to_lowercase();
                    let hay = chars_of(hay_text.as_str());
                    if contains_chars(&hay, &needle) {
                        lines.push(i);
                    }
                },
                None => {},
            }
            i = i + 1;
        }
    }
    proof {
        lemma_kept_lines_shape(backend@, pattern@, is_regex, total as nat);
    }
    let mut s = String::new();
    s.append("过滤: 显示 ");
    push_decimal(&mut s, lines.len() as u64);
    s.append("/");
    push_decimal(&mut s, total);
    s.append(" 行");
    (lines, s)
}

/// The backend the filter runs on: the active one, when the filter is on
/// and its pattern is not empty.
pub open spec fn filter_target(o: AppState) -> Option<BackendView> {
    if o.filter_enabled && o.filter_pattern@.len() > 0 {
        active_backend_of(o.sources@, o.active_source)
    } else {
        None
    }
}

/// `f` is `o` with the filter applied: the lines and the status it
/// reports, or no lines when it does not run.
pub open spec fn filter_applied(o: AppState, f: AppState) -> bool {
    match filter_target(o) {
        Some(b) => {
            &&& f.filtered_lines@ == filter_lines(b, o.filter_pattern@, o.filter_is_regex)
            &&& f.status_message@ == filter_status(b, o.filter_pattern@, o.filter_is_regex)
            &&& f == AppState {
                filtered_lines: f.filtered_lines,
                status_message: f.status_message,
                ..o
            }
        },
        None => {
            &&& f.filtered_lines@.len() == 0
            &&& f == AppState { filtered_lines: f.filtered_lines, ..o }
        },
    }
}

/// "<prefix>n 条匹配 (1/n)": the status after a search with `n` matches.
pub open spec fn found_status(prefix: Seq<char>, n: nat) -> Seq<char> {
    prefix + decimal(n) + " 条匹配 (1/"@ + decimal(n) + ")"@
}

/// The status after a search whose pattern is not a valid regex.
pub open spec fn search_error_status(q: crate::query::QueryView) -> Seq<char> {
    "搜索错误: "@ + regex_error_text(search_pattern(q))
}

/// `f` is `o` after "search the current source".
pub open spec fn searched_current(o: AppState, f: AppState) -> bool {
    if o.search_query.pattern@.len() == 0 {
        &&& f.search_results@.len() == 0
        &&& f.status_message@.len() == 0
        &&& f == AppState {
            search_results: f.search_results,
            status_message: f.status_message,
            current_match_index: None,
            scroll_to_line: None,
            ..o
        }
    } else {
        match active_backend_of(o.sources@, o.active_source) {
            None => {
                &&& f.status_message@ == no_file_status()
                &&& f == AppState { status_message: f.status_message, ..o }
            },
            Some(b) => match search_result(b, o.search_query@) {
                None => {
                    &&& f.status_message@ == search_error_status(o.search_query@)
                    &&& f.search_results@.len() == 0
                    &&& f == AppState {
                        status_message: f.status_message,
                        search_results: f.search_results,
                        current_match_index: None,
                        ..o
                    }
                },
                Some(hits) => {
                    &&& hits_view(f.search_results@) == hits
                    &&& f.filtered_lines@ == match filter_target(o) {
                        Some(fb) => filter_lines(fb, o.filter_pattern@, o.filter_is_regex),
                        None => o.filtered_lines@,
                    }
                    &&& if hits.len() > 0 {
                        &&& f.current_match_index == Some(0usize)
                        &&& f.scroll_to_line == Some(hits[0].record_index)
                        &&& f.status_message@ == found_status("搜索完成: "@, hits.len())
                    } else {
                        &&& f.current_match_index is None
                        &&& f.scroll_to_line == o.scroll_to_line
                        &&& f.status_message@ == "搜索完成: 0 条匹配"@
                    }
                    &&& f == AppState {
                        search_results: f.search_results,
                        filtered_lines: f.filtered_lines,
                        current_match_index: f.current_match_index,
                        scroll_to_line: f.scroll_to_line,
                        status_message: f.status_message,
                        ..o
                    }
                },
            },
        }
    }
}

/// What a quiet re-search finds: the hits in the active source, when the
/// pattern is not empty, a source is active and the pattern is valid.
pub open spec fn quiet_search_hits(o: AppState) -> Option<Seq<HitView>> {
    if o.search_query.pattern@.len() == 0 {
        None
    } else {
        match active_backend_of(o.sources@, o.active_source) {
            Some(b) => search_result(b, o.search_query@),
            None => None,
        }
    }
}

/// `f` is `o` after a quiet re-search: new results (and the first match
/// made current if none was), leaving the scroll position and the status
/// alone; nothing changes when the search does not run or fails.
pub open spec fn researched(o: AppState, f: AppState) -> bool {
    match quiet_search_hits(o) {
        None => f == o,
        Some(hits) => {
            &&& hits_view(f.search_results@) == hits
            &&& f.current_match_index == if hits.len() > 0 && o.current_match_index is None {
                Some(0usize)
            } else {
                o.current_match_index
            }
            &&& f == AppState {
                search_results: f.search_results,
                current_match_index: f.current_match_index,
                ..o
            }
        },
    }
}

/// Whether the workspace search covers a source: every source when no
/// workspace is open, else those whose path is the same path as one of the
/// workspace's files.
pub open spec fn source_in_scope(ws: Option<Workspace>, src: LogSource) -> bool {
    match ws {
        Some(w) => has_path(strings_view(w.log_files@), src.path@),
        None => true,
    }
}

/// The hits of the sources in scope among the first `k`, one source after
/// the other; none when the search of one of them fails.
pub open spec fn workspace_hits(
    sources: Seq<LogSource>,
    ws: Option<Workspace>,
    q: QueryView,
    k: nat,
) -> Option<Seq<HitView>>
    decreases k,
{
    if k == 0 {
        Some(Seq::empty())
    } else {
        match workspace_hits(sources, ws, q, (k - 1) as nat) {
            None => None,
            Some(prev) => if source_in_scope(ws, sources[k - 1]) {
                match search_result(sources[k - 1].backend@, q) {
                    Some(h) => Some(prev + h),
                    None => None,
                }
            } else {
                Some(prev)
            },
        }
    }
}

/// Once a search has failed, the workspace search fails.
proof fn lemma_workspace_hits_fail(
    sources: Seq<LogSource>,
    ws: Option<Workspace>,
    q: QueryView,
    k: nat,
    n: nat,
)
    requires
        k <= n,
        workspace_hits(sources, ws, q, k) is None,
    ensures
        workspace_hits(sources, ws, q, n) is None,
    decreases n - k,
{
    if k < n {
        lemma_workspace_hits_fail(sources, ws, q, k + 1, n);
    }
}

/// `f` is `o` after "search the workspace": the hits of every source in
/// scope, listed by source identifier and record index, the first one made
/// current (its source active and its line scrolled to), and a status that
/// reports the count; only the status changes when a search fails.
pub open spec fn searched_workspace(o: AppState, f: AppState) -> bool {
    if o.search_query.pattern@.len() == 0 {
        &&& f.search_results@.len() == 0
        &&& f.status_message@.len() == 0
        &&& f == AppState {
            search_results: f.search_results,
            status_message: f.status_message,
            current_match_index: None,
            scroll_to_line: None,
            ..o
        }
    } else {
        match workspace_hits(
            o.sources@,
            o.current_workspace,
            o.search_query@,
            o.sources@.len(),
        ) {
            None => {
                &&& f.status_message@ == search_error_status(o.search_query@)
                &&& f == AppState { status_message: f.status_message, ..o }
            },
            Some(all) => {
                let r = hits_view(f.search_results@);
                &&& r.to_multiset() == all.to_multiset()
                &&& listed_in_order(r)
                &&& forall|k: HitView| #[trigger] with_key(r, k) == with_key(all, k)
                &&& if all.len() > 0 {
                    &&& f.current_match_index == Some(0usize)
                    &&& f.scroll_to_line == Some(r[0].record_index)
                    &&& f.active_source == active_after_switch(
                        o.sources@,
                        r[0].source_id,
                        o.active_source,
                    )
                    &&& f.status_message@ == found_status("搜索工作区: "@, all.len())
                } else {
                    &&& r.len() == 0
                    &&& f.current_match_index is None
                    &&& f.scroll_to_line == o.scroll_to_line
                    &&& f.active_source == o.active_source
                    &&& f.status_message@ == "搜索工作区: 0 条匹配"@
                }
                &&& f == AppState {
                    search_results: f.search_results,
                    current_match_index: f.current_match_index,
                    scroll_to_line: f.scroll_to_line,
                    active_source: f.active_source,
                    status_message: f.status_message,
                    ..o
                }
            },
        }
    }
}

/// `f` is `o` with the filter applied and then searched again quietly.
pub open spec fn filtered_and_researched(o: AppState, f: AppState) -> bool {
    let m = AppState { filtered_lines: f.filtered_lines, status_message: f.status_message, ..o };
    &&& filter_applied(o, m)
    &&& researched(m, f)
}

/// Filtering keeps the view where it was: after applying the filter (and
/// the quiet search that follows) the scroll position, the search, the
/// open sources and the active one are as before.
pub proof fn law_filter_keeps_position(o: AppState, f: AppState)
    requires
        filtered_and_researched(o, f),
    ensures
        f.scroll_to_line == o.scroll_to_line,
        f.search_query == o.search_query,
        f.sources == o.sources,
        f.active_source == o.active_source,
{
}

/// "<prefix>n 条匹配 (1/n)".
fn found_status_text(prefix: &str, n: usize) -> (s: String)
    ensures
        s@ == found_status(prefix@, n as nat),
{
    let mut s = String::new();
    s.append(prefix);
    push_decimal(&mut s, n as u64);
    s.append(" 条匹配 (1/");
    push_decimal(&mut s, n as u64);
    s.append(")");
    s
}

/// "<prefix><message>".
fn prefixed(prefix: &str, message: &str) -> (s: String)
    ensures
        s@ == prefix@ + message@,
{
    let mut s = String::new();
    s.append(prefix);
    s.append(message);
    s
}

/// The index of the first source with identifier `id`, if any.
pub(crate) fn find_source(sources: &Vec<LogSource>, id: &SourceId) -> (r: Option<usize>)
    ensures
        r matches Some(i) ==> i < sources@.len() && first_source_from(sources@, id@, 0) == Some(
            i as int,
        ),
        match first_source_from(sources@, id@, 0) {
            Some(i) => r == Some(i as usize),
            None => r is None,
        },
{
    let mut i: usize = 0;
    while i < sources.len()
        invariant
            i <= sources@.len(),
            first_source_from(sources@, id@, 0) == first_source_from(sources@, id@, i as int),
        decreases sources@.len() - i,
    {
        if sources[i].id.same_as(id) {
            return Some(i);
        }
        i = i + 1;
    }
    None
}

impl AppState {
    /// The state with nothing open: no sources, an empty case-insensitive
    /// plain search, the default session, the light theme, no filter, no
    /// workspace, and every panel and dialog closed.
    pub fn new() -> (s: Self)
        ensures
            s.sources@.len() == 0,
            s.active_source is None,
            s.search_query.pattern@.len() == 0,
            !s.search_query.is_regex,
            s.search_query.case_insensitive,
            !s.search_query.whole_word,
            s.search_query.field_filters@.len() == 0,
            s.search_results@.len() == 0,
            s.status_message@.len() == 0,
            s.theme == ThemeMode::Light,
            s.filter_pattern@.len() == 0,
            !s.filter_enabled,
            !s.filter_is_regex,
            s.filtered_lines@.len() == 0,
            s.current_workspace is None,
            s.available_workspaces@.len() == 0,
            s.current_match_index is None,
            s.scroll_to_line is None,
            s.selected_search_result is None,
            !s.show_search_results && !s.show_structured_view && !s.show_font_settings,
            !s.show_new_workspace_dialog && !s.auto_refresh && !s.show_update_dialog,
            !s.show_clear_confirm_dialog,
            s.new_workspace_name@.len() == 0,
            s.file_sizes@.len() == 0,
    {
        Self::with_sources(Vec::new(), None, Vec::new())
    }

    /// The state at start-up with the given open sources (the first one
    /// active, if any), workspace and list of saved workspaces; otherwise as
    /// `new`.
    pub fn with_sources(
        sources: Vec<LogSource>,
        current_workspace: Option<Workspace>,
        available_workspaces: Vec<String>,
    ) -> (s: Self)
        ensures
            s.sources@ == sources@,
            s.active_source == if sources@.len() == 0 {
                None::<usize>
            } else {
                Some(0usize)
            },
            s.current_workspace == current_workspace,
            s.available_workspaces@ == available_workspaces@,
            s.search_query.pattern@.len() == 0,
            !s.search_query.is_regex,
            s.search_query.case_insensitive,
            !s.search_query.whole_word,
            s.search_query.field_filters@.len() == 0,
            s.search_results@.len() == 0,
            s.status_message@.len() == 0,
            s.theme == ThemeMode::Light,
            s.filter_pattern@.len() == 0,
            !s.filter_enabled,
            !s.filter_is_regex,
            s.filtered_lines@.len() == 0,
            s.current_match_index is None,
            s.scroll_to_line is None,
            s.selected_search_result is None,
            !s.show_search_results && !s.show_structured_view && !s.show_font_settings,
            !s.show_new_workspace_dialog && !s.auto_refresh && !s.show_update_dialog,
            !s.show_clear_confirm_dialog,
            s.new_workspace_name@.len() == 0,
            s.file_sizes@.len() == 0,
            s.wf(),
    {
        let active_source = if sources.len() == 0 {
            None
        } else {
            Some(0)
        };
        let filters: Vec<FieldFilter> = Vec::new();
        AppState {
            sources,
            active_source,
            search_query: SearchQuery {
                pattern: String::new(),
                is_regex: false,
                case_insensitive: true,
                whole_word: false,
                field_filters: filters,
            },
            search_results: Vec::new(),
            session: Session::default_session(),
            show_structured_view: false,
            status_message: String::new(),
            theme: ThemeMode::Light,
            show_search_results: false,
            selected_search_result: None,
            scroll_to_line: None,
            current_match_index: None,
            show_font_settings: false,
            filter_pattern: String::new(),
            filter_enabled: false,
            filter_is_regex: false,
            filtered_lines: Vec::new(),
            current_workspace,
            available_workspaces,
            show_new_workspace_dialog: false,
            new_workspace_name: String::new(),
            auto_refresh: false,
            show_update_dialog: false,
            file_sizes: Vec::new(),
            show_clear_confirm_dialog: false,
        }
    }

    /// The active-source index fits the open sources.
    pub open spec fn wf(&self) -> bool {
        active_fits(self.active_source, self.sources@.len())
    }

    /// Switch between the dark and the light theme.
    pub fn toggle_theme(&mut self)
        ensures
            *final(self) == (AppState { theme: other_theme(old(self).theme), ..*old(self) }),
    {
        self.theme = self.theme.toggled();
    }

    /// Open one more source; the first source becomes active if none was.
    pub fn add_source(&mut self, source: LogSource)
        ensures
            final(self).sources@ == old(self).sources@.push(source),
            final(self).active_source == match old(self).active_source {
                None => Some(0usize),
                Some(i) => Some(i),
            },
            old(self).wf() ==> final(self).wf(),
            *final(self) == (AppState {
                sources: final(self).sources,
                active_source: final(self).active_source,
                ..*old(self)
            }),
    {
        self.sources.push(source);
        if self.active_source.is_none() {
            self.active_source = Some(0);
        }
    }

    /// Close source `index` (nothing happens for an index past the end); the
    /// active source becomes the one now at `index`, or the last one, or
    /// none when no source is left.
    pub fn remove_source(&mut self, index: usize)
        ensures
            index >= old(self).sources@.len() ==> *final(self) == *old(self),
            index < old(self).sources@.len() ==> {
                &&& final(self).sources@ == old(self).sources@.remove(index as int)
                &&& final(self).active_source == if final(self).sources@.len() == 0 {
                    None::<usize>
                } else if index < final(self).sources@.len() {
                    Some(index)
                } else {
                    Some((final(self).sources@.len() - 1) as usize)
                }
            },
            index < old(self).sources@.len() ==> final(self).wf(),
            old(self).wf() ==> final(self).wf(),
            *final(self) == (AppState {
                sources: final(self).sources,
                active_source: final(self).active_source,
                ..*old(self)
            }),
    {
        if index < self.sources.len() {
            self.sources.remove(index);
            self.active_source = if self.sources.len() == 0 {
                None
            } else if index < self.sources.len() - 1 {
                Some(index)
            } else {
                Some(self.sources.len() - 1)
            };
        }
    }

    /// Make source `index` active, if there is such a source.
    pub fn set_active(&mut self, index: usize)
        ensures
            *final(self) == if index < old(self).sources@.len() {
                AppState { active_source: Some(index), ..*old(self) }
            } else {
                *old(self)
            },
            old(self).wf() ==> final(self).wf(),
    {
        if index < self.sources.len() {
            self.active_source = Some(index);
        }
    }

    /// The backend of the active source, if there is one.
    pub fn active_backend(&self) -> (r: Option<&LogBackend>)
        ensures
            match self.active_source {
                Some(i) => if i < self.sources@.len() {
                    r matches Some(b) && b@ == self.sources@[i as int].backend@
                } else {
                    r is None
                },
                None => r is None,
            },
    {
        match self.active_source {
            Some(i) => if i < self.sources.len() {
                Some(&*self.sources[i].backend)
            } else {
                None
            },
            None => None,
        }
    }

    /// The identifier of the active source, if there is one.
    pub fn active_source_id(&self) -> (r: Option<&SourceId>)
        ensures
            match self.active_source {
                Some(i) => if i < self.sources@.len() {
                    r matches Some(id) && id@ == self.sources@[i as int].id@
                } else {
                    r is None
                },
                None => r is None,
            },
    {
        match self.active_source {
            Some(i) => if i < self.sources.len() {
                Some(&self.sources[i].id)
            } else {
                None
            },
            None => None,
        }
    }

    /// Whether the active source is JSON Lines or CSV.
    pub fn is_structured_format(&self) -> (r: bool)
        ensures
            r == match self.active_source {
                Some(i) => i < self.sources@.len() && (self.sources@[i as int].format
                    == LogFormat::Jsonl || self.sources@[i as int].format == LogFormat::Csv),
                None => false,
            },
    {
        match self.active_source {
            Some(i) => if i < self.sources.len() {
                match self.sources[i].format {
                    LogFormat::Jsonl => true,
                    LogFormat::Csv => true,
                    LogFormat::Text => false,
                }
            } else {
                false
            },
            None => false,
        }
    }

    /// The number of records over all open sources.
    pub fn total_records(&self) -> (n: u64)
        requires
            records_total(self.sources@) <= u64::MAX,
        ensures
            n == records_total(self.sources@),
    {
        let mut total: u64 = 0;
        let mut i: usize = 0;
        while i < self.sources.len()
            invariant
                i <= self.sources@.len(),
                records_total(self.sources@) <= u64::MAX,
                total == records_total(self.sources@.take(i as int)),
            decreases self.sources@.len() - i,
        {
            proof {
                assert(self.sources@.take(i + 1).drop_last() =~= self.sources@.take(i as int));
                lemma_records_total_prefix(self.sources@, i + 1);
            }
            total = total + self.sources[i].backend.record_count();
            i = i + 1;
        }
        assert(self.sources@.take(i as int) =~= self.sources@);
        total
    }

    /// Make active the first source with the identifier of match
    /// `match_index` (nothing happens when there is no such match or source).
    fn switch_to_source_of_match(&mut self, match_index: usize)
        ensures
            *final(self) == if match_index < old(self).search_results@.len() {
                AppState {
                    active_source: active_after_switch(
                        old(self).sources@,
                        old(self).search_results@[match_index as int].source_id@,
                        old(self).active_source,
                    ),
                    ..*old(self)
                }
            } else {
                *old(self)
            },
    {
        if match_index < self.search_results.len() {
            match find_source(&self.sources, &self.search_results[match_index].source_id) {
                Some(i) => {
                    self.active_source = Some(i);
                },
                None => {},
            }
        }
    }

    /// Step to the next search match (wrapping around; the first when none is
    /// current), scroll to its line, switch to its source and report
    /// "匹配 k/n". Nothing happens without matches.
    #[verifier::rlimit(30)]
    pub fn navigate_next(&mut self)
        ensures
            old(self).search_results@.len() == 0 ==> *final(self) == *old(self),
            old(self).search_results@.len() > 0 ==> {
                let n = old(self).search_results@.len();
                let k = next_match_index(old(self).current_match_index, n);
                &&& final(self).current_match_index == Some(k as usize)
                &&& final(self).scroll_to_line == Some(
                    old(self).search_results@[k as int].record_index,
                )
                &&& final(self).active_source == active_after_switch(
                    old(self).sources@,
                    old(self).search_results@[k as int].source_id@,
                    old(self).active_source,
                )
                &&& final(self).status_message@ == match_status(k + 1, n)
                &&& *final(self) == (AppState {
                    current_match_index: final(self).current_match_index,
                    scroll_to_line: final(self).scroll_to_line,
                    active_source: final(self).active_source,
                    status_message: final(self).status_message,
                    ..*old(self)
                })
            },
            old(self).wf() ==> final(self).wf(),
    {
        let n_sources = self.sources.len();
        let n = self.search_results.len();
        if n == 0 {
            return;
        }
        let next = match self.current_match_index {
            Some(current) => (current % n + 1) % n,
            None => 0,
        };
        proof {
            if let Some(c) = old(self).current_match_index {
                let ci = c as int;
                let ni = n as int;
                assert((ci % ni + 1) % ni == (ci + 1) % ni) by (nonlinear_arith)
                    requires
                        ni > 0,
                        ci >= 0,
                ;
            }
        }
        self.current_match_index = Some(next);
        self.scroll_to_line = Some(self.search_results[next].record_index);
        self.switch_to_source_of_match(next);
        self.status_message = Self::match_status_text(next, n);
        proof {
            if old(self).wf() {
                assert(old(self).sources@.len() == n_sources);
                lemma_switch_fits(old(self).sources@, old(self).search_results@[next as int].source_id@, old(self).active_source);
            }
        }
    }

    /// Step to the previous search match (wrapping around; the last when none
    /// is current), scroll to its line, switch to its source and report
    /// "匹配 k/n". Nothing happens without matches.
    #[verifier::rlimit(30)]
    pub fn navigate_previous(&mut self)
        requires
            old(self).current_match_index matches Some(c) ==> c <= old(self).search_results@.len(),
        ensures
            old(self).search_results@.len() == 0 ==> *final(self) == *old(self),
            old(self).search_results@.len() > 0 ==> {
                let n = old(self).search_results@.len();
                let k = previous_match_index(old(self).current_match_index, n);
                &&& final(self).current_match_index == Some(k as usize)
                &&& final(self).scroll_to_line == Some(
                    old(self).search_results@[k as int].record_index,
                )
                &&& final(self).active_source == active_after_switch(
                    old(self).sources@,
                    old(self).search_results@[k as int].source_id@,
                    old(self).active_source,
                )
                &&& final(self).status_message@ == match_status(k + 1, n)
                &&& *final(self) == (AppState {
                    current_match_index: final(self).current_match_index,
                    scroll_to_line: final(self).scroll_to_line,
                    active_source: final(self).active_source,
                    status_message: final(self).status_message,
                    ..*old(self)
                })
            },
            old(self).wf() ==> final(self).wf(),
    {
        let n_sources = self.sources.len();
        let n = self.search_results.len();
        if n == 0 {
            return;
        }
        let prev = match self.current_match_index {
            Some(current) => if current == 0 {
                n - 1
            } else {
                current - 1
            },
            None => n - 1,
        };
        self.current_match_index = Some(prev);
        self.scroll_to_line = Some(self.search_results[prev].record_index);
        self.switch_to_source_of_match(prev);
        self.status_message = Self::match_status_text(prev, n);
        proof {
            if old(self).wf() {
                assert(old(self).sources@.len() == n_sources);
                lemma_switch_fits(old(self).sources@, old(self).search_results@[prev as int].source_id@, old(self).active_source);
            }
        }
    }

    /// "匹配 k/n" for match `index` (0-based) of `n`.
    fn match_status_text(index: usize, n: usize) -> (s: String)
        requires
            index < n,
        ensures
            s@ == match_status(index as nat + 1, n as nat),
    {
        let mut s = String::new();
        s.append("匹配 ");
        push_decimal(&mut s, index as u64 + 1);
        s.append("/");
        push_decimal(&mut s, n as u64);
        s
    }

    /// Whether line `line_index` is shown: every line is when no filter is
    /// active, otherwise only the lines the filter kept.
    pub fn is_line_visible(&self, line_index: u64) -> (r: bool)
        ensures
            r == (!self.filter_enabled || self.filter_pattern@.len() == 0
                || self.filtered_lines@.contains(line_index)),
    {
        if !self.filter_enabled || self.filter_pattern.as_str().is_empty() {
            return true;
        }
        let mut i: usize = 0;
        while i < self.filtered_lines.len()
            invariant
                i <= self.filtered_lines@.len(),
                forall|j: int| 0 <= j < i ==> self.filtered_lines@[j] != line_index,
            decreases self.filtered_lines@.len() - i,
        {
            if self.filtered_lines[i] == line_index {
                return true;
            }
            i = i + 1;
        }
        false
    }

    /// The number of lines shown: all records of the active source without
    /// an active filter (0 without an active source), else the number of
    /// lines the filter kept.
    pub fn visible_line_count(&self) -> (n: usize)
        ensures
            n == if !self.filter_enabled || self.filter_pattern@.len() == 0 {
                match self.active_source {
                    Some(i) => if i < self.sources@.len() {
                        self.sources@[i as int].backend@.offsets.len()
                    } else {
                        0
                    },
                    None => 0,
                }
            } else {
                self.filtered_lines@.len()
            },
    {
        if !self.filter_enabled || self.filter_pattern.as_str().is_empty() {
            match self.active_backend() {
                Some(b) => b.record_count() as usize,
                None => 0,
            }
        } else {
            self.filtered_lines.len()
        }
    }

    /// Ask for confirmation before clearing the active log file (or report
    /// that none is open).
    pub fn request_clear_log(&mut self)
        ensures
            old(self).active_source is Some ==> *final(self) == (AppState {
                show_clear_confirm_dialog: true,
                ..*old(self)
            }),
            old(self).active_source is None ==> {
                &&& final(self).status_message@ == no_file_status()
                &&& *final(self) == (AppState { status_message: final(self).status_message, ..*old(self) })
            },
    {
        if self.active_source.is_some() {
            self.show_clear_confirm_dialog = true;
        } else {
            self.status_message = String::from_str("没有打开的日志文件");
        }
    }

    /// Dismiss the clear confirmation.
    pub fn cancel_clear_log(&mut self)
        ensures
            *final(self) == (AppState { show_clear_confirm_dialog: false, ..*old(self) }),
    {
        self.show_clear_confirm_dialog = false;
    }

    /// Recompute the lines the filter shows for the active source and report
    /// them (see `filter_applied`).
    pub(crate) fn apply_filter_internal(&mut self)
        ensures
            filter_applied(*old(self), *final(self)),
    {
        self.filtered_lines.clear();
        if !self.filter_enabled || self.filter_pattern.as_str().is_empty() {
            return;
        }
        let (lines, status) = match self.active_backend() {
            Some(b) => filter_records(b, self.filter_pattern.as_str(), self.filter_is_regex),
            None => {
                return;
            },
        };
        self.filtered_lines = lines;
        self.status_message = status;
    }

    /// Search the active source (see `searched_current`): the matches in
    /// record order, the filter re-applied when it is on, the first match
    /// made current and scrolled to, and a status that reports the count or
    /// the error.
    #[verifier::rlimit(40)]
    pub fn search_current(&mut self)
        ensures
            searched_current(*old(self), *final(self)),
            active_backend_of(old(self).sources@, old(self).active_source) is Some
                ==> in_record_order(hits_view(final(self).search_results@)),
    {
        if self.search_query.pattern.as_str().is_empty() {
            self.search_results.clear();
            self.status_message = String::new();
            self.current_match_index = None;
            self.scroll_to_line = None;
            return;
        }
        let outcome = match self.active_backend() {
            Some(b) => QueryEngine::search(b, &self.search_query),
            None => {
                self.status_message = String::from_str("没有打开的日志文件");
                return;
            },
        };
        match outcome {
            Ok(hits) => {
                self.search_results = hits;
                if self.filter_enabled && !self.filter_pattern.as_str().is_empty() {
                    self.apply_filter_internal();
                }
                let n = self.search_results.len();
                if n > 0 {
                    self.current_match_index = Some(0);
                    self.scroll_to_line = Some(self.search_results[0].record_index);
                    self.status_message = found_status_text("搜索完成: ", n);
                } else {
                    self.current_match_index = None;
                    self.status_message = String::from_str("搜索完成: 0 条匹配");
                }
            },
            Err(e) => {
                let msg = e.message();
                self.status_message = prefixed("搜索错误: ", msg.as_str());
                self.search_results.clear();
                self.current_match_index = None;
            },
        }
    }

    /// Search the active source again without moving the view (see
    /// `researched`).
    pub(crate) fn search_current_no_scroll(&mut self)
        ensures
            researched(*old(self), *final(self)),
    {
        if self.search_query.pattern.as_str().is_empty() {
            return;
        }
        let outcome = match self.active_backend() {
            Some(b) => QueryEngine::search(b, &self.search_query),
            None => {
                return;
            },
        };
        match outcome {
            Ok(hits) => {
                self.search_results = hits;
                if self.search_results.len() > 0 && self.current_match_index.is_none() {
                    self.current_match_index = Some(0);
                }
            },
            Err(_) => {},
        }
    }

    /// Apply the filter to the active source, then search it again quietly
    /// when there is a search pattern.
    pub fn apply_filter(&mut self)
        ensures
            filtered_and_researched(*old(self), *final(self)),
    {
        self.apply_filter_internal();
        if !self.search_query.pattern.as_str().is_empty() {
            self.search_current_no_scroll();
        }
    }

    /// Search every source of the current workspace (every open source when
    /// no workspace is open); see `searched_workspace`.
    #[verifier::rlimit(40)]
    pub fn search_workspace(&mut self)
        ensures
            searched_workspace(*old(self), *final(self)),
            old(self).wf() ==> final(self).wf(),
    {
        if self.search_query.pattern.as_str().is_empty() {
            self.search_results.clear();
            self.status_message = String::new();
            self.current_match_index = None;
            self.scroll_to_line = None;
            return;
        }
        let ghost q = self.search_query@;
        let mut all: Vec<SearchHit> = Vec::new();
        let mut i: usize = 0;
        while i < self.sources.len()
            invariant
                i <= self.sources@.len(),
                self.search_query@ == q,
                self == old(self),
                old(self).search_query.pattern@.len() > 0,
                workspace_hits(self.sources@, self.current_workspace, q, i as nat) == Some(
                    hits_view(all@),
                ),
            decreases self.sources@.len() - i,
        {
            let in_scope = match &self.current_workspace {
                Some(ws) => contains_path(&ws.log_files, &self.sources[i].path),
                None => true,
            };
            if in_scope {
                let outcome = QueryEngine::search(&*self.sources[i].backend, &self.search_query);
                match outcome {
                    Ok(hits) => {
                        let ghost before = hits_view(all@);
                        let mut more = hits;
                        let ghost found = hits_view(more@);
                        all.append(&mut more);
                        assert(hits_view(all@) =~= before + found);
                    },
                    Err(e) => {
                        proof {
                            lemma_workspace_hits_fail(
                                self.sources@,
                                self.current_workspace,
                                q,
                                (i + 1) as nat,
                                self.sources@.len(),
                            );
                        }
                        let msg = e.message();
                        self.status_message = prefixed("搜索错误: ", msg.as_str());
                        return;
                    },
                }
            }
            i = i + 1;
        }
        let sorted = sort_hits(&all);
        self.search_results = sorted;
        let n = self.search_results.len();
        proof {
            vstd::seq_lib::to_multiset_len(hits_view(all@));
            vstd::seq_lib::to_multiset_len(hits_view(self.search_results@));
            assert(hits_view(all@).len() == n);
        }
        if n > 0 {
            self.current_match_index = Some(0);
            self.scroll_to_line = Some(self.search_results[0].record_index);
            self.switch_to_source_of_match(0);
            self.status_message = found_status_text("搜索工作区: ", n);
            proof {
                if old(self).wf() {
                    lemma_switch_fits(
                        old(self).sources@,
                        self.search_results@[0]@.source_id,
                        old(self).active_source,
                    );
                }
            }
        } else {
            self.current_match_index = None;
            self.status_message = String::from_str("搜索工作区: 0 条匹配");
        }
    }

    /// Search all sources (the workspace search).
    pub fn search_all(&mut self)
        ensures
            searched_workspace(*old(self), *final(self)),
            old(self).wf() ==> final(self).wf(),
    {
        self.search_workspace();
    }

    /// Go to a search result: make its source active (the first with its
    /// identifier, if any), scroll to its line and report
    /// "跳转到 name 第 k 行".
    pub fn jump_to_result(&mut self, item: &SearchResultItem)
        requires
            item.line_number < u64::MAX,
        ensures
            final(self).active_source == active_after_switch(
                old(self).sources@,
                item.hit.source_id@,
                old(self).active_source,
            ),
            final(self).scroll_to_line == Some(item.line_number),
            final(self).status_message@ == "跳转到 "@ + item.source_name@ + " 第 "@ + decimal(
                item.line_number as nat + 1,
            ) + " 行"@,
            *final(self) == (AppState {
                active_source: final(self).active_source,
                scroll_to_line: final(self).scroll_to_line,
                status_message: final(self).status_message,
                ..*old(self)
            }),
            old(self).wf() ==> final(self).wf(),
    {
        let n_sources = self.sources.len();
        match find_source(&self.sources, &item.hit.source_id) {
            Some(i) => {
                self.active_source = Some(i);
            },
            None => {},
        }
        self.scroll_to_line = Some(item.line_number);
        let mut s = String::new();
        s.append("跳转到 ");
        s.append(item.source_name.as_str());
        s.append(" 第 ");
        push_decimal(&mut s, item.line_number + 1);
        s.append(" 行");
        self.status_message = s;
        proof {
            if old(self).wf() {
                assert(old(self).sources@.len() == n_sources);
                lemma_switch_fits(old(self).sources@, item.hit.source_id@, old(self).active_source);
            }
        }
    }
}

/// Stepping to the next match and then to the previous one (or the other
/// way round) comes back to the match one started from.
pub proof fn law_next_previous_inverse(c: usize, n: nat)
    requires
        c < n,
        n <= usize::MAX,
    ensures
        previous_match_index(Some(next_match_index(Some(c), n) as usize), n) == c,
        next_match_index(Some(previous_match_index(Some(c), n) as usize), n) == c,
{
    broadcast use vstd::arithmetic::div_mod::lemma_mod_self_0;

    if c + 1 < n {
        vstd::arithmetic::div_mod::lemma_small_mod((c + 1) as nat, n);
    } else {
        assert((c + 1) as int % (n as int) == 0);
    }
    if c > 0 {
        vstd::arithmetic::div_mod::lemma_small_mod(c as nat, n);
    } else {
        assert(((n - 1) + 1) as int % (n as int) == 0);
    }
}

/// The first source with an identifier lies among the sources.
proof fn lemma_first_source_in_range(sources: Seq<LogSource>, id: Seq<char>, i: int)
    requires
        0 <= i,
    ensures
        first_source_from(sources, id, i) matches Some(k) ==> i <= k < sources.len(),
    decreases sources.len() - i,
{
    if i < sources.len() && sources[i].id@ != id {
        lemma_first_source_in_range(sources, id, i + 1);
    }
}

/// Switching to a match's source keeps the active index fitting.
proof fn lemma_switch_fits(sources: Seq<LogSource>, id: Seq<char>, active: Option<usize>)
    requires
        active_fits(active, sources.len()),
        sources.len() <= usize::MAX,
    ensures
        active_fits(active_after_switch(sources, id, active), sources.len()),
{
    lemma_first_source_in_range(sources, id, 0);
}

/// The record total of a prefix grows by the next source's count.
proof fn lemma_records_total_prefix(sources: Seq<LogSource>, k: int)
    requires
        0 < k <= sources.len(),
    ensures
        records_total(sources.take(k)) == records_total(sources.take(k - 1))
            + sources[k - 1].backend@.offsets.len(),
        records_total(sources.take(k)) <= records_total(sources),
{
    assert(sources.take(k).drop_last() =~= sources.take(k - 1));
    lemma_records_total_monotone(sources, k);
}

proof fn lemma_records_total_monotone(sources: Seq<LogSource>, k: int)
    requires
        0 <= k <= sources.len(),
    ensures
        records_total(sources.take(k)) <= records_total(sources),
    decreases sources.len() - k,
{
    if k < sources.len() {
        lemma_records_total_monotone(sources, k + 1);
        assert(sources.take(k + 1).drop_last() =~= sources.take(k));
    } else {
        assert(sources.take(k) =~= sources);
    }
}

} // verus!
