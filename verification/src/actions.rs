//! The viewer's workspace and file actions, as changes of the application
//! state: opening files into the current workspace, loading, creating,
//! closing, clearing and deleting workspaces. Reading and writing files is
//! left to the caller, which hands in what it read.

use vstd::prelude::*;
use std::sync::Arc;
use crate::backend::{BackendView, LogBackend, backend_record};
use crate::domain::{LogFormat, SourceId, format_of_lowercase_extension};
use crate::parser::strings_view;
use crate::query::SearchQuery;
use crate::refresh::recorded_size;
use crate::state::{AppState, DEFAULT_WORKSPACE_NAME, LogSource, active_backend_of, first_path_from, no_file_status};
use crate::ordering::{sort_texts, texts_in_order};
use crate::text::{chars_of, decimal, push_decimal, string_of_range, unicode_lowercase};
use crate::workspace::{
    Workspace, contains_string, dir_added, file_added, paths_equal, retain_not_equal, same_path,
    without, without_path,
};

verus! {

/// Whether a file extension names a log format (compared without regard to
/// case).
pub fn is_log_extension(ext: &str) -> (r: bool)
    ensures
        r == format_of_lowercase_extension(unicode_lowercase(ext@)) is Some,
{
    LogFormat::from_extension(ext).is_some()
}

/// The state with nothing open and the search and filter reset: what
/// closing, loading and clearing a workspace have in common.
pub open spec fn emptied(o: AppState, f: AppState) -> bool {
    &&& f.sources@.len() == 0
    &&& f.active_source is None
    &&& f.search_results@.len() == 0
    &&& f.search_query.pattern@.len() == 0
    &&& f.search_query == (SearchQuery { pattern: f.search_query.pattern, ..o.search_query })
    &&& f.current_match_index is None
    &&& f.scroll_to_line is None
}

/// As `emptied`, and the results panel, the selection and the filter reset
/// too.
pub open spec fn emptied_all(o: AppState, f: AppState) -> bool {
    &&& emptied(o, f)
    &&& f.selected_search_result is None
    &&& !f.show_search_results
    &&& f.filtered_lines@.len() == 0
    &&& f.filter_pattern@.len() == 0
    &&& !f.filter_enabled
}

/// What became of clearing the active log file, as the caller saw it.
pub enum ClearOutcome {
    /// The file was emptied and read again into this backend.
    Reopened(LogBackend),
    /// The file was emptied but reading it again failed (with the message).
    ReopenFailed(String),
    /// Emptying the file failed (with the message); the file was read again
    /// anyway into this backend, if that worked.
    TruncateFailed(String, Option<LogBackend>),
}

/// The source reopened after clearing: identified by its path, with the
/// cleared source's path, name and format and the new backend.
pub open spec fn reopened_source(s: LogSource, path: Seq<char>, name: Seq<char>, format: LogFormat, b: BackendView) -> bool {
    &&& s.id@ == path
    &&& s.path@ == path
    &&& s.name@ == name
    &&& s.format == format
    &&& s.backend@ == b
}

/// What `begin_clear_log` does to the state `old`, giving `new` and
/// returning `r`.
pub open spec fn clear_begun(old: AppState, new: AppState, r: Option<(String, LogFormat, SourceId, String)>) -> bool {
    match old.active_source {
        Some(i) if i < old.sources@.len() => {
            let src = old.sources@[i as int];
            &&& r matches Some((path, format, id, name)) && path@ == src.path@ && format
                == src.format && id@ == src.id@ && name@ == src.name@
            &&& new.sources@ == old.sources@.remove(i as int)
            &&& new.active_source == if new.sources@.len() == 0 {
                None::<usize>
            } else {
                Some(0usize)
            }
            &&& new == (AppState {
                sources: new.sources,
                active_source: new.active_source,
                show_clear_confirm_dialog: false,
                ..old
            })
        },
        _ => {
            &&& r is None
            &&& new == (AppState {
                show_clear_confirm_dialog: false,
                ..old
            })
        },
    }
}

/// What `finish_clear_log` does to the state `old` for the file at `path`
/// (with `format` and `name`) and the outcome, giving `new`.
pub open spec fn clear_finished(
    old: AppState,
    new: AppState,
    path: Seq<char>,
    format: LogFormat,
    name: Seq<char>,
    outcome: ClearOutcome,
) -> bool {
    match outcome {
        ClearOutcome::Reopened(b) => {
            &&& new.sources@.len() == old.sources@.len() + 1
            &&& new.sources@.drop_last() == old.sources@
            &&& reopened_source(new.sources@.last(), path, name, format, b@)
            &&& new.active_source == match old.active_source {
                None => Some(0usize),
                Some(i) => Some(i),
            }
            &&& new.search_results@.len() == 0
            &&& new.filtered_lines@.len() == 0
            &&& new.status_message@ == "已清空: "@ + name
            &&& new == (AppState {
                sources: new.sources,
                active_source: new.active_source,
                search_results: new.search_results,
                current_match_index: None,
                scroll_to_line: None,
                filtered_lines: new.filtered_lines,
                status_message: new.status_message,
                ..old
            })
        },
        ClearOutcome::ReopenFailed(e) => {
            &&& new.status_message@ == "重新加载失败: "@ + e@
            &&& new == (AppState {
                status_message: new.status_message,
                ..old
            })
        },
        ClearOutcome::TruncateFailed(e, again) => {
            &&& new.status_message@ == "清空失败: "@ + e@
            &&& match again {
                Some(b) => {
                    &&& new.sources@.len() == old.sources@.len() + 1
                    &&& new.sources@.drop_last() == old.sources@
                    &&& reopened_source(new.sources@.last(), path, name, format, b@)
                    &&& new.active_source == match old.active_source {
                        None => Some(0usize),
                        Some(i) => Some(i),
                    }
                },
                None => {
                    &&& new.sources == old.sources
                    &&& new.active_source == old.active_source
                },
            }
            &&& new == (AppState {
                sources: new.sources,
                active_source: new.active_source,
                status_message: new.status_message,
                ..old
            })
        },
    }
}

/// Clearing the active log replaces it: when `begin_clear_log` took the
/// active source out and `finish_clear_log` got its file read again, the
/// sources are the earlier ones without that source, followed by a source
/// read from the same path with the same name and format; the search
/// results, the filtered lines, the current match and the scroll position
/// are reset and the confirmation is closed.
pub proof fn law_clear_log_replaces_active_source(
    before: AppState,
    between: AppState,
    after: AppState,
    r: Option<(String, LogFormat, SourceId, String)>,
    b: LogBackend,
)
    requires
        clear_begun(before, between, r),
        r matches Some((path, format, _id, name)) && clear_finished(
            between,
            after,
            path@,
            format,
            name@,
            ClearOutcome::Reopened(b),
        ),
    ensures
        before.active_source matches Some(i) && i < before.sources@.len() && {
            let src = before.sources@[i as int];
            &&& after.sources@.drop_last() == before.sources@.remove(i as int)
            &&& reopened_source(after.sources@.last(), src.path@, src.name@, src.format, b@)
        },
        after.search_results@.len() == 0,
        after.filtered_lines@.len() == 0,
        after.current_match_index is None,
        after.scroll_to_line is None,
        !after.show_clear_confirm_dialog,
{
}

/// The texts of the records at `idxs` that exist, each followed by a line
/// feed.
pub open spec fn joined_records(b: BackendView, idxs: Seq<u64>) -> Seq<char>
    decreases idxs.len(),
{
    if idxs.len() == 0 {
        Seq::empty()
    } else {
        let prev = joined_records(b, idxs.drop_last());
        match backend_record(b, idxs.last()) {
            Some(rec) => prev + rec.raw.push('\n'),
            None => prev,
        }
    }
}

/// The number of line feeds in a text (its number of lines, as
/// `str::lines` counts them, when it is empty or ends with one).
pub open spec fn line_feeds(s: Seq<char>) -> nat
    decreases s.len(),
{
    if s.len() == 0 {
        0
    } else {
        line_feeds(s.drop_last()) + if s.last() == '\n' {
            1nat
        } else {
            0nat
        }
    }
}

/// The record numbers `0..n`.
pub open spec fn all_records(n: nat) -> Seq<u64> {
    Seq::new(n, |i: int| i as u64)
}

/// The text shown in the active source: the lines the filter keeps when
/// it is on, else every record.
pub open spec fn shown_text(o: AppState) -> Option<Seq<char>> {
    match active_backend_of(o.sources@, o.active_source) {
        Some(b) => Some(
            joined_records(
                b,
                if o.filter_enabled && o.filter_pattern@.len() > 0 {
                    o.filtered_lines@
                } else {
                    all_records(b.offsets.len())
                },
            ),
        ),
        None => None,
    }
}

/// The number of line feeds in `s`.
fn count_line_feeds(s: &str) -> (n: usize)
    ensures
        n == line_feeds(s@),
{
    let v = chars_of(s);
    let mut n: usize = 0;
    let mut i: usize = 0;
    while i < v.len()
        invariant
            i <= v@.len(),
            v@ == s@,
            n == line_feeds(v@.take(i as int)),
            n <= i,
        decreases v@.len() - i,
    {
        assert(v@.take(i + 1).drop_last() =~= v@.take(i as int));
        if v[i] == '\n' {
            n = n + 1;
        }
        i = i + 1;
    }
    assert(v@.take(i as int) =~= v@);
    n
}

/// The records at `idxs` that exist, each followed by a line feed.
fn join_records(backend: &LogBackend, idxs: &Vec<u64>) -> (s: String)
    ensures
        s@ == joined_records(backend@, idxs@),
{
    let mut s = String::new();
    let mut k: usize = 0;
    while k < idxs.len()
        invariant
            k <= idxs@.len(),
            s@ == joined_records(backend@, idxs@.take(k as int)),
        decreases idxs@.len() - k,
    {
        assert(idxs@.take(k + 1).drop_last() =~= idxs@.take(k as int));
        match backend.record_at(idxs[k]) {
            Some(rec) => {
                s.append(rec.raw.as_str());
                s.push('\n');
            },
            None => {},
        }
        k = k + 1;
    }
    assert(idxs@.take(k as int) =~= idxs@);
    s
}

/// The record numbers `0..n`.
fn record_numbers(n: u64) -> (v: Vec<u64>)
    ensures
        v@ == all_records(n as nat),
{
    let mut v: Vec<u64> = Vec::new();
    let mut i: u64 = 0;
    while i < n
        invariant
            i <= n,
            v@ == all_records(i as nat),
        decreases n - i,
    {
        v.push(i);
        i = i + 1;
        assert(v@ =~= all_records(i as nat));
    }
    v
}

/// The name of a saved workspace stored in the file `file_name`: the name
/// before a final `.json` extension (a name that is only `.json` has no
/// extension, as `Path::extension` reads it).
pub open spec fn json_stem(file_name: Seq<char>) -> Option<Seq<char>> {
    if file_name.len() > 5 && file_name.subrange(file_name.len() - 5, file_name.len() as int)
        == ".json"@ {
        Some(file_name.take(file_name.len() - 5))
    } else {
        None
    }
}

/// The workspace names among the file names, in order.
pub open spec fn stems_of(file_names: Seq<Seq<char>>) -> Seq<Seq<char>>
    decreases file_names.len(),
{
    if file_names.len() == 0 {
        Seq::empty()
    } else {
        let prev = stems_of(file_names.drop_last());
        match json_stem(file_names.last()) {
            Some(n) => prev.push(n),
            None => prev,
        }
    }
}

/// The names of the saved workspaces, given the names of the files in the
/// workspaces directory: those of the `.json` files, sorted.
pub fn workspace_names(file_names: &Vec<String>) -> (r: Vec<String>)
    ensures
        strings_view(r@).to_multiset() == stems_of(strings_view(file_names@)).to_multiset(),
        texts_in_order(strings_view(r@)),
{
    proof {
        reveal_strlit(".json");
    }
    let ghost names = strings_view(file_names@);
    let mut stems: Vec<String> = Vec::new();
    let mut i: usize = 0;
    while i < file_names.len()
        invariant
            i <= file_names@.len(),
            names == strings_view(file_names@),
            strings_view(stems@) == stems_of(names.take(i as int)),
        decreases file_names@.len() - i,
    {
        assert(names.take(i + 1).drop_last() =~= names.take(i as int));
        assert(names.take(i + 1).last() == names[i as int]);
        let chars = chars_of(file_names[i].as_str());
        let n = chars.len();
        let ghost before = stems@;
        if n > 5 && chars[n - 5] == '.' && chars[n - 4] == 'j' && chars[n - 3] == 's' && chars[n
            - 2] == 'o' && chars[n - 1] == 'n' {
            assert(chars@.subrange(n - 5, n as int) =~= ".json"@) by {
                reveal_strlit(".json");
            }
            let stem = string_of_range(&chars, 0, n - 5);
            assert(stem@ =~= chars@.take(n - 5));
            stems.push(stem);
            assert(strings_view(stems@) =~= strings_view(before).push(stem@));
        } else {
            assert(json_stem(names[i as int]) is None) by {
                if n > 5 {
                    let tail = chars@.subrange(n - 5, n as int);
                    reveal_strlit(".json");
                    if tail == ".json"@ {
                        assert(tail[0] == '.' && tail[1] == 'j' && tail[2] == 's' && tail[3] == 'o'
                            && tail[4] == 'n');
                    }
                }
            }
        }
        i = i + 1;
    }
    assert(names.take(i as int) =~= names);
    sort_texts(&stems)
}

impl AppState {
    /// Close every source and reset the search.
    fn clear_sources_and_search(&mut self)
        ensures
            emptied(*old(self), *final(self)),
            *final(self) == (AppState {
                sources: final(self).sources,
                active_source: None,
                search_results: final(self).search_results,
                search_query: final(self).search_query,
                current_match_index: None,
                scroll_to_line: None,
                ..*old(self)
            }),
    {
        self.sources.clear();
        self.active_source = None;
        self.search_results.clear();
        self.search_query.pattern = String::new();
        self.current_match_index = None;
        self.scroll_to_line = None;
    }

    /// As `clear_sources_and_search`, and reset the results panel, the
    /// selection and the filter.
    fn clear_view(&mut self)
        ensures
            emptied_all(*old(self), *final(self)),
            *final(self) == (AppState {
                sources: final(self).sources,
                active_source: None,
                search_results: final(self).search_results,
                search_query: final(self).search_query,
                current_match_index: None,
                scroll_to_line: None,
                selected_search_result: None,
                show_search_results: false,
                filtered_lines: final(self).filtered_lines,
                filter_pattern: final(self).filter_pattern,
                filter_enabled: false,
                ..*old(self)
            }),
    {
        self.clear_sources_and_search();
        self.selected_search_result = None;
        self.show_search_results = false;
        self.filtered_lines.clear();
        self.filter_pattern = String::new();
        self.filter_enabled = false;
    }

    /// Close the current workspace and everything open in it, and report
    /// "已关闭工作区".
    pub fn close_workspace(&mut self)
        ensures
            emptied_all(*old(self), *final(self)),
            final(self).status_message@ == "已关闭工作区"@,
            *final(self) == (AppState {
                sources: final(self).sources,
                active_source: None,
                current_workspace: None,
                search_results: final(self).search_results,
                search_query: final(self).search_query,
                current_match_index: None,
                scroll_to_line: None,
                selected_search_result: None,
                show_search_results: false,
                filtered_lines: final(self).filtered_lines,
                filter_pattern: final(self).filter_pattern,
                filter_enabled: false,
                status_message: final(self).status_message,
                ..*old(self)
            }),
    {
        self.clear_view();
        self.current_workspace = None;
        self.status_message = String::from_str("已关闭工作区");
    }

    /// Remove every file and directory from the current workspace, close
    /// every source, reset the search and report "已清空工作区 'name' 的所有日志";
    /// nothing happens without a workspace. Returns whether there was one
    /// (whose new contents the caller then saves).
    pub fn clear_workspace_logs(&mut self) -> (cleared: bool)
        ensures
            cleared == old(self).current_workspace is Some,
            !cleared ==> *final(self) == *old(self),
            cleared ==> {
                let ow = old(self).current_workspace.unwrap();
                let fw = final(self).current_workspace.unwrap();
                &&& final(self).current_workspace is Some
                &&& fw.log_files@.len() == 0
                &&& fw.log_dirs@.len() == 0
                &&& fw.active_source is None
                &&& fw == (Workspace {
                    log_files: fw.log_files,
                    log_dirs: fw.log_dirs,
                    active_source: None,
                    ..ow
                })
                &&& emptied(*old(self), *final(self))
                &&& final(self).status_message@ == "已清空工作区 '"@ + ow.name@ + "' 的所有日志"@
                &&& *final(self) == (AppState {
                    sources: final(self).sources,
                    active_source: None,
                    current_workspace: final(self).current_workspace,
                    search_results: final(self).search_results,
                    search_query: final(self).search_query,
                    current_match_index: None,
                    scroll_to_line: None,
                    status_message: final(self).status_message,
                    ..*old(self)
                })
            },
    {
        let mut ws = match self.current_workspace.take() {
            Some(ws) => ws,
            None => {
                return false;
            },
        };
        ws.log_files.clear();
        ws.log_dirs.clear();
        ws.active_source = None;
        let mut s = String::new();
        s.append("已清空工作区 '");
        s.append(ws.name.as_str());
        s.append("' 的所有日志");
        self.current_workspace = Some(ws);
        self.clear_sources_and_search();
        self.status_message = s;
        true
    }

    /// Take the outcome of reading the saved workspace `name`: on success
    /// it becomes the current workspace with nothing open yet, the search and
    /// the filter reset, and "已加载工作区: name (n 个文件，点击文件名打开)" is
    /// reported; a failure is reported as "加载工作区失败: name - error".
    pub fn load_workspace(&mut self, name: &str, loaded: Result<Workspace, String>)
        ensures
            match loaded {
                Ok(ws) => {
                    &&& emptied_all(*old(self), *final(self))
                    &&& final(self).current_workspace == Some(ws)
                    &&& final(self).status_message@ == "已加载工作区: "@ + name@ + " ("@ + decimal(
                        ws.log_files@.len(),
                    ) + " 个文件，点击文件名打开)"@
                    &&& *final(self) == (AppState {
                        sources: final(self).sources,
                        active_source: None,
                        current_workspace: final(self).current_workspace,
                        search_results: final(self).search_results,
                        search_query: final(self).search_query,
                        current_match_index: None,
                        scroll_to_line: None,
                        selected_search_result: None,
                        show_search_results: false,
                        filtered_lines: final(self).filtered_lines,
                        filter_pattern: final(self).filter_pattern,
                        filter_enabled: false,
                        status_message: final(self).status_message,
                        ..*old(self)
                    })
                },
                Err(e) => {
                    &&& final(self).status_message@ == "加载工作区失败: "@ + name@ + " - "@ + e@
                    &&& *final(self) == (AppState {
                        status_message: final(self).status_message,
                        ..*old(self)
                    })
                },
            },
    {
        match loaded {
            Ok(ws) => {
                let file_count = ws.log_files.len();
                self.clear_view();
                self.current_workspace = Some(ws);
                let mut s = String::new();
                s.append("已加载工作区: ");
                s.append(name);
                s.append(" (");
                push_decimal(&mut s, file_count as u64);
                s.append(" 个文件，点击文件名打开)");
                self.status_message = s;
            },
            Err(e) => {
                let mut s = String::new();
                s.append("加载工作区失败: ");
                s.append(name);
                s.append(" - ");
                s.append(e.as_str());
                self.status_message = s;
            },
        }
    }

    /// Forget the saved workspace `name` (the caller removes its file): it
    /// leaves the list, stops being current if it was, and
    /// "已删除工作区: name" is reported.
    pub fn delete_workspace(&mut self, name: &String)
        ensures
            strings_view(final(self).available_workspaces@) == without(
                strings_view(old(self).available_workspaces@),
                name@,
            ),
            final(self).current_workspace == match old(self).current_workspace {
                Some(w) => if w.name@ == name@ {
                    None
                } else {
                    Some(w)
                },
                None => None,
            },
            final(self).status_message@ == "已删除工作区: "@ + name@,
            *final(self) == (AppState {
                available_workspaces: final(self).available_workspaces,
                current_workspace: final(self).current_workspace,
                status_message: final(self).status_message,
                ..*old(self)
            }),
    {
        retain_not_equal(&mut self.available_workspaces, name);
        let is_current = match &self.current_workspace {
            Some(w) => w.name == *name,
            None => false,
        };
        if is_current {
            self.current_workspace = None;
        }
        let mut s = String::new();
        s.append("已删除工作区: ");
        s.append(name.as_str());
        self.status_message = s;
    }

    /// Create the workspace named in the new-workspace dialog, if a name was
    /// given: it is listed, becomes current, and the dialog closes and
    /// forgets the name. Returns whether it was created (the caller then
    /// saves it).
    pub fn create_workspace(&mut self) -> (created: bool)
        ensures
            created == (old(self).new_workspace_name@.len() > 0),
            !created ==> *final(self) == *old(self),
            created ==> {
                let w = final(self).current_workspace.unwrap();
                &&& final(self).current_workspace is Some
                &&& w.name@ == old(self).new_workspace_name@
                &&& w.log_files@.len() == 0
                &&& w.log_dirs@.len() == 0
                &&& w.active_source is None
                &&& strings_view(final(self).available_workspaces@) == strings_view(
                    old(self).available_workspaces@,
                ).push(old(self).new_workspace_name@)
                &&& final(self).new_workspace_name@.len() == 0
                &&& *final(self) == (AppState {
                    current_workspace: final(self).current_workspace,
                    available_workspaces: final(self).available_workspaces,
                    new_workspace_name: final(self).new_workspace_name,
                    show_new_workspace_dialog: false,
                    ..*old(self)
                })
            },
    {
        if self.new_workspace_name.as_str().is_empty() {
            return false;
        }
        let workspace = Workspace::new(self.new_workspace_name.clone());
        let ghost before = self.available_workspaces@;
        self.available_workspaces.push(self.new_workspace_name.clone());
        assert(strings_view(self.available_workspaces@) =~= strings_view(before).push(
            old(self).new_workspace_name@,
        ));
        self.current_workspace = Some(workspace);
        self.new_workspace_name = String::new();
        self.show_new_workspace_dialog = false;
        true
    }

    /// Close the new-workspace dialog without creating one.
    pub fn cancel_new_workspace(&mut self)
        ensures
            final(self).new_workspace_name@.len() == 0,
            *final(self) == (AppState {
                new_workspace_name: final(self).new_workspace_name,
                show_new_workspace_dialog: false,
                ..*old(self)
            }),
    {
        self.new_workspace_name = String::new();
        self.show_new_workspace_dialog = false;
    }

    /// Make sure a workspace is current before a file is opened: without
    /// one, the default workspace is created, listed (unless it already is)
    /// and made current. Returns whether it was created (the caller then
    /// saves it).
    pub fn ensure_workspace(&mut self) -> (created: bool)
        ensures
            created == old(self).current_workspace is None,
            !created ==> *final(self) == *old(self),
            created ==> {
                let w = final(self).current_workspace.unwrap();
                let names = strings_view(old(self).available_workspaces@);
                &&& final(self).current_workspace is Some
                &&& w.name@ == DEFAULT_WORKSPACE_NAME@
                &&& w.log_files@.len() == 0
                &&& w.log_dirs@.len() == 0
                &&& w.active_source is None
                &&& strings_view(final(self).available_workspaces@) == if names.contains(
                    DEFAULT_WORKSPACE_NAME@,
                ) {
                    names
                } else {
                    names.push(DEFAULT_WORKSPACE_NAME@)
                }
                &&& *final(self) == (AppState {
                    current_workspace: final(self).current_workspace,
                    available_workspaces: final(self).available_workspaces,
                    ..*old(self)
                })
            },
    {
        if self.current_workspace.is_some() {
            return false;
        }
        let name = String::from_str(DEFAULT_WORKSPACE_NAME);
        let workspace = Workspace::new(name.clone());
        if !contains_string(&self.available_workspaces, &name) {
            let ghost before = self.available_workspaces@;
            self.available_workspaces.push(name);
            assert(strings_view(self.available_workspaces@) =~= strings_view(before).push(
                DEFAULT_WORKSPACE_NAME@,
            ));
        }
        self.current_workspace = Some(workspace);
        true
    }

    /// Add a log file to the current workspace, if there is one (see
    /// `Workspace::add_file`).
    pub fn add_file_to_workspace(&mut self, path: String)
        ensures
            match old(self).current_workspace {
                Some(w) => final(self).current_workspace matches Some(fw) && file_added(w, fw, path@),
                None => final(self).current_workspace is None,
            },
            *final(self) == (AppState {
                current_workspace: final(self).current_workspace,
                ..*old(self)
            }),
    {
        match self.current_workspace.take() {
            Some(mut ws) => {
                ws.add_file(path);
                self.current_workspace = Some(ws);
            },
            None => {},
        }
    }

    /// Add a log directory to the current workspace, if there is one (see
    /// `Workspace::add_dir`).
    pub fn add_dir_to_workspace(&mut self, path: String)
        ensures
            match old(self).current_workspace {
                Some(w) => final(self).current_workspace matches Some(fw) && dir_added(w, fw, path@),
                None => final(self).current_workspace is None,
            },
            *final(self) == (AppState {
                current_workspace: final(self).current_workspace,
                ..*old(self)
            }),
    {
        match self.current_workspace.take() {
            Some(mut ws) => {
                ws.add_dir(path);
                self.current_workspace = Some(ws);
            },
            None => {},
        }
    }

    /// Remove the current workspace's file `index` from it (the caller then
    /// saves it); nothing happens for an index past its files or without a
    /// workspace.
    pub fn remove_file_from_workspace(&mut self, index: usize)
        ensures
            match old(self).current_workspace {
                Some(w) => if index < w.log_files@.len() {
                    final(self).current_workspace matches Some(fw) && {
                        &&& strings_view(fw.log_files@) == without_path(
                            strings_view(w.log_files@),
                            w.log_files@[index as int]@,
                        )
                        &&& fw.name == w.name
                        &&& fw.log_dirs == w.log_dirs
                        &&& fw.active_source == w.active_source
                        &&& fw.created_at == w.created_at
                    }
                } else {
                    final(self).current_workspace == Some(w)
                },
                None => final(self).current_workspace is None,
            },
            *final(self) == (AppState {
                current_workspace: final(self).current_workspace,
                ..*old(self)
            }),
    {
        match self.current_workspace.take() {
            Some(mut ws) => {
                if index < ws.log_files.len() {
                    let path = ws.log_files[index].clone();
                    ws.remove_file(&path);
                }
                self.current_workspace = Some(ws);
            },
            None => {},
        }
    }

    /// Take the outcome of opening the log file at `path` (the new source and
    /// the file's size, when it could be read): the size is recorded, the
    /// source opened (see `add_source`) and "已打开: path" reported; a failure
    /// is reported as "打开文件失败: error".
    pub fn finish_open_file(&mut self, path: &str, opened: Result<(LogSource, Option<u64>), String>)
        ensures
            match opened {
                Ok((source, size)) => {
                    &&& final(self).sources@ == old(self).sources@.push(source)
                    &&& final(self).active_source == match old(self).active_source {
                        None => Some(0usize),
                        Some(i) => Some(i),
                    }
                    &&& forall|p: Seq<char>|
                        #[trigger] recorded_size(final(self).file_sizes@, p) == match size {
                            Some(s) => if p == source.path@ {
                                Some(s)
                            } else {
                                recorded_size(old(self).file_sizes@, p)
                            },
                            None => recorded_size(old(self).file_sizes@, p),
                        }
                    &&& final(self).status_message@ == "已打开: "@ + path@
                    &&& *final(self) == (AppState {
                        sources: final(self).sources,
                        active_source: final(self).active_source,
                        file_sizes: final(self).file_sizes,
                        status_message: final(self).status_message,
                        ..*old(self)
                    })
                },
                Err(e) => {
                    &&& final(self).status_message@ == "打开文件失败: "@ + e@
                    &&& *final(self) == (AppState {
                        status_message: final(self).status_message,
                        ..*old(self)
                    })
                },
            },
            old(self).wf() ==> final(self).wf(),
    {
        match opened {
            Ok((source, size)) => {
                match size {
                    Some(s) => {
                        crate::refresh::record_size(&mut self.file_sizes, &source.path, s);
                    },
                    None => {},
                }
                self.add_source(source);
                let mut s = String::new();
                s.append("已打开: ");
                s.append(path);
                self.status_message = s;
            },
            Err(e) => {
                let mut s = String::new();
                s.append("打开文件失败: ");
                s.append(e.as_str());
                self.status_message = s;
            },
        }
    }

    /// Make active the first open source read from the same path as `path`, if there is
    /// one; returns whether there was (otherwise the caller opens the file).
    pub fn activate_source_with_path(&mut self, path: &String) -> (found: bool)
        ensures
            found == first_path_from(old(self).sources@, path@, 0) is Some,
            *final(self) == match first_path_from(old(self).sources@, path@, 0) {
                Some(i) => AppState { active_source: Some(i as usize), ..*old(self) },
                None => *old(self),
            },
            old(self).wf() ==> final(self).wf(),
    {
        let mut i: usize = 0;
        while i < self.sources.len()
            invariant
                i <= self.sources@.len(),
                *self == *old(self),
                first_path_from(self.sources@, path@, 0) == first_path_from(
                    self.sources@,
                    path@,
                    i as int,
                ),
            decreases self.sources@.len() - i,
        {
            if same_path(&self.sources[i].path, path) {
                self.set_active(i);
                return true;
            }
            i = i + 1;
        }
        false
    }

    /// Close the clear confirmation and take the active source out (the
    /// first remaining one becomes active): the caller empties its file and
    /// reads it again. Returns the source's path, format, identifier and
    /// name, or `None` (and only the dialog closes) without an active source.
    pub fn begin_clear_log(&mut self) -> (r: Option<(String, LogFormat, SourceId, String)>)
        ensures
            clear_begun(*old(self), *final(self), r),
    {
        self.show_clear_confirm_dialog = false;
        let i = match self.active_source {
            Some(i) => {
                if i < self.sources.len() {
                    i
                } else {
                    return None;
                }
            },
            None => {
                return None;
            },
        };
        let src = self.sources.remove(i);
        self.active_source = if self.sources.len() == 0 {
            None
        } else {
            Some(0)
        };
        Some((src.path, src.format, src.id, src.name))
    }

    /// Take what became of clearing the log file at `path` (with `format`
    /// and display `name`, as `begin_clear_log` returned them; see
    /// `ClearOutcome`): a backend read again is opened as a source
    /// identified by the path, with that path, name and format (see
    /// `add_source`); after a successful clear the search results, the
    /// current match, the scroll position and the filtered lines are reset
    /// and "已清空: name" is reported; failures report "重新加载失败: error" or
    /// "清空失败: error".
    pub fn finish_clear_log(&mut self, path: String, format: LogFormat, name: String, outcome: ClearOutcome)
        ensures
            clear_finished(*old(self), *final(self), path@, format, name@, outcome),
            old(self).wf() ==> final(self).wf(),
    {
        match outcome {
            ClearOutcome::Reopened(b) => {
                let src = LogSource {
                    id: SourceId::from_path(path.as_str()),
                    name: name.clone(),
                    path,
                    format,
                    backend: Arc::new(b),
                };
                self.add_source(src);
                proof {
                    assert(self.sources@.drop_last() =~= old(self).sources@);
                }
                self.search_results.clear();
                self.current_match_index = None;
                self.scroll_to_line = None;
                self.filtered_lines.clear();
                let mut s = String::new();
                s.append("已清空: ");
                s.append(name.as_str());
                self.status_message = s;
            },
            ClearOutcome::ReopenFailed(e) => {
                let mut s = String::new();
                s.append("重新加载失败: ");
                s.append(e.as_str());
                self.status_message = s;
            },
            ClearOutcome::TruncateFailed(e, again) => {
                let mut s = String::new();
                s.append("清空失败: ");
                s.append(e.as_str());
                self.status_message = s;
                match again {
                    Some(b) => {
                        let src = LogSource {
                            id: SourceId::from_path(path.as_str()),
                            name,
                            path,
                            format,
                            backend: Arc::new(b),
                        };
                        self.add_source(src);
                        proof {
                            assert(self.sources@.drop_last() =~= old(self).sources@);
                        }
                    },
                    None => {},
                }
            },
        }
    }

    /// The text to copy from the active source (see `shown_text`) and its
    /// number of lines; `None` without an active source.
    pub fn visible_content(&self) -> (r: Option<(String, usize)>)
        ensures
            match shown_text(*self) {
                Some(t) => r matches Some((text, n)) && text@ == t && n == line_feeds(t),
                None => r is None,
            },
    {
        let backend = match self.active_backend() {
            Some(b) => b,
            None => {
                return None;
            },
        };
        let text = if self.filter_enabled && !self.filter_pattern.as_str().is_empty() {
            join_records(backend, &self.filtered_lines)
        } else {
            let all = record_numbers(backend.record_count());
            join_records(backend, &all)
        };
        let n = count_line_feeds(text.as_str());
        Some((text, n))
    }

    /// Start copying what the log view shows: the text to copy and its
    /// number of lines (see `visible_content`), the state unchanged; without
    /// an open log nothing is returned and "没有打开的日志文件" is reported.
    pub fn prepare_copy_all(&mut self) -> (r: Option<(String, usize)>)
        ensures
            match shown_text(*old(self)) {
                Some(t) => {
                    &&& r matches Some((text, n)) && text@ == t && n == line_feeds(t)
                    &&& *final(self) == *old(self)
                },
                None => {
                    &&& r is None
                    &&& final(self).status_message@ == no_file_status()
                    &&& *final(self) == (AppState { status_message: final(self).status_message, ..*old(self) })
                },
            },
    {
        let r = self.visible_content();
        if r.is_none() {
            self.status_message = String::from_str("没有打开的日志文件");
        }
        r
    }

    /// The text of line `line` of the active source, if there is one.
    pub fn line_text(&self, line: u64) -> (r: Option<String>)
        ensures
            match active_backend_of(self.sources@, self.active_source) {
                Some(b) => match backend_record(b, line) {
                    Some(rec) => r matches Some(t) && t@ == rec.raw,
                    None => r is None,
                },
                None => r is None,
            },
    {
        match self.active_backend() {
            Some(b) => match b.record_at(line) {
                Some(rec) => Some(rec.raw),
                None => None,
            },
            None => None,
        }
    }

    /// Report copying `lines` lines to the clipboard: "已复制 n 行到剪贴板",
    /// or "复制失败: error".
    pub fn report_copy_all(&mut self, lines: usize, outcome: Result<(), String>)
        ensures
            final(self).status_message@ == match outcome {
                Ok(_) => "已复制 "@ + decimal(lines as nat) + " 行到剪贴板"@,
                Err(e) => "复制失败: "@ + e@,
            },
            *final(self) == (AppState { status_message: final(self).status_message, ..*old(self) }),
    {
        let mut s = String::new();
        match outcome {
            Ok(_) => {
                s.append("已复制 ");
                push_decimal(&mut s, lines as u64);
                s.append(" 行到剪贴板");
            },
            Err(e) => {
                s.append("复制失败: ");
                s.append(e.as_str());
            },
        }
        self.status_message = s;
    }

    /// Report copying line `line` (0-based) to the clipboard: "已复制第 k 行"
    /// with `k` counted from 1, or "复制失败: error".
    pub fn report_copy_line(&mut self, line: u64, outcome: Result<(), String>)
        requires
            line < u64::MAX,
        ensures
            final(self).status_message@ == match outcome {
                Ok(_) => "已复制第 "@ + decimal(line as nat + 1) + " 行"@,
                Err(e) => "复制失败: "@ + e@,
            },
            *final(self) == (AppState { status_message: final(self).status_message, ..*old(self) }),
    {
        let mut s = String::new();
        match outcome {
            Ok(_) => {
                s.append("已复制第 ");
                push_decimal(&mut s, line + 1);
                s.append(" 行");
            },
            Err(e) => {
                s.append("复制失败: ");
                s.append(e.as_str());
            },
        }
        self.status_message = s;
    }

    /// Clear every search and filter condition: the search pattern, results,
    /// current match, scroll position, selection and results panel; the
    /// filter and its lines; the search options back to case-insensitive
    /// plain text; and report "已清除所有条件".
    pub fn clear_all_conditions(&mut self)
        ensures
            final(self).search_query.pattern@.len() == 0,
            final(self).search_results@.len() == 0,
            final(self).filter_pattern@.len() == 0,
            final(self).filtered_lines@.len() == 0,
            final(self).status_message@ == "已清除所有条件"@,
            final(self).search_query == (SearchQuery {
                pattern: final(self).search_query.pattern,
                is_regex: false,
                case_insensitive: true,
                whole_word: false,
                ..old(self).search_query
            }),
            *final(self) == (AppState {
                search_query: final(self).search_query,
                search_results: final(self).search_results,
                current_match_index: None,
                scroll_to_line: None,
                selected_search_result: None,
                show_search_results: false,
                filter_pattern: final(self).filter_pattern,
                filter_enabled: false,
                filter_is_regex: false,
                filtered_lines: final(self).filtered_lines,
                status_message: final(self).status_message,
                ..*old(self)
            }),
    {
        self.search_query.pattern = String::new();
        self.search_results.clear();
        self.current_match_index = None;
        self.scroll_to_line = None;
        self.selected_search_result = None;
        self.show_search_results = false;
        self.filter_pattern = String::new();
        self.filter_enabled = false;
        self.filter_is_regex = false;
        self.filtered_lines.clear();
        self.search_query.is_regex = false;
        self.search_query.case_insensitive = true;
        self.search_query.whole_word = false;
        self.status_message = String::from_str("已清除所有条件");
    }

    /// The match counter of the toolbar: "k/n" for current match `k` (from
    /// 1) of `n`, "0/n" when none is current, "0/0" without matches.
    pub fn match_counter(&self) -> (s: String)
        requires
            self.current_match_index matches Some(i) ==> i < usize::MAX,
        ensures
            s@ == if self.search_results@.len() == 0 {
                "0/0"@
            } else {
                match self.current_match_index {
                    Some(i) => decimal(i as nat + 1) + "/"@ + decimal(self.search_results@.len()),
                    None => "0/"@ + decimal(self.search_results@.len()),
                }
            },
    {
        let n = self.search_results.len();
        if n == 0 {
            return String::from_str("0/0");
        }
        let mut s = String::new();
        match self.current_match_index {
            Some(i) => {
                push_decimal(&mut s, i as u64 + 1);
                s.append("/");
            },
            None => {
                s.append("0/");
            },
        }
        push_decimal(&mut s, n as u64);
        s
    }

    /// Close every tab: no source stays open, and the search results and
    /// the current match go with them.
    pub fn close_all_tabs(&mut self)
        ensures
            final(self).sources@.len() == 0,
            final(self).search_results@.len() == 0,
            *final(self) == (AppState {
                sources: final(self).sources,
                active_source: None,
                search_results: final(self).search_results,
                current_match_index: None,
                ..*old(self)
            }),
    {
        self.sources.clear();
        self.active_source = None;
        self.search_results.clear();
        self.current_match_index = None;
    }

    /// The saved workspaces as the workspace panel lists them: the default
    /// workspace first, then the others in order.
    pub fn listed_workspaces(&self) -> (r: Vec<String>)
        ensures
            strings_view(r@).to_multiset() == strings_view(self.available_workspaces@).to_multiset(),
            exists|k: int|
                0 <= k <= r@.len() && (forall|i: int| 0 <= i < k ==> #[trigger] r@[i]@ == DEFAULT_WORKSPACE_NAME@)
                    && (forall|i: int| k <= i < r@.len() ==> #[trigger] r@[i]@ != DEFAULT_WORKSPACE_NAME@)
                    && texts_in_order(strings_view(r@).skip(k)),
    {
        let ghost all = strings_view(self.available_workspaces@);
        let default_name = String::from_str(DEFAULT_WORKSPACE_NAME);
        let mut defaults: Vec<String> = Vec::new();
        let mut others: Vec<String> = Vec::new();
        let mut i: usize = 0;
        proof {
            broadcast use vstd::multiset::group_multiset_axioms;
            let e = Seq::<Seq<char>>::empty();
            assert(strings_view(defaults@) =~= e);
            assert(strings_view(others@) =~= e);
            assert(all.take(0) =~= e);
            vstd::seq_lib::to_multiset_len(e);
            vstd::multiset::lemma_multiset_empty_len(e.to_multiset());
            assert(e.to_multiset().add(e.to_multiset()) =~= e.to_multiset());
        }
        while i < self.available_workspaces.len()
            invariant
                i <= self.available_workspaces@.len(),
                all == strings_view(self.available_workspaces@),
                default_name@ == DEFAULT_WORKSPACE_NAME@,
                strings_view(defaults@).to_multiset().add(strings_view(others@).to_multiset())
                    == all.take(i as int).to_multiset(),
                forall|j: int| 0 <= j < defaults@.len() ==> #[trigger] defaults@[j]@ == DEFAULT_WORKSPACE_NAME@,
                forall|j: int| 0 <= j < others@.len() ==> #[trigger] others@[j]@ != DEFAULT_WORKSPACE_NAME@,
            decreases self.available_workspaces@.len() - i,
        {
            let name = self.available_workspaces[i].clone();
            let ghost nv = name@;
            let ghost d0 = strings_view(defaults@);
            let ghost o0 = strings_view(others@);
            proof {
                assert(all.take(i + 1) =~= all.take(i as int).push(nv));
                vstd::seq_lib::to_multiset_build(all.take(i as int), nv);
            }
            if name == default_name {
                defaults.push(name);
                proof {
                    assert(strings_view(defaults@) =~= d0.push(nv));
                    vstd::seq_lib::to_multiset_build(d0, nv);
                }
            } else {
                others.push(name);
                proof {
                    assert(strings_view(others@) =~= o0.push(nv));
                    vstd::seq_lib::to_multiset_build(o0, nv);
                }
            }
            proof {
                broadcast use vstd::multiset::group_multiset_axioms;
                assert(strings_view(defaults@).to_multiset().add(strings_view(others@).to_multiset())
                    =~= all.take(i + 1).to_multiset());
            }
            i = i + 1;
        }
        let sorted = sort_texts(&others);
        let k = defaults.len();
        let ghost dv = strings_view(defaults@);
        let ghost sv = strings_view(sorted@);
        let mut r = defaults;
        let mut j: usize = 0;
        while j < sorted.len()
            invariant
                j <= sorted@.len(),
                sv == strings_view(sorted@),
                strings_view(r@) == dv + sv.take(j as int),
            decreases sorted@.len() - j,
        {
            let ghost before = strings_view(r@);
            let c = sorted[j].clone();
            assert(c@ == sv[j as int]);
            r.push(c);
            proof {
                assert(strings_view(r@) =~= before.push(sv[j as int]));
                assert(sv.take(j + 1) =~= sv.take(j as int).push(sv[j as int]));
                assert(strings_view(r@) =~= dv + sv.take(j + 1));
            }
            j = j + 1;
        }
        proof {
            broadcast use vstd::multiset::group_multiset_axioms;
            broadcast use vstd::seq_lib::lemma_multiset_commutative;
            assert(sv.take(j as int) =~= sv);
            assert(all.take(self.available_workspaces@.len() as int) =~= all);
            assert(strings_view(r@) =~= dv + sv);
            vstd::seq_lib::lemma_multiset_commutative(dv, sv);
            assert(sv.to_multiset() =~= strings_view(others@).to_multiset());
            assert forall|x: int| 0 <= x < k implies #[trigger] r@[x]@ == DEFAULT_WORKSPACE_NAME@ by {
                assert(strings_view(r@)[x] == dv[x]);
            }
            assert forall|x: int| k <= x < r@.len() implies #[trigger] r@[x]@ != DEFAULT_WORKSPACE_NAME@ by {
                assert(strings_view(r@)[x] == sv[x - k]);
                vstd::seq_lib::to_multiset_contains(sv, sv[x - k]);
                vstd::seq_lib::to_multiset_contains(strings_view(others@), sv[x - k]);
            }
            assert(strings_view(r@).skip(k as int) =~= sv);
        }
        r
    }

    /// How the workspace panel shows the file at `path`: whether a source
    /// read from the same path is open, and whether such a source is the active one.
    pub fn file_tab_state(&self, path: &String) -> (r: (bool, bool))
        ensures
            r.0 == exists|i: int| 0 <= i < self.sources@.len() && paths_equal(#[trigger] self.sources@[i].path@, path@),
            r.1 == exists|i: int|
                0 <= i < self.sources@.len() && paths_equal(#[trigger] self.sources@[i].path@, path@)
                    && self.active_source == Some(i as usize),
    {
        let mut open = false;
        let mut active = false;
        let mut i: usize = 0;
        while i < self.sources.len()
            invariant
                i <= self.sources@.len(),
                open == exists|j: int| 0 <= j < i && paths_equal(#[trigger] self.sources@[j].path@, path@),
                active == exists|j: int|
                    0 <= j < i && paths_equal(#[trigger] self.sources@[j].path@, path@) && self.active_source
                        == Some(j as usize),
            decreases self.sources@.len() - i,
        {
            if same_path(&self.sources[i].path, path) {
                open = true;
                if self.active_source == Some(i) {
                    active = true;
                }
            }
            i = i + 1;
        }
        (open, active)
    }

    /// The record numbers the log view lists: the lines the filter kept
    /// when it is on, else every record of the active source (none without
    /// one).
    pub fn visible_lines(&self) -> (r: Vec<u64>)
        ensures
            r@ == if self.filter_enabled && self.filter_pattern@.len() > 0 {
                self.filtered_lines@
            } else {
                match active_backend_of(self.sources@, self.active_source) {
                    Some(b) => all_records(b.offsets.len()),
                    None => Seq::empty(),
                }
            },
    {
        if self.filter_enabled && !self.filter_pattern.as_str().is_empty() {
            let mut r: Vec<u64> = Vec::new();
            let mut i: usize = 0;
            while i < self.filtered_lines.len()
                invariant
                    i <= self.filtered_lines@.len(),
                    r@ == self.filtered_lines@.take(i as int),
                decreases self.filtered_lines@.len() - i,
            {
                r.push(self.filtered_lines[i]);
                i = i + 1;
                assert(r@ =~= self.filtered_lines@.take(i as int));
            }
            assert(self.filtered_lines@.take(i as int) =~= self.filtered_lines@);
            r
        } else {
            match self.active_backend() {
                Some(b) => record_numbers(b.record_count()),
                None => Vec::new(),
            }
        }
    }

    /// The record of the current match, if there is one.
    pub fn current_match_line(&self) -> (r: Option<u64>)
        ensures
            r == match self.current_match_index {
                Some(k) => if k < self.search_results@.len() {
                    Some(self.search_results@[k as int].record_index)
                } else {
                    None
                },
                None => None,
            },
    {
        match self.current_match_index {
            Some(k) => if k < self.search_results.len() {
                Some(self.search_results[k].record_index)
            } else {
                None
            },
            None => None,
        }
    }

    /// Whether record `line` is among the search results.
    pub fn is_hit(&self, line: u64) -> (r: bool)
        ensures
            r == exists|k: int|
                0 <= k < self.search_results@.len() && #[trigger] self.search_results@[k].record_index
                    == line,
    {
        let mut k: usize = 0;
        while k < self.search_results.len()
            invariant
                k <= self.search_results@.len(),
                forall|j: int| 0 <= j < k ==> #[trigger] self.search_results@[j].record_index != line,
            decreases self.search_results@.len() - k,
        {
            if self.search_results[k].record_index == line {
                return true;
            }
            k = k + 1;
        }
        false
    }
}

} // verus!
