//! Keeping open sources up to date: reloading the active source, noticing
//! files that grew, and the sizes last seen of each file.

use vstd::prelude::*;
use std::sync::Arc;
use crate::backend::{BackendView, LogBackend};
use crate::domain::FileFingerprint;
use crate::state::{AppState, LogSource, no_file_status, researched};
use crate::text::{decimal, push_decimal};

verus! {

/// The index of the first entry for `path` at or after `i`.
pub open spec fn size_entry_from(sizes: Seq<(String, u64)>, path: Seq<char>, i: int) -> Option<int>
    decreases sizes.len() - i,
{
    if i < 0 || i >= sizes.len() {
        None
    } else if sizes[i].0@ == path {
        Some(i)
    } else {
        size_entry_from(sizes, path, i + 1)
    }
}

/// The size recorded for a path, if any (its first entry).
pub open spec fn recorded_size(sizes: Seq<(String, u64)>, path: Seq<char>) -> Option<u64> {
    match size_entry_from(sizes, path, 0) {
        Some(k) => Some(sizes[k].1),
        None => None,
    }
}

/// The first entry found lies at or after `i`, holds the path, and no
/// entry between `i` and it does.
proof fn lemma_size_entry_found(sizes: Seq<(String, u64)>, path: Seq<char>, i: int)
    requires
        0 <= i,
    ensures
        match size_entry_from(sizes, path, i) {
            Some(k) => i <= k < sizes.len() && sizes[k].0@ == path && forall|j: int|
                i <= j < k ==> sizes[j].0@ != path,
            None => forall|j: int| i <= j < sizes.len() ==> sizes[j].0@ != path,
        },
    decreases sizes.len() - i,
{
    if i < sizes.len() && sizes[i].0@ != path {
        lemma_size_entry_found(sizes, path, i + 1);
    }
}

/// Entries are looked up by their keys alone.
proof fn lemma_size_entry_same_keys(
    a: Seq<(String, u64)>,
    b: Seq<(String, u64)>,
    path: Seq<char>,
    i: int,
)
    requires
        0 <= i,
        a.len() == b.len(),
        forall|j: int| 0 <= j < a.len() ==> a[j].0@ == b[j].0@,
    ensures
        size_entry_from(a, path, i) == size_entry_from(b, path, i),
    decreases a.len() - i,
{
    if i < a.len() {
        lemma_size_entry_same_keys(a, b, path, i + 1);
    }
}

/// An entry added at the end is found only for a path that had none.
proof fn lemma_size_entry_push(a: Seq<(String, u64)>, e: (String, u64), path: Seq<char>, i: int)
    requires
        0 <= i <= a.len(),
    ensures
        size_entry_from(a.push(e), path, i) == match size_entry_from(a, path, i) {
            Some(k) => Some(k),
            None => if e.0@ == path {
                Some(a.len() as int)
            } else {
                None
            },
        },
    decreases a.len() - i,
{
    if i < a.len() {
        assert(a.push(e)[i] == a[i]);
        lemma_size_entry_push(a, e, path, i + 1);
    } else {
        assert(a.push(e)[i] == e);
        assert(size_entry_from(a.push(e), path, i + 1) is None);
    }
}

/// The size recorded for `path` in `sizes`.
fn lookup_size(sizes: &Vec<(String, u64)>, path: &String) -> (r: Option<u64>)
    ensures
        r == recorded_size(sizes@, path@),
{
    let mut i: usize = 0;
    while i < sizes.len()
        invariant
            i <= sizes@.len(),
            size_entry_from(sizes@, path@, 0) == size_entry_from(sizes@, path@, i as int),
        decreases sizes@.len() - i,
    {
        if sizes[i].0 == *path {
            return Some(sizes[i].1);
        }
        i = i + 1;
    }
    None
}

/// Record `size` as the size of the file at `path` (replacing what was
/// recorded for it).
pub(crate) fn record_size(sizes: &mut Vec<(String, u64)>, path: &String, size: u64)
    ensures
        forall|p: Seq<char>|
            #[trigger] recorded_size(final(sizes)@, p) == if p == path@ {
                Some(size)
            } else {
                recorded_size(old(sizes)@, p)
            },
{
    let mut i: usize = 0;
    while i < sizes.len()
        invariant
            i <= sizes@.len(),
            sizes@ == old(sizes)@,
            forall|j: int| 0 <= j < i ==> sizes@[j].0@ != path@,
        decreases sizes@.len() - i,
    {
        if sizes[i].0 == *path {
            let entry = (path.clone(), size);
            sizes.set(i, entry);
            proof {
                let a = old(sizes)@;
                let b = sizes@;
                assert forall|p: Seq<char>| #[trigger]
                    recorded_size(b, p) == if p == path@ {
                        Some(size)
                    } else {
                        recorded_size(a, p)
                    } by {
                    lemma_size_entry_same_keys(a, b, p, 0);
                    lemma_size_entry_found(a, p, 0);
                    lemma_size_entry_found(a, path@, 0);
                }
            }
            return;
        }
        i = i + 1;
    }
    let entry = (path.clone(), size);
    sizes.push(entry);
    proof {
        let a = old(sizes)@;
        assert forall|p: Seq<char>| #[trigger]
            recorded_size(sizes@, p) == if p == path@ {
                Some(size)
            } else {
                recorded_size(a, p)
            } by {
            assert(sizes@ == a.push(sizes@[a.len() as int]));
            lemma_size_entry_push(a, sizes@[a.len() as int], p, 0);
            lemma_size_entry_found(a, p, 0);
        }
    }
}

/// The status after reloading a source that had `old_n` records and now
/// has `new_n`.
pub open spec fn refresh_status(old_n: u64, new_n: u64) -> Seq<char> {
    if new_n > old_n {
        "刷新完成: 新增 "@ + decimal((new_n - old_n) as nat) + " 条记录"@
    } else {
        "刷新完成: 无新增"@
    }
}

/// `f` holds the sources of `o` with source `i` read anew as `b`.
pub open spec fn sources_with_backend(
    o: Seq<LogSource>,
    i: int,
    b: BackendView,
    f: Seq<LogSource>,
) -> bool {
    &&& f.len() == o.len()
    &&& forall|k: int| 0 <= k < o.len() && k != i ==> f[k] == o[k]
    &&& f[i].id == o[i].id
    &&& f[i].name == o[i].name
    &&& f[i].path == o[i].path
    &&& f[i].format == o[i].format
    &&& f[i].backend@ == b
}

/// `f` is `o` after taking the outcome of reopening the active source's file
/// (`None` when it was not reopened): the new contents replace the old, the
/// status reports how many records were added, and the search runs again
/// quietly; a failure is reported; without an active source that is
/// reported.
pub open spec fn refreshed(o: AppState, reopened: Option<Result<LogBackend, String>>, f: AppState) -> bool {
    match o.active_source {
        Some(i) if i < o.sources@.len() => match reopened {
            None => f == o,
            Some(Err(msg)) => {
                &&& f.status_message@ == "刷新失败: "@ + msg@
                &&& f == AppState { status_message: f.status_message, ..o }
            },
            Some(Ok(b)) => {
                let m = AppState { sources: f.sources, status_message: f.status_message, ..o };
                &&& sources_with_backend(o.sources@, i as int, b@, f.sources@)
                &&& f.status_message@ == refresh_status(
                    o.sources@[i as int].backend@.offsets.len() as u64,
                    b@.offsets.len() as u64,
                )
                &&& researched(m, f)
            },
        },
        _ => {
            &&& f.status_message@ == no_file_status()
            &&& f == AppState { status_message: f.status_message, ..o }
        },
    }
}

/// Reloading keeps the view where it was: whatever came of reopening the
/// file, the scroll position and the filtered lines stay as they were.
pub proof fn law_refresh_keeps_position(
    o: AppState,
    reopened: Option<Result<LogBackend, String>>,
    f: AppState,
)
    requires
        refreshed(o, reopened, f),
    ensures
        f.scroll_to_line == o.scroll_to_line,
        f.filtered_lines == o.filtered_lines,
        f.search_query == o.search_query,
{
}

/// The status after reloading (see `refresh_status`).
fn refresh_status_text(old_n: u64, new_n: u64) -> (s: String)
    ensures
        s@ == refresh_status(old_n, new_n),
{
    if new_n > old_n {
        let mut s = String::new();
        s.append("刷新完成: 新增 ");
        push_decimal(&mut s, new_n - old_n);
        s.append(" 条记录");
        s
    } else {
        String::from_str("刷新完成: 无新增")
    }
}

/// The sizes are one per source.
pub open spec fn sizes_fit(state: AppState, sizes: Seq<Option<u64>>) -> bool {
    sizes.len() == state.sources@.len()
}

/// The recorded sizes after recording the current size of every source that
/// has one (`current[k]` for source `k`).
pub open spec fn sizes_recorded(
    old_sizes: Seq<(String, u64)>,
    sources: Seq<LogSource>,
    current: Seq<Option<u64>>,
    new_sizes: Seq<(String, u64)>,
) -> bool {
    forall|p: Seq<char>|
        #[trigger] recorded_size(new_sizes, p) == match last_size_for(sources, current, p, sources.len() as int) {
            Some(s) => Some(s),
            None => recorded_size(old_sizes, p),
        }
}

/// The last current size, among the first `n` sources, of a source with
/// path `p`.
pub open spec fn last_size_for(
    sources: Seq<LogSource>,
    current: Seq<Option<u64>>,
    p: Seq<char>,
    n: int,
) -> Option<u64>
    decreases n,
{
    if n <= 0 {
        None
    } else if sources[n - 1].path@ == p && current[n - 1] is Some {
        current[n - 1]
    } else {
        last_size_for(sources, current, p, n - 1)
    }
}

/// Whether a file whose current fingerprint is `current` (`None` when it
/// cannot be read) was modified since a backend read it with fingerprint
/// `loaded`: it can be read and its size or modification time differs.
pub open spec fn file_changed(current: Option<FileFingerprint>, loaded: FileFingerprint) -> bool {
    match current {
        Some(c) => c != loaded,
        None => false,
    }
}

/// The indices among the first `n` sources whose files changed since their
/// backends read them, in order.
pub open spec fn changed_sources(
    sources: Seq<LogSource>,
    current: Seq<Option<FileFingerprint>>,
    n: nat,
) -> Seq<usize>
    decreases n,
{
    if n == 0 {
        Seq::empty()
    } else {
        let prev = changed_sources(sources, current, (n - 1) as nat);
        if file_changed(current[n - 1], sources[n - 1].backend@.fingerprint) {
            prev.push((n - 1) as usize)
        } else {
            prev
        }
    }
}

/// The status the last reopened source (in index order, among the first
/// `n`) reports: how many records it gained, or why it failed.
pub open spec fn last_refresh_report(
    sources: Seq<LogSource>,
    reopened: Seq<Option<Result<LogBackend, String>>>,
    n: int,
) -> Option<Seq<char>>
    decreases n,
{
    if n <= 0 {
        None
    } else {
        match reopened[n - 1] {
            Some(Ok(b)) => Some(
                refresh_status(sources[n - 1].backend@.offsets.len() as u64, b@.offsets.len() as u64),
            ),
            Some(Err(msg)) => Some("刷新失败: "@ + msg@),
            None => last_refresh_report(sources, reopened, n - 1),
        }
    }
}

/// `f` is `o` after taking the outcome of reopening the sources'
/// files (`reopened[k]` for source `k`, `None` when it was not reopened):
/// every source read anew gets its new backend and the others stay as they
/// were; the status reports on the last one reopened; and when the active
/// source was read anew its search runs again quietly.
pub open spec fn refreshed_sources(
    o: AppState,
    reopened: Seq<Option<Result<LogBackend, String>>>,
    f: AppState,
) -> bool {
    let m = AppState { sources: f.sources, status_message: f.status_message, ..o };
    &&& f.sources@.len() == o.sources@.len()
    &&& forall|k: int|
        0 <= k < o.sources@.len() ==> match #[trigger] reopened[k] {
            Some(Ok(b)) => {
                &&& f.sources@[k].id == o.sources@[k].id
                &&& f.sources@[k].name == o.sources@[k].name
                &&& f.sources@[k].path == o.sources@[k].path
                &&& f.sources@[k].format == o.sources@[k].format
                &&& f.sources@[k].backend@ == b@
            },
            _ => f.sources@[k] == o.sources@[k],
        }
    &&& f.status_message@ == match last_refresh_report(o.sources@, reopened, o.sources@.len() as int) {
        Some(t) => t,
        None => o.status_message@,
    }
    &&& if (match o.active_source {
        Some(i) => i < o.sources@.len() && reopened[i as int] matches Some(Ok(_)),
        None => false,
    }) {
        researched(m, f)
    } else {
        f == m
    }
}

/// The first source, from `k` on, whose file grew past its recorded size.
pub open spec fn first_grown_from(
    sources: Seq<LogSource>,
    current: Seq<Option<u64>>,
    sizes: Seq<(String, u64)>,
    k: int,
) -> Option<int>
    decreases sources.len() - k,
{
    if k < 0 || k >= sources.len() {
        None
    } else if current[k] matches Some(c) && c > match recorded_size(sizes, sources[k].path@) {
        Some(s) => s,
        None => c,
    } {
        Some(k)
    } else {
        first_grown_from(sources, current, sizes, k + 1)
    }
}

/// The source found lies among the sources, from `k` on.
proof fn lemma_first_grown_in_range(
    sources: Seq<LogSource>,
    current: Seq<Option<u64>>,
    sizes: Seq<(String, u64)>,
    k: int,
)
    requires
        0 <= k,
    ensures
        first_grown_from(sources, current, sizes, k) matches Some(j) ==> k <= j < sources.len(),
    decreases sources.len() - k,
{
    if k < sources.len() {
        lemma_first_grown_in_range(sources, current, sizes, k + 1);
    }
}

impl AppState {
    /// Take the outcome of reopening the active source's file (see
    /// `refreshed`).
    pub fn refresh_current(&mut self, reopened: Option<Result<LogBackend, String>>)
        ensures
            refreshed(*old(self), reopened, *final(self)),
            old(self).wf() ==> final(self).wf(),
    {
        let i = match self.active_source {
            Some(i) => {
                if i < self.sources.len() {
                    i
                } else {
                    self.status_message = String::from_str("没有打开的日志文件");
                    return;
                }
            },
            None => {
                self.status_message = String::from_str("没有打开的日志文件");
                return;
            },
        };
        match reopened {
            None => {},
            Some(Err(msg)) => {
                let mut s = String::new();
                s.append("刷新失败: ");
                s.append(msg.as_str());
                self.status_message = s;
            },
            Some(Ok(b)) => {
                let old_count = self.sources[i].backend.record_count();
                let new_count = b.record_count();
                let mut src = self.sources.remove(i);
                src.backend = Arc::new(b);
                self.sources.insert(i, src);
                self.status_message = refresh_status_text(old_count, new_count);
                if !self.search_query.pattern.as_str().is_empty() {
                    self.search_current_no_scroll();
                }
            },
        }
    }

    /// Record the current size of every source's file (`current[k]` for
    /// source `k`, `None` when it could not be read).
    pub fn update_file_sizes(&mut self, current: &Vec<Option<u64>>)
        requires
            sizes_fit(*old(self), current@),
        ensures
            sizes_recorded(old(self).file_sizes@, old(self).sources@, current@, final(self).file_sizes@),
            *final(self) == (AppState { file_sizes: final(self).file_sizes, ..*old(self) }),
    {
        let mut k: usize = 0;
        while k < self.sources.len()
            invariant
                k <= self.sources@.len(),
                current@.len() == self.sources@.len(),
                self.sources == old(self).sources,
                *self == (AppState { file_sizes: self.file_sizes, ..*old(self) }),
                forall|p: Seq<char>|
                    #[trigger] recorded_size(self.file_sizes@, p) == match last_size_for(
                        self.sources@,
                        current@,
                        p,
                        k as int,
                    ) {
                        Some(s) => Some(s),
                        None => recorded_size(old(self).file_sizes@, p),
                    },
            decreases self.sources@.len() - k,
        {
            match current[k] {
                Some(size) => {
                    record_size(&mut self.file_sizes, &self.sources[k].path, size);
                },
                None => {},
            }
            k = k + 1;
        }
    }

    /// The sources an automatic refresh reloads (`current[k]` is the
    /// fingerprint of source `k`'s file now): none unless auto-refresh is on
    /// and a second or more has passed since the last reload; then every
    /// source whose file changed since its backend read it.
    pub fn sources_to_refresh(&self, seconds_since_refresh: u64, current: &Vec<Option<FileFingerprint>>) -> (r: Vec<usize>)
        requires
            current@.len() == self.sources@.len(),
        ensures
            r@ == if self.auto_refresh && seconds_since_refresh >= 1 {
                changed_sources(self.sources@, current@, self.sources@.len())
            } else {
                Seq::empty()
            },
    {
        let mut r: Vec<usize> = Vec::new();
        if !self.auto_refresh || seconds_since_refresh < 1 {
            return r;
        }
        let mut k: usize = 0;
        while k < self.sources.len()
            invariant
                k <= self.sources@.len(),
                current@.len() == self.sources@.len(),
                r@ == changed_sources(self.sources@, current@, k as nat),
            decreases self.sources@.len() - k,
        {
            let loaded = self.sources[k].backend.fingerprint();
            let changed = match current[k] {
                Some(c) => c != loaded,
                None => false,
            };
            if changed {
                r.push(k);
            }
            k = k + 1;
        }
        r
    }

    /// Whether some file changed since the last reload: a second or more
    /// has passed and some source's file (`current[k]` is the fingerprint of
    /// source `k`'s file now) differs in size or modification time from
    /// when its backend read it.
    pub fn check_file_changes(&self, seconds_since_refresh: u64, current: &Vec<Option<FileFingerprint>>) -> (r:
        bool)
        requires
            current@.len() == self.sources@.len(),
        ensures
            r == (seconds_since_refresh >= 1 && exists|k: int|
                0 <= k < self.sources@.len() && #[trigger] file_changed(
                    current@[k],
                    self.sources@[k].backend@.fingerprint,
                )),
    {
        if seconds_since_refresh < 1 {
            return false;
        }
        let mut k: usize = 0;
        while k < self.sources.len()
            invariant
                k <= self.sources@.len(),
                seconds_since_refresh >= 1,
                current@.len() == self.sources@.len(),
                forall|j: int|
                    0 <= j < k ==> !#[trigger] file_changed(
                        current@[j],
                        self.sources@[j].backend@.fingerprint,
                    ),
            decreases self.sources@.len() - k,
        {
            let loaded = self.sources[k].backend.fingerprint();
            match current[k] {
                Some(c) => {
                    if c != loaded {
                        assert(file_changed(current@[k as int], self.sources@[k as int].backend@.fingerprint));
                        return true;
                    }
                },
                None => {},
            }
            k = k + 1;
        }
        false
    }

    /// Take the outcome of reopening the sources' files (see
    /// `refreshed_sources`).
    pub fn refresh_sources(&mut self, reopened: Vec<Option<Result<LogBackend, String>>>)
        requires
            reopened@.len() == old(self).sources@.len(),
        ensures
            refreshed_sources(*old(self), reopened@, *final(self)),
            old(self).wf() ==> final(self).wf(),
    {
        let ghost all = reopened@;
        let ghost o = *self;
        let mut pending = reopened;
        let mut reported = false;
        let mut active_reloaded = false;
        let mut k: usize = self.sources.len();
        while k > 0
            invariant
                k <= self.sources@.len(),
                pending@ == all.take(k as int),
                all.len() == o.sources@.len(),
                self.sources@.len() == o.sources@.len(),
                *self == (AppState { sources: self.sources, status_message: self.status_message, ..o }),
                forall|j: int| 0 <= j < k ==> self.sources@[j] == o.sources@[j],
                forall|j: int|
                    k <= j < o.sources@.len() ==> match #[trigger] all[j] {
                        Some(Ok(b)) => {
                            &&& self.sources@[j].id == o.sources@[j].id
                            &&& self.sources@[j].name == o.sources@[j].name
                            &&& self.sources@[j].path == o.sources@[j].path
                            &&& self.sources@[j].format == o.sources@[j].format
                            &&& self.sources@[j].backend@ == b@
                        },
                        _ => self.sources@[j] == o.sources@[j],
                    },
                reported ==> self.status_message@ == last_refresh_report(
                    o.sources@,
                    all,
                    o.sources@.len() as int,
                ).unwrap() && last_refresh_report(o.sources@, all, o.sources@.len() as int) is Some,
                !reported ==> self.status_message == o.status_message && last_refresh_report(
                    o.sources@,
                    all,
                    o.sources@.len() as int,
                ) == last_refresh_report(o.sources@, all, k as int),
                active_reloaded == (match o.active_source {
                    Some(i) => k <= i < o.sources@.len() && all[i as int] matches Some(Ok(_)),
                    None => false,
                }),
            decreases k,
        {
            k = k - 1;
            let item = pending.pop().unwrap();
            assert(item == all[k as int]);
            match item {
                Some(Ok(b)) => {
                    let old_count = self.sources[k].backend.record_count();
                    let new_count = b.record_count();
                    let mut src = self.sources.remove(k);
                    src.backend = Arc::new(b);
                    self.sources.insert(k, src);
                    if !reported {
                        self.status_message = refresh_status_text(old_count, new_count);
                        reported = true;
                    }
                    if self.active_source == Some(k) {
                        active_reloaded = true;
                    }
                },
                Some(Err(msg)) => {
                    if !reported {
                        let mut s = String::new();
                        s.append("刷新失败: ");
                        s.append(msg.as_str());
                        self.status_message = s;
                        reported = true;
                    }
                },
                None => {},
            }
        }
        if active_reloaded && !self.search_query.pattern.as_str().is_empty() {
            self.search_current_no_scroll();
        }
    }

    /// Look for files that grew while auto-refresh is off: nothing happens
    /// (and `false` is returned) when auto-refresh is on, the update dialog
    /// is showing, or less than five seconds passed since the last look.
    /// Otherwise the first source whose file is larger than its recorded
    /// size opens the update dialog with "文件 'name' 存在更新", every current
    /// size is recorded, and `true` is returned.
    pub fn check_file_changes_for_dialog(
        &mut self,
        seconds_since_check: u64,
        current: &Vec<Option<u64>>,
    ) -> (checked: bool)
        requires
            sizes_fit(*old(self), current@),
        ensures
            ({
                let o = *old(self);
                let f = *final(self);
                if o.auto_refresh || o.show_update_dialog || seconds_since_check < 5 {
                    !checked && f == o
                } else {
                    &&& checked
                    &&& match first_grown_from(o.sources@, current@, o.file_sizes@, 0) {
                        Some(k) => {
                            &&& f.show_update_dialog
                            &&& f.status_message@ == "文件 '"@ + o.sources@[k].name@ + "' 存在更新"@
                        },
                        None => {
                            &&& f.show_update_dialog == o.show_update_dialog
                            &&& f.status_message == o.status_message
                        },
                    }
                    &&& sizes_recorded(o.file_sizes@, o.sources@, current@, f.file_sizes@)
                    &&& f == AppState {
                        show_update_dialog: f.show_update_dialog,
                        status_message: f.status_message,
                        file_sizes: f.file_sizes,
                        ..o
                    }
                }
            }),
    {
        if self.auto_refresh || self.show_update_dialog || seconds_since_check < 5 {
            return false;
        }
        let mut k: usize = 0;
        let mut grown: Option<usize> = None;
        while k < self.sources.len()
            invariant_except_break
                k <= self.sources@.len(),
                current@.len() == self.sources@.len(),
                *self == *old(self),
                grown is None,
                first_grown_from(self.sources@, current@, self.file_sizes@, 0) == first_grown_from(
                    self.sources@,
                    current@,
                    self.file_sizes@,
                    k as int,
                ),
            ensures
                *self == *old(self),
                current@.len() == self.sources@.len(),
                match first_grown_from(self.sources@, current@, self.file_sizes@, 0) {
                    Some(j) => grown == Some(j as usize),
                    None => grown is None,
                },
            decreases self.sources@.len() - k,
        {
            let recorded = lookup_size(&self.file_sizes, &self.sources[k].path);
            match current[k] {
                Some(size) => {
                    let last = match recorded {
                        Some(s) => s,
                        None => size,
                    };
                    if size > last {
                        grown = Some(k);
                        break;
                    }
                },
                None => {},
            }
            k = k + 1;
        }
        let n_sources = self.sources.len();
        proof {
            lemma_first_grown_in_range(self.sources@, current@, self.file_sizes@, 0);
            assert(n_sources == self.sources@.len());
        }
        match grown {
            Some(j) => {
                self.show_update_dialog = true;
                let mut s = String::new();
                s.append("文件 '");
                s.append(self.sources[j].name.as_str());
                s.append("' 存在更新");
                self.status_message = s;
            },
            None => {},
        }
        self.update_file_sizes(current);
        true
    }

    /// Close the update dialog and reload the active source (see
    /// `refreshed`).
    pub fn accept_file_reload(&mut self, reopened: Option<Result<LogBackend, String>>)
        ensures
            refreshed(AppState { show_update_dialog: false, ..*old(self) }, reopened, *final(self)),
            old(self).wf() ==> final(self).wf(),
    {
        self.show_update_dialog = false;
        self.refresh_current(reopened);
    }

    /// Close the update dialog and record the current sizes, so the same
    /// growth does not ask again.
    pub fn decline_file_reload(&mut self, current: &Vec<Option<u64>>)
        requires
            sizes_fit(*old(self), current@),
        ensures
            sizes_recorded(old(self).file_sizes@, old(self).sources@, current@, final(self).file_sizes@),
            *final(self) == (AppState {
                show_update_dialog: false,
                file_sizes: final(self).file_sizes,
                ..*old(self)
            }),
    {
        self.show_update_dialog = false;
        self.update_file_sizes(current);
    }
}

} // verus!
