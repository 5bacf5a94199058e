//! Workspaces: named sets of log files and directories to reopen together.

use vstd::prelude::*;
use crate::parser::strings_view;

verus! {

/// The time elapsed since the Unix epoch, as whole seconds and the
/// nanoseconds past them (`SystemTime::now().duration_since(UNIX_EPOCH)`),
/// or `None` when the clock reads earlier than the epoch. It depends on the
/// clock, so only the documented range of the nanoseconds is stated.
#[verifier::external_body]
fn unix_time() -> (r: Option<(u64, u32)>)
    ensures
        r matches Some((_, n)) ==> n < 1_000_000_000,
{
    std::time::SystemTime::now().duration_since(std::time::UNIX_EPOCH).ok().map(
        |d| (d.as_secs(), d.subsec_nanos()),
    )
}

/// The RFC 3339 text of the instant `secs` seconds and `nanos` nanoseconds
/// after the Unix epoch in UTC, when chrono can represent it.
pub uninterp spec fn rfc3339_text(secs: i64, nanos: u32) -> Option<Seq<char>>;

/// `chrono::DateTime::<Utc>::from_timestamp(secs, nanos)` (which returns
/// `None` out of its range and never panics), written with `to_rfc3339`.
#[verifier::external_body]
fn rfc3339_of(secs: i64, nanos: u32) -> (r: Option<String>)
    ensures
        match r {
            Some(t) => rfc3339_text(secs, nanos) == Some(t@),
            None => rfc3339_text(secs, nanos) is None,
        },
{
    chrono::DateTime::<chrono::Utc>::from_timestamp(secs, nanos).map(|t| t.to_rfc3339())
}

/// The current time as an RFC 3339 string; empty when the clock reads
/// before the Unix epoch or beyond what chrono represents.
fn now_rfc3339() -> String {
    match unix_time() {
        Some((secs, nanos)) => {
            if secs <= i64::MAX as u64 {
                match rfc3339_of(secs as i64, nanos) {
                    Some(t) => t,
                    None => String::new(),
                }
            } else {
                String::new()
            }
        },
        None => String::new(),
    }
}

/// Whether two paths are the same path, compared component by component as
/// `std::path::Path`'s `==` compares them (`logs//a.log` and `logs/a.log`
/// are the same path).
pub uninterp spec fn paths_equal(a: Seq<char>, b: Seq<char>) -> bool;

/// `Path::new(a) == Path::new(b)`, which compares the two paths' components.
/// `Path` is `Eq`, so a path is the same path as itself; what else counts as
/// the same path is left to the name.
#[verifier::external_body]
pub(crate) fn same_path(a: &String, b: &String) -> (r: bool)
    ensures
        r == paths_equal(a@, b@),
        a@ == b@ ==> r,
{
    std::path::Path::new(a.as_str()) == std::path::Path::new(b.as_str())
}

/// Whether the list holds a path that is the same path as `p`.
pub open spec fn has_path(s: Seq<Seq<char>>, p: Seq<char>) -> bool {
    exists|i: int| 0 <= i < s.len() && paths_equal(#[trigger] s[i], p)
}

/// The list without the paths that are the same path as `p`, in order.
pub open spec fn without_path(s: Seq<Seq<char>>, p: Seq<char>) -> Seq<Seq<char>> {
    s.filter(|e: Seq<char>| !paths_equal(e, p))
}

/// Whether `v` holds a path that is the same path as `x`.
pub fn contains_path(v: &Vec<String>, x: &String) -> (r: bool)
    ensures
        r == has_path(strings_view(v@), x@),
{
    let mut i: usize = 0;
    while i < v.len()
        invariant
            i <= v@.len(),
            forall|j: int| 0 <= j < i ==> !paths_equal(#[trigger] strings_view(v@)[j], x@),
        decreases v@.len() - i,
    {
        if same_path(&v[i], x) {
            assert(paths_equal(strings_view(v@)[i as int], x@));
            return true;
        }
        i = i + 1;
    }
    false
}

/// `v` without the paths that are the same path as `x`, keeping the order of
/// the others.
pub fn retain_other_paths(v: &mut Vec<String>, x: &String)
    ensures
        strings_view(final(v)@) == without_path(strings_view(old(v)@), x@),
{
    let ghost orig = strings_view(v@);
    let mut kept: Vec<String> = Vec::new();
    let mut i: usize = 0;
    while i < v.len()
        invariant
            orig == strings_view(v@),
            i <= v@.len(),
            strings_view(kept@) == without_path(orig.take(i as int), x@),
        decreases v@.len() - i,
    {
        let ghost before = kept@;
        proof {
            assert(orig.take(i + 1) =~= orig.take(i as int).push(orig[i as int]));
            orig.take(i as int).lemma_filter_push(orig[i as int], |e: Seq<char>| !paths_equal(e, x@));
        }
        if !same_path(&v[i], x) {
            kept.push(v[i].clone());
            assert(strings_view(kept@) =~= strings_view(before).push(v@[i as int]@));
        }
        i = i + 1;
    }
    assert(orig.take(i as int) =~= orig);
    *v = kept;
}

/// What `Workspace::add_file` makes of `old` for `path`: unchanged when it
/// already has the same path, else the path appended (the name,
/// directories, active source and creation time kept); either way the
/// files then include the path.
pub open spec fn file_added(old: Workspace, new: Workspace, path: Seq<char>) -> bool {
    &&& has_path(strings_view(new.log_files@), path)
    &&& if has_path(strings_view(old.log_files@), path) {
        new == old
    } else {
        &&& strings_view(new.log_files@) == strings_view(old.log_files@).push(path)
        &&& new.name == old.name
        &&& new.log_dirs == old.log_dirs
        &&& new.active_source == old.active_source
        &&& new.created_at == old.created_at
    }
}

/// What `Workspace::add_dir` makes of `old` for `path` (as `file_added`,
/// for the directories).
pub open spec fn dir_added(old: Workspace, new: Workspace, path: Seq<char>) -> bool {
    &&& has_path(strings_view(new.log_dirs@), path)
    &&& if has_path(strings_view(old.log_dirs@), path) {
        new == old
    } else {
        &&& strings_view(new.log_dirs@) == strings_view(old.log_dirs@).push(path)
        &&& new.name == old.name
        &&& new.log_files == old.log_files
        &&& new.active_source == old.active_source
        &&& new.created_at == old.created_at
    }
}

/// Adding a file twice is adding it once: the second `add_file` of the same
/// path leaves the workspace as the first left it, which has the path.
pub proof fn law_add_file_idempotent(w0: Workspace, w1: Workspace, w2: Workspace, path: Seq<char>)
    requires
        file_added(w0, w1, path),
        file_added(w1, w2, path),
    ensures
        w2 == w1,
        has_path(strings_view(w2.log_files@), path),
{
}

/// Adding a directory twice is adding it once.
pub proof fn law_add_dir_idempotent(w0: Workspace, w1: Workspace, w2: Workspace, path: Seq<char>)
    requires
        dir_added(w0, w1, path),
        dir_added(w1, w2, path),
    ensures
        w2 == w1,
        has_path(strings_view(w2.log_dirs@), path),
{
}

/// A workspace containing log sources.
pub struct Workspace {
    /// Workspace name
    pub name: String,
    /// Paths of the log files
    pub log_files: Vec<String>,
    /// Paths of the log directories
    pub log_dirs: Vec<String>,
    /// Last active source index
    pub active_source: Option<usize>,
    /// Creation timestamp
    pub created_at: String,
    /// Last modified timestamp
    pub modified_at: String,
}

/// The list without the entries equal to `x`, in order.
pub open spec fn without(s: Seq<Seq<char>>, x: Seq<char>) -> Seq<Seq<char>> {
    s.filter(|e: Seq<char>| e != x)
}

/// Whether `v` holds a string equal to `x`.
pub fn contains_string(v: &Vec<String>, x: &String) -> (r: bool)
    ensures
        r == strings_view(v@).contains(x@),
{
    let mut i: usize = 0;
    while i < v.len()
        invariant
            i <= v@.len(),
            forall|j: int| 0 <= j < i ==> strings_view(v@)[j] != x@,
        decreases v@.len() - i,
    {
        if v[i] == *x {
            assert(strings_view(v@)[i as int] == x@);
            return true;
        }
        i = i + 1;
    }
    false
}

/// `v` without the strings equal to `x`, keeping the order of the others.
pub fn retain_not_equal(v: &mut Vec<String>, x: &String)
    ensures
        strings_view(final(v)@) == without(strings_view(old(v)@), x@),
{
    let ghost orig = strings_view(v@);
    let mut kept: Vec<String> = Vec::new();
    let mut i: usize = 0;
    while i < v.len()
        invariant
            orig == strings_view(v@),
            i <= v@.len(),
            strings_view(kept@) == without(orig.take(i as int), x@),
        decreases v@.len() - i,
    {
        let ghost before = kept@;
        proof {
            assert(orig.take(i + 1) =~= orig.take(i as int).push(orig[i as int]));
            orig.take(i as int).lemma_filter_push(orig[i as int], |e: Seq<char>| e != x@);
        }
        if v[i] != *x {
            kept.push(v[i].clone());
            assert(strings_view(kept@) =~= strings_view(before).push(v@[i as int]@));
        }
        i = i + 1;
    }
    assert(orig.take(i as int) =~= orig);
    *v = kept;
}

impl Workspace {
    /// A new empty workspace named `name`, created and modified now.
    pub fn new(name: String) -> (w: Self)
        ensures
            w.name@ == name@,
            w.log_files@.len() == 0,
            w.log_dirs@.len() == 0,
            w.active_source is None,
            w.created_at@ == w.modified_at@,
    {
        let now = now_rfc3339();
        Self {
            name,
            log_files: Vec::new(),
            log_dirs: Vec::new(),
            active_source: None,
            created_at: now.clone(),
            modified_at: now,
        }
    }

    /// Add a log file unless the workspace already has the same path (then
    /// it is unchanged; otherwise the path is appended and the modification
    /// time updated). Either way the workspace then has the path.
    pub fn add_file(&mut self, path: String)
        ensures
            file_added(*old(self), *final(self), path@),
    {
        if !contains_path(&self.log_files, &path) {
            let ghost before = self.log_files@;
            let _same = same_path(&path, &path);
            self.log_files.push(path);
            assert(strings_view(self.log_files@) =~= strings_view(before).push(path@));
            assert(paths_equal(strings_view(self.log_files@)[before.len() as int], path@));
            self.modified_at = now_rfc3339();
        }
    }

    /// Add a log directory unless the workspace already has the same path
    /// (as `add_file` does for files).
    pub fn add_dir(&mut self, path: String)
        ensures
            dir_added(*old(self), *final(self), path@),
    {
        if !contains_path(&self.log_dirs, &path) {
            let ghost before = self.log_dirs@;
            let _same = same_path(&path, &path);
            self.log_dirs.push(path);
            assert(strings_view(self.log_dirs@) =~= strings_view(before).push(path@));
            assert(paths_equal(strings_view(self.log_dirs@)[before.len() as int], path@));
            self.modified_at = now_rfc3339();
        }
    }

    /// Remove every path that is the same path as a log file (the modification time is
    /// updated).
    pub fn remove_file(&mut self, path: &String)
        ensures
            strings_view(final(self).log_files@) == without_path(strings_view(old(self).log_files@), path@),
            final(self).name == old(self).name,
            final(self).log_dirs == old(self).log_dirs,
            final(self).active_source == old(self).active_source,
            final(self).created_at == old(self).created_at,
    {
        retain_other_paths(&mut self.log_files, path);
        self.modified_at = now_rfc3339();
    }

    /// Remove every path that is the same path as a log directory (the modification time is
    /// updated).
    pub fn remove_dir(&mut self, path: &String)
        ensures
            strings_view(final(self).log_dirs@) == without_path(strings_view(old(self).log_dirs@), path@),
            final(self).name == old(self).name,
            final(self).log_files == old(self).log_files,
            final(self).active_source == old(self).active_source,
            final(self).created_at == old(self).created_at,
    {
        retain_other_paths(&mut self.log_dirs, path);
        self.modified_at = now_rfc3339();
    }
}

} // verus!
