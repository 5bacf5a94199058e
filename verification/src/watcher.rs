//! Events reported by the file watcher.

use vstd::prelude::*;
use crate::domain::SourceId;

verus! {

/// A change to a watched log file.
pub enum WatchEvent {
    Modified(SourceId),
    Rotated(SourceId),
    Error(String),
}

} // verus!
