//! Sessions: the sources, window and search settings saved between runs.

use vstd::prelude::*;
use crate::domain::LogFormat;

verus! {

/// A saved session.
pub struct Session {
    pub version: u32,
    pub name: String,
    pub sources: Vec<SessionSource>,
    pub window: WindowState,
    pub search: SearchState,
}

/// A source of a session: its file and format.
pub struct SessionSource {
    pub path: String,
    pub format: LogFormat,
}

/// The window's size and state.
#[derive(Debug, Clone, Copy, PartialEq, Eq, Structural)]
pub struct WindowState {
    pub width: u32,
    pub height: u32,
    pub maximized: bool,
}

/// The search box's content.
pub struct SearchState {
    pub keyword: String,
    pub regex: bool,
}

impl Session {
    /// The session used when none was saved: version 1, named "Default", no
    /// sources, a 1600x900 window that is not maximized, an empty plain-text
    /// search.
    pub fn default_session() -> (s: Self)
        ensures
            s.version == 1,
            s.name@ == "Default"@,
            s.sources@.len() == 0,
            s.window == (WindowState { width: 1600, height: 900, maximized: false }),
            s.search.keyword@.len() == 0,
            !s.search.regex,
    {
        Self {
            version: 1,
            name: String::from_str("Default"),
            sources: Vec::new(),
            window: WindowState { width: 1600, height: 900, maximized: false },
            search: SearchState { keyword: String::new(), regex: false },
        }
    }
}

} // verus!
