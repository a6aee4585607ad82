//! Tab selection of the monitor dashboard.
//!
//! Only the tab model lives here: which tabs exist, their titles, and the
//! mapping between tabs and their positions. Drawing and input belong to
//! the terminal frontend outside the library.

use vstd::prelude::*;

verus! {

/// The dashboard tabs, in display order.
#[derive(Debug, Clone, Copy, PartialEq, Eq, Structural)]
pub enum Tab {
    Overview,
    Routes,
    Config,
    Help,
}

impl Tab {
    /// The tab titles, in display order.
    pub fn titles() -> (r: Vec<&'static str>)
        ensures
            r@.len() == 4,
            r@[0]@ == "Overview"@,
            r@[1]@ == "Routes"@,
            r@[2]@ == "Config"@,
            r@[3]@ == "Help"@,
    {
        let mut r: Vec<&'static str> = Vec::new();
        r.push("Overview");
        r.push("Routes");
        r.push("Config");
        r.push("Help");
        r
    }

    /// The tab at a display position; out-of-range positions fall back to
    /// the overview.
    pub fn from_index(index: usize) -> (r: Self)
        ensures
            index == 0 ==> r == Tab::Overview,
            index == 1 ==> r == Tab::Routes,
            index == 2 ==> r == Tab::Config,
            index == 3 ==> r == Tab::Help,
            index > 3 ==> r == Tab::Overview,
    {
        match index {
            0 => Tab::Overview,
            1 => Tab::Routes,
            2 => Tab::Config,
            3 => Tab::Help,
            _ => Tab::Overview,
        }
    }

    /// The display position of a tab; `from_index` maps it back to the
    /// same tab.
    pub fn index(&self) -> (r: usize)
        ensures
            r < 4,
            *self == Tab::Overview ==> r == 0,
            *self == Tab::Routes ==> r == 1,
            *self == Tab::Config ==> r == 2,
            *self == Tab::Help ==> r == 3,
    {
        match self {
            Tab::Overview => 0,
            Tab::Routes => 1,
            Tab::Config => 2,
            Tab::Help => 3,
        }
    }
}

} // verus!
