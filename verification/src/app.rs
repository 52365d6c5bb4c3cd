//! The application's tabs.

use vstd::prelude::*;

verus! {

/// The tabs of the main window.
#[derive(Debug, Clone, Copy, PartialEq, Eq, Structural)]
pub enum Tab {
    Crawl,
    Library,
    Export,
}

pub open spec fn tab_label(t: Tab) -> Seq<char> {
    match t {
        Tab::Crawl => "Crawl"@,
        Tab::Library => "Library"@,
        Tab::Export => "Export"@,
    }
}

pub open spec fn tab_icon(t: Tab) -> Seq<char> {
    match t {
        Tab::Crawl => "🜲"@,
        Tab::Library => "🕮"@,
        Tab::Export => "⇪"@,
    }
}

impl Tab {
    /// The tab's name in the sidebar.
    pub fn label(self) -> (res: &'static str)
        ensures
            res@ == tab_label(self),
    {
        match self {
            Tab::Crawl => "Crawl",
            Tab::Library => "Library",
            Tab::Export => "Export",
        }
    }

    /// The tab's icon in the sidebar.
    pub fn icon(self) -> (res: &'static str)
        ensures
            res@ == tab_icon(self),
    {
        match self {
            Tab::Crawl => "🜲",
            Tab::Library => "🕮",
            Tab::Export => "⇪",
        }
    }
}

} // verus!
