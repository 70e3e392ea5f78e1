//! The views that can be open as tabs, and the transient state each one owns.

use crate::pkg_id::{id_text, PkgId, PkgIdView};
use crate::text::{decimal, push_decimal};
use vstd::prelude::*;
use vstd::string::StringExecFns;

verus! {

/// State of a package list view: the text typed into its filter box.
pub struct PkgListState {
    pub filter_string: String,
}

impl Default for PkgListState {
    fn default() -> (s: PkgListState)
        ensures
            s.filter_string@ == Seq::<char>::empty(),
    {
        PkgListState { filter_string: String::new() }
    }
}

/// Which half of a package detail view is shown.
#[derive(Clone, Copy, Debug, PartialEq, Eq, Structural)]
pub enum PkgTabTab {
    General,
    Files,
}

impl Default for PkgTabTab {
    fn default() -> (t: PkgTabTab)
        ensures
            t == PkgTabTab::General,
    {
        PkgTabTab::General
    }
}

/// State of a package detail view.
pub struct PkgTab {
    pub id: PkgId,
    pub tab: PkgTabTab,
    /// Set by the view itself to ask the layout to close it on the next pass.
    pub force_close: bool,
    pub files_filt_string: String,
}

impl PkgTab {
    /// A detail view of `id` as it is first opened: general half shown, no
    /// close request, empty file filter.
    pub fn new(id: PkgId) -> (tab: PkgTab)
        ensures
            tab.id == id,
            Tab::Pkg(tab)@ == fresh_pkg_tab(id@),
    {
        PkgTab { id, tab: PkgTabTab::General, force_close: false, files_filt_string: String::new() }
    }

    /// Records that the view asked to be closed.
    pub fn request_close(&mut self)
        ensures
            final(self).force_close,
            final(self).id == old(self).id,
            final(self).tab == old(self).tab,
            final(self).files_filt_string == old(self).files_filt_string,
    {
        self.force_close = true;
    }
}

/// An open view.
pub enum Tab {
    LocalPkgList(PkgListState),
    RemotePkgList(PkgListState),
    Pkg(PkgTab),
    ColorTheme,
}

/// What a `Tab` stands for in contracts: its kind and its state as plain
/// mathematical values.
pub enum TabView {
    LocalPkgList { filter: Seq<char> },
    RemotePkgList { filter: Seq<char> },
    Pkg { id: PkgIdView, sub: PkgTabTab, force_close: bool, files_filter: Seq<char> },
    ColorTheme,
}

impl View for Tab {
    type V = TabView;

    open spec fn view(&self) -> TabView {
        match *self {
            Tab::LocalPkgList(s) => TabView::LocalPkgList { filter: s.filter_string@ },
            Tab::RemotePkgList(s) => TabView::RemotePkgList { filter: s.filter_string@ },
            Tab::Pkg(p) => TabView::Pkg {
                id: p.id@,
                sub: p.tab,
                force_close: p.force_close,
                files_filter: p.files_filt_string@,
            },
            Tab::ColorTheme => TabView::ColorTheme,
        }
    }
}

/// The detail view of `id` in the state in which it is first opened.
pub open spec fn fresh_pkg_tab(id: PkgIdView) -> TabView {
    TabView::Pkg {
        id,
        sub: PkgTabTab::General,
        force_close: false,
        files_filter: Seq::<char>::empty(),
    }
}

/// Whether the tab is the detail view of package `id`.
pub open spec fn shows(tab: TabView, id: PkgIdView) -> bool {
    tab matches TabView::Pkg { id: shown, .. } && shown == id
}

/// Whether the tab is one of the two pinned package lists.
pub open spec fn is_list(tab: TabView) -> bool {
    tab is LocalPkgList || tab is RemotePkgList
}

/// The title of a tab. A package list shows how many packages there are in
/// all, a detail view the identifier of its package.
pub open spec fn title_text(tab: TabView, local_count: nat, remote_count: nat) -> Seq<char> {
    match tab {
        TabView::LocalPkgList { .. } => "Local packages ("@ + decimal(local_count) + ")"@,
        TabView::RemotePkgList { .. } => "Remote packages ("@ + decimal(remote_count) + ")"@,
        TabView::Pkg { id, .. } => "\u{1F4E6} "@ + id_text(id),
        TabView::ColorTheme => "\u{1F3A8} Color theme"@,
    }
}

impl Tab {
    /// The title of the tab, given the number of installed packages and the
    /// number of packages in the sync repositories.
    pub fn title(&self, local_count: usize, remote_count: usize) -> (title: String)
        ensures
            title@ == title_text(self@, local_count as nat, remote_count as nat),
    {
        match self {
            Tab::LocalPkgList(_) => {
                let mut title = String::from_str("Local packages (");
                push_decimal(&mut title, local_count);
                title.append(")");
                title
            },
            Tab::RemotePkgList(_) => {
                let mut title = String::from_str("Remote packages (");
                push_decimal(&mut title, remote_count);
                title.append(")");
                title
            },
            Tab::Pkg(pkg_tab) => {
                let mut title = String::from_str("\u{1F4E6} ");
                let id = pkg_tab.id.to_string();
                title.append(id.as_str());
                title
            },
            Tab::ColorTheme => String::from_str("\u{1F3A8} Color theme"),
        }
    }

    /// The tabs every layout starts with: the local and the remote list.
    pub fn default_tabs() -> (tabs: Vec<Tab>)
        ensures
            tabs.len() == 2,
            tabs[0]@ == (TabView::LocalPkgList { filter: Seq::<char>::empty() }),
            tabs[1]@ == (TabView::RemotePkgList { filter: Seq::<char>::empty() }),
    {
        let mut tabs: Vec<Tab> = Vec::new();
        tabs.push(Tab::LocalPkgList(PkgListState::default()));
        tabs.push(Tab::RemotePkgList(PkgListState::default()));
        tabs
    }

    /// Whether the user may close the tab: everything but the pinned lists.
    pub fn closeable(&self) -> (r: bool)
        ensures
            r == !is_list(self@),
    {
        match self {
            Tab::LocalPkgList(_) => false,
            Tab::RemotePkgList(_) => false,
            Tab::Pkg(_) => true,
            Tab::ColorTheme => true,
        }
    }

    /// Whether the tab asked to be closed: only a detail view can.
    pub fn force_close(&self) -> (r: bool)
        ensures
            r == (self@ matches TabView::Pkg { force_close, .. } && force_close),
    {
        match self {
            Tab::LocalPkgList(_) => false,
            Tab::Pkg(pkg_tab) => pkg_tab.force_close,
            Tab::RemotePkgList(_) => false,
            Tab::ColorTheme => false,
        }
    }

    /// Whether the tab is the detail view of package `id`.
    pub fn shows_pkg(&self, id: &PkgId) -> (r: bool)
        ensures
            r == shows(self@, id@),
    {
        match self {
            Tab::Pkg(pkg_tab) => pkg_tab.id == *id,
            _ => false,
        }
    }

    /// Whether the tab is one of the two pinned package lists.
    pub fn is_pkg_list(&self) -> (r: bool)
        ensures
            r == is_list(self@),
    {
        match self {
            Tab::LocalPkgList(_) => true,
            Tab::RemotePkgList(_) => true,
            _ => false,
        }
    }
}

} // verus!
