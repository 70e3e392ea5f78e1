//! The command queue, and the pass that applies it to the tab layout.

use crate::dispatch::{last_host, open_pkg_tab, opened};
use crate::dock::{dock_focus, dock_new, dock_surfaces, tab_views, NodeView, Surfaces};
use crate::pkg_id::{PkgId, PkgIdView};
use crate::tabs::{Tab, TabView};
use egui_dock::DockState;
use vstd::prelude::*;

verus! {

/// A request raised while the views are drawn, to be applied afterwards.
pub enum Cmd {
    /// Show the detail view of a package, opening it if need be.
    OpenPkgTab(PkgId),
}

/// What a `Cmd` stands for in contracts.
pub enum CmdView {
    OpenPkgTab(PkgIdView),
}

impl View for Cmd {
    type V = CmdView;

    open spec fn view(&self) -> CmdView {
        match *self {
            Cmd::OpenPkgTab(id) => CmdView::OpenPkgTab(id@),
        }
    }
}

/// The commands queued during one pass, oldest first.
pub struct CmdBuf {
    cmds: Vec<Cmd>,
}

impl View for CmdBuf {
    type V = Seq<CmdView>;

    closed spec fn view(&self) -> Seq<CmdView> {
        self.cmds@.map_values(|c: Cmd| c@)
    }
}

impl Default for CmdBuf {
    fn default() -> (buf: CmdBuf)
        ensures
            buf@ == Seq::<CmdView>::empty(),
    {
        CmdBuf { cmds: Vec::new() }
    }
}

impl CmdBuf {
    /// Appends a request; nothing happens until the queue is processed.
    pub fn push(&mut self, cmd: Cmd)
        ensures
            final(self)@ == old(self)@.push(cmd@),
    {
        self.cmds.push(cmd);
        assert(self.cmds@.map_values(|c: Cmd| c@) =~= old(self).cmds@.map_values(|c: Cmd| c@).push(
            cmd@,
        ));
    }

    /// The number of queued requests.
    pub fn len(&self) -> (n: usize)
        ensures
            n == self@.len(),
    {
        self.cmds.len()
    }
}

/// The layout after one command.
pub open spec fn applied(surfaces: Surfaces, cmd: CmdView) -> Surfaces {
    match cmd {
        CmdView::OpenPkgTab(id) => opened(surfaces, id),
    }
}

/// The layout after the commands, applied oldest first.
pub open spec fn applied_all(surfaces: Surfaces, cmds: Seq<CmdView>) -> Surfaces
    decreases cmds.len(),
{
    if cmds.len() == 0 {
        surfaces
    } else {
        applied(applied_all(surfaces, cmds.drop_last()), cmds.last())
    }
}

/// The tab layout together with the queue of requests raised against it.
pub struct UiState {
    pub dock_state: DockState<Tab>,
    pub cmd: CmdBuf,
}

impl Default for UiState {
    /// The state at startup: the two pinned package lists side by side in
    /// one leaf of the main surface, the local list active, nothing focused
    /// and nothing queued.
    fn default() -> (ui: UiState)
        ensures
            ui.cmd@ == Seq::<CmdView>::empty(),
            dock_surfaces(ui.dock_state) == seq![
                Some(
                    seq![
                        NodeView::Leaf {
                            tabs: seq![
                                TabView::LocalPkgList { filter: Seq::<char>::empty() },
                                TabView::RemotePkgList { filter: Seq::<char>::empty() },
                            ],
                            active: 0,
                        },
                    ],
                ),
            ],
            dock_focus(ui.dock_state) is None,
    {
        let tabs = Tab::default_tabs();
        assert(tab_views(tabs@) =~= seq![
            TabView::LocalPkgList { filter: Seq::<char>::empty() },
            TabView::RemotePkgList { filter: Seq::<char>::empty() },
        ]);
        UiState { dock_state: dock_new(tabs), cmd: CmdBuf::default() }
    }
}

/// Applies the queued requests to the layout, oldest first, and leaves the
/// queue empty.
///
/// Where the last request found its tab already open, the focus is on the
/// leaf that hosts it.
pub fn process_cmds(ui: &mut UiState)
    ensures
        final(ui).cmd@ == Seq::<CmdView>::empty(),
        dock_surfaces(final(ui).dock_state) == applied_all(
            dock_surfaces(old(ui).dock_state),
            old(ui).cmd@,
        ),
        old(ui).cmd@.len() == 0 ==> dock_focus(final(ui).dock_state) == dock_focus(
            old(ui).dock_state,
        ),
        old(ui).cmd@.len() > 0 ==> match old(ui).cmd@.last() {
            CmdView::OpenPkgTab(id) => last_host(
                applied_all(dock_surfaces(old(ui).dock_state), old(ui).cmd@.drop_last()),
                id,
            ) is Some ==> dock_focus(final(ui).dock_state) == last_host(
                applied_all(dock_surfaces(old(ui).dock_state), old(ui).cmd@.drop_last()),
                id,
            ),
        },
{
    let ghost before = dock_surfaces(ui.dock_state);
    let ghost cmds = ui.cmd@;
    let mut taken: Vec<Cmd> = Vec::new();
    core::mem::swap(&mut ui.cmd.cmds, &mut taken);
    assert(ui.cmd@ =~= Seq::<CmdView>::empty());
    for cmd in it: taken
        invariant
            ui.cmd@ == Seq::<CmdView>::empty(),
            it.seq().len() == cmds.len(),
            forall|k: int| 0 <= k < cmds.len() ==> (#[trigger] it.seq()[k])@ == cmds[k],
            dock_surfaces(ui.dock_state) == applied_all(before, cmds.take(it.index())),
            it.index() == 0 ==> dock_focus(ui.dock_state) == dock_focus(old(ui).dock_state),
            it.index() > 0 ==> match cmds[it.index() - 1] {
                CmdView::OpenPkgTab(id) => last_host(
                    applied_all(before, cmds.take(it.index() - 1)),
                    id,
                ) is Some ==> dock_focus(ui.dock_state) == last_host(
                    applied_all(before, cmds.take(it.index() - 1)),
                    id,
                ),
            },
    {
        proof {
            assert(cmds.take(it.index() + 1).drop_last() =~= cmds.take(it.index()));
            assert(cmds.take(it.index() + 1).last() == cmds[it.index()]);
        }
        match cmd {
            Cmd::OpenPkgTab(id) => open_pkg_tab(&mut ui.dock_state, id),
        }
    }
    assert(cmds.take(cmds.len() as int) =~= cmds);
    assert(cmds.len() > 0 ==> cmds.take(cmds.len() - 1) =~= cmds.drop_last());
}

} // verus!
