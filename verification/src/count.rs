//! Counting the tabs of a layout that show a given package, and what
//! requests to show a package do to that count: they never open a second
//! tab for a package that has one.

use crate::cmd::{applied_all, CmdView};
use crate::dispatch::{
    activate_node, activate_prefix, activate_surface, activate_surfaces, activated, free_leaf,
    has_room, hosting, hosts, last_free_leaf, last_host, last_shown, lemma_first_slot, opened,
    opens, showing, surface_hosting,
};
use crate::dock::{
    dock_focus, dock_surfaces, first_slot, has_node, push_into, NodeView, Surfaces,
};
use crate::pkg_id::PkgIdView;
use crate::search::{last_where, lemma_last_where, lemma_last_where_agree};
use crate::tabs::{fresh_pkg_tab, shows, Tab, TabView};
use egui_dock::DockState;
use vstd::prelude::*;

verus! {

/// The number of tabs among `tabs` that are the detail view of `id`.
pub open spec fn count_in_tabs(tabs: Seq<TabView>, id: PkgIdView) -> nat
    decreases tabs.len(),
{
    if tabs.len() == 0 {
        0
    } else {
        count_in_tabs(tabs.drop_last(), id) + if shows(tabs.last(), id) {
            1nat
        } else {
            0nat
        }
    }
}

/// The number of detail views of `id` that the node hosts.
pub open spec fn count_in_node(node: NodeView, id: PkgIdView) -> nat {
    match node {
        NodeView::Leaf { tabs, .. } => count_in_tabs(tabs, id),
        _ => 0,
    }
}

/// The number of detail views of `id` in the nodes.
pub open spec fn count_in_nodes(nodes: Seq<NodeView>, id: PkgIdView) -> nat
    decreases nodes.len(),
{
    if nodes.len() == 0 {
        0
    } else {
        count_in_nodes(nodes.drop_last(), id) + count_in_node(nodes.last(), id)
    }
}

/// The number of detail views of `id` on the surface.
pub open spec fn count_in_surface(surface: Option<Seq<NodeView>>, id: PkgIdView) -> nat {
    match surface {
        Some(nodes) => count_in_nodes(nodes, id),
        None => 0,
    }
}

/// The number of tabs in the whole layout that are the detail view of `id`.
pub open spec fn tab_count(surfaces: Surfaces, id: PkgIdView) -> nat
    decreases surfaces.len(),
{
    if surfaces.len() == 0 {
        0
    } else {
        tab_count(surfaces.drop_last(), id) + count_in_surface(surfaces.last(), id)
    }
}

/// A run of tabs holds a detail view of `id` exactly when `last_shown`
/// finds one.
pub proof fn lemma_count_in_tabs_positive(tabs: Seq<TabView>, id: PkgIdView)
    ensures
        count_in_tabs(tabs, id) > 0 <==> last_shown(tabs, id) >= 0,
    decreases tabs.len(),
{
    if tabs.len() > 0 {
        lemma_count_in_tabs_positive(tabs.drop_last(), id);
    }
}

/// Nodes hold a detail view of `id` exactly when one of them hosts one.
pub proof fn lemma_count_in_nodes_positive(nodes: Seq<NodeView>, id: PkgIdView)
    ensures
        count_in_nodes(nodes, id) > 0 <==> last_where(nodes, hosting(id)) >= 0,
    decreases nodes.len(),
{
    if nodes.len() > 0 {
        lemma_count_in_nodes_positive(nodes.drop_last(), id);
        if let NodeView::Leaf { tabs, .. } = nodes.last() {
            lemma_count_in_tabs_positive(tabs, id);
        }
        lemma_last_where(nodes.drop_last(), hosting(id));
    }
}

/// A layout holds a detail view of `id` exactly when `last_host` finds the
/// leaf that hosts it.
pub proof fn lemma_tab_count_positive(surfaces: Surfaces, id: PkgIdView)
    ensures
        tab_count(surfaces, id) > 0 <==> last_host(surfaces, id) is Some,
    decreases surfaces.len(),
{
    if surfaces.len() > 0 {
        lemma_tab_count_positive(surfaces.drop_last(), id);
        if let Some(nodes) = surfaces.last() {
            lemma_count_in_nodes_positive(nodes, id);
        }
        lemma_last_where(surfaces.drop_last(), surface_hosting(id));
    }
}

/// Pushing a tab raises the count by one where the tab shows `id`.
pub proof fn lemma_count_in_tabs_push(tabs: Seq<TabView>, tab: TabView, id: PkgIdView)
    ensures
        count_in_tabs(tabs.push(tab), id) == count_in_tabs(tabs, id) + if shows(tab, id) {
            1nat
        } else {
            0nat
        },
{
    assert(tabs.push(tab).drop_last() =~= tabs);
}

/// Replacing one node changes the count by the difference of the two nodes.
pub proof fn lemma_count_in_nodes_update(
    nodes: Seq<NodeView>,
    n: int,
    node: NodeView,
    id: PkgIdView,
)
    requires
        0 <= n < nodes.len(),
    ensures
        count_in_nodes(nodes.update(n, node), id) + count_in_node(nodes[n], id) == count_in_nodes(
            nodes,
            id,
        ) + count_in_node(node, id),
    decreases nodes.len(),
{
    let after = nodes.update(n, node);
    if n == nodes.len() - 1 {
        assert(after.drop_last() =~= nodes.drop_last());
    } else {
        assert(after.drop_last() =~= nodes.drop_last().update(n, node));
        lemma_count_in_nodes_update(nodes.drop_last(), n, node, id);
    }
}

/// Replacing one surface changes the count by the difference of the two
/// surfaces.
pub proof fn lemma_tab_count_update(
    surfaces: Surfaces,
    s: int,
    surface: Option<Seq<NodeView>>,
    id: PkgIdView,
)
    requires
        0 <= s < surfaces.len(),
    ensures
        tab_count(surfaces.update(s, surface), id) + count_in_surface(surfaces[s], id)
            == tab_count(surfaces, id) + count_in_surface(surface, id),
    decreases surfaces.len(),
{
    let after = surfaces.update(s, surface);
    if s == surfaces.len() - 1 {
        assert(after.drop_last() =~= surfaces.drop_last());
    } else {
        assert(after.drop_last() =~= surfaces.drop_last().update(s, surface));
        lemma_tab_count_update(surfaces.drop_last(), s, surface, id);
    }
}

/// Activating the first `n` nodes neither adds nor removes a tab.
pub proof fn lemma_activate_prefix_keeps_count(
    nodes: Seq<NodeView>,
    id: PkgIdView,
    n: int,
    other: PkgIdView,
)
    requires
        0 <= n <= nodes.len(),
    ensures
        count_in_nodes(activate_prefix(nodes, id, n), other) == count_in_nodes(nodes, other),
    decreases n,
{
    if n == 0 {
        assert(activate_prefix(nodes, id, 0) =~= nodes);
    } else {
        let before = activate_prefix(nodes, id, n - 1);
        lemma_activate_prefix_keeps_count(nodes, id, n - 1, other);
        assert(activate_prefix(nodes, id, n) =~= before.update(
            n - 1,
            activate_node(nodes[n - 1], id),
        ));
        lemma_count_in_nodes_update(before, n - 1, activate_node(nodes[n - 1], id), other);
    }
}

/// Activating the first `s` surfaces neither adds nor removes a tab.
pub proof fn lemma_activate_surfaces_keeps_count(
    surfaces: Surfaces,
    id: PkgIdView,
    s: int,
    other: PkgIdView,
)
    requires
        0 <= s <= surfaces.len(),
    ensures
        tab_count(activate_surfaces(surfaces, id, s), other) == tab_count(surfaces, other),
    decreases s,
{
    if s == 0 {
        assert(activate_surfaces(surfaces, id, 0) =~= surfaces);
    } else {
        let before = activate_surfaces(surfaces, id, s - 1);
        lemma_activate_surfaces_keeps_count(surfaces, id, s - 1, other);
        assert(activate_surfaces(surfaces, id, s) =~= before.update(
            s - 1,
            activate_surface(surfaces[s - 1], id),
        ));
        if let Some(nodes) = surfaces[s - 1] {
            lemma_activate_prefix_keeps_count(nodes, id, nodes.len() as int, other);
        }
        lemma_tab_count_update(before, s - 1, activate_surface(surfaces[s - 1], id), other);
    }
}

/// Activation keeps every leaf's tabs, so it keeps which leaves host `id`.
pub proof fn lemma_activated_keeps_hosts(surfaces: Surfaces, id: PkgIdView)
    ensures
        last_host(activated(surfaces, id), id) == last_host(surfaces, id),
{
    let after = activated(surfaces, id);
    assert forall|s: int| 0 <= s < surfaces.len() implies surface_hosting(id)(
        #[trigger] surfaces[s],
    ) == surface_hosting(id)(after[s]) && (surfaces[s] matches Some(nodes) ==> after[s] is Some
        && last_where(after[s].unwrap(), hosting(id)) == last_where(nodes, hosting(id))) by {
        if let Some(nodes) = surfaces[s] {
            let nodes_after = activate_prefix(nodes, id, nodes.len() as int);
            assert(after[s] == Some(nodes_after));
            assert forall|n: int| 0 <= n < nodes.len() implies hosting(id)(#[trigger] nodes[n])
                == hosting(id)(nodes_after[n]) by {}
            lemma_last_where_agree(nodes, nodes_after, hosting(id));
        }
    }
    lemma_last_where_agree(surfaces, after, surface_hosting(id));
    lemma_last_where(surfaces, surface_hosting(id));
}

/// Activating twice is activating once.
pub proof fn lemma_activated_twice(surfaces: Surfaces, id: PkgIdView)
    ensures
        activated(activated(surfaces, id), id) == activated(surfaces, id),
{
    let once = activated(surfaces, id);
    let twice = activated(once, id);
    assert forall|s: int| 0 <= s < surfaces.len() implies #[trigger] twice[s] == once[s] by {
        if let Some(nodes) = surfaces[s] {
            let nodes_once = activate_prefix(nodes, id, nodes.len() as int);
            assert(once[s] == Some(nodes_once));
            assert(activate_prefix(nodes_once, id, nodes_once.len() as int) =~= nodes_once);
        }
    }
    assert(twice =~= once);
}

/// Where the main surface takes a new tab: its last leaf without a pinned
/// package list, or else its first leaf or hole.
pub open spec fn destination(surfaces: Surfaces) -> int {
    if last_free_leaf(surfaces[0].unwrap()) >= 0 {
        last_free_leaf(surfaces[0].unwrap())
    } else {
        first_slot(surfaces[0].unwrap())
    }
}

/// Whether node `(s, n)` is a leaf whose active tab is a detail view of `id`.
pub open spec fn active_shows(surfaces: Surfaces, s: int, n: int, id: PkgIdView) -> bool {
    &&& has_node(surfaces, s, n)
    &&& surfaces[s].unwrap()[n] matches NodeView::Leaf { tabs, active }
    &&& 0 <= active < tabs.len()
    &&& shows(tabs[active], id)
}

/// On the model: asking for a package whose detail view is open keeps the
/// one tab, finds it in the same leaf when asked again, and makes it the
/// active tab of that leaf.
pub proof fn lemma_reopening(surfaces: Surfaces, id: PkgIdView)
    requires
        tab_count(surfaces, id) == 1,
    ensures
        tab_count(opened(surfaces, id), id) == 1,
        tab_count(opened(opened(surfaces, id), id), id) == 1,
        last_host(surfaces, id) is Some,
        last_host(opened(surfaces, id), id) == last_host(surfaces, id),
        active_shows(
            opened(surfaces, id),
            last_host(surfaces, id).unwrap().0,
            last_host(surfaces, id).unwrap().1,
            id,
        ),
        opened(opened(surfaces, id), id) == opened(surfaces, id),
{
    lemma_tab_count_positive(surfaces, id);
    lemma_activate_surfaces_keeps_count(surfaces, id, surfaces.len() as int, id);
    lemma_activated_keeps_hosts(surfaces, id);
    lemma_activated_twice(surfaces, id);
    let (s, n) = last_host(surfaces, id).unwrap();
    lemma_last_where(surfaces, surface_hosting(id));
    let nodes = surfaces[s].unwrap();
    lemma_last_where(nodes, hosting(id));
    if let NodeView::Leaf { tabs, .. } = nodes[n] {
        lemma_last_where(tabs, showing(id));
    }
    assert(opened(surfaces, id)[s] == Some(activate_prefix(nodes, id, nodes.len() as int)));
}

/// On the model: asking for a package that has no detail view yet opens
/// exactly one, as the last and active tab of the destination leaf, and
/// opens no tab for any other package.
pub proof fn lemma_opening(surfaces: Surfaces, id: PkgIdView)
    requires
        tab_count(surfaces, id) == 0,
        has_room(surfaces),
    ensures
        tab_count(opened(surfaces, id), id) == 1,
        has_node(opened(surfaces, id), 0, destination(surfaces)),
        opened(surfaces, id)[0].unwrap()[destination(surfaces)] matches NodeView::Leaf {
            tabs,
            active,
        } && active == tabs.len() - 1 && tabs[active] == fresh_pkg_tab(id),
        active_shows(opened(surfaces, id), 0, destination(surfaces), id),
        forall|other: PkgIdView|
            other != id ==> #[trigger] tab_count(opened(surfaces, id), other) == tab_count(
                surfaces,
                other,
            ),
{
    lemma_tab_count_positive(surfaces, id);
    let nodes = surfaces[0].unwrap();
    let tab = fresh_pkg_tab(id);
    lemma_first_slot(nodes);
    lemma_last_where(nodes, free_leaf());
    if nodes.len() == 0 {
        let leaf = NodeView::Leaf { tabs: seq![tab], active: 0 };
        assert forall|other: PkgIdView| true implies #[trigger] tab_count(
            opened(surfaces, id),
            other,
        ) == tab_count(surfaces, other) + if other == id {
            1nat
        } else {
            0nat
        } by {
            assert(opened(surfaces, id) == surfaces.update(0, Some(seq![leaf])));
            lemma_tab_count_update(surfaces, 0, Some(seq![leaf]), other);
            assert(seq![leaf].drop_last() =~= Seq::<NodeView>::empty());
            assert(seq![leaf].last() == leaf);
            assert(count_in_nodes(Seq::<NodeView>::empty(), other) == 0);
            assert(count_in_nodes(seq![leaf], other) == count_in_node(leaf, other));
            assert(count_in_nodes(nodes, other) == 0);
            lemma_count_in_tabs_push(Seq::<TabView>::empty(), tab, other);
            assert(Seq::<TabView>::empty().push(tab) =~= seq![tab]);
        }
    } else {
        let n = destination(surfaces);
        let node = push_into(nodes[n], tab);
        assert(opened(surfaces, id) == surfaces.update(0, Some(nodes.update(n, node))));
        assert forall|other: PkgIdView| true implies #[trigger] tab_count(
            opened(surfaces, id),
            other,
        ) == tab_count(surfaces, other) + if other == id {
            1nat
        } else {
            0nat
        } by {
            lemma_tab_count_update(surfaces, 0, Some(nodes.update(n, node)), other);
            lemma_count_in_nodes_update(nodes, n, node, other);
            match nodes[n] {
                NodeView::Leaf { tabs, .. } => {
                    lemma_count_in_tabs_push(tabs, tab, other);
                },
                _ => {
                    lemma_count_in_tabs_push(Seq::<TabView>::empty(), tab, other);
                    assert(Seq::<TabView>::empty().push(tab) =~= seq![tab]);
                },
            }
        }
    }
}

/// Asking twice in a row for a package whose detail view is open opens
/// nothing: the layout keeps its one tab for the package, the focus goes to
/// the leaf that hosts it both times, and that leaf shows the tab as its
/// active one.
pub proof fn law_reopening_keeps_the_one_tab(
    before: DockState<Tab>,
    once: DockState<Tab>,
    twice: DockState<Tab>,
    id: PkgIdView,
)
    requires
        tab_count(dock_surfaces(before), id) == 1,
        opens(before, id, once),
        opens(once, id, twice),
    ensures
        tab_count(dock_surfaces(once), id) == 1,
        tab_count(dock_surfaces(twice), id) == 1,
        dock_focus(once) == last_host(dock_surfaces(before), id),
        dock_focus(twice) == dock_focus(once),
        dock_focus(once) matches Some((s, n)) && active_shows(dock_surfaces(once), s, n, id)
            && active_shows(dock_surfaces(twice), s, n, id),
{
    lemma_reopening(dock_surfaces(before), id);
}

/// Asking for a package that has no detail view yet, in a layout with room
/// for one, opens exactly one tab for it, as the last and active tab of the
/// destination leaf, and opens no tab for any other package.
pub proof fn law_opening_creates_one_active_tab(
    before: DockState<Tab>,
    after: DockState<Tab>,
    id: PkgIdView,
)
    requires
        tab_count(dock_surfaces(before), id) == 0,
        has_room(dock_surfaces(before)),
        opens(before, id, after),
    ensures
        tab_count(dock_surfaces(after), id) == 1,
        active_shows(dock_surfaces(after), 0, destination(dock_surfaces(before)), id),
        dock_surfaces(after)[0].unwrap()[destination(dock_surfaces(before))] matches NodeView::Leaf {
            tabs,
            active,
        } && active == tabs.len() - 1 && tabs[active] == fresh_pkg_tab(id),
        forall|other: PkgIdView|
            other != id ==> #[trigger] tab_count(dock_surfaces(after), other) == tab_count(
                dock_surfaces(before),
                other,
            ),
{
    lemma_opening(dock_surfaces(before), id);
}

/// What a request does to the number of tabs of any package: it adds one
/// tab for the package asked for where that package had none and the layout
/// has room, and nothing else.
pub proof fn lemma_opened_count(surfaces: Surfaces, id: PkgIdView, other: PkgIdView)
    ensures
        tab_count(opened(surfaces, id), other) == tab_count(surfaces, other) + if other == id
            && tab_count(surfaces, id) == 0 && has_room(surfaces) {
            1nat
        } else {
            0nat
        },
{
    lemma_tab_count_positive(surfaces, id);
    if tab_count(surfaces, id) > 0 {
        lemma_activate_surfaces_keeps_count(surfaces, id, surfaces.len() as int, other);
    } else if has_room(surfaces) {
        lemma_opening(surfaces, id);
    }
}

/// Requests never open a second tab for a package: a layout in which no
/// package has more than one detail view is still such a layout after any
/// run of commands.
pub proof fn law_no_duplicate_tabs(surfaces: Surfaces, cmds: Seq<CmdView>)
    requires
        forall|id: PkgIdView| #[trigger] tab_count(surfaces, id) <= 1,
    ensures
        forall|id: PkgIdView| #[trigger] tab_count(applied_all(surfaces, cmds), id) <= 1,
    decreases cmds.len(),
{
    if cmds.len() > 0 {
        law_no_duplicate_tabs(surfaces, cmds.drop_last());
        let before = applied_all(surfaces, cmds.drop_last());
        match cmds.last() {
            CmdView::OpenPkgTab(asked) => {
                assert forall|id: PkgIdView| #[trigger] tab_count(
                    applied_all(surfaces, cmds),
                    id,
                ) <= 1 by {
                    assert(tab_count(before, id) <= 1);
                    lemma_opened_count(before, asked, id);
                }
            },
        }
    }
}

/// Whether `later` has everything that `earlier` has: every node of
/// `earlier` is still a node, and every leaf still a leaf that starts with
/// the tabs it had, in their order.
pub open spec fn extends(earlier: Surfaces, later: Surfaces) -> bool {
    forall|s: int, n: int|
        has_node(earlier, s, n) ==> has_node(later, s, n) && (
        #[trigger] earlier[s].unwrap()[n] matches NodeView::Leaf { tabs, .. } ==> later[s].unwrap()[n]
            matches NodeView::Leaf { tabs: now, .. } && tabs.len() <= now.len() && now.take(
            tabs.len() as int,
        ) == tabs)
}

/// A request closes, moves and reorders nothing: every tab stays in its
/// leaf at its position. The pinned package lists in particular stay where
/// they are.
pub proof fn law_requests_keep_every_tab(surfaces: Surfaces, id: PkgIdView)
    ensures
        extends(surfaces, opened(surfaces, id)),
{
    let after = opened(surfaces, id);
    assert forall|s: int, n: int| has_node(surfaces, s, n) implies has_node(after, s, n) && (
    #[trigger] surfaces[s].unwrap()[n] matches NodeView::Leaf { tabs, .. } ==> after[s].unwrap()[n]
        matches NodeView::Leaf { tabs: now, .. } && tabs.len() <= now.len() && now.take(
        tabs.len() as int,
    ) == tabs) by {
        let node = surfaces[s].unwrap()[n];
        if let NodeView::Leaf { tabs, .. } = node {
            assert(tabs.take(tabs.len() as int) =~= tabs);
            assert(tabs.push(fresh_pkg_tab(id)).take(tabs.len() as int) =~= tabs);
        }
        if last_host(surfaces, id) is None && has_room(surfaces) {
            lemma_first_slot(surfaces[0].unwrap());
            lemma_last_where(surfaces[0].unwrap(), free_leaf());
        }
    }
}

} // verus!
