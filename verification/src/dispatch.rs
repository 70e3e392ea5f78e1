//! Showing the detail view of a package: what a request does to the tab
//! layout, and the code that does it.

use crate::dock::{
    append_tab, dock_focus, dock_surfaces, first_slot, has_surface, is_surface_valid, node_at,
    nodes_len, push_to_first_leaf, set_active_tab, set_focused_node_and_surface, surfaces_count,
    tab_views, with_pushed, with_pushed_first, NodeRef, NodeView, Surfaces,
};
use crate::pkg_id::{PkgId, PkgIdView};
use crate::search::{last_where, lemma_last_where, lemma_last_where_step};
use crate::tabs::{fresh_pkg_tab, is_list, shows, PkgTab, Tab, TabView};
use egui_dock::DockState;
use vstd::prelude::*;

verus! {

/// The predicate "is the detail view of `id`".
pub open spec fn showing(id: PkgIdView) -> spec_fn(TabView) -> bool {
    |t: TabView| shows(t, id)
}

/// The index of the last tab that is the detail view of `id`, or -1.
pub open spec fn last_shown(tabs: Seq<TabView>, id: PkgIdView) -> int {
    last_where(tabs, showing(id))
}

/// Whether the node is a leaf with a detail view of `id` among its tabs.
pub open spec fn hosts(node: NodeView, id: PkgIdView) -> bool {
    node matches NodeView::Leaf { tabs, .. } && last_shown(tabs, id) >= 0
}

/// The predicate "hosts a detail view of `id`".
pub open spec fn hosting(id: PkgIdView) -> spec_fn(NodeView) -> bool {
    |n: NodeView| hosts(n, id)
}

/// Whether the surface has a leaf that hosts a detail view of `id`.
pub open spec fn surface_hosts(surface: Option<Seq<NodeView>>, id: PkgIdView) -> bool {
    surface matches Some(nodes) && last_where(nodes, hosting(id)) >= 0
}

/// The predicate "has a leaf that hosts a detail view of `id`".
pub open spec fn surface_hosting(id: PkgIdView) -> spec_fn(Option<Seq<NodeView>>) -> bool {
    |s: Option<Seq<NodeView>>| surface_hosts(s, id)
}

/// The last leaf, in surface and then node order, that hosts a detail view
/// of `id`, as `(surface, node)`; `None` where no tab shows `id`.
pub open spec fn last_host(surfaces: Surfaces, id: PkgIdView) -> Option<(int, int)> {
    let s = last_where(surfaces, surface_hosting(id));
    if s >= 0 {
        Some((s, last_where(surfaces[s].unwrap(), hosting(id))))
    } else {
        None
    }
}

/// The node with its last detail view of `id`, if it has one, made the
/// active tab.
pub open spec fn activate_node(node: NodeView, id: PkgIdView) -> NodeView {
    match node {
        NodeView::Leaf { tabs, active } => if last_shown(tabs, id) >= 0 {
            NodeView::Leaf { tabs, active: last_shown(tabs, id) }
        } else {
            node
        },
        _ => node,
    }
}

/// The nodes with the first `n` of them activated for `id`.
pub open spec fn activate_prefix(nodes: Seq<NodeView>, id: PkgIdView, n: int) -> Seq<NodeView> {
    Seq::new(
        nodes.len(),
        |j: int|
            if j < n {
                activate_node(nodes[j], id)
            } else {
                nodes[j]
            },
    )
}

/// The surface with every node activated for `id`.
pub open spec fn activate_surface(surface: Option<Seq<NodeView>>, id: PkgIdView) -> Option<
    Seq<NodeView>,
> {
    match surface {
        Some(nodes) => Some(activate_prefix(nodes, id, nodes.len() as int)),
        None => None,
    }
}

/// The layout with the first `s` surfaces activated for `id`.
pub open spec fn activate_surfaces(surfaces: Surfaces, id: PkgIdView, s: int) -> Surfaces {
    Seq::new(
        surfaces.len(),
        |i: int|
            if i < s {
                activate_surface(surfaces[i], id)
            } else {
                surfaces[i]
            },
    )
}

/// The layout in which every leaf that hosts a detail view of `id` has made
/// the last such tab its active one. No tab is added, moved or removed.
pub open spec fn activated(surfaces: Surfaces, id: PkgIdView) -> Surfaces {
    activate_surfaces(surfaces, id, surfaces.len() as int)
}

/// Whether one of the tabs is a pinned package list.
pub open spec fn hosts_list(tabs: Seq<TabView>) -> bool {
    exists|t: int| 0 <= t < tabs.len() && is_list(#[trigger] tabs[t])
}

/// Whether the node is a leaf without a pinned package list.
pub open spec fn is_free_leaf(node: NodeView) -> bool {
    node matches NodeView::Leaf { tabs, .. } && !hosts_list(tabs)
}

/// The predicate "is a leaf without a pinned package list".
pub open spec fn free_leaf() -> spec_fn(NodeView) -> bool {
    |n: NodeView| is_free_leaf(n)
}

/// The index of the last leaf without a pinned package list, or -1.
pub open spec fn last_free_leaf(nodes: Seq<NodeView>) -> int {
    last_where(nodes, free_leaf())
}

/// Whether the main surface can take a new tab: it exists, and its tree has
/// a leaf or a hole, or no node at all.
pub open spec fn has_room(surfaces: Surfaces) -> bool {
    has_surface(surfaces, 0) && (surfaces[0].unwrap().len() == 0 || first_slot(
        surfaces[0].unwrap(),
    ) < surfaces[0].unwrap().len())
}

/// The layout with a fresh detail view of `id` added to the main surface:
/// to its last leaf without a pinned package list, or else to its first
/// leaf or hole. A layout without room stays as it is.
pub open spec fn placed(surfaces: Surfaces, id: PkgIdView) -> Surfaces {
    if !has_room(surfaces) {
        surfaces
    } else if last_free_leaf(surfaces[0].unwrap()) >= 0 {
        with_pushed(surfaces, last_free_leaf(surfaces[0].unwrap()), fresh_pkg_tab(id))
    } else {
        with_pushed_first(surfaces, fresh_pkg_tab(id))
    }
}

/// The layout after a request to show package `id`: an existing detail view
/// is made active where it is, otherwise a fresh one is added.
pub open spec fn opened(surfaces: Surfaces, id: PkgIdView) -> Surfaces {
    if last_host(surfaces, id) is Some {
        activated(surfaces, id)
    } else {
        placed(surfaces, id)
    }
}

/// The last tab of the slice that is the detail view of `id`.
fn find_last_shown(tabs: &[Tab], id: &PkgId) -> (found: Option<usize>)
    ensures
        match found {
            Some(t) => t == last_shown(tab_views(tabs@), id@),
            None => last_shown(tab_views(tabs@), id@) == -1,
        },
{
    let ghost views = tab_views(tabs@);
    let mut found: Option<usize> = None;
    let mut i: usize = 0;
    while i < tabs.len()
        invariant
            i <= tabs.len(),
            views == tab_views(tabs@),
            match found {
                Some(t) => t == last_where(views.take(i as int), showing(id@)),
                None => last_where(views.take(i as int), showing(id@)) == -1,
            },
        decreases tabs.len() - i,
    {
        proof {
            lemma_last_where_step(views, showing(id@), i as int);
        }
        if tabs[i].shows_pkg(id) {
            found = Some(i);
        }
        i += 1;
    }
    assert(views.take(i as int) =~= views);
    found
}

/// Whether one of the tabs of the slice is a pinned package list.
fn has_list_tab(tabs: &[Tab]) -> (r: bool)
    ensures
        r == hosts_list(tab_views(tabs@)),
{
    let ghost views = tab_views(tabs@);
    let mut i: usize = 0;
    while i < tabs.len()
        invariant
            i <= tabs.len(),
            views == tab_views(tabs@),
            forall|t: int| 0 <= t < i ==> !is_list(#[trigger] views[t]),
        decreases tabs.len() - i,
    {
        if tabs[i].is_pkg_list() {
            assert(is_list(views[i as int]));
            return true;
        }
        i += 1;
    }
    false
}

/// What `first_slot` returns: every node before it is a parent node, and
/// the node at it, if there is one, is a leaf or a hole.
pub proof fn lemma_first_slot(nodes: Seq<NodeView>)
    ensures
        0 <= first_slot(nodes) <= nodes.len(),
        forall|i: int| 0 <= i < first_slot(nodes) ==> #[trigger] nodes[i] is Split,
        first_slot(nodes) < nodes.len() ==> !(nodes[first_slot(nodes)] is Split),
    decreases nodes.len(),
{
    if nodes.len() > 0 && nodes[0] is Split {
        let rest = nodes.drop_first();
        lemma_first_slot(rest);
        assert forall|i: int| 0 <= i < first_slot(nodes) implies #[trigger] nodes[i] is Split by {
            if i > 0 {
                assert(nodes[i] == rest[i - 1]);
            }
        }
        if first_slot(nodes) < nodes.len() {
            assert(nodes[first_slot(nodes)] == rest[first_slot(rest)]);
        }
    }
}

/// The number of nodes of surface `s`; `None` where there is no such surface
/// or it is empty.
fn node_count(dock: &DockState<Tab>, s: usize) -> (count: Option<usize>)
    ensures
        match count {
            Some(c) => has_surface(dock_surfaces(*dock), s as int) && c == dock_surfaces(
                *dock,
            )[s as int].unwrap().len(),
            None => !has_surface(dock_surfaces(*dock), s as int),
        },
{
    if is_surface_valid(dock, s) {
        Some(nodes_len(dock, s))
    } else {
        None
    }
}

/// Makes the last detail view of `id` in each leaf of surface `s` the
/// leaf's active tab, and reports the last such leaf.
fn activate_in_surface(dock: &mut DockState<Tab>, s: usize, id: &PkgId) -> (found: Option<usize>)
    ensures
        dock_surfaces(*final(dock)) == if s < dock_surfaces(*old(dock)).len() {
            dock_surfaces(*old(dock)).update(
                s as int,
                activate_surface(dock_surfaces(*old(dock))[s as int], id@),
            )
        } else {
            dock_surfaces(*old(dock))
        },
        dock_focus(*final(dock)) == dock_focus(*old(dock)),
        match found {
            Some(n) => s < dock_surfaces(*old(dock)).len() && surface_hosts(
                dock_surfaces(*old(dock))[s as int],
                id@,
            ) && n == last_where(dock_surfaces(*old(dock))[s as int].unwrap(), hosting(id@)),
            None => dock_surfaces(*final(dock)) == dock_surfaces(*old(dock)) && !(s
                < dock_surfaces(*old(dock)).len() && surface_hosts(
                dock_surfaces(*old(dock))[s as int],
                id@,
            )),
        },
{
    let ghost before = dock_surfaces(*dock);
    match node_count(dock, s) {
        None => {
            assert(s < before.len() ==> before.update(
                s as int,
                activate_surface(before[s as int], id@),
            ) =~= before);
            None
        },
        Some(count) => {
            let ghost nodes = before[s as int].unwrap();
            let mut found: Option<usize> = None;
            let mut n: usize = 0;
            assert(activate_prefix(nodes, id@, 0) =~= nodes);
            assert(before.update(s as int, Some(nodes)) =~= before);
            while n < count
                invariant
                    n <= count,
                    count == nodes.len(),
                    has_surface(before, s as int),
                    nodes == before[s as int].unwrap(),
                    dock_surfaces(*dock) == before.update(
                        s as int,
                        Some(activate_prefix(nodes, id@, n as int)),
                    ),
                    dock_focus(*dock) == dock_focus(*old(dock)),
                    match found {
                        Some(f) => f == last_where(nodes.take(n as int), hosting(id@)),
                        None => last_where(nodes.take(n as int), hosting(id@)) == -1
                            && dock_surfaces(*dock) == before,
                    },
                decreases count - n,
            {
                let ghost current = activate_prefix(nodes, id@, n as int);
                let hit = match node_at(dock, s, n) {
                    NodeRef::Leaf { tabs, .. } => find_last_shown(tabs, id),
                    _ => None,
                };
                proof {
                    lemma_last_where_step(nodes, hosting(id@), n as int);
                    assert(current[n as int] == nodes[n as int]);
                }
                if let Some(t) = hit {
                    set_active_tab(dock, s, n, t);
                    found = Some(n);
                    assert(activate_prefix(nodes, id@, n + 1) =~= current.update(
                        n as int,
                        activate_node(nodes[n as int], id@),
                    ));
                    assert(dock_surfaces(*dock) =~= before.update(
                        s as int,
                        Some(activate_prefix(nodes, id@, n + 1)),
                    ));
                } else {
                    assert(activate_prefix(nodes, id@, n + 1) =~= current);
                }
                n += 1;
            }
            assert(nodes.take(n as int) =~= nodes);
            found
        },
    }
}

/// Makes every existing detail view of `id` the active tab of its leaf and
/// moves the focus to the last leaf that hosts one.
fn focus_existing(dock: &mut DockState<Tab>, id: &PkgId) -> (found: bool)
    ensures
        dock_surfaces(*final(dock)) == activated(dock_surfaces(*old(dock)), id@),
        found == last_host(dock_surfaces(*old(dock)), id@) is Some,
        found ==> dock_focus(*final(dock)) == last_host(dock_surfaces(*old(dock)), id@),
        !found ==> dock_focus(*final(dock)) == dock_focus(*old(dock)) && dock_surfaces(
            *final(dock),
        ) == dock_surfaces(*old(dock)),
{
    let ghost before = dock_surfaces(*dock);
    let count = surfaces_count(dock);
    let mut hit: Option<(usize, usize)> = None;
    let mut s: usize = 0;
    assert(activate_surfaces(before, id@, 0) =~= before);
    while s < count
        invariant
            s <= count,
            count == before.len(),
            dock_surfaces(*dock) == activate_surfaces(before, id@, s as int),
            dock_focus(*dock) == dock_focus(*old(dock)),
            match hit {
                Some((hs, hn)) => hs == last_where(before.take(s as int), surface_hosting(id@))
                    && 0 <= hs < s && hn == last_where(before[hs as int].unwrap(), hosting(id@)),
                None => last_where(before.take(s as int), surface_hosting(id@)) == -1
                    && dock_surfaces(*dock) == before,
            },
        decreases count - s,
    {
        let ghost current = activate_surfaces(before, id@, s as int);
        let found = activate_in_surface(dock, s, id);
        proof {
            lemma_last_where_step(before, surface_hosting(id@), s as int);
            assert(current[s as int] == before[s as int]);
            assert(activate_surfaces(before, id@, s + 1) =~= current.update(
                s as int,
                activate_surface(before[s as int], id@),
            ));
        }
        if let Some(n) = found {
            hit = Some((s, n));
        }
        s += 1;
    }
    assert(before.take(s as int) =~= before);
    match hit {
        Some((hs, hn)) => {
            proof {
                let nodes = before[hs as int].unwrap();
                lemma_last_where(before, surface_hosting(id@));
                lemma_last_where(nodes, hosting(id@));
                assert(dock_surfaces(*dock)[hs as int] == activate_surface(before[hs as int], id@));
                assert(dock_surfaces(*dock)[hs as int].unwrap()[hn as int] == activate_node(
                    nodes[hn as int],
                    id@,
                ));
            }
            set_focused_node_and_surface(dock, hs, hn);
            true
        },
        None => false,
    }
}

/// The last leaf of the main surface without a pinned package list.
fn find_last_free_leaf(dock: &DockState<Tab>, count: usize) -> (found: Option<usize>)
    requires
        has_surface(dock_surfaces(*dock), 0),
        count == dock_surfaces(*dock)[0].unwrap().len(),
    ensures
        match found {
            Some(n) => n == last_free_leaf(dock_surfaces(*dock)[0].unwrap()),
            None => last_free_leaf(dock_surfaces(*dock)[0].unwrap()) == -1,
        },
{
    let ghost nodes = dock_surfaces(*dock)[0].unwrap();
    let mut found: Option<usize> = None;
    let mut n: usize = 0;
    while n < count
        invariant
            n <= count,
            count == nodes.len(),
            has_surface(dock_surfaces(*dock), 0),
            nodes == dock_surfaces(*dock)[0].unwrap(),
            match found {
                Some(f) => f == last_where(nodes.take(n as int), free_leaf()),
                None => last_where(nodes.take(n as int), free_leaf()) == -1,
            },
        decreases count - n,
    {
        let free = match node_at(dock, 0, n) {
            NodeRef::Leaf { tabs, .. } => !has_list_tab(tabs),
            _ => false,
        };
        proof {
            lemma_last_where_step(nodes, free_leaf(), n as int);
        }
        if free {
            found = Some(n);
        }
        n += 1;
    }
    assert(nodes.take(n as int) =~= nodes);
    found
}

/// Whether the main surface has a leaf or a hole.
fn has_slot(dock: &DockState<Tab>, count: usize) -> (r: bool)
    requires
        has_surface(dock_surfaces(*dock), 0),
        count == dock_surfaces(*dock)[0].unwrap().len(),
    ensures
        r == (first_slot(dock_surfaces(*dock)[0].unwrap()) < count),
{
    let ghost nodes = dock_surfaces(*dock)[0].unwrap();
    let mut n: usize = 0;
    while n < count
        invariant
            n <= count,
            count == nodes.len(),
            has_surface(dock_surfaces(*dock), 0),
            nodes == dock_surfaces(*dock)[0].unwrap(),
            forall|i: int| 0 <= i < n ==> #[trigger] nodes[i] is Split,
        decreases count - n,
    {
        match node_at(dock, 0, n) {
            NodeRef::Split => {},
            _ => {
                proof {
                    lemma_first_slot(nodes);
                }
                return true;
            },
        }
        n += 1;
    }
    proof {
        lemma_first_slot(nodes);
    }
    false
}

/// Adds a fresh detail view of `id` to the main surface.
fn place_new(dock: &mut DockState<Tab>, id: PkgId)
    ensures
        dock_surfaces(*final(dock)) == placed(dock_surfaces(*old(dock)), id@),
        keeps_focus(dock_surfaces(*old(dock))) ==> dock_focus(*final(dock)) == dock_focus(
            *old(dock),
        ),
{
    match node_count(dock, 0) {
        None => {},
        Some(count) => {
            let ghost nodes = dock_surfaces(*dock)[0].unwrap();
            proof {
                lemma_first_slot(nodes);
                lemma_last_where(nodes, free_leaf());
            }
            match find_last_free_leaf(dock, count) {
                Some(n) => {
                    append_tab(dock, n, Tab::Pkg(PkgTab::new(id)));
                },
                None => {
                    if count == 0 || has_slot(dock, count) {
                        push_to_first_leaf(dock, Tab::Pkg(PkgTab::new(id)));
                    }
                },
            }
        },
    }
}

/// Whether placing a fresh tab leaves the focus alone: the layout has no
/// room, or the tab goes to a leaf without a pinned package list.
pub open spec fn keeps_focus(surfaces: Surfaces) -> bool {
    !has_room(surfaces) || last_free_leaf(surfaces[0].unwrap()) >= 0
}

/// What a request to show package `id` makes of a layout. The tabs are
/// those of `opened`. Where the package had a tab, the focus is on the last
/// leaf that hosts one; where it had none, the focus stays where it was
/// unless the fresh tab went to the first leaf or hole, of which nothing is
/// said.
pub open spec fn opens(before: DockState<Tab>, id: PkgIdView, after: DockState<Tab>) -> bool {
    &&& dock_surfaces(after) == opened(dock_surfaces(before), id)
    &&& last_host(dock_surfaces(before), id) is Some ==> dock_focus(after) == last_host(
        dock_surfaces(before),
        id,
    )
    &&& last_host(dock_surfaces(before), id) is None && keeps_focus(dock_surfaces(before))
        ==> dock_focus(after) == dock_focus(before)
}

/// Shows the detail view of package `id`.
///
/// Where tabs for `id` exist, each leaf that hosts one makes its last such
/// tab the active one, and the focus moves to the last such leaf; no tab is
/// opened. Otherwise a fresh detail view is added to the main surface and
/// made the active tab of its leaf: in the last leaf that hosts no pinned
/// package list, or else in the first leaf or hole of the tree. A main
/// surface that is missing, or whose tree has parent nodes only, has no room,
/// and the layout stays as it is.
pub fn open_pkg_tab(dock: &mut DockState<Tab>, id: PkgId)
    ensures
        opens(*old(dock), id@, *final(dock)),
{
    if !focus_existing(dock, &id) {
        place_new(dock, id);
    }
}

} // verus!
