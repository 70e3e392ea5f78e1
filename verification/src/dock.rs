//! The tab layout: `egui_dock`'s `DockState`, seen through a mathematical
//! model of its surfaces, nodes and tabs.
//!
//! A `DockState` is opaque to the verifier. Everything the library knows of
//! one is what the functions in this file state of it; none of those
//! statements is proved here.

use crate::tabs::{Tab, TabView};
use egui_dock::{DockState, Node, NodeIndex, SurfaceIndex, TabIndex};
use vstd::prelude::*;

verus! {

/// `egui_dock::DockState`, the collection of surfaces, each with its tree of
/// nodes.
#[verifier::external_type_specification]
#[verifier::external_body]
#[verifier::reject_recursive_types(T)]
pub struct ExDockState<T>(egui_dock::DockState<T>);

/// One node of a surface's tree, as contracts see it.
pub enum NodeView {
    /// A hole in the tree's backing vector.
    Empty,
    /// A region that hosts tabs, one of which is the active one.
    Leaf { tabs: Seq<TabView>, active: int },
    /// A horizontal or vertical parent node.
    Split,
}

/// The surfaces of a layout in index order; the first is the main surface.
/// `None` stands for an empty surface, `Some(nodes)` for the nodes of the
/// surface's tree in index order.
pub type Surfaces = Seq<Option<Seq<NodeView>>>;

/// The surfaces that a `DockState` holds.
pub uninterp spec fn dock_surfaces(d: DockState<Tab>) -> Surfaces;

/// The focused leaf as `(surface, node)`: the focused surface together with
/// the focused node of that surface's tree, when both are set.
pub uninterp spec fn dock_focus(d: DockState<Tab>) -> Option<(int, int)>;

/// The views of a run of tabs.
pub open spec fn tab_views(tabs: Seq<Tab>) -> Seq<TabView> {
    tabs.map_values(|t: Tab| t@)
}

/// Whether `s` addresses a surface that is not empty.
pub open spec fn has_surface(surfaces: Surfaces, s: int) -> bool {
    0 <= s < surfaces.len() && surfaces[s] is Some
}

/// Whether `(s, n)` addresses a node of the layout.
pub open spec fn has_node(surfaces: Surfaces, s: int, n: int) -> bool {
    has_surface(surfaces, s) && 0 <= n < surfaces[s].unwrap().len()
}

/// A node handed out for reading.
pub enum NodeRef<'a> {
    Empty,
    Leaf { tabs: &'a [Tab], active: usize },
    Split,
}

impl<'a> View for NodeRef<'a> {
    type V = NodeView;

    open spec fn view(&self) -> NodeView {
        match *self {
            NodeRef::Empty => NodeView::Empty,
            NodeRef::Leaf { tabs, active } => NodeView::Leaf {
                tabs: tab_views(tabs@),
                active: active as int,
            },
            NodeRef::Split => NodeView::Split,
        }
    }
}

/// `DockState::new`. Claimed: the layout has one surface, the main one,
/// whose tree has a single leaf holding `tabs` with the first tab active,
/// and nothing is focused.
#[verifier::external_body]
pub(crate) fn dock_new(tabs: Vec<Tab>) -> (d: DockState<Tab>)
    ensures
        dock_surfaces(d) == seq![
            Some(seq![NodeView::Leaf { tabs: tab_views(tabs@), active: 0 }]),
        ],
        dock_focus(d) is None,
{
    DockState::new(tabs)
}

/// `DockState::surfaces_count`. Claimed: the number of surfaces, empty ones
/// included.
#[verifier::external_body]
pub(crate) fn surfaces_count(d: &DockState<Tab>) -> (count: usize)
    ensures
        count == dock_surfaces(*d).len(),
{
    d.surfaces_count()
}

/// `DockState::is_surface_valid`. Claimed: whether there is a surface `s`
/// and it is not empty.
#[verifier::external_body]
pub(crate) fn is_surface_valid(d: &DockState<Tab>, s: usize) -> (valid: bool)
    ensures
        valid == has_surface(dock_surfaces(*d), s as int),
{
    d.is_surface_valid(SurfaceIndex(s))
}

/// `Tree::len` on the tree of surface `s`, reached by indexing the
/// `DockState`. Claimed: the number of nodes of the surface's tree, holes
/// included.
#[verifier::external_body]
pub(crate) fn nodes_len(d: &DockState<Tab>, s: usize) -> (count: usize)
    requires
        has_surface(dock_surfaces(*d), s as int),
    ensures
        count == dock_surfaces(*d)[s as int].unwrap().len(),
{
    d[SurfaceIndex(s)].len()
}

/// Indexing a `DockState` by surface and the surface's tree by node.
/// Claimed: the node at `(s, n)`, with the tabs and the active index of a
/// leaf handed out as they are.
#[verifier::external_body]
pub(crate) fn node_at<'a>(d: &'a DockState<Tab>, s: usize, n: usize) -> (node: NodeRef<'a>)
    requires
        has_node(dock_surfaces(*d), s as int, n as int),
    ensures
        node@ == dock_surfaces(*d)[s as int].unwrap()[n as int],
{
    match &d[SurfaceIndex(s)][NodeIndex(n)] {
        Node::Empty => NodeRef::Empty,
        Node::Leaf { tabs, active, .. } => NodeRef::Leaf { tabs: tabs.as_slice(), active: active.0 },
        Node::Vertical { .. } => NodeRef::Split,
        Node::Horizontal { .. } => NodeRef::Split,
    }
}

/// `DockState::set_active_tab`. Claimed: where `(s, n)` is a leaf its active
/// index becomes `t`; nothing else changes, the focus included.
#[verifier::external_body]
pub(crate) fn set_active_tab(d: &mut DockState<Tab>, s: usize, n: usize, t: usize)
    requires
        has_surface(dock_surfaces(*old(d)), s as int),
    ensures
        dock_surfaces(*final(d)) == with_active(dock_surfaces(*old(d)), s as int, n as int, t as int),
        dock_focus(*final(d)) == dock_focus(*old(d)),
{
    d.set_active_tab((SurfaceIndex(s), NodeIndex(n), TabIndex(t)));
}

/// `DockState::set_focused_node_and_surface`. Claimed: where `(s, n)` is a
/// leaf it becomes the focused leaf, otherwise nothing is focused; surfaces,
/// nodes and tabs stay as they are.
#[verifier::external_body]
pub(crate) fn set_focused_node_and_surface(d: &mut DockState<Tab>, s: usize, n: usize)
    ensures
        dock_surfaces(*final(d)) == dock_surfaces(*old(d)),
        dock_focus(*final(d)) == if has_node(dock_surfaces(*old(d)), s as int, n as int)
            && dock_surfaces(*old(d))[s as int].unwrap()[n as int] is Leaf {
            Some((s as int, n as int))
        } else {
            None
        },
{
    d.set_focused_node_and_surface((SurfaceIndex(s), NodeIndex(n)));
}

/// `Node::append_tab` on node `n` of the main surface, reached through
/// `DockState::main_surface_mut`. Claimed: the leaf gets `tab` as its last
/// tab and makes it the active one; nothing else changes, the focus
/// included.
#[verifier::external_body]
pub(crate) fn append_tab(d: &mut DockState<Tab>, n: usize, tab: Tab)
    requires
        has_node(dock_surfaces(*old(d)), 0, n as int),
        dock_surfaces(*old(d))[0].unwrap()[n as int] is Leaf,
    ensures
        dock_surfaces(*final(d)) == with_pushed(dock_surfaces(*old(d)), n as int, tab@),
        dock_focus(*final(d)) == dock_focus(*old(d)),
{
    d.main_surface_mut()[NodeIndex(n)].append_tab(tab);
}

/// `DockState::push_to_first_leaf`. Claimed: in the main surface the first
/// node that is a leaf or a hole receives `tab` as its last and active tab (a
/// hole becomes a leaf with that one tab), and a tree without nodes gets a
/// single such leaf; the other nodes and surfaces stay as they are. Nothing
/// is claimed of the focus.
#[verifier::external_body]
pub(crate) fn push_to_first_leaf(d: &mut DockState<Tab>, tab: Tab)
    requires
        has_surface(dock_surfaces(*old(d)), 0),
        dock_surfaces(*old(d))[0].unwrap().len() == 0 || first_slot(
            dock_surfaces(*old(d))[0].unwrap(),
        ) < dock_surfaces(*old(d))[0].unwrap().len(),
    ensures
        dock_surfaces(*final(d)) == with_pushed_first(dock_surfaces(*old(d)), tab@),
{
    d.push_to_first_leaf(tab);
}

/// The node after `tab` was pushed into it: a leaf gets it as its last and
/// active tab, a hole becomes a leaf holding it, a parent node stays.
pub open spec fn push_into(node: NodeView, tab: TabView) -> NodeView {
    match node {
        NodeView::Leaf { tabs, active } => NodeView::Leaf {
            tabs: tabs.push(tab),
            active: tabs.len() as int,
        },
        NodeView::Empty => NodeView::Leaf { tabs: seq![tab], active: 0 },
        NodeView::Split => node,
    }
}

/// The layout with the active index of leaf `(s, n)` set to `t`; unchanged
/// where `(s, n)` is no leaf.
pub open spec fn with_active(surfaces: Surfaces, s: int, n: int, t: int) -> Surfaces {
    if has_node(surfaces, s, n) {
        match surfaces[s].unwrap()[n] {
            NodeView::Leaf { tabs, active } => surfaces.update(
                s,
                Some(surfaces[s].unwrap().update(n, NodeView::Leaf { tabs, active: t })),
            ),
            _ => surfaces,
        }
    } else {
        surfaces
    }
}

/// The layout with `tab` pushed into node `n` of the main surface.
pub open spec fn with_pushed(surfaces: Surfaces, n: int, tab: TabView) -> Surfaces {
    if has_node(surfaces, 0, n) {
        let nodes = surfaces[0].unwrap();
        surfaces.update(0, Some(nodes.update(n, push_into(nodes[n], tab))))
    } else {
        surfaces
    }
}

/// The index of the first node that is a leaf or a hole; the number of
/// nodes where there is none.
pub open spec fn first_slot(nodes: Seq<NodeView>) -> int
    decreases nodes.len(),
{
    if nodes.len() == 0 {
        0
    } else if nodes[0] is Split {
        1 + first_slot(nodes.drop_first())
    } else {
        0
    }
}

/// The layout with `tab` pushed to the first leaf or hole of the main
/// surface, or into a new root leaf where the main surface has no nodes.
pub open spec fn with_pushed_first(surfaces: Surfaces, tab: TabView) -> Surfaces {
    if has_surface(surfaces, 0) {
        let nodes = surfaces[0].unwrap();
        if nodes.len() == 0 {
            surfaces.update(0, Some(seq![NodeView::Leaf { tabs: seq![tab], active: 0 }]))
        } else {
            with_pushed(surfaces, first_slot(nodes), tab)
        }
    } else {
        surfaces
    }
}

} // verus!
