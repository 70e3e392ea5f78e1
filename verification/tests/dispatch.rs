use egui_dock::{DockState, Node, NodeIndex, SurfaceIndex};
use pacfront::cmd::{process_cmds, Cmd, CmdBuf, UiState};
use pacfront::dispatch::open_pkg_tab;
use pacfront::pkg_id::PkgId;
use pacfront::tabs::{PkgListState, PkgTab, Tab};

fn leaf_tabs(dock: &DockState<Tab>, surface: usize, node: usize) -> (&[Tab], usize) {
    match &dock[SurfaceIndex(surface)][NodeIndex(node)] {
        Node::Leaf { tabs, active, .. } => (tabs.as_slice(), active.0),
        _ => panic!("node {node} of surface {surface} is no leaf"),
    }
}

fn count_tabs_for(dock: &DockState<Tab>, id: &PkgId) -> usize {
    dock.iter_all_tabs().filter(|(_, tab)| tab.shows_pkg(id)).count()
}

fn two_leaf_layout() -> UiState {
    let mut ui = UiState::default();
    ui.dock_state
        .main_surface_mut()
        .split_right(NodeIndex::root(), 0.5, vec![Tab::ColorTheme]);
    ui
}

#[test]
fn default_layout_has_the_two_pinned_lists() {
    let ui = UiState::default();
    assert_eq!(ui.dock_state.surfaces_count(), 1);
    assert_eq!(ui.dock_state.main_surface().len(), 1);
    let (tabs, active) = leaf_tabs(&ui.dock_state, 0, 0);
    assert_eq!(tabs.len(), 2);
    assert!(matches!(tabs[0], Tab::LocalPkgList(_)));
    assert!(matches!(tabs[1], Tab::RemotePkgList(_)));
    assert_eq!(active, 0);
    assert_eq!(ui.dock_state.focused_leaf(), None);
    assert_eq!(ui.cmd.len(), 0);
}

#[test]
fn push_has_no_effect_until_processed() {
    let mut ui = UiState::default();
    ui.cmd.push(Cmd::OpenPkgTab(PkgId::local("bash")));
    assert_eq!(ui.cmd.len(), 1);
    assert_eq!(count_tabs_for(&ui.dock_state, &PkgId::local("bash")), 0);
    process_cmds(&mut ui);
    assert_eq!(ui.cmd.len(), 0);
    assert_eq!(count_tabs_for(&ui.dock_state, &PkgId::local("bash")), 1);
}

#[test]
fn opening_without_a_free_leaf_falls_back_to_the_first_leaf() {
    let mut ui = UiState::default();
    ui.cmd.push(Cmd::OpenPkgTab(PkgId::local("bash")));
    process_cmds(&mut ui);
    assert_eq!(ui.dock_state.main_surface().len(), 1);
    let (tabs, active) = leaf_tabs(&ui.dock_state, 0, 0);
    assert_eq!(tabs.len(), 3);
    assert!(tabs[2].shows_pkg(&PkgId::local("bash")));
    assert_eq!(active, 2);
}

#[test]
fn opening_prefers_a_leaf_without_pinned_lists() {
    let mut ui = two_leaf_layout();
    assert_eq!(ui.dock_state.main_surface().len(), 3);
    ui.cmd.push(Cmd::OpenPkgTab(PkgId::qualified("core", "glibc")));
    process_cmds(&mut ui);
    let (list_tabs, list_active) = leaf_tabs(&ui.dock_state, 0, 1);
    assert_eq!(list_tabs.len(), 2);
    assert_eq!(list_active, 0);
    let (tabs, active) = leaf_tabs(&ui.dock_state, 0, 2);
    assert_eq!(tabs.len(), 2);
    assert!(matches!(tabs[0], Tab::ColorTheme));
    assert!(tabs[1].shows_pkg(&PkgId::qualified("core", "glibc")));
    assert_eq!(active, 1);
}

#[test]
fn opening_prefers_the_last_free_leaf() {
    let mut ui = two_leaf_layout();
    // Split the free leaf again: nodes 5 and 6 are then both free leaves.
    ui.dock_state
        .main_surface_mut()
        .split_below(NodeIndex(2), 0.5, vec![Tab::ColorTheme]);
    let nodes = ui.dock_state.main_surface().len();
    assert_eq!(nodes, 7);
    open_pkg_tab(&mut ui.dock_state, PkgId::local("vim"));
    let (upper, _) = leaf_tabs(&ui.dock_state, 0, 5);
    let (lower, lower_active) = leaf_tabs(&ui.dock_state, 0, 6);
    assert_eq!(upper.len(), 1);
    assert_eq!(lower.len(), 2);
    assert!(lower[1].shows_pkg(&PkgId::local("vim")));
    assert_eq!(lower_active, 1);
}

#[test]
fn a_remote_list_pins_its_leaf_too() {
    let mut dock = DockState::new(vec![Tab::LocalPkgList(PkgListState::default())]);
    dock.main_surface_mut().split_right(
        NodeIndex::root(),
        0.5,
        vec![Tab::RemotePkgList(PkgListState::default())],
    );
    open_pkg_tab(&mut dock, PkgId::local("vim"));
    // No leaf is free, so the first leaf in node order takes the tab.
    let (first, first_active) = leaf_tabs(&dock, 0, 1);
    let (second, _) = leaf_tabs(&dock, 0, 2);
    assert_eq!(first.len(), 2);
    assert!(first[1].shows_pkg(&PkgId::local("vim")));
    assert_eq!(first_active, 1);
    assert_eq!(second.len(), 1);
}

#[test]
fn opening_twice_keeps_one_tab_and_focuses_it_both_times() {
    let mut ui = two_leaf_layout();
    open_pkg_tab(&mut ui.dock_state, PkgId::local("bash"));
    assert_eq!(count_tabs_for(&ui.dock_state, &PkgId::local("bash")), 1);

    ui.cmd.push(Cmd::OpenPkgTab(PkgId::local("bash")));
    process_cmds(&mut ui);
    assert_eq!(count_tabs_for(&ui.dock_state, &PkgId::local("bash")), 1);
    assert_eq!(
        ui.dock_state.focused_leaf(),
        Some((SurfaceIndex(0), NodeIndex(2)))
    );

    // Move the focus and the active tab away, then ask again.
    ui.dock_state
        .set_focused_node_and_surface((SurfaceIndex(0), NodeIndex(1)));
    ui.dock_state
        .set_active_tab((SurfaceIndex(0), NodeIndex(2), egui_dock::TabIndex(0)));
    ui.cmd.push(Cmd::OpenPkgTab(PkgId::local("bash")));
    process_cmds(&mut ui);
    assert_eq!(count_tabs_for(&ui.dock_state, &PkgId::local("bash")), 1);
    assert_eq!(
        ui.dock_state.focused_leaf(),
        Some((SurfaceIndex(0), NodeIndex(2)))
    );
    let (_, active) = leaf_tabs(&ui.dock_state, 0, 2);
    assert_eq!(active, 1);
}

#[test]
fn two_pushes_in_one_pass_open_one_tab() {
    let mut ui = two_leaf_layout();
    ui.cmd.push(Cmd::OpenPkgTab(PkgId::local("bash")));
    ui.cmd.push(Cmd::OpenPkgTab(PkgId::local("bash")));
    process_cmds(&mut ui);
    assert_eq!(count_tabs_for(&ui.dock_state, &PkgId::local("bash")), 1);
    assert_eq!(
        ui.dock_state.focused_leaf(),
        Some((SurfaceIndex(0), NodeIndex(2)))
    );
}

#[test]
fn all_pushes_of_a_pass_are_honoured_in_order() {
    let mut ui = two_leaf_layout();
    ui.cmd.push(Cmd::OpenPkgTab(PkgId::local("a")));
    ui.cmd.push(Cmd::OpenPkgTab(PkgId::local("b")));
    ui.cmd.push(Cmd::OpenPkgTab(PkgId::qualified("extra", "a")));
    process_cmds(&mut ui);
    let (tabs, active) = leaf_tabs(&ui.dock_state, 0, 2);
    assert_eq!(tabs.len(), 4);
    assert!(tabs[1].shows_pkg(&PkgId::local("a")));
    assert!(tabs[2].shows_pkg(&PkgId::local("b")));
    assert!(tabs[3].shows_pkg(&PkgId::qualified("extra", "a")));
    assert_eq!(active, 3);
    assert_eq!(ui.cmd.len(), 0);
}

#[test]
fn a_tab_in_a_window_is_found_and_focused() {
    let mut ui = UiState::default();
    let window = ui
        .dock_state
        .add_window(vec![Tab::ColorTheme, Tab::Pkg(PkgTab::new(PkgId::local("bash")))]);
    assert_eq!(window, SurfaceIndex(1));
    ui.cmd.push(Cmd::OpenPkgTab(PkgId::local("bash")));
    process_cmds(&mut ui);
    assert_eq!(count_tabs_for(&ui.dock_state, &PkgId::local("bash")), 1);
    let (tabs, active) = leaf_tabs(&ui.dock_state, 1, 0);
    assert_eq!(tabs.len(), 2);
    assert_eq!(active, 1);
    assert_eq!(
        ui.dock_state.focused_leaf(),
        Some((SurfaceIndex(1), NodeIndex(0)))
    );
    // The main surface is untouched.
    let (main_tabs, _) = leaf_tabs(&ui.dock_state, 0, 0);
    assert_eq!(main_tabs.len(), 2);
}

#[test]
fn local_and_remote_packages_of_one_name_get_their_own_tabs() {
    let mut ui = two_leaf_layout();
    open_pkg_tab(&mut ui.dock_state, PkgId::local("bash"));
    open_pkg_tab(&mut ui.dock_state, PkgId::qualified("core", "bash"));
    assert_eq!(count_tabs_for(&ui.dock_state, &PkgId::local("bash")), 1);
    assert_eq!(
        count_tabs_for(&ui.dock_state, &PkgId::qualified("core", "bash")),
        1
    );
    let (tabs, _) = leaf_tabs(&ui.dock_state, 0, 2);
    assert_eq!(tabs.len(), 3);
}

#[test]
fn an_emptied_main_surface_gets_a_new_root_leaf() {
    let mut dock = DockState::new(vec![Tab::ColorTheme]);
    dock.remove_tab((SurfaceIndex(0), NodeIndex(0), egui_dock::TabIndex(0)));
    assert_eq!(dock.main_surface().len(), 0);
    open_pkg_tab(&mut dock, PkgId::local("bash"));
    assert_eq!(dock.main_surface().len(), 1);
    let (tabs, active) = leaf_tabs(&dock, 0, 0);
    assert_eq!(tabs.len(), 1);
    assert!(tabs[0].shows_pkg(&PkgId::local("bash")));
    assert_eq!(active, 0);
}

#[test]
fn a_tree_of_parent_nodes_only_has_no_room() {
    let mut dock = DockState::new(vec![Tab::ColorTheme]);
    dock.main_surface_mut()[NodeIndex(0)].split(egui_dock::Split::Right, 0.5);
    assert!(dock.main_surface()[NodeIndex(0)].is_parent());
    open_pkg_tab(&mut dock, PkgId::local("bash"));
    assert_eq!(dock.main_surface().len(), 1);
    assert_eq!(count_tabs_for(&dock, &PkgId::local("bash")), 0);
}

#[test]
fn a_hole_before_any_leaf_becomes_the_leaf() {
    let mut dock = DockState::new(vec![Tab::LocalPkgList(PkgListState::default())]);
    dock.main_surface_mut().split_right(
        NodeIndex::root(),
        0.5,
        vec![Tab::RemotePkgList(PkgListState::default())],
    );
    // Punch a hole where the first leaf was.
    dock.main_surface_mut()[NodeIndex(1)] = Node::Empty;
    open_pkg_tab(&mut dock, PkgId::local("bash"));
    let (tabs, active) = leaf_tabs(&dock, 0, 1);
    assert_eq!(tabs.len(), 1);
    assert!(tabs[0].shows_pkg(&PkgId::local("bash")));
    assert_eq!(active, 0);
}

#[test]
fn every_leaf_that_hosts_the_tab_activates_its_last_copy() {
    let id = PkgId::local("bash");
    let mut dock = DockState::new(vec![
        Tab::Pkg(PkgTab::new(PkgId::local("bash"))),
        Tab::ColorTheme,
        Tab::Pkg(PkgTab::new(PkgId::local("bash"))),
        Tab::ColorTheme,
    ]);
    dock.add_window(vec![Tab::ColorTheme, Tab::Pkg(PkgTab::new(PkgId::local("bash")))]);
    dock.add_window(vec![Tab::ColorTheme]);
    open_pkg_tab(&mut dock, PkgId::local("bash"));
    assert_eq!(count_tabs_for(&dock, &id), 3);
    assert_eq!(leaf_tabs(&dock, 0, 0).1, 2);
    assert_eq!(leaf_tabs(&dock, 1, 0).1, 1);
    assert_eq!(leaf_tabs(&dock, 2, 0).1, 0);
    assert_eq!(dock.focused_leaf(), Some((SurfaceIndex(1), NodeIndex(0))));
}

#[test]
fn cmd_buf_default_is_empty() {
    let buf = CmdBuf::default();
    assert_eq!(buf.len(), 0);
}

#[test]
fn an_empty_surface_is_skipped() {
    let mut dock = DockState::new(Tab::default_tabs());
    let first = dock.add_window(vec![Tab::ColorTheme]);
    let second = dock.add_window(vec![Tab::Pkg(PkgTab::new(PkgId::local("bash")))]);
    assert_eq!((first, second), (SurfaceIndex(1), SurfaceIndex(2)));
    dock.remove_surface(first);
    assert_eq!(dock.surfaces_count(), 3);
    assert!(!dock.is_surface_valid(first));
    open_pkg_tab(&mut dock, PkgId::local("bash"));
    assert_eq!(count_tabs_for(&dock, &PkgId::local("bash")), 1);
    assert_eq!(dock.focused_leaf(), Some((SurfaceIndex(2), NodeIndex(0))));
    open_pkg_tab(&mut dock, PkgId::local("zsh"));
    let (tabs, active) = leaf_tabs(&dock, 0, 0);
    assert_eq!(tabs.len(), 3);
    assert_eq!(active, 2);
}

#[test]
fn a_layout_without_a_main_surface_stays_as_it_is() {
    let mut dock = DockState::new(vec![Tab::ColorTheme]);
    *dock.get_surface_mut(SurfaceIndex::main()).unwrap() = egui_dock::Surface::Empty;
    assert!(!dock.is_surface_valid(SurfaceIndex::main()));
    open_pkg_tab(&mut dock, PkgId::local("bash"));
    assert_eq!(dock.surfaces_count(), 1);
    assert!(!dock.is_surface_valid(SurfaceIndex::main()));
    assert_eq!(count_tabs_for(&dock, &PkgId::local("bash")), 0);
}

#[test]
fn a_main_surface_emptied_of_tabs_takes_the_tab_in_its_hole() {
    let mut dock = DockState::new(vec![Tab::ColorTheme]);
    dock.retain_tabs(|_| false);
    assert_eq!(dock.main_surface().len(), 1);
    assert!(dock.main_surface()[NodeIndex(0)].is_empty());
    open_pkg_tab(&mut dock, PkgId::local("bash"));
    let (tabs, active) = leaf_tabs(&dock, 0, 0);
    assert_eq!(tabs.len(), 1);
    assert_eq!(active, 0);
}

#[test]
fn a_fresh_tab_in_a_free_leaf_leaves_the_focus_alone() {
    let mut ui = two_leaf_layout();
    ui.dock_state
        .set_focused_node_and_surface((SurfaceIndex(0), NodeIndex(1)));
    open_pkg_tab(&mut ui.dock_state, PkgId::local("bash"));
    assert_eq!(
        ui.dock_state.focused_leaf(),
        Some((SurfaceIndex(0), NodeIndex(1)))
    );
}
