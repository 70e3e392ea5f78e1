use pacfront::pkg_id::PkgId;
use pacfront::tabs::{PkgListState, PkgTab, PkgTabTab, Tab};

#[test]
fn a_new_detail_view_shows_the_general_half() {
    let tab = PkgTab::new(PkgId::qualified("core", "bash"));
    assert!(tab.id == PkgId::qualified("core", "bash"));
    assert_eq!(tab.tab, PkgTabTab::General);
    assert!(!tab.force_close);
    assert_eq!(tab.files_filt_string, "");
    assert_eq!(PkgTabTab::default(), PkgTabTab::General);
}

#[test]
fn a_new_list_view_has_an_empty_filter() {
    assert_eq!(PkgListState::default().filter_string, "");
}

#[test]
fn default_tabs_are_the_two_lists() {
    let tabs = Tab::default_tabs();
    assert_eq!(tabs.len(), 2);
    assert!(matches!(&tabs[0], Tab::LocalPkgList(state) if state.filter_string.is_empty()));
    assert!(matches!(&tabs[1], Tab::RemotePkgList(state) if state.filter_string.is_empty()));
}

#[test]
fn only_the_lists_are_pinned() {
    assert!(!Tab::LocalPkgList(PkgListState::default()).closeable());
    assert!(!Tab::RemotePkgList(PkgListState::default()).closeable());
    assert!(Tab::Pkg(PkgTab::new(PkgId::local("bash"))).closeable());
    assert!(Tab::ColorTheme.closeable());
    assert!(Tab::LocalPkgList(PkgListState::default()).is_pkg_list());
    assert!(Tab::RemotePkgList(PkgListState::default()).is_pkg_list());
    assert!(!Tab::Pkg(PkgTab::new(PkgId::local("bash"))).is_pkg_list());
    assert!(!Tab::ColorTheme.is_pkg_list());
}

#[test]
fn only_a_detail_view_can_ask_to_be_closed() {
    let mut pkg_tab = PkgTab::new(PkgId::local("bash"));
    assert!(!Tab::Pkg(PkgTab::new(PkgId::local("bash"))).force_close());
    pkg_tab.request_close();
    assert!(pkg_tab.force_close);
    assert!(pkg_tab.id == PkgId::local("bash"));
    assert!(Tab::Pkg(pkg_tab).force_close());
    assert!(!Tab::LocalPkgList(PkgListState::default()).force_close());
    assert!(!Tab::RemotePkgList(PkgListState::default()).force_close());
    assert!(!Tab::ColorTheme.force_close());
}

#[test]
fn a_tab_shows_the_package_it_was_opened_for() {
    let tab = Tab::Pkg(PkgTab::new(PkgId::local("bash")));
    assert!(tab.shows_pkg(&PkgId::local("bash")));
    assert!(!tab.shows_pkg(&PkgId::qualified("core", "bash")));
    assert!(!tab.shows_pkg(&PkgId::local("zsh")));
    assert!(!Tab::ColorTheme.shows_pkg(&PkgId::local("bash")));
}

#[test]
fn titles() {
    let local = Tab::LocalPkgList(PkgListState::default());
    let remote = Tab::RemotePkgList(PkgListState::default());
    let pkg = Tab::Pkg(PkgTab::new(PkgId::qualified("extra", "vim")));
    assert_eq!(local.title(1234, 56789), "Local packages (1234)");
    assert_eq!(remote.title(1234, 56789), "Remote packages (56789)");
    assert_eq!(local.title(0, 0), "Local packages (0)");
    assert_eq!(pkg.title(1, 2), "\u{1F4E6} extra/vim");
    assert_eq!(Tab::ColorTheme.title(1, 2), "\u{1F3A8} Color theme");
}
