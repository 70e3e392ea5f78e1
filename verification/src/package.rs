//! Package records as the data provider hands them over, and what the views
//! ask of them: looking a package up, resolving a dependency, filtering a
//! list, and comparing a remote package with the installed one.

use crate::pkg_id::{smol_as_str, smol_eq_str, PkgId, PkgIdView};
use crate::search::{
    first_where, indices_where, lemma_first_where, lemma_first_where_is, lemma_indices_where,
    lemma_indices_where_step,
};
use crate::text::{contains_filter, lowered, occurs_in};
use vstd::prelude::*;
use vstd::string::{StringExecFns, StringSliceAdditionalSpecFns};
use vstd::utf8::encode_utf8;

verus! {

/// A version together with its place in the distribution's version order.
///
/// The provider numbers the versions it hands over so that a version is
/// newer than another exactly when its rank is greater; versions that the
/// distribution takes for equal share a rank.
pub struct Version {
    pub text: String,
    pub rank: u64,
}

/// A dependency, or a capability that a package provides: a name, an
/// optional version and an optional description. `text` is the entry as the
/// database writes it, version constraint included.
pub struct Dep {
    pub name: String,
    pub version: Option<Version>,
    pub desc: Option<String>,
    pub text: String,
}

/// A package record. `db` is the name of the repository it comes from;
/// `files` is its file list in the order of the database.
pub struct Package {
    pub db: Option<String>,
    pub name: String,
    pub version: Version,
    pub desc: Option<String>,
    pub url: Option<String>,
    pub depends: Vec<Dep>,
    pub optdepends: Vec<Dep>,
    pub required_by: Vec<String>,
    pub optional_for: Vec<String>,
    pub provides: Vec<Dep>,
    pub files: Vec<String>,
}

/// Whether the record is one of repository `db`: it names its repository,
/// and the name is `db`.
pub open spec fn in_repo(pkg: Package, db: Seq<char>) -> bool {
    pkg.db matches Some(name) && name@ == db
}

/// Whether `id` identifies the record: the record is one of the repository
/// of `id` and has the package name of `id`.
pub open spec fn identifies(id: PkgIdView, pkg: Package) -> bool {
    in_repo(pkg, id.db) && pkg.name@ == id.name
}

/// The predicate "is identified by `id`".
pub open spec fn identified_by(id: PkgIdView) -> spec_fn(Package) -> bool {
    |pkg: Package| identifies(id, pkg)
}

/// The predicate "is called `name`".
pub open spec fn called(name: Seq<char>) -> spec_fn(Package) -> bool {
    |pkg: Package| pkg.name@ == name
}

/// Whether a provided version meets a wanted one: nothing is wanted, or a
/// version is provided that is not older than the wanted one.
pub open spec fn version_at_least(have: Option<Version>, want: Option<Version>) -> bool {
    match want {
        None => true,
        Some(w) => have matches Some(h) && h.rank >= w.rank,
    }
}

/// Whether the provided capability answers a request for `name` in a
/// version of at least `want`: it has that name and meets the version.
pub open spec fn answers(provided: Dep, name: Seq<char>, want: Option<Version>) -> bool {
    provided.name@ == name && version_at_least(provided.version, want)
}

/// Whether the package satisfies a request for `name` in a version of at
/// least `want`: it is called `name`, or one of the capabilities it provides
/// answers the request. A dependency asks for its name and its version; a
/// bare name asks for any version.
pub open spec fn satisfies(pkg: Package, name: Seq<char>, want: Option<Version>) -> bool {
    pkg.name@ == name || exists|k: int|
        0 <= k < pkg.provides.len() && answers(#[trigger] pkg.provides[k], name, want)
}

/// Whether the package resolves the request within repository `db`: it is a
/// record of that repository and satisfies the request. Records of other
/// repositories never resolve anything, whatever they are called.
pub open spec fn resolves(pkg: Package, db: Seq<char>, name: Seq<char>, want: Option<Version>) -> bool {
    in_repo(pkg, db) && satisfies(pkg, name, want)
}

/// The predicate "resolves the request within repository `db`".
pub open spec fn resolving(db: Seq<char>, name: Seq<char>, want: Option<Version>) -> spec_fn(
    Package,
) -> bool {
    |pkg: Package| resolves(pkg, db, name, want)
}

/// What a request for `name` in a version of at least `want` resolves to
/// within repository `db`: the first record of the list that is one of `db`
/// and satisfies the request; `None` where there is no such record.
pub open spec fn resolution(
    list: Seq<Package>,
    db: Seq<char>,
    name: Seq<char>,
    want: Option<Version>,
) -> Option<int> {
    if first_where(list, resolving(db, name, want)) < list.len() {
        Some(first_where(list, resolving(db, name, want)))
    } else {
        None
    }
}

/// What an index search returns for `first_where`.
pub open spec fn found_at(found: Option<usize>, first: int, len: int) -> bool {
    match found {
        Some(i) => i == first && first < len,
        None => first == len,
    }
}

impl PkgId {
    /// Whether the identifier is that of the given package record.
    pub fn matches_pkg(&self, pkg: &Package) -> (r: bool)
        ensures
            r == identifies(self@, *pkg),
    {
        match &pkg.db {
            Some(db) => smol_eq_str(&self.db, db.as_str()) && smol_eq_str(
                &self.name,
                pkg.name.as_str(),
            ),
            None => false,
        }
    }
}

/// Finds the package that `id` identifies: the first one in the list, should
/// there be several.
pub fn find_package(list: &[Package], id: &PkgId) -> (found: Option<usize>)
    ensures
        found_at(found, first_where(list@, identified_by(id@)), list@.len() as int),
{
    let mut i: usize = 0;
    while i < list.len()
        invariant
            i <= list.len(),
            forall|j: int| 0 <= j < i ==> !identifies(id@, #[trigger] list@[j]),
        decreases list.len() - i,
    {
        if id.matches_pkg(&list[i]) {
            proof {
                lemma_first_where_is(list@, identified_by(id@), i as int);
            }
            return Some(i);
        }
        i += 1;
    }
    proof {
        lemma_first_where_is(list@, identified_by(id@), i as int);
    }
    None
}

/// Finds the first package of the list that is called `name`.
pub fn find_by_name(list: &[Package], name: &String) -> (found: Option<usize>)
    ensures
        found_at(found, first_where(list@, called(name@)), list@.len() as int),
{
    let mut i: usize = 0;
    while i < list.len()
        invariant
            i <= list.len(),
            forall|j: int| 0 <= j < i ==> (#[trigger] list@[j]).name@ != name@,
        decreases list.len() - i,
    {
        if list[i].name == *name {
            proof {
                lemma_first_where_is(list@, called(name@), i as int);
            }
            return Some(i);
        }
        i += 1;
    }
    proof {
        lemma_first_where_is(list@, called(name@), i as int);
    }
    None
}

/// Whether a provided version meets a wanted one.
fn meets(have: &Option<Version>, want: &Option<Version>) -> (r: bool)
    ensures
        r == version_at_least(*have, *want),
{
    match want {
        None => true,
        Some(w) => match have {
            Some(h) => h.rank >= w.rank,
            None => false,
        },
    }
}

/// Whether the package satisfies a request for `name` in a version of at
/// least `want`.
fn satisfies_request(pkg: &Package, name: &String, want: &Option<Version>) -> (r: bool)
    ensures
        r == satisfies(*pkg, name@, *want),
{
    if pkg.name == *name {
        return true;
    }
    let mut k: usize = 0;
    while k < pkg.provides.len()
        invariant
            k <= pkg.provides.len(),
            pkg.name@ != name@,
            forall|j: int| 0 <= j < k ==> !answers(#[trigger] pkg.provides[j], name@, *want),
        decreases pkg.provides.len() - k,
    {
        let provided = &pkg.provides[k];
        if provided.name == *name && meets(&provided.version, want) {
            assert(answers(pkg.provides[k as int], name@, *want));
            return true;
        }
        k += 1;
    }
    false
}

/// Whether the package satisfies the dependency: it has the dependency's
/// name, or provides a capability of that name which meets the dependency's
/// version.
pub fn satisfies_dep(pkg: &Package, dep: &Dep) -> (r: bool)
    ensures
        r == satisfies(*pkg, dep.name@, dep.version),
{
    satisfies_request(pkg, &dep.name, &dep.version)
}

/// Whether the record is one of the repository of `viewed`.
fn is_in_repo_of(pkg: &Package, viewed: &PkgId) -> (r: bool)
    ensures
        r == in_repo(*pkg, viewed@.db),
{
    match &pkg.db {
        Some(db) => smol_eq_str(&viewed.db, db.as_str()),
        None => false,
    }
}

/// Resolves a request within the repository of `viewed`.
fn resolve(list: &[Package], viewed: &PkgId, name: &String, want: &Option<Version>) -> (found:
    Option<usize>)
    ensures
        match found {
            Some(i) => resolution(list@, viewed@.db, name@, *want) == Some(i as int),
            None => resolution(list@, viewed@.db, name@, *want) is None,
        },
{
    let mut i: usize = 0;
    while i < list.len()
        invariant
            i <= list.len(),
            forall|j: int|
                0 <= j < i ==> !resolves(#[trigger] list@[j], viewed@.db, name@, *want),
        decreases list.len() - i,
    {
        if is_in_repo_of(&list[i], viewed) && satisfies_request(&list[i], name, want) {
            proof {
                lemma_first_where_is(list@, resolving(viewed@.db, name@, *want), i as int);
            }
            return Some(i);
        }
        i += 1;
    }
    proof {
        lemma_first_where_is(list@, resolving(viewed@.db, name@, *want), i as int);
    }
    None
}

/// Resolves a dependency of the package `viewed`: to the first record of the
/// list that belongs to the repository of `viewed` and has the dependency's
/// name or provides a capability of that name which meets the dependency's
/// version. Records of other repositories are passed over. `None` means
/// that the dependency is unresolved; it is no error.
pub fn resolve_dep(list: &[Package], viewed: &PkgId, dep: &Dep) -> (found: Option<usize>)
    ensures
        match found {
            Some(i) => resolution(list@, viewed@.db, dep.name@, dep.version) == Some(i as int),
            None => resolution(list@, viewed@.db, dep.name@, dep.version) is None,
        },
{
    resolve(list, viewed, &dep.name, &dep.version)
}

/// Resolves a bare package name, as the lists of reverse dependencies hold
/// them, for the package `viewed`: to the first record of the list that
/// belongs to the repository of `viewed` and is called `name` or provides a
/// capability called `name`, of any version.
pub fn resolve_name(list: &[Package], viewed: &PkgId, name: &str) -> (found: Option<usize>)
    ensures
        match found {
            Some(i) => resolution(list@, viewed@.db, name@, None) == Some(i as int),
            None => resolution(list@, viewed@.db, name@, None) is None,
        },
{
    let wanted = String::from_str(name);
    let any: Option<Version> = None;
    resolve(list, viewed, &wanted, &any)
}

/// What a request resolves to is a record of the repository asked in, it
/// satisfies the request, and it is the first record of the list that does
/// both; an unresolved request is one for which the list has no such record.
pub proof fn law_resolution_is_the_first_satisfier(
    list: Seq<Package>,
    db: Seq<char>,
    name: Seq<char>,
    want: Option<Version>,
)
    ensures
        match resolution(list, db, name, want) {
            Some(i) => 0 <= i < list.len() && in_repo(list[i], db) && satisfies(
                list[i],
                name,
                want,
            ) && forall|j: int| 0 <= j < i ==> !resolves(#[trigger] list[j], db, name, want),
            None => forall|j: int|
                0 <= j < list.len() ==> !resolves(#[trigger] list[j], db, name, want),
        },
{
    lemma_first_where(list, resolving(db, name, want));
    let first = first_where(list, resolving(db, name, want));
    assert forall|j: int| 0 <= j < first implies !resolves(#[trigger] list[j], db, name, want) by {
        assert(!resolving(db, name, want)(list[j]));
    }
}

/// A record of another repository never resolves a request, whatever it is
/// called and whatever it provides: a list without records of `db` leaves
/// every request unresolved.
pub proof fn law_other_repositories_resolve_nothing(
    list: Seq<Package>,
    db: Seq<char>,
    name: Seq<char>,
    want: Option<Version>,
)
    requires
        forall|i: int| 0 <= i < list.len() ==> !in_repo(#[trigger] list[i], db),
    ensures
        resolution(list, db, name, want) is None,
{
    lemma_first_where(list, resolving(db, name, want));
}

/// A request for any version resolves exactly when some record of the
/// repository is called `name` or provides a capability called `name`,
/// whether or not a package is literally called so; and what it resolves to
/// is such a record.
pub proof fn law_provided_capability_resolves(list: Seq<Package>, db: Seq<char>, name: Seq<char>)
    ensures
        resolution(list, db, name, None) is Some <==> exists|i: int|
            0 <= i < list.len() && in_repo(#[trigger] list[i], db) && names_or_provides(
                list[i],
                name,
            ),
        resolution(list, db, name, None) matches Some(i) ==> 0 <= i < list.len() && in_repo(
            list[i],
            db,
        ) && names_or_provides(list[i], name),
{
    let want: Option<Version> = None;
    lemma_first_where(list, resolving(db, name, want));
    assert forall|i: int| 0 <= i < list.len() implies satisfies(#[trigger] list[i], name, want)
        == names_or_provides(list[i], name) by {
        let pkg = list[i];
        if satisfies(pkg, name, want) && pkg.name@ != name {
            let k = choose|k: int|
                0 <= k < pkg.provides.len() && answers(#[trigger] pkg.provides[k], name, want);
            assert(pkg.provides[k].name@ == name);
        }
        if names_or_provides(pkg, name) && pkg.name@ != name {
            let k = choose|k: int|
                0 <= k < pkg.provides.len() && (#[trigger] pkg.provides[k]).name@ == name;
            assert(answers(pkg.provides[k], name, want));
        }
    }
    if exists|i: int|
        0 <= i < list.len() && in_repo(#[trigger] list[i], db) && names_or_provides(list[i], name) {
        let i = choose|i: int|
            0 <= i < list.len() && in_repo(#[trigger] list[i], db) && names_or_provides(
                list[i],
                name,
            );
        assert(resolves(list[i], db, name, want));
    }
}

/// Whether the package is called `name` or provides a capability called
/// `name`, of any version.
pub open spec fn names_or_provides(pkg: Package, name: Seq<char>) -> bool {
    pkg.name@ == name || exists|k: int|
        0 <= k < pkg.provides.len() && (#[trigger] pkg.provides[k]).name@ == name
}

/// The text of the link from a requested name to the package that resolves
/// it: the requested name, followed by the package's name in brackets where
/// the two differ.
pub open spec fn dep_label_text(dep: Seq<char>, pkg: Seq<char>) -> Seq<char> {
    if dep == pkg {
        dep
    } else {
        dep + " ("@ + pkg + ")"@
    }
}

/// The text of the link from the requested `name` to the package `pkg`
/// that resolves it.
fn link_label(name: &String, pkg: &Package) -> (label: String)
    ensures
        label@ == dep_label_text(name@, pkg.name@),
{
    let mut label = name.clone();
    if *name != pkg.name {
        label.append(" (");
        label.append(pkg.name.as_str());
        label.append(")");
    }
    label
}

/// The text of the link from `dep` to the package `pkg` that resolves it.
pub fn dep_label(dep: &Dep, pkg: &Package) -> (label: String)
    ensures
        label@ == dep_label_text(dep.name@, pkg.name@),
{
    link_label(&dep.name, pkg)
}

/// The text shown for a request that nothing resolves: the request as
/// written, marked as unresolved.
fn marked_unresolved(text: &String) -> (label: String)
    ensures
        label@ == text@ + " (unresolved)"@,
{
    let mut label = text.clone();
    label.append(" (unresolved)");
    label
}

/// The text shown for a dependency that no package resolves: the
/// dependency as the database writes it, marked as unresolved.
pub fn unresolved_label(dep: &Dep) -> (label: String)
    ensures
        label@ == dep.text@ + " (unresolved)"@,
{
    marked_unresolved(&dep.text)
}

/// How a dependency, an optional dependency or a reverse dependency of a
/// package is shown in the package's detail view.
pub enum DepEntry {
    /// The entry resolves: a link with this text that leads to the detail
    /// view of `target`.
    Link { label: String, target: PkgId },
    /// The entry is unresolved: plain text, no link.
    Plain { label: String },
}

/// What a `DepEntry` stands for in contracts.
pub enum DepEntryView {
    Link { label: Seq<char>, target: PkgIdView },
    Plain { label: Seq<char> },
}

impl View for DepEntry {
    type V = DepEntryView;

    open spec fn view(&self) -> DepEntryView {
        match *self {
            DepEntry::Link { label, target } => DepEntryView::Link { label: label@, target: target@ },
            DepEntry::Plain { label } => DepEntryView::Plain { label: label@ },
        }
    }
}

/// The entry, in the detail view of the package `viewed`, for a request for
/// `name` in a version of at least `want` that the database writes as
/// `text`. Where a record of the repository of `viewed` resolves the
/// request, the entry is a link to that record's package in that
/// repository; otherwise it is `text`, marked as unresolved.
pub open spec fn entry_for(
    list: Seq<Package>,
    viewed: PkgIdView,
    name: Seq<char>,
    want: Option<Version>,
    text: Seq<char>,
) -> DepEntryView {
    match resolution(list, viewed.db, name, want) {
        Some(i) => DepEntryView::Link {
            label: dep_label_text(name, list[i].name@),
            target: PkgIdView { db: viewed.db, name: list[i].name@ },
        },
        None => DepEntryView::Plain { label: text + " (unresolved)"@ },
    }
}

/// Builds the entry for a request from what it resolved to.
fn entry(list: &[Package], viewed: &PkgId, name: &String, text: &String, found: Option<usize>) -> (entry:
    DepEntry)
    requires
        found matches Some(i) ==> i < list@.len(),
    ensures
        entry@ == match found {
            Some(i) => DepEntryView::Link {
                label: dep_label_text(name@, list@[i as int].name@),
                target: PkgIdView { db: viewed@.db, name: list@[i as int].name@ },
            },
            None => DepEntryView::Plain { label: text@ + " (unresolved)"@ },
        },
{
    match found {
        Some(i) => DepEntry::Link {
            label: link_label(name, &list[i]),
            target: PkgId::qualified(smol_as_str(&viewed.db), list[i].name.as_str()),
        },
        None => DepEntry::Plain { label: marked_unresolved(text) },
    }
}

/// Resolves a dependency, or an optional dependency, of the package
/// `viewed` within the repository of `viewed`, and says how to show it.
pub fn dep_entry(list: &[Package], viewed: &PkgId, dep: &Dep) -> (entry: DepEntry)
    ensures
        entry@ == entry_for(list@, viewed@, dep.name@, dep.version, dep.text@),
{
    let found = resolve_dep(list, viewed, dep);
    proof {
        lemma_first_where(list@, resolving(viewed@.db, dep.name@, dep.version));
    }
    entry(list, viewed, &dep.name, &dep.text, found)
}

/// Resolves a bare package name, as the lists of reverse dependencies hold
/// them, within the repository of `viewed`, and says how to show it.
pub fn name_entry(list: &[Package], viewed: &PkgId, name: &str) -> (entry: DepEntry)
    ensures
        entry@ == entry_for(list@, viewed@, name@, None, name@),
{
    let wanted = String::from_str(name);
    let any: Option<Version> = None;
    let found = resolve(list, viewed, &wanted, &any);
    proof {
        lemma_first_where(list@, resolving(viewed@.db, name@, any));
    }
    entry(list, viewed, &wanted, &wanted, found)
}

/// A link never leaves the repository of the viewed package: its target
/// names that repository, and identifies a record of the list.
pub proof fn law_links_stay_in_the_repository(
    list: Seq<Package>,
    viewed: PkgIdView,
    name: Seq<char>,
    want: Option<Version>,
    text: Seq<char>,
)
    ensures
        entry_for(list, viewed, name, want, text) matches DepEntryView::Link { target, .. }
            ==> target.db == viewed.db && exists|i: int|
            0 <= i < list.len() && identifies(target, #[trigger] list[i]),
{
    law_resolution_is_the_first_satisfier(list, viewed.db, name, want);
    if let Some(i) = resolution(list, viewed.db, name, want) {
        assert(identifies(PkgIdView { db: viewed.db, name: list[i].name@ }, list[i]));
    }
}

/// The list that holds the records of the repository of `id`: the
/// installed packages for an installed package, the packages of the sync
/// repositories otherwise. Lookups in it go by repository: among the
/// packages of the sync repositories only those of the repository of `id`
/// count.
pub fn packages_for<'a>(id: &PkgId, local: &'a [Package], remote: &'a [Package]) -> (list:
    &'a [Package])
    ensures
        list@ == if id@.db == crate::pkg_id::LOCAL_DB@ {
            local@
        } else {
            remote@
        },
{
    if id.is_remote() {
        remote
    } else {
        local
    }
}

/// Where the detail view of a remote package links to the installed package
/// of the same name: `None` for an installed package, and for a remote one
/// that is not installed.
pub fn installed_link(viewed: &PkgId, pkg: &Package, local: &[Package]) -> (target: Option<PkgId>)
    ensures
        match target {
            Some(id) => id@ == (PkgIdView { db: crate::pkg_id::LOCAL_DB@, name: pkg.name@ })
                && viewed@.db != crate::pkg_id::LOCAL_DB@ && first_where(
                local@,
                called(pkg.name@),
            ) < local@.len(),
            None => viewed@.db == crate::pkg_id::LOCAL_DB@ || first_where(
                local@,
                called(pkg.name@),
            ) == local@.len(),
        },
{
    if viewed.is_remote() && find_by_name(local, &pkg.name).is_some() {
        Some(PkgId::local(pkg.name.as_str()))
    } else {
        None
    }
}

/// How a remote package compares with the installed package of its name.
#[derive(Clone, Copy, Debug, PartialEq, Eq, Structural)]
pub enum InstalledStatus {
    /// The remote package is older than the installed one.
    Older,
    /// Both have the same version.
    Installed,
    /// The remote package is newer than the installed one.
    Newer,
}

/// The status of a remote version of rank `remote` beside an installed
/// version of rank `local`.
pub open spec fn status_of(remote: u64, local: u64) -> InstalledStatus {
    if remote < local {
        InstalledStatus::Older
    } else if remote == local {
        InstalledStatus::Installed
    } else {
        InstalledStatus::Newer
    }
}

impl InstalledStatus {
    /// Compares a remote version with the installed one.
    pub fn of(remote: &Version, local: &Version) -> (status: InstalledStatus)
        ensures
            status == status_of(remote.rank, local.rank),
    {
        if remote.rank < local.rank {
            InstalledStatus::Older
        } else if remote.rank == local.rank {
            InstalledStatus::Installed
        } else {
            InstalledStatus::Newer
        }
    }

    /// The marker shown beside the remote package.
    pub fn label(&self) -> (text: &'static str)
        ensures
            text@ == match *self {
                InstalledStatus::Older => "[older]"@,
                InstalledStatus::Installed => "[installed]"@,
                InstalledStatus::Newer => "[newer]"@,
            },
    {
        match self {
            InstalledStatus::Older => "[older]",
            InstalledStatus::Installed => "[installed]",
            InstalledStatus::Newer => "[newer]",
        }
    }

    /// The explanation shown when the marker is pointed at; none where the
    /// versions are the same.
    pub fn hover_text(&self) -> (text: Option<&'static str>)
        ensures
            match *self {
                InstalledStatus::Older => text matches Some(t) && t@
                    == "This package is older than the locally installed"@,
                InstalledStatus::Installed => text is None,
                InstalledStatus::Newer => text matches Some(t) && t@
                    == "This package is newer than the locally installed"@,
            },
    {
        match self {
            InstalledStatus::Older => Some("This package is older than the locally installed"),
            InstalledStatus::Installed => None,
            InstalledStatus::Newer => Some("This package is newer than the locally installed"),
        }
    }
}

/// The marker for a remote package that is also installed: which entry of
/// the local list is the installed package, and how the two compare.
pub struct InstalledLabel {
    pub local: usize,
    pub status: InstalledStatus,
}

/// Looks a remote package up among the installed ones, by name. `None`
/// means that no package of that name is installed; otherwise the first
/// such package is compared with the remote one.
pub fn installed_label_for_remote_pkg(remote: &Package, local_pkg_list: &[Package]) -> (label:
    Option<InstalledLabel>)
    ensures
        match label {
            Some(l) => l.local == first_where(local_pkg_list@, called(remote.name@)) && l.local
                < local_pkg_list@.len() && l.status == status_of(
                remote.version.rank,
                local_pkg_list@[l.local as int].version.rank,
            ),
            None => first_where(local_pkg_list@, called(remote.name@)) == local_pkg_list@.len(),
        },
{
    match find_by_name(local_pkg_list, &remote.name) {
        Some(i) => Some(
            InstalledLabel {
                local: i,
                status: InstalledStatus::of(&remote.version, &local_pkg_list[i].version),
            },
        ),
        None => None,
    }
}

/// Whether the package is listed under the filter: the filter, in lower
/// case, is part of the package's name as it is, of its description in lower
/// case, or, where `with_provides` is set, of the name of a capability that
/// the package provides.
pub open spec fn listed(pkg: Package, filter: Seq<u8>, with_provides: bool) -> bool {
    ||| occurs_in(lowered(filter), encode_utf8(pkg.name@))
    ||| (pkg.desc matches Some(desc) && occurs_in(lowered(filter), lowered(encode_utf8(desc@))))
    ||| (with_provides && exists|k: int|
        0 <= k < pkg.provides.len() && occurs_in(
            lowered(filter),
            encode_utf8((#[trigger] pkg.provides[k]).name@),
        ))
}

/// The predicate "is listed under the filter".
pub open spec fn listing(filter: Seq<u8>, with_provides: bool) -> spec_fn(Package) -> bool {
    |pkg: Package| listed(pkg, filter, with_provides)
}

/// The positions held in a vector of positions.
pub open spec fn positions(shown: Seq<usize>) -> Seq<int> {
    shown.map_values(|i: usize| i as int)
}

/// Whether the package is listed under the filter.
pub fn is_listed(pkg: &Package, filter: &str, with_provides: bool) -> (r: bool)
    ensures
        r == listed(*pkg, filter.spec_bytes(), with_provides),
{
    let wanted = filter.as_bytes();
    if contains_filter(pkg.name.as_str().as_bytes(), wanted, false) {
        return true;
    }
    if let Some(desc) = &pkg.desc {
        if contains_filter(desc.as_str().as_bytes(), wanted, true) {
            return true;
        }
    }
    if !with_provides {
        return false;
    }
    let mut k: usize = 0;
    while k < pkg.provides.len()
        invariant
            k <= pkg.provides.len(),
            with_provides,
            wanted@ == filter.spec_bytes(),
            forall|j: int|
                0 <= j < k ==> !occurs_in(
                    lowered(filter.spec_bytes()),
                    encode_utf8((#[trigger] pkg.provides[j]).name@),
                ),
        decreases pkg.provides.len() - k,
    {
        if contains_filter(pkg.provides[k].name.as_str().as_bytes(), wanted, false) {
            return true;
        }
        k += 1;
    }
    false
}

/// The positions of the packages that are listed under the filter, in the
/// order of the list.
pub fn filter_packages(list: &[Package], filter: &str, with_provides: bool) -> (shown: Vec<usize>)
    ensures
        positions(shown@) == indices_where(list@, listing(filter.spec_bytes(), with_provides)),
{
    let ghost wanted = listing(filter.spec_bytes(), with_provides);
    let mut shown: Vec<usize> = Vec::new();
    let mut i: usize = 0;
    assert(list@.take(0) =~= Seq::<Package>::empty());
    assert(positions(shown@) =~= Seq::<int>::empty());
    while i < list.len()
        invariant
            i <= list.len(),
            wanted == listing(filter.spec_bytes(), with_provides),
            positions(shown@) == indices_where(list@.take(i as int), wanted),
        decreases list.len() - i,
    {
        let ghost before = positions(shown@);
        proof {
            lemma_indices_where_step(list@, wanted, i as int);
        }
        if is_listed(&list[i], filter, with_provides) {
            shown.push(i);
            assert(positions(shown@) =~= before.push(i as int));
        }
        i += 1;
    }
    assert(list@.take(i as int) =~= list@);
    shown
}

/// Filters the list of installed packages: by name, description and
/// provided capabilities.
pub fn filter_local_packages(list: &[Package], filter: &str) -> (shown: Vec<usize>)
    ensures
        positions(shown@) == indices_where(list@, listing(filter.spec_bytes(), true)),
{
    filter_packages(list, filter, true)
}

/// Filters the list of remote packages: by name and description.
pub fn filter_remote_packages(list: &[Package], filter: &str) -> (shown: Vec<usize>)
    ensures
        positions(shown@) == indices_where(list@, listing(filter.spec_bytes(), false)),
{
    filter_packages(list, filter, false)
}

/// A filtered list holds the positions of exactly the packages that are
/// listed under the filter, each once and in the order of the list.
pub proof fn law_filter_keeps_exactly_the_listed(
    list: Seq<Package>,
    filter: Seq<u8>,
    with_provides: bool,
)
    ensures
        forall|j: int|
            0 <= j < indices_where(list, listing(filter, with_provides)).len() ==> 0
                <= #[trigger] indices_where(list, listing(filter, with_provides))[j] < list.len()
                && listed(
                list[indices_where(list, listing(filter, with_provides))[j]],
                filter,
                with_provides,
            ),
        forall|j1: int, j2: int|
            0 <= j1 < j2 < indices_where(list, listing(filter, with_provides)).len()
                ==> #[trigger] indices_where(list, listing(filter, with_provides))[j1]
                < #[trigger] indices_where(list, listing(filter, with_provides))[j2],
        forall|i: int|
            0 <= i < list.len() && listed(#[trigger] list[i], filter, with_provides)
                ==> indices_where(list, listing(filter, with_provides)).contains(i),
{
    let wanted = listing(filter, with_provides);
    let shown = indices_where(list, wanted);
    lemma_indices_where(list, wanted);
    assert forall|j: int| 0 <= j < shown.len() implies 0 <= #[trigger] shown[j] < list.len()
        && listed(list[shown[j]], filter, with_provides) by {
        assert(wanted(list[shown[j]]));
    }
    assert forall|i: int|
        0 <= i < list.len() && listed(#[trigger] list[i], filter, with_provides) implies shown.contains(
        i,
    ) by {
        assert(wanted(list[i]));
        let j = choose|j: int| 0 <= j < shown.len() && #[trigger] shown[j] == i;
        assert(shown[j] == i);
    }
}

} // verus!
