//! Package identifiers: a repository name paired with a package name.

use smol_str::SmolStr;
use vstd::prelude::*;
use vstd::string::StringExecFns;

verus! {

/// `smol_str::SmolStr`, an immutable string that stores short text inline.
/// Verus sees nothing inside a value; `smol_text` names what it holds.
#[verifier::external_type_specification]
#[verifier::external_body]
pub struct ExSmolStr(smol_str::SmolStr);

/// The text that a `SmolStr` holds, whichever way it stores it.
pub uninterp spec fn smol_text(s: SmolStr) -> Seq<char>;

/// `SmolStr::new`: builds a `SmolStr` from a string slice. Claimed: the
/// result holds exactly the characters of `text`.
#[verifier::external_body]
pub(crate) fn smol_from_str(text: &str) -> (s: SmolStr)
    ensures
        smol_text(s) == text@,
{
    SmolStr::new(text)
}

/// `SmolStr::as_str`: borrows the held text. Claimed: the slice has exactly
/// the characters that the `SmolStr` holds.
#[verifier::external_body]
pub(crate) fn smol_as_str(s: &SmolStr) -> (text: &str)
    ensures
        text@ == smol_text(*s),
{
    s.as_str()
}

/// `SmolStr == SmolStr`. Claimed: two values compare equal exactly when they
/// hold the same text, however each stores it.
#[verifier::external_body]
pub(crate) fn smol_eq(a: &SmolStr, b: &SmolStr) -> (r: bool)
    ensures
        r == (smol_text(*a) == smol_text(*b)),
{
    a == b
}

/// `SmolStr == &str`. Claimed: equal exactly when the held text is `text`.
#[verifier::external_body]
pub(crate) fn smol_eq_str(a: &SmolStr, text: &str) -> (r: bool)
    ensures
        r == (smol_text(*a) == text@),
{
    *a == text
}

/// The name of the repository that holds the installed packages.
pub const LOCAL_DB: &'static str = "local";

/// What a `PkgId` stands for: the two names as character sequences.
pub struct PkgIdView {
    pub db: Seq<char>,
    pub name: Seq<char>,
}

/// A unique identifier for a package (db/name).
pub struct PkgId {
    pub db: SmolStr,
    pub name: SmolStr,
}

impl View for PkgId {
    type V = PkgIdView;

    open spec fn view(&self) -> PkgIdView {
        PkgIdView { db: smol_text(self.db), name: smol_text(self.name) }
    }
}

impl PkgId {
    /// The identifier of the installed package called `name`.
    pub fn local(name: &str) -> (id: PkgId)
        ensures
            id@.db == LOCAL_DB@,
            id@.name == name@,
    {
        PkgId { db: smol_from_str(LOCAL_DB), name: smol_from_str(name) }
    }

    /// The identifier of the package called `name` in repository `db`.
    pub fn qualified(db: &str, name: &str) -> (id: PkgId)
        ensures
            id@.db == db@,
            id@.name == name@,
    {
        PkgId { db: smol_from_str(db), name: smol_from_str(name) }
    }

    /// Whether the package lives in a sync repository rather than in the
    /// store of installed packages.
    pub fn is_remote(&self) -> (r: bool)
        ensures
            r == (self@.db != LOCAL_DB@),
    {
        !smol_eq_str(&self.db, LOCAL_DB)
    }

    /// The identifier as text: the repository, a slash, the package name.
    pub fn to_string(&self) -> (text: String)
        ensures
            text@ == id_text(self@),
    {
        let mut text = String::from_str(smol_as_str(&self.db));
        text.append("/");
        text.append(smol_as_str(&self.name));
        text
    }
}

/// An identifier as text: the repository, a slash, the package name.
pub open spec fn id_text(id: PkgIdView) -> Seq<char> {
    id.db + "/"@ + id.name
}

impl PartialEq for PkgId {
    /// Two identifiers are equal when both their names are.
    fn eq(&self, other: &PkgId) -> (r: bool) {
        smol_eq(&self.db, &other.db) && smol_eq(&self.name, &other.name)
    }
}

impl Eq for PkgId {}

impl vstd::std_specs::cmp::PartialEqSpecImpl for PkgId {
    open spec fn obeys_eq_spec() -> bool {
        true
    }

    open spec fn eq_spec(&self, other: &PkgId) -> bool {
        self@ == other@
    }
}

} // verus!
