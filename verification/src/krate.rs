//! The package identifier: a `(name, version)` pair, the names of the
//! filesystem entries that belong to it, and the identifier records the
//! traversal engine keeps for deduplication.

use vstd::prelude::*;
use vstd::string::StringExecFns;

verus! {

/// A `(name, version)` record used by the traversal engine to recognise a
/// package-version it has already seen.  Two records are equal exactly when
/// both fields are equal.
#[derive(Debug, Clone, Eq, Hash)]
pub struct VisitedCrateVersion {
    pub name: String,
    pub version: String,
}

impl VisitedCrateVersion {
    /// The mathematical identity of the record.
    pub open spec fn key(&self) -> (Seq<char>, Seq<char>) {
        (self.name@, self.version@)
    }
}

impl PartialEq for VisitedCrateVersion {
    fn eq(&self, other: &Self) -> bool {
        self.name == other.name && self.version == other.version
    }
}

impl vstd::std_specs::cmp::PartialEqSpecImpl for VisitedCrateVersion {
    open spec fn obeys_eq_spec() -> bool {
        true
    }

    open spec fn eq_spec(&self, other: &Self) -> bool {
        self.name@ == other.name@ && self.version@ == other.version@
    }
}

/// The download directory of a package: `base/name`.
pub open spec fn spec_download_dir(base: Seq<char>, name: Seq<char>) -> Seq<char> {
    base + "/"@ + name
}

/// The archive file of a package version: `base/name/name-version.crate`.
pub open spec fn spec_crate_file_path(base: Seq<char>, name: Seq<char>, version: Seq<char>) -> Seq<
    char,
> {
    spec_download_dir(base, name) + "/"@ + name + "-"@ + version + ".crate"@
}

/// The extracted tree of a package version: `base/name/name-version`.
pub open spec fn spec_extract_dir_path(base: Seq<char>, name: Seq<char>, version: Seq<char>) -> Seq<
    char,
> {
    spec_download_dir(base, name) + "/"@ + name + "-"@ + version
}

/// The key under which a package version is entered into the in-flight set:
/// `name-version`.
pub open spec fn spec_lock_key(name: Seq<char>, version: Seq<char>) -> Seq<char> {
    name + "-"@ + version
}

/// An exact package release: a registry name together with one published
/// version, and the dependents discovered for it.
#[derive(Debug)]
pub struct Krate {
    name: String,
    version: String,
    dependents: Vec<Krate>,
}

impl Krate {
    /// The registry name of the package.
    pub closed spec fn spec_name(&self) -> Seq<char> {
        self.name@
    }

    /// The exact version string of the package.
    pub closed spec fn spec_version(&self) -> Seq<char> {
        self.version@
    }

    /// The dependents recorded on this node.
    pub closed spec fn spec_dependents(&self) -> Seq<Krate> {
        self.dependents@
    }

    /// The mathematical identity of the package: its name and version.
    pub open spec fn key(&self) -> (Seq<char>, Seq<char>) {
        (self.spec_name(), self.spec_version())
    }

    pub fn new(name: String, version: String) -> (r: Self)
        ensures
            r.spec_name() == name@,
            r.spec_version() == version@,
            r.spec_dependents() == Seq::<Krate>::empty(),
    {
        let r = Self { name, version, dependents: Vec::new() };
        proof {
            assert(r.spec_dependents() =~= Seq::<Krate>::empty());
        }
        r
    }

    pub fn name(&self) -> (r: String)
        ensures
            r@ == self.spec_name(),
    {
        self.name.clone()
    }

    pub fn version(&self) -> (r: String)
        ensures
            r@ == self.spec_version(),
    {
        self.version.clone()
    }

    pub fn dependents(&self) -> (r: &Vec<Krate>)
        ensures
            r@ == self.spec_dependents(),
    {
        &self.dependents
    }

    /// Mutable access to the dependents recorded on this node.
    pub fn dependents_mut(&mut self) -> &mut Vec<Krate> {
        &mut self.dependents
    }

    /// Record one more dependent on this node.
    pub fn push_dependent(&mut self, dep: Krate)
        ensures
            final(self).spec_name() == old(self).spec_name(),
            final(self).spec_version() == old(self).spec_version(),
            final(self).spec_dependents() == old(self).spec_dependents().push(dep),
    {
        self.dependents.push(dep);
    }

    /// The record under which the traversal engine remembers this package.
    pub fn visited_id(&self) -> (r: VisitedCrateVersion)
        ensures
            r.key() == self.key(),
    {
        VisitedCrateVersion { name: self.name.clone(), version: self.version.clone() }
    }

    /// The key under which the artifact store serialises work on this
    /// package version.
    pub fn lock_key(&self) -> (r: String)
        ensures
            r@ == spec_lock_key(self.spec_name(), self.spec_version()),
    {
        let mut s = self.name.clone();
        s.append("-");
        s.append(self.version.as_str());
        s
    }

    /// The directory that downloads of this package go to.
    fn download_dir(&self, base_dir: &str) -> (r: String)
        ensures
            r@ == spec_download_dir(base_dir@, self.spec_name()),
    {
        let mut s = base_dir.to_owned();
        s.append("/");
        s.append(self.name.as_str());
        s
    }

    /// The path of the compressed archive of this package version.
    pub fn get_crate_file_path(&self, base_dir: &str) -> (r: String)
        ensures
            r@ == spec_crate_file_path(base_dir@, self.spec_name(), self.spec_version()),
    {
        let mut s = self.download_dir(base_dir);
        s.append("/");
        s.append(self.name.as_str());
        s.append("-");
        s.append(self.version.as_str());
        s.append(".crate");
        s
    }

    /// The path of the extracted source tree of this package version.
    pub fn get_extract_dir_path(&self, base_dir: &str) -> (r: String)
        ensures
            r@ == spec_extract_dir_path(base_dir@, self.spec_name(), self.spec_version()),
    {
        let mut s = self.download_dir(base_dir);
        s.append("/");
        s.append(self.name.as_str());
        s.append("-");
        s.append(self.version.as_str());
        s
    }
}

} // verus!
