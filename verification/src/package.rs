//! Packages as the backends report them.
use crate::text;
use vstd::prelude::*;

verus! {

/// Where a package comes from.
#[derive(Debug, Clone, Copy, PartialEq, Eq, Hash, Structural)]
pub enum PackageBackend {
    /// The distribution's packages.
    Pacman,
    /// Flatpak applications.
    Flatpak,
}

/// Whether a package is on the system.
#[derive(Debug, Clone, Copy, PartialEq, Eq, Hash, Structural)]
pub enum PackageStatus {
    /// Installed.
    Installed,
    /// Offered by a repository.
    Available,
    /// Installed as a dependency that nothing needs any more.
    Orphan,
}

/// Why a package was installed.
#[derive(Debug, Clone, Copy, PartialEq, Eq, Hash, Structural)]
pub enum InstallReason {
    /// The user asked for it.
    Explicit,
    /// Another package needs it.
    Dependency,
}

/// The text of an optional string.
pub open spec fn opt_text(o: Option<String>) -> Option<Seq<char>> {
    match o {
        Some(s) => Some(s@),
        None => None,
    }
}

/// The text of an optional version.
pub open spec fn opt_version(o: Option<Version>) -> Option<Seq<char>> {
    match o {
        Some(v) => Some(v@),
        None => None,
    }
}

/// A copy of an optional string.
pub fn clone_text(o: &Option<String>) -> (r: Option<String>)
    ensures
        opt_text(r) == opt_text(*o),
{
    match o {
        Some(s) => Some(s.clone()),
        None => None,
    }
}

/// A copy of an optional version.
pub fn clone_version(o: &Option<Version>) -> (r: Option<Version>)
    ensures
        opt_version(r) == opt_version(*o),
{
    match o {
        Some(v) => Some(v.clone()),
        None => None,
    }
}

/// A copy of a list of strings.
pub fn clone_strings(v: &Vec<String>) -> (r: Vec<String>)
    ensures
        text::strings(r@) == text::strings(v@),
{
    let mut r: Vec<String> = Vec::new();
    let mut i: usize = 0;
    while i < v.len()
        invariant
            i <= v@.len(),
            r@ == v@.take(i as int),
        decreases v@.len() - i,
    {
        r.push(v[i].clone());
        i += 1;
        assert(v@.take(i as int) =~= v@.take(i - 1).push(v@[i - 1]));
    }
    assert(v@.take(v@.len() as int) =~= v@);
    r
}

/// A package version, as its source writes it.
#[derive(Debug)]
pub struct Version {
    /// The version's text.
    pub text: String,
}

impl View for Version {
    type V = Seq<char>;

    open spec fn view(&self) -> Seq<char> {
        self.text@
    }
}

impl Clone for Version {
    fn clone(&self) -> (r: Self)
        ensures
            r@ == self@,
    {
        Version { text: self.text.clone() }
    }
}

impl Version {
    /// The version that `text` writes.
    pub fn new(text: &str) -> (r: Version)
        ensures
            r@ == text@,
    {
        Version { text: text.to_owned() }
    }

    /// The version's text.
    pub fn to_string(&self) -> (r: String)
        ensures
            r@ == self@,
    {
        self.text.clone()
    }
}

/// A package.
#[derive(Debug)]
pub struct Package {
    /// Its name, or its application ID.
    pub name: String,
    /// Its version.
    pub version: Version,
    /// What it is, in a line.
    pub description: String,
    /// Where it comes from.
    pub backend: PackageBackend,
    /// Whether it is on the system.
    pub status: PackageStatus,
    /// The repository or remote that holds it.
    pub repository: String,
}

/// What a `Package` holds.
#[verifier::ext_equal]
pub struct PackageView {
    pub name: Seq<char>,
    pub version: Seq<char>,
    pub description: Seq<char>,
    pub backend: PackageBackend,
    pub status: PackageStatus,
    pub repository: Seq<char>,
}

impl View for Package {
    type V = PackageView;

    open spec fn view(&self) -> PackageView {
        PackageView {
            name: self.name@,
            version: self.version@,
            description: self.description@,
            backend: self.backend,
            status: self.status,
            repository: self.repository@,
        }
    }
}

impl Clone for Package {
    fn clone(&self) -> (r: Self)
        ensures
            r@ == self@,
    {
        Package {
            name: self.name.clone(),
            version: self.version.clone(),
            description: self.description.clone(),
            backend: self.backend,
            status: self.status,
            repository: self.repository.clone(),
        }
    }
}

impl Package {
    /// A package with these properties.
    pub fn new(
        name: String,
        version: Version,
        description: String,
        backend: PackageBackend,
        status: PackageStatus,
        repository: String,
    ) -> (r: Package)
        ensures
            r@ == (PackageView {
                name: name@,
                version: version@,
                description: description@,
                backend: backend,
                status: status,
                repository: repository@,
            }),
    {
        Package { name, version, description, backend, status, repository }
    }
}

/// A package that a search found.
#[derive(Debug)]
pub struct SearchResult {
    /// Its name, or its application ID.
    pub name: String,
    /// The version on offer.
    pub version: Version,
    /// What it is, in a line.
    pub description: String,
    /// Where it comes from.
    pub backend: PackageBackend,
    /// The repository or remote that holds it.
    pub repository: String,
    /// Whether it is installed.
    pub installed: bool,
    /// The version that is installed.
    pub installed_version: Option<Version>,
}

/// What a `SearchResult` holds.
#[verifier::ext_equal]
pub struct SearchResultView {
    pub name: Seq<char>,
    pub version: Seq<char>,
    pub description: Seq<char>,
    pub backend: PackageBackend,
    pub repository: Seq<char>,
    pub installed: bool,
    pub installed_version: Option<Seq<char>>,
}

impl View for SearchResult {
    type V = SearchResultView;

    open spec fn view(&self) -> SearchResultView {
        SearchResultView {
            name: self.name@,
            version: self.version@,
            description: self.description@,
            backend: self.backend,
            repository: self.repository@,
            installed: self.installed,
            installed_version: opt_version(self.installed_version),
        }
    }
}

impl Clone for SearchResult {
    fn clone(&self) -> (r: Self)
        ensures
            r@ == self@,
    {
        SearchResult {
            name: self.name.clone(),
            version: self.version.clone(),
            description: self.description.clone(),
            backend: self.backend,
            repository: self.repository.clone(),
            installed: self.installed,
            installed_version: clone_version(&self.installed_version),
        }
    }
}

/// An update that is on offer.
#[derive(Debug)]
pub struct UpdateInfo {
    /// The package.
    pub name: String,
    /// The version that is installed.
    pub current_version: Version,
    /// The version on offer.
    pub new_version: Version,
    /// Where it comes from.
    pub backend: PackageBackend,
    /// The repository or remote that holds it.
    pub repository: String,
    /// The size of the download in bytes.
    pub download_size: u64,
}

/// What a `UpdateInfo` holds.
#[verifier::ext_equal]
pub struct UpdateInfoView {
    pub name: Seq<char>,
    pub current_version: Seq<char>,
    pub new_version: Seq<char>,
    pub backend: PackageBackend,
    pub repository: Seq<char>,
    pub download_size: u64,
}

impl View for UpdateInfo {
    type V = UpdateInfoView;

    open spec fn view(&self) -> UpdateInfoView {
        UpdateInfoView {
            name: self.name@,
            current_version: self.current_version@,
            new_version: self.new_version@,
            backend: self.backend,
            repository: self.repository@,
            download_size: self.download_size,
        }
    }
}

impl Clone for UpdateInfo {
    fn clone(&self) -> (r: Self)
        ensures
            r@ == self@,
    {
        UpdateInfo {
            name: self.name.clone(),
            current_version: self.current_version.clone(),
            new_version: self.new_version.clone(),
            backend: self.backend,
            repository: self.repository.clone(),
            download_size: self.download_size,
        }
    }
}

/// Everything that is known of a package.
#[derive(Debug)]
pub struct PackageInfo {
    /// The package itself.
    pub package: Package,
    /// Its home page.
    pub url: Option<String>,
    /// Its licences.
    pub licenses: Vec<String>,
    /// The groups that it belongs to.
    pub groups: Vec<String>,
    /// What it needs.
    pub depends: Vec<String>,
    /// What it can make use of.
    pub optdepends: Vec<String>,
    /// What it stands in for.
    pub provides: Vec<String>,
    /// What it cannot be installed beside.
    pub conflicts: Vec<String>,
    /// What it takes the place of.
    pub replaces: Vec<String>,
    /// Its size on disk in bytes.
    pub installed_size: u64,
    /// The size of the download in bytes.
    pub download_size: u64,
    /// When it was built, in seconds since 1970.
    pub build_date: Option<i64>,
    /// When it was installed, in seconds since 1970.
    pub install_date: Option<i64>,
    /// Who built it.
    pub packager: Option<String>,
    /// The architecture that it is for.
    pub arch: String,
    /// Why it was installed.
    pub reason: Option<InstallReason>,
}

/// What a `PackageInfo` holds.
#[verifier::ext_equal]
pub struct PackageInfoView {
    pub package: PackageView,
    pub url: Option<Seq<char>>,
    pub licenses: Seq<Seq<char>>,
    pub groups: Seq<Seq<char>>,
    pub depends: Seq<Seq<char>>,
    pub optdepends: Seq<Seq<char>>,
    pub provides: Seq<Seq<char>>,
    pub conflicts: Seq<Seq<char>>,
    pub replaces: Seq<Seq<char>>,
    pub installed_size: u64,
    pub download_size: u64,
    pub build_date: Option<i64>,
    pub install_date: Option<i64>,
    pub packager: Option<Seq<char>>,
    pub arch: Seq<char>,
    pub reason: Option<InstallReason>,
}

impl View for PackageInfo {
    type V = PackageInfoView;

    open spec fn view(&self) -> PackageInfoView {
        PackageInfoView {
            package: self.package@,
            url: opt_text(self.url),
            licenses: text::strings(self.licenses@),
            groups: text::strings(self.groups@),
            depends: text::strings(self.depends@),
            optdepends: text::strings(self.optdepends@),
            provides: text::strings(self.provides@),
            conflicts: text::strings(self.conflicts@),
            replaces: text::strings(self.replaces@),
            installed_size: self.installed_size,
            download_size: self.download_size,
            build_date: self.build_date,
            install_date: self.install_date,
            packager: opt_text(self.packager),
            arch: self.arch@,
            reason: self.reason,
        }
    }
}

impl Clone for PackageInfo {
    fn clone(&self) -> (r: Self)
        ensures
            r@ == self@,
    {
        PackageInfo {
            package: self.package.clone(),
            url: clone_text(&self.url),
            licenses: clone_strings(&self.licenses),
            groups: clone_strings(&self.groups),
            depends: clone_strings(&self.depends),
            optdepends: clone_strings(&self.optdepends),
            provides: clone_strings(&self.provides),
            conflicts: clone_strings(&self.conflicts),
            replaces: clone_strings(&self.replaces),
            installed_size: self.installed_size,
            download_size: self.download_size,
            build_date: self.build_date,
            install_date: self.install_date,
            packager: clone_text(&self.packager),
            arch: self.arch.clone(),
            reason: self.reason,
        }
    }
}

/// What a list of packages holds.
pub open spec fn packages(v: Seq<Package>) -> Seq<PackageView> {
    v.map_values(|p: Package| p@)
}

/// A copy of a list of packages.
pub fn clone_packages(v: &Vec<Package>) -> (r: Vec<Package>)
    ensures
        packages(r@) == packages(v@),
{
    let ghost all = packages(v@);
    let mut r: Vec<Package> = Vec::new();
    let mut i: usize = 0;
    while i < v.len()
        invariant
            i <= v@.len(),
            all == packages(v@),
            packages(r@) == all.take(i as int),
        decreases v@.len() - i,
    {
        let ghost before = packages(r@);
        r.push(v[i].clone());
        assert(packages(r@) =~= before.push(v@[i as int]@));
        assert(all.take(i + 1) =~= all.take(i as int).push(v@[i as int]@));
        i += 1;
    }
    assert(all.take(all.len() as int) =~= all);
    r
}

/// What a list of search results holds.
pub open spec fn results(v: Seq<SearchResult>) -> Seq<SearchResultView> {
    v.map_values(|p: SearchResult| p@)
}

/// What a list of updates holds.
pub open spec fn updates(v: Seq<UpdateInfo>) -> Seq<UpdateInfoView> {
    v.map_values(|u: UpdateInfo| u@)
}

/// A copy of a list of search results.
pub fn clone_results(v: &Vec<SearchResult>) -> (r: Vec<SearchResult>)
    ensures
        results(r@) == results(v@),
{
    let ghost all = results(v@);
    let mut r: Vec<SearchResult> = Vec::new();
    let mut i: usize = 0;
    while i < v.len()
        invariant
            i <= v@.len(),
            all == results(v@),
            results(r@) == all.take(i as int),
        decreases v@.len() - i,
    {
        let ghost before = results(r@);
        r.push(v[i].clone());
        assert(results(r@) =~= before.push(v@[i as int]@));
        assert(all.take(i + 1) =~= all.take(i as int).push(v@[i as int]@));
        i += 1;
    }
    assert(all.take(all.len() as int) =~= all);
    r
}

/// A copy of a list of updates.
pub fn clone_updates(v: &Vec<UpdateInfo>) -> (r: Vec<UpdateInfo>)
    ensures
        updates(r@) == updates(v@),
{
    let ghost all = updates(v@);
    let mut r: Vec<UpdateInfo> = Vec::new();
    let mut i: usize = 0;
    while i < v.len()
        invariant
            i <= v@.len(),
            all == updates(v@),
            updates(r@) == all.take(i as int),
        decreases v@.len() - i,
    {
        let ghost before = updates(r@);
        r.push(v[i].clone());
        assert(updates(r@) =~= before.push(v@[i as int]@));
        assert(all.take(i + 1) =~= all.take(i as int).push(v@[i as int]@));
        i += 1;
    }
    assert(all.take(all.len() as int) =~= all);
    r
}

} // verus!
