//! The backend for pacman: what its databases report, as packages, search results and
//! updates.
use crate::cache::CacheManager;
use crate::error::{Error, ErrorView};
use crate::operation;
use crate::operation::{Operation, OperationKind, OperationResult, OperationResultView, OperationView};
use crate::order;
use crate::package;
use crate::package::{
    InstallReason, Package, PackageBackend, PackageInfo, PackageInfoView, PackageStatus, PackageView,
    SearchResult, SearchResultView, UpdateInfo, UpdateInfoView, Version,
};
use crate::source::{Done, PackageSource, Work};
use crate::text;
use vstd::prelude::*;
use vstd::string::*;

verus! {

broadcast use vstd::seq_lib::group_seq_properties;

/// Configuration for the ALPM backend.
#[derive(Debug)]
pub struct AlpmConfig {
    /// Root directory for package installation.
    pub root: String,
    /// Database path.
    pub dbpath: String,
    /// Cache directories.
    pub cache_dirs: Vec<String>,
    /// Hook directories.
    pub hook_dirs: Vec<String>,
    /// GPG directory.
    pub gpgdir: String,
    /// Log file path.
    pub logfile: String,
}

/// What a `AlpmConfig` holds.
#[verifier::ext_equal]
pub struct AlpmConfigView {
    pub root: Seq<char>,
    pub dbpath: Seq<char>,
    pub cache_dirs: Seq<Seq<char>>,
    pub hook_dirs: Seq<Seq<char>>,
    pub gpgdir: Seq<char>,
    pub logfile: Seq<char>,
}

impl View for AlpmConfig {
    type V = AlpmConfigView;

    open spec fn view(&self) -> AlpmConfigView {
        AlpmConfigView {
            root: self.root@,
            dbpath: self.dbpath@,
            cache_dirs: text::strings(self.cache_dirs@),
            hook_dirs: text::strings(self.hook_dirs@),
            gpgdir: self.gpgdir@,
            logfile: self.logfile@,
        }
    }
}

impl Clone for AlpmConfig {
    fn clone(&self) -> (r: Self)
        ensures
            r@ == self@,
    {
        AlpmConfig {
            root: self.root.clone(),
            dbpath: self.dbpath.clone(),
            cache_dirs: package::clone_strings(&self.cache_dirs),
            hook_dirs: package::clone_strings(&self.hook_dirs),
            gpgdir: self.gpgdir.clone(),
            logfile: self.logfile.clone(),
        }
    }
}

/// The configuration of Arch Linux.
pub open spec fn arch_linux() -> AlpmConfigView {
    AlpmConfigView {
        root: "/"@,
        dbpath: "/var/lib/pacman"@,
        cache_dirs: seq!["/var/cache/pacman/pkg"@],
        hook_dirs: seq!["/etc/pacman.d/hooks"@, "/usr/share/libalpm/hooks"@],
        gpgdir: "/etc/pacman.d/gnupg"@,
        logfile: "/var/log/pacman.log"@,
    }
}

impl Default for AlpmConfig {
    fn default() -> (r: AlpmConfig)
        ensures
            r@ == arch_linux(),
    {
        let mut cache_dirs: Vec<String> = Vec::new();
        cache_dirs.push("/var/cache/pacman/pkg".to_owned());
        let mut hook_dirs: Vec<String> = Vec::new();
        hook_dirs.push("/etc/pacman.d/hooks".to_owned());
        hook_dirs.push("/usr/share/libalpm/hooks".to_owned());
        assert(text::strings(cache_dirs@) =~= seq!["/var/cache/pacman/pkg"@]);
        assert(text::strings(hook_dirs@) =~= seq![
            "/etc/pacman.d/hooks"@,
            "/usr/share/libalpm/hooks"@,
        ]);
        AlpmConfig {
            root: "/".to_owned(),
            dbpath: "/var/lib/pacman".to_owned(),
            cache_dirs,
            hook_dirs,
            gpgdir: "/etc/pacman.d/gnupg".to_owned(),
            logfile: "/var/log/pacman.log".to_owned(),
        }
    }
}

/// The pacman/libalpm backend.
#[derive(Debug)]
pub struct AlpmBackend {
    /// Where the databases are.
    pub config: AlpmConfig,
    /// The package cache.
    pub cache_manager: CacheManager,
}

impl AlpmBackend {
    /// The cache is that of the configuration.
    pub open spec fn wf(&self) -> bool {
        text::strings(self.cache_manager.cache_dirs@) == self.config@.cache_dirs
    }

    /// Creates a new ALPM backend with default configuration, given whether its database
    /// path exists.
    pub fn new(dbpath_exists: bool) -> (r: Result<AlpmBackend, Error>)
        ensures
            is_backend(r, arch_linux(), dbpath_exists),
    {
        AlpmBackend::with_config(AlpmConfig::default(), dbpath_exists)
    }

    /// Creates a new ALPM backend with custom configuration, given whether its database
    /// path exists.
    pub fn with_config(config: AlpmConfig, dbpath_exists: bool) -> (r: Result<AlpmBackend, Error>)
        ensures
            is_backend(r, config@, dbpath_exists),
    {
        if !dbpath_exists {
            return Err(
                Error::DatabaseError(
                    "Database path does not exist: ".to_owned().concat(config.dbpath.as_str()),
                ),
            );
        }
        Ok(AlpmBackend { cache_manager: CacheManager::new(&config.cache_dirs), config })
    }
}

/// Whether `r` is the backend of a configuration, or the error that its database path
/// does not exist.
pub open spec fn is_backend(
    r: Result<AlpmBackend, Error>,
    config: AlpmConfigView,
    dbpath_exists: bool,
) -> bool {
    match r {
        Ok(b) => dbpath_exists && b.wf() && b.config@ == config,
        Err(e) => !dbpath_exists && e@ == ErrorView::DatabaseError(
            "Database path does not exist: "@ + config.dbpath,
        ),
    }
}

/// A repository of the configuration of pacman.
#[derive(Debug)]
pub struct RepoConfig {
    /// Its name.
    pub name: String,
    /// Its servers.
    pub servers: Vec<String>,
}

/// What a `RepoConfig` holds.
#[verifier::ext_equal]
pub struct RepoConfigView {
    pub name: Seq<char>,
    pub servers: Seq<Seq<char>>,
}

impl View for RepoConfig {
    type V = RepoConfigView;

    open spec fn view(&self) -> RepoConfigView {
        RepoConfigView {
            name: self.name@,
            servers: text::strings(self.servers@),
        }
    }
}

/// What a list of repositories holds.
pub open spec fn repos(v: Seq<RepoConfig>) -> Seq<RepoConfigView> {
    v.map_values(|r: RepoConfig| r@)
}

/// What is read of the configuration of pacman.
#[derive(Debug)]
pub struct PacmanConfig {
    /// The architecture.
    pub architecture: String,
    /// The repositories, in order.
    pub repos: Vec<RepoConfig>,
}

/// Whether two texts are the same but for the case of ASCII letters.
pub open spec fn same_ignoring_case(a: Seq<char>, b: Seq<char>) -> bool {
    a.map_values(|c: char| text::ascii_lower(c)) == b.map_values(|c: char| text::ascii_lower(c))
}

/// The architecture: that of the machine where the configuration names none or says
/// `auto`, in any case.
pub open spec fn architecture(configured: Seq<char>, host: Seq<char>) -> Seq<char> {
    let a = text::trim(configured);
    if a.len() == 0 || same_ignoring_case(a, "auto"@) {
        host
    } else {
        a
    }
}

/// A character with an ASCII letter in lower case.
fn lower_letter(c: char) -> (r: char)
    ensures
        r == text::ascii_lower(c),
{
    let n: u32 = c as u32;
    if 0x41 <= n && n <= 0x5a {
        ((n as u8) + 0x20) as char
    } else {
        c
    }
}

/// Whether two texts are the same but for the case of ASCII letters.
fn eq_ignore_ascii_case(a: &[char], b: &[char]) -> (r: bool)
    ensures
        r == same_ignoring_case(a@, b@),
{
    let ghost x = a@.map_values(|c: char| text::ascii_lower(c));
    let ghost y = b@.map_values(|c: char| text::ascii_lower(c));
    let n: usize = a.len();
    if n != b.len() {
        assert(x.len() != y.len());
        return false;
    }
    let mut i: usize = 0;
    while i < n
        invariant
            n == a@.len(),
            n == b@.len(),
            i <= n,
            x == a@.map_values(|c: char| text::ascii_lower(c)),
            y == b@.map_values(|c: char| text::ascii_lower(c)),
            forall|k: int| 0 <= k < i ==> x[k] == y[k],
        decreases n - i,
    {
        if lower_letter(a[i]) != lower_letter(b[i]) {
            assert(x[i as int] != y[i as int]);
            return false;
        }
        assert(x[i as int] == y[i as int]);
        i += 1;
    }
    assert(x =~= y);
    true
}

/// The architecture, given that of the machine.
pub fn resolve_arch(config: &PacmanConfig, host: &str) -> (r: String)
    ensures
        r@ == architecture(config.architecture@, host@),
{
    let configured = text::chars_of(config.architecture.as_str());
    let a = text::trimmed(configured.as_slice());
    let auto = text::chars_of("auto");
    if a.len() == 0 || eq_ignore_ascii_case(a.as_slice(), auto.as_slice()) {
        host.to_owned()
    } else {
        text::text_of(a.as_slice())
    }
}

/// A server with the name of its repository and the architecture filled in.
pub open spec fn expanded(value: Seq<char>, repo: Seq<char>, arch: Seq<char>) -> Seq<char> {
    text::replace(text::replace(value, "$repo"@, repo), "$arch"@, arch)
}

/// A server with the name of its repository and the architecture filled in.
pub fn expand_repo_vars(value: &str, repo: &str, arch: &str) -> (r: String)
    ensures
        r@ == expanded(value@, repo@, arch@),
{
    proof {
        reveal_strlit("$repo");
        reveal_strlit("$arch");
    }
    let v = text::chars_of(value);
    let repo_mark = text::chars_of("$repo");
    let arch_mark = text::chars_of("$arch");
    let repo = text::chars_of(repo);
    let arch = text::chars_of(arch);
    let v = text::replaced(v.as_slice(), repo_mark.as_slice(), repo.as_slice());
    let v = text::replaced(v.as_slice(), arch_mark.as_slice(), arch.as_slice());
    text::text_of(v.as_slice())
}

/// A repository with its servers filled in.
pub open spec fn expanded_repo(r: RepoConfigView, arch: Seq<char>) -> RepoConfigView {
    RepoConfigView {
        name: r.name,
        servers: r.servers.map_values(|s: Seq<char>| expanded(s, r.name, arch)),
    }
}

/// The repositories of a configuration, or none where there is none.
pub open spec fn repo_list(config: Option<PacmanConfig>, host: Seq<char>) -> Seq<RepoConfigView> {
    match config {
        Some(c) => repos(c.repos@).map_values(
            |r: RepoConfigView| expanded_repo(r, architecture(c.architecture@, host)),
        ),
        None => Seq::empty(),
    }
}

/// A repository with its servers filled in.
fn expand_repo(repo: &RepoConfig, arch: &str) -> (r: RepoConfig)
    ensures
        r@ == expanded_repo(repo@, arch@),
{
    let ghost wanted = repo@.servers.map_values(|s: Seq<char>| expanded(s, repo@.name, arch@));
    let mut servers: Vec<String> = Vec::new();
    let mut i: usize = 0;
    while i < repo.servers.len()
        invariant
            i <= repo.servers@.len(),
            wanted == repo@.servers.map_values(|s: Seq<char>| expanded(s, repo@.name, arch@)),
            text::strings(servers@) == wanted.take(i as int),
        decreases repo.servers@.len() - i,
    {
        let ghost before = text::strings(servers@);
        let s = expand_repo_vars(repo.servers[i].as_str(), repo.name.as_str(), arch);
        servers.push(s);
        assert(repo@.servers[i as int] == repo.servers@[i as int]@);
        assert(wanted[i as int] == s@);
        assert(text::strings(servers@) =~= before.push(s@));
        i += 1;
    }
    assert(wanted.take(wanted.len() as int) =~= wanted);
    RepoConfig { name: repo.name.clone(), servers }
}

/// The repositories of a configuration with their servers filled in, given the
/// architecture of the machine.
pub fn repo_configs(config: &Option<PacmanConfig>, host: &str) -> (r: Vec<RepoConfig>)
    ensures
        repos(r@) == repo_list(*config, host@),
{
    let mut r: Vec<RepoConfig> = Vec::new();
    assert(repos(r@) =~= Seq::empty());
    match config {
        None => r,
        Some(c) => {
            let arch = resolve_arch(c, host);
            let ghost wanted = repos(c.repos@).map_values(|r: RepoConfigView| expanded_repo(r, arch@));
            let mut i: usize = 0;
            while i < c.repos.len()
                invariant
                    i <= c.repos@.len(),
                    wanted == repos(c.repos@).map_values(
                        |r: RepoConfigView| expanded_repo(r, arch@),
                    ),
                    repos(r@) == wanted.take(i as int),
                decreases c.repos@.len() - i,
            {
                let ghost before = repos(r@);
                let repo = expand_repo(&c.repos[i], arch.as_str());
                r.push(repo);
                assert(repos(c.repos@)[i as int] == c.repos@[i as int]@);
                assert(wanted[i as int] == repo@);
                assert(repos(r@) =~= before.push(repo@));
                i += 1;
            }
            assert(wanted.take(wanted.len() as int) =~= wanted);
            assert(wanted =~= repo_list(*config, host@));
            r
        },
    }
}

/// The names of the repositories of a configuration, where there is one.
pub fn parse_pacman_repos(config: &Option<PacmanConfig>) -> (r: Vec<String>)
    ensures
        text::strings(r@) == (match *config {
            Some(c) => repos(c.repos@).map_values(|r: RepoConfigView| r.name),
            None => Seq::empty(),
        }),
{
    let mut r: Vec<String> = Vec::new();
    assert(text::strings(r@) =~= Seq::empty());
    match config {
        None => r,
        Some(c) => {
            let ghost wanted = repos(c.repos@).map_values(|r: RepoConfigView| r.name);
            let mut i: usize = 0;
            while i < c.repos.len()
                invariant
                    i <= c.repos@.len(),
                    wanted == repos(c.repos@).map_values(|r: RepoConfigView| r.name),
                    text::strings(r@) == wanted.take(i as int),
                decreases c.repos@.len() - i,
            {
                let ghost before = text::strings(r@);
                r.push(c.repos[i].name.clone());
                assert(repos(c.repos@)[i as int] == c.repos@[i as int]@);
                assert(wanted[i as int] == c.repos@[i as int].name@);
                assert(text::strings(r@) =~= before.push(c.repos@[i as int].name@));
                i += 1;
            }
            assert(wanted.take(wanted.len() as int) =~= wanted);
            r
        },
    }
}

/// A package as a database of pacman has it.
#[derive(Debug)]
pub struct AlpmPackage {
    /// Its name.
    pub name: String,
    /// Its version.
    pub version: String,
    /// What it is, in a line.
    pub desc: Option<String>,
    /// Its home page.
    pub url: Option<String>,
    /// Its licences.
    pub licenses: Vec<String>,
    /// The groups that it belongs to.
    pub groups: Vec<String>,
    /// What it needs.
    pub depends: Vec<String>,
    /// What it can make use of.
    pub optdepends: Vec<String>,
    /// What it stands in for.
    pub provides: Vec<String>,
    /// What it cannot be installed beside.
    pub conflicts: Vec<String>,
    /// What it takes the place of.
    pub replaces: Vec<String>,
    /// Its size on disk.
    pub isize: i64,
    /// The size of the download.
    pub download_size: i64,
    /// When it was built, in seconds since 1970.
    pub build_date: i64,
    /// When it was installed, in seconds since 1970.
    pub install_date: Option<i64>,
    /// Who built it.
    pub packager: Option<String>,
    /// The architecture that it is for.
    pub arch: Option<String>,
    /// Why it was installed.
    pub reason: InstallReason,
    /// Whether another package needs it.
    pub required: bool,
    /// Whether another package can make use of it.
    pub optional: bool,
}

/// What a `AlpmPackage` holds.
#[verifier::ext_equal]
pub struct AlpmPackageView {
    pub name: Seq<char>,
    pub version: Seq<char>,
    pub desc: Option<Seq<char>>,
    pub url: Option<Seq<char>>,
    pub licenses: Seq<Seq<char>>,
    pub groups: Seq<Seq<char>>,
    pub depends: Seq<Seq<char>>,
    pub optdepends: Seq<Seq<char>>,
    pub provides: Seq<Seq<char>>,
    pub conflicts: Seq<Seq<char>>,
    pub replaces: Seq<Seq<char>>,
    pub isize: i64,
    pub download_size: i64,
    pub build_date: i64,
    pub install_date: Option<i64>,
    pub packager: Option<Seq<char>>,
    pub arch: Option<Seq<char>>,
    pub reason: InstallReason,
    pub required: bool,
    pub optional: bool,
}

impl View for AlpmPackage {
    type V = AlpmPackageView;

    open spec fn view(&self) -> AlpmPackageView {
        AlpmPackageView {
            name: self.name@,
            version: self.version@,
            desc: package::opt_text(self.desc),
            url: package::opt_text(self.url),
            licenses: text::strings(self.licenses@),
            groups: text::strings(self.groups@),
            depends: text::strings(self.depends@),
            optdepends: text::strings(self.optdepends@),
            provides: text::strings(self.provides@),
            conflicts: text::strings(self.conflicts@),
            replaces: text::strings(self.replaces@),
            isize: self.isize,
            download_size: self.download_size,
            build_date: self.build_date,
            install_date: self.install_date,
            packager: package::opt_text(self.packager),
            arch: package::opt_text(self.arch),
            reason: self.reason,
            required: self.required,
            optional: self.optional,
        }
    }
}

/// What a list of packages of a database holds.
pub open spec fn alpm_packages(v: Seq<AlpmPackage>) -> Seq<AlpmPackageView> {
    v.map_values(|p: AlpmPackage| p@)
}

/// A package that was installed as a dependency and that nothing needs or can make use of.
pub open spec fn orphaned(p: AlpmPackageView) -> bool {
    p.reason == InstallReason::Dependency && !p.required && !p.optional
}

/// The status of an installed package.
pub open spec fn local_status(p: AlpmPackageView) -> PackageStatus {
    if orphaned(p) {
        PackageStatus::Orphan
    } else {
        PackageStatus::Installed
    }
}

/// A text, or nothing.
pub open spec fn or_empty(o: Option<Seq<char>>) -> Seq<char> {
    match o {
        Some(s) => s,
        None => Seq::empty(),
    }
}

/// The package that a database reports.
pub open spec fn as_package(
    p: AlpmPackageView,
    status: PackageStatus,
    repository: Seq<char>,
) -> PackageView {
    PackageView {
        name: p.name,
        version: p.version,
        description: or_empty(p.desc),
        backend: PackageBackend::Pacman,
        status,
        repository,
    }
}

/// A copy of an optional text, or an empty text.
fn text_or_empty(o: &Option<String>) -> (r: String)
    ensures
        r@ == or_empty(package::opt_text(*o)),
{
    match o {
        Some(s) => s.clone(),
        None => String::new(),
    }
}

/// Whether a package was installed as a dependency and nothing needs it.
pub fn is_orphan(pkg: &AlpmPackage) -> (r: bool)
    ensures
        r == orphaned(pkg@),
{
    (match pkg.reason {
        InstallReason::Dependency => true,
        InstallReason::Explicit => false,
    }) && !pkg.required && !pkg.optional
}

/// The status of an installed package.
pub fn status_for_local_pkg(pkg: &AlpmPackage) -> (r: PackageStatus)
    ensures
        r == local_status(pkg@),
{
    if is_orphan(pkg) {
        PackageStatus::Orphan
    } else {
        PackageStatus::Installed
    }
}

/// The package that a database reports.
pub fn package_from_alpm(pkg: &AlpmPackage, status: PackageStatus, repository: &str) -> (r: Package)
    ensures
        r@ == as_package(pkg@, status, repository@),
{
    Package::new(
        pkg.name.clone(),
        Version { text: pkg.version.clone() },
        text_or_empty(&pkg.desc),
        PackageBackend::Pacman,
        status,
        repository.to_owned(),
    )
}

/// `chrono::DateTime::from_timestamp` without nanoseconds: a date exists for the seconds
/// since 1970 that lie within its range of years, from -262143 to 262142, and it is that
/// second.
#[verifier::external_body]
fn timestamp(ts: i64) -> (r: Option<i64>)
    ensures
        r == (if -8_334_601_228_800 <= ts <= 8_210_266_876_799 {
            Some(ts)
        } else {
            None
        }),
{
    chrono::DateTime::from_timestamp(ts, 0).map(|d| d.timestamp())
}

/// The second of a date, and that of 1970 where there is no such date.
pub open spec fn date(ts: i64) -> i64 {
    if -8_334_601_228_800 <= ts <= 8_210_266_876_799 {
        ts
    } else {
        0
    }
}

/// The second of a date.
pub fn to_utc(ts: i64) -> (r: i64)
    ensures
        r == date(ts),
{
    match timestamp(ts) {
        Some(t) => t,
        None => 0,
    }
}

/// All that a database reports of a package.
pub open spec fn as_info(
    p: AlpmPackageView,
    status: PackageStatus,
    repository: Seq<char>,
    install_date: Option<i64>,
    reason: Option<InstallReason>,
) -> PackageInfoView {
    PackageInfoView {
        package: as_package(p, status, repository),
        url: p.url,
        licenses: p.licenses,
        groups: p.groups,
        depends: p.depends,
        optdepends: p.optdepends,
        provides: p.provides,
        conflicts: p.conflicts,
        replaces: p.replaces,
        installed_size: p.isize as u64,
        download_size: p.download_size as u64,
        build_date: Some(date(p.build_date)),
        install_date,
        packager: p.packager,
        arch: match p.arch {
            Some(a) => a,
            None => "any"@,
        },
        reason,
    }
}

/// What is known of an installed package.
pub open spec fn local_info(p: AlpmPackageView) -> PackageInfoView {
    as_info(
        p,
        local_status(p),
        "local"@,
        match p.install_date {
            Some(ts) => Some(date(ts)),
            None => None,
        },
        Some(p.reason),
    )
}

/// What is known of a package that a repository offers.
pub open spec fn sync_info(p: AlpmPackageView, repo: Seq<char>) -> PackageInfoView {
    as_info(p, PackageStatus::Available, repo, None, None)
}

/// All that a database reports of a package.
fn info_from_alpm(
    pkg: &AlpmPackage,
    status: PackageStatus,
    repository: &str,
    install_date: Option<i64>,
    reason: Option<InstallReason>,
) -> (r: PackageInfo)
    ensures
        r@ == as_info(pkg@, status, repository@, install_date, reason),
{
    PackageInfo {
        package: package_from_alpm(pkg, status, repository),
        url: package::clone_text(&pkg.url),
        licenses: package::clone_strings(&pkg.licenses),
        groups: package::clone_strings(&pkg.groups),
        depends: package::clone_strings(&pkg.depends),
        optdepends: package::clone_strings(&pkg.optdepends),
        provides: package::clone_strings(&pkg.provides),
        conflicts: package::clone_strings(&pkg.conflicts),
        replaces: package::clone_strings(&pkg.replaces),
        installed_size: pkg.isize as u64,
        download_size: pkg.download_size as u64,
        build_date: Some(to_utc(pkg.build_date)),
        install_date,
        packager: package::clone_text(&pkg.packager),
        arch: match &pkg.arch {
            Some(a) => a.clone(),
            None => "any".to_owned(),
        },
        reason,
    }
}

/// What is known of an installed package.
pub fn package_info_from_local(pkg: &AlpmPackage) -> (r: PackageInfo)
    ensures
        r@ == local_info(pkg@),
{
    let install_date = match pkg.install_date {
        Some(ts) => Some(to_utc(ts)),
        None => None,
    };
    info_from_alpm(pkg, status_for_local_pkg(pkg), "local", install_date, Some(pkg.reason))
}

/// What is known of a package that a repository offers.
pub fn package_info_from_sync(pkg: &AlpmPackage, repo: &str) -> (r: PackageInfo)
    ensures
        r@ == sync_info(pkg@, repo@),
{
    info_from_alpm(pkg, PackageStatus::Available, repo, None, None)
}

/// The packages that are installed, given the local database.
pub fn list_installed(local: &Vec<AlpmPackage>) -> (r: Vec<Package>)
    ensures
        package::packages(r@) == alpm_packages(local@).map_values(
            |p: AlpmPackageView| as_package(p, local_status(p), "local"@),
        ),
{
    let ghost wanted = alpm_packages(local@).map_values(
        |p: AlpmPackageView| as_package(p, local_status(p), "local"@),
    );
    let mut r: Vec<Package> = Vec::new();
    let mut i: usize = 0;
    while i < local.len()
        invariant
            i <= local@.len(),
            wanted == alpm_packages(local@).map_values(
                |p: AlpmPackageView| as_package(p, local_status(p), "local"@),
            ),
            package::packages(r@) == wanted.take(i as int),
        decreases local@.len() - i,
    {
        let ghost before = package::packages(r@);
        let p = package_from_alpm(&local[i], status_for_local_pkg(&local[i]), "local");
        r.push(p);
        assert(alpm_packages(local@)[i as int] == local@[i as int]@);
        assert(wanted[i as int] == p@);
        assert(package::packages(r@) =~= before.push(p@));
        i += 1;
    }
    assert(wanted.take(wanted.len() as int) =~= wanted);
    r
}

/// The packages that nothing needs any more.
pub open spec fn orphans(v: Seq<AlpmPackageView>) -> Seq<PackageView>
    decreases v.len(),
{
    if v.len() == 0 {
        Seq::empty()
    } else if orphaned(v.last()) {
        orphans(v.drop_last()).push(as_package(v.last(), PackageStatus::Orphan, "local"@))
    } else {
        orphans(v.drop_last())
    }
}

/// The packages that nothing needs any more, given the local database.
pub fn list_orphans(local: &Vec<AlpmPackage>) -> (r: Vec<Package>)
    ensures
        package::packages(r@) == orphans(alpm_packages(local@)),
{
    let ghost all = alpm_packages(local@);
    let mut r: Vec<Package> = Vec::new();
    let mut i: usize = 0;
    assert(all.take(0) =~= Seq::empty());
    assert(package::packages(r@) =~= Seq::empty());
    while i < local.len()
        invariant
            i <= local@.len(),
            all == alpm_packages(local@),
            package::packages(r@) == orphans(all.take(i as int)),
        decreases local@.len() - i,
    {
        let ghost before = package::packages(r@);
        assert(all.take(i + 1).drop_last() =~= all.take(i as int));
        assert(all.take(i + 1).last() == local@[i as int]@);
        if is_orphan(&local[i]) {
            let p = package_from_alpm(&local[i], PackageStatus::Orphan, "local");
            r.push(p);
            assert(package::packages(r@) =~= before.push(p@));
        }
        i += 1;
    }
    assert(all.take(all.len() as int) =~= all);
    r
}

/// The orphans are the installed packages that are listed as such.
pub proof fn orphans_are_installed(v: Seq<AlpmPackageView>)
    ensures
        forall|p: PackageView| #[trigger]
            orphans(v).contains(p) ==> p.status == PackageStatus::Orphan && v.map_values(
                |p: AlpmPackageView| as_package(p, local_status(p), "local"@),
            ).contains(p),
        orphans(v).len() <= v.len(),
    decreases v.len(),
{
    if v.len() > 0 {
        let head = v.drop_last();
        orphans_are_installed(head);
        let all = v.map_values(|p: AlpmPackageView| as_package(p, local_status(p), "local"@));
        let first = head.map_values(|p: AlpmPackageView| as_package(p, local_status(p), "local"@));
        assert(all =~= first.push(as_package(v.last(), local_status(v.last()), "local"@)));
        assert forall|p: PackageView| #[trigger] orphans(v).contains(p) implies p.status
            == PackageStatus::Orphan && all.contains(p) by {
            if orphans(head).contains(p) {
                let k = choose|k: int| 0 <= k < first.len() && first[k] == p;
                assert(all[k] == p);
            } else {
                assert(all[all.len() - 1] == p);
            }
        }
    }
}

/// A repository with its packages.
#[derive(Debug)]
pub struct SyncDb {
    /// Its name.
    pub name: String,
    /// Its packages.
    pub packages: Vec<AlpmPackage>,
}

/// What a `SyncDb` holds.
#[verifier::ext_equal]
pub struct SyncDbView {
    pub name: Seq<char>,
    pub packages: Seq<AlpmPackageView>,
}

impl View for SyncDb {
    type V = SyncDbView;

    open spec fn view(&self) -> SyncDbView {
        SyncDbView {
            name: self.name@,
            packages: alpm_packages(self.packages@),
        }
    }
}

/// What a list of repositories holds.
pub open spec fn sync_dbs(v: Seq<SyncDb>) -> Seq<SyncDbView> {
    v.map_values(|d: SyncDb| d@)
}

/// The place of the first package of a name at or behind `from`.
pub open spec fn place_from(v: Seq<AlpmPackageView>, name: Seq<char>, from: int) -> Option<int>
    decreases v.len() - from,
{
    if from < 0 || from >= v.len() {
        None
    } else if v[from].name == name {
        Some(from)
    } else {
        place_from(v, name, from + 1)
    }
}

/// The package of a name in a database.
pub open spec fn package_of(v: Seq<AlpmPackageView>, name: Seq<char>) -> Option<AlpmPackageView> {
    match place_from(v, name, 0) {
        Some(i) => Some(v[i]),
        None => None,
    }
}

/// The place of the package of a name in a database.
fn find_package(v: &Vec<AlpmPackage>, name: &str) -> (r: Option<usize>)
    ensures
        text::position(r) == place_from(alpm_packages(v@), name@, 0),
        r matches Some(i) ==> i < v@.len(),
{
    let ghost all = alpm_packages(v@);
    let mut i: usize = 0;
    while i < v.len()
        invariant
            i <= v@.len(),
            all == alpm_packages(v@),
            place_from(all, name@, 0) == place_from(all, name@, i as int),
        decreases v@.len() - i,
    {
        assert(all[i as int] == v@[i as int]@);
        if text::equals(v[i].name.as_str(), name) {
            return Some(i);
        }
        i += 1;
    }
    None
}

/// Whether a package has the query in its name or its description, in any case.
pub open spec fn hit(p: AlpmPackageView, query: Seq<char>) -> bool {
    let q = text::lowercase(query);
    text::has(text::lowercase(p.name), q) || text::has(text::lowercase(or_empty(p.desc)), q)
}

/// The search result for a package of a repository.
pub open spec fn as_result(
    p: AlpmPackageView,
    repo: Seq<char>,
    local: Seq<AlpmPackageView>,
) -> SearchResultView {
    SearchResultView {
        name: p.name,
        version: p.version,
        description: or_empty(p.desc),
        backend: PackageBackend::Pacman,
        repository: repo,
        installed: package_of(local, p.name) is Some,
        installed_version: match package_of(local, p.name) {
            Some(l) => Some(l.version),
            None => None,
        },
    }
}

/// The results of a search in one repository.
pub open spec fn db_results(
    v: Seq<AlpmPackageView>,
    repo: Seq<char>,
    query: Seq<char>,
    local: Seq<AlpmPackageView>,
) -> Seq<SearchResultView>
    decreases v.len(),
{
    if v.len() == 0 {
        Seq::empty()
    } else if hit(v.last(), query) {
        db_results(v.drop_last(), repo, query, local).push(as_result(v.last(), repo, local))
    } else {
        db_results(v.drop_last(), repo, query, local)
    }
}

/// The results of a search in all repositories, in order.
pub open spec fn results(
    dbs: Seq<SyncDbView>,
    query: Seq<char>,
    local: Seq<AlpmPackageView>,
) -> Seq<SearchResultView>
    decreases dbs.len(),
{
    if dbs.len() == 0 {
        Seq::empty()
    } else {
        results(dbs.drop_last(), query, local) + db_results(
            dbs.last().packages,
            dbs.last().name,
            query,
            local,
        )
    }
}

/// The search result for a package of a repository.
fn to_result(p: &AlpmPackage, repo: &str, local: &Vec<AlpmPackage>) -> (r: SearchResult)
    ensures
        r@ == as_result(p@, repo@, alpm_packages(local@)),
{
    let found = find_package(local, p.name.as_str());
    let installed_version = match found {
        Some(i) => {
            assert(alpm_packages(local@)[i as int] == local@[i as int]@);
            Some(Version { text: local[i].version.clone() })
        },
        None => None,
    };
    SearchResult {
        name: p.name.clone(),
        version: Version { text: p.version.clone() },
        description: text_or_empty(&p.desc),
        backend: PackageBackend::Pacman,
        repository: repo.to_owned(),
        installed: found.is_some(),
        installed_version,
    }
}

/// Searches one repository.
fn search_db(db: &SyncDb, query: &[char], local: &Vec<AlpmPackage>) -> (r: Vec<SearchResult>)
    ensures
        package::results(r@) == db_results(
            db@.packages,
            db@.name,
            query@,
            alpm_packages(local@),
        ),
{
    let q = text::lower(query);
    let ghost all = db@.packages;
    let mut r: Vec<SearchResult> = Vec::new();
    let mut i: usize = 0;
    assert(all.take(0) =~= Seq::empty());
    assert(package::results(r@) =~= Seq::empty());
    while i < db.packages.len()
        invariant
            i <= db.packages@.len(),
            all == db@.packages,
            q@ == text::lowercase(query@),
            package::results(r@) == db_results(
                all.take(i as int),
                db@.name,
                query@,
                alpm_packages(local@),
            ),
        decreases db.packages@.len() - i,
    {
        let ghost before = package::results(r@);
        let p = &db.packages[i];
        assert(all.take(i + 1).drop_last() =~= all.take(i as int));
        assert(all.take(i + 1).last() == p@);
        let name = text::chars_of(p.name.as_str());
        let name = text::lower(name.as_slice());
        let desc = text_or_empty(&p.desc);
        let desc = text::chars_of(desc.as_str());
        let desc = text::lower(desc.as_slice());
        if text::contains(name.as_slice(), q.as_slice()) || text::contains(
            desc.as_slice(),
            q.as_slice(),
        ) {
            let found = to_result(p, db.name.as_str(), local);
            r.push(found);
            assert(package::results(r@) =~= before.push(found@));
        }
        i += 1;
    }
    assert(all.take(all.len() as int) =~= all);
    r
}

/// Searches for packages matching the query, given the repositories and the local
/// database.
pub fn search(dbs: &Vec<SyncDb>, local: &Vec<AlpmPackage>, query: &str) -> (r: Vec<SearchResult>)
    ensures
        package::results(r@) == results(sync_dbs(dbs@), query@, alpm_packages(local@)),
{
    let q = text::chars_of(query);
    let ghost all = sync_dbs(dbs@);
    let mut r: Vec<SearchResult> = Vec::new();
    let mut i: usize = 0;
    assert(all.take(0) =~= Seq::empty());
    assert(package::results(r@) =~= Seq::empty());
    while i < dbs.len()
        invariant
            i <= dbs@.len(),
            all == sync_dbs(dbs@),
            q@ == query@,
            package::results(r@) == results(all.take(i as int), query@, alpm_packages(local@)),
        decreases dbs@.len() - i,
    {
        let ghost before = package::results(r@);
        assert(all.take(i + 1).drop_last() =~= all.take(i as int));
        assert(all.take(i + 1).last() == dbs@[i as int]@);
        let mut found = search_db(&dbs[i], q.as_slice(), local);
        let ghost more = package::results(found@);
        r.append(&mut found);
        assert(package::results(r@) =~= before + more);
        i += 1;
    }
    assert(all.take(all.len() as int) =~= all);
    r
}

/// A repository that has a package of a name, at or behind `from`.
pub open spec fn sync_info_from(dbs: Seq<SyncDbView>, name: Seq<char>, from: int) -> Option<
    PackageInfoView,
>
    decreases dbs.len() - from,
{
    if from < 0 || from >= dbs.len() {
        None
    } else {
        match package_of(dbs[from].packages, name) {
            Some(p) => Some(sync_info(p, dbs[from].name)),
            None => sync_info_from(dbs, name, from + 1),
        }
    }
}

/// What is known of a package: what the local database has, or else the first repository
/// that has it.
pub open spec fn known(
    dbs: Seq<SyncDbView>,
    local: Seq<AlpmPackageView>,
    name: Seq<char>,
) -> Option<PackageInfoView> {
    match package_of(local, name) {
        Some(p) => Some(local_info(p)),
        None => sync_info_from(dbs, name, 0),
    }
}

/// Gets detailed information about a specific package, given the repositories and the
/// local database.
pub fn get_package_info(dbs: &Vec<SyncDb>, local: &Vec<AlpmPackage>, name: &str) -> (r: Result<
    PackageInfo,
    Error,
>)
    ensures
        match r {
            Ok(info) => known(sync_dbs(dbs@), alpm_packages(local@), name@) == Some(info@),
            Err(e) => known(sync_dbs(dbs@), alpm_packages(local@), name@) is None && e@
                == ErrorView::PackageNotFound(name@),
        },
{
    if let Some(i) = find_package(local, name) {
        assert(alpm_packages(local@)[i as int] == local@[i as int]@);
        return Ok(package_info_from_local(&local[i]));
    }
    let ghost all = sync_dbs(dbs@);
    let mut i: usize = 0;
    while i < dbs.len()
        invariant
            i <= dbs@.len(),
            all == sync_dbs(dbs@),
            package_of(alpm_packages(local@), name@) is None,
            sync_info_from(all, name@, 0) == sync_info_from(all, name@, i as int),
        decreases dbs@.len() - i,
    {
        assert(all[i as int] == dbs@[i as int]@);
        if let Some(k) = find_package(&dbs[i].packages, name) {
            assert(alpm_packages(dbs@[i as int].packages@)[k as int]
                == dbs@[i as int].packages@[k as int]@);
            return Ok(package_info_from_sync(&dbs[i].packages[k], dbs[i].name.as_str()));
        }
        i += 1;
    }
    Err(Error::PackageNotFound(name.to_owned()))
}

/// A package of a repository that may update an installed one.
#[derive(Debug)]
pub struct Candidate {
    /// The repository.
    pub repository: String,
    /// Its version.
    pub version: String,
    /// The size of the download.
    pub download_size: i64,
    /// Whether pacman takes its version for newer than the one that is installed.
    pub newer: bool,
}

/// What a `Candidate` holds.
#[verifier::ext_equal]
pub struct CandidateView {
    pub repository: Seq<char>,
    pub version: Seq<char>,
    pub download_size: i64,
    pub newer: bool,
}

impl View for Candidate {
    type V = CandidateView;

    open spec fn view(&self) -> CandidateView {
        CandidateView {
            repository: self.repository@,
            version: self.version@,
            download_size: self.download_size,
            newer: self.newer,
        }
    }
}

/// What a list of candidates holds.
pub open spec fn candidates(v: Seq<Candidate>) -> Seq<CandidateView> {
    v.map_values(|c: Candidate| c@)
}

/// An installed package with the packages of its name in the repositories, in order.
#[derive(Debug)]
pub struct Compared {
    /// Its name.
    pub name: String,
    /// Its version.
    pub version: String,
    /// What the repositories have.
    pub candidates: Vec<Candidate>,
}

/// What a `Compared` holds.
#[verifier::ext_equal]
pub struct ComparedView {
    pub name: Seq<char>,
    pub version: Seq<char>,
    pub candidates: Seq<CandidateView>,
}

impl View for Compared {
    type V = ComparedView;

    open spec fn view(&self) -> ComparedView {
        ComparedView {
            name: self.name@,
            version: self.version@,
            candidates: candidates(self.candidates@),
        }
    }
}

/// What a list of installed packages holds.
pub open spec fn compared(v: Seq<Compared>) -> Seq<ComparedView> {
    v.map_values(|c: Compared| c@)
}

/// The place of the first candidate at or behind `from` that is newer.
pub open spec fn newer_from(v: Seq<CandidateView>, from: int) -> Option<int>
    decreases v.len() - from,
{
    if from < 0 || from >= v.len() {
        None
    } else if v[from].newer {
        Some(from)
    } else {
        newer_from(v, from + 1)
    }
}

/// The update of an installed package: to the first candidate that is newer.
pub open spec fn update_of(p: ComparedView) -> Option<UpdateInfoView> {
    match newer_from(p.candidates, 0) {
        Some(i) => Some(
            UpdateInfoView {
                name: p.name,
                current_version: p.version,
                new_version: p.candidates[i].version,
                backend: PackageBackend::Pacman,
                repository: p.candidates[i].repository,
                download_size: p.candidates[i].download_size as u64,
            },
        ),
        None => None,
    }
}

/// The updates of installed packages.
pub open spec fn updates_of(v: Seq<ComparedView>) -> Seq<UpdateInfoView>
    decreases v.len(),
{
    if v.len() == 0 {
        Seq::empty()
    } else {
        match update_of(v.last()) {
            Some(u) => updates_of(v.drop_last()).push(u),
            None => updates_of(v.drop_last()),
        }
    }
}

/// The update of an installed package.
fn find_update(p: &Compared) -> (r: Option<UpdateInfo>)
    ensures
        match r {
            Some(u) => update_of(p@) == Some(u@),
            None => update_of(p@) is None,
        },
{
    let ghost all = p@.candidates;
    let mut i: usize = 0;
    while i < p.candidates.len()
        invariant
            i <= p.candidates@.len(),
            all == p@.candidates,
            newer_from(all, 0) == newer_from(all, i as int),
        decreases p.candidates@.len() - i,
    {
        let c = &p.candidates[i];
        assert(all[i as int] == c@);
        if c.newer {
            return Some(
                UpdateInfo {
                    name: p.name.clone(),
                    current_version: Version { text: p.version.clone() },
                    new_version: Version { text: c.version.clone() },
                    backend: PackageBackend::Pacman,
                    repository: c.repository.clone(),
                    download_size: c.download_size as u64,
                },
            );
        }
        i += 1;
    }
    None
}

/// Lists packages with available updates.
pub fn list_updates(installed: &Vec<Compared>) -> (r: Vec<UpdateInfo>)
    ensures
        package::updates(r@) == updates_of(compared(installed@)),
{
    let ghost all = compared(installed@);
    let mut r: Vec<UpdateInfo> = Vec::new();
    let mut i: usize = 0;
    assert(all.take(0) =~= Seq::empty());
    assert(package::updates(r@) =~= Seq::empty());
    while i < installed.len()
        invariant
            i <= installed@.len(),
            all == compared(installed@),
            package::updates(r@) == updates_of(all.take(i as int)),
        decreases installed@.len() - i,
    {
        let ghost before = package::updates(r@);
        assert(all.take(i + 1).drop_last() =~= all.take(i as int));
        assert(all.take(i + 1).last() == installed@[i as int]@);
        match find_update(&installed[i]) {
            Some(u) => {
                r.push(u);
                assert(package::updates(r@) =~= before.push(u@));
            },
            None => {},
        }
        i += 1;
    }
    assert(all.take(all.len() as int) =~= all);
    r
}

/// What an operation comes to. Whatever changes the system needs rights that this backend
/// does not have.
pub open spec fn result(operation: OperationView, done: Done, duration_ms: u64) -> Result<
    OperationResultView,
    ErrorView,
> {
    match operation.kind {
        OperationKind::SyncDatabases => Ok(
            operation::failed(operation, "Database sync requires root privileges"@, duration_ms),
        ),
        OperationKind::CleanCache => match done {
            Done::Cleaned(Err(e)) => Err(e@),
            _ => Ok(operation::succeeded(operation, Seq::empty(), duration_ms)),
        },
        OperationKind::RemoveOrphans => match done {
            Done::Orphans(Err(e)) => Err(e@),
            Done::Orphans(Ok(v)) => if v@.len() == 0 {
                Ok(operation::succeeded(operation, Seq::empty(), duration_ms))
            } else {
                Ok(
                    operation::failed(
                        operation,
                        "Removing orphans requires root privileges"@,
                        duration_ms,
                    ),
                )
            },
            _ => Ok(operation::succeeded(operation, Seq::empty(), duration_ms)),
        },
        _ => Ok(
            operation::failed(operation, "Package operations require root privileges"@, duration_ms),
        ),
    }
}

impl PackageSource for AlpmBackend {
    open spec fn id(&self) -> Seq<char> {
        "pacman"@
    }

    open spec fn title(&self) -> Seq<char> {
        "Pacman"@
    }

    open spec fn needed(&self, kind: OperationKind) -> Work {
        match kind {
            OperationKind::CleanCache => Work::CleanCache(3),
            OperationKind::RemoveOrphans => Work::ListOrphans,
            _ => Work::Nothing,
        }
    }

    open spec fn concluded(&self, operation: OperationView, done: Done, duration_ms: u64) -> Result<
        OperationResultView,
        ErrorView,
    > {
        result(operation, done, duration_ms)
    }

    fn source_id(&self) -> (r: &str) {
        "pacman"
    }

    fn display_name(&self) -> (r: &str) {
        "Pacman"
    }

    fn work(&self, kind: OperationKind) -> (r: Work) {
        match kind {
            OperationKind::CleanCache => Work::CleanCache(3),
            OperationKind::RemoveOrphans => Work::ListOrphans,
            _ => Work::Nothing,
        }
    }

    fn execute(&self, operation: Operation, done: Done, duration_ms: u64) -> (r: Result<
        OperationResult,
        Error,
    >) {
        let none: Vec<Package> = Vec::new();
        assert(package::packages(none@) =~= Seq::empty());
        match operation.kind {
            OperationKind::SyncDatabases => Ok(
                OperationResult::failure(
                    operation,
                    "Database sync requires root privileges",
                    duration_ms,
                ),
            ),
            OperationKind::CleanCache => match done {
                Done::Cleaned(Err(e)) => Err(e),
                _ => Ok(OperationResult::success(operation, none, duration_ms)),
            },
            OperationKind::RemoveOrphans => match done {
                Done::Orphans(Err(e)) => Err(e),
                Done::Orphans(Ok(v)) => if v.len() == 0 {
                    Ok(OperationResult::success(operation, none, duration_ms))
                } else {
                    Ok(
                        OperationResult::failure(
                            operation,
                            "Removing orphans requires root privileges",
                            duration_ms,
                        ),
                    )
                },
                _ => Ok(OperationResult::success(operation, none, duration_ms)),
            },
            _ => Ok(
                OperationResult::failure(
                    operation,
                    "Package operations require root privileges",
                    duration_ms,
                ),
            ),
        }
    }
}

/// The updates are those of the installed packages for which some repository has a newer
/// version, each once and in order: from the version that is installed to that of the first
/// such repository.
pub proof fn every_newer_version_is_an_update(v: Seq<ComparedView>)
    ensures
        ({
            let outdated = v.filter(
                |p: ComparedView|
                    exists|k: int| 0 <= k < p.candidates.len() && (#[trigger] p.candidates[k]).newer,
            );
            let updates = updates_of(v);
            &&& updates.len() == outdated.len()
            &&& forall|i: int| #![trigger updates[i]]
                0 <= i < updates.len() ==> updates[i].name == outdated[i].name
                    && updates[i].current_version == outdated[i].version && updates[i].backend
                    == PackageBackend::Pacman && exists|k: int|
                    #![trigger outdated[i].candidates[k]]
                    0 <= k < outdated[i].candidates.len() && outdated[i].candidates[k].newer && (
                    forall|j: int|
                        0 <= j < k ==> !(#[trigger] outdated[i].candidates[j]).newer)
                        && updates[i].new_version == outdated[i].candidates[k].version
                        && updates[i].repository == outdated[i].candidates[k].repository
                        && updates[i].download_size == outdated[i].candidates[k].download_size as u64
        }),
    decreases v.len(),
{
    let newer = |p: ComparedView|
        exists|k: int| 0 <= k < p.candidates.len() && (#[trigger] p.candidates[k]).newer;
    reveal(Seq::filter);
    if v.len() > 0 {
        every_newer_version_is_an_update(v.drop_last());
        first_newer(v.last().candidates, 0);
        let outdated = v.filter(newer);
        let updates = updates_of(v);
        let before = updates_of(v.drop_last());
        let head = v.drop_last().filter(newer);
        assert forall|i: int| #![trigger updates[i]] 0 <= i < updates.len() implies updates[i].name
            == outdated[i].name && updates[i].current_version == outdated[i].version
            && updates[i].backend == PackageBackend::Pacman && exists|k: int|
            #![trigger outdated[i].candidates[k]]
            0 <= k < outdated[i].candidates.len() && outdated[i].candidates[k].newer && (forall|
                j: int,
            |
                0 <= j < k ==> !(#[trigger] outdated[i].candidates[j]).newer)
                && updates[i].new_version == outdated[i].candidates[k].version
                && updates[i].repository == outdated[i].candidates[k].repository
                && updates[i].download_size == outdated[i].candidates[k].download_size as u64 by {
            if i < before.len() {
                assert(updates[i] == before[i]);
                assert(outdated[i] == head[i]);
            } else {
                let k = newer_from(v.last().candidates, 0).unwrap();
                assert(outdated[i] == v.last());
                assert(outdated[i].candidates[k].newer);
            }
        }
    }
}

/// The first candidate that is newer is found, wherever there is one.
proof fn first_newer(v: Seq<CandidateView>, from: int)
    requires
        0 <= from,
    ensures
        match newer_from(v, from) {
            Some(i) => from <= i < v.len() && v[i].newer && forall|j: int|
                from <= j < i ==> !(#[trigger] v[j]).newer,
            None => forall|j: int| from <= j < v.len() ==> !(#[trigger] v[j]).newer,
        },
    decreases v.len() - from,
{
    if from < v.len() && !v[from].newer {
        first_newer(v, from + 1);
    }
}

/// A query is found in a package exactly where, in any case, it occurs somewhere in the
/// name or in the description.
pub open spec fn occurs_in(p: AlpmPackageView, query: Seq<char>) -> bool {
    let q = text::lowercase(query);
    let desc = match p.desc {
        Some(d) => d,
        None => Seq::empty(),
    };
    text::has(text::lowercase(p.name), q) || text::has(text::lowercase(desc), q)
}

/// A search finds in a repository the packages in whose name or description the query
/// occurs, each once and in order, and says which of them are installed.
pub proof fn repositories_are_searched(
    v: Seq<AlpmPackageView>,
    repo: Seq<char>,
    query: Seq<char>,
    local: Seq<AlpmPackageView>,
)
    ensures
        ({
            let wanted = v.filter(|p: AlpmPackageView| occurs_in(p, query));
            let found = db_results(v, repo, query, local);
            &&& found.len() == wanted.len()
            &&& forall|i: int| #![trigger found[i]]
                0 <= i < found.len() ==> is_result(found[i], wanted[i], repo, local)
        }),
    decreases v.len(),
{
    reveal(Seq::filter);
    if v.len() > 0 {
        repositories_are_searched(v.drop_last(), repo, query, local);
        let p = v.last();
        place_is_first(local, p.name, 0);
        assert(hit(p, query) == occurs_in(p, query));
        let wanted = v.filter(|p: AlpmPackageView| occurs_in(p, query));
        let found = db_results(v, repo, query, local);
        let before = db_results(v.drop_last(), repo, query, local);
        let head = v.drop_last().filter(|p: AlpmPackageView| occurs_in(p, query));
        assert forall|i: int| #![trigger found[i]] 0 <= i < found.len() implies is_result(
            found[i],
            wanted[i],
            repo,
            local,
        ) by {
            if i < before.len() {
                assert(found[i] == before[i]);
                assert(wanted[i] == head[i]);
            }
        }
    }
}

/// What a result says of a package of a repository: its name, version and description, and
/// the version of the first installed package of its name, where there is one.
pub open spec fn is_result(
    r: SearchResultView,
    p: AlpmPackageView,
    repo: Seq<char>,
    local: Seq<AlpmPackageView>,
) -> bool {
    &&& r.name == p.name
    &&& r.version == p.version
    &&& r.description == match p.desc {
        Some(d) => d,
        None => Seq::empty(),
    }
    &&& r.backend == PackageBackend::Pacman
    &&& r.repository == repo
    &&& r.installed <==> exists|k: int| 0 <= k < local.len() && (#[trigger] local[k]).name == p.name
    &&& match r.installed_version {
        Some(version) => exists|k: int|
            0 <= k < local.len() && (#[trigger] local[k]).name == p.name && local[k].version
                == version && forall|j: int| 0 <= j < k ==> (#[trigger] local[j]).name != p.name,
        None => !r.installed,
    }
}

/// The first package of a name is found, wherever there is one.
proof fn place_is_first(v: Seq<AlpmPackageView>, name: Seq<char>, from: int)
    requires
        0 <= from,
    ensures
        match place_from(v, name, from) {
            Some(i) => from <= i < v.len() && v[i].name == name && forall|j: int|
                from <= j < i ==> (#[trigger] v[j]).name != name,
            None => forall|j: int| from <= j < v.len() ==> (#[trigger] v[j]).name != name,
        },
    decreases v.len() - from,
{
    if from < v.len() && v[from].name != name {
        place_is_first(v, name, from + 1);
    }
}

/// All repositories are searched, one after the other.
pub proof fn all_repositories_are_searched(
    dbs: Seq<SyncDbView>,
    db: SyncDbView,
    query: Seq<char>,
    local: Seq<AlpmPackageView>,
)
    ensures
        results(Seq::empty(), query, local).len() == 0,
        results(dbs.push(db), query, local) == results(dbs, query, local) + db_results(
            db.packages,
            db.name,
            query,
            local,
        ),
{
    assert(dbs.push(db).drop_last() =~= dbs);
}

/// Every package of a repository in whose name or description the query occurs is among
/// the results, under its name and its repository.
pub proof fn every_match_is_found(
    dbs: Seq<SyncDbView>,
    query: Seq<char>,
    local: Seq<AlpmPackageView>,
    d: int,
    k: int,
)
    requires
        0 <= d < dbs.len(),
        0 <= k < dbs[d].packages.len(),
        occurs_in(dbs[d].packages[k], query),
    ensures
        exists|i: int|
            0 <= i < results(dbs, query, local).len() && is_result(
                #[trigger] results(dbs, query, local)[i],
                dbs[d].packages[k],
                dbs[d].name,
                local,
            ),
    decreases dbs.len(),
{
    let head = dbs.drop_last();
    let before = results(head, query, local);
    let all = results(dbs, query, local);
    if d < dbs.len() - 1 {
        assert(head[d] == dbs[d]);
        every_match_is_found(head, query, local, d, k);
        let i = choose|i: int|
            0 <= i < before.len() && is_result(
                #[trigger] before[i],
                dbs[d].packages[k],
                dbs[d].name,
                local,
            );
        assert(all[i] == before[i]);
    } else {
        let v = dbs[d].packages;
        let found = db_results(v, dbs[d].name, query, local);
        let wanted = v.filter(|p: AlpmPackageView| occurs_in(p, query));
        repositories_are_searched(v, dbs[d].name, query, local);
        order::filter_lets_through(v, |p: AlpmPackageView| occurs_in(p, query));
        assert(wanted.contains(v[k]));
        let i = choose|i: int| 0 <= i < wanted.len() && wanted[i] == v[k];
        assert(is_result(found[i], wanted[i], dbs[d].name, local));
        assert(all[before.len() + i] == found[i]);
    }
}

/// Every result is that of a package of a repository in whose name or description the
/// query occurs.
pub proof fn only_matches_are_found(
    dbs: Seq<SyncDbView>,
    query: Seq<char>,
    local: Seq<AlpmPackageView>,
    i: int,
)
    requires
        0 <= i < results(dbs, query, local).len(),
    ensures
        exists|d: int, k: int|
            0 <= d < dbs.len() && 0 <= k < dbs[d].packages.len() && occurs_in(
                #[trigger] dbs[d].packages[k],
                query,
            ) && is_result(results(dbs, query, local)[i], dbs[d].packages[k], dbs[d].name, local),
    decreases dbs.len(),
{
    let head = dbs.drop_last();
    let before = results(head, query, local);
    let all = results(dbs, query, local);
    if i < before.len() {
        only_matches_are_found(head, query, local, i);
        let (d, k) = choose|d: int, k: int|
            0 <= d < head.len() && 0 <= k < head[d].packages.len() && occurs_in(
                #[trigger] head[d].packages[k],
                query,
            ) && is_result(before[i], head[d].packages[k], head[d].name, local);
        assert(all[i] == before[i]);
        assert(head[d] == dbs[d]);
        assert(occurs_in(dbs[d].packages[k], query));
    } else {
        let d = dbs.len() - 1;
        let v = dbs[d].packages;
        let found = db_results(v, dbs[d].name, query, local);
        let wanted = v.filter(|p: AlpmPackageView| occurs_in(p, query));
        repositories_are_searched(v, dbs[d].name, query, local);
        order::filter_lets_through(v, |p: AlpmPackageView| occurs_in(p, query));
        let n = i - before.len();
        assert(all[i] == found[n]);
        assert(is_result(found[n], wanted[n], dbs[d].name, local));
        assert(wanted.contains(wanted[n]));
        assert(v.contains(wanted[n]));
        let k = choose|k: int| 0 <= k < v.len() && v[k] == wanted[n];
        assert(occurs_in(dbs[d].packages[k], query));
    }
}

/// An installed package is reported with its name, version and description, and as an
/// orphan exactly where it was installed as a dependency and nothing needs it or can make
/// use of it.
pub proof fn installed_packages_are_reported(p: AlpmPackageView)
    ensures
        ({
            let r = as_package(p, local_status(p), "local"@);
            &&& r.name == p.name
            &&& r.version == p.version
            &&& p.desc matches Some(d) ==> r.description == d
            &&& p.desc is None ==> r.description.len() == 0
            &&& r.backend == PackageBackend::Pacman
            &&& r.repository == "local"@
            &&& r.status == PackageStatus::Orphan || r.status == PackageStatus::Installed
            &&& r.status == PackageStatus::Orphan <==> p.reason == InstallReason::Dependency
                && !p.required && !p.optional
        }),
{
}

/// The orphans are the packages that were installed as a dependency and that nothing needs
/// or can make use of, each once and in order.
pub proof fn orphans_are_unneeded(v: Seq<AlpmPackageView>)
    ensures
        orphans(v) == v.filter(
            |p: AlpmPackageView|
                p.reason == InstallReason::Dependency && !p.required && !p.optional,
        ).map_values(
            |p: AlpmPackageView|
                PackageView {
                    name: p.name,
                    version: p.version,
                    description: match p.desc {
                        Some(d) => d,
                        None => Seq::empty(),
                    },
                    backend: PackageBackend::Pacman,
                    status: PackageStatus::Orphan,
                    repository: "local"@,
                },
        ),
    decreases v.len(),
{
    reveal(Seq::filter);
    if v.len() > 0 {
        orphans_are_unneeded(v.drop_last());
    }
    assert(orphans(v) =~= v.filter(
        |p: AlpmPackageView| p.reason == InstallReason::Dependency && !p.required && !p.optional,
    ).map_values(
        |p: AlpmPackageView|
            PackageView {
                name: p.name,
                version: p.version,
                description: match p.desc {
                    Some(d) => d,
                    None => Seq::empty(),
                },
                backend: PackageBackend::Pacman,
                status: PackageStatus::Orphan,
                repository: "local"@,
            },
    ));
}

/// What is known of a package is all that its database reports: of an installed one also
/// when and why it was installed.
pub proof fn details_are_reported(p: AlpmPackageView, repo: Seq<char>)
    ensures
        forall|r: PackageInfoView| #![trigger r.url]
            r == local_info(p) || r == sync_info(p, repo) ==> {
                &&& r.package.name == p.name
                &&& r.package.version == p.version
                &&& r.url == p.url
                &&& r.licenses == p.licenses
                &&& r.groups == p.groups
                &&& r.depends == p.depends
                &&& r.optdepends == p.optdepends
                &&& r.provides == p.provides
                &&& r.conflicts == p.conflicts
                &&& r.replaces == p.replaces
                &&& r.installed_size == p.isize as u64
                &&& r.download_size == p.download_size as u64
                &&& r.packager == p.packager
                &&& p.arch matches Some(a) ==> r.arch == a
                &&& p.arch is None ==> r.arch == "any"@
                &&& -8_334_601_228_800 <= p.build_date <= 8_210_266_876_799 ==> r.build_date == Some(
                    p.build_date,
                )
            },
        local_info(p).reason == Some(p.reason),
        local_info(p).package.repository == "local"@,
        p.install_date is None ==> local_info(p).install_date is None,
        p.install_date matches Some(ts) ==> (-8_334_601_228_800 <= ts <= 8_210_266_876_799
            ==> local_info(p).install_date == Some(ts)),
        sync_info(p, repo).reason is None,
        sync_info(p, repo).install_date is None,
        sync_info(p, repo).package.repository == repo,
        sync_info(p, repo).package.status == PackageStatus::Available,
{
}

/// A package that is installed is known as it is installed; another is known as the first
/// repository that has it offers it, and one that none has is not known.
pub proof fn packages_are_looked_up(
    dbs: Seq<SyncDbView>,
    local: Seq<AlpmPackageView>,
    name: Seq<char>,
)
    ensures
        forall|k: int|
            0 <= k < local.len() && (#[trigger] local[k]).name == name && (forall|j: int|
                0 <= j < k ==> (#[trigger] local[j]).name != name) ==> known(dbs, local, name)
                == Some(local_info(local[k])),
        (forall|k: int| 0 <= k < local.len() ==> (#[trigger] local[k]).name != name) ==> match known(
            dbs,
            local,
            name,
        ) {
            Some(info) => exists|d: int, k: int|
                0 <= d < dbs.len() && 0 <= k < dbs[d].packages.len() && (
                #[trigger] dbs[d].packages[k]).name == name && info == sync_info(
                    dbs[d].packages[k],
                    dbs[d].name,
                ) && forall|e: int, j: int|
                    0 <= e < d && 0 <= j < dbs[e].packages.len() ==> (
                    #[trigger] dbs[e].packages[j]).name != name,
            None => forall|e: int, j: int|
                0 <= e < dbs.len() && 0 <= j < dbs[e].packages.len() ==> (
                #[trigger] dbs[e].packages[j]).name != name,
        },
{
    place_is_first(local, name, 0);
    first_repository(dbs, name, 0);
    assert forall|k: int|
        0 <= k < local.len() && (#[trigger] local[k]).name == name && (forall|j: int|
            0 <= j < k ==> (#[trigger] local[j]).name != name) implies known(dbs, local, name)
        == Some(local_info(local[k])) by {
        let i = place_from(local, name, 0);
        assert(i is Some);
        assert(local[i.unwrap()].name == name);
        if i.unwrap() < k {
            assert(local[i.unwrap()].name != name);
        } else if i.unwrap() > k {
            assert(local[k].name != name);
        }
    }
}

/// The first repository that has a package of a name is found.
proof fn first_repository(dbs: Seq<SyncDbView>, name: Seq<char>, from: int)
    requires
        0 <= from,
    ensures
        match sync_info_from(dbs, name, from) {
            Some(info) => exists|d: int, k: int|
                from <= d < dbs.len() && 0 <= k < dbs[d].packages.len() && (
                #[trigger] dbs[d].packages[k]).name == name && info == sync_info(
                    dbs[d].packages[k],
                    dbs[d].name,
                ) && forall|e: int, j: int|
                    from <= e < d && 0 <= j < dbs[e].packages.len() ==> (
                    #[trigger] dbs[e].packages[j]).name != name,
            None => forall|e: int, j: int|
                from <= e < dbs.len() && 0 <= j < dbs[e].packages.len() ==> (
                #[trigger] dbs[e].packages[j]).name != name,
        },
    decreases dbs.len() - from,
{
    if from < dbs.len() {
        place_is_first(dbs[from].packages, name, 0);
        match place_from(dbs[from].packages, name, 0) {
            Some(k) => {
                assert(dbs[from].packages[k].name == name);
            },
            None => {
                first_repository(dbs, name, from + 1);
                assert forall|e: int, j: int|
                    e == from && 0 <= j < dbs[e].packages.len() implies (
                #[trigger] dbs[e].packages[j]).name != name by {}
                match sync_info_from(dbs, name, from) {
                    Some(info) => {
                        let (d, k) = choose|d: int, k: int|
                            from + 1 <= d < dbs.len() && 0 <= k < dbs[d].packages.len() && (
                            #[trigger] dbs[d].packages[k]).name == name && info == sync_info(
                                dbs[d].packages[k],
                                dbs[d].name,
                            ) && forall|e: int, j: int|
                                from + 1 <= e < d && 0 <= j < dbs[e].packages.len() ==> (
                                #[trigger] dbs[e].packages[j]).name != name;
                        assert(dbs[d].packages[k].name == name);
                    },
                    None => {},
                }
            },
        }
    }
}

/// The architecture is the one that is configured, without the spaces around it, and that
/// of the machine where none is configured or it says `auto`.
pub proof fn architectures_are_resolved(
    a: Seq<char>,
    configured: Seq<char>,
    b: Seq<char>,
    host: Seq<char>,
)
    requires
        forall|i: int| 0 <= i < a.len() ==> text::is_space(#[trigger] a[i]),
        forall|i: int| 0 <= i < b.len() ==> text::is_space(#[trigger] b[i]),
        configured.len() > 0 ==> !text::is_space(configured.first()) && !text::is_space(
            configured.last(),
        ),
    ensures
        configured.len() == 0 ==> architecture(a + configured + b, host) == host,
        configured == "auto"@ || configured == "Auto"@ || configured == "AUTO"@ ==> architecture(
            a + configured + b,
            host,
        ) == host,
        configured.len() > 0 && configured.len() != 4 ==> architecture(a + configured + b, host)
            == configured,
        configured.len() == 4 && text::ascii_lower(configured[0]) != 'a' ==> architecture(
            a + configured + b,
            host,
        ) == configured,
{
    text::trimming_finds_the_middle(a, configured, b);
    reveal_strlit("auto");
    reveal_strlit("Auto");
    reveal_strlit("AUTO");
    let x = configured.map_values(|c: char| text::ascii_lower(c));
    let y = "auto"@.map_values(|c: char| text::ascii_lower(c));
    assert(y[0] == 'a');
    if configured == "auto"@ || configured == "Auto"@ || configured == "AUTO"@ {
        assert(x =~= y);
    }
    if configured.len() == 4 {
        assert(x[0] == text::ascii_lower(configured[0]));
    }
    assert(x.len() == configured.len());
    assert(y.len() == 4);
}

/// The variables of a server are filled in, wherever they stand.
pub proof fn servers_are_filled_in(
    a: Seq<char>,
    b: Seq<char>,
    c: Seq<char>,
    repo: Seq<char>,
    arch: Seq<char>,
)
    requires
        !a.contains('$'),
        !b.contains('$'),
        !c.contains('$'),
        !repo.contains('$'),
    ensures
        expanded(a + "$repo"@ + b + "$arch"@ + c, repo, arch) == a + repo + b + arch + c,
{
    reveal_strlit("$repo");
    reveal_strlit("$arch");
    let tail = b + "$arch"@ + c;
    let s = a + "$repo"@ + b + "$arch"@ + c;
    assert(s =~= a + "$repo"@ + tail);
    text::first_behind(a, "$repo"@, tail);
    text::replaced_from_the_front(a, "$repo"@, tail, repo);
    assert(!text::has(tail, "$repo"@)) by {
        if text::has(tail, "$repo"@) {
            let i = choose|i: int| text::occurs_at(tail, "$repo"@, i);
            assert(tail.subrange(i, i + 5)[0] == tail[i]);
            assert(tail.subrange(i, i + 5)[1] == tail[i + 1]);
            if i < b.len() {
                assert(b[i] == '$');
            } else if i == b.len() {
                assert(tail[i + 1] == 'a');
            } else if i < b.len() + 5 {
                assert(tail[i] == "$arch"@[i - b.len()]);
            } else {
                assert(c[i - b.len() - 5] == '$');
            }
        }
    }
    text::nothing_to_replace(tail, "$repo"@, repo);
    let once = a + repo + tail;
    let front = a + repo + b;
    assert(once =~= front + "$arch"@ + c);
    assert(!front.contains('$')) by {
        if front.contains('$') {
            let i = choose|i: int| 0 <= i < front.len() && front[i] == '$';
            if i < a.len() {
                assert(a[i] == '$');
            } else if i < a.len() + repo.len() {
                assert(repo[i - a.len()] == '$');
            } else {
                assert(b[i - a.len() - repo.len()] == '$');
            }
        }
    }
    text::first_behind(front, "$arch"@, c);
    text::replaced_from_the_front(front, "$arch"@, c, arch);
    assert(!text::has(c, "$arch"@)) by {
        if text::has(c, "$arch"@) {
            let i = choose|i: int| text::occurs_at(c, "$arch"@, i);
            assert(c.subrange(i, i + 5)[0] == c[i]);
        }
    }
    text::nothing_to_replace(c, "$arch"@, arch);
    assert(front + arch + c =~= a + repo + b + arch + c);
}

/// What changes the system fails for want of rights, the cache is cleaned unless that
/// fails, and orphans are only removed where there are none.
pub proof fn operations_come_to_this(operation: OperationView, done: Done, duration_ms: u64)
    ensures
        operation.kind == OperationKind::Install || operation.kind == OperationKind::Remove
            || operation.kind == OperationKind::RemoveWithDeps || operation.kind
            == OperationKind::Update || operation.kind == OperationKind::SystemUpgrade ==> result(
            operation,
            done,
            duration_ms,
        ) == Ok::<OperationResultView, ErrorView>(
            operation::failed(operation, "Package operations require root privileges"@, duration_ms),
        ),
        operation.kind == OperationKind::SyncDatabases ==> result(operation, done, duration_ms)
            == Ok::<OperationResultView, ErrorView>(
            operation::failed(operation, "Database sync requires root privileges"@, duration_ms),
        ),
        operation.kind == OperationKind::CleanCache ==> (match done {
            Done::Cleaned(Err(e)) => result(operation, done, duration_ms) == Err::<
                OperationResultView,
                ErrorView,
            >(e@),
            Done::Cleaned(Ok(_)) => result(operation, done, duration_ms) == Ok::<
                OperationResultView,
                ErrorView,
            >(operation::succeeded(operation, Seq::empty(), duration_ms)),
            _ => true,
        }),
        operation.kind == OperationKind::RemoveOrphans ==> (match done {
            Done::Orphans(Err(e)) => result(operation, done, duration_ms) == Err::<
                OperationResultView,
                ErrorView,
            >(e@),
            Done::Orphans(Ok(v)) => result(operation, done, duration_ms) == Ok::<
                OperationResultView,
                ErrorView,
            >(
                if v@.len() > 0 {
                    operation::failed(
                        operation,
                        "Removing orphans requires root privileges"@,
                        duration_ms,
                    )
                } else {
                    operation::succeeded(operation, Seq::empty(), duration_ms)
                },
            ),
            _ => true,
        }),
{
}

/// A package is found wherever in its name or its description the query stands, at the
/// start, in the middle or at the end, and in whichever case it is written.
pub proof fn queries_are_found_anywhere(
    dbs: Seq<SyncDbView>,
    query: Seq<char>,
    local: Seq<AlpmPackageView>,
    d: int,
    k: int,
    a: Seq<char>,
    b: Seq<char>,
)
    requires
        0 <= d < dbs.len(),
        0 <= k < dbs[d].packages.len(),
        text::lowercase(dbs[d].packages[k].name) == a + text::lowercase(query) + b || (
        dbs[d].packages[k].desc matches Some(desc) && text::lowercase(desc) == a + text::lowercase(
            query,
        ) + b),
    ensures
        exists|i: int|
            0 <= i < results(dbs, query, local).len() && {
                let r = #[trigger] results(dbs, query, local)[i];
                &&& r.name == dbs[d].packages[k].name
                &&& r.version == dbs[d].packages[k].version
                &&& r.repository == dbs[d].name
                &&& r.installed <==> exists|j: int|
                    0 <= j < local.len() && (#[trigger] local[j]).name
                        == dbs[d].packages[k].name
            },
{
    let p = dbs[d].packages[k];
    text::has_means_made_of(text::lowercase(p.name), text::lowercase(query));
    if let Some(desc) = p.desc {
        text::has_means_made_of(text::lowercase(desc), text::lowercase(query));
    }
    every_match_is_found(dbs, query, local, d, k);
    let i = choose|i: int|
        0 <= i < results(dbs, query, local).len() && is_result(
            #[trigger] results(dbs, query, local)[i],
            p,
            dbs[d].name,
            local,
        );
    assert(results(dbs, query, local)[i].name == p.name);
}

/// There is a backend exactly where the path of the database exists, and it keeps its
/// settings; where it does not, the error names the path.
pub proof fn backends_need_a_database(config: AlpmConfigView, e: Error, b: AlpmBackend)
    ensures
        is_backend(Ok(b), config, true) ==> b.config@ == config,
        !is_backend(Ok(b), config, false),
        !is_backend(Err(e), config, true),
        is_backend(Err(e), config, false) <==> e@ == ErrorView::DatabaseError(
            "Database path does not exist: "@ + config.dbpath,
        ),
{
}

/// The settings of Arch Linux.
pub proof fn arch_linux_is_set_so()
    ensures
        arch_linux().root == "/"@,
        arch_linux().dbpath == "/var/lib/pacman"@,
        arch_linux().cache_dirs == seq!["/var/cache/pacman/pkg"@],
        arch_linux().hook_dirs == seq!["/etc/pacman.d/hooks"@, "/usr/share/libalpm/hooks"@],
        arch_linux().gpgdir == "/etc/pacman.d/gnupg"@,
        arch_linux().logfile == "/var/log/pacman.log"@,
{
}

/// The repositories are those of the configuration, in order and by name, each with all its
/// servers filled in; without a configuration there are none.
pub proof fn repositories_are_configured(config: PacmanConfig, host: Seq<char>, i: int, k: int)
    requires
        0 <= i < config.repos@.len(),
        0 <= k < config.repos@[i]@.servers.len(),
    ensures
        repo_list(None, host).len() == 0,
        repo_list(Some(config), host).len() == config.repos@.len(),
        repo_list(Some(config), host)[i].name == config.repos@[i]@.name,
        repo_list(Some(config), host)[i].servers.len() == config.repos@[i]@.servers.len(),
        repo_list(Some(config), host)[i].servers[k] == expanded(
            config.repos@[i]@.servers[k],
            config.repos@[i]@.name,
            architecture(config.architecture@, host),
        ),
{
}

/// A time that is no date of the calendar is that of the beginning, any other is kept.
pub proof fn times_are_dates(ts: i64)
    ensures
        -8_334_601_228_800 <= ts <= 8_210_266_876_799 ==> date(ts) == ts,
        ts < -8_334_601_228_800 || ts > 8_210_266_876_799 ==> date(ts) == 0,
{
}

/// The backend of the system's packages: to clean the cache keeps three versions, to remove
/// orphans lists them, and nothing else has to be done first.
pub proof fn pacman_needs_its_work(b: AlpmBackend, kind: OperationKind)
    ensures
        b.id() == "pacman"@,
        b.title() == "Pacman"@,
        b.needed(OperationKind::CleanCache) == Work::CleanCache(3),
        b.needed(OperationKind::RemoveOrphans) == Work::ListOrphans,
        kind != OperationKind::CleanCache && kind != OperationKind::RemoveOrphans ==> b.needed(kind)
            == Work::Nothing,
{
}

/// A package that is installed is known with its description, and as an orphan exactly
/// where it came as a dependency and nothing needs or wants it.
pub proof fn installed_details_tell_orphans(p: AlpmPackageView)
    ensures
        local_info(p).package.status == PackageStatus::Orphan <==> p.reason
            == InstallReason::Dependency && !p.required && !p.optional,
        local_info(p).package.status != PackageStatus::Orphan ==> local_info(p).package.status
            == PackageStatus::Installed,
        local_info(p).package.backend == PackageBackend::Pacman,
        p.desc matches Some(t) ==> local_info(p).package.description == t,
        p.desc is None ==> local_info(p).package.description.len() == 0,
{
}

/// A configured architecture is kept unless it is the word that stands for the machine's,
/// in any case.
pub proof fn other_architectures_are_kept(configured: Seq<char>, host: Seq<char>, i: int)
    requires
        configured.len() == 4,
        !text::is_space(configured.first()) && !text::is_space(configured.last()),
        0 <= i < 4,
        text::ascii_lower(configured[i]) != "auto"@[i],
    ensures
        architecture(configured, host) == configured,
{
    let none = Seq::<char>::empty();
    text::trimming_finds_the_middle(none, configured, none);
    assert(none + configured + none =~= configured);
    reveal_strlit("auto");
    let x = configured.map_values(|c: char| text::ascii_lower(c));
    let y = "auto"@.map_values(|c: char| text::ascii_lower(c));
    assert(x[i] == text::ascii_lower(configured[i]));
    assert(y[i] == text::ascii_lower("auto"@[i]));
    assert(text::ascii_lower("auto"@[i]) == "auto"@[i]);
}

} // verus!
