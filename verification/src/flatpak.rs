//! The backend for Flatpak: what its installations report, as packages, search results
//! and updates.
use crate::error::{Error, ErrorView};
use crate::operation;
use crate::operation::{Operation, OperationKind, OperationResult, OperationResultView, OperationView};
use crate::order;
use crate::package;
use crate::package::{
    Package, PackageBackend, PackageInfo, PackageInfoView, PackageStatus, PackageView, SearchResult,
    SearchResultView, UpdateInfo, UpdateInfoView, Version,
};
use crate::source::{Done, PackageSource, Work};
use crate::text;
use crate::text::Sep;
use vstd::hash_set::StringHashSet;
use vstd::prelude::*;
use vstd::string::*;

verus! {

broadcast use vstd::seq_lib::group_seq_properties;

/// The Flatpak backend.
#[derive(Debug)]
pub struct FlatpakBackend;

impl FlatpakBackend {
    /// Creates a new Flatpak backend, which always succeeds.
    pub fn new() -> (r: Result<FlatpakBackend, Error>)
        ensures
            r is Ok,
    {
        Ok(FlatpakBackend)
    }
}

/// Something that is installed.
#[derive(Debug)]
pub struct InstalledRef {
    /// Whether it is an application and not a runtime.
    pub is_app: bool,
    /// Its ID.
    pub name: Option<String>,
    /// Its architecture.
    pub arch: Option<String>,
    /// Its branch.
    pub branch: Option<String>,
    /// Its version, as it says itself.
    pub appdata_version: Option<String>,
    /// Its name, as it says itself.
    pub appdata_name: Option<String>,
    /// The remote that it comes from.
    pub origin: Option<String>,
    /// Its size on disk in bytes.
    pub installed_size: u64,
}

/// What a `InstalledRef` holds.
#[verifier::ext_equal]
pub struct InstalledRefView {
    pub is_app: bool,
    pub name: Option<Seq<char>>,
    pub arch: Option<Seq<char>>,
    pub branch: Option<Seq<char>>,
    pub appdata_version: Option<Seq<char>>,
    pub appdata_name: Option<Seq<char>>,
    pub origin: Option<Seq<char>>,
    pub installed_size: u64,
}

impl View for InstalledRef {
    type V = InstalledRefView;

    open spec fn view(&self) -> InstalledRefView {
        InstalledRefView {
            is_app: self.is_app,
            name: package::opt_text(self.name),
            arch: package::opt_text(self.arch),
            branch: package::opt_text(self.branch),
            appdata_version: package::opt_text(self.appdata_version),
            appdata_name: package::opt_text(self.appdata_name),
            origin: package::opt_text(self.origin),
            installed_size: self.installed_size,
        }
    }
}

/// Something that a remote offers.
#[derive(Debug)]
pub struct RemoteRef {
    /// Whether it is an application and not a runtime.
    pub is_app: bool,
    /// Its ID.
    pub name: Option<String>,
    /// Its architecture.
    pub arch: Option<String>,
    /// Its branch.
    pub branch: Option<String>,
}

/// What a `RemoteRef` holds.
#[verifier::ext_equal]
pub struct RemoteRefView {
    pub is_app: bool,
    pub name: Option<Seq<char>>,
    pub arch: Option<Seq<char>>,
    pub branch: Option<Seq<char>>,
}

impl View for RemoteRef {
    type V = RemoteRefView;

    open spec fn view(&self) -> RemoteRefView {
        RemoteRefView {
            is_app: self.is_app,
            name: package::opt_text(self.name),
            arch: package::opt_text(self.arch),
            branch: package::opt_text(self.branch),
        }
    }
}

/// What a list of installed things holds.
pub open spec fn installed_refs(v: Seq<InstalledRef>) -> Seq<InstalledRefView> {
    v.map_values(|r: InstalledRef| r@)
}

/// What a list holds, where it could be had.
pub open spec fn opt_listed(o: Option<Vec<InstalledRef>>) -> Option<Seq<InstalledRefView>> {
    match o {
        Some(v) => Some(installed_refs(v@)),
        None => None,
    }
}

/// What a list of offers holds.
pub open spec fn remote_refs(v: Seq<RemoteRef>) -> Seq<RemoteRefView> {
    v.map_values(|r: RemoteRef| r@)
}

/// What a list holds, where it could be had.
pub open spec fn opt_offered(o: Option<Vec<RemoteRef>>) -> Option<Seq<RemoteRefView>> {
    match o {
        Some(v) => Some(remote_refs(v@)),
        None => None,
    }
}

/// All of a list, or nothing where it could not be had.
pub open spec fn all_of<T>(o: Option<Seq<T>>) -> Seq<T> {
    match o {
        Some(s) => s,
        None => Seq::empty(),
    }
}

/// A remote and what it offers, where that could be had.
#[derive(Debug)]
pub struct Remote {
    /// Its name.
    pub name: String,
    /// What it offers.
    pub refs: Option<Vec<RemoteRef>>,
}

/// What a `Remote` holds.
#[verifier::ext_equal]
pub struct RemoteView {
    pub name: Seq<char>,
    pub refs: Option<Seq<RemoteRefView>>,
}

impl View for Remote {
    type V = RemoteView;

    open spec fn view(&self) -> RemoteView {
        RemoteView {
            name: self.name@,
            refs: opt_offered(self.refs),
        }
    }
}

/// What a list of remotes holds.
pub open spec fn remotes(v: Seq<Remote>) -> Seq<RemoteView> {
    v.map_values(|r: Remote| r@)
}

/// An installation of Flatpak, the user's or that of the system. What could not be had is
/// missing.
#[derive(Debug)]
pub struct Installation {
    /// What is installed.
    pub installed: Option<Vec<InstalledRef>>,
    /// What is installed and has an update.
    pub outdated: Option<Vec<InstalledRef>>,
    /// The remotes.
    pub remotes: Vec<Remote>,
}

/// What a `Installation` holds.
#[verifier::ext_equal]
pub struct InstallationView {
    pub installed: Option<Seq<InstalledRefView>>,
    pub outdated: Option<Seq<InstalledRefView>>,
    pub remotes: Seq<RemoteView>,
}

impl View for Installation {
    type V = InstallationView;

    open spec fn view(&self) -> InstallationView {
        InstallationView {
            installed: opt_listed(self.installed),
            outdated: opt_listed(self.outdated),
            remotes: remotes(self.remotes@),
        }
    }
}

/// What a list of installations holds.
pub open spec fn installations(v: Seq<Installation>) -> Seq<InstallationView> {
    v.map_values(|i: Installation| i@)
}

/// A text, or another where there is none.
pub open spec fn text_or(o: Option<Seq<char>>, other: Seq<char>) -> Seq<char> {
    match o {
        Some(s) => s,
        None => other,
    }
}

/// A text, or another where there is none.
fn copy_or(o: &Option<String>, other: &str) -> (r: String)
    ensures
        r@ == text_or(package::opt_text(*o), other@),
{
    match o {
        Some(s) => s.clone(),
        None => other.to_owned(),
    }
}

/// A text, or an empty one where there is none.
fn copy_or_empty(o: &Option<String>) -> (r: String)
    ensures
        r@ == text_or(package::opt_text(*o), Seq::empty()),
{
    match o {
        Some(s) => s.clone(),
        None => String::new(),
    }
}

/// The version of something that is installed: what it says itself, or else its branch.
pub open spec fn version(r: InstalledRefView) -> Seq<char> {
    match r.appdata_version {
        Some(v) => v,
        None => text_or(r.branch, "unknown"@),
    }
}

/// The package that is installed.
pub open spec fn as_package(r: InstalledRefView) -> PackageView {
    PackageView {
        name: text_or(r.name, Seq::empty()),
        version: version(r),
        description: text_or(r.appdata_name, Seq::empty()),
        backend: PackageBackend::Flatpak,
        status: PackageStatus::Installed,
        repository: text_or(r.origin, Seq::empty()),
    }
}

/// The update of something that is installed. The new version is not known, so that the
/// one that is installed stands for it.
pub open spec fn as_update(r: InstalledRefView) -> UpdateInfoView {
    UpdateInfoView {
        name: text_or(r.name, Seq::empty()),
        current_version: version(r),
        new_version: version(r),
        backend: PackageBackend::Flatpak,
        repository: text_or(r.origin, Seq::empty()),
        download_size: r.installed_size,
    }
}

/// The version of something that is installed.
fn version_of(r: &InstalledRef) -> (v: String)
    ensures
        v@ == version(r@),
{
    match &r.appdata_version {
        Some(v) => v.clone(),
        None => copy_or(&r.branch, "unknown"),
    }
}

/// The package that is installed.
pub fn package_from_installed_ref(r: &InstalledRef) -> (p: Package)
    ensures
        p@ == as_package(r@),
{
    Package::new(
        copy_or_empty(&r.name),
        Version { text: version_of(r) },
        copy_or_empty(&r.appdata_name),
        PackageBackend::Flatpak,
        PackageStatus::Installed,
        copy_or_empty(&r.origin),
    )
}

/// The update of something that is installed.
pub fn update_info_from_installed_ref(r: &InstalledRef) -> (u: UpdateInfo)
    ensures
        u@ == as_update(r@),
{
    UpdateInfo {
        name: copy_or_empty(&r.name),
        current_version: Version { text: version_of(r) },
        new_version: Version { text: version_of(r) },
        backend: PackageBackend::Flatpak,
        repository: copy_or_empty(&r.origin),
        download_size: r.installed_size,
    }
}

/// The applications among what is installed.
pub open spec fn apps(v: Seq<InstalledRefView>) -> Seq<InstalledRefView>
    decreases v.len(),
{
    if v.len() == 0 {
        Seq::empty()
    } else if v.last().is_app {
        apps(v.drop_last()).push(v.last())
    } else {
        apps(v.drop_last())
    }
}

/// The applications that are installed, of all installations.
pub open spec fn installed_apps(v: Seq<InstallationView>) -> Seq<InstalledRefView>
    decreases v.len(),
{
    if v.len() == 0 {
        Seq::empty()
    } else {
        installed_apps(v.drop_last()) + apps(all_of(v.last().installed))
    }
}

/// The applications that have an update, of all installations.
pub open spec fn outdated_apps(v: Seq<InstallationView>) -> Seq<InstalledRefView>
    decreases v.len(),
{
    if v.len() == 0 {
        Seq::empty()
    } else {
        outdated_apps(v.drop_last()) + apps(all_of(v.last().outdated))
    }
}

/// Adds the packages of the applications of a list.
fn add_packages(r: &mut Vec<Package>, refs: &Option<Vec<InstalledRef>>)
    ensures
        package::packages(final(r)@) == package::packages(old(r)@) + apps(
            all_of(opt_listed(*refs)),
        ).map_values(|x: InstalledRefView| as_package(x)),
{
    let ghost start = package::packages(r@);
    match refs {
        None => {
            assert(apps(Seq::empty()).map_values(|x: InstalledRefView| as_package(x))
                =~= Seq::empty());
        },
        Some(v) => {
            let ghost all = installed_refs(v@);
            let mut i: usize = 0;
            assert(all.take(0) =~= Seq::empty());
            assert(package::packages(r@) =~= start + apps(all.take(0)).map_values(
                |x: InstalledRefView| as_package(x),
            ));
            while i < v.len()
                invariant
                    i <= v@.len(),
                    all == installed_refs(v@),
                    package::packages(r@) == start + apps(all.take(i as int)).map_values(
                        |x: InstalledRefView| as_package(x),
                    ),
                decreases v@.len() - i,
            {
                let ghost before = package::packages(r@);
                let ghost known = apps(all.take(i as int));
                assert(all.take(i + 1).drop_last() =~= all.take(i as int));
                assert(all.take(i + 1).last() == v@[i as int]@);
                if v[i].is_app {
                    let p = package_from_installed_ref(&v[i]);
                    r.push(p);
                    assert(package::packages(r@) =~= before.push(p@));
                    assert(known.push(v@[i as int]@).map_values(|x: InstalledRefView| as_package(x))
                        =~= known.map_values(|x: InstalledRefView| as_package(x)).push(p@));
                }
                i += 1;
            }
            assert(all.take(all.len() as int) =~= all);
        },
    }
}

/// Lists the applications that are installed, of all installations.
pub fn list_installed(v: &Vec<Installation>) -> (r: Vec<Package>)
    ensures
        package::packages(r@) == installed_apps(installations(v@)).map_values(
            |x: InstalledRefView| as_package(x),
        ),
{
    let ghost all = installations(v@);
    let mut r: Vec<Package> = Vec::new();
    let mut i: usize = 0;
    assert(all.take(0) =~= Seq::empty());
    assert(package::packages(r@) =~= installed_apps(all.take(0)).map_values(
        |x: InstalledRefView| as_package(x),
    ));
    while i < v.len()
        invariant
            i <= v@.len(),
            all == installations(v@),
            package::packages(r@) == installed_apps(all.take(i as int)).map_values(
                |x: InstalledRefView| as_package(x),
            ),
        decreases v@.len() - i,
    {
        let ghost known = installed_apps(all.take(i as int));
        assert(all.take(i + 1).drop_last() =~= all.take(i as int));
        assert(all.take(i + 1).last() == v@[i as int]@);
        let ghost more = apps(all_of(v@[i as int]@.installed));
        add_packages(&mut r, &v[i].installed);
        assert((known + more).map_values(|x: InstalledRefView| as_package(x)) =~= known.map_values(
            |x: InstalledRefView| as_package(x),
        ) + more.map_values(|x: InstalledRefView| as_package(x)));
        i += 1;
    }
    assert(all.take(all.len() as int) =~= all);
    r
}

/// Adds the updates of the applications of a list.
fn add_updates(r: &mut Vec<UpdateInfo>, refs: &Option<Vec<InstalledRef>>)
    ensures
        package::updates(final(r)@) == package::updates(old(r)@) + apps(
            all_of(opt_listed(*refs)),
        ).map_values(|x: InstalledRefView| as_update(x)),
{
    let ghost start = package::updates(r@);
    match refs {
        None => {
            assert(apps(Seq::empty()).map_values(|x: InstalledRefView| as_update(x))
                =~= Seq::empty());
        },
        Some(v) => {
            let ghost all = installed_refs(v@);
            let mut i: usize = 0;
            assert(all.take(0) =~= Seq::empty());
            assert(package::updates(r@) =~= start + apps(all.take(0)).map_values(
                |x: InstalledRefView| as_update(x),
            ));
            while i < v.len()
                invariant
                    i <= v@.len(),
                    all == installed_refs(v@),
                    package::updates(r@) == start + apps(all.take(i as int)).map_values(
                        |x: InstalledRefView| as_update(x),
                    ),
                decreases v@.len() - i,
            {
                let ghost before = package::updates(r@);
                let ghost known = apps(all.take(i as int));
                assert(all.take(i + 1).drop_last() =~= all.take(i as int));
                assert(all.take(i + 1).last() == v@[i as int]@);
                if v[i].is_app {
                    let u = update_info_from_installed_ref(&v[i]);
                    r.push(u);
                    assert(package::updates(r@) =~= before.push(u@));
                    assert(known.push(v@[i as int]@).map_values(|x: InstalledRefView| as_update(x))
                        =~= known.map_values(|x: InstalledRefView| as_update(x)).push(u@));
                }
                i += 1;
            }
            assert(all.take(all.len() as int) =~= all);
        },
    }
}

/// Lists the updates of applications, of all installations.
pub fn list_updates(v: &Vec<Installation>) -> (r: Vec<UpdateInfo>)
    ensures
        package::updates(r@) == outdated_apps(installations(v@)).map_values(
            |x: InstalledRefView| as_update(x),
        ),
{
    let ghost all = installations(v@);
    let mut r: Vec<UpdateInfo> = Vec::new();
    let mut i: usize = 0;
    assert(all.take(0) =~= Seq::empty());
    assert(package::updates(r@) =~= outdated_apps(all.take(0)).map_values(
        |x: InstalledRefView| as_update(x),
    ));
    while i < v.len()
        invariant
            i <= v@.len(),
            all == installations(v@),
            package::updates(r@) == outdated_apps(all.take(i as int)).map_values(
                |x: InstalledRefView| as_update(x),
            ),
        decreases v@.len() - i,
    {
        let ghost known = outdated_apps(all.take(i as int));
        assert(all.take(i + 1).drop_last() =~= all.take(i as int));
        assert(all.take(i + 1).last() == v@[i as int]@);
        let ghost more = apps(all_of(v@[i as int]@.outdated));
        add_updates(&mut r, &v[i].outdated);
        assert((known + more).map_values(|x: InstalledRefView| as_update(x)) =~= known.map_values(
            |x: InstalledRefView| as_update(x),
        ) + more.map_values(|x: InstalledRefView| as_update(x)));
        i += 1;
    }
    assert(all.take(all.len() as int) =~= all);
    r
}

/// The first thing of an ID at or behind `from` among what is installed.
pub open spec fn ref_from(v: Seq<InstalledRefView>, name: Seq<char>, from: int) -> Option<
    InstalledRefView,
>
    decreases v.len() - from,
{
    if from < 0 || from >= v.len() {
        None
    } else if text_or(v[from].name, Seq::empty()) == name {
        Some(v[from])
    } else {
        ref_from(v, name, from + 1)
    }
}

/// The first thing of an ID in the first installation, at or behind `from`, that has it.
pub open spec fn ref_of(v: Seq<InstallationView>, name: Seq<char>, from: int) -> Option<
    InstalledRefView,
>
    decreases v.len() - from,
{
    if from < 0 || from >= v.len() {
        None
    } else {
        match ref_from(all_of(v[from].installed), name, 0) {
            Some(r) => Some(r),
            None => ref_of(v, name, from + 1),
        }
    }
}

/// What is known of something that is installed.
pub open spec fn as_info(r: InstalledRefView) -> PackageInfoView {
    PackageInfoView {
        package: as_package(r),
        url: None,
        licenses: Seq::empty(),
        groups: Seq::empty(),
        depends: Seq::empty(),
        optdepends: Seq::empty(),
        provides: Seq::empty(),
        conflicts: Seq::empty(),
        replaces: Seq::empty(),
        installed_size: r.installed_size,
        download_size: 0,
        build_date: None,
        install_date: None,
        packager: None,
        arch: text_or(r.arch, Seq::empty()),
        reason: None,
    }
}

/// No texts.
fn no_texts() -> (r: Vec<String>)
    ensures
        text::strings(r@) == Seq::<Seq<char>>::empty(),
{
    let r: Vec<String> = Vec::new();
    assert(text::strings(r@) =~= Seq::<Seq<char>>::empty());
    r
}

/// What is known of something that is installed.
fn to_info(r: &InstalledRef) -> (i: PackageInfo)
    ensures
        i@ == as_info(r@),
{
    PackageInfo {
        package: package_from_installed_ref(r),
        url: None,
        licenses: no_texts(),
        groups: no_texts(),
        depends: no_texts(),
        optdepends: no_texts(),
        provides: no_texts(),
        conflicts: no_texts(),
        replaces: no_texts(),
        installed_size: r.installed_size,
        download_size: 0,
        build_date: None,
        install_date: None,
        packager: None,
        arch: copy_or_empty(&r.arch),
        reason: None,
    }
}

/// Finds something of an ID in one installation.
fn find_ref(refs: &Option<Vec<InstalledRef>>, name: &str) -> (r: Option<PackageInfo>)
    ensures
        match r {
            Some(i) => ref_from(all_of(opt_listed(*refs)), name@, 0) matches Some(x) && i@ == as_info(x),
            None => ref_from(all_of(opt_listed(*refs)), name@, 0) is None,
        },
{
    match refs {
        None => None,
        Some(v) => {
            let ghost all = installed_refs(v@);
            let mut i: usize = 0;
            while i < v.len()
                invariant
                    i <= v@.len(),
                    all == installed_refs(v@),
                    all == all_of(opt_listed(*refs)),
                    ref_from(all, name@, 0) == ref_from(all, name@, i as int),
                decreases v@.len() - i,
            {
                assert(all[i as int] == v@[i as int]@);
                let id = copy_or_empty(&v[i].name);
                if text::equals(id.as_str(), name) {
                    return Some(to_info(&v[i]));
                }
                i += 1;
            }
            None
        },
    }
}

/// Gets detailed information about something that is installed.
pub fn get_package_info(v: &Vec<Installation>, name: &str) -> (r: Result<PackageInfo, Error>)
    ensures
        match r {
            Ok(i) => ref_of(installations(v@), name@, 0) matches Some(x) && i@ == as_info(x),
            Err(e) => ref_of(installations(v@), name@, 0) is None && e@
                == ErrorView::PackageNotFound(name@),
        },
{
    let ghost all = installations(v@);
    let mut i: usize = 0;
    while i < v.len()
        invariant
            i <= v@.len(),
            all == installations(v@),
            ref_of(all, name@, 0) == ref_of(all, name@, i as int),
        decreases v@.len() - i,
    {
        assert(all[i as int] == v@[i as int]@);
        match find_ref(&v[i].installed, name) {
            Some(info) => {
                return Ok(info);
            },
            None => {},
        }
        i += 1;
    }
    Err(Error::PackageNotFound(name.to_owned()))
}

/// The short name in an application ID: its last part.
pub open spec fn short_name(id: Seq<char>) -> Seq<char> {
    text::split(id, Sep::At('.')).last()
}

/// The short name in an application ID.
pub fn display_name(app_id: &str) -> (r: String)
    ensures
        r@ == short_name(app_id@),
{
    let id = text::chars_of(app_id);
    let mut parts = text::pieces(id.as_slice(), Sep::At('.'));
    assert(text::texts(parts@).last() == parts@.last()@);
    let part = parts.pop().unwrap();
    text::text_of(part.as_slice())
}

/// Something that a remote offers, with the remote.
#[derive(Debug)]
pub struct Offer {
    /// The remote.
    pub remote: String,
    /// What it offers.
    pub item: RemoteRef,
}

/// What a `Offer` holds.
#[verifier::ext_equal]
pub struct OfferView {
    pub remote: Seq<char>,
    pub item: RemoteRefView,
}

impl View for Offer {
    type V = OfferView;

    open spec fn view(&self) -> OfferView {
        OfferView {
            remote: self.remote@,
            item: self.item@,
        }
    }
}

/// What a list of offers holds.
pub open spec fn offers(v: Seq<Offer>) -> Seq<OfferView> {
    v.map_values(|o: Offer| o@)
}

/// What one remote offers.
pub open spec fn of_remote(r: RemoteView) -> Seq<OfferView> {
    all_of(r.refs).map_values(|x: RemoteRefView| OfferView { remote: r.name, item: x })
}

/// What remotes offer, one after the other.
pub open spec fn of_remotes(v: Seq<RemoteView>) -> Seq<OfferView>
    decreases v.len(),
{
    if v.len() == 0 {
        Seq::empty()
    } else {
        of_remotes(v.drop_last()) + of_remote(v.last())
    }
}

/// What the remotes of all installations offer, one after the other.
pub open spec fn of_installations(v: Seq<InstallationView>) -> Seq<OfferView>
    decreases v.len(),
{
    if v.len() == 0 {
        Seq::empty()
    } else {
        of_installations(v.drop_last()) + of_remotes(v.last().remotes)
    }
}

/// Adds what one remote offers.
fn add_offers(r: &mut Vec<Offer>, remote: &Remote)
    ensures
        offers(final(r)@) == offers(old(r)@) + of_remote(remote@),
{
    let ghost start = offers(r@);
    match &remote.refs {
        None => {
            assert(of_remote(remote@) =~= Seq::empty());
        },
        Some(v) => {
            let ghost wanted = of_remote(remote@);
            let mut i: usize = 0;
            assert(offers(r@) =~= start + wanted.take(0));
            while i < v.len()
                invariant
                    i <= v@.len(),
                    remote.refs == Some(*v),
                    wanted == of_remote(remote@),
                    offers(r@) == start + wanted.take(i as int),
                decreases v@.len() - i,
            {
                let ghost before = offers(r@);
                let o = Offer {
                    remote: remote.name.clone(),
                    item: RemoteRef {
                        is_app: v[i].is_app,
                        name: package::clone_text(&v[i].name),
                        arch: package::clone_text(&v[i].arch),
                        branch: package::clone_text(&v[i].branch),
                    },
                };
                r.push(o);
                assert(all_of(remote@.refs)[i as int] == v@[i as int]@);
                assert(o@ =~= wanted[i as int]);
                assert(offers(r@) =~= before.push(o@));
                assert(wanted.take(i + 1) =~= wanted.take(i as int).push(o@));
                i += 1;
            }
            assert(wanted.take(wanted.len() as int) =~= wanted);
        },
    }
}

/// What the remotes of an installation offer.
fn offers_of(i: &Installation) -> (r: Vec<Offer>)
    ensures
        offers(r@) == of_remotes(i@.remotes),
{
    let ghost all = i@.remotes;
    let mut r: Vec<Offer> = Vec::new();
    let mut k: usize = 0;
    assert(all.take(0) =~= Seq::empty());
    assert(offers(r@) =~= Seq::empty());
    while k < i.remotes.len()
        invariant
            k <= i.remotes@.len(),
            all == i@.remotes,
            offers(r@) == of_remotes(all.take(k as int)),
        decreases i.remotes@.len() - k,
    {
        assert(all.take(k + 1).drop_last() =~= all.take(k as int));
        assert(all.take(k + 1).last() == i.remotes@[k as int]@);
        add_offers(&mut r, &i.remotes[k]);
        k += 1;
    }
    assert(all.take(all.len() as int) =~= all);
    r
}

/// What the remotes of all installations offer.
fn all_offers(v: &Vec<Installation>) -> (r: Vec<Offer>)
    ensures
        offers(r@) == of_installations(installations(v@)),
{
    let ghost all = installations(v@);
    let mut r: Vec<Offer> = Vec::new();
    let mut i: usize = 0;
    assert(all.take(0) =~= Seq::empty());
    assert(offers(r@) =~= Seq::empty());
    while i < v.len()
        invariant
            i <= v@.len(),
            all == installations(v@),
            offers(r@) == of_installations(all.take(i as int)),
        decreases v@.len() - i,
    {
        let ghost before = offers(r@);
        assert(all.take(i + 1).drop_last() =~= all.take(i as int));
        assert(all.take(i + 1).last() == v@[i as int]@);
        let mut more = offers_of(&v[i]);
        let ghost found = offers(more@);
        r.append(&mut more);
        assert(offers(r@) =~= before + found);
        i += 1;
    }
    assert(all.take(all.len() as int) =~= all);
    r
}

/// Whether an application of an ID is among what is installed.
pub open spec fn has_app(v: Seq<InstalledRefView>, name: Seq<char>) -> bool {
    exists|i: int| 0 <= i < v.len() && (#[trigger] v[i]).is_app && v[i].name == Some(name)
}

/// Whether an application of an ID is installed in any installation.
pub open spec fn has_installed(v: Seq<InstallationView>, name: Seq<char>) -> bool {
    exists|i: int| 0 <= i < v.len() && has_app(all_of((#[trigger] v[i]).installed), name)
}

/// Adds the IDs of the applications of a list.
fn add_names(set: &mut StringHashSet, refs: &Option<Vec<InstalledRef>>)
    ensures
        forall|k: Seq<char>| #[trigger]
            final(set)@.contains(k) <==> old(set)@.contains(k) || has_app(all_of(opt_listed(*refs)), k),
{
    match refs {
        None => {},
        Some(v) => {
            let ghost all = installed_refs(v@);
            let ghost start = set@;
            let mut i: usize = 0;
            while i < v.len()
                invariant
                    i <= v@.len(),
                    all == installed_refs(v@),
                    all == all_of(opt_listed(*refs)),
                    forall|k: Seq<char>| #[trigger]
                        set@.contains(k) <==> start.contains(k) || has_app(all.take(i as int), k),
                decreases v@.len() - i,
            {
                let ghost before = set@;
                assert(all[i as int] == v@[i as int]@);
                if v[i].is_app {
                    match &v[i].name {
                        Some(name) => {
                            set.insert(name.clone());
                        },
                        None => {},
                    }
                }
                proof {
                    let head = all.take(i as int);
                    let next = all.take(i + 1);
                    assert forall|k: Seq<char>| #[trigger] set@.contains(k) <==> start.contains(k)
                        || has_app(next, k) by {
                        if has_app(head, k) {
                            let j = choose|j: int|
                                0 <= j < head.len() && (#[trigger] head[j]).is_app && head[j].name
                                    == Some(k);
                            assert(next[j].is_app && next[j].name == Some(k));
                        }
                        if has_app(next, k) {
                            let j = choose|j: int|
                                0 <= j < next.len() && (#[trigger] next[j]).is_app && next[j].name
                                    == Some(k);
                            if j < i {
                                assert(head[j].is_app && head[j].name == Some(k));
                            }
                        }
                        if set@.contains(k) && !before.contains(k) {
                            assert(next[i as int].is_app && next[i as int].name == Some(k));
                        }
                    }
                }
                i += 1;
            }
            assert(all.take(all.len() as int) =~= all);
        },
    }
}

/// The IDs of the applications that are installed in any installation.
fn installed_app_names(v: &Vec<Installation>) -> (r: StringHashSet)
    ensures
        forall|k: Seq<char>| #[trigger]
            r@.contains(k) <==> has_installed(installations(v@), k),
{
    let ghost all = installations(v@);
    let mut r = StringHashSet::new();
    let mut i: usize = 0;
    while i < v.len()
        invariant
            i <= v@.len(),
            all == installations(v@),
            forall|k: Seq<char>| #[trigger]
                r@.contains(k) <==> has_installed(all.take(i as int), k),
        decreases v@.len() - i,
    {
        let ghost before = r@;
        add_names(&mut r, &v[i].installed);
        proof {
            let head = all.take(i as int);
            let next = all.take(i + 1);
            assert(next[i as int] == v@[i as int]@);
            assert forall|k: Seq<char>| #[trigger] r@.contains(k) <==> has_installed(next, k) by {
                assert(before.contains(k) <==> has_installed(head, k));
                if has_installed(head, k) {
                    let j = choose|j: int|
                        0 <= j < head.len() && has_app(all_of((#[trigger] head[j]).installed), k);
                    assert(has_app(all_of(next[j].installed), k));
                }
                if has_app(all_of(next[i as int].installed), k) {
                    assert(has_installed(next, k));
                }
                if has_installed(next, k) {
                    let j = choose|j: int|
                        0 <= j < next.len() && has_app(all_of((#[trigger] next[j]).installed), k);
                    if j < i {
                        assert(has_app(all_of(head[j].installed), k));
                    }
                }
            }
        }
        i += 1;
    }
    assert(all.take(all.len() as int) =~= all);
    r
}

/// The names of packages.
pub open spec fn package_names(v: Seq<PackageView>) -> Seq<Seq<char>> {
    v.map_values(|p: PackageView| p.name)
}

/// The package that a remote offers.
pub open spec fn as_offered(o: OfferView, name: Seq<char>, on_system: Seq<InstallationView>) -> PackageView {
    PackageView {
        name,
        version: text_or(o.item.branch, "stable"@),
        description: short_name(name),
        backend: PackageBackend::Flatpak,
        status: if has_installed(on_system, name) {
            PackageStatus::Installed
        } else {
            PackageStatus::Available
        },
        repository: o.remote,
    }
}

/// The applications among some offers, each ID once, as it is offered first.
pub open spec fn available(v: Seq<OfferView>, on_system: Seq<InstallationView>) -> Seq<PackageView>
    decreases v.len(),
{
    if v.len() == 0 {
        Seq::empty()
    } else {
        let before = available(v.drop_last(), on_system);
        match v.last().item.name {
            Some(name) => if v.last().item.is_app && !package_names(before).contains(name) {
                before.push(as_offered(v.last(), name, on_system))
            } else {
                before
            },
            None => before,
        }
    }
}

/// The keys by which packages are sorted: their descriptions, in lower case.
pub open spec fn sort_keys(v: Seq<PackageView>) -> Seq<Seq<char>> {
    v.map_values(|p: PackageView| text::lowercase(p.description))
}

/// The applications that the remotes of some installations offer, sorted by their short
/// names.
pub open spec fn all_available(v: Seq<InstallationView>) -> Seq<PackageView> {
    let found = available(of_installations(v), v);
    order::pick(found, order::sorted_order(sort_keys(found)))
}

/// The packages at some positions.
pub fn pick_packages(v: &Vec<Package>, o: &Vec<usize>) -> (r: Vec<Package>)
    requires
        forall|i: int| 0 <= i < o@.len() ==> (#[trigger] o@[i]) < v@.len(),
    ensures
        package::packages(r@) == order::pick(package::packages(v@), order::indices(o@)),
{
    let ghost wanted = order::pick(package::packages(v@), order::indices(o@));
    let mut r: Vec<Package> = Vec::new();
    let mut i: usize = 0;
    while i < o.len()
        invariant
            i <= o@.len(),
            wanted == order::pick(package::packages(v@), order::indices(o@)),
            forall|k: int| 0 <= k < o@.len() ==> (#[trigger] o@[k]) < v@.len(),
            package::packages(r@) == wanted.take(i as int),
        decreases o@.len() - i,
    {
        let ghost before = package::packages(r@);
        r.push(v[o[i]].clone());
        assert(wanted[i as int] == v@[o@[i as int] as int]@);
        assert(package::packages(r@) =~= before.push(wanted[i as int]));
        assert(wanted.take(i + 1) =~= wanted.take(i as int).push(wanted[i as int]));
        i += 1;
    }
    assert(wanted.take(wanted.len() as int) =~= wanted);
    r
}

/// The applications among some offers, each ID once.
fn find_available(v: &Vec<Offer>, on_system: &Vec<Installation>) -> (r: Vec<Package>)
    ensures
        package::packages(r@) == available(offers(v@), installations(on_system@)),
{
    let installed = installed_app_names(on_system);
    let ghost all = offers(v@);
    let ghost system = installations(on_system@);
    let mut seen = StringHashSet::new();
    let mut r: Vec<Package> = Vec::new();
    let mut i: usize = 0;
    assert(all.take(0) =~= Seq::empty());
    assert(package::packages(r@) =~= Seq::empty());
    assert(package_names(Seq::empty()) =~= Seq::empty());
    while i < v.len()
        invariant
            i <= v@.len(),
            all == offers(v@),
            forall|k: Seq<char>| #[trigger] installed@.contains(k) <==> has_installed(system, k),
            package::packages(r@) == available(all.take(i as int), system),
            forall|k: Seq<char>| #[trigger]
                seen@.contains(k) <==> package_names(package::packages(r@)).contains(k),
        decreases v@.len() - i,
    {
        let ghost before = package::packages(r@);
        assert(all.take(i + 1).drop_last() =~= all.take(i as int));
        assert(all.take(i + 1).last() == v@[i as int]@);
        match &v[i].item.name {
            Some(name) => {
                if v[i].item.is_app && !seen.contains(name.as_str()) {
                    seen.insert(name.clone());
                    let status = if installed.contains(name.as_str()) {
                        PackageStatus::Installed
                    } else {
                        PackageStatus::Available
                    };
                    let p = Package::new(
                        name.clone(),
                        Version { text: copy_or(&v[i].item.branch, "stable") },
                        display_name(name.as_str()),
                        PackageBackend::Flatpak,
                        status,
                        v[i].remote.clone(),
                    );
                    r.push(p);
                    assert(package::packages(r@) =~= before.push(p@));
                    assert(package_names(package::packages(r@)) =~= package_names(before).push(
                        name@,
                    ));
                }
            },
            None => {},
        }
        i += 1;
    }
    assert(all.take(all.len() as int) =~= all);
    r
}

impl FlatpakBackend {
    /// Lists all available Flatpak apps from configured remotes (e.g., Flathub).
    pub fn list_available(&self, v: &Vec<Installation>) -> (r: Vec<Package>)
        ensures
            package::packages(r@) == all_available(installations(v@)),
    {
        let o = all_offers(v);
        let found = find_available(&o, v);
        let ghost all = package::packages(found@);
        let mut keys: Vec<Vec<char>> = Vec::new();
        let mut i: usize = 0;
        while i < found.len()
            invariant
                i <= found@.len(),
                all == package::packages(found@),
                text::texts(keys@) == sort_keys(all).take(i as int),
            decreases found@.len() - i,
        {
            let ghost before = text::texts(keys@);
            let d = text::chars_of(found[i].description.as_str());
            let key = text::lower(d.as_slice());
            keys.push(key);
            assert(sort_keys(all)[i as int] == key@);
            assert(text::texts(keys@) =~= before.push(key@));
            i += 1;
        }
        assert(sort_keys(all).take(all.len() as int) =~= sort_keys(all));
        let sorted = order::stable_order(&keys);
        assert(keys@.len() == text::texts(keys@).len());
        pick_packages(&found, &sorted)
    }
}

/// Every ID is available once.
pub proof fn available_once(v: Seq<OfferView>, on_system: Seq<InstallationView>)
    ensures
        package_names(available(v, on_system)).no_duplicates(),
    decreases v.len(),
{
    if v.len() > 0 {
        let before = available(v.drop_last(), on_system);
        available_once(v.drop_last(), on_system);
        match v.last().item.name {
            Some(name) => if v.last().item.is_app && !package_names(before).contains(name) {
                let p = as_offered(v.last(), name, on_system);
                assert(package_names(before.push(p)) =~= package_names(before).push(name));
            },
            None => {},
        }
    }
}

/// Every application that is offered is available.
pub proof fn offered_is_available(v: Seq<OfferView>, on_system: Seq<InstallationView>, i: int)
    requires
        0 <= i < v.len(),
        v[i].item.is_app,
        v[i].item.name is Some,
    ensures
        package_names(available(v, on_system)).contains(v[i].item.name.unwrap()),
    decreases v.len(),
{
    let before = available(v.drop_last(), on_system);
    if i < v.len() - 1 {
        offered_is_available(v.drop_last(), on_system, i);
        assert(v.drop_last()[i] == v[i]);
    }
    match v.last().item.name {
        Some(name) => if v.last().item.is_app && !package_names(before).contains(name) {
            let p = as_offered(v.last(), name, on_system);
            assert(package_names(before.push(p)) =~= package_names(before).push(name));
            assert(package_names(before).push(name)[before.len() as int] == name);
        },
        None => {},
    }
}

/// What is available is shown in the order of its short names, each ID once and none left
/// out.
pub proof fn available_is_sorted(v: Seq<InstallationView>)
    ensures
        all_available(v).len() == available(of_installations(v), v).len(),
        package_names(all_available(v)).no_duplicates(),
        forall|i: int, j: int|
            #![trigger all_available(v)[i], all_available(v)[j]]
            0 <= i < j < all_available(v).len() ==> order::lex_le(
                text::lowercase(all_available(v)[i].description),
                text::lowercase(all_available(v)[j].description),
            ),
        forall|p: PackageView| #[trigger]
            available(of_installations(v), v).contains(p) <==> all_available(v).contains(p),
{
    let found = available(of_installations(v), v);
    let keys = sort_keys(found);
    let o = order::sorted_order(keys);
    let shown = all_available(v);
    order::sorting_is_a_stable_rearrangement(keys);
    available_once(of_installations(v), v);
    let names = package_names(shown);
    assert forall|i: int, j: int| 0 <= i < names.len() && 0 <= j < names.len() && i != j implies names[i]
        != names[j] by {
        assert(o[i] != o[j]);
        assert(package_names(found)[o[i]] != package_names(found)[o[j]]);
    }
    assert forall|i: int, j: int| #![trigger shown[i], shown[j]] 0 <= i < j < shown.len() implies order::lex_le(
        text::lowercase(shown[i].description),
        text::lowercase(shown[j].description),
    ) by {
        assert(order::lex_le(keys[o[i]], keys[o[j]]));
    }
    order::picking_keeps_all(found, o);
}

/// Whether an application is among what is installed, with this architecture and branch.
pub open spec fn has_key(
    v: Seq<InstalledRefView>,
    name: Seq<char>,
    arch: Seq<char>,
    branch: Seq<char>,
) -> bool {
    exists|i: int|
        0 <= i < v.len() && (#[trigger] v[i]).is_app && v[i].name == Some(name) && text_or(
            v[i].arch,
            Seq::empty(),
        ) == arch && text_or(v[i].branch, Seq::empty()) == branch
}

/// The search result for an offer, where it is an application with the query in its ID,
/// in any case.
pub open spec fn offer_result(
    o: OfferView,
    query: Seq<char>,
    installed: Seq<InstalledRefView>,
) -> Option<SearchResultView> {
    match o.item.name {
        Some(name) => if o.item.is_app && text::has(
            text::lowercase(name),
            text::lowercase(query),
        ) {
            let branch = text_or(o.item.branch, Seq::empty());
            Some(
                SearchResultView {
                    name,
                    version: branch,
                    description: name,
                    backend: PackageBackend::Flatpak,
                    repository: o.remote,
                    installed: has_key(
                        installed,
                        name,
                        text_or(o.item.arch, Seq::empty()),
                        branch,
                    ),
                    installed_version: None,
                },
            )
        } else {
            None
        },
        None => None,
    }
}

/// The search results among some offers.
pub open spec fn offer_results(
    v: Seq<OfferView>,
    query: Seq<char>,
    installed: Seq<InstalledRefView>,
) -> Seq<SearchResultView>
    decreases v.len(),
{
    if v.len() == 0 {
        Seq::empty()
    } else {
        let before = offer_results(v.drop_last(), query, installed);
        match offer_result(v.last(), query, installed) {
            Some(r) => before.push(r),
            None => before,
        }
    }
}

/// The search results of all installations, one after the other.
pub open spec fn all_results(v: Seq<InstallationView>, query: Seq<char>) -> Seq<SearchResultView>
    decreases v.len(),
{
    if v.len() == 0 {
        Seq::empty()
    } else {
        all_results(v.drop_last(), query) + offer_results(
            of_remotes(v.last().remotes),
            query,
            all_of(v.last().installed),
        )
    }
}

/// The names of search results.
pub open spec fn result_names(v: Seq<SearchResultView>) -> Seq<Seq<char>> {
    v.map_values(|r: SearchResultView| r.name)
}

/// Search results in the order of their names.
pub open spec fn by_name(v: Seq<SearchResultView>) -> Seq<SearchResultView> {
    order::pick(v, order::sorted_order(result_names(v)))
}

/// Search results in the order of their names, each name once.
pub open spec fn distinct_by_name(v: Seq<SearchResultView>) -> Seq<SearchResultView> {
    let sorted = by_name(v);
    order::pick(sorted, order::without_repeats(result_names(sorted), sorted.len()))
}

/// Whether an application is among what is installed, with this architecture and branch.
fn is_installed(refs: &Option<Vec<InstalledRef>>, name: &str, arch: &str, branch: &str) -> (r: bool)
    ensures
        r == has_key(all_of(opt_listed(*refs)), name@, arch@, branch@),
{
    match refs {
        None => false,
        Some(v) => {
            let ghost all = installed_refs(v@);
            let mut i: usize = 0;
            while i < v.len()
                invariant
                    i <= v@.len(),
                    all == installed_refs(v@),
                    all == all_of(opt_listed(*refs)),
                    forall|k: int|
                        0 <= k < i ==> !((#[trigger] all[k]).is_app && all[k].name == Some(name@)
                            && text_or(all[k].arch, Seq::empty()) == arch@ && text_or(
                            all[k].branch,
                            Seq::empty(),
                        ) == branch@),
                decreases v@.len() - i,
            {
                assert(all[i as int] == v@[i as int]@);
                if v[i].is_app {
                    match &v[i].name {
                        Some(n) => {
                            let a = copy_or_empty(&v[i].arch);
                            let b = copy_or_empty(&v[i].branch);
                            if text::equals(n.as_str(), name) && text::equals(a.as_str(), arch)
                                && text::equals(b.as_str(), branch) {
                                return true;
                            }
                        },
                        None => {},
                    }
                }
                i += 1;
            }
            false
        },
    }
}

/// The search results among some offers.
fn search_offers(v: &Vec<Offer>, query: &[char], installed: &Option<Vec<InstalledRef>>) -> (r: Vec<
    SearchResult,
>)
    ensures
        package::results(r@) == offer_results(offers(v@), query@, all_of(opt_listed(*installed))),
{
    let q = text::lower(query);
    let ghost all = offers(v@);
    let mut r: Vec<SearchResult> = Vec::new();
    let mut i: usize = 0;
    assert(all.take(0) =~= Seq::empty());
    assert(package::results(r@) =~= Seq::empty());
    while i < v.len()
        invariant
            i <= v@.len(),
            all == offers(v@),
            q@ == text::lowercase(query@),
            package::results(r@) == offer_results(
                all.take(i as int),
                query@,
                all_of(opt_listed(*installed)),
            ),
        decreases v@.len() - i,
    {
        let ghost before = package::results(r@);
        assert(all.take(i + 1).drop_last() =~= all.take(i as int));
        assert(all.take(i + 1).last() == v@[i as int]@);
        match &v[i].item.name {
            Some(name) => {
                let id = text::chars_of(name.as_str());
                let id = text::lower(id.as_slice());
                if v[i].item.is_app && text::contains(id.as_slice(), q.as_slice()) {
                    let arch = copy_or_empty(&v[i].item.arch);
                    let branch = copy_or_empty(&v[i].item.branch);
                    let on = is_installed(
                        installed,
                        name.as_str(),
                        arch.as_str(),
                        branch.as_str(),
                    );
                    let found = SearchResult {
                        name: name.clone(),
                        version: Version { text: branch },
                        description: name.clone(),
                        backend: PackageBackend::Flatpak,
                        repository: v[i].remote.clone(),
                        installed: on,
                        installed_version: None,
                    };
                    r.push(found);
                    assert(package::results(r@) =~= before.push(found@));
                }
            },
            None => {},
        }
        i += 1;
    }
    assert(all.take(all.len() as int) =~= all);
    r
}

/// The search results at some positions.
fn pick_results(v: &Vec<SearchResult>, o: &Vec<usize>) -> (r: Vec<SearchResult>)
    requires
        forall|i: int| 0 <= i < o@.len() ==> (#[trigger] o@[i]) < v@.len(),
    ensures
        package::results(r@) == order::pick(package::results(v@), order::indices(o@)),
{
    let ghost wanted = order::pick(package::results(v@), order::indices(o@));
    let mut r: Vec<SearchResult> = Vec::new();
    let mut i: usize = 0;
    while i < o.len()
        invariant
            i <= o@.len(),
            wanted == order::pick(package::results(v@), order::indices(o@)),
            forall|k: int| 0 <= k < o@.len() ==> (#[trigger] o@[k]) < v@.len(),
            package::results(r@) == wanted.take(i as int),
        decreases o@.len() - i,
    {
        let ghost before = package::results(r@);
        r.push(v[o[i]].clone());
        assert(wanted[i as int] == v@[o@[i as int] as int]@);
        assert(package::results(r@) =~= before.push(wanted[i as int]));
        assert(wanted.take(i + 1) =~= wanted.take(i as int).push(wanted[i as int]));
        i += 1;
    }
    assert(wanted.take(wanted.len() as int) =~= wanted);
    r
}

/// The names of search results.
fn names_of(v: &Vec<SearchResult>) -> (r: Vec<Vec<char>>)
    ensures
        text::texts(r@) == result_names(package::results(v@)),
        r@.len() == v@.len(),
{
    let ghost wanted = result_names(package::results(v@));
    let mut r: Vec<Vec<char>> = Vec::new();
    let mut i: usize = 0;
    while i < v.len()
        invariant
            i <= v@.len(),
            r@.len() == i,
            wanted == result_names(package::results(v@)),
            text::texts(r@) == wanted.take(i as int),
        decreases v@.len() - i,
    {
        let ghost before = text::texts(r@);
        let name = text::chars_of(v[i].name.as_str());
        r.push(name);
        assert(wanted[i as int] == name@);
        assert(text::texts(r@) =~= before.push(name@));
        i += 1;
    }
    assert(wanted.take(wanted.len() as int) =~= wanted);
    r
}

/// Sorts search results by their names.
pub fn sort_results(v: &Vec<SearchResult>) -> (r: Vec<SearchResult>)
    ensures
        package::results(r@) == by_name(package::results(v@)),
{
    let names = names_of(v);
    let o = order::stable_order(&names);
    pick_results(v, &o)
}

/// Searches for applications matching the query.
pub fn search(v: &Vec<Installation>, query: &str) -> (r: Vec<SearchResult>)
    ensures
        package::results(r@) == distinct_by_name(all_results(installations(v@), query@)),
{
    let q = text::chars_of(query);
    let ghost all = installations(v@);
    let mut found: Vec<SearchResult> = Vec::new();
    let mut i: usize = 0;
    assert(all.take(0) =~= Seq::empty());
    assert(package::results(found@) =~= Seq::empty());
    while i < v.len()
        invariant
            i <= v@.len(),
            all == installations(v@),
            q@ == query@,
            package::results(found@) == all_results(all.take(i as int), query@),
        decreases v@.len() - i,
    {
        let ghost before = package::results(found@);
        assert(all.take(i + 1).drop_last() =~= all.take(i as int));
        assert(all.take(i + 1).last() == v@[i as int]@);
        let o = offers_of(&v[i]);
        let mut more = search_offers(&o, q.as_slice(), &v[i].installed);
        let ghost hits = package::results(more@);
        found.append(&mut more);
        assert(package::results(found@) =~= before + hits);
        i += 1;
    }
    assert(all.take(all.len() as int) =~= all);
    let sorted = sort_results(&found);
    let names = names_of(&sorted);
    let kept = order::first_of_each(&names);
    assert(package::results(sorted@).len() == sorted@.len());
    pick_results(&sorted, &kept)
}

/// A search shows every ID once, and every ID that was found.
pub proof fn search_shows_each_once(v: Seq<InstallationView>, query: Seq<char>)
    ensures
        result_names(distinct_by_name(all_results(v, query))).no_duplicates(),
        forall|i: int|
            0 <= i < all_results(v, query).len() ==> result_names(
                distinct_by_name(all_results(v, query)),
            ).contains(#[trigger] all_results(v, query)[i].name),
{
    let all = all_results(v, query);
    let names = result_names(all);
    order::sorting_is_a_stable_rearrangement(names);
    let o = order::sorted_order(names);
    let sorted = by_name(all);
    let keys = result_names(sorted);
    assert forall|i: int, j: int| #![trigger keys[i], keys[j]] 0 <= i < j < keys.len() implies order::lex_le(
        keys[i],
        keys[j],
    ) by {
        assert(order::lex_le(names[o[i]], names[o[j]]));
    }
    order::sorted_keys_stay_once(keys);
    order::no_repeats_remain(keys, keys.len());
    let kept = order::without_repeats(keys, keys.len());
    let shown = result_names(distinct_by_name(all));
    assert(shown =~= order::pick(keys, kept));
    assert forall|i: int| 0 <= i < all.len() implies shown.contains(#[trigger] all[i].name) by {
        assert(o.contains(i));
        let p = choose|p: int| 0 <= p < o.len() && o[p] == i;
        assert(keys[p] == all[i].name);
        order::every_key_stays(keys, keys.len(), p);
        let q = choose|q: int| 0 <= q < kept.len() && keys[#[trigger] kept[q]] == keys[p];
        assert(shown[q] == all[i].name);
    }
}

/// What an operation comes to. Packages cannot be changed here; databases need no syncing
/// and runtimes are cleaned up by Flatpak itself.
pub open spec fn result(operation: OperationView, done: Done, duration_ms: u64) -> Result<
    OperationResultView,
    ErrorView,
> {
    match operation.kind {
        OperationKind::SyncDatabases | OperationKind::RemoveOrphans => Ok(
            operation::succeeded(operation, Seq::empty(), duration_ms),
        ),
        OperationKind::CleanCache => match done {
            Done::Cleaned(Err(e)) => Err(e@),
            _ => Ok(operation::succeeded(operation, Seq::empty(), duration_ms)),
        },
        _ => Ok(
            operation::failed(
                operation,
                "Flatpak operations require further implementation"@,
                duration_ms,
            ),
        ),
    }
}

impl PackageSource for FlatpakBackend {
    open spec fn id(&self) -> Seq<char> {
        "flatpak"@
    }

    open spec fn title(&self) -> Seq<char> {
        "Flatpak"@
    }

    open spec fn needed(&self, kind: OperationKind) -> Work {
        match kind {
            OperationKind::CleanCache => Work::CleanCache(0),
            _ => Work::Nothing,
        }
    }

    open spec fn concluded(&self, operation: OperationView, done: Done, duration_ms: u64) -> Result<
        OperationResultView,
        ErrorView,
    > {
        result(operation, done, duration_ms)
    }

    fn source_id(&self) -> (r: &str) {
        "flatpak"
    }

    fn display_name(&self) -> (r: &str) {
        "Flatpak"
    }

    fn work(&self, kind: OperationKind) -> (r: Work) {
        match kind {
            OperationKind::CleanCache => Work::CleanCache(0),
            _ => Work::Nothing,
        }
    }

    fn execute(&self, operation: Operation, done: Done, duration_ms: u64) -> (r: Result<
        OperationResult,
        Error,
    >) {
        let none: Vec<Package> = Vec::new();
        assert(package::packages(none@) =~= Seq::empty());
        match operation.kind {
            OperationKind::SyncDatabases | OperationKind::RemoveOrphans => Ok(
                OperationResult::success(operation, none, duration_ms),
            ),
            OperationKind::CleanCache => match done {
                Done::Cleaned(Err(e)) => Err(e),
                _ => Ok(OperationResult::success(operation, none, duration_ms)),
            },
            _ => Ok(
                OperationResult::failure(
                    operation,
                    "Flatpak operations require further implementation",
                    duration_ms,
                ),
            ),
        }
    }
}

/// What is shown of an application that is installed, and of its update: its ID, its
/// version or else its branch, its name and where it came from.
pub proof fn applications_are_described(r: InstalledRefView)
    ensures
        as_package(r).backend == PackageBackend::Flatpak,
        as_package(r).status == PackageStatus::Installed,
        r.name matches Some(t) ==> as_package(r).name == t && as_update(r).name == t,
        r.name is None ==> as_package(r).name.len() == 0 && as_update(r).name.len() == 0,
        r.appdata_name matches Some(t) ==> as_package(r).description == t,
        r.appdata_name is None ==> as_package(r).description.len() == 0,
        r.origin matches Some(t) ==> as_package(r).repository == t && as_update(r).repository == t,
        r.appdata_version matches Some(t) ==> as_package(r).version == t && as_update(
            r,
        ).current_version == t && as_update(r).new_version == t,
        r.appdata_version is None ==> (r.branch matches Some(t) ==> as_package(r).version == t
            && as_update(r).current_version == t && as_update(r).new_version == t),
        r.appdata_version is None && r.branch is None ==> as_package(r).version == "unknown"@,
        as_update(r).backend == PackageBackend::Flatpak,
        as_update(r).download_size == r.installed_size,
{
}

/// Of what is installed or outdated the applications count, and no runtimes, in order.
pub proof fn runtimes_are_left_out(v: Seq<InstalledRefView>)
    ensures
        apps(v) == v.filter(|r: InstalledRefView| r.is_app),
    decreases v.len(),
{
    reveal(Seq::filter);
    if v.len() > 0 {
        runtimes_are_left_out(v.drop_last());
    }
}

/// All installations count, one after the other; one whose list could not be had adds
/// nothing.
pub proof fn all_installations_count(
    v: Seq<InstallationView>,
    next: InstallationView,
    query: Seq<char>,
)
    ensures
        installed_apps(Seq::empty()).len() == 0,
        outdated_apps(Seq::empty()).len() == 0,
        of_installations(Seq::empty()).len() == 0,
        all_results(Seq::empty(), query).len() == 0,
        next.installed matches Some(refs) ==> installed_apps(v.push(next)) == installed_apps(v)
            + refs.filter(|r: InstalledRefView| r.is_app),
        next.installed is None ==> installed_apps(v.push(next)) == installed_apps(v),
        next.outdated matches Some(refs) ==> outdated_apps(v.push(next)) == outdated_apps(v)
            + refs.filter(|r: InstalledRefView| r.is_app),
        next.outdated is None ==> outdated_apps(v.push(next)) == outdated_apps(v),
        of_installations(v.push(next)) == of_installations(v) + of_remotes(next.remotes),
        all_results(v.push(next), query) == all_results(v, query) + offer_results(
            of_remotes(next.remotes),
            query,
            match next.installed {
                Some(refs) => refs,
                None => Seq::empty(),
            },
        ),
{
    assert(v.push(next).drop_last() =~= v);
    runtimes_are_left_out(all_of(next.installed));
    runtimes_are_left_out(all_of(next.outdated));
    if next.installed is None {
        assert(apps(Seq::empty()) =~= Seq::empty());
        assert(installed_apps(v.push(next)) =~= installed_apps(v));
    }
    if next.outdated is None {
        assert(apps(Seq::empty()) =~= Seq::empty());
        assert(outdated_apps(v.push(next)) =~= outdated_apps(v));
    }
}

/// All remotes count, one after the other, with all that they offer.
pub proof fn all_remotes_count(v: Seq<RemoteView>, next: RemoteView)
    ensures
        of_remotes(Seq::empty()).len() == 0,
        next.refs is None ==> of_remotes(v.push(next)) == of_remotes(v),
        next.refs matches Some(refs) ==> {
            &&& of_remotes(v.push(next)).len() == of_remotes(v).len() + refs.len()
            &&& of_remotes(v.push(next)).take(of_remotes(v).len() as int) == of_remotes(v)
            &&& forall|i: int|
                0 <= i < refs.len() ==> #[trigger] of_remotes(v.push(next))[of_remotes(v).len() + i]
                    == (OfferView { remote: next.name, item: refs[i] })
        },
{
    assert(v.push(next).drop_last() =~= v);
    let before = of_remotes(v);
    let now = of_remotes(v.push(next));
    if next.refs is None {
        assert(now =~= before);
    } else {
        assert(now.take(before.len() as int) =~= before);
    }
}

/// The short name of an application is the last part of its ID.
pub proof fn short_names_are_last(a: Seq<char>, part: Seq<char>)
    requires
        !part.contains('.'),
    ensures
        short_name(a.push('.') + part) == part,
        short_name(part) == part,
{
    text::split_appended(a, '.', part);
    assert forall|i: int| 0 <= i < part.len() implies !Sep::At('.').splits(#[trigger] part[i]) by {
        assert(part.contains(part[i]));
    }
    text::unsplit(part, Sep::At('.'));
}

/// What is known of something is what the first installation that has it says.
pub proof fn first_installation_counts(v: Seq<InstallationView>, name: Seq<char>, d: int, k: int)
    requires
        0 <= d < v.len(),
        v[d].installed matches Some(refs) && 0 <= k < refs.len() && refs[k].name == Some(name)
            && forall|j: int| 0 <= j < k ==> (#[trigger] refs[j]).name != Some(name),
        forall|e: int, j: int|
            0 <= e < d && v[e].installed is Some && 0 <= j < v[e].installed.unwrap().len() ==> (
            #[trigger] v[e].installed.unwrap()[j]).name != Some(name),
        name.len() > 0,
    ensures
        ref_of(v, name, 0) == Some(v[d].installed.unwrap()[k]),
{
    found_in(v, name, 0, d, k);
}

/// The search goes on to the installation that has it.
proof fn found_in(v: Seq<InstallationView>, name: Seq<char>, from: int, d: int, k: int)
    requires
        0 <= from <= d < v.len(),
        v[d].installed matches Some(refs) && 0 <= k < refs.len() && refs[k].name == Some(name)
            && forall|j: int| 0 <= j < k ==> (#[trigger] refs[j]).name != Some(name),
        forall|e: int, j: int|
            0 <= e < d && v[e].installed is Some && 0 <= j < v[e].installed.unwrap().len() ==> (
            #[trigger] v[e].installed.unwrap()[j]).name != Some(name),
        name.len() > 0,
    ensures
        ref_of(v, name, from) == Some(v[d].installed.unwrap()[k]),
    decreases d - from,
{
    let refs = all_of(v[from].installed);
    first_ref(refs, name, 0);
    if from < d {
        if let Some(r) = ref_from(refs, name, 0) {
            let j = choose|j: int|
                0 <= j < refs.len() && (#[trigger] refs[j]).name == Some(name) && r == refs[j];
            assert(v[from].installed.unwrap()[j].name != Some(name));
        }
        found_in(v, name, from + 1, d, k);
    } else {
        ref_is_first(refs, name, 0, k);
    }
}

/// What is found has the name.
proof fn first_ref(v: Seq<InstalledRefView>, name: Seq<char>, from: int)
    requires
        0 <= from,
        name.len() > 0,
    ensures
        ref_from(v, name, from) matches Some(r) ==> exists|j: int|
            0 <= j < v.len() && (#[trigger] v[j]).name == Some(name) && r == v[j],
    decreases v.len() - from,
{
    if from < v.len() {
        if text_or(v[from].name, Seq::empty()) == name {
            assert(v[from].name == Some(name));
        } else {
            first_ref(v, name, from + 1);
        }
    }
}

/// The first of a name is found.
proof fn ref_is_first(v: Seq<InstalledRefView>, name: Seq<char>, from: int, k: int)
    requires
        0 <= from <= k < v.len(),
        v[k].name == Some(name),
        forall|j: int| 0 <= j < k ==> (#[trigger] v[j]).name != Some(name),
        name.len() > 0,
    ensures
        ref_from(v, name, from) == Some(v[k]),
    decreases k - from,
{
    if from < k {
        assert(v[from].name != Some(name));
        ref_is_first(v, name, from + 1, k);
    }
}

/// What nobody has installed is not known.
pub proof fn unknown_is_not_found(v: Seq<InstallationView>, name: Seq<char>, from: int)
    requires
        0 <= from,
        name.len() > 0,
        forall|e: int, j: int|
            0 <= e < v.len() && v[e].installed is Some && 0 <= j < v[e].installed.unwrap().len()
                ==> (#[trigger] v[e].installed.unwrap()[j]).name != Some(name),
    ensures
        ref_of(v, name, from) is None,
    decreases v.len() - from,
{
    if from < v.len() {
        let refs = all_of(v[from].installed);
        first_ref(refs, name, 0);
        if let Some(r) = ref_from(refs, name, 0) {
            let j = choose|j: int|
                0 <= j < refs.len() && (#[trigger] refs[j]).name == Some(name) && r == refs[j];
            assert(v[from].installed.unwrap()[j].name != Some(name));
        }
        unknown_is_not_found(v, name, from + 1);
    }
}

/// An application that remotes offer is available as the first of them offers it: with its
/// branch as its version, the last part of its ID as its description, and as installed
/// exactly where some installation has it.
pub proof fn first_offers_are_available(v: Seq<OfferView>, on_system: Seq<InstallationView>, i: int)
    requires
        0 <= i < v.len(),
        v[i].item.is_app,
        v[i].item.name is Some,
        forall|j: int|
            0 <= j < i ==> !((#[trigger] v[j]).item.is_app && v[j].item.name == v[i].item.name),
    ensures
        exists|k: int|
            0 <= k < available(v, on_system).len() && is_offer(
                #[trigger] available(v, on_system)[k],
                v[i],
                on_system,
            ),
    decreases v.len(),
{
    let head = v.drop_last();
    let before = available(head, on_system);
    let now = available(v, on_system);
    if i < head.len() {
        assert forall|j: int| 0 <= j < i implies !((#[trigger] head[j]).item.is_app
            && head[j].item.name == head[i].item.name) by {
            assert(head[j] == v[j]);
        }
        first_offers_are_available(head, on_system, i);
        let k = choose|k: int|
            0 <= k < before.len() && is_offer(#[trigger] before[k], v[i], on_system);
        assert(now[k] == before[k]);
    } else {
        let name = v[i].item.name.unwrap();
        available_was_offered(head, on_system);
        if package_names(before).contains(name) {
            let k = choose|k: int|
                0 <= k < package_names(before).len() && package_names(before)[k] == name;
            assert(before[k].name == name);
            let j = choose|j: int|
                0 <= j < head.len() && (#[trigger] head[j]).item.is_app && head[j].item.name == Some(
                    before[k].name,
                ) && is_offer(before[k], head[j], on_system);
            assert(v[j] == head[j]);
        }
        assert(is_offer(now[now.len() - 1], v[i], on_system));
    }
}

/// What a package that is available says of an offer.
pub open spec fn is_offer(
    p: PackageView,
    o: OfferView,
    on_system: Seq<InstallationView>,
) -> bool {
    &&& o.item.name == Some(p.name)
    &&& o.item.branch matches Some(t) ==> p.version == t
    &&& o.item.branch is None ==> p.version == "stable"@
    &&& p.description == short_name(p.name)
    &&& p.backend == PackageBackend::Flatpak
    &&& p.repository == o.remote
    &&& p.status == PackageStatus::Installed || p.status == PackageStatus::Available
    &&& p.status == PackageStatus::Installed <==> exists|e: int, j: int|
        0 <= e < on_system.len() && on_system[e].installed is Some && 0 <= j
            < on_system[e].installed.unwrap().len() && (
        #[trigger] on_system[e].installed.unwrap()[j]).is_app
            && on_system[e].installed.unwrap()[j].name == Some(p.name)
}

/// All that is available was offered, by an application and no runtime.
pub proof fn available_was_offered(v: Seq<OfferView>, on_system: Seq<InstallationView>)
    ensures
        forall|k: int|
            #![trigger available(v, on_system)[k]]
            0 <= k < available(v, on_system).len() ==> exists|j: int|
                0 <= j < v.len() && (#[trigger] v[j]).item.is_app && v[j].item.name == Some(
                    available(v, on_system)[k].name,
                ) && is_offer(available(v, on_system)[k], v[j], on_system),
    decreases v.len(),
{
    if v.len() > 0 {
        let head = v.drop_last();
        let before = available(head, on_system);
        let now = available(v, on_system);
        available_was_offered(head, on_system);
        assert forall|k: int| #![trigger now[k]] 0 <= k < now.len() implies exists|j: int|
            0 <= j < v.len() && (#[trigger] v[j]).item.is_app && v[j].item.name == Some(now[k].name)
                && is_offer(now[k], v[j], on_system) by {
            if k < before.len() {
                assert(now[k] == before[k]);
                let j = choose|j: int|
                    0 <= j < head.len() && (#[trigger] head[j]).item.is_app && head[j].item.name
                        == Some(before[k].name) && is_offer(before[k], head[j], on_system);
                assert(v[j] == head[j]);
            } else {
                let name = v.last().item.name.unwrap();
                offered_is_an_offer(v.last(), name, on_system);
                assert(v[v.len() - 1] == v.last());
            }
        }
    }
}

/// What is shown of an offer is an offer.
proof fn offered_is_an_offer(o: OfferView, name: Seq<char>, on_system: Seq<InstallationView>)
    requires
        o.item.name == Some(name),
    ensures
        is_offer(as_offered(o, name, on_system), o, on_system),
{
    if has_installed(on_system, name) {
        let e = choose|e: int|
            0 <= e < on_system.len() && has_app(all_of((#[trigger] on_system[e]).installed), name);
        let refs = all_of(on_system[e].installed);
        let j = choose|j: int|
            0 <= j < refs.len() && (#[trigger] refs[j]).is_app && refs[j].name == Some(name);
        assert(on_system[e].installed.unwrap()[j].is_app);
    }
    if exists|e: int, j: int|
        0 <= e < on_system.len() && on_system[e].installed is Some && 0 <= j
            < on_system[e].installed.unwrap().len() && (
        #[trigger] on_system[e].installed.unwrap()[j]).is_app
            && on_system[e].installed.unwrap()[j].name == Some(name) {
        let (e, j) = choose|e: int, j: int|
            0 <= e < on_system.len() && on_system[e].installed is Some && 0 <= j
                < on_system[e].installed.unwrap().len() && (
            #[trigger] on_system[e].installed.unwrap()[j]).is_app
                && on_system[e].installed.unwrap()[j].name == Some(name);
        assert(has_app(all_of(on_system[e].installed), name)) by {
            assert(all_of(on_system[e].installed)[j].is_app);
        }
    }
}

/// A search finds an offer exactly where it is an application, and in any case the query
/// occurs in its ID. It counts as installed where the installation has that application
/// with the same architecture and branch.
pub proof fn offers_are_found(
    o: OfferView,
    query: Seq<char>,
    installed: Seq<InstalledRefView>,
    name: Seq<char>,
)
    requires
        o.item.name == Some(name),
    ensures
        ({
            let r = offer_result(o, query, installed);
            &&& r is Some <==> o.item.is_app && text::has(
                text::lowercase(name),
                text::lowercase(query),
            )
            &&& r matches Some(x) ==> {
                &&& x.name == name
                &&& x.description == name
                &&& o.item.branch matches Some(t) ==> x.version == t
                &&& o.item.branch is None ==> x.version.len() == 0
                &&& x.backend == PackageBackend::Flatpak
                &&& x.repository == o.remote
                &&& x.installed_version is None
                &&& o.item.arch is Some && o.item.branch is Some ==> ((exists|k: int|
                    0 <= k < installed.len() && (#[trigger] installed[k]).is_app
                        && installed[k].name == Some(name) && installed[k].arch == o.item.arch
                        && installed[k].branch == o.item.branch) ==> x.installed)
                &&& x.installed ==> exists|k: int|
                    0 <= k < installed.len() && (#[trigger] installed[k]).is_app
                        && installed[k].name == Some(name)
            }
        }),
        ({
            let unnamed = OfferView { item: RemoteRefView { name: None, ..o.item }, ..o };
            offer_result(unnamed, query, installed) is None
        }),
{
}

/// Every offer is searched, in order.
pub proof fn all_offers_are_searched(
    v: Seq<OfferView>,
    query: Seq<char>,
    installed: Seq<InstalledRefView>,
)
    ensures
        offer_results(v, query, installed) == v.filter(
            |o: OfferView| offer_result(o, query, installed) is Some,
        ).map_values(|o: OfferView| offer_result(o, query, installed).unwrap()),
    decreases v.len(),
{
    reveal(Seq::filter);
    if v.len() > 0 {
        all_offers_are_searched(v.drop_last(), query, installed);
    }
    assert(offer_results(v, query, installed) =~= v.filter(
        |o: OfferView| offer_result(o, query, installed) is Some,
    ).map_values(|o: OfferView| offer_result(o, query, installed).unwrap()));
}

/// Of several results of one name the one that was found first is shown.
pub proof fn first_result_is_shown(v: Seq<SearchResultView>, x: int)
    requires
        0 <= x < v.len(),
        forall|j: int| 0 <= j < x ==> (#[trigger] v[j]).name != v[x].name,
    ensures
        distinct_by_name(v).contains(v[x]),
{
    let keys = result_names(v);
    let o = order::sorted_order(keys);
    let sorted = by_name(v);
    order::sorting_is_a_stable_rearrangement(keys);
    assert(result_names(sorted) =~= order::pick(keys, o));
    assert forall|j: int| 0 <= j < x implies keys[j] != keys[x] by {
        assert(v[j].name != v[x].name);
    }
    order::first_found_stays(keys, x);
    let kept = order::without_repeats(result_names(sorted), sorted.len());
    order::no_repeats_remain(result_names(sorted), sorted.len());
    let i = choose|i: int| 0 <= i < kept.len() && o[#[trigger] kept[i]] == x;
    assert(distinct_by_name(v)[i] == v[x]);
}

/// What changes applications is not carried out, the cache is cleaned unless that fails,
/// and there is nothing to do for databases and orphans.
pub proof fn operations_come_to_this(operation: OperationView, done: Done, duration_ms: u64)
    ensures
        operation.kind == OperationKind::Install || operation.kind == OperationKind::Remove
            || operation.kind == OperationKind::RemoveWithDeps || operation.kind
            == OperationKind::Update || operation.kind == OperationKind::SystemUpgrade ==> result(
            operation,
            done,
            duration_ms,
        ) == Ok::<OperationResultView, ErrorView>(
            operation::failed(
                operation,
                "Flatpak operations require further implementation"@,
                duration_ms,
            ),
        ),
        operation.kind == OperationKind::SyncDatabases || operation.kind
            == OperationKind::RemoveOrphans ==> result(operation, done, duration_ms) == Ok::<
            OperationResultView,
            ErrorView,
        >(operation::succeeded(operation, Seq::empty(), duration_ms)),
        operation.kind == OperationKind::CleanCache ==> (match done {
            Done::Cleaned(Err(e)) => result(operation, done, duration_ms) == Err::<
                OperationResultView,
                ErrorView,
            >(e@),
            Done::Cleaned(Ok(_)) => result(operation, done, duration_ms) == Ok::<
                OperationResultView,
                ErrorView,
            >(operation::succeeded(operation, Seq::empty(), duration_ms)),
            _ => true,
        }),
{
}

/// What is known of an application that is installed: what its list shows, its size and its
/// architecture.
pub proof fn details_are_reported(r: InstalledRefView)
    ensures
        as_info(r).package == as_package(r),
        as_info(r).installed_size == r.installed_size,
        as_info(r).download_size == 0,
        r.arch matches Some(t) ==> as_info(r).arch == t,
        r.arch is None ==> as_info(r).arch.len() == 0,
        as_info(r).url is None,
        as_info(r).packager is None,
        as_info(r).reason is None,
        as_info(r).build_date is None,
        as_info(r).install_date is None,
        as_info(r).licenses.len() == 0,
        as_info(r).depends.len() == 0,
{
}

/// The backend of applications: only to clean the cache has something to be done first.
pub proof fn flatpak_needs_its_work(b: FlatpakBackend, kind: OperationKind)
    ensures
        b.id() == "flatpak"@,
        b.title() == "Flatpak"@,
        b.needed(OperationKind::CleanCache) == Work::CleanCache(0),
        kind != OperationKind::CleanCache ==> b.needed(kind) == Work::Nothing,
{
}

/// An offer counts as installed exactly where the installation has that application, of the
/// same architecture and of the same branch.
pub proof fn offers_are_compared_by_branch(
    o: OfferView,
    query: Seq<char>,
    installed: Seq<InstalledRefView>,
)
    requires
        offer_result(o, query, installed) is Some,
        o.item.arch matches Some(a) && a.len() > 0,
        o.item.branch matches Some(b) && b.len() > 0,
    ensures
        offer_result(o, query, installed).unwrap().installed <==> exists|k: int|
            0 <= k < installed.len() && (#[trigger] installed[k]).is_app && installed[k].name
                == o.item.name && installed[k].arch == o.item.arch && installed[k].branch
                == o.item.branch,
{
    let x = offer_result(o, query, installed).unwrap();
    if x.installed {
        let k = choose|k: int|
            0 <= k < installed.len() && (#[trigger] installed[k]).is_app && installed[k].name
                == o.item.name && text_or(installed[k].arch, Seq::empty()) == o.item.arch.unwrap()
                && text_or(installed[k].branch, Seq::empty()) == o.item.branch.unwrap();
        assert(installed[k].arch == o.item.arch && installed[k].branch == o.item.branch);
    }
}

} // verus!
