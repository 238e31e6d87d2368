//! Package manager orchestrator: what all backends together report.
use crate::alpm::AlpmBackend;
use crate::cache;
use crate::error::{Error, ErrorView};
use crate::flatpak;
use crate::flatpak::FlatpakBackend;
use crate::operation::{OperationProgress, OperationProgressView, OperationResult, OperationResultView};
use crate::order;
use crate::package;
use crate::package::{
    Package, PackageBackend, PackageInfo, PackageView, SearchResult, SearchResultView, UpdateInfo, UpdateInfoView,
};
use crate::state;
use crate::state::{AppState, AppStateView};
use crate::text;
use vstd::prelude::*;
use vstd::string::*;

verus! {

broadcast use vstd::seq_lib::group_seq_properties;

/// Message types for progress updates.
#[derive(Debug)]
pub enum ProgressMessage {
    /// Operation progress update.
    Progress(OperationProgress),
    /// Operation completed.
    Completed(OperationResult),
    /// Error occurred.
    Error(String),
}

/// What a `ProgressMessage` says.
#[verifier::ext_equal]
pub enum ProgressMessageView {
    Progress(OperationProgressView),
    Completed(OperationResultView),
    Error(Seq<char>),
}

impl View for ProgressMessage {
    type V = ProgressMessageView;

    open spec fn view(&self) -> ProgressMessageView {
        match *self {
            ProgressMessage::Progress(p) => ProgressMessageView::Progress(p@),
            ProgressMessage::Completed(r) => ProgressMessageView::Completed(r@),
            ProgressMessage::Error(s) => ProgressMessageView::Error(s@),
        }
    }
}

/// The backends that could be set up.
#[derive(Debug)]
pub struct BackendSet {
    /// The backend for pacman.
    pub alpm: Option<AlpmBackend>,
    /// The backend for Flatpak.
    pub flatpak: Option<FlatpakBackend>,
}

impl BackendSet {
    /// Whether a backend is there.
    pub open spec fn has(&self, backend: PackageBackend) -> bool {
        match backend {
            PackageBackend::Pacman => self.alpm is Some,
            PackageBackend::Flatpak => self.flatpak is Some,
        }
    }

    /// The backends that are there: pacman, then Flatpak.
    pub open spec fn kinds(&self) -> Seq<PackageBackend> {
        (if self.alpm is Some {
            seq![PackageBackend::Pacman]
        } else {
            Seq::empty()
        }) + (if self.flatpak is Some {
            seq![PackageBackend::Flatpak]
        } else {
            Seq::empty()
        })
    }

    /// The backends that could be set up; one that could not is left out.
    pub fn new(alpm: Result<AlpmBackend, Error>, flatpak: Result<FlatpakBackend, Error>) -> (r:
        BackendSet)
        ensures
            r.alpm == (match alpm {
                Ok(b) => Some(b),
                Err(_) => None,
            }),
            r.flatpak == (match flatpak {
                Ok(b) => Some(b),
                Err(_) => None,
            }),
    {
        BackendSet {
            alpm: match alpm {
                Ok(b) => Some(b),
                Err(_) => None,
            },
            flatpak: match flatpak {
                Ok(b) => Some(b),
                Err(_) => None,
            },
        }
    }

    /// The backends that are there, in the order in which they are asked.
    pub fn refs(&self) -> (r: Vec<PackageBackend>)
        ensures
            r@ == self.kinds(),
    {
        let mut r: Vec<PackageBackend> = Vec::new();
        if self.alpm.is_some() {
            r.push(PackageBackend::Pacman);
        }
        if self.flatpak.is_some() {
            r.push(PackageBackend::Flatpak);
        }
        assert(r@ =~= self.kinds());
        r
    }

    /// Whether a backend is there to be asked.
    pub fn get(&self, backend: PackageBackend) -> (r: Result<PackageBackend, Error>)
        ensures
            match r {
                Ok(b) => self.has(backend) && b == backend,
                Err(e) => !self.has(backend) && e@ == unavailable(backend),
            },
    {
        match backend {
            PackageBackend::Pacman => if self.alpm.is_some() {
                Ok(backend)
            } else {
                Err(Error::BackendUnavailable("Pacman".to_owned()))
            },
            PackageBackend::Flatpak => if self.flatpak.is_some() {
                Ok(backend)
            } else {
                Err(Error::BackendUnavailable("Flatpak".to_owned()))
            },
        }
    }
}

/// The error for a backend that is not there.
pub open spec fn unavailable(backend: PackageBackend) -> ErrorView {
    ErrorView::BackendUnavailable(
        match backend {
            PackageBackend::Pacman => "Pacman"@,
            PackageBackend::Flatpak => "Flatpak"@,
        },
    )
}

/// The search results of the backends that answered.
pub open spec fn found(v: Seq<Result<Vec<SearchResult>, Error>>) -> Seq<SearchResultView>
    decreases v.len(),
{
    if v.len() == 0 {
        Seq::empty()
    } else {
        found(v.drop_last()) + match v.last() {
            Ok(list) => package::results(list@),
            Err(_) => Seq::empty(),
        }
    }
}

/// The packages of the backends that answered.
pub open spec fn reported(v: Seq<Result<Vec<Package>, Error>>) -> Seq<PackageView>
    decreases v.len(),
{
    if v.len() == 0 {
        Seq::empty()
    } else {
        reported(v.drop_last()) + match v.last() {
            Ok(list) => package::packages(list@),
            Err(_) => Seq::empty(),
        }
    }
}

/// The updates of the backends that answered.
pub open spec fn offered(v: Seq<Result<Vec<UpdateInfo>, Error>>) -> Seq<UpdateInfoView>
    decreases v.len(),
{
    if v.len() == 0 {
        Seq::empty()
    } else {
        offered(v.drop_last()) + match v.last() {
            Ok(list) => package::updates(list@),
            Err(_) => Seq::empty(),
        }
    }
}

/// Packages in the order of their names.
pub open spec fn by_name(v: Seq<PackageView>) -> Seq<PackageView> {
    order::pick(v, order::sorted_order(flatpak::package_names(v)))
}

/// The sizes that the backends answered; one that did not counts for nothing.
pub open spec fn sizes(v: Seq<Result<u64, Error>>) -> Seq<u64> {
    v.map_values(
        |r: Result<u64, Error>|
            match r {
                Ok(n) => n,
                Err(_) => 0,
            },
    )
}

/// Sorts packages by their names.
fn sort_packages(v: &Vec<Package>) -> (r: Vec<Package>)
    ensures
        package::packages(r@) == by_name(package::packages(v@)),
{
    let ghost wanted = flatpak::package_names(package::packages(v@));
    let mut names: Vec<Vec<char>> = Vec::new();
    let mut i: usize = 0;
    while i < v.len()
        invariant
            i <= v@.len(),
            names@.len() == i,
            wanted == flatpak::package_names(package::packages(v@)),
            text::texts(names@) == wanted.take(i as int),
        decreases v@.len() - i,
    {
        let ghost before = text::texts(names@);
        let name = text::chars_of(v[i].name.as_str());
        names.push(name);
        assert(wanted[i as int] == name@);
        assert(text::texts(names@) =~= before.push(name@));
        i += 1;
    }
    assert(wanted.take(wanted.len() as int) =~= wanted);
    let o = order::stable_order(&names);
    flatpak::pick_packages(v, &o)
}

/// The main package manager that orchestrates all backends.
#[derive(Debug)]
pub struct PackageManager {
    /// The backends.
    pub backends: BackendSet,
    /// The state of the application.
    pub app_state: AppState,
}

impl PackageManager {
    /// Creates a new package manager from the backends that could be set up, which always
    /// succeeds.
    pub fn new(alpm: Result<AlpmBackend, Error>, flatpak: Result<FlatpakBackend, Error>) -> (r: Result<
        PackageManager,
        Error,
    >)
        ensures
            r matches Ok(m) && m.app_state@ == state::fresh() && m.backends.alpm == (match alpm {
                Ok(b) => Some(b),
                Err(_) => None,
            }) && m.backends.flatpak == (match flatpak {
                Ok(b) => Some(b),
                Err(_) => None,
            }),
    {
        Ok(PackageManager { backends: BackendSet::new(alpm, flatpak), app_state: AppState::new() })
    }

    /// Gets the current app state.
    pub fn state(&self) -> (r: AppState)
        ensures
            r@ == self.app_state@,
    {
        self.app_state.clone()
    }

    /// Checks which backends are available, given what those that are there answered.
    pub fn available_backends(&self, alpm_answer: bool, flatpak_answer: bool) -> (r: Vec<
        PackageBackend,
    >)
        ensures
            r@ == (if self.backends.alpm is Some && alpm_answer {
                seq![PackageBackend::Pacman]
            } else {
                Seq::empty()
            }) + (if self.backends.flatpak is Some && flatpak_answer {
                seq![PackageBackend::Flatpak]
            } else {
                Seq::empty()
            }),
    {
        let mut r: Vec<PackageBackend> = Vec::new();
        if self.backends.alpm.is_some() && alpm_answer {
            r.push(PackageBackend::Pacman);
        }
        if self.backends.flatpak.is_some() && flatpak_answer {
            r.push(PackageBackend::Flatpak);
        }
        assert(r@ =~= (if self.backends.alpm is Some && alpm_answer {
            seq![PackageBackend::Pacman]
        } else {
            Seq::empty()
        }) + (if self.backends.flatpak is Some && flatpak_answer {
            seq![PackageBackend::Flatpak]
        } else {
            Seq::empty()
        }));
        r
    }

    /// Searches for packages across all backends, given their answers in order: what was
    /// found, sorted by name.
    pub fn search(answers: Vec<Result<Vec<SearchResult>, Error>>) -> (r: Vec<SearchResult>)
        ensures
            package::results(r@) == flatpak::by_name(found(answers@)),
    {
        let mut all: Vec<SearchResult> = Vec::new();
        let mut i: usize = 0;
        assert(answers@.take(0) =~= Seq::empty());
        assert(package::results(all@) =~= Seq::empty());
        while i < answers.len()
            invariant
                i <= answers@.len(),
                package::results(all@) == found(answers@.take(i as int)),
            decreases answers@.len() - i,
        {
            let ghost before = package::results(all@);
            assert(answers@.take(i + 1).drop_last() =~= answers@.take(i as int));
            match &answers[i] {
                Ok(list) => {
                    let mut copy = package::clone_results(list);
                    let ghost more = package::results(copy@);
                    all.append(&mut copy);
                    assert(package::results(all@) =~= before + more);
                },
                Err(_) => {
                    assert(before =~= before + Seq::<SearchResultView>::empty());
                },
            }
            i += 1;
        }
        assert(answers@.take(answers@.len() as int) =~= answers@);
        flatpak::sort_results(&all)
    }

    /// Lists all installed packages, given the answers of the backends in order: sorted by
    /// name.
    pub fn list_installed(answers: Vec<Result<Vec<Package>, Error>>) -> (r: Vec<Package>)
        ensures
            package::packages(r@) == by_name(reported(answers@)),
    {
        let all = collect_packages(&answers);
        sort_packages(&all)
    }

    /// Lists available updates, given the answers of the backends in order.
    pub fn list_updates(answers: Vec<Result<Vec<UpdateInfo>, Error>>) -> (r: Vec<UpdateInfo>)
        ensures
            package::updates(r@) == offered(answers@),
    {
        let mut all: Vec<UpdateInfo> = Vec::new();
        let mut i: usize = 0;
        assert(answers@.take(0) =~= Seq::empty());
        assert(package::updates(all@) =~= Seq::empty());
        while i < answers.len()
            invariant
                i <= answers@.len(),
                package::updates(all@) == offered(answers@.take(i as int)),
            decreases answers@.len() - i,
        {
            let ghost before = package::updates(all@);
            assert(answers@.take(i + 1).drop_last() =~= answers@.take(i as int));
            match &answers[i] {
                Ok(list) => {
                    let mut copy = package::clone_updates(list);
                    let ghost more = package::updates(copy@);
                    all.append(&mut copy);
                    assert(package::updates(all@) =~= before + more);
                },
                Err(_) => {
                    assert(before =~= before + Seq::<UpdateInfoView>::empty());
                },
            }
            i += 1;
        }
        assert(answers@.take(answers@.len() as int) =~= answers@);
        all
    }

    /// Lists orphan packages, given the answer of the backend for pacman where it is there.
    pub fn list_orphans(answer: Option<Result<Vec<Package>, Error>>) -> (r: Vec<Package>)
        ensures
            package::packages(r@) == (match answer {
                Some(Ok(v)) => package::packages(v@),
                _ => Seq::empty(),
            }),
    {
        match answer {
            Some(Ok(v)) => v,
            _ => {
                let r: Vec<Package> = Vec::new();
                assert(package::packages(r@) =~= Seq::empty());
                r
            },
        }
    }

    /// What a backend answered, where it is there.
    fn of_backend<T>(&self, backend: PackageBackend, answer: Result<T, Error>) -> (r: Result<
        T,
        Error,
    >)
        ensures
            self.backends.has(backend) ==> r == answer,
            !self.backends.has(backend) ==> (r matches Err(e) && e@ == unavailable(backend)),
    {
        match self.backends.get(backend) {
            Ok(_) => answer,
            Err(e) => Err(e),
        }
    }

    /// Searches within a specific backend, given what it answers where it is there.
    pub fn search_backend(
        &self,
        backend: PackageBackend,
        answer: Result<Vec<SearchResult>, Error>,
    ) -> (r: Result<Vec<SearchResult>, Error>)
        ensures
            self.backends.has(backend) ==> r == answer,
            !self.backends.has(backend) ==> (r matches Err(e) && e@ == unavailable(backend)),
    {
        self.of_backend(backend, answer)
    }

    /// Lists installed packages from a specific backend, given what it answers where it is
    /// there.
    pub fn list_installed_backend(
        &self,
        backend: PackageBackend,
        answer: Result<Vec<Package>, Error>,
    ) -> (r: Result<Vec<Package>, Error>)
        ensures
            self.backends.has(backend) ==> r == answer,
            !self.backends.has(backend) ==> (r matches Err(e) && e@ == unavailable(backend)),
    {
        self.of_backend(backend, answer)
    }

    /// Gets detailed package information, given what the backend answers where it is there.
    pub fn get_package_info(&self, backend: PackageBackend, answer: Result<PackageInfo, Error>) -> (r:
        Result<PackageInfo, Error>)
        ensures
            self.backends.has(backend) ==> r == answer,
            !self.backends.has(backend) ==> (r matches Err(e) && e@ == unavailable(backend)),
    {
        self.of_backend(backend, answer)
    }

    /// Executes a package operation, given what the backend answers where it is there. A
    /// result is remembered, and the message announces it.
    pub fn execute(&mut self, backend: PackageBackend, answer: Result<OperationResult, Error>) -> (r: (
        Result<OperationResult, Error>,
        Option<ProgressMessage>,
    ))
        ensures
            final(self).backends == old(self).backends,
            !old(self).backends.has(backend) ==> (r.0 matches Err(e) && e@ == unavailable(
                backend,
            )),
            old(self).backends.has(backend) ==> r.0 == answer,
            match r.0 {
                Ok(result) => {
                    &&& final(self).app_state@ == (AppStateView {
                        last_operation: Some(result@),
                        ..old(self).app_state@
                    })
                    &&& r.1 matches Some(m) && m@ == ProgressMessageView::Completed(result@)
                },
                Err(_) => final(self).app_state == old(self).app_state && r.1 is None,
            },
    {
        let known = self.of_backend(backend, answer);
        match known {
            Ok(result) => {
                let message = self.complete(result.clone());
                (Ok(result), Some(message))
            },
            Err(e) => (Err(e), None),
        }
    }

    /// Syncs all databases, given what the backend for pacman answers where it is there.
    pub fn sync_databases(&self, answer: Result<(), Error>) -> (r: Result<(), Error>)
        ensures
            r == (if self.backends.alpm is Some {
                answer
            } else {
                Ok(())
            }),
    {
        if self.backends.alpm.is_some() {
            answer
        } else {
            Ok(())
        }
    }

    /// The result of an operation: it is remembered and announced.
    fn complete(&mut self, result: OperationResult) -> (r: ProgressMessage)
        ensures
            final(self).app_state@ == (AppStateView {
                last_operation: Some(result@),
                ..old(self).app_state@
            }),
            final(self).backends == old(self).backends,
            r@ == ProgressMessageView::Completed(result@),
    {
        self.app_state.last_operation = Some(result.clone());
        ProgressMessage::Completed(result)
    }

    /// Cleans package caches: the bytes that were freed in all, given the answers of the
    /// backends, where the sum fits.
    pub fn clean_caches(answers: &Vec<Result<u64, Error>>) -> (r: Option<u64>)
        ensures
            match r {
                Some(n) => n == cache::sum(sizes(answers@)),
                None => cache::sum(sizes(answers@)) > u64::MAX,
            },
    {
        PackageManager::get_cache_size(answers)
    }

    /// Gets total cache size, given the answers of the backends, where the sum fits.
    pub fn get_cache_size(answers: &Vec<Result<u64, Error>>) -> (r: Option<u64>)
        ensures
            match r {
                Some(n) => n == cache::sum(sizes(answers@)),
                None => cache::sum(sizes(answers@)) > u64::MAX,
            },
    {
        let ghost wanted = sizes(answers@);
        let mut v: Vec<u64> = Vec::new();
        let mut i: usize = 0;
        while i < answers.len()
            invariant
                i <= answers@.len(),
                wanted == sizes(answers@),
                v@ == wanted.take(i as int),
            decreases answers@.len() - i,
        {
            let n: u64 = match &answers[i] {
                Ok(n) => *n,
                Err(_) => 0,
            };
            v.push(n);
            assert(wanted[i as int] == n);
            assert(wanted.take(i + 1) =~= wanted.take(i as int).push(n));
            i += 1;
        }
        assert(wanted.take(wanted.len() as int) =~= wanted);
        cache::total_size(&v)
    }

    /// Gets statistics about installed packages, given how many of each kind the backends
    /// reported. What was not reported counts as none.
    pub fn get_stats(
        pacman_installed: Option<usize>,
        pacman_updates: Option<usize>,
        orphans: Option<usize>,
        flatpak_installed: Option<usize>,
        flatpak_updates: Option<usize>,
    ) -> (r: PackageStats)
        ensures
            r == (PackageStats {
                pacman_installed: or_none(pacman_installed),
                pacman_updates: or_none(pacman_updates),
                flatpak_installed: or_none(flatpak_installed),
                flatpak_updates: or_none(flatpak_updates),
                orphans: or_none(orphans),
            }),
    {
        PackageStats {
            pacman_installed: count(pacman_installed),
            pacman_updates: count(pacman_updates),
            flatpak_installed: count(flatpak_installed),
            flatpak_updates: count(flatpak_updates),
            orphans: count(orphans),
        }
    }
}

/// The packages of the backends that answered.
fn collect_packages(answers: &Vec<Result<Vec<Package>, Error>>) -> (r: Vec<Package>)
    ensures
        package::packages(r@) == reported(answers@),
{
    let mut all: Vec<Package> = Vec::new();
    let mut i: usize = 0;
    assert(answers@.take(0) =~= Seq::empty());
    assert(package::packages(all@) =~= Seq::empty());
    while i < answers.len()
        invariant
            i <= answers@.len(),
            package::packages(all@) == reported(answers@.take(i as int)),
        decreases answers@.len() - i,
    {
        let ghost before = package::packages(all@);
        assert(answers@.take(i + 1).drop_last() =~= answers@.take(i as int));
        match &answers[i] {
            Ok(list) => {
                let mut copy = package::clone_packages(list);
                let ghost more = package::packages(copy@);
                all.append(&mut copy);
                assert(package::packages(all@) =~= before + more);
            },
            Err(_) => {
                assert(before =~= before + Seq::<PackageView>::empty());
            },
        }
        i += 1;
    }
    assert(answers@.take(answers@.len() as int) =~= answers@);
    all
}

/// A number, or none.
pub open spec fn or_none(o: Option<usize>) -> usize {
    match o {
        Some(n) => n,
        None => 0,
    }
}

/// A number, or none.
fn count(o: Option<usize>) -> (r: usize)
    ensures
        r == or_none(o),
{
    match o {
        Some(n) => n,
        None => 0,
    }
}

/// Statistics about installed packages.
#[derive(Debug, Clone, Copy)]
pub struct PackageStats {
    /// Number of installed pacman packages.
    pub pacman_installed: usize,
    /// Number of available pacman updates.
    pub pacman_updates: usize,
    /// Number of installed flatpak apps.
    pub flatpak_installed: usize,
    /// Number of available flatpak updates.
    pub flatpak_updates: usize,
    /// Number of orphan packages.
    pub orphans: usize,
}

impl Default for PackageStats {
    fn default() -> (r: PackageStats)
        ensures
            r == (PackageStats {
                pacman_installed: 0,
                pacman_updates: 0,
                flatpak_installed: 0,
                flatpak_updates: 0,
                orphans: 0,
            }),
    {
        PackageStats {
            pacman_installed: 0,
            pacman_updates: 0,
            flatpak_installed: 0,
            flatpak_updates: 0,
            orphans: 0,
        }
    }
}

impl PackageStats {
    /// Total installed packages.
    pub fn total_installed(&self) -> (r: usize)
        requires
            self.pacman_installed + self.flatpak_installed <= usize::MAX,
        ensures
            r == self.pacman_installed + self.flatpak_installed,
    {
        self.pacman_installed + self.flatpak_installed
    }

    /// Total available updates.
    pub fn total_updates(&self) -> (r: usize)
        requires
            self.pacman_updates + self.flatpak_updates <= usize::MAX,
        ensures
            r == self.pacman_updates + self.flatpak_updates,
    {
        self.pacman_updates + self.flatpak_updates
    }
}

/// What one backend fails to answer takes nothing away from what the others do.
pub proof fn failures_hide_nothing(v: Seq<Result<Vec<SearchResult>, Error>>, i: int)
    requires
        0 <= i < v.len(),
        v[i] is Ok,
    ensures
        forall|r: SearchResultView| #[trigger]
            package::results(v[i]->Ok_0@).contains(r) ==> found(v).contains(r),
    decreases v.len(),
{
    let head = found(v.drop_last());
    let tail = match v.last() {
        Ok(list) => package::results(list@),
        Err(_) => Seq::empty(),
    };
    if i < v.len() - 1 {
        failures_hide_nothing(v.drop_last(), i);
    }
    assert forall|r: SearchResultView| #[trigger]
        package::results(v[i]->Ok_0@).contains(r) implies found(v).contains(r) by {
        if i < v.len() - 1 {
            assert(v.drop_last()[i] == v[i]);
            let k = choose|k: int| 0 <= k < head.len() && head[k] == r;
            assert((head + tail)[k] == r);
        } else {
            let k = choose|k: int| 0 <= k < tail.len() && tail[k] == r;
            assert((head + tail)[head.len() + k] == r);
        }
    }
}

/// What is shown of a search is what was found, in the order of the names.
pub proof fn search_is_sorted(v: Seq<Result<Vec<SearchResult>, Error>>)
    ensures
        flatpak::by_name(found(v)).len() == found(v).len(),
        forall|i: int, j: int|
            #![trigger flatpak::by_name(found(v))[i], flatpak::by_name(found(v))[j]]
            0 <= i < j < found(v).len() ==> order::lex_le(
                flatpak::by_name(found(v))[i].name,
                flatpak::by_name(found(v))[j].name,
            ),
        forall|r: SearchResultView| #[trigger]
            found(v).contains(r) <==> flatpak::by_name(found(v)).contains(r),
{
    let all = found(v);
    let keys = flatpak::result_names(all);
    order::sorting_is_a_stable_rearrangement(keys);
    let o = order::sorted_order(keys);
    let sorted = flatpak::by_name(all);
    assert forall|i: int, j: int| #![trigger sorted[i], sorted[j]] 0 <= i < j < all.len() implies order::lex_le(
        sorted[i].name,
        sorted[j].name,
    ) by {
        assert(order::lex_le(keys[o[i]], keys[o[j]]));
    }
    order::picking_keeps_all(all, o);
}

/// What is listed as installed is what the backends reported, in the order of the names.
pub proof fn installed_is_sorted(v: Seq<Result<Vec<Package>, Error>>)
    ensures
        by_name(reported(v)).len() == reported(v).len(),
        forall|i: int, j: int|
            #![trigger by_name(reported(v))[i], by_name(reported(v))[j]]
            0 <= i < j < reported(v).len() ==> order::lex_le(
                by_name(reported(v))[i].name,
                by_name(reported(v))[j].name,
            ),
        forall|p: PackageView| #[trigger]
            reported(v).contains(p) <==> by_name(reported(v)).contains(p),
{
    let all = reported(v);
    let keys = flatpak::package_names(all);
    order::sorting_is_a_stable_rearrangement(keys);
    let o = order::sorted_order(keys);
    let sorted = by_name(all);
    assert forall|i: int, j: int| #![trigger sorted[i], sorted[j]] 0 <= i < j < all.len() implies order::lex_le(
        sorted[i].name,
        sorted[j].name,
    ) by {
        assert(order::lex_le(keys[o[i]], keys[o[j]]));
    }
    order::picking_keeps_all(all, o);
}

/// All that every source answers counts, in the order of the sources; one that fails adds
/// nothing.
pub proof fn every_answer_counts(
    search: Seq<Result<Vec<SearchResult>, Error>>,
    results: Result<Vec<SearchResult>, Error>,
    lists: Seq<Result<Vec<Package>, Error>>,
    list: Result<Vec<Package>, Error>,
    offers: Seq<Result<Vec<UpdateInfo>, Error>>,
    offer: Result<Vec<UpdateInfo>, Error>,
)
    ensures
        found(Seq::empty()).len() == 0,
        reported(Seq::empty()).len() == 0,
        offered(Seq::empty()).len() == 0,
        results is Err ==> found(search.push(results)) == found(search),
        list is Err ==> reported(lists.push(list)) == reported(lists),
        offer is Err ==> offered(offers.push(offer)) == offered(offers),
        results matches Ok(v) ==> found(search.push(results)) == found(search) + v@.map_values(
            |x: SearchResult| x@,
        ),
        list matches Ok(v) ==> reported(lists.push(list)) == reported(lists) + v@.map_values(
            |x: Package| x@,
        ),
        offer matches Ok(v) ==> offered(offers.push(offer)) == offered(offers) + v@.map_values(
            |x: UpdateInfo| x@,
        ),
{
    assert(search.push(results).drop_last() =~= search);
    assert(lists.push(list).drop_last() =~= lists);
    assert(offers.push(offer).drop_last() =~= offers);
    if let Ok(v) = results {
        assert(package::results(v@) =~= v@.map_values(|x: SearchResult| x@));
    } else {
        assert(found(search.push(results)) =~= found(search));
    }
    if let Ok(v) = list {
        assert(package::packages(v@) =~= v@.map_values(|x: Package| x@));
    } else {
        assert(reported(lists.push(list)) =~= reported(lists));
    }
    if let Ok(v) = offer {
        assert(package::updates(v@) =~= v@.map_values(|x: UpdateInfo| x@));
    } else {
        assert(offered(offers.push(offer)) =~= offered(offers));
    }
}

/// The sizes of the caches add up; a cache whose size is not known counts for nothing.
pub proof fn every_cache_counts(v: Seq<Result<u64, Error>>, next: Result<u64, Error>)
    ensures
        cache::sum(sizes(Seq::empty())) == 0,
        next matches Ok(n) ==> cache::sum(sizes(v.push(next))) == cache::sum(sizes(v)) + n,
        next is Err ==> cache::sum(sizes(v.push(next))) == cache::sum(sizes(v)),
{
    let now = sizes(v.push(next));
    assert(now.drop_last() =~= sizes(v));
    assert(sizes(Seq::empty()) =~= Seq::<u64>::empty());
}

/// The sources that there are come with the system's packages first, and a source is asked
/// exactly where there is one.
pub proof fn sources_are_known(s: BackendSet)
    ensures
        s.has(PackageBackend::Pacman) <==> s.alpm is Some,
        s.has(PackageBackend::Flatpak) <==> s.flatpak is Some,
        s.alpm is Some && s.flatpak is Some ==> s.kinds() == seq![
            PackageBackend::Pacman,
            PackageBackend::Flatpak,
        ],
        s.alpm is Some && s.flatpak is None ==> s.kinds() == seq![PackageBackend::Pacman],
        s.alpm is None && s.flatpak is Some ==> s.kinds() == seq![PackageBackend::Flatpak],
        s.alpm is None && s.flatpak is None ==> s.kinds().len() == 0,
        unavailable(PackageBackend::Pacman) == ErrorView::BackendUnavailable("Pacman"@),
        unavailable(PackageBackend::Flatpak) == ErrorView::BackendUnavailable("Flatpak"@),
{
    assert(seq![PackageBackend::Pacman] + seq![PackageBackend::Flatpak] =~= seq![
        PackageBackend::Pacman,
        PackageBackend::Flatpak,
    ]);
    assert(seq![PackageBackend::Pacman] + Seq::<PackageBackend>::empty() =~= seq![
        PackageBackend::Pacman,
    ]);
    assert(Seq::<PackageBackend>::empty() + seq![PackageBackend::Flatpak] =~= seq![
        PackageBackend::Flatpak,
    ]);
}

/// What is not known counts for nothing.
pub proof fn known_counts_are_kept(n: usize)
    ensures
        or_none(Some(n)) == n,
        or_none(None) == 0,
{
}

} // verus!
