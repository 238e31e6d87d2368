//! Cache management for pacman packages.
use crate::error::{Error, ErrorView};
use crate::package;
use crate::text;
use crate::text::Sep;
use vstd::prelude::*;
use vstd::set_lib::*;
use vstd::string::*;

verus! {

broadcast use vstd::seq_lib::group_seq_properties;

/// Manages the pacman package cache.
#[derive(Debug)]
pub struct CacheManager {
    /// The directories of the cache.
    pub cache_dirs: Vec<String>,
}

/// Represents a cached package file.
#[derive(Debug)]
pub struct CachedPackage {
    /// Full path to the cached package.
    pub path: String,
    /// Filename.
    pub filename: String,
    /// File size in bytes.
    pub size: u64,
}

/// What a `CachedPackage` holds.
#[verifier::ext_equal]
pub struct CachedPackageView {
    pub path: Seq<char>,
    pub filename: Seq<char>,
    pub size: u64,
}

impl View for CachedPackage {
    type V = CachedPackageView;

    open spec fn view(&self) -> CachedPackageView {
        CachedPackageView { path: self.path@, filename: self.filename@, size: self.size }
    }
}

/// What a list of cached packages holds.
pub open spec fn cached(v: Seq<CachedPackage>) -> Seq<CachedPackageView> {
    v.map_values(|p: CachedPackage| p@)
}

/// A part of a file name that starts with a digit.
pub open spec fn starts_version(part: Seq<char>) -> bool {
    part.len() > 0 && text::is_digit(part[0])
}

/// The place of the first part at or behind `from` that starts with a digit.
pub open spec fn version_place(parts: Seq<Seq<char>>, from: int) -> Option<int>
    decreases parts.len() - from,
{
    if from < 0 || from >= parts.len() {
        None
    } else if starts_version(parts[from]) {
        Some(from)
    } else {
        version_place(parts, from + 1)
    }
}

/// Parts that hold a version: the first of them that starts with a digit has others in
/// front of it.
pub open spec fn holds_version(parts: Seq<Seq<char>>) -> bool {
    version_place(parts, 0) matches Some(i) && i > 0
}

/// The package name in a file name such as `name-version-release-arch.pkg.tar.zst`: the
/// parts in front of the last three, which are the version, the release and the
/// architecture. There have to be four parts, and they have to hold a version: a file
/// whose name starts with a digit counts as one without a package name.
pub open spec fn package_name(filename: Seq<char>) -> Option<Seq<char>> {
    match text::find_from(filename, ".pkg.tar"@, 0) {
        Some(at) => {
            let parts = text::split(filename.take(at), Sep::At('-'));
            if parts.len() >= 4 && holds_version(parts) {
                Some(text::join(parts.take(parts.len() - 3), seq!['-']))
            } else {
                None
            }
        },
        None => None,
    }
}

/// A base name such as `name-version-release-arch`.
pub open spec fn base_name(
    name: Seq<char>,
    version: Seq<char>,
    release: Seq<char>,
    arch: Seq<char>,
) -> Seq<char> {
    name.push('-') + version.push('-') + release.push('-') + arch
}

/// The parts of a base name are those of the name, and the three behind it.
pub proof fn base_name_parts(
    name: Seq<char>,
    version: Seq<char>,
    release: Seq<char>,
    arch: Seq<char>,
)
    requires
        !version.contains('-'),
        !release.contains('-'),
        !arch.contains('-'),
    ensures
        text::split(base_name(name, version, release, arch), Sep::At('-')) == text::split(
            name,
            Sep::At('-'),
        ).push(version).push(release).push(arch),
{
    text::split_appended(name, '-', version);
    let two = name.push('-') + version;
    text::split_appended(two, '-', release);
    let three = two.push('-') + release;
    text::split_appended(three, '-', arch);
    assert(three.push('-') + arch =~= base_name(name, version, release, arch));
}

/// The first extension of a package stands behind the base name, where that holds none.
proof fn extension_is_found(base: Seq<char>, rest: Seq<char>)
    requires
        !text::has(base, ".pkg.tar"@),
    ensures
        text::find_from(base + ".pkg.tar"@ + rest, ".pkg.tar"@, 0) == Some(base.len() as int),
{
    let mark = ".pkg.tar"@;
    let all = base + mark + rest;
    let n = base.len() as int;
    reveal_strlit(".pkg.tar");
    assert(text::occurs_at(all, mark, n)) by {
        assert(all.subrange(n, n + mark.len()) =~= mark);
    }
    assert forall|j: int| 0 <= j < n implies !text::occurs_at(all, mark, j) by {
        if text::occurs_at(all, mark, j) {
            let there = all.subrange(j, j + mark.len());
            if j + mark.len() <= n {
                assert(base.subrange(j, j + mark.len()) =~= there);
                assert(text::occurs_at(base, mark, j));
            } else {
                assert(there[n - j] == all[n]);
                assert(all[n] == mark[0]);
                if n - j == 4 {
                    assert(there[5] == all[n + 1]);
                    assert(all[n + 1] == mark[1]);
                }
            }
        }
    }
    text::find_from_is_first(all, mark, 0);
}

/// Of the files of a package the name is read, whatever it holds: from a file name
/// `name-version-release-arch.pkg.tar.zst`, or one with another ending, that holds a
/// version.
pub proof fn names_are_extracted(
    name: Seq<char>,
    version: Seq<char>,
    release: Seq<char>,
    arch: Seq<char>,
    ending: Seq<char>,
)
    requires
        !version.contains('-'),
        !release.contains('-'),
        !arch.contains('-'),
        holds_version(text::split(base_name(name, version, release, arch), Sep::At('-'))),
        !text::has(base_name(name, version, release, arch), ".pkg.tar"@),
    ensures
        package_name(base_name(name, version, release, arch) + ".pkg.tar"@ + ending) == Some(name),
{
    let base = base_name(name, version, release, arch);
    let all = base + ".pkg.tar"@ + ending;
    extension_is_found(base, ending);
    assert(all.take(base.len() as int) =~= base);
    base_name_parts(name, version, release, arch);
    let head = text::split(name, Sep::At('-'));
    let parts = text::split(base, Sep::At('-'));
    text::split_has_a_piece(name, Sep::At('-'));
    assert(parts.take(parts.len() - 3) =~= head);
    text::join_undoes_split(name, '-');
}

/// A version that starts with a digit is held, behind a name that does not start with one.
pub proof fn versions_are_seen(
    name: Seq<char>,
    version: Seq<char>,
    release: Seq<char>,
    arch: Seq<char>,
)
    requires
        !version.contains('-'),
        !release.contains('-'),
        !arch.contains('-'),
        starts_version(version),
        !starts_version(name),
    ensures
        holds_version(text::split(base_name(name, version, release, arch), Sep::At('-'))),
{
    base_name_parts(name, version, release, arch);
    let head = text::split(name, Sep::At('-'));
    let parts = text::split(base_name(name, version, release, arch), Sep::At('-'));
    text::split_has_a_piece(name, Sep::At('-'));
    assert(parts[head.len() as int] == version);
    assert(parts[0] == head[0]);
    first_piece_is_in_front(name, '-');
    version_place_is_found(parts, 1, head.len() as int);
}

/// The first piece of a text is its beginning, and the only piece is all of it.
proof fn first_piece_is_in_front(s: Seq<char>, c: char)
    ensures
        ({
            let pieces = text::split(s, Sep::At(c));
            &&& pieces.len() > 0
            &&& pieces[0].len() <= s.len()
            &&& pieces[0] == s.take(pieces[0].len() as int)
            &&& pieces.len() == 1 ==> pieces[0] == s
        }),
    decreases s.len(),
{
    let pieces = text::split(s, Sep::At(c));
    if s.len() == 0 {
        assert(pieces[0] =~= s);
    } else {
        let before = text::split(s.drop_last(), Sep::At(c));
        first_piece_is_in_front(s.drop_last(), c);
        if before.len() == 1 && s.last() != c {
            assert(pieces[0] =~= s);
        } else {
            assert(pieces[0] == before[0]);
        }
        assert(pieces[0] =~= s.take(pieces[0].len() as int));
    }
}

/// Where a part starts with a digit, one is found, no later than it.
proof fn version_place_is_found(parts: Seq<Seq<char>>, from: int, at: int)
    requires
        0 <= from <= at < parts.len(),
        starts_version(parts[at]),
    ensures
        version_place(parts, from) matches Some(i) && from <= i <= at,
    decreases at - from,
{
    if from < at {
        version_place_is_found(parts, from + 1, at);
    }
}

impl CacheManager {
    /// Creates a new cache manager.
    pub fn new(dirs: &Vec<String>) -> (r: CacheManager)
        ensures
            text::strings(r.cache_dirs@) == text::strings(dirs@),
    {
        CacheManager { cache_dirs: package::clone_strings(dirs) }
    }

    /// Parses package name from a cache filename.
    pub fn parse_package_name(filename: &str) -> (r: Option<String>)
        ensures
            package::opt_text(r) == package_name(filename@),
    {
        let f = text::chars_of(filename);
        let mark = text::chars_of(".pkg.tar");
        match text::find(f.as_slice(), mark.as_slice(), 0) {
            None => None,
            Some(at) => {
                let base = text::cut(f.as_slice(), 0, at);
                assert(base@ =~= f@.take(at as int));
                let parts = text::pieces(base.as_slice(), Sep::At('-'));
                let ghost all = text::texts(parts@);
                if parts.len() < 4 {
                    return None;
                }
                let mut i: usize = 0;
                while i < parts.len()
                    invariant
                        i <= parts@.len(),
                        parts@.len() >= 4,
                        all == text::texts(parts@),
                        all == text::split(filename@.take(at as int), Sep::At('-')),
                        text::find_from(filename@, ".pkg.tar"@, 0) == Some(at as int),
                        version_place(all, 0) == version_place(all, i as int),
                    decreases parts@.len() - i,
                {
                    assert(all[i as int] == parts@[i as int]@);
                    if parts[i].len() > 0 && text::digit(parts[i][0]) {
                        if i == 0 {
                            return None;
                        }
                        let last: usize = parts.len() - 3;
                        let dash: Vec<char> = vec!['-'];
                        assert(dash@ =~= seq!['-']);
                        let name = text::joined(&parts, 0, last, dash.as_slice());
                        assert(all.subrange(0, last as int) =~= all.take(last as int));
                        return Some(text::text_of(name.as_slice()));
                    }
                    i += 1;
                }
                None
            },
        }
    }

    /// Whether a file name is that of a package, by its extension.
    pub fn is_package_file(filename: &str) -> (r: bool)
        ensures
            r == text::has(filename@, ".pkg.tar"@),
    {
        let f = text::chars_of(filename);
        text::mentions(f.as_slice(), ".pkg.tar")
    }

    /// Whether a file name is that of a signature.
    pub fn is_signature(filename: &str) -> (r: bool)
        ensures
            r == names_signature(filename@),
    {
        let f = text::chars_of(filename);
        text::ends_in(f.as_slice(), ".sig")
    }

    /// The name of the package that a file is a version of.
    pub fn version_of(filename: &str) -> (r: Option<String>)
        ensures
            package::opt_text(r) == version_name(filename@),
    {
        if CacheManager::is_signature(filename) {
            None
        } else {
            CacheManager::parse_package_name(filename)
        }
    }

    /// Lists all cached packages, given the files of the cache.
    pub fn list(files: &Vec<CachedPackage>) -> (r: Vec<CachedPackage>)
        ensures
            cached(r@) == package_files(cached(files@)),
    {
        let ghost all = cached(files@);
        let mut r: Vec<CachedPackage> = Vec::new();
        let mut i: usize = 0;
        assert(all.take(0) =~= Seq::empty());
        assert(cached(r@) =~= Seq::empty());
        while i < files.len()
            invariant
                i <= files@.len(),
                all == cached(files@),
                cached(r@) == package_files(all.take(i as int)),
            decreases files@.len() - i,
        {
            let ghost before = cached(r@);
            assert(all.take(i + 1).drop_last() =~= all.take(i as int));
            assert(all.take(i + 1).last() == files@[i as int]@);
            if CacheManager::is_package_file(files[i].filename.as_str()) {
                let p = CachedPackage {
                    path: files[i].path.clone(),
                    filename: files[i].filename.clone(),
                    size: files[i].size,
                };
                r.push(p);
                assert(p@ =~= files@[i as int]@);
                assert(cached(r@) =~= before.push(files@[i as int]@));
            }
            i += 1;
        }
        assert(all.take(all.len() as int) =~= all);
        r
    }
}

/// The name of a signature.
pub open spec fn names_signature(filename: Seq<char>) -> bool {
    text::ends_with(filename, ".sig"@)
}

/// The name of the package that a file is a version of. A signature is none.
pub open spec fn version_name(filename: Seq<char>) -> Option<Seq<char>> {
    if names_signature(filename) {
        None
    } else {
        package_name(filename)
    }
}

/// The name of the signature that belongs to a file.
pub open spec fn signature_of(filename: Seq<char>) -> Seq<char> {
    filename + ".sig"@
}

/// The files that are packages.
pub open spec fn package_files(v: Seq<CachedPackageView>) -> Seq<CachedPackageView>
    decreases v.len(),
{
    if v.len() == 0 {
        Seq::empty()
    } else if text::has(v.last().filename, ".pkg.tar"@) {
        package_files(v.drop_last()).push(v.last())
    } else {
        package_files(v.drop_last())
    }
}

/// The sum of sizes.
pub open spec fn sum(v: Seq<u64>) -> nat
    decreases v.len(),
{
    if v.len() == 0 {
        0
    } else {
        sum(v.drop_last()) + v.last() as nat
    }
}

/// A part of the sizes is not more than all of them.
proof fn sum_grows(v: Seq<u64>, i: int)
    requires
        0 <= i <= v.len(),
    ensures
        sum(v.take(i)) <= sum(v),
    decreases v.len() - i,
{
    if i == v.len() {
        assert(v.take(i) =~= v);
    } else {
        assert(v.take(i + 1).drop_last() =~= v.take(i));
        sum_grows(v, i + 1);
    }
}

/// The size of files in bytes, given the sizes of all of them, where it fits.
pub fn total_size(sizes: &Vec<u64>) -> (r: Option<u64>)
    ensures
        match r {
            Some(n) => n == sum(sizes@),
            None => sum(sizes@) > u64::MAX,
        },
{
    let mut total: u64 = 0;
    let mut i: usize = 0;
    assert(sizes@.take(0) =~= Seq::empty());
    while i < sizes.len()
        invariant
            i <= sizes@.len(),
            total == sum(sizes@.take(i as int)),
        decreases sizes@.len() - i,
    {
        assert(sizes@.take(i + 1).drop_last() =~= sizes@.take(i as int));
        proof {
            sum_grows(sizes@, i + 1);
        }
        match total.checked_add(sizes[i]) {
            Some(n) => {
                total = n;
            },
            None => {
                return None;
            },
        }
        i += 1;
    }
    assert(sizes@.take(sizes@.len() as int) =~= sizes@);
    Some(total)
}

/// A file of the cache.
#[derive(Debug)]
pub struct CacheFile {
    /// Its name in its directory.
    pub filename: String,
    /// When it was last changed, in nanoseconds since 1970.
    pub modified: i128,
}

/// What a `CacheFile` holds.
#[verifier::ext_equal]
pub struct CacheFileView {
    pub filename: Seq<char>,
    pub modified: i128,
}

impl View for CacheFile {
    type V = CacheFileView;

    open spec fn view(&self) -> CacheFileView {
        CacheFileView { filename: self.filename@, modified: self.modified }
    }
}

/// What a list of files holds.
pub open spec fn cache_files(v: Seq<CacheFile>) -> Seq<CacheFileView> {
    v.map_values(|f: CacheFile| f@)
}

/// Two files of the same package.
pub open spec fn same_package(v: Seq<CacheFileView>, i: int, j: int) -> bool {
    version_name(v[i].filename) is Some && version_name(v[i].filename) == version_name(
        v[j].filename,
    )
}

/// File `i` goes before file `j`: it is of the same package, and it is newer, or of the
/// same age and was found before.
pub open spec fn before(v: Seq<CacheFileView>, i: int, j: int) -> bool {
    &&& same_package(v, i, j)
    &&& v[i].modified > v[j].modified || (v[i].modified == v[j].modified && i < j)
}

/// How many of the first `n` files go before file `i`.
pub open spec fn rank(v: Seq<CacheFileView>, i: int, n: int) -> nat
    decreases n,
{
    if n <= 0 {
        0
    } else {
        rank(v, i, n - 1) + if before(v, n - 1, i) {
            1nat
        } else {
            0nat
        }
    }
}

/// An old version of a package: so many others of it go before this one as are to be kept.
pub open spec fn is_old(v: Seq<CacheFileView>, i: int, keep: nat) -> bool {
    version_name(v[i].filename) is Some && rank(v, i, v.len() as int) >= keep
}

/// A file that cleaning removes: an old version of a package, or the signature of one.
pub open spec fn is_removed(v: Seq<CacheFileView>, i: int, keep: nat) -> bool {
    is_old(v, i, keep) || exists|j: int|
        0 <= j < v.len() && #[trigger] is_old(v, j, keep) && v[i].filename == signature_of(
            v[j].filename,
        )
}

/// The places among the first `n` files of those that cleaning removes.
pub open spec fn removed(v: Seq<CacheFileView>, keep: nat, n: int) -> Seq<int>
    decreases n,
{
    if n <= 0 {
        Seq::empty()
    } else if is_removed(v, n - 1, keep) {
        removed(v, keep, n - 1).push(n - 1)
    } else {
        removed(v, keep, n - 1)
    }
}

/// The names of the packages that files are versions of.
pub open spec fn version_names(v: Seq<CacheFileView>) -> Seq<Option<Seq<char>>> {
    v.map_values(|f: CacheFileView| version_name(f.filename))
}

/// Which files are old versions of a package.
pub open spec fn old_versions(v: Seq<CacheFileView>, keep: nat) -> Seq<bool> {
    Seq::new(v.len(), |i: int| is_old(v, i, keep))
}

/// What a list of optional texts holds.
pub open spec fn opt_texts(v: Seq<Option<String>>) -> Seq<Option<Seq<char>>> {
    v.map_values(|o: Option<String>| package::opt_text(o))
}

/// Whether two optional names are the same name.
fn same_name(a: &Option<String>, b: &Option<String>) -> (r: bool)
    ensures
        r == (package::opt_text(*a) is Some && package::opt_text(*a) == package::opt_text(*b)),
{
    match (a, b) {
        (Some(x), Some(y)) => text::equals(x.as_str(), y.as_str()),
        _ => false,
    }
}

/// The places that a list of numbers gives.
pub open spec fn places(v: Seq<usize>) -> Seq<int> {
    v.map_values(|i: usize| i as int)
}

/// The sizes of the files of directories that could be read.
pub open spec fn read_sizes(v: Seq<Result<Vec<u64>, Error>>) -> Seq<u64>
    decreases v.len(),
{
    if v.len() == 0 {
        Seq::empty()
    } else {
        read_sizes(v.drop_last()) + match v.last() {
            Ok(sizes) => sizes@,
            Err(_) => Seq::empty(),
        }
    }
}

/// The first directory that could not be read.
pub open spec fn first_error(v: Seq<Result<Vec<u64>, Error>>) -> Option<ErrorView>
    decreases v.len(),
{
    if v.len() == 0 {
        None
    } else {
        match first_error(v.drop_last()) {
            Some(e) => Some(e),
            None => match v.last() {
                Ok(_) => None,
                Err(e) => Some(e@),
            },
        }
    }
}

/// Further directories do not change the first error.
proof fn first_error_stays(v: Seq<Result<Vec<u64>, Error>>, i: int)
    requires
        0 <= i <= v.len(),
        first_error(v.take(i)) is Some,
    ensures
        first_error(v) == first_error(v.take(i)),
    decreases v.len() - i,
{
    if i == v.len() {
        assert(v.take(i) =~= v);
    } else {
        assert(v.take(i + 1).drop_last() =~= v.take(i));
        first_error_stays(v, i + 1);
    }
}

impl CacheManager {
    /// Gets the total cache size in bytes, given the sizes of the files in and below each
    /// directory of the cache. The first directory that could not be read is the error; a
    /// sum that does not fit is none.
    pub fn get_size(dirs: Vec<Result<Vec<u64>, Error>>) -> (r: Result<Option<u64>, Error>)
        ensures
            match r {
                Ok(Some(n)) => first_error(dirs@) is None && n == sum(read_sizes(dirs@)),
                Ok(None) => first_error(dirs@) is None && sum(read_sizes(dirs@)) > u64::MAX,
                Err(e) => first_error(dirs@) == Some(e@),
            },
    {
        let mut sizes: Vec<u64> = Vec::new();
        let mut i: usize = 0;
        assert(dirs@.take(0) =~= Seq::empty());
        while i < dirs.len()
            invariant
                i <= dirs@.len(),
                sizes@ == read_sizes(dirs@.take(i as int)),
                first_error(dirs@.take(i as int)) is None,
            decreases dirs@.len() - i,
        {
            assert(dirs@.take(i + 1).drop_last() =~= dirs@.take(i as int));
            match &dirs[i] {
                Ok(more) => {
                    let mut copy = more.clone();
                    assert(copy@ =~= more@);
                    sizes.append(&mut copy);
                },
                Err(e) => {
                    proof {
                        first_error_stays(dirs@, i + 1);
                    }
                    return Err(e.clone());
                },
            }
            i += 1;
        }
        assert(dirs@.take(dirs@.len() as int) =~= dirs@);
        Ok(total_size(&sizes))
    }

    /// Cleans the cache, keeping only the specified number of versions per package: which
    /// files of each directory are removed.
    pub fn clean(dirs: &Vec<Vec<CacheFile>>, keep_versions: usize) -> (r: Vec<Vec<usize>>)
        ensures
            r@.len() == dirs@.len(),
            forall|d: int|
                0 <= d < dirs@.len() ==> places((#[trigger] r@[d])@) == removed(
                    cache_files(dirs@[d]@),
                    keep_versions as nat,
                    dirs@[d]@.len() as int,
                ),
    {
        let mut r: Vec<Vec<usize>> = Vec::new();
        let mut i: usize = 0;
        while i < dirs.len()
            invariant
                i <= dirs@.len(),
                r@.len() == i,
                forall|d: int|
                    0 <= d < i ==> places((#[trigger] r@[d])@) == removed(
                        cache_files(dirs@[d]@),
                        keep_versions as nat,
                        dirs@[d]@.len() as int,
                    ),
            decreases dirs@.len() - i,
        {
            let gone = CacheManager::clean_dir(&dirs[i], keep_versions);
            r.push(gone);
            i += 1;
        }
        r
    }

    /// Which files are old versions of a package.
    fn old_files(files: &Vec<CacheFile>, keep_versions: usize) -> (r: Vec<bool>)
        ensures
            r@ == old_versions(cache_files(files@), keep_versions as nat),
    {
        let ghost all = cache_files(files@);
        let n: usize = files.len();
        let mut names: Vec<Option<String>> = Vec::new();
        let mut k: usize = 0;
        while k < n
            invariant
                n == files@.len(),
                k <= n,
                all == cache_files(files@),
                opt_texts(names@) == version_names(all).take(k as int),
            decreases n - k,
        {
            let ghost shown = opt_texts(names@);
            let name = CacheManager::version_of(files[k].filename.as_str());
            names.push(name);
            assert(version_names(all)[k as int] == package::opt_text(name));
            assert(opt_texts(names@) =~= shown.push(package::opt_text(name)));
            k += 1;
        }
        assert(version_names(all).take(n as int) =~= version_names(all));
        assert(names@.len() == opt_texts(names@).len());
        let mut r: Vec<bool> = Vec::new();
        let mut i: usize = 0;
        while i < n
            invariant
                n == files@.len(),
                n == names@.len(),
                i <= n,
                all == cache_files(files@),
                opt_texts(names@) == version_names(all),
                r@ == old_versions(all, keep_versions as nat).take(i as int),
            decreases n - i,
        {
            let mut count: usize = 0;
            let mut j: usize = 0;
            while j < n
                invariant
                    n == files@.len(),
                    n == names@.len(),
                    i < n,
                    j <= n,
                    count <= j,
                    all == cache_files(files@),
                    opt_texts(names@) == version_names(all),
                    count == rank(all, i as int, j as int),
                decreases n - j,
            {
                assert(opt_texts(names@)[i as int] == version_name(all[i as int].filename));
                assert(opt_texts(names@)[j as int] == version_name(all[j as int].filename));
                if same_name(&names[j], &names[i]) && (files[j].modified > files[i].modified || (
                files[j].modified == files[i].modified && j < i)) {
                    count += 1;
                }
                j += 1;
            }
            assert(opt_texts(names@)[i as int] == version_name(all[i as int].filename));
            r.push(names[i].is_some() && count >= keep_versions);
            i += 1;
        }
        assert(old_versions(all, keep_versions as nat).take(n as int) =~= old_versions(
            all,
            keep_versions as nat,
        ));
        r
    }

    /// Whether file `i` is the signature of an old version of a package.
    fn signs_old(files: &Vec<CacheFile>, old: &Vec<bool>, i: usize) -> (r: bool)
        requires
            i < files@.len(),
            old@.len() == files@.len(),
        ensures
            r == exists|j: int|
                0 <= j < files@.len() && #[trigger] old@[j] && files@[i as int].filename@
                    == signature_of(files@[j].filename@),
    {
        let f = text::chars_of(files[i].filename.as_str());
        match text::before_words(f.as_slice(), ".sig") {
            None => {
                proof {
                    if exists|j: int|
                        0 <= j < files@.len() && #[trigger] old@[j] && f@ == signature_of(
                            files@[j].filename@,
                        ) {
                        let j = choose|j: int|
                            0 <= j < files@.len() && #[trigger] old@[j] && f@ == signature_of(
                                files@[j].filename@,
                            );
                        signature_is_one(files@[j].filename@);
                    }
                }
                false
            },
            Some(signed) => {
                let name = text::text_of(signed.as_slice());
                proof {
                    unsigned_again(f@, name@);
                }
                let mut j: usize = 0;
                while j < files.len()
                    invariant
                        i < files@.len(),
                        j <= files@.len(),
                        old@.len() == files@.len(),
                        f@ == files@[i as int].filename@,
                        forall|x: Seq<char>| f@ == #[trigger] signature_of(x) <==> x == name@,
                        forall|k: int|
                            0 <= k < j && #[trigger] old@[k] ==> files@[k].filename@ != name@,
                    decreases files@.len() - j,
                {
                    if old[j] && text::equals(files[j].filename.as_str(), name.as_str()) {
                        assert(f@ == signature_of(files@[j as int].filename@));
                        return true;
                    }
                    j += 1;
                }
                false
            },
        }
    }

    /// Cleans a single cache directory: which of its files go, so that of every package only
    /// the newest versions stay, as many as are to be kept. The signature of a version goes
    /// with it. The result gives the places of the files.
    pub fn clean_dir(files: &Vec<CacheFile>, keep_versions: usize) -> (r: Vec<usize>)
        ensures
            places(r@) == removed(
                cache_files(files@),
                keep_versions as nat,
                files@.len() as int,
            ),
            forall|k: int| 0 <= k < r@.len() ==> (#[trigger] r@[k]) < files@.len(),
    {
        let ghost all = cache_files(files@);
        let ghost keep = keep_versions as nat;
        let n: usize = files.len();
        let old = CacheManager::old_files(files, keep_versions);
        let mut r: Vec<usize> = Vec::new();
        let mut i: usize = 0;
        assert(places(r@) =~= Seq::<int>::empty());
        while i < n
            invariant
                n == files@.len(),
                i <= n,
                all == cache_files(files@),
                old@ == old_versions(all, keep),
                places(r@) == removed(all, keep, i as int),
                forall|k: int| 0 <= k < r@.len() ==> (#[trigger] r@[k]) < files@.len(),
            decreases n - i,
        {
            let gone = old[i] || CacheManager::signs_old(files, &old, i);
            proof {
                assert forall|j: int| 0 <= j < n implies old@[j] == #[trigger] is_old(all, j, keep)
                    && all[j].filename == files@[j].filename@ by {}
                assert(gone == is_removed(all, i as int, keep)) by {
                    if is_removed(all, i as int, keep) && !is_old(all, i as int, keep) {
                        let j = choose|j: int|
                            0 <= j < all.len() && #[trigger] is_old(all, j, keep)
                                && all[i as int].filename == signature_of(all[j].filename);
                        assert(old@[j]);
                    }
                }
            }
            if gone {
                let ghost shown = places(r@);
                r.push(i);
                assert(places(r@) =~= shown.push(i as int));
            }
            i += 1;
        }
        r
    }
}

/// What stands before the ending of a signature is the name of the file that it signs.
proof fn unsigned_again(f: Seq<char>, name: Seq<char>)
    requires
        text::without_suffix(f, ".sig"@) == Some(name),
    ensures
        forall|x: Seq<char>| f == #[trigger] signature_of(x) <==> x == name,
{
    assert forall|x: Seq<char>| f == #[trigger] signature_of(x) <==> x == name by {
        if f == signature_of(x) {
            assert(x =~= f.take(x.len() as int));
            assert(x =~= name);
        }
        if x == name {
            assert(f =~= signature_of(x));
        }
    }
}

/// The name that a signature gets is that of a signature.
proof fn signature_is_one(filename: Seq<char>)
    ensures
        names_signature(signature_of(filename)),
        text::without_suffix(signature_of(filename), ".sig"@) == Some(filename),
{
    let f = signature_of(filename);
    assert(f.skip(filename.len() as int) =~= ".sig"@);
    assert(f.take(filename.len() as int) =~= filename);
}

/// What goes before a file that goes before another goes before that too.
proof fn before_is_transitive(v: Seq<CacheFileView>, i: int, j: int, k: int)
    requires
        before(v, i, j),
        before(v, j, k),
    ensures
        before(v, i, k),
{
}

/// A file that goes before another has a smaller rank.
proof fn rank_follows_order(v: Seq<CacheFileView>, i: int, j: int, n: int)
    requires
        before(v, i, j),
        0 <= i,
        0 <= n,
    ensures
        rank(v, i, n) + (if i < n {
            1nat
        } else {
            0nat
        }) <= rank(v, j, n),
    decreases n,
{
    if n > 0 {
        rank_follows_order(v, i, j, n - 1);
        if before(v, n - 1, i) {
            before_is_transitive(v, n - 1, i, j);
        }
    }
}

/// A version of a package goes only where it is an old one.
pub proof fn versions_go_by_age(v: Seq<CacheFileView>, i: int, keep: nat)
    requires
        version_name(v[i].filename) is Some,
    ensures
        is_removed(v, i, keep) == is_old(v, i, keep),
{
    if is_removed(v, i, keep) && !is_old(v, i, keep) {
        let j = choose|j: int|
            0 <= j < v.len() && #[trigger] is_old(v, j, keep) && v[i].filename == signature_of(
                v[j].filename,
            );
        signature_is_one(v[j].filename);
    }
}

/// No file that stays is older than one of the same package that goes.
pub proof fn the_newest_stay(v: Seq<CacheFileView>, i: int, j: int, keep: nat)
    requires
        0 <= i < v.len(),
        0 <= j < v.len(),
        same_package(v, i, j),
        is_removed(v, i, keep),
        !is_removed(v, j, keep),
    ensures
        v[j].modified >= v[i].modified,
{
    versions_go_by_age(v, i, keep);
    if v[i].modified > v[j].modified {
        rank_follows_order(v, i, j, v.len() as int);
    }
}

/// The places of the files of a package.
pub open spec fn group(v: Seq<CacheFileView>, name: Seq<char>) -> Set<int> {
    Set::new(|i: int| 0 <= i < v.len() && version_name(v[i].filename) == Some(name))
}

/// The places of the files of a package with a rank below a limit.
pub open spec fn leading(v: Seq<CacheFileView>, name: Seq<char>, limit: nat) -> Set<int> {
    Set::new(
        |i: int|
            0 <= i < v.len() && version_name(v[i].filename) == Some(name) && rank(
                v,
                i,
                v.len() as int,
            ) < limit,
    )
}

/// The places among the first `n` of the files that go before file `i`.
spec fn predecessors(v: Seq<CacheFileView>, i: int, n: int) -> Set<int> {
    Set::new(|k: int| 0 <= k < n && before(v, k, i))
}

/// The rank of a file is the number of those that go before it.
proof fn rank_counts(v: Seq<CacheFileView>, i: int, n: int)
    requires
        0 <= n,
    ensures
        predecessors(v, i, n).finite(),
        predecessors(v, i, n).len() == rank(v, i, n),
    decreases n,
{
    if n == 0 {
        assert(predecessors(v, i, n) =~= Set::empty());
    } else {
        rank_counts(v, i, n - 1);
        if before(v, n - 1, i) {
            assert(predecessors(v, i, n) =~= predecessors(v, i, n - 1).insert(n - 1));
        } else {
            assert(predecessors(v, i, n) =~= predecessors(v, i, n - 1));
        }
    }
}

/// A set of places has a file of least rank.
proof fn has_least(v: Seq<CacheFileView>, s: Set<int>) -> (m: int)
    requires
        s.finite(),
        s.len() > 0,
    ensures
        s.contains(m),
        forall|k: int| s.contains(k) ==> rank(v, m, v.len() as int) <= #[trigger] rank(
            v,
            k,
            v.len() as int,
        ),
    decreases s.len(),
{
    let x = s.choose();
    let rest = s.remove(x);
    if rest.len() == 0 {
        assert(rest =~= Set::empty());
        x
    } else {
        let m = has_least(v, rest);
        if rank(v, x, v.len() as int) <= rank(v, m, v.len() as int) {
            assert forall|k: int| s.contains(k) implies rank(v, x, v.len() as int)
                <= #[trigger] rank(v, k, v.len() as int) by {
                if k != x {
                    assert(rest.contains(k));
                }
            }
            x
        } else {
            assert forall|k: int| s.contains(k) implies rank(v, m, v.len() as int)
                <= #[trigger] rank(v, k, v.len() as int) by {
                if k != x {
                    assert(rest.contains(k));
                }
            }
            m
        }
    }
}

/// Of a package exactly so many files have a rank below a limit as the limit says, or all
/// of them where there are fewer.
proof fn leading_counts(v: Seq<CacheFileView>, name: Seq<char>, limit: nat)
    ensures
        group(v, name).finite(),
        leading(v, name, limit).finite(),
        leading(v, name, limit).len() == if limit < group(v, name).len() {
            limit
        } else {
            group(v, name).len()
        },
    decreases limit,
{
    let n = v.len() as int;
    let all = group(v, name);
    let range = set_int_range(0, n);
    lemma_int_range(0, n);
    assert(all.subset_of(range));
    lemma_len_subset(all, range);
    let below = leading(v, name, limit);
    assert(below.subset_of(all));
    lemma_len_subset(below, all);
    if limit == 0 {
        assert(below =~= Set::empty());
    } else {
        let fewer = leading(v, name, (limit - 1) as nat);
        leading_counts(v, name, (limit - 1) as nat);
        let rest = all.difference(fewer);
        assert(rest.subset_of(all));
        lemma_len_subset(rest, all);
        if rest.len() == 0 {
            assert(rest =~= Set::empty());
            assert forall|i: int| all.contains(i) implies fewer.contains(i) by {
                assert(!rest.contains(i));
            }
            assert(fewer =~= all);
            assert(below =~= all);
        } else {
            let m = has_least(v, rest);
            let before_m = predecessors(v, m, n);
            rank_counts(v, m, n);
            assert forall|k: int| before_m.contains(k) <==> fewer.contains(k) by {
                if before_m.contains(k) {
                    rank_follows_order(v, k, m, n);
                    assert(all.contains(k));
                    if rest.contains(k) {
                        assert(rank(v, m, n) <= rank(v, k, n));
                    }
                }
                if fewer.contains(k) {
                    assert(rank(v, k, n) < limit - 1);
                    assert(rank(v, m, n) >= limit - 1);
                    assert(same_package(v, k, m));
                    if before(v, m, k) {
                        rank_follows_order(v, m, k, n);
                    }
                    assert(k != m);
                }
            }
            assert(before_m =~= fewer);
            assert(rank(v, m, n) == fewer.len());
            assert(fewer.len() == limit - 1) by {
                if limit - 1 >= all.len() {
                    assert(fewer.len() == all.len());
                    lemma_subset_equality(fewer, all);
                    assert(rest =~= Set::empty());
                }
            }
            assert forall|k: int| below.contains(k) <==> fewer.insert(m).contains(k) by {
                if below.contains(k) && !fewer.contains(k) && k != m {
                    assert(rank(v, k, n) == limit - 1);
                    assert(same_package(v, k, m));
                    if before(v, m, k) {
                        rank_follows_order(v, m, k, n);
                    } else {
                        rank_follows_order(v, k, m, n);
                    }
                }
            }
            assert(below =~= fewer.insert(m));
            assert(!fewer.contains(m));
            assert(all.len() >= limit) by {
                lemma_len_subset(below, all);
            }
        }
    }
}

/// The places of the files of a package that stay.
pub open spec fn kept(v: Seq<CacheFileView>, name: Seq<char>, keep: nat) -> Set<int> {
    Set::new(
        |i: int|
            0 <= i < v.len() && version_name(v[i].filename) == Some(name) && !is_removed(v, i, keep),
    )
}

/// Cleaning keeps of every package exactly the number of files that is to be kept, or all
/// of them where there are fewer.
pub proof fn cleaning_keeps_the_number(v: Seq<CacheFileView>, name: Seq<char>, keep: nat)
    ensures
        group(v, name).finite(),
        kept(v, name, keep).finite(),
        kept(v, name, keep).len() == if keep < group(v, name).len() {
            keep
        } else {
            group(v, name).len()
        },
{
    leading_counts(v, name, keep);
    assert forall|i: int| version_name(v[i].filename) == Some(name) implies is_removed(v, i, keep)
        == is_old(v, i, keep) by {
        versions_go_by_age(v, i, keep);
    }
    assert(kept(v, name, keep) =~= leading(v, name, keep));
}

/// A signature goes with its package, and stays with it.
pub proof fn signatures_go_along(v: Seq<CacheFileView>, i: int, j: int, keep: nat)
    requires
        0 <= i < v.len(),
        0 <= j < v.len(),
        forall|a: int, b: int|
            0 <= a < b < v.len() ==> (#[trigger] v[a]).filename != (#[trigger] v[b]).filename,
        version_name(v[j].filename) is Some,
        v[i].filename == signature_of(v[j].filename),
    ensures
        removed(v, keep, v.len() as int).contains(i) == removed(v, keep, v.len() as int).contains(
            j,
        ),
{
    removed_holds_removed(v, keep, v.len() as int);
    versions_go_by_age(v, j, keep);
    signature_is_one(v[j].filename);
    if is_removed(v, i, keep) {
        let k = choose|k: int|
            0 <= k < v.len() && #[trigger] is_old(v, k, keep) && v[i].filename == signature_of(
                v[k].filename,
            );
        signature_is_one(v[k].filename);
        assert(v[k].filename == v[j].filename);
    }
}

/// What is neither a version of a package nor the signature of one is left alone.
pub proof fn other_files_are_left_alone(v: Seq<CacheFileView>, i: int, keep: nat)
    requires
        0 <= i < v.len(),
        version_name(v[i].filename) is None,
        forall|j: int|
            0 <= j < v.len() && version_name((#[trigger] v[j]).filename) is Some ==> v[i].filename
                != signature_of(v[j].filename),
    ensures
        !removed(v, keep, v.len() as int).contains(i),
{
    removed_holds_removed(v, keep, v.len() as int);
}

/// Only files that cleaning removes are listed, and all of them.
pub proof fn removed_holds_removed(v: Seq<CacheFileView>, keep: nat, n: int)
    requires
        0 <= n <= v.len(),
    ensures
        forall|i: int| #[trigger]
            removed(v, keep, n).contains(i) <==> 0 <= i < n && is_removed(v, i, keep),
    decreases n,
{
    if n > 0 {
        removed_holds_removed(v, keep, n - 1);
        let p = removed(v, keep, n - 1);
        assert forall|i: int| #[trigger] removed(v, keep, n).contains(i) <==> 0 <= i < n
            && is_removed(v, i, keep) by {
            assert(p.contains(i) <==> 0 <= i < n - 1 && is_removed(v, i, keep));
            if is_removed(v, n - 1, keep) {
                assert(p.push(n - 1)[p.len() as int] == n - 1);
                assert(p.push(n - 1).contains(i) <==> p.contains(i) || i == n - 1);
            }
        }
    }
}

/// A file `name-version-release-arch.pkg.tar.zst`, or one with another ending, that holds a
/// version is a version of the package of that name, whatever the architecture, unless it
/// is a signature; and a signature is a version of none.
pub proof fn files_are_versions(
    name: Seq<char>,
    version: Seq<char>,
    release: Seq<char>,
    arch: Seq<char>,
    ending: Seq<char>,
)
    requires
        !version.contains('-'),
        !release.contains('-'),
        !arch.contains('-'),
        starts_version(version),
        !starts_version(name),
        !text::has(base_name(name, version, release, arch), ".pkg.tar"@),
    ensures
        ({
            let file = base_name(name, version, release, arch) + ".pkg.tar"@ + ending;
            &&& package_name(file) == Some(name)
            &&& (forall|a: Seq<char>| file != #[trigger] (a + ".sig"@)) ==> version_name(file)
                == Some(name)
            &&& (exists|a: Seq<char>| file == #[trigger] (a + ".sig"@)) ==> version_name(file)
                is None
        }),
{
    let file = base_name(name, version, release, arch) + ".pkg.tar"@ + ending;
    versions_are_seen(name, version, release, arch);
    names_are_extracted(name, version, release, arch, ending);
    text::end_means_made_of(file, ".sig"@);
}

/// The version starts with a digit.
pub proof fn versions_start_with_digits(part: Seq<char>)
    ensures
        starts_version(part) <==> part.len() > 0 && 0x30 <= part[0] as u32 <= 0x39,
{
}

/// A file without the extension of a package, or with fewer than four parts in front of it,
/// is no version of a package.
pub proof fn other_files_are_no_versions(base: Seq<char>, ending: Seq<char>)
    ensures
        !text::has(base, ".pkg.tar"@) ==> package_name(base) is None && version_name(base) is None,
        !text::has(base, ".pkg.tar"@) && text::split(base, Sep::At('-')).len() < 4 ==> package_name(
            base + ".pkg.tar"@ + ending,
        ) is None && version_name(base + ".pkg.tar"@ + ending) is None,
{
    text::has_iff_found(base, ".pkg.tar"@);
    if !text::has(base, ".pkg.tar"@) {
        extension_is_found(base, ending);
        assert((base + ".pkg.tar"@ + ending).take(base.len() as int) =~= base);
    }
}

/// Of the versions of a package exactly those go before which as many others come as are to
/// be kept: others that are newer, or of the same age and found before.
pub proof fn only_the_oldest_go(v: Seq<CacheFileView>, keep: nat, i: int)
    requires
        0 <= i < v.len(),
        version_name(v[i].filename) is Some,
    ensures
        ({
            let newer = Set::new(
                |j: int|
                    0 <= j < v.len() && version_name(v[j].filename) == version_name(v[i].filename)
                        && (v[j].modified > v[i].modified || (v[j].modified == v[i].modified && j
                        < i)),
            );
            &&& newer.finite()
            &&& removed(v, keep, v.len() as int).contains(i) <==> newer.len() >= keep
        }),
{
    let newer = Set::new(
        |j: int|
            0 <= j < v.len() && version_name(v[j].filename) == version_name(v[i].filename) && (
            v[j].modified > v[i].modified || (v[j].modified == v[i].modified && j < i)),
    );
    rank_counts(v, i, v.len() as int);
    assert(newer =~= predecessors(v, i, v.len() as int));
    versions_go_by_age(v, i, keep);
    removed_holds_removed(v, keep, v.len() as int);
}

/// What cleaning removes is told in the order of the files, each once.
pub proof fn removed_is_in_order(v: Seq<CacheFileView>, keep: nat, n: int)
    requires
        0 <= n <= v.len(),
    ensures
        forall|a: int, b: int|
            #![trigger removed(v, keep, n)[a], removed(v, keep, n)[b]]
            0 <= a < b < removed(v, keep, n).len() ==> removed(v, keep, n)[a] < removed(
                v,
                keep,
                n,
            )[b],
        forall|a: int| 0 <= a < removed(v, keep, n).len() ==> 0 <= #[trigger] removed(v, keep, n)[a] < n,
    decreases n,
{
    if n > 0 {
        removed_is_in_order(v, keep, n - 1);
        let before = removed(v, keep, n - 1);
        let now = removed(v, keep, n);
        assert forall|a: int| 0 <= a < now.len() implies 0 <= #[trigger] now[a] < n by {
            if a < before.len() {
                assert(now[a] == before[a]);
            }
        }
        assert forall|a: int, b: int|
            #![trigger now[a], now[b]]
            0 <= a < b < now.len() implies now[a] < now[b] by {
            assert(now[a] == before[a]);
            if b < before.len() {
                assert(now[b] == before[b]);
            }
        }
    }
}

/// The packages of a cache are all its files with the extension of a package, in order.
pub proof fn package_files_are_listed(v: Seq<CachedPackageView>)
    ensures
        package_files(v) == v.filter(
            |p: CachedPackageView| text::has(p.filename, ".pkg.tar"@),
        ),
    decreases v.len(),
{
    reveal(Seq::filter);
    if v.len() > 0 {
        package_files_are_listed(v.drop_last());
    }
}

/// Sizes add up, one by one and list by list.
pub proof fn sizes_add_up(v: Seq<u64>, w: Seq<u64>, n: u64)
    ensures
        sum(Seq::empty()) == 0,
        sum(v.push(n)) == sum(v) + n,
        sum(v + w) == sum(v) + sum(w),
    decreases w.len(),
{
    assert(v.push(n).drop_last() =~= v);
    if w.len() == 0 {
        assert(v + w =~= v);
    } else {
        sizes_add_up(v, w.drop_last(), n);
        assert((v + w).drop_last() =~= v + w.drop_last());
        assert((v + w).last() == w.last());
    }
}

/// The sizes of all directories that could be read count, and the first that could not is
/// the error.
pub proof fn directories_are_read(v: Seq<Result<Vec<u64>, Error>>, next: Result<Vec<u64>, Error>)
    ensures
        first_error(v) is None <==> forall|i: int| 0 <= i < v.len() ==> #[trigger] v[i] is Ok,
        first_error(v.push(next)) == (match (first_error(v), next) {
            (Some(e), _) => Some(e),
            (None, Err(e)) => Some(e@),
            (None, Ok(_)) => None,
        }),
        next matches Ok(sizes) ==> sum(read_sizes(v.push(next))) == sum(read_sizes(v)) + sum(
            sizes@,
        ),
    decreases v.len(),
{
    assert(v.push(next).drop_last() =~= v);
    if let Ok(sizes) = next {
        sizes_add_up(read_sizes(v), sizes@, 0);
    }
    if v.len() > 0 {
        directories_are_read(v.drop_last(), v.last());
        if forall|i: int| 0 <= i < v.len() ==> #[trigger] v[i] is Ok {
            assert forall|i: int| 0 <= i < v.drop_last().len() implies #[trigger] v.drop_last()[i] is Ok by {
                assert(v[i] is Ok);
            }
            assert(v[v.len() - 1] is Ok);
        }
        if first_error(v) is None {
            assert forall|i: int| 0 <= i < v.len() implies #[trigger] v[i] is Ok by {
                if i < v.len() - 1 {
                    assert(v.drop_last()[i] is Ok);
                }
            }
        }
    }
}

/// A file whose name has no part that begins with a digit, or whose first part does, is no
/// version of a package.
pub proof fn versions_stand_behind_names(base: Seq<char>, ending: Seq<char>)
    requires
        !text::has(base, ".pkg.tar"@),
        ({
            let parts = text::split(base, Sep::At('-'));
            starts_version(parts[0]) || forall|i: int|
                0 <= i < parts.len() ==> !starts_version(#[trigger] parts[i])
        }),
    ensures
        package_name(base + ".pkg.tar"@ + ending) is None,
        version_name(base + ".pkg.tar"@ + ending) is None,
{
    let all = base + ".pkg.tar"@ + ending;
    let parts = text::split(base, Sep::At('-'));
    extension_is_found(base, ending);
    assert(all.take(base.len() as int) =~= base);
    if !starts_version(parts[0]) {
        no_version_is_found(parts, 0);
    }
}

/// Where no part begins a version none is found.
proof fn no_version_is_found(parts: Seq<Seq<char>>, from: int)
    requires
        0 <= from,
        forall|i: int| 0 <= i < parts.len() ==> !starts_version(#[trigger] parts[i]),
    ensures
        version_place(parts, from) is None,
    decreases parts.len() - from,
{
    if from < parts.len() {
        no_version_is_found(parts, from + 1);
    }
}

} // verus!
