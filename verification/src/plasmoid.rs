//! Plasma widgets: what their metadata says, and which of them the store has newer.
use crate::bytes;
use crate::data;
use crate::json;
use crate::json::Json;
use crate::package;
use crate::text;
use crate::text::Sep;
use crate::ui;
use crate::ui::{PackageData, PackageDataView};
use vstd::prelude::*;
use vstd::string::*;

verus! {

broadcast use vstd::seq_lib::group_seq_properties;

/// What the metadata of a plasmoid says.
#[derive(Debug)]
pub struct PlasmoidInfo {
    /// Its ID.
    pub id: String,
    /// Its name.
    pub name: String,
    /// Its version.
    pub version: String,
    /// What it is, in a line.
    pub description: String,
}

/// What a `PlasmoidInfo` holds.
#[verifier::ext_equal]
pub struct PlasmoidInfoView {
    pub id: Seq<char>,
    pub name: Seq<char>,
    pub version: Seq<char>,
    pub description: Seq<char>,
}

impl View for PlasmoidInfo {
    type V = PlasmoidInfoView;

    open spec fn view(&self) -> PlasmoidInfoView {
        PlasmoidInfoView {
            id: self.id@,
            name: self.name@,
            version: self.version@,
            description: self.description@,
        }
    }
}

/// A text, or another where there is none.
pub open spec fn or_else(o: Option<Seq<char>>, other: Seq<char>) -> Seq<char> {
    match o {
        Some(s) => s,
        None => other,
    }
}

/// A text, or another where there is none.
fn text_or(o: Option<String>, other: &str) -> (r: String)
    ensures
        r@ == or_else(package::opt_text(o), other@),
{
    match o {
        Some(s) => s,
        None => other.to_owned(),
    }
}

/// What is known of a plasmoid whose metadata has these fields.
pub open spec fn described(
    id: Option<Seq<char>>,
    name: Option<Seq<char>>,
    version: Option<Seq<char>>,
    description: Option<Seq<char>>,
) -> PlasmoidInfoView {
    PlasmoidInfoView {
        id: or_else(id, Seq::empty()),
        name: or_else(name, "Unknown"@),
        version: or_else(version, "unknown"@),
        description: or_else(description, Seq::empty()),
    }
}

/// What is known of a plasmoid whose metadata has these fields.
pub fn describe(
    id: Option<String>,
    name: Option<String>,
    version: Option<String>,
    description: Option<String>,
) -> (r: PlasmoidInfo)
    ensures
        r@ == described(
            package::opt_text(id),
            package::opt_text(name),
            package::opt_text(version),
            package::opt_text(description),
        ),
{
    proof {
        reveal_strlit("");
    }
    PlasmoidInfo {
        id: text_or(id, ""),
        name: text_or(name, "Unknown"),
        version: text_or(version, "unknown"),
        description: text_or(description, ""),
    }
}

/// What a `metadata.json` says, where it could be read: the fields of its member
/// `KPlugin`.
pub open spec fn json_info(document: Option<Json>) -> PlasmoidInfoView {
    match document {
        Some(j) => match json::member(j, "KPlugin"@) {
            Some(k) => described(
                json::text_at(k, "Id"@),
                json::text_at(k, "Name"@),
                json::text_at(k, "Version"@),
                json::text_at(k, "Description"@),
            ),
            None => described(None, None, None, None),
        },
        None => described(None, None, None, None),
    }
}

/// The document that a file holds, where it could be read and is one.
pub open spec fn document(content: Option<Seq<char>>) -> Option<Json> {
    match content {
        Some(c) => json::parsed(c),
        None => None,
    }
}

/// Parses the `metadata.json` of a plasmoid.
pub fn parse_plasmoid_json(content: &Option<String>) -> (r: PlasmoidInfo)
    ensures
        r@ == json_info(document(package::opt_text(*content))),
{
    match content {
        Some(c) => match json::parse(c.as_str()) {
            Some(j) => match json::get(&j, "KPlugin") {
                Some(k) => describe(
                    json::get_text(k, "Id"),
                    json::get_text(k, "Name"),
                    json::get_text(k, "Version"),
                    json::get_text(k, "Description"),
                ),
                None => describe(None, None, None, None),
            },
            None => describe(None, None, None, None),
        },
        None => describe(None, None, None, None),
    }
}

/// What the lines of a `metadata.desktop` say; a later line goes before an earlier one.
pub open spec fn desktop_info(ls: Seq<Seq<char>>) -> PlasmoidInfoView
    decreases ls.len(),
{
    if ls.len() == 0 {
        described(None, None, None, None)
    } else {
        let before = desktop_info(ls.drop_last());
        let line = ls.last();
        let plain = !line.contains('[');
        if text::starts_with(line, "Name="@) && plain {
            PlasmoidInfoView { name: text::rest(line, "Name="@), ..before }
        } else if text::starts_with(line, "X-KDE-PluginInfo-Version="@) {
            PlasmoidInfoView { version: text::rest(line, "X-KDE-PluginInfo-Version="@), ..before }
        } else if text::starts_with(line, "X-KDE-PluginInfo-Name="@) {
            PlasmoidInfoView { id: text::rest(line, "X-KDE-PluginInfo-Name="@), ..before }
        } else if text::starts_with(line, "Comment="@) && plain {
            PlasmoidInfoView { description: text::rest(line, "Comment="@), ..before }
        } else {
            before
        }
    }
}

/// The lines of a file, where it could be read.
pub open spec fn file_lines(content: Option<Seq<char>>) -> Seq<Seq<char>> {
    match content {
        Some(c) => text::lines(c),
        None => Seq::empty(),
    }
}

/// Parses the `metadata.desktop` of a plasmoid.
pub fn parse_plasmoid_desktop(content: &Option<String>) -> (r: PlasmoidInfo)
    ensures
        r@ == desktop_info(file_lines(package::opt_text(*content))),
{
    let mut info = describe(None, None, None, None);
    match content {
        None => info,
        Some(c) => {
            let chars = text::chars_of(c.as_str());
            let ls = text::lines_of(chars.as_slice());
            let ghost all = text::texts(ls@);
            let mut i: usize = 0;
            assert(all.take(0) =~= Seq::empty());
            while i < ls.len()
                invariant
                    i <= ls@.len(),
                    all == text::texts(ls@),
                    info@ == desktop_info(all.take(i as int)),
                decreases ls@.len() - i,
            {
                let line = ls[i].as_slice();
                assert(all.take(i + 1).drop_last() =~= all.take(i as int));
                assert(all.take(i + 1).last() == line@);
                let plain = !text::has_char(line, '[');
                if text::begins_with(line, "Name=") && plain {
                    let value = text::rest_of(line, "Name=");
                    info.name = text::text_of(value.as_slice());
                } else if text::begins_with(line, "X-KDE-PluginInfo-Version=") {
                    let value = text::rest_of(line, "X-KDE-PluginInfo-Version=");
                    info.version = text::text_of(value.as_slice());
                } else if text::begins_with(line, "X-KDE-PluginInfo-Name=") {
                    let value = text::rest_of(line, "X-KDE-PluginInfo-Name=");
                    info.id = text::text_of(value.as_slice());
                } else if text::begins_with(line, "Comment=") && plain {
                    let value = text::rest_of(line, "Comment=");
                    info.description = text::text_of(value.as_slice());
                }
                i += 1;
            }
            assert(all.take(all.len() as int) =~= all);
            info
        },
    }
}

/// The numbers that runs of digits stand for, without the empty ones.
pub open spec fn numbers(pieces: Seq<Seq<char>>) -> Seq<nat>
    decreases pieces.len(),
{
    if pieces.len() == 0 {
        Seq::empty()
    } else if pieces.last().len() == 0 {
        numbers(pieces.drop_last())
    } else {
        numbers(pieces.drop_last()).push(text::digits_value(pieces.last()))
    }
}

/// The numbers in a version: those that its runs of digits stand for.
pub open spec fn version_numbers(v: Seq<char>) -> Seq<nat> {
    numbers(text::split(v, Sep::NotDigit))
}

/// The number at a place, and zero behind the last.
pub open spec fn number_at(v: Seq<nat>, i: int) -> nat {
    if 0 <= i < v.len() {
        v[i]
    } else {
        0
    }
}

/// Whether `a` is newer than `b`: at the first place where their numbers differ, that of
/// `a` is greater.
pub open spec fn newer(a: Seq<nat>, b: Seq<nat>) -> bool {
    exists|i: int|
        #![trigger number_at(a, i)]
        0 <= i && number_at(a, i) > number_at(b, i) && (forall|k: int|
            0 <= k < i ==> number_at(a, k) == number_at(b, k))
}

/// What is between separators that are no digits holds only digits.
proof fn runs_hold_digits(s: Seq<char>)
    ensures
        text::split(s, Sep::NotDigit).len() >= 1,
        forall|i: int|
            0 <= i < text::split(s, Sep::NotDigit).len() ==> text::all_digits(
                #[trigger] text::split(s, Sep::NotDigit)[i],
            ),
    decreases s.len(),
{
    if s.len() > 0 {
        runs_hold_digits(s.drop_last());
        let before = text::split(s.drop_last(), Sep::NotDigit);
        let now = text::split(s, Sep::NotDigit);
        assert forall|i: int| 0 <= i < now.len() implies text::all_digits(#[trigger] now[i]) by {
            if i < before.len() {
                assert(text::all_digits(before[i]));
            }
        }
    }
}

/// The runs of digits in a version.
fn runs_of(v: &[char]) -> (r: Vec<Vec<char>>)
    ensures
        values(r@) == version_numbers(v@),
        forall|i: int| 0 <= i < r@.len() ==> text::all_digits((#[trigger] r@[i])@),
{
    let parts = text::pieces(v, Sep::NotDigit);
    let ghost all = text::texts(parts@);
    let mut r: Vec<Vec<char>> = Vec::new();
    let mut i: usize = 0;
    assert(all.take(0) =~= Seq::empty());
    assert(values(r@) =~= Seq::empty());
    proof {
        runs_hold_digits(v@);
    }
    while i < parts.len()
        invariant
            i <= parts@.len(),
            all == text::texts(parts@),
            forall|k: int| 0 <= k < all.len() ==> text::all_digits(#[trigger] all[k]),
            values(r@) == numbers(all.take(i as int)),
            forall|k: int| 0 <= k < r@.len() ==> text::all_digits((#[trigger] r@[k])@),
        decreases parts@.len() - i,
    {
        let ghost before = values(r@);
        assert(all.take(i + 1).drop_last() =~= all.take(i as int));
        assert(all.take(i + 1).last() == parts@[i as int]@);
        if parts[i].len() > 0 {
            let run = text::copy(parts[i].as_slice());
            assert(run@ == all[i as int]);
            r.push(run);
            assert(values(r@) =~= before.push(text::digits_value(run@)));
        }
        i += 1;
    }
    assert(all.take(all.len() as int) =~= all);
    r
}

/// The numbers that runs of digits stand for.
spec fn values(v: Seq<Vec<char>>) -> Seq<nat> {
    v.map_values(|run: Vec<char>| text::digits_value(run@))
}

/// The number that the first `k` digits stand for when `pad` zeros stand in front.
spec fn padded(s: Seq<char>, pad: int, k: int) -> nat {
    if k <= pad {
        0
    } else {
        text::digits_value(s.take(k - pad))
    }
}

/// Zeros in front do not change a number.
proof fn padding_does_not_count(s: Seq<char>, pad: int)
    requires
        0 <= pad,
    ensures
        padded(s, pad, pad + s.len()) == text::digits_value(s),
{
    assert(s.take(s.len() as int) =~= s);
}

/// The digit at place `k` when `pad` zeros stand in front.
fn digit_at(s: &[char], pad: usize, k: usize) -> (r: u32)
    requires
        text::all_digits(s@),
        k < pad + s@.len(),
    ensures
        r <= 9,
        padded(s@, pad as int, k + 1) == 10 * padded(s@, pad as int, k as int) + r,
{
    if k < pad {
        0
    } else {
        let at: usize = k - pad;
        assert(text::is_digit(s@[at as int]));
        proof {
            let some = s@.take(at + 1);
            assert(some.drop_last() =~= s@.take(at as int));
            assert(some.last() == s@[at as int]);
            assert(s@.take(0) =~= Seq::<char>::empty());
            assert(text::digits_value(s@.take(at as int)) == padded(s@, pad as int, k as int));
        }
        s[at] as u32 - 0x30
    }
}

/// Whether the number that `a` stands for is greater than that of `b`.
fn exceeds(a: &[char], b: &[char]) -> (r: bool)
    requires
        text::all_digits(a@),
        text::all_digits(b@),
    ensures
        r == (text::digits_value(a@) > text::digits_value(b@)),
{
    let n: usize = if a.len() > b.len() {
        a.len()
    } else {
        b.len()
    };
    let in_front_of_a: usize = n - a.len();
    let in_front_of_b: usize = n - b.len();
    let mut more = false;
    let mut less = false;
    let mut k: usize = 0;
    while k < n
        invariant
            text::all_digits(a@),
            text::all_digits(b@),
            in_front_of_a + a@.len() == n,
            in_front_of_b + b@.len() == n,
            k <= n,
            ({
                let x = padded(a@, in_front_of_a as int, k as int);
                let y = padded(b@, in_front_of_b as int, k as int);
                &&& more == (x > y)
                &&& less == (x < y)
            }),
        decreases n - k,
    {
        let x: u32 = digit_at(a, in_front_of_a, k);
        let y: u32 = digit_at(b, in_front_of_b, k);
        if !more && !less {
            more = x > y;
            less = x < y;
        }
        k += 1;
    }
    proof {
        padding_does_not_count(a@, in_front_of_a as int);
        padding_does_not_count(b@, in_front_of_b as int);
    }
    more
}

/// Compares versions to see if the store version is newer.
pub fn version_is_newer(store_version: &str, current_version: &str) -> (r: bool)
    ensures
        r == newer(version_numbers(store_version@), version_numbers(current_version@)),
{
    let s = text::chars_of(store_version);
    let c = text::chars_of(current_version);
    let a = runs_of(s.as_slice());
    let b = runs_of(c.as_slice());
    let ghost in_store = values(a@);
    let ghost in_current = values(b@);
    let zero: Vec<char> = Vec::new();
    let mut i: usize = 0;
    while i < a.len() || i < b.len()
        invariant
            i <= a@.len() || i <= b@.len(),
            zero@.len() == 0,
            in_store == values(a@),
            in_current == values(b@),
            in_store == version_numbers(store_version@),
            in_current == version_numbers(current_version@),
            forall|k: int| 0 <= k < a@.len() ==> text::all_digits((#[trigger] a@[k])@),
            forall|k: int| 0 <= k < b@.len() ==> text::all_digits((#[trigger] b@[k])@),
            forall|k: int| 0 <= k < i ==> number_at(in_store, k) == number_at(in_current, k),
        decreases a@.len() + b@.len() - i,
    {
        let x = if i < a.len() {
            a[i].as_slice()
        } else {
            zero.as_slice()
        };
        let y = if i < b.len() {
            b[i].as_slice()
        } else {
            zero.as_slice()
        };
        assert(text::digits_value(x@) == number_at(in_store, i as int));
        assert(text::digits_value(y@) == number_at(in_current, i as int));
        if exceeds(x, y) {
            return true;
        }
        if exceeds(y, x) {
            proof {
                if newer(in_store, in_current) {
                    let j = choose|j: int|
                        #![trigger number_at(in_store, j)]
                        0 <= j && number_at(in_store, j) > number_at(in_current, j) && (forall|
                            k: int,
                        |
                            0 <= k < j ==> number_at(in_store, k) == number_at(in_current, k));
                    assert(number_at(in_store, j) > number_at(in_current, j));
                }
            }
            return false;
        }
        i += 1;
    }
    false
}

/// No version is newer than itself.
pub proof fn newer_is_irreflexive(a: Seq<nat>)
    ensures
        !newer(a, a),
{
}

/// Of two versions at most one is newer.
pub proof fn newer_is_asymmetric(a: Seq<nat>, b: Seq<nat>)
    requires
        newer(a, b),
    ensures
        !newer(b, a),
{
    if newer(b, a) {
        let i = choose|i: int|
            #![trigger number_at(a, i)]
            0 <= i && number_at(a, i) > number_at(b, i) && (forall|k: int|
                0 <= k < i ==> number_at(a, k) == number_at(b, k));
        let j = choose|j: int|
            #![trigger number_at(b, j)]
            0 <= j && number_at(b, j) > number_at(a, j) && (forall|k: int|
                0 <= k < j ==> number_at(b, k) == number_at(a, k));
        if i < j {
            assert(number_at(b, i) == number_at(a, i));
        } else if j < i {
            assert(number_at(a, j) == number_at(b, j));
        }
    }
}

/// What is newer than something newer is newer.
pub proof fn newer_is_transitive(a: Seq<nat>, b: Seq<nat>, c: Seq<nat>)
    requires
        newer(a, b),
        newer(b, c),
    ensures
        newer(a, c),
{
    let i = choose|i: int|
        #![trigger number_at(a, i)]
        0 <= i && number_at(a, i) > number_at(b, i) && (forall|k: int|
            0 <= k < i ==> number_at(a, k) == number_at(b, k));
    let j = choose|j: int|
        #![trigger number_at(b, j)]
        0 <= j && number_at(b, j) > number_at(c, j) && (forall|k: int|
            0 <= k < j ==> number_at(b, k) == number_at(c, k));
    let m = if i < j {
        i
    } else {
        j
    };
    assert(number_at(a, m) > number_at(c, m)) by {
        if i < j {
            assert(number_at(b, i) == number_at(c, i));
        } else if j < i {
            assert(number_at(a, j) == number_at(b, j));
        }
    }
    assert forall|k: int| 0 <= k < m implies number_at(a, k) == number_at(c, k) by {
        assert(number_at(a, k) == number_at(b, k));
        assert(number_at(b, k) == number_at(c, k));
    }
}

/// Zeros at the end of a version make no difference.
pub proof fn trailing_zeros_do_not_count(a: Seq<nat>, b: Seq<nat>)
    ensures
        newer(a.push(0), b) == newer(a, b),
        newer(b, a.push(0)) == newer(b, a),
{
    assert forall|i: int| number_at(a.push(0), i) == #[trigger] number_at(a, i) by {}
    if newer(a.push(0), b) {
        let i = choose|i: int|
            #![trigger number_at(a.push(0), i)]
            0 <= i && number_at(a.push(0), i) > number_at(b, i) && (forall|k: int|
                0 <= k < i ==> number_at(a.push(0), k) == number_at(b, k));
        assert(number_at(a, i) > number_at(b, i));
        assert forall|k: int| 0 <= k < i implies number_at(a, k) == number_at(b, k) by {
            assert(number_at(a.push(0), k) == number_at(b, k));
        }
    }
    if newer(a, b) {
        let i = choose|i: int|
            #![trigger number_at(a, i)]
            0 <= i && number_at(a, i) > number_at(b, i) && (forall|k: int|
                0 <= k < i ==> number_at(a, k) == number_at(b, k));
        assert(number_at(a.push(0), i) > number_at(b, i));
    }
    if newer(b, a.push(0)) {
        let i = choose|i: int|
            #![trigger number_at(b, i)]
            0 <= i && number_at(b, i) > number_at(a.push(0), i) && (forall|k: int|
                0 <= k < i ==> number_at(b, k) == number_at(a.push(0), k));
        assert(number_at(b, i) > number_at(a, i));
        assert forall|k: int| 0 <= k < i implies number_at(b, k) == number_at(a, k) by {
            assert(number_at(b, k) == number_at(a.push(0), k));
        }
    }
    if newer(b, a) {
        let i = choose|i: int|
            #![trigger number_at(b, i)]
            0 <= i && number_at(b, i) > number_at(a, i) && (forall|k: int|
                0 <= k < i ==> number_at(b, k) == number_at(a, k));
        assert(number_at(b, i) > number_at(a.push(0), i));
    }
}

/// What lists of names and versions hold.
pub open spec fn pairs(v: Seq<(String, String)>) -> Seq<(Seq<char>, Seq<char>)> {
    v.map_values(|p: (String, String)| (p.0@, p.1@))
}

/// The items that have a name and a version, neither of them empty.
pub open spec fn listed(items: Seq<(Option<Seq<char>>, Option<Seq<char>>)>) -> Seq<
    (Seq<char>, Seq<char>),
>
    decreases items.len(),
{
    if items.len() == 0 {
        Seq::empty()
    } else {
        let before = listed(items.drop_last());
        let name = or_else(items.last().0, Seq::empty());
        let version = or_else(items.last().1, Seq::empty());
        if name.len() > 0 && version.len() > 0 {
            before.push((name, version))
        } else {
            before
        }
    }
}

/// Adds an item to a list of versions, where it has a name and a version and neither of
/// them is empty.
pub fn list_version(
    v: &mut Vec<(String, String)>,
    name: Option<String>,
    version: Option<String>,
)
    ensures
        pairs(final(v)@) == (if or_else(package::opt_text(name), Seq::empty()).len() > 0 && or_else(
            package::opt_text(version),
            Seq::empty(),
        ).len() > 0 {
            pairs(old(v)@).push(
                (
                    or_else(package::opt_text(name), Seq::empty()),
                    or_else(package::opt_text(version), Seq::empty()),
                ),
            )
        } else {
            pairs(old(v)@)
        }),
{
    proof {
        reveal_strlit("");
    }
    let name = text_or(name, "");
    let version = text_or(version, "");
    if !name.as_str().is_empty() && !version.as_str().is_empty() {
        let ghost before = pairs(v@);
        v.push((name, version));
        assert(pairs(v@) =~= before.push((name@, version@)));
    }
}

/// The names and the versions of the items of the store.
pub open spec fn store_items(document: Option<Json>) -> Seq<(Option<Seq<char>>, Option<Seq<char>>)> {
    match document {
        Some(j) => match json::member(j, "ocs"@) {
            Some(o) => match json::items_at(o, "data"@) {
                Some(items) => items.map_values(
                    |item: Json| (json::text_at(item, "name"@), json::text_at(item, "version"@)),
                ),
                None => Seq::empty(),
            },
            None => Seq::empty(),
        },
        None => Seq::empty(),
    }
}

/// The versions that the raw answer of the store lists, where there is one.
pub fn parse_store_versions(response: &Option<Vec<u8>>) -> (r: Vec<(String, String)>)
    ensures
        pairs(r@) == listed(
            store_items(
                match *response {
                    Some(b) => json::parsed(bytes::lossy_text(b@)),
                    None => None,
                },
            ),
        ),
{
    let mut r: Vec<(String, String)> = Vec::new();
    assert(pairs(r@) =~= Seq::empty());
    match response {
        None => r,
        Some(b) => {
            let t = bytes::lossy(b.as_slice());
            match json::parse(t.as_str()) {
                None => r,
                Some(j) => match json::get(&j, "ocs") {
                    None => r,
                    Some(o) => match json::get_items(o, "data") {
                        None => r,
                        Some(items) => {
                            let ghost all = json::all_held(items@).map_values(
                                |item: Json|
                                    (json::text_at(item, "name"@), json::text_at(item, "version"@)),
                            );
                            let mut i: usize = 0;
                            assert(all.take(0) =~= Seq::empty());
                            while i < items.len()
                                invariant
                                    i <= items@.len(),
                                    all == json::all_held(items@).map_values(
                                        |item: Json|
                                            (
                                                json::text_at(item, "name"@),
                                                json::text_at(item, "version"@),
                                            ),
                                    ),
                                    pairs(r@) == listed(all.take(i as int)),
                                decreases items@.len() - i,
                            {
                                assert(all.take(i + 1).drop_last() =~= all.take(i as int));
                                assert(json::all_held(items@)[i as int] == json::held(
                                    items@[i as int],
                                ));
                                let name = json::get_text(&items[i], "name");
                                let version = json::get_text(&items[i], "version");
                                list_version(&mut r, name, version);
                                i += 1;
                            }
                            assert(all.take(all.len() as int) =~= all);
                            r
                        },
                    },
                },
            }
        },
    }
}

/// The version that the store has for a name: that of the first item of that name.
pub open spec fn store_version(store: Seq<(Seq<char>, Seq<char>)>, name: Seq<char>) -> Option<
    Seq<char>,
>
    decreases store.len(),
{
    if store.len() == 0 {
        None
    } else if store[0].0 == name {
        Some(store[0].1)
    } else {
        store_version(store.drop_first(), name)
    }
}

/// The version that the store has for a name.
fn find_version(store: &Vec<(String, String)>, name: &str) -> (r: Option<String>)
    ensures
        package::opt_text(r) == store_version(pairs(store@), name@),
{
    let ghost all = pairs(store@);
    let mut i: usize = 0;
    assert(all.skip(0) =~= all);
    while i < store.len()
        invariant
            i <= store@.len(),
            all == pairs(store@),
            store_version(all, name@) == store_version(all.skip(i as int), name@),
        decreases store@.len() - i,
    {
        assert(all.skip(i as int)[0] == (store@[i as int].0@, store@[i as int].1@));
        assert(all.skip(i as int).drop_first() =~= all.skip(i + 1));
        if text::equals(store[i].0.as_str(), name) {
            return Some(store[i].1.clone());
        }
        i += 1;
    }
    None
}

/// The update on offer for a plasmoid: the store's version, where the plasmoid is the
/// user's, has a name and the store has a newer one.
pub open spec fn offered(
    info: PlasmoidInfoView,
    is_user: bool,
    store: Seq<(Seq<char>, Seq<char>)>,
) -> Option<Seq<char>> {
    match store_version(store, info.name) {
        Some(v) => if is_user && info.name.len() > 0 && newer(
            version_numbers(v),
            version_numbers(info.version),
        ) {
            Some(v)
        } else {
            None
        },
        None => None,
    }
}

/// The row of a plasmoid.
pub open spec fn plasmoid_row(
    info: PlasmoidInfoView,
    is_user: bool,
    store: Seq<(Seq<char>, Seq<char>)>,
) -> PackageDataView {
    PackageDataView {
        url: "https://store.kde.org/search?search="@ + text::replace(
            info.name,
            seq![' '],
            seq!['+'],
        ),
        ..ui::plain_row(
            info.id,
            info.name,
            info.version,
            info.description,
            if is_user {
                "kde-store"@
            } else {
                "system"@
            },
            3,
            true,
            offered(info, is_user, store) is Some,
        )
    }
}

/// The row of the update of a plasmoid, where one is on offer: it shows the change of the
/// version.
pub open spec fn plasmoid_update(
    info: PlasmoidInfoView,
    is_user: bool,
    store: Seq<(Seq<char>, Seq<char>)>,
) -> Option<PackageDataView> {
    match offered(info, is_user, store) {
        Some(v) => Some(
            PackageDataView {
                version: data::change(info.version, v),
                ..plasmoid_row(info, is_user, store)
            },
        ),
        None => None,
    }
}

/// The row of a plasmoid, and that of its update where one is on offer.
pub fn plasmoid_to_ui(info: &PlasmoidInfo, is_user: bool, store: &Vec<(String, String)>) -> (r: (
    PackageData,
    Option<PackageData>,
))
    ensures
        r.0@ == plasmoid_row(info@, is_user, pairs(store@)),
        match r.1 {
            Some(u) => plasmoid_update(info@, is_user, pairs(store@)) == Some(u@),
            None => plasmoid_update(info@, is_user, pairs(store@)) is None,
        },
{
    let offer = if is_user && !info.name.as_str().is_empty() {
        match find_version(store, info.name.as_str()) {
            Some(v) => if version_is_newer(v.as_str(), info.version.as_str()) {
                Some(v)
            } else {
                None
            },
            None => None,
        }
    } else {
        None
    };
    let name = text::chars_of(info.name.as_str());
    let space: Vec<char> = vec![' '];
    let plus: Vec<char> = vec!['+'];
    assert(space@ =~= seq![' '] && plus@ =~= seq!['+']);
    let query = text::replaced(name.as_slice(), space.as_slice(), plus.as_slice());
    let query = text::text_of(query.as_slice());
    let repository = if is_user {
        "kde-store".to_owned()
    } else {
        "system".to_owned()
    };
    let mut row = PackageData::plain(
        info.id.clone(),
        info.name.clone(),
        info.version.clone(),
        info.description.clone(),
        repository,
        3,
        true,
        offer.is_some(),
    );
    row.url = "https://store.kde.org/search?search=".to_owned().concat(query.as_str());
    match offer {
        Some(v) => {
            let mut update = row.clone();
            update.version = data::change_of(info.version.as_str(), v.as_str());
            (row, Some(update))
        },
        None => (row, None),
    }
}

/// Where the metadata of a plasmoid comes from.
#[derive(Debug)]
pub enum Metadata {
    /// A `metadata.json`, with its content where it could be read.
    Document(Option<String>),
    /// A `metadata.desktop`, with its content where it could be read.
    Desktop(Option<String>),
    /// Neither: only the name of its directory is known.
    Missing(String),
}

/// What is known of a plasmoid.
pub open spec fn info(m: Metadata) -> PlasmoidInfoView {
    match m {
        Metadata::Document(c) => json_info(document(package::opt_text(c))),
        Metadata::Desktop(c) => desktop_info(file_lines(package::opt_text(c))),
        Metadata::Missing(name) => PlasmoidInfoView {
            id: name@,
            name: name@,
            version: "unknown"@,
            description: Seq::empty(),
        },
    }
}

/// A plasmoid that was found.
#[derive(Debug)]
pub struct Plasmoid {
    /// The directory in which plasmoids were looked for.
    pub place: String,
    /// Its metadata.
    pub metadata: Metadata,
}

/// Whether a directory is the user's own.
pub open spec fn is_users(place: Seq<char>) -> bool {
    text::has(place, ".local"@)
}

/// The rows of plasmoids.
pub open spec fn plasmoid_rows(v: Seq<Plasmoid>, store: Seq<(Seq<char>, Seq<char>)>) -> Seq<
    PackageDataView,
> {
    v.map_values(|p: Plasmoid| plasmoid_row(info(p.metadata), is_users(p.place@), store))
}

/// The rows of the updates on offer for plasmoids.
pub open spec fn plasmoid_updates(v: Seq<Plasmoid>, store: Seq<(Seq<char>, Seq<char>)>) -> Seq<
    PackageDataView,
>
    decreases v.len(),
{
    if v.len() == 0 {
        Seq::empty()
    } else {
        let before = plasmoid_updates(v.drop_last(), store);
        match plasmoid_update(info(v.last().metadata), is_users(v.last().place@), store) {
            Some(u) => before.push(u),
            None => before,
        }
    }
}

/// What is known of a plasmoid.
fn info_of(m: &Metadata) -> (r: PlasmoidInfo)
    ensures
        r@ == info(*m),
{
    match m {
        Metadata::Document(c) => parse_plasmoid_json(c),
        Metadata::Desktop(c) => parse_plasmoid_desktop(c),
        Metadata::Missing(name) => PlasmoidInfo {
            id: name.clone(),
            name: name.clone(),
            version: "unknown".to_owned(),
            description: String::new(),
        },
    }
}

/// Lists the plasmoids that were found and, separately, their updates, given the versions
/// that the store lists.
pub fn list_plasmoids_with_updates(found: &Vec<Plasmoid>, store: &Vec<(String, String)>) -> (r: (
    Vec<PackageData>,
    Vec<PackageData>,
))
    ensures
        ui::rows(r.0@) == plasmoid_rows(found@, pairs(store@)),
        ui::rows(r.1@) == plasmoid_updates(found@, pairs(store@)),
{
    let ghost wanted = plasmoid_rows(found@, pairs(store@));
    let mut plasmoids: Vec<PackageData> = Vec::new();
    let mut updates: Vec<PackageData> = Vec::new();
    let mut i: usize = 0;
    assert(found@.take(0) =~= Seq::empty());
    assert(ui::rows(updates@) =~= Seq::empty());
    while i < found.len()
        invariant
            i <= found@.len(),
            wanted == plasmoid_rows(found@, pairs(store@)),
            ui::rows(plasmoids@) == wanted.take(i as int),
            ui::rows(updates@) == plasmoid_updates(found@.take(i as int), pairs(store@)),
        decreases found@.len() - i,
    {
        let ghost before = ui::rows(plasmoids@);
        let ghost known = ui::rows(updates@);
        assert(found@.take(i + 1).drop_last() =~= found@.take(i as int));
        let place = text::chars_of(found[i].place.as_str());
        let is_user = text::mentions(place.as_slice(), ".local");
        let info = info_of(&found[i].metadata);
        let (row, update) = plasmoid_to_ui(&info, is_user, store);
        plasmoids.push(row);
        assert(wanted[i as int] == row@);
        assert(ui::rows(plasmoids@) =~= before.push(row@));
        match update {
            Some(u) => {
                updates.push(u);
                assert(ui::rows(updates@) =~= known.push(u@));
            },
            None => {},
        }
        i += 1;
    }
    assert(wanted.take(wanted.len() as int) =~= wanted);
    assert(found@.take(found@.len() as int) =~= found@);
    (plasmoids, updates)
}

/// The updates of plasmoids are those of the plasmoids that are shown with one, in their
/// order; each shows the change of the version and is otherwise the row of its plasmoid.
pub proof fn updates_are_listed_separately(
    v: Seq<Plasmoid>,
    store: Seq<(Seq<char>, Seq<char>)>,
)
    ensures
        ({
            let marked = data::with_update(plasmoid_rows(v, store));
            let listed = plasmoid_updates(v, store);
            &&& listed.len() == marked.len()
            &&& forall|k: int|
                0 <= k < listed.len() ==> #[trigger] listed[k] == (PackageDataView {
                    version: listed[k].version,
                    ..marked[k]
                })
        }),
    decreases v.len(),
{
    if v.len() > 0 {
        updates_are_listed_separately(v.drop_last(), store);
        let rows = plasmoid_rows(v, store);
        assert(rows.drop_last() =~= plasmoid_rows(v.drop_last(), store));
        let marked = data::with_update(rows);
        let listed = plasmoid_updates(v, store);
        let before = plasmoid_updates(v.drop_last(), store);
        assert forall|k: int| 0 <= k < listed.len() implies #[trigger] listed[k] == (
        PackageDataView { version: listed[k].version, ..marked[k] }) by {
            if k < before.len() {
                assert(listed[k] == before[k]);
            }
        }
    }
}

/// A plasmoid is shown with an update only where it is the user's own and the store lists a
/// newer version under its name.
pub proof fn only_own_plasmoids_have_updates(
    v: Seq<Plasmoid>,
    store: Seq<(Seq<char>, Seq<char>)>,
    i: int,
)
    requires
        0 <= i < v.len(),
        plasmoid_rows(v, store)[i].has_update,
    ensures
        is_users(v[i].place@),
        store_version(store, info(v[i].metadata).name) matches Some(version) && newer(
            version_numbers(version),
            version_numbers(info(v[i].metadata).version),
        ),
{
}

/// A number behind what is no digit is one more number of a version, and nothing else is.
pub proof fn versions_are_rows_of_numbers(v: Seq<char>, c: char, n: nat)
    requires
        !text::is_digit(c),
    ensures
        version_numbers(Seq::empty()).len() == 0,
        version_numbers(text::decimal(n)) == seq![n],
        version_numbers(v.push(c) + text::decimal(n)) == version_numbers(v).push(n),
        version_numbers(v.push(c)) == version_numbers(v),
{
    let d = text::decimal(n);
    text::written_numbers_are_read(n, n);
    assert forall|i: int| 0 <= i < d.len() implies !Sep::NotDigit.splits(#[trigger] d[i]) by {
        assert(text::is_digit(d[i]));
    }
    let none = Seq::<char>::empty();
    text::unsplit(d, Sep::NotDigit);
    text::unsplit(none, Sep::NotDigit);
    text::split_behind(v, c, d, Sep::NotDigit);
    text::split_behind(v, c, none, Sep::NotDigit);
    assert(v.push(c) + none =~= v.push(c));
    let parts = text::split(v, Sep::NotDigit);
    assert(parts.push(d).drop_last() =~= parts);
    assert(parts.push(none).drop_last() =~= parts);
    assert(seq![d].drop_last() =~= Seq::empty());
    assert(seq![none].drop_last() =~= Seq::empty());
    assert(numbers(Seq::empty()) =~= Seq::empty());
    assert(version_numbers(d) =~= seq![n]);
}

/// The first number in which two versions differ decides which is newer, whatever follows,
/// and versions that do not differ are not newer than one another.
pub proof fn first_difference_decides(
    same: Seq<nat>,
    x: nat,
    y: nat,
    a: Seq<nat>,
    b: Seq<nat>,
)
    requires
        x != y,
    ensures
        newer(same.push(x) + a, same.push(y) + b) <==> x > y,
        x > 0 ==> newer(same.push(x) + a, same),
        !newer(same, same.push(x) + a),
        !newer(same, same),
{
    let p = same.push(x) + a;
    let q = same.push(y) + b;
    let n = same.len() as int;
    assert(number_at(p, n) == x && number_at(q, n) == y && number_at(same, n) == 0);
    assert forall|k: int| 0 <= k < n implies number_at(p, k) == number_at(q, k) && number_at(p, k)
        == number_at(same, k) by {
        assert(p[k] == same[k] && q[k] == same[k]);
    }
    if newer(p, q) && x < y {
        let i = choose|i: int|
            #![trigger number_at(p, i)]
            0 <= i && number_at(p, i) > number_at(q, i) && (forall|k: int|
                0 <= k < i ==> number_at(p, k) == number_at(q, k));
        if i > n {
            assert(number_at(p, n) == number_at(q, n));
        }
    }
    if newer(same, p) {
        let i = choose|i: int|
            #![trigger number_at(same, i)]
            0 <= i && number_at(same, i) > number_at(p, i) && (forall|k: int|
                0 <= k < i ==> number_at(same, k) == number_at(p, k));
        assert(number_at(same, i) > number_at(p, i));
    }
}

/// A plasmoid that is the user's, that has a name and of which the store lists a version
/// whose numbers are newer, is shown with an update, and the update is listed with the
/// change from its version to that of the store.
pub proof fn newer_versions_are_offered(
    v: Seq<Plasmoid>,
    store: Seq<(Seq<char>, Seq<char>)>,
    i: int,
    k: int,
)
    requires
        0 <= i < v.len(),
        text::has(v[i].place@, ".local"@),
        info(v[i].metadata).name.len() > 0,
        0 <= k < store.len(),
        store[k].0 == info(v[i].metadata).name,
        forall|j: int| 0 <= j < k ==> (#[trigger] store[j]).0 != info(v[i].metadata).name,
        newer(version_numbers(store[k].1), version_numbers(info(v[i].metadata).version)),
    ensures
        plasmoid_rows(v, store)[i].has_update,
        exists|n: int|
            0 <= n < plasmoid_updates(v, store).len() && (
            #[trigger] plasmoid_updates(v, store)[n]).name == info(v[i].metadata).id
                && plasmoid_updates(v, store)[n].display_name == info(v[i].metadata).name
                && plasmoid_updates(v, store)[n].has_update && plasmoid_updates(v, store)[n].version
                == info(v[i].metadata).version + " → "@ + store[k].1,
    decreases v.len(),
{
    first_in_store(store, info(v[i].metadata).name, k);
    let head = v.drop_last();
    let before = plasmoid_updates(head, store);
    let now = plasmoid_updates(v, store);
    if i < head.len() {
        assert(head[i] == v[i]);
        newer_versions_are_offered(head, store, i, k);
        let n = choose|n: int|
            0 <= n < before.len() && (#[trigger] before[n]).name == info(v[i].metadata).id
                && before[n].display_name == info(v[i].metadata).name && before[n].has_update
                && before[n].version == info(v[i].metadata).version + " → "@ + store[k].1;
        assert(now[n] == before[n]);
    } else {
        assert(now[now.len() - 1].name == info(v[i].metadata).id);
    }
}

/// Where the store lists no newer version of a plasmoid, or the plasmoid is not the user's,
/// none is offered.
pub proof fn other_plasmoids_have_no_update(
    v: Seq<Plasmoid>,
    store: Seq<(Seq<char>, Seq<char>)>,
    i: int,
)
    requires
        0 <= i < v.len(),
        !text::has(v[i].place@, ".local"@) || (forall|k: int|
            0 <= k < store.len() ==> (#[trigger] store[k]).0 != info(v[i].metadata).name || !newer(
                version_numbers(store[k].1),
                version_numbers(info(v[i].metadata).version),
            )),
    ensures
        !plasmoid_rows(v, store)[i].has_update,
{
    listed_in_store(store, info(v[i].metadata).name);
}

/// All plasmoids are shown, in order, with what their metadata says.
pub proof fn plasmoids_are_shown(v: Seq<Plasmoid>, store: Seq<(Seq<char>, Seq<char>)>, i: int)
    requires
        0 <= i < v.len(),
    ensures
        plasmoid_rows(v, store).len() == v.len(),
        ({
            let row = plasmoid_rows(v, store)[i];
            let known = info(v[i].metadata);
            &&& row.name == known.id
            &&& row.display_name == known.name
            &&& row.version == known.version
            &&& row.description == known.description
            &&& row.backend == 3
            &&& row.installed
            &&& row.repository == (if text::has(v[i].place@, ".local"@) {
                "kde-store"@
            } else {
                "system"@
            })
            &&& row.url == "https://store.kde.org/search?search="@ + text::replace(
                known.name,
                seq![' '],
                seq!['+'],
            )
        }),
{
}

/// The metadata of a plasmoid is what the object `KPlugin` of its document says, with
/// defaults for what it does not say.
pub proof fn documents_are_read(document: Option<Json>, j: Json, k: Json)
    requires
        document == Some(j),
        json::member(j, "KPlugin"@) == Some(k),
    ensures
        ({
            let r = json_info(document);
            &&& json::text_at(k, "Id"@) matches Some(t) ==> r.id == t
            &&& json::text_at(k, "Id"@) is None ==> r.id.len() == 0
            &&& json::text_at(k, "Name"@) matches Some(t) ==> r.name == t
            &&& json::text_at(k, "Name"@) is None ==> r.name == "Unknown"@
            &&& json::text_at(k, "Version"@) matches Some(t) ==> r.version == t
            &&& json::text_at(k, "Version"@) is None ==> r.version == "unknown"@
            &&& json::text_at(k, "Description"@) matches Some(t) ==> r.description == t
            &&& json::text_at(k, "Description"@) is None ==> r.description.len() == 0
        }),
{
}

/// A line of a desktop file that sets the name, the version, the ID or the comment of a
/// plasmoid sets it, whatever was set before, and nothing else.
pub proof fn later_lines_count(ls: Seq<Seq<char>>, value: Seq<char>)
    requires
        !value.contains('['),
    ensures
        desktop_info(ls.push("Name="@ + value)) == (PlasmoidInfoView {
            name: value,
            ..desktop_info(ls)
        }),
        desktop_info(ls.push("Comment="@ + value)) == (PlasmoidInfoView {
            description: value,
            ..desktop_info(ls)
        }),
        desktop_info(ls.push("X-KDE-PluginInfo-Version="@ + value)) == (PlasmoidInfoView {
            version: value,
            ..desktop_info(ls)
        }),
        desktop_info(ls.push("X-KDE-PluginInfo-Name="@ + value)) == (PlasmoidInfoView {
            id: value,
            ..desktop_info(ls)
        }),
        desktop_info(Seq::empty()) == (PlasmoidInfoView {
            id: Seq::empty(),
            name: "Unknown"@,
            version: "unknown"@,
            description: Seq::empty(),
        }),
{
    reveal_strlit("Name=");
    reveal_strlit("Comment=");
    reveal_strlit("X-KDE-PluginInfo-Version=");
    reveal_strlit("X-KDE-PluginInfo-Name=");
    line_sets(ls, "Name="@, value);
    line_sets(ls, "Comment="@, value);
    line_sets(ls, "X-KDE-PluginInfo-Version="@, value);
    line_sets(ls, "X-KDE-PluginInfo-Name="@, value);
    differs("Comment="@ + value, "Name="@, 0);
    differs("X-KDE-PluginInfo-Version="@ + value, "Name="@, 0);
    differs("X-KDE-PluginInfo-Name="@ + value, "Name="@, 0);
    differs("X-KDE-PluginInfo-Name="@ + value, "X-KDE-PluginInfo-Version="@, 17);
    differs("Comment="@ + value, "X-KDE-PluginInfo-Version="@, 0);
    differs("Comment="@ + value, "X-KDE-PluginInfo-Name="@, 0);
}

/// A line that another character stands in does not start so.
proof fn differs(line: Seq<char>, key: Seq<char>, at: int)
    requires
        0 <= at < key.len(),
        at < line.len(),
        line[at] != key[at],
    ensures
        !text::starts_with(line, key),
{
    if text::starts_with(line, key) {
        assert(line.subrange(0, key.len() as int)[at] == line[at]);
    }
}

/// A line that is a key and a value starts with the key, and the rest of it is the value.
proof fn line_sets(ls: Seq<Seq<char>>, key: Seq<char>, value: Seq<char>)
    requires
        !value.contains('['),
        !key.contains('['),
    ensures
        text::starts_with(key + value, key),
        text::rest(key + value, key) == value,
        !(key + value).contains('['),
        ls.push(key + value).drop_last() == ls,
        ls.push(key + value).last() == key + value,
{
    let line = key + value;
    text::start_means_made_of(line, key);
    assert(ls.push(line).drop_last() =~= ls);
    if line.contains('[') {
        let i = choose|i: int| 0 <= i < line.len() && line[i] == '[';
        if i < key.len() {
            assert(key[i] == '[');
        } else {
            assert(value[i - key.len()] == '[');
        }
    }
}

/// What the store lists counts where it has a name and a version, in order.
pub proof fn store_items_count(items: Seq<(Option<Seq<char>>, Option<Seq<char>>)>)
    ensures
        listed(items) == items.filter(
            |p: (Option<Seq<char>>, Option<Seq<char>>)|
                p.0 is Some && p.0.unwrap().len() > 0 && p.1 is Some && p.1.unwrap().len() > 0,
        ).map_values(
            |p: (Option<Seq<char>>, Option<Seq<char>>)| (p.0.unwrap(), p.1.unwrap()),
        ),
    decreases items.len(),
{
    reveal(Seq::filter);
    if items.len() > 0 {
        store_items_count(items.drop_last());
    }
    assert(listed(items) =~= items.filter(
        |p: (Option<Seq<char>>, Option<Seq<char>>)|
            p.0 is Some && p.0.unwrap().len() > 0 && p.1 is Some && p.1.unwrap().len() > 0,
    ).map_values(|p: (Option<Seq<char>>, Option<Seq<char>>)| (p.0.unwrap(), p.1.unwrap())));
}

/// The version of the first item of a name is the one that the store has.
proof fn first_in_store(store: Seq<(Seq<char>, Seq<char>)>, name: Seq<char>, k: int)
    requires
        0 <= k < store.len(),
        store[k].0 == name,
        forall|j: int| 0 <= j < k ==> (#[trigger] store[j]).0 != name,
    ensures
        store_version(store, name) == Some(store[k].1),
    decreases store.len(),
{
    if k > 0 {
        assert(store[0].0 != name);
        let tail = store.drop_first();
        assert forall|j: int| 0 <= j < k - 1 implies (#[trigger] tail[j]).0 != name by {
            assert(tail[j] == store[j + 1]);
        }
        first_in_store(tail, name, k - 1);
    }
}

/// The version that the store has for a name is that of an item of the name.
proof fn listed_in_store(store: Seq<(Seq<char>, Seq<char>)>, name: Seq<char>)
    ensures
        store_version(store, name) matches Some(version) ==> exists|k: int|
            0 <= k < store.len() && (#[trigger] store[k]).0 == name && store[k].1 == version,
    decreases store.len(),
{
    if store.len() > 0 && store[0].0 != name {
        let tail = store.drop_first();
        listed_in_store(tail, name);
        if let Some(version) = store_version(store, name) {
            let k = choose|k: int|
                0 <= k < tail.len() && (#[trigger] tail[k]).0 == name && tail[k].1 == version;
            assert(store[k + 1] == tail[k]);
        }
    }
}

/// Of a plasmoid whose version begins like that of the store, the last number decides: a
/// greater one is an update, from the one version to the other, and a smaller one is none.
/// One that is not the user's has no update.
pub proof fn greater_numbers_are_updates(
    info: PlasmoidInfoView,
    store: Seq<(Seq<char>, Seq<char>)>,
    k: int,
    front: Seq<char>,
    c: char,
    m: nat,
    n: nat,
)
    requires
        info.name.len() > 0,
        0 <= k < store.len(),
        store[k].0 == info.name,
        forall|j: int| 0 <= j < k ==> (#[trigger] store[j]).0 != info.name,
        !text::is_digit(c),
        info.version == front.push(c) + text::decimal(m),
        store[k].1 == front.push(c) + text::decimal(n),
    ensures
        plasmoid_row(info, true, store).has_update <==> n > m,
        plasmoid_update(info, true, store) is Some <==> n > m,
        plasmoid_update(info, true, store) matches Some(u) ==> {
            &&& u.version == info.version + " → "@ + store[k].1
            &&& u.name == info.id
            &&& u.display_name == info.name
            &&& u.has_update
        },
        !plasmoid_row(info, false, store).has_update,
        plasmoid_update(info, false, store) is None,
{
    first_in_store(store, info.name, k);
    versions_are_rows_of_numbers(front, c, m);
    versions_are_rows_of_numbers(front, c, n);
    let same = version_numbers(front);
    let none = Seq::<nat>::empty();
    assert(same.push(n) + none =~= same.push(n));
    assert(same.push(m) + none =~= same.push(m));
    if n != m {
        first_difference_decides(same, n, m, none, none);
    } else {
        first_difference_decides(same.push(n), 0, 1, none, none);
    }
}

/// What is known of a plasmoid comes from its document or from its desktop file, line by
/// line; where there is neither its directory names it.
pub proof fn metadata_is_read(c: String, name: String)
    ensures
        info(Metadata::Document(Some(c))) == json_info(json::parsed(c@)),
        info(Metadata::Document(None)) == json_info(None),
        info(Metadata::Desktop(Some(c))) == desktop_info(text::lines(c@)),
        info(Metadata::Desktop(None)) == desktop_info(Seq::empty()),
        info(Metadata::Missing(name)).id == name@,
        info(Metadata::Missing(name)).name == name@,
        info(Metadata::Missing(name)).version == "unknown"@,
        info(Metadata::Missing(name)).description.len() == 0,
        json_info(None).id.len() == 0,
        json_info(None).name == "Unknown"@,
        json_info(None).version == "unknown"@,
        json_info(None).description.len() == 0,
        desktop_info(Seq::empty()).id.len() == 0,
        desktop_info(Seq::empty()).name == "Unknown"@,
        desktop_info(Seq::empty()).version == "unknown"@,
        desktop_info(Seq::empty()).description.len() == 0,
{
}

} // verus!
