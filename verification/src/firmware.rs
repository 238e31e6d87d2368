//! Firmware devices, as `fwupdmgr` reports them.
use crate::bytes;
use crate::json;
use crate::json::Json;
use crate::package;
use crate::plasmoid;
use crate::text;
use crate::ui;
use crate::ui::{PackageData, PackageDataView};
use serde_json::Value;
use vstd::prelude::*;
use vstd::string::*;

verus! {

broadcast use vstd::seq_lib::group_seq_properties;

/// What a report says of a device.
#[derive(Debug)]
pub struct Device {
    /// Its name.
    pub name: Option<String>,
    /// The version of its firmware.
    pub version: Option<String>,
    /// Who makes it.
    pub vendor: Option<String>,
    /// Its ID.
    pub device_id: Option<String>,
    /// Whether its firmware can be updated.
    pub updatable: bool,
}

/// What a `Device` holds.
#[verifier::ext_equal]
pub struct DeviceView {
    pub name: Option<Seq<char>>,
    pub version: Option<Seq<char>>,
    pub vendor: Option<Seq<char>>,
    pub device_id: Option<Seq<char>>,
    pub updatable: bool,
}

impl View for Device {
    type V = DeviceView;

    open spec fn view(&self) -> DeviceView {
        DeviceView {
            name: package::opt_text(self.name),
            version: package::opt_text(self.version),
            vendor: package::opt_text(self.vendor),
            device_id: package::opt_text(self.device_id),
            updatable: self.updatable,
        }
    }
}

/// What a list of devices holds.
pub open spec fn devices(v: Seq<Device>) -> Seq<DeviceView> {
    v.map_values(|d: Device| d@)
}

/// The row of a device.
pub open spec fn device_row(d: DeviceView) -> PackageDataView {
    let vendor = plasmoid::or_else(d.vendor, Seq::empty());
    ui::plain_row(
        plasmoid::or_else(d.device_id, Seq::empty()),
        plasmoid::or_else(d.name, "Unknown Device"@),
        plasmoid::or_else(d.version, "unknown"@),
        if vendor.len() == 0 {
            "Firmware device"@
        } else {
            "Firmware by "@ + vendor
        },
        "fwupd"@,
        4,
        true,
        false,
    )
}

/// The rows of the devices whose firmware can be updated.
pub open spec fn device_rows(v: Seq<DeviceView>) -> Seq<PackageDataView>
    decreases v.len(),
{
    if v.len() == 0 {
        Seq::empty()
    } else if v.last().updatable {
        device_rows(v.drop_last()).push(device_row(v.last()))
    } else {
        device_rows(v.drop_last())
    }
}

/// The row of a device.
fn device_to_ui(d: &Device) -> (r: PackageData)
    ensures
        r@ == device_row(d@),
{
    let vendor = match &d.vendor {
        Some(v) => v.clone(),
        None => String::new(),
    };
    let description = if vendor.as_str().is_empty() {
        "Firmware device".to_owned()
    } else {
        "Firmware by ".to_owned().concat(vendor.as_str())
    };
    PackageData::plain(
        match &d.device_id {
            Some(id) => id.clone(),
            None => String::new(),
        },
        match &d.name {
            Some(name) => name.clone(),
            None => "Unknown Device".to_owned(),
        },
        match &d.version {
            Some(version) => version.clone(),
            None => "unknown".to_owned(),
        },
        description,
        "fwupd".to_owned(),
        4,
        true,
        false,
    )
}

/// The rows of the devices whose firmware can be updated.
pub fn devices_to_ui(v: &Vec<Device>) -> (r: Vec<PackageData>)
    ensures
        ui::rows(r@) == device_rows(devices(v@)),
{
    let ghost all = devices(v@);
    let mut r: Vec<PackageData> = Vec::new();
    let mut i: usize = 0;
    assert(all.take(0) =~= Seq::empty());
    assert(ui::rows(r@) =~= Seq::empty());
    while i < v.len()
        invariant
            i <= v@.len(),
            all == devices(v@),
            ui::rows(r@) == device_rows(all.take(i as int)),
        decreases v@.len() - i,
    {
        let ghost before = ui::rows(r@);
        assert(all.take(i + 1).drop_last() =~= all.take(i as int));
        assert(all.take(i + 1).last() == v@[i as int]@);
        if v[i].updatable {
            let row = device_to_ui(&v[i]);
            r.push(row);
            assert(ui::rows(r@) =~= before.push(row@));
        }
        i += 1;
    }
    assert(all.take(all.len() as int) =~= all);
    r
}

/// The rows, marked where an update is on offer for a device of that ID.
pub open spec fn marked(v: Seq<PackageDataView>, ids: Seq<Seq<char>>) -> Seq<PackageDataView> {
    v.map_values(
        |p: PackageDataView|
            PackageDataView { has_update: p.has_update || ids.contains(p.name), ..p },
    )
}

/// Whether a text is among others.
fn is_listed(ids: &Vec<String>, name: &str) -> (r: bool)
    ensures
        r == text::strings(ids@).contains(name@),
{
    let ghost all = text::strings(ids@);
    let mut i: usize = 0;
    while i < ids.len()
        invariant
            i <= ids@.len(),
            all == text::strings(ids@),
            forall|k: int| 0 <= k < i ==> all[k] != name@,
        decreases ids@.len() - i,
    {
        assert(all[i as int] == ids@[i as int]@);
        if text::equals(ids[i].as_str(), name) {
            return true;
        }
        i += 1;
    }
    false
}

/// Marks the rows for whose devices an update is on offer.
pub fn mark_updates(v: Vec<PackageData>, ids: &Vec<String>) -> (r: Vec<PackageData>)
    ensures
        ui::rows(r@) == marked(ui::rows(v@), text::strings(ids@)),
{
    let mut v = v;
    let ghost start = v@;
    let ghost wanted = marked(ui::rows(start), text::strings(ids@));
    let mut i: usize = 0;
    while i < v.len()
        invariant
            i <= v@.len(),
            v@.len() == start.len(),
            wanted == marked(ui::rows(start), text::strings(ids@)),
            forall|k: int| 0 <= k < i ==> (#[trigger] v@[k])@ == wanted[k],
            forall|k: int| i <= k < v@.len() ==> #[trigger] v@[k] == start[k],
        decreases v@.len() - i,
    {
        assert(v@[i as int] == start[i as int]);
        if is_listed(ids, v[i].name.as_str()) {
            let mut row = v[i].clone();
            row.has_update = true;
            v.set(i, row);
        }
        assert(v@[i as int]@ =~= wanted[i as int]);
        i += 1;
    }
    assert(ui::rows(v@) =~= wanted);
    v
}

/// Whether the flags of a device say that its firmware can be updated.
pub open spec fn says_updatable(j: Json) -> bool {
    match json::items_at(j, "Flags"@) {
        Some(flags) => exists|i: int|
            0 <= i < flags.len() && json::text_in(#[trigger] flags[i]) == Some("updatable"@),
        None => false,
    }
}

/// What a report says of a device.
pub open spec fn device(j: Json) -> DeviceView {
    DeviceView {
        name: json::text_at(j, "Name"@),
        version: json::text_at(j, "Version"@),
        vendor: json::text_at(j, "Vendor"@),
        device_id: json::text_at(j, "DeviceId"@),
        updatable: says_updatable(j),
    }
}

/// The devices of a report.
pub open spec fn reported(document: Option<Json>) -> Seq<Json> {
    match document {
        Some(j) => match json::items_at(j, "Devices"@) {
            Some(items) => items,
            None => Seq::empty(),
        },
        None => Seq::empty(),
    }
}

/// The IDs of devices.
pub open spec fn ids(v: Seq<Json>) -> Seq<Seq<char>> {
    v.map_values(|j: Json| plasmoid::or_else(json::text_at(j, "DeviceId"@), Seq::empty()))
}

/// Whether the flags of a device say that its firmware can be updated.
fn is_updatable(v: &Value) -> (r: bool)
    ensures
        r == says_updatable(json::held(*v)),
{
    match json::get_items(v, "Flags") {
        None => false,
        Some(flags) => {
            let ghost all = json::all_held(flags@);
            let mut i: usize = 0;
            while i < flags.len()
                invariant
                    i <= flags@.len(),
                    all == json::all_held(flags@),
                    forall|k: int|
                        0 <= k < i ==> json::text_in(#[trigger] all[k]) != Some("updatable"@),
                    json::items_at(json::held(*v), "Flags"@) == Some(all),
                decreases flags@.len() - i,
            {
                assert(all[i as int] == json::held(flags@[i as int]));
                match json::as_str(&flags[i]) {
                    Some(s) => if text::equals(s, "updatable") {
                        return true;
                    },
                    None => {},
                }
                i += 1;
            }
            false
        },
    }
}

/// What a report says of its devices.
fn read_devices(document: &Option<Value>) -> (r: Vec<Device>)
    ensures
        devices(r@) == reported(
            match *document {
                Some(v) => Some(json::held(v)),
                None => None,
            },
        ).map_values(|j: Json| device(j)),
{
    let mut r: Vec<Device> = Vec::new();
    assert(devices(r@) =~= Seq::<Json>::empty().map_values(|j: Json| device(j)));
    match document {
        None => r,
        Some(v) => match json::get_items(v, "Devices") {
            None => r,
            Some(items) => {
                let ghost wanted = json::all_held(items@).map_values(|j: Json| device(j));
                let mut i: usize = 0;
                while i < items.len()
                    invariant
                        i <= items@.len(),
                        wanted == json::all_held(items@).map_values(|j: Json| device(j)),
                        devices(r@) == wanted.take(i as int),
                    decreases items@.len() - i,
                {
                    let ghost before = devices(r@);
                    let item = &items[i];
                    let d = Device {
                        name: json::get_text(item, "Name"),
                        version: json::get_text(item, "Version"),
                        vendor: json::get_text(item, "Vendor"),
                        device_id: json::get_text(item, "DeviceId"),
                        updatable: is_updatable(item),
                    };
                    r.push(d);
                    assert(json::all_held(items@)[i as int] == json::held(items@[i as int]));
                    assert(wanted[i as int] == d@);
                    assert(devices(r@) =~= before.push(d@));
                    i += 1;
                }
                assert(wanted.take(wanted.len() as int) =~= wanted);
                r
            },
        },
    }
}

/// The IDs of the devices of a report.
fn read_ids(document: &Option<Value>) -> (r: Vec<String>)
    ensures
        text::strings(r@) == ids(
            reported(
                match *document {
                    Some(v) => Some(json::held(v)),
                    None => None,
                },
            ),
        ),
{
    let mut r: Vec<String> = Vec::new();
    assert(text::strings(r@) =~= ids(Seq::empty()));
    match document {
        None => r,
        Some(v) => match json::get_items(v, "Devices") {
            None => r,
            Some(items) => {
                let ghost wanted = ids(json::all_held(items@));
                let mut i: usize = 0;
                while i < items.len()
                    invariant
                        i <= items@.len(),
                        wanted == ids(json::all_held(items@)),
                        text::strings(r@) == wanted.take(i as int),
                    decreases items@.len() - i,
                {
                    let ghost before = text::strings(r@);
                    let id = match json::get_text(&items[i], "DeviceId") {
                        Some(id) => id,
                        None => String::new(),
                    };
                    r.push(id);
                    assert(json::all_held(items@)[i as int] == json::held(items@[i as int]));
                    assert(wanted[i as int] == id@);
                    assert(text::strings(r@) =~= before.push(id@));
                    i += 1;
                }
                assert(wanted.take(wanted.len() as int) =~= wanted);
                r
            },
        },
    }
}

/// The document in a raw output, where there is one.
pub open spec fn document(output: Option<Vec<u8>>) -> Option<Json> {
    match output {
        Some(b) => json::parsed(bytes::lossy_text(b@)),
        None => None,
    }
}

/// The document in a raw output, where there is one.
fn document_of(output: &Option<Vec<u8>>) -> (r: Option<Value>)
    ensures
        document(*output) == (match r {
            Some(v) => Some(json::held(v)),
            None => None,
        }),
{
    match output {
        Some(b) => {
            let t = bytes::lossy(b.as_slice());
            json::parse(t.as_str())
        },
        None => None,
    }
}

/// The rows of the devices that a report lists, marked by a report of updates.
pub open spec fn firmware_rows(found: Option<Json>, updates: Option<Json>) -> Seq<PackageDataView> {
    marked(
        device_rows(reported(found).map_values(|j: Json| device(j))),
        ids(reported(updates)),
    )
}

/// Lists the firmware devices that can be updated, given the raw reports of the devices
/// and of the updates, where they could be had.
pub fn list_firmware(found: &Option<Vec<u8>>, updates: &Option<Vec<u8>>) -> (r: Vec<PackageData>)
    ensures
        ui::rows(r@) == firmware_rows(document(*found), document(*updates)),
{
    let f = document_of(found);
    let u = document_of(updates);
    let known = read_devices(&f);
    let rows = devices_to_ui(&known);
    let outdated = read_ids(&u);
    mark_updates(rows, &outdated)
}

/// Marking changes nothing but the marks, and takes none away.
pub proof fn marking_only_marks(v: Seq<PackageDataView>, on_offer: Seq<Seq<char>>)
    ensures
        marked(v, on_offer).len() == v.len(),
        forall|i: int|
            0 <= i < v.len() ==> #[trigger] marked(v, on_offer)[i] == (PackageDataView {
                has_update: marked(v, on_offer)[i].has_update,
                ..v[i]
            }) && (v[i].has_update ==> marked(v, on_offer)[i].has_update),
{
}

/// Only devices whose firmware can be updated are shown, and one is shown with an update
/// exactly where the report of updates names it.
pub proof fn only_updatable_devices_are_shown(found: Option<Json>, updates: Option<Json>, i: int)
    requires
        0 <= i < firmware_rows(found, updates).len(),
    ensures
        exists|k: int|
            0 <= k < reported(found).len() && says_updatable(#[trigger] reported(found)[k])
                && device_row(device(reported(found)[k])) == (PackageDataView {
                has_update: false,
                ..firmware_rows(found, updates)[i]
            }),
        firmware_rows(found, updates)[i].has_update <==> ids(reported(updates)).contains(
            firmware_rows(found, updates)[i].name,
        ),
{
    let known = reported(found).map_values(|j: Json| device(j));
    let row = device_rows(known)[i];
    shown_devices_are_updatable(known, i);
    let k = choose|k: int|
        0 <= k < known.len() && (#[trigger] known[k]).updatable && device_row(known[k]) == row;
    assert(known[k] == device(reported(found)[k]));
    assert(says_updatable(reported(found)[k]));
}

/// Every row is that of a device whose firmware can be updated.
proof fn shown_devices_are_updatable(v: Seq<DeviceView>, i: int)
    requires
        0 <= i < device_rows(v).len(),
    ensures
        exists|k: int|
            0 <= k < v.len() && (#[trigger] v[k]).updatable && device_row(v[k]) == device_rows(
                v,
            )[i],
    decreases v.len(),
{
    let before = device_rows(v.drop_last());
    if i < before.len() {
        shown_devices_are_updatable(v.drop_last(), i);
        let k = choose|k: int|
            0 <= k < v.len() - 1 && (#[trigger] v.drop_last()[k]).updatable && device_row(
                v.drop_last()[k],
            ) == before[i];
        assert(v[k] == v.drop_last()[k]);
    } else {
        assert(v[v.len() - 1] == v.last());
    }
}

/// Every device whose firmware can be updated is shown, once and in order, with what the
/// report says of it.
pub proof fn updatable_devices_are_shown(v: Seq<DeviceView>)
    ensures
        ({
            let wanted = v.filter(|d: DeviceView| d.updatable);
            let rows = device_rows(v);
            &&& rows.len() == wanted.len()
            &&& forall|i: int| #![trigger rows[i]]
                0 <= i < rows.len() ==> {
                    &&& rows[i].name == (match wanted[i].device_id {
                        Some(t) => t,
                        None => Seq::empty(),
                    })
                    &&& rows[i].display_name == (match wanted[i].name {
                        Some(t) => t,
                        None => "Unknown Device"@,
                    })
                    &&& rows[i].version == (match wanted[i].version {
                        Some(t) => t,
                        None => "unknown"@,
                    })
                    &&& rows[i].description == (match wanted[i].vendor {
                        Some(t) => if t.len() > 0 {
                            "Firmware by "@ + t
                        } else {
                            "Firmware device"@
                        },
                        None => "Firmware device"@,
                    })
                    &&& rows[i].repository == "fwupd"@
                    &&& rows[i].backend == 4
                    &&& rows[i].installed
                    &&& !rows[i].has_update
                }
        }),
    decreases v.len(),
{
    reveal(Seq::filter);
    if v.len() > 0 {
        updatable_devices_are_shown(v.drop_last());
    }
}

/// A device can be updated exactly where one of its flags says `updatable`; what is
/// reported of it are the members `Name`, `Version`, `Vendor` and `DeviceId`.
pub proof fn devices_are_read(j: Json, flags: Seq<Json>)
    requires
        json::items_at(j, "Flags"@) == Some(flags),
    ensures
        device(j).updatable <==> exists|i: int|
            0 <= i < flags.len() && json::text_in(#[trigger] flags[i]) == Some("updatable"@),
        device(j).name == json::text_at(j, "Name"@),
        device(j).version == json::text_at(j, "Version"@),
        device(j).vendor == json::text_at(j, "Vendor"@),
        device(j).device_id == json::text_at(j, "DeviceId"@),
{
}

/// A device without flags cannot be updated.
pub proof fn unflagged_devices_are_left_out(j: Json)
    requires
        json::items_at(j, "Flags"@) is None,
    ensures
        !device(j).updatable,
{
}

/// A device is shown with an update exactly where it was, or one on offer has its ID.
pub proof fn offers_are_marked(v: Seq<PackageDataView>, on_offer: Seq<Seq<char>>, i: int)
    requires
        0 <= i < v.len(),
    ensures
        marked(v, on_offer)[i].has_update <==> v[i].has_update || exists|k: int|
            0 <= k < on_offer.len() && #[trigger] on_offer[k] == v[i].name,
{
    if on_offer.contains(v[i].name) {
        let k = choose|k: int| 0 <= k < on_offer.len() && on_offer[k] == v[i].name;
        assert(on_offer[k] == v[i].name);
    }
}

/// All devices of both reports count: those under `Devices`, with their IDs.
pub proof fn reports_are_read(j: Json, items: Seq<Json>)
    requires
        json::items_at(j, "Devices"@) == Some(items),
    ensures
        reported(Some(j)) == items,
        reported(None).len() == 0,
        ids(items).len() == items.len(),
        forall|i: int|
            0 <= i < items.len() ==> #[trigger] ids(items)[i] == (match json::text_at(
                items[i],
                "DeviceId"@,
            ) {
                Some(t) => t,
                None => Seq::empty(),
            }),
{
}

} // verus!
