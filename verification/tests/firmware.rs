use xpm::firmware::{devices_to_ui, list_firmware, mark_updates, Device};

fn device(id: &str, vendor: Option<&str>, updatable: bool) -> Device {
    Device {
        name: Some(format!("Device {}", id)),
        version: Some("1.0".to_string()),
        vendor: vendor.map(|v| v.to_string()),
        device_id: Some(id.to_string()),
        updatable,
    }
}

#[test]
fn updatable_devices_are_shown() {
    let rows = devices_to_ui(&vec![
        device("a", Some("ACME"), true),
        device("b", None, false),
        Device { name: None, version: None, vendor: None, device_id: None, updatable: true },
    ]);
    assert_eq!(rows.len(), 2);
    assert_eq!(rows[0].name, "a");
    assert_eq!(rows[0].display_name, "Device a");
    assert_eq!(rows[0].description, "Firmware by ACME");
    assert_eq!(rows[0].repository, "fwupd");
    assert_eq!(rows[0].backend, 4);
    assert!(rows[0].installed);
    assert!(!rows[0].has_update);
    assert_eq!(rows[1].name, "");
    assert_eq!(rows[1].display_name, "Unknown Device");
    assert_eq!(rows[1].version, "unknown");
    assert_eq!(rows[1].description, "Firmware device");
}

#[test]
fn updates_are_only_marked() {
    let rows = devices_to_ui(&vec![device("a", None, true), device("b", None, true)]);
    let marked = mark_updates(rows, &vec!["b".to_string(), "c".to_string()]);
    let shown: Vec<(&str, bool)> = marked.iter().map(|p| (p.name.as_str(), p.has_update)).collect();
    assert_eq!(shown, vec![("a", false), ("b", true)]);
}

#[test]
fn firmware_is_listed() {
    let found = b"{\"Devices\": [{\"Name\": \"SSD\", \"Version\": \"1\", \"Vendor\": \"V\", \"DeviceId\": \"x\", \
                  \"Flags\": [\"internal\", \"updatable\"]}, {\"Name\": \"CPU\", \"DeviceId\": \"y\", \"Flags\": [1]}, \
                  {\"Name\": \"Dock\", \"DeviceId\": \"z\", \"Flags\": [\"updatable\"]}]}"
        .to_vec();
    let updates = b"{\"Devices\": [{\"DeviceId\": \"z\"}, {}]}".to_vec();
    let rows = list_firmware(&Some(found.clone()), &Some(updates.clone()));
    let shown: Vec<(&str, bool)> = rows.iter().map(|p| (p.display_name.as_str(), p.has_update)).collect();
    assert_eq!(shown, vec![("SSD", false), ("Dock", true)]);
    let rows = list_firmware(&Some(found), &None);
    assert!(rows.iter().all(|p| !p.has_update));
    assert!(list_firmware(&None, &Some(updates)).is_empty());
    assert!(list_firmware(&Some(b"nonsense".to_vec()), &None).is_empty());
    assert!(list_firmware(&Some(b"{\"Devices\": {}}".to_vec()), &None).is_empty());
}

#[test]
fn devices_without_an_id_are_matched_too() {
    let found = b"{\"Devices\": [{\"Flags\": [\"updatable\"]}]}".to_vec();
    let updates = b"{\"Devices\": [{}]}".to_vec();
    let rows = list_firmware(&Some(found), &Some(updates));
    assert!(rows[0].has_update);
}
