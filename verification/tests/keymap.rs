use streamd::yin_yang_proto::keymap::{
    hid_to_linux_evdev, hid_to_windows_scan, macos_keycode_to_hid, macos_vk_to_hid,
};

#[test]
fn round_trip_a() {
    let hid = macos_keycode_to_hid(0).unwrap(); // macOS vk 0 = A
    assert_eq!(hid, 0x04);
    let evdev = hid_to_linux_evdev(hid).unwrap();
    assert_eq!(evdev, 30); // KEY_A in evdev
    let scan = hid_to_windows_scan(hid).unwrap();
    assert_eq!(scan, 0x1E); // Windows scan for A
}

#[test]
fn escape_key() {
    let hid = macos_keycode_to_hid(53).unwrap();
    assert_eq!(hid, 0x29);
    assert_eq!(hid_to_linux_evdev(hid).unwrap(), 1); // KEY_ESC
}

#[test]
fn unmapped_keys_have_no_code() {
    assert_eq!(macos_keycode_to_hid(10), None);
    assert_eq!(macos_vk_to_hid(0x2F), None);
    assert_eq!(macos_vk_to_hid(0x24), Some(0x28));
    assert_eq!(macos_vk_to_hid(0x0A), Some(0x64));
    assert_eq!(hid_to_linux_evdev(0x32), None);
    assert_eq!(hid_to_windows_scan(0x53), None);
    assert_eq!(hid_to_windows_scan(0xE7), Some(0xE05C));
}

#[test]
fn every_mac_key_reaches_linux_under_its_own_code() {
    let mut seen = Vec::new();
    for vk in 0..=u16::MAX {
        if let Some(hid) = macos_keycode_to_hid(vk) {
            let evdev = hid_to_linux_evdev(hid).unwrap();
            assert!(!seen.contains(&evdev));
            seen.push(evdev);
        }
    }
    assert_eq!(seen.len(), 99);
}

#[test]
fn both_mac_tables_give_a_key_the_same_code() {
    for vk in (0..=0x2E).filter(|vk| *vk != 0x0A) {
        assert_eq!(macos_vk_to_hid(vk), macos_keycode_to_hid(vk as u16));
    }
    assert_eq!(macos_vk_to_hid(0x23), Some(0x13));
    assert_eq!(macos_vk_to_hid(0x2B), Some(0x36));
}
