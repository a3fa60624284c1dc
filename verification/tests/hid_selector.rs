use periph_core::hid::{
    build_selector, find_hid_device, hid_buffer_len, hid_device_info, hid_timeout, monitor_hid,
    parse_vid_pid_selector, read_from_hid, scan_hid_devices, write_to_hid, HidDeviceRecord,
    VidPidSelector,
};
use periph_core::{PeriphError, PeripheralKind};

#[test]
fn parse_vid_pid_without_serial() {
    let selector = parse_vid_pid_selector("2341:0043").expect("selector should parse");
    assert_eq!(
        selector,
        VidPidSelector {
            vendor_id: 0x2341,
            product_id: 0x0043,
            serial_number: None,
        }
    );
}

#[test]
fn parse_vid_pid_with_serial() {
    let selector = parse_vid_pid_selector("2341:0043:ABC123").expect("selector should parse");
    assert_eq!(
        selector,
        VidPidSelector {
            vendor_id: 0x2341,
            product_id: 0x0043,
            serial_number: Some("ABC123".to_string()),
        }
    );
}

#[test]
fn parse_vid_pid_rejects_invalid() {
    assert!(parse_vid_pid_selector("COM3").is_none());
    assert!(parse_vid_pid_selector("abcd").is_none());
    assert!(parse_vid_pid_selector("zzzz:1234").is_none());
    assert!(parse_vid_pid_selector("123:1234").is_none());
}

#[test]
fn build_selector_includes_serial_when_present() {
    assert_eq!(
        build_selector(0x2341, 0x0043, Some("ABC123")),
        "2341:0043:ABC123"
    );
    assert_eq!(build_selector(0x2341, 0x0043, None), "2341:0043");
}

#[test]
fn selector_keeps_colons_in_serial() {
    let selector = parse_vid_pid_selector("abcd:EF01:a:b:c").expect("selector should parse");
    assert_eq!(selector.vendor_id, 0xabcd);
    assert_eq!(selector.product_id, 0xef01);
    assert_eq!(selector.serial_number.as_deref(), Some("a:b:c"));
}

#[test]
fn selector_with_empty_serial_has_none() {
    let selector = parse_vid_pid_selector("2341:0043:").expect("selector should parse");
    assert_eq!(selector.serial_number, None);
}

#[test]
fn selector_accepts_plus_sign_like_from_str_radix() {
    let selector = parse_vid_pid_selector("+abc:0043").expect("selector should parse");
    assert_eq!(selector.vendor_id, 0x0abc);
    assert!(parse_vid_pid_selector("-abc:0043").is_none());
    assert!(parse_vid_pid_selector("2341:00431").is_none());
    assert!(parse_vid_pid_selector("é12:0043").is_none());
    assert!(parse_vid_pid_selector(":").is_none());
    assert!(parse_vid_pid_selector("").is_none());
}

#[test]
fn selector_round_trip() {
    for (v, p, s) in [
        (0u16, 0u16, None),
        (0xffff, 0x1234, Some("S/N:42")),
        (0x00ab, 0xcd00, Some("")),
        (0x2341, 0x0043, Some("é")),
    ] {
        let text = build_selector(v, p, s);
        let parsed = parse_vid_pid_selector(&text).expect("own selector should parse");
        assert_eq!(parsed.vendor_id, v);
        assert_eq!(parsed.product_id, p);
        let expected = s.filter(|x| !x.is_empty()).map(|x| x.to_string());
        assert_eq!(parsed.serial_number, expected);
    }
}

fn record(path: &str, vid: u16, pid: u16, serial: Option<&str>, product: Option<&str>) -> HidDeviceRecord {
    HidDeviceRecord {
        path: path.to_string(),
        vendor_id: vid,
        product_id: pid,
        serial_number: serial.map(|s| s.to_string()),
        manufacturer: None,
        product: product.map(|s| s.to_string()),
    }
}

#[test]
fn hid_device_listing_has_selector_and_metadata() {
    let mut r = record("/dev/hidraw0", 0x2341, 0x0043, Some("ABC"), Some("Uno"));
    r.manufacturer = Some("Arduino".to_string());
    let d = hid_device_info(&r);
    assert_eq!(d.id, "/dev/hidraw0");
    assert_eq!(d.kind, PeripheralKind::Hid);
    assert_eq!(d.label, "Uno");
    assert_eq!(d.path.as_deref(), Some("/dev/hidraw0"));
    let meta: Vec<(&str, &str)> = d.metadata.iter().map(|(k, v)| (k.as_str(), v.as_str())).collect();
    assert_eq!(
        meta,
        vec![
            ("manufacturer", "Arduino"),
            ("product", "Uno"),
            ("product_id", "0043"),
            ("selector", "2341:0043:ABC"),
            ("serial_number", "ABC"),
            ("vendor_id", "2341"),
        ]
    );
    let mut keys: Vec<&str> = meta.iter().map(|(k, _)| *k).collect();
    let listed = keys.clone();
    keys.sort();
    keys.dedup();
    assert_eq!(keys, listed);
}

#[test]
fn hid_device_without_product_gets_generated_label() {
    let d = hid_device_info(&record("p", 0x00a0, 0xbeef, None, None));
    assert_eq!(d.label, "HID 00a0:beef");
    assert_eq!(d.metadata.len(), 3);
    let all = scan_hid_devices(&vec![record("a", 1, 2, None, None), record("b", 3, 4, Some(""), None)]);
    assert_eq!(all.len(), 2);
    assert_eq!(all[1].metadata[1].1, "0003:0004");
    assert_eq!(all[1].metadata[2], ("serial_number".to_string(), String::new()));
    assert_eq!(all[0].metadata[0].0, "product_id");
    assert_eq!(all[0].metadata[2], ("vendor_id".to_string(), "0001".to_string()));
}

#[test]
fn find_hid_device_by_selector_or_path() {
    let devices = vec![
        record("/dev/hidraw0", 0x2341, 0x0043, Some("A"), None),
        record("/dev/hidraw1", 0x2341, 0x0043, Some("B"), None),
        record("/dev/hidraw2", 0x1111, 0x2222, None, None),
    ];
    assert_eq!(find_hid_device(&devices, "2341:0043").unwrap(), 0);
    assert_eq!(find_hid_device(&devices, "2341:0043:B").unwrap(), 1);
    assert_eq!(find_hid_device(&devices, "/dev/hidraw2").unwrap(), 2);
    match find_hid_device(&devices, "2341:0043:C") {
        Err(PeriphError::InvalidInput(m)) => assert_eq!(m, "hid device not found for selector 2341:0043"),
        other => panic!("unexpected {other:?}"),
    }
    match find_hid_device(&devices, "/dev/none") {
        Err(e) => assert_eq!(
            e.message(),
            "invalid input: hid device not found: /dev/none. Use `scan --kind hid` to list selectors."
        ),
        other => panic!("unexpected {other:?}"),
    }
}

#[test]
fn hid_read_parameters() {
    assert_eq!(hid_buffer_len(0), 1);
    assert_eq!(hid_buffer_len(64), 64);
    assert_eq!(hid_timeout(1500), 1500);
    assert_eq!(hid_timeout(u64::MAX), -1);
    assert_eq!(hid_timeout(1u64 << 32), 0);
}

#[test]
fn hid_read_write_and_monitor_outcomes() {
    let r = read_from_hid(Ok((vec![0x68, 0x69, 0, 0], 2))).unwrap();
    assert_eq!(r.bytes_read, 2);
    assert_eq!(r.data_hex, "6869");
    assert_eq!(r.data_utf8.as_deref(), Some("hi"));
    assert!(matches!(read_from_hid(Err(PeriphError::Hid("gone".into()))), Err(PeriphError::Hid(_))));
    assert_eq!(write_to_hid(Ok(5)).unwrap().bytes_written, 5);
    assert!(monitor_hid(Ok((vec![1, 2], 0))).unwrap().is_none());
    let chunk = monitor_hid(Ok((vec![0xff, 0xfe, 7], 2))).unwrap().unwrap();
    assert_eq!(chunk.data_hex, "fffe");
    assert_eq!(chunk.data_utf8, None);
}
