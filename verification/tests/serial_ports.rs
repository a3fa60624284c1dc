use periph_core::peripheral::{monitor_buffer_len, monitor_poll, MonitorStep};
use periph_core::serial::{
    monitor_serial, read_from_serial, scan_serial_ports, serial_port_info, unix_patterns,
    windows_device_info, windows_port_likely_exists, windows_port_name, windows_probe,
    write_to_serial, SerialRead,
};
use periph_core::{MonitorRequest, PeriphError, PeripheralKind, WriteRequest};
use std::collections::BTreeSet;
use periph_core::serial::components_of;
use std::path::{Component, Path, PathBuf};

fn ids(paths: &[&str]) -> Vec<String> {
    let owned: Vec<String> = paths.iter().map(|p| p.to_string()).collect();
    scan_serial_ports(&owned).into_iter().map(|d| d.id).collect()
}

fn std_order(paths: &[&str]) -> Vec<String> {
    let mut set = BTreeSet::new();
    for p in paths {
        set.insert(PathBuf::from(p));
    }
    set.into_iter().map(|p| p.display().to_string()).collect()
}

#[test]
fn scan_serial_json_returns_array() {
    let devices = scan_serial_ports(&vec!["/dev/ttyUSB0".to_string(), "/dev/ttyACM0".to_string()]);
    let rows: Vec<(String, String)> = devices.iter().map(|d| (d.id.clone(), d.label.clone())).collect();
    let value = serde_json::to_value(&rows).expect("json output");
    assert!(value.is_array());
    assert_eq!(devices.len(), 2);
    assert_eq!(devices[0].id, "/dev/ttyACM0");
    assert_eq!(devices[0].label, "ttyACM0");
    assert_eq!(devices[0].kind, PeripheralKind::Serial);
    assert_eq!(devices[0].path.as_deref(), Some("/dev/ttyACM0"));
    assert!(devices[0].metadata.is_empty());
}

#[test]
fn serial_ports_sorted_and_deduplicated_like_path_sets() {
    let cases: Vec<Vec<&str>> = vec![
        vec!["/dev/ttyUSB1", "/dev/ttyUSB0", "/dev/ttyUSB1", "/dev/ttyS0"],
        vec!["/dev/tty.a", "/dev/ttyS0", "/dev/cu.x", "/dev/tty"],
        vec!["/a-b", "/a/b", "/a", "/a/"],
        vec!["rel/x", "./x", "x", "../x", "/x", "/./x"],
        vec!["/dev/é", "/dev/z", "/dev/Z", "/dev/zz"],
    ];
    for case in cases {
        assert_eq!(ids(&case), std_order(&case), "{case:?}");
    }
}

#[test]
fn duplicate_paths_keep_first_spelling() {
    assert_eq!(ids(&["/dev/x/", "/dev//x"]), vec!["/dev/x/".to_string()]);
}

#[test]
fn serial_labels_follow_file_names() {
    for p in ["/dev/ttyUSB0", "/dev/tty/", "/dev/.", "/", "/dev/..", ".", "x/./"] {
        let d = serial_port_info(&p.to_string());
        let expected = PathBuf::from(p)
            .file_name()
            .map(|n| n.to_string_lossy().to_string())
            .unwrap_or_else(|| p.to_string());
        assert_eq!(d.label, expected, "{p}");
    }
}

#[test]
fn unix_pattern_sets() {
    assert_eq!(unix_patterns(true), vec!["/dev/tty.*", "/dev/cu.*"]);
    let linux = unix_patterns(false);
    assert_eq!(linux.len(), 7);
    assert_eq!(linux[0], "/dev/ttyUSB*");
    assert_eq!(linux[6], "/dev/cu.*");
}

#[test]
fn windows_port_probing() {
    assert_eq!(windows_port_name(1), "COM1");
    assert_eq!(windows_port_name(256), "COM256");
    assert!(windows_port_likely_exists("Access is denied."));
    assert!(windows_port_likely_exists("Device or RESOURCE BUSY"));
    assert!(windows_port_likely_exists("permission denied"));
    assert!(!windows_port_likely_exists("The system cannot find the file specified."));
    let d = windows_device_info("COM3", "available");
    assert_eq!(d.id, "COM3");
    assert_eq!(d.label, "COM3");
    assert_eq!(d.metadata, vec![("state".to_string(), "available".to_string())]);
    let busy = windows_probe("COM4", Err("Access is denied.".to_string())).unwrap();
    assert_eq!(busy.metadata[0].1, "busy-or-denied");
    assert!(windows_probe("COM5", Err("not found".to_string())).is_none());
    assert_eq!(windows_probe("COM6", Ok(())).unwrap().metadata[0].1, "available");
}

#[test]
fn serial_read_outcomes() {
    let r = read_from_serial(SerialRead::Data { buffer: vec![b'o', b'k', 0, 0], count: 2 }).unwrap();
    assert_eq!((r.bytes_read, r.data_hex.as_str(), r.data_utf8.as_deref()), (2, "6f6b", Some("ok")));
    let t = read_from_serial(SerialRead::TimedOut).unwrap();
    assert_eq!((t.bytes_read, t.data_hex.as_str(), t.data_utf8.as_deref()), (0, "", Some("")));
    assert!(matches!(
        read_from_serial(SerialRead::Failed(PeriphError::Io("broken pipe".into()))),
        Err(PeriphError::Io(_))
    ));
}

#[test]
fn serial_write_reports_payload_length() {
    let request = WriteRequest { port: "p".into(), baud_rate: 9600, timeout_ms: 10, data: vec![1, 2, 3] };
    assert_eq!(write_to_serial(&request, Ok(())).unwrap().bytes_written, 3);
    assert!(write_to_serial(&request, Err(PeriphError::Serial("x".into()))).is_err());
}

#[test]
fn serial_monitor_steps() {
    assert!(monitor_serial(SerialRead::TimedOut).unwrap().is_none());
    assert!(monitor_serial(SerialRead::Data { buffer: vec![0; 4], count: 0 }).unwrap().is_none());
    let c = monitor_serial(SerialRead::Data { buffer: vec![0xc3, 0xa9, 0x21], count: 2 }).unwrap().unwrap();
    assert_eq!((c.bytes_read, c.data_hex.as_str(), c.data_utf8.as_deref()), (2, "c3a9", Some("é")));
    assert!(monitor_serial(SerialRead::Failed(PeriphError::Io("x".into()))).is_err());
}

#[test]
fn monitor_polling() {
    let mut request = MonitorRequest {
        port: "p".into(),
        baud_rate: 115_200,
        timeout_ms: 300,
        chunk_size: 0,
        duration_seconds: None,
    };
    assert_eq!(monitor_buffer_len(&request), 1);
    assert_eq!(monitor_poll(&request, false, 1_000_000), MonitorStep::Read);
    assert_eq!(monitor_poll(&request, true, 0), MonitorStep::Stop);
    request.duration_seconds = Some(5);
    request.chunk_size = 256;
    assert_eq!(monitor_buffer_len(&request), 256);
    assert_eq!(monitor_poll(&request, false, 4), MonitorStep::Read);
    assert_eq!(monitor_poll(&request, false, 5), MonitorStep::Stop);
}

#[test]
fn path_components_match_std() {
    let samples = [
        "", "/", "//", "/dev/ttyUSB0", "/dev//ttyS1/", "./x", ".", "./.", "..", "/..", "a/..", ".a",
        "a/./b", "a//b", "x/./", "/./x", "../../y", "a/b/.", "é/ü",
    ];
    for p in samples {
        let ours: Vec<String> = components_of(p).into_iter().map(|c| c.into_iter().collect()).collect();
        let theirs: Vec<String> = Path::new(p)
            .components()
            .map(|c| match c {
                Component::RootDir => "/".to_string(),
                Component::CurDir => ".".to_string(),
                Component::ParentDir => "..".to_string(),
                Component::Normal(s) => s.to_string_lossy().to_string(),
                Component::Prefix(_) => unreachable!(),
            })
            .collect();
        assert_eq!(ours, theirs, "{p:?}");
    }
    let all: Vec<&str> = samples.to_vec();
    assert_eq!(ids(&all), std_order(&all));
}
