use periph_core::platform::{detect_wsl, hid_scan_check, serial_found_check, serial_scan_check};
use periph_core::{run_preflight_checks, CheckStatus, DeviceInfo, PeriphError, PeripheralKind, PlatformInfo};

fn device() -> DeviceInfo {
    DeviceInfo { id: "d".into(), kind: PeripheralKind::Serial, label: "d".into(), path: None, metadata: Vec::new() }
}

fn platform(is_wsl: bool) -> PlatformInfo {
    PlatformInfo { os: "linux".into(), os_family: "unix".into(), arch: "x86_64".into(), is_wsl }
}

#[test]
fn preflight_json_returns_array() {
    let checks = run_preflight_checks(&platform(false), Ok(vec![]), Ok(vec![]));
    let rows: Vec<(String, String)> = checks.iter().map(|c| (c.name.clone(), c.details.clone())).collect();
    let value = serde_json::to_value(&rows).expect("json output");
    assert!(value.is_array());
    let names: Vec<&str> = checks.iter().map(|c| c.name.as_str()).collect();
    assert_eq!(names, vec!["platform", "serial-scan", "hid-scan"]);
    assert_eq!(checks[0].details, "linux / unix / x86_64 (wsl: false)");
    assert_eq!(checks[0].status, CheckStatus::Pass);
    assert_eq!(checks[1].status, CheckStatus::Warn);
    assert_eq!(
        checks[1].details,
        "No serial ports found. Device may be disconnected or permissions may be missing."
    );
    assert_eq!(checks[2].details, "No HID devices found.");
}

#[test]
fn preflight_under_wsl_adds_note_and_reports_failures() {
    let checks = run_preflight_checks(
        &platform(true),
        Err(PeriphError::Io("permission denied".into())),
        Err(PeriphError::Hid("no hidraw".into())),
    );
    assert_eq!(checks.len(), 4);
    assert_eq!(checks[0].details, "linux / unix / x86_64 (wsl: true)");
    assert_eq!(checks[1].name, "wsl-usb-note");
    assert_eq!(checks[1].status, CheckStatus::Warn);
    assert_eq!(checks[2].status, CheckStatus::Fail);
    assert_eq!(checks[2].details, "io error: permission denied");
    assert_eq!(checks[3].status, CheckStatus::Warn);
    assert_eq!(checks[3].details, "HID scan unavailable: hid error: no hidraw");
}

#[test]
fn preflight_counts_devices() {
    let c = serial_found_check(vec![device(), device(), device()]);
    assert_eq!((c.name.as_str(), c.status, c.details.as_str()), ("serial-scan", CheckStatus::Pass, "Found 3 serial port(s)."));
    let c = serial_scan_check(Ok(vec![device()]));
    assert_eq!(c.details, "Found 1 serial port(s).");
    let h = hid_scan_check(Ok(vec![device(); 12]));
    assert_eq!((h.status, h.details.as_str()), (CheckStatus::Pass, "Found 12 HID device(s)."));
}

#[test]
fn wsl_detection() {
    assert!(detect_wsl(true, false, None));
    assert!(detect_wsl(false, true, Some("6.1.0-generic")));
    assert!(detect_wsl(false, false, Some("5.15.90.1-Microsoft-standard-WSL2")));
    assert!(detect_wsl(false, false, Some("4.4.0-19041-MICROSOFT")));
    assert!(detect_wsl(false, false, Some("x-wsl")));
    assert!(!detect_wsl(false, false, Some("6.8.0-45-generic")));
    assert!(!detect_wsl(false, false, None));
}
