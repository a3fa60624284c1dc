use periph_core::cli::{
    device_line, error_line, monitor_banner, platform_lines, preflight_line, read_response_lines,
    scan_lines, write_summary, KindArg, OutputMode, ScanKindArg,
};
use periph_core::peripheral::response_for;
use periph_core::text::{hex_encode, push_decimal, push_hex4};
use periph_core::{
    CheckStatus, DeviceInfo, PeriphError, PeripheralKind, PlatformInfo, PreflightCheck, WriteResponse,
};

#[test]
fn kind_choices() {
    assert_eq!(ScanKindArg::All.as_kind(), None);
    assert_eq!(ScanKindArg::Hid.as_kind(), Some(PeripheralKind::Hid));
    assert_eq!(ScanKindArg::Audio.as_kind(), Some(PeripheralKind::Audio));
    assert_eq!(KindArg::Serial.as_kind(), PeripheralKind::Serial);
    assert_eq!(KindArg::Gpio.as_kind(), PeripheralKind::Gpio);
    assert_eq!(PeripheralKind::Camera.name(), "camera");
}

#[test]
fn response_rendering() {
    let text = response_for(b"hi".to_vec(), 2);
    assert_eq!(read_response_lines(&text, OutputMode::Utf8), vec!["hi"]);
    assert_eq!(read_response_lines(&text, OutputMode::Hex), vec!["6869"]);
    assert_eq!(read_response_lines(&text, OutputMode::Both), vec!["bytes: 2", "hex: 6869", "utf8: hi"]);
    let binary = response_for(vec![0xff], 1);
    assert_eq!(read_response_lines(&binary, OutputMode::Utf8), vec!["<non-utf8>"]);
}

#[test]
fn command_lines() {
    let p = PlatformInfo { os: "linux".into(), os_family: "unix".into(), arch: "aarch64".into(), is_wsl: true };
    assert_eq!(platform_lines(&p), vec!["OS: linux", "Family: unix", "Arch: aarch64", "WSL: true"]);
    let c = PreflightCheck { name: "hid-scan".into(), status: CheckStatus::Warn, details: "No HID devices found.".into() };
    assert_eq!(preflight_line(&c), "[WARN] hid-scan: No HID devices found.");
    let d = DeviceInfo { id: "x".into(), kind: PeripheralKind::Hid, label: "Pad".into(), path: None, metadata: vec![] };
    assert_eq!(device_line(&d), "Pad [hid] -");
    assert_eq!(scan_lines(&vec![]), vec!["No devices found."]);
    assert_eq!(scan_lines(&vec![d]), vec!["Pad [hid] -"]);
    assert_eq!(write_summary(&WriteResponse { bytes_written: 1024 }), "Wrote 1024 byte(s).");
    assert_eq!(
        monitor_banner("/dev/ttyUSB0", 115_200),
        "Monitoring /dev/ttyUSB0 at 115200 baud. Press Ctrl-C to stop."
    );
    assert_eq!(error_line(&PeriphError::Serial("No such file".into())), "error: serial error: No such file");
}

#[test]
fn numbers_render_like_format() {
    for n in [0u64, 7, 10, 99, 100, 65535, u64::MAX] {
        let mut s = String::new();
        push_decimal(&mut s, n);
        assert_eq!(s, format!("{n}"));
    }
    for v in [0u16, 0xa, 0x2341, 0xffff] {
        let mut s = String::new();
        push_hex4(&mut s, v);
        assert_eq!(s, format!("{v:04x}"));
    }
    let bytes = [0u8, 0x0f, 0xa0, 0xff];
    let expected: String = bytes.iter().map(|b| format!("{b:02x}")).collect();
    assert_eq!(hex_encode(&bytes), expected);
}

#[test]
fn error_messages() {
    assert_eq!(PeriphError::UnsupportedKind("usb".into()).message(), "unsupported peripheral kind: usb");
    assert_eq!(PeriphError::InvalidInput("bad".into()).message(), "invalid input: bad");
    assert_eq!(PeriphError::Io("eof".into()).message(), "io error: eof");
    assert_eq!(PeriphError::Hid("gone".into()).message(), "hid error: gone");
}
