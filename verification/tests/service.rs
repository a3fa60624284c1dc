use periph_core::service::{MonitorPlan, ReadPlan, ScanAction, WritePlan};
use periph_core::{
    DeviceInfo, MonitorRequest, PeriphError, PeripheralKind, PeripheralService, ReadRequest,
    WriteRequest,
};

fn device(id: &str, kind: PeripheralKind) -> DeviceInfo {
    DeviceInfo { id: id.into(), kind, label: id.into(), path: None, metadata: Vec::new() }
}

#[test]
fn scan_usb_reports_unsupported_kind() {
    let service = PeripheralService;
    match service.scan(Some(PeripheralKind::Usb)) {
        ScanAction::Finish(Err(e)) => {
            assert!(e.message().contains("unsupported peripheral kind: usb"), "{}", e.message())
        }
        other => panic!("unexpected {other:?}"),
    }
}

#[test]
fn scan_every_kind_combines_serial_and_hid() {
    let service = PeripheralService;
    assert!(matches!(service.scan(None), ScanAction::ScanSerial));
    let found = match service.scan_serial_done(None, Ok(vec![device("s", PeripheralKind::Serial)])) {
        ScanAction::ScanHid { found } => found,
        other => panic!("unexpected {other:?}"),
    };
    let all = service
        .scan_hid_done(None, found.clone(), Ok(vec![device("h", PeripheralKind::Hid)]))
        .unwrap();
    assert_eq!(all.iter().map(|d| d.id.as_str()).collect::<Vec<_>>(), vec!["s", "h"]);
    let serial_only = service
        .scan_hid_done(None, found, Err(PeriphError::Hid("no backend".into())))
        .unwrap();
    assert_eq!(serial_only.len(), 1);
    assert!(matches!(
        service.scan_serial_done(None, Err(PeriphError::Io("denied".into()))),
        ScanAction::Finish(Err(PeriphError::Io(_)))
    ));
}

#[test]
fn scan_single_kinds() {
    let service = PeripheralService;
    assert!(matches!(service.scan(Some(PeripheralKind::Serial)), ScanAction::ScanSerial));
    assert!(matches!(
        service.scan_serial_done(Some(PeripheralKind::Serial), Ok(vec![])),
        ScanAction::Finish(Ok(v)) if v.is_empty()
    ));
    match service.scan(Some(PeripheralKind::Hid)) {
        ScanAction::ScanHid { found } => {
            let r = service.scan_hid_done(Some(PeripheralKind::Hid), found, Err(PeriphError::Hid("x".into())));
            assert!(matches!(r, Err(PeriphError::Hid(_))));
        }
        other => panic!("unexpected {other:?}"),
    }
    for kind in [PeripheralKind::Ble, PeripheralKind::Gpio, PeripheralKind::Camera, PeripheralKind::Audio] {
        match service.scan(Some(kind)) {
            ScanAction::Finish(Err(e)) => assert_eq!(e.message(), format!("unsupported peripheral kind: {}", kind.as_str())),
            other => panic!("unexpected {other:?}"),
        }
    }
}

#[test]
fn read_write_monitor_routing() {
    let service = PeripheralService;
    let read = ReadRequest { port: "/dev/ttyUSB0".into(), baud_rate: 115_200, timeout_ms: 1500, max_bytes: 0 };
    match service.read(PeripheralKind::Serial, &read).unwrap() {
        ReadPlan::Serial { port, baud_rate, timeout_ms, buffer_len } => {
            assert_eq!((port.as_str(), baud_rate, timeout_ms, buffer_len), ("/dev/ttyUSB0", 115_200, 1500, 0))
        }
        other => panic!("unexpected {other:?}"),
    }
    match service.read(PeripheralKind::Hid, &read).unwrap() {
        ReadPlan::Hid { selector, timeout, buffer_len } => {
            assert_eq!((selector.as_str(), timeout, buffer_len), ("/dev/ttyUSB0", 1500, 1))
        }
        other => panic!("unexpected {other:?}"),
    }
    assert_eq!(
        service.read(PeripheralKind::Usb, &read).unwrap_err().message(),
        "unsupported peripheral kind: usb"
    );
    let write = WriteRequest { port: "2341:0043".into(), baud_rate: 9600, timeout_ms: 5, data: vec![1] };
    assert!(matches!(service.write(PeripheralKind::Hid, &write).unwrap(), WritePlan::Hid { selector } if selector == "2341:0043"));
    assert!(matches!(service.write(PeripheralKind::Serial, &write).unwrap(), WritePlan::Serial { baud_rate: 9600, timeout_ms: 5, .. }));
    assert!(service.write(PeripheralKind::Camera, &write).is_err());
    let monitor = MonitorRequest { port: "x".into(), baud_rate: 1, timeout_ms: 300, chunk_size: 64, duration_seconds: None };
    assert!(matches!(service.monitor(PeripheralKind::Hid, &monitor).unwrap(), MonitorPlan::Hid { timeout: 300, buffer_len: 64, .. }));
    assert!(matches!(service.monitor(PeripheralKind::Serial, &monitor).unwrap(), MonitorPlan::Serial { buffer_len: 64, .. }));
    assert!(service.monitor(PeripheralKind::Audio, &monitor).is_err());
}
