//! The service that routes each request to the backend for its kind of
//! peripheral. The service decides; the caller performs the device work
//! it asks for and reports back.

use vstd::prelude::*;
use crate::error::PeriphError;
use crate::hid::{hid_buffer_len, hid_timeout};
use crate::peripheral::{
    DeviceInfo, MonitorRequest, PeripheralKind, ReadRequest, WriteRequest, kind_name,
    monitor_buffer_len,
};

verus! {

/// Routes requests by peripheral kind. Serial ports and HID devices have
/// backends; every other kind is refused.
#[derive(Debug, Clone, Copy, Default)]
pub struct PeripheralService;

/// `e` is the refusal of `kind` for lack of a backend.
pub open spec fn refuses_kind(e: PeriphError, kind: PeripheralKind) -> bool {
    e matches PeriphError::UnsupportedKind(s) && s@ == kind_name(kind)
}

/// What a scan asks of the caller next.
#[derive(Debug)]
pub enum ScanAction {
    /// Scan for serial ports and report with `scan_serial_done`.
    ScanSerial,
    /// Scan for HID devices and report with `scan_hid_done`, handing back
    /// `found`.
    ScanHid { found: Vec<DeviceInfo> },
    /// The scan is over.
    Finish(Result<Vec<DeviceInfo>, PeriphError>),
}

/// What a read asks of the caller.
#[derive(Debug)]
pub enum ReadPlan {
    /// Open `port` at `baud_rate` with a timeout of `timeout_ms`
    /// milliseconds, read into a buffer of `buffer_len` bytes, and report
    /// with `read_from_serial`.
    Serial { port: String, baud_rate: u32, timeout_ms: u64, buffer_len: usize },
    /// Open the HID device `selector` names (see `find_hid_device`), read
    /// into a buffer of `buffer_len` bytes waiting at most `timeout`
    /// milliseconds, and report with `read_from_hid`.
    Hid { selector: String, timeout: i32, buffer_len: usize },
}

/// What a write asks of the caller.
#[derive(Debug)]
pub enum WritePlan {
    /// Open `port` at `baud_rate` with a timeout of `timeout_ms`
    /// milliseconds, write the whole payload, flush, and report with
    /// `write_to_serial`.
    Serial { port: String, baud_rate: u32, timeout_ms: u64 },
    /// Open the HID device `selector` names, write the payload as one
    /// report, and report with `write_to_hid`.
    Hid { selector: String },
}

/// What a monitoring session asks of the caller.
#[derive(Debug)]
pub enum MonitorPlan {
    /// Open `port` at `baud_rate` with a timeout of `timeout_ms`
    /// milliseconds, then, while `monitor_poll` says so, read into a
    /// buffer of `buffer_len` bytes and hand each read to
    /// `monitor_serial`.
    Serial { port: String, baud_rate: u32, timeout_ms: u64, buffer_len: usize },
    /// Open the HID device `selector` names, then, while `monitor_poll`
    /// says so, read into a buffer of `buffer_len` bytes waiting at most
    /// `timeout` milliseconds and hand each read to `monitor_hid`.
    Hid { selector: String, timeout: i32, buffer_len: usize },
}

fn unsupported(kind: PeripheralKind) -> (e: PeriphError)
    ensures
        refuses_kind(e, kind),
{
    PeriphError::UnsupportedKind(kind.name())
}

impl PeripheralService {
    /// Starts a scan for devices of `kind`, or of every kind that has a
    /// backend when `kind` is `None`.
    pub fn scan(&self, kind: Option<PeripheralKind>) -> (r: ScanAction)
        ensures
            match kind {
                None => r is ScanSerial,
                Some(PeripheralKind::Serial) => r is ScanSerial,
                Some(PeripheralKind::Hid) => r matches ScanAction::ScanHid { found } && found@.len()
                    == 0,
                Some(k) => r matches ScanAction::Finish(Err(e)) && refuses_kind(e, k),
            },
    {
        match kind {
            None => ScanAction::ScanSerial,
            Some(PeripheralKind::Serial) => ScanAction::ScanSerial,
            Some(PeripheralKind::Hid) => ScanAction::ScanHid { found: Vec::new() },
            Some(other) => ScanAction::Finish(Err(unsupported(other))),
        }
    }

    /// Continues a scan with what the serial scan found. Scanning every
    /// kind goes on to HID devices unless the serial scan failed; a scan
    /// for serial ports alone ends with its result.
    pub fn scan_serial_done(
        &self,
        kind: Option<PeripheralKind>,
        result: Result<Vec<DeviceInfo>, PeriphError>,
    ) -> (r: ScanAction)
        ensures
            match (kind, result) {
                (None, Ok(devices)) => r matches ScanAction::ScanHid { found } && found@ == devices@,
                _ => r == ScanAction::Finish(result),
            },
    {
        match kind {
            None => match result {
                Ok(devices) => ScanAction::ScanHid { found: devices },
                Err(e) => ScanAction::Finish(Err(e)),
            },
            Some(_) => ScanAction::Finish(result),
        }
    }

    /// Ends a scan with what the HID scan found. Scanning every kind lists
    /// the serial ports found before, then the HID devices; a failed HID
    /// scan there only leaves them out. A scan for HID devices alone ends
    /// with the HID result.
    pub fn scan_hid_done(
        &self,
        kind: Option<PeripheralKind>,
        found: Vec<DeviceInfo>,
        result: Result<Vec<DeviceInfo>, PeriphError>,
    ) -> (r: Result<Vec<DeviceInfo>, PeriphError>)
        ensures
            kind is None ==> (r matches Ok(all) && all@ == found@ + match result {
                Ok(hid) => hid@,
                Err(_) => Seq::empty(),
            }),
            kind is Some ==> r == result,
    {
        match kind {
            None => {
                let mut devices = found;
                match result {
                    Ok(hid) => {
                        let mut hid = hid;
                        devices.append(&mut hid);
                    },
                    Err(_) => {},
                }
                Ok(devices)
            },
            Some(_) => result,
        }
    }

    /// Routes a one-off read.
    pub fn read(&self, kind: PeripheralKind, request: &ReadRequest) -> (r: Result<ReadPlan, PeriphError>)
        ensures
            match kind {
                PeripheralKind::Serial => r matches Ok(
                    ReadPlan::Serial { port, baud_rate, timeout_ms, buffer_len },
                ) && port@ == request.port@ && baud_rate == request.baud_rate && timeout_ms
                    == request.timeout_ms && buffer_len == request.max_bytes,
                PeripheralKind::Hid => r matches Ok(ReadPlan::Hid { selector, timeout, buffer_len })
                    && selector@ == request.port@ && timeout == request.timeout_ms as i32
                    && buffer_len == (if request.max_bytes > 0 {
                    request.max_bytes
                } else {
                    1
                }),
                _ => r matches Err(e) && refuses_kind(e, kind),
            },
    {
        match kind {
            PeripheralKind::Serial => Ok(
                ReadPlan::Serial {
                    port: request.port.clone(),
                    baud_rate: request.baud_rate,
                    timeout_ms: request.timeout_ms,
                    buffer_len: request.max_bytes,
                },
            ),
            PeripheralKind::Hid => Ok(
                ReadPlan::Hid {
                    selector: request.port.clone(),
                    timeout: hid_timeout(request.timeout_ms),
                    buffer_len: hid_buffer_len(request.max_bytes),
                },
            ),
            other => Err(unsupported(other)),
        }
    }

    /// Routes a write.
    pub fn write(&self, kind: PeripheralKind, request: &WriteRequest) -> (r: Result<WritePlan, PeriphError>)
        ensures
            match kind {
                PeripheralKind::Serial => r matches Ok(WritePlan::Serial { port, baud_rate, timeout_ms })
                    && port@ == request.port@ && baud_rate == request.baud_rate && timeout_ms
                    == request.timeout_ms,
                PeripheralKind::Hid => r matches Ok(WritePlan::Hid { selector }) && selector@
                    == request.port@,
                _ => r matches Err(e) && refuses_kind(e, kind),
            },
    {
        match kind {
            PeripheralKind::Serial => Ok(
                WritePlan::Serial {
                    port: request.port.clone(),
                    baud_rate: request.baud_rate,
                    timeout_ms: request.timeout_ms,
                },
            ),
            PeripheralKind::Hid => Ok(WritePlan::Hid { selector: request.port.clone() }),
            other => Err(unsupported(other)),
        }
    }

    /// Routes a monitoring session.
    pub fn monitor(&self, kind: PeripheralKind, request: &MonitorRequest) -> (r: Result<MonitorPlan, PeriphError>)
        ensures
            match kind {
                PeripheralKind::Serial => r matches Ok(
                    MonitorPlan::Serial { port, baud_rate, timeout_ms, buffer_len },
                ) && port@ == request.port@ && baud_rate == request.baud_rate && timeout_ms
                    == request.timeout_ms && buffer_len == (if request.chunk_size > 0 {
                    request.chunk_size
                } else {
                    1
                }),
                PeripheralKind::Hid => r matches Ok(MonitorPlan::Hid { selector, timeout, buffer_len })
                    && selector@ == request.port@ && timeout == request.timeout_ms as i32
                    && buffer_len == (if request.chunk_size > 0 {
                    request.chunk_size
                } else {
                    1
                }),
                _ => r matches Err(e) && refuses_kind(e, kind),
            },
    {
        match kind {
            PeripheralKind::Serial => Ok(
                MonitorPlan::Serial {
                    port: request.port.clone(),
                    baud_rate: request.baud_rate,
                    timeout_ms: request.timeout_ms,
                    buffer_len: monitor_buffer_len(request),
                },
            ),
            PeripheralKind::Hid => Ok(
                MonitorPlan::Hid {
                    selector: request.port.clone(),
                    timeout: hid_timeout(request.timeout_ms),
                    buffer_len: monitor_buffer_len(request),
                },
            ),
            other => Err(unsupported(other)),
        }
    }
}

} // verus!
