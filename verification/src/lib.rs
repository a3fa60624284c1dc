//! Peripheral access logic: selectors, payload encodings, device
//! listings, preflight reports and the decisions that drive serial and
//! HID sessions. Device and file-system access itself is left to the
//! caller, which hands in what it observed as plain values.

pub mod cli;
pub mod error;
pub mod hid;
pub mod payload;
pub mod peripheral;
pub mod platform;
pub mod serial;
pub mod service;
pub mod text;

pub use error::PeriphError;
pub use payload::parse_hex;
pub use peripheral::{
    DeviceInfo, MonitorRequest, PeripheralKind, ReadRequest, ReadResponse, WriteRequest,
    WriteResponse,
};
pub use platform::{run_preflight_checks, CheckStatus, PlatformInfo, PreflightCheck};
pub use service::PeripheralService;
