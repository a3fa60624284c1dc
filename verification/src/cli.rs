//! The command line's choices and the text it prints for each command.

use vstd::prelude::*;
use crate::error::PeriphError;
use crate::peripheral::{DeviceInfo, PeripheralKind, ReadResponse, WriteResponse, kind_name};
use crate::platform::{CheckStatus, PlatformInfo, PreflightCheck};
use crate::hid::opt_text;
use crate::text::{
    bool_text, decimal_text, decimal_value, lemma_decimal_reads_back, push_bool, push_decimal,
};

verus! {

/// The kinds a scan may ask for, `All` meaning every kind with a backend.
#[derive(Debug, Clone, Copy, PartialEq, Eq, Structural)]
pub enum ScanKindArg {
    All,
    Serial,
    Usb,
    Hid,
    Ble,
    Gpio,
    Camera,
    Audio,
}

/// The kinds a read, write or monitor may name.
#[derive(Debug, Clone, Copy, PartialEq, Eq, Structural)]
pub enum KindArg {
    Serial,
    Usb,
    Hid,
    Ble,
    Gpio,
    Camera,
    Audio,
}

/// How a read or monitored chunk is printed.
#[derive(Debug, Clone, Copy, PartialEq, Eq, Structural)]
pub enum OutputMode {
    Utf8,
    Hex,
    Both,
}

impl KindArg {
    /// The peripheral kind this choice names.
    pub open spec fn kind(self) -> PeripheralKind {
        match self {
            KindArg::Serial => PeripheralKind::Serial,
            KindArg::Usb => PeripheralKind::Usb,
            KindArg::Hid => PeripheralKind::Hid,
            KindArg::Ble => PeripheralKind::Ble,
            KindArg::Gpio => PeripheralKind::Gpio,
            KindArg::Camera => PeripheralKind::Camera,
            KindArg::Audio => PeripheralKind::Audio,
        }
    }

    /// The peripheral kind this choice names.
    pub fn as_kind(self) -> (r: PeripheralKind)
        ensures
            r == self.kind(),
    {
        match self {
            KindArg::Serial => PeripheralKind::Serial,
            KindArg::Usb => PeripheralKind::Usb,
            KindArg::Hid => PeripheralKind::Hid,
            KindArg::Ble => PeripheralKind::Ble,
            KindArg::Gpio => PeripheralKind::Gpio,
            KindArg::Camera => PeripheralKind::Camera,
            KindArg::Audio => PeripheralKind::Audio,
        }
    }
}

impl ScanKindArg {
    /// The kind to scan for; `None` for every kind.
    pub open spec fn kind(self) -> Option<PeripheralKind> {
        match self {
            ScanKindArg::All => None,
            ScanKindArg::Serial => Some(PeripheralKind::Serial),
            ScanKindArg::Usb => Some(PeripheralKind::Usb),
            ScanKindArg::Hid => Some(PeripheralKind::Hid),
            ScanKindArg::Ble => Some(PeripheralKind::Ble),
            ScanKindArg::Gpio => Some(PeripheralKind::Gpio),
            ScanKindArg::Camera => Some(PeripheralKind::Camera),
            ScanKindArg::Audio => Some(PeripheralKind::Audio),
        }
    }

    /// The kind to scan for; `None` for every kind.
    pub fn as_kind(self) -> (r: Option<PeripheralKind>)
        ensures
            r == self.kind(),
    {
        match self {
            ScanKindArg::All => None,
            ScanKindArg::Serial => Some(PeripheralKind::Serial),
            ScanKindArg::Usb => Some(PeripheralKind::Usb),
            ScanKindArg::Hid => Some(PeripheralKind::Hid),
            ScanKindArg::Ble => Some(PeripheralKind::Ble),
            ScanKindArg::Gpio => Some(PeripheralKind::Gpio),
            ScanKindArg::Camera => Some(PeripheralKind::Camera),
            ScanKindArg::Audio => Some(PeripheralKind::Audio),
        }
    }
}

/// The text of a response's data, or `<non-utf8>` when it is not text.
pub open spec fn utf8_or_marker(r: ReadResponse) -> Seq<char> {
    match opt_text(r.data_utf8) {
        Some(t) => t,
        None => "<non-utf8>"@,
    }
}

/// The lines printed for a read or monitored chunk.
pub open spec fn response_lines(r: ReadResponse, mode: OutputMode) -> Seq<Seq<char>> {
    match mode {
        OutputMode::Utf8 => seq![utf8_or_marker(r)],
        OutputMode::Hex => seq![r.data_hex@],
        OutputMode::Both => seq![
            "bytes: "@ + decimal_text(r.bytes_read as nat),
            "hex: "@ + r.data_hex@,
            "utf8: "@ + utf8_or_marker(r),
        ],
    }
}

/// The texts of a sequence of strings.
pub open spec fn lines_view(v: Seq<String>) -> Seq<Seq<char>> {
    v.map_values(|s: String| s@)
}

fn utf8_or_marker_text(response: &ReadResponse) -> (r: String)
    ensures
        r@ == utf8_or_marker(*response),
{
    match &response.data_utf8 {
        Some(t) => t.clone(),
        None => String::from_str("<non-utf8>"),
    }
}

/// The lines printed for a read or monitored chunk.
pub fn read_response_lines(response: &ReadResponse, mode: OutputMode) -> (r: Vec<String>)
    ensures
        lines_view(r@) == response_lines(*response, mode),
{
    let mut lines: Vec<String> = Vec::new();
    match mode {
        OutputMode::Utf8 => {
            lines.push(utf8_or_marker_text(response));
        },
        OutputMode::Hex => {
            lines.push(response.data_hex.clone());
        },
        OutputMode::Both => {
            let mut bytes = String::from_str("bytes: ");
            push_decimal(&mut bytes, response.bytes_read as u64);
            lines.push(bytes);
            let mut hex = String::from_str("hex: ");
            hex.append(response.data_hex.as_str());
            lines.push(hex);
            let mut utf8 = String::from_str("utf8: ");
            let text = utf8_or_marker_text(response);
            utf8.append(text.as_str());
            lines.push(utf8);
        },
    }
    assert(lines_view(lines@) =~= response_lines(*response, mode));
    lines
}

/// The lines printed for the platform.
pub open spec fn platform_text(p: PlatformInfo) -> Seq<Seq<char>> {
    seq![
        "OS: "@ + p.os@,
        "Family: "@ + p.os_family@,
        "Arch: "@ + p.arch@,
        "WSL: "@ + bool_text(p.is_wsl),
    ]
}

fn labelled(label: &str, value: &str) -> (r: String)
    ensures
        r@ == label@ + value@,
{
    let mut s = String::from_str(label);
    s.append(value);
    s
}

/// The lines printed for the platform.
pub fn platform_lines(platform: &PlatformInfo) -> (r: Vec<String>)
    ensures
        lines_view(r@) == platform_text(*platform),
{
    let mut lines: Vec<String> = Vec::new();
    lines.push(labelled("OS: ", platform.os.as_str()));
    lines.push(labelled("Family: ", platform.os_family.as_str()));
    lines.push(labelled("Arch: ", platform.arch.as_str()));
    let mut wsl = String::from_str("WSL: ");
    push_bool(&mut wsl, platform.is_wsl);
    lines.push(wsl);
    assert(lines_view(lines@) =~= platform_text(*platform));
    lines
}

/// The tag shown for a check's status.
pub open spec fn status_tag(s: CheckStatus) -> Seq<char> {
    match s {
        CheckStatus::Pass => "PASS"@,
        CheckStatus::Warn => "WARN"@,
        CheckStatus::Fail => "FAIL"@,
    }
}

/// The line printed for one preflight check: `[TAG] name: details`.
pub open spec fn check_text(c: PreflightCheck) -> Seq<char> {
    "["@ + status_tag(c.status) + "] "@ + c.name@ + ": "@ + c.details@
}

/// The line printed for one preflight check.
pub fn preflight_line(check: &PreflightCheck) -> (r: String)
    ensures
        r@ == check_text(*check),
{
    let tag = match check.status {
        CheckStatus::Pass => "PASS",
        CheckStatus::Warn => "WARN",
        CheckStatus::Fail => "FAIL",
    };
    let mut s = String::from_str("[");
    s.append(tag);
    s.append("] ");
    s.append(check.name.as_str());
    s.append(": ");
    s.append(check.details.as_str());
    s
}

/// The line printed for one device: `label [kind] path`, with `-` for a
/// device without a path.
pub open spec fn device_text(d: DeviceInfo) -> Seq<char> {
    d.label@ + " ["@ + kind_name(d.kind) + "] "@ + match opt_text(d.path) {
        Some(p) => p,
        None => "-"@,
    }
}

/// The line printed for one device.
pub fn device_line(device: &DeviceInfo) -> (r: String)
    ensures
        r@ == device_text(*device),
{
    let mut s = device.label.clone();
    s.append(" [");
    s.append(device.kind.as_str());
    s.append("] ");
    match &device.path {
        Some(p) => s.append(p.as_str()),
        None => s.append("-"),
    }
    s
}

/// The lines printed for a scan: one per device, or a single line saying
/// that nothing was found.
pub open spec fn scan_text(devices: Seq<DeviceInfo>) -> Seq<Seq<char>> {
    if devices.len() == 0 {
        seq!["No devices found."@]
    } else {
        devices.map_values(|d: DeviceInfo| device_text(d))
    }
}

/// The lines printed for a scan.
pub fn scan_lines(devices: &Vec<DeviceInfo>) -> (r: Vec<String>)
    ensures
        lines_view(r@) == scan_text(devices@),
{
    let mut lines: Vec<String> = Vec::new();
    if devices.len() == 0 {
        lines.push(String::from_str("No devices found."));
        assert(lines_view(lines@) =~= scan_text(devices@));
        return lines;
    }
    let mut i: usize = 0;
    while i < devices.len()
        invariant
            i <= devices@.len(),
            lines_view(lines@) == devices@.take(i as int).map_values(|d: DeviceInfo| device_text(d)),
        decreases devices@.len() - i,
    {
        let line = device_line(&devices[i]);
        lines.push(line);
        assert(devices@.take(i + 1).map_values(|d: DeviceInfo| device_text(d)) =~= devices@.take(
            i as int,
        ).map_values(|d: DeviceInfo| device_text(d)).push(device_text(devices@[i as int])));
        assert(lines_view(lines@) =~= devices@.take(i + 1).map_values(|d: DeviceInfo| device_text(d)));
        i = i + 1;
    }
    assert(devices@.take(devices@.len() as int) =~= devices@);
    lines
}

/// The line printed after a write.
pub open spec fn write_text(r: WriteResponse) -> Seq<char> {
    "Wrote "@ + decimal_text(r.bytes_written as nat) + " byte(s)."@
}

/// The line printed after a write.
pub fn write_summary(response: &WriteResponse) -> (r: String)
    ensures
        r@ == write_text(*response),
{
    let mut s = String::from_str("Wrote ");
    push_decimal(&mut s, response.bytes_written as u64);
    s.append(" byte(s).");
    s
}

/// The line printed when monitoring starts.
pub open spec fn banner_text(port: Seq<char>, baud_rate: u32) -> Seq<char> {
    "Monitoring "@ + port + " at "@ + decimal_text(baud_rate as nat) + " baud. Press Ctrl-C to stop."@
}

/// The line printed when monitoring starts.
pub fn monitor_banner(port: &str, baud_rate: u32) -> (r: String)
    ensures
        r@ == banner_text(port@, baud_rate),
{
    let mut s = String::from_str("Monitoring ");
    s.append(port);
    s.append(" at ");
    push_decimal(&mut s, baud_rate as u64);
    s.append(" baud. Press Ctrl-C to stop.");
    s
}

/// The line printed when a command fails.
pub fn error_line(err: &PeriphError) -> (r: String)
    ensures
        r@ == "error: "@ + err.text(),
{
    let mut s = String::from_str("error: ");
    let text = err.message();
    s.append(text.as_str());
    s
}

/// A device line starts with the device's label, names its kind in
/// brackets, and ends with its path, or with `-` when it has none.
pub proof fn lemma_device_line_shape(d: DeviceInfo)
    ensures
        device_text(d).take(d.label@.len() as int) == d.label@,
        device_text(d).subrange(d.label@.len() + 2int, d.label@.len() + 2int + kind_name(d.kind).len())
            == kind_name(d.kind),
        match opt_text(d.path) {
            Some(p) => {
                &&& device_text(d).len() == d.label@.len() + kind_name(d.kind).len() + 4 + p.len()
                &&& device_text(d).skip(device_text(d).len() - p.len()) == p
            },
            None => {
                &&& device_text(d).len() == d.label@.len() + kind_name(d.kind).len() + 5
                &&& device_text(d).last() == '-'
            },
        },
{
    reveal_strlit(" [");
    reveal_strlit("] ");
    reveal_strlit("-");
    let t = device_text(d);
    let l = d.label@.len() as int;
    let k = kind_name(d.kind).len() as int;
    assert(t.take(l) =~= d.label@);
    assert(t.subrange(l + 2, l + 2 + k) =~= kind_name(d.kind));
    match opt_text(d.path) {
        Some(p) => {
            assert(t.skip(t.len() - p.len()) =~= p);
        },
        None => {},
    }
}

/// In hex mode a response prints as its hex text alone; in text mode as
/// its text, or `<non-utf8>`; in both modes as three lines whose first
/// reads back as the byte count and whose others end with the hex and the
/// text.
pub proof fn lemma_response_lines_shape(r: ReadResponse)
    ensures
        response_lines(r, OutputMode::Hex) == seq![r.data_hex@],
        response_lines(r, OutputMode::Utf8).len() == 1,
        r.data_utf8 matches Some(t) ==> response_lines(r, OutputMode::Utf8)[0] == t@,
        response_lines(r, OutputMode::Both).len() == 3,
        decimal_value(response_lines(r, OutputMode::Both)[0].skip(7)) == r.bytes_read,
        response_lines(r, OutputMode::Both)[1].skip(5) == r.data_hex@,
        response_lines(r, OutputMode::Both)[2].skip(6) == response_lines(r, OutputMode::Utf8)[0],
{
    reveal_strlit("bytes: ");
    reveal_strlit("hex: ");
    reveal_strlit("utf8: ");
    let both = response_lines(r, OutputMode::Both);
    lemma_decimal_reads_back(r.bytes_read as nat);
    assert(both[0].skip(7) =~= decimal_text(r.bytes_read as nat));
    assert(both[1].skip(5) =~= r.data_hex@);
    assert(both[2].skip(6) =~= utf8_or_marker(r));
}

/// The write summary reads back as the number of bytes written.
pub proof fn lemma_write_text_reads_back(r: WriteResponse)
    ensures
        decimal_value(write_text(r).subrange(6, write_text(r).len() - 9)) == r.bytes_written,
{
    reveal_strlit("Wrote ");
    reveal_strlit(" byte(s).");
    lemma_decimal_reads_back(r.bytes_written as nat);
    let t = write_text(r);
    assert(t.subrange(6, t.len() - 9) =~= decimal_text(r.bytes_written as nat));
}

/// The monitoring banner names the port right after `Monitoring ` and
/// reads back the baud rate after it and ` at `.
pub proof fn lemma_banner_reads_back(port: Seq<char>, baud_rate: u32)
    ensures
        banner_text(port, baud_rate).subrange(11, 11int + port.len()) == port,
        decimal_value(
            banner_text(port, baud_rate).subrange(15int + port.len(), banner_text(port, baud_rate).len() - 28),
        ) == baud_rate,
{
    reveal_strlit("Monitoring ");
    reveal_strlit(" at ");
    reveal_strlit(" baud. Press Ctrl-C to stop.");
    lemma_decimal_reads_back(baud_rate as nat);
    let t = banner_text(port, baud_rate);
    assert(t.subrange(11, 11int + port.len()) =~= port);
    assert(t.subrange(15int + port.len(), t.len() - 28) =~= decimal_text(baud_rate as nat));
}

/// Each status prints its own tag, and a check line ends with the check's
/// details.
pub proof fn lemma_check_line_shape(c: PreflightCheck)
    ensures
        status_tag(CheckStatus::Pass) != status_tag(CheckStatus::Warn),
        status_tag(CheckStatus::Pass) != status_tag(CheckStatus::Fail),
        status_tag(CheckStatus::Warn) != status_tag(CheckStatus::Fail),
        check_text(c).subrange(1, 1int + status_tag(c.status).len()) == status_tag(c.status),
        check_text(c).skip(check_text(c).len() - c.details@.len()) == c.details@,
{
    reveal_strlit("PASS");
    reveal_strlit("WARN");
    reveal_strlit("FAIL");
    reveal_strlit("[");
    let t = check_text(c);
    assert("PASS"@[0] != "WARN"@[0]);
    assert("PASS"@[0] != "FAIL"@[0]);
    assert("WARN"@[0] != "FAIL"@[0]);
    assert(t.subrange(1, 1int + status_tag(c.status).len()) =~= status_tag(c.status));
    assert(t.skip(t.len() - c.details@.len()) =~= c.details@);
}

} // verus!
