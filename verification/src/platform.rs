//! What the host looks like, and the preflight report that tells a user
//! whether peripherals can be reached.

use vstd::prelude::*;
use crate::error::PeriphError;
use crate::peripheral::DeviceInfo;
use crate::text::{
    ascii_lowercase, bool_text, contains_chars, contains_text, decimal_text, decimal_value,
    lemma_decimal_reads_back, lower_text, push_bool, push_decimal,
};

verus! {

/// The operating system, its family, the CPU architecture, and whether
/// this is Linux running under WSL.
#[derive(Debug, Clone)]
pub struct PlatformInfo {
    pub os: String,
    pub os_family: String,
    pub arch: String,
    pub is_wsl: bool,
}

/// The outcome of one preflight check.
#[derive(Debug, Clone, Copy, PartialEq, Eq, Structural)]
pub enum CheckStatus {
    Pass,
    Warn,
    Fail,
}

/// One line of the preflight report.
#[derive(Debug, Clone)]
pub struct PreflightCheck {
    pub name: String,
    pub status: CheckStatus,
    pub details: String,
}

/// A check as plain values: name, status and details.
pub open spec fn check_view(c: PreflightCheck) -> (Seq<char>, CheckStatus, Seq<char>) {
    (c.name@, c.status, c.details@)
}

/// The report line describing the platform.
pub open spec fn platform_check(p: PlatformInfo) -> (Seq<char>, CheckStatus, Seq<char>) {
    (
        "platform"@,
        CheckStatus::Pass,
        p.os@ + " / "@ + p.os_family@ + " / "@ + p.arch@ + " (wsl: "@ + bool_text(p.is_wsl) + ")"@,
    )
}

/// The report line reminding WSL users of USB passthrough.
pub open spec fn wsl_note_check() -> (Seq<char>, CheckStatus, Seq<char>) {
    (
        "wsl-usb-note"@,
        CheckStatus::Warn,
        "WSL needs USB passthrough (usbipd-win) for direct USB/serial devices."@,
    )
}

/// The report line for a serial scan that found `n` ports.
pub open spec fn serial_found(n: nat) -> (Seq<char>, CheckStatus, Seq<char>) {
    ("serial-scan"@, CheckStatus::Pass, "Found "@ + decimal_text(n) + " serial port(s)."@)
}

/// The report line for a serial scan.
pub open spec fn serial_check(scan: Result<Vec<DeviceInfo>, PeriphError>) -> (Seq<char>, CheckStatus, Seq<char>) {
    match scan {
        Ok(devices) => if devices@.len() == 0 {
            (
                "serial-scan"@,
                CheckStatus::Warn,
                "No serial ports found. Device may be disconnected or permissions may be missing."@,
            )
        } else {
            serial_found(devices@.len())
        },
        Err(e) => ("serial-scan"@, CheckStatus::Fail, e.text()),
    }
}

/// The report line for a HID scan; a HID scan that fails only warns.
pub open spec fn hid_check(scan: Result<Vec<DeviceInfo>, PeriphError>) -> (Seq<char>, CheckStatus, Seq<char>) {
    match scan {
        Ok(devices) => if devices@.len() == 0 {
            ("hid-scan"@, CheckStatus::Warn, "No HID devices found."@)
        } else {
            ("hid-scan"@, CheckStatus::Pass, "Found "@ + decimal_text(devices@.len()) + " HID device(s)."@)
        },
        Err(e) => ("hid-scan"@, CheckStatus::Warn, "HID scan unavailable: "@ + e.text()),
    }
}

/// The whole preflight report: the platform, the WSL note under WSL, the
/// serial scan and the HID scan, in that order.
pub open spec fn preflight_report(
    p: PlatformInfo,
    serial: Result<Vec<DeviceInfo>, PeriphError>,
    hid: Result<Vec<DeviceInfo>, PeriphError>,
) -> Seq<(Seq<char>, CheckStatus, Seq<char>)> {
    if p.is_wsl {
        seq![platform_check(p), wsl_note_check(), serial_check(serial), hid_check(hid)]
    } else {
        seq![platform_check(p), serial_check(serial), hid_check(hid)]
    }
}

fn check(name: &str, status: CheckStatus, details: String) -> (c: PreflightCheck)
    ensures
        check_view(c) == (name@, status, details@),
{
    PreflightCheck { name: String::from_str(name), status, details }
}

/// The report line for a serial scan that found `devices`.
pub fn serial_found_check(devices: Vec<DeviceInfo>) -> (c: PreflightCheck)
    ensures
        check_view(c) == serial_found(devices@.len()),
{
    let mut details = String::from_str("Found ");
    push_decimal(&mut details, devices.len() as u64);
    details.append(" serial port(s).");
    check("serial-scan", CheckStatus::Pass, details)
}

/// The report line for a serial scan.
pub fn serial_scan_check(scan: Result<Vec<DeviceInfo>, PeriphError>) -> (c: PreflightCheck)
    ensures
        check_view(c) == serial_check(scan),
{
    match scan {
        Ok(devices) => if devices.len() == 0 {
            check(
                "serial-scan",
                CheckStatus::Warn,
                String::from_str(
                    "No serial ports found. Device may be disconnected or permissions may be missing.",
                ),
            )
        } else {
            serial_found_check(devices)
        },
        Err(err) => check("serial-scan", CheckStatus::Fail, err.message()),
    }
}

/// The report line for a HID scan.
pub fn hid_scan_check(scan: Result<Vec<DeviceInfo>, PeriphError>) -> (c: PreflightCheck)
    ensures
        check_view(c) == hid_check(scan),
{
    match scan {
        Ok(devices) => if devices.len() == 0 {
            check("hid-scan", CheckStatus::Warn, String::from_str("No HID devices found."))
        } else {
            let mut details = String::from_str("Found ");
            push_decimal(&mut details, devices.len() as u64);
            details.append(" HID device(s).");
            check("hid-scan", CheckStatus::Pass, details)
        },
        Err(err) => {
            let mut details = String::from_str("HID scan unavailable: ");
            let text = err.message();
            details.append(text.as_str());
            check("hid-scan", CheckStatus::Warn, details)
        },
    }
}

/// The report line describing the platform.
pub fn platform_report_check(platform: &PlatformInfo) -> (c: PreflightCheck)
    ensures
        check_view(c) == platform_check(*platform),
{
    let mut details = platform.os.clone();
    details.append(" / ");
    details.append(platform.os_family.as_str());
    details.append(" / ");
    details.append(platform.arch.as_str());
    details.append(" (wsl: ");
    push_bool(&mut details, platform.is_wsl);
    details.append(")");
    check("platform", CheckStatus::Pass, details)
}

/// The preflight report for this platform, given what scanning for
/// serial ports and for HID devices found.
pub fn run_preflight_checks(
    platform: &PlatformInfo,
    serial_scan: Result<Vec<DeviceInfo>, PeriphError>,
    hid_scan: Result<Vec<DeviceInfo>, PeriphError>,
) -> (r: Vec<PreflightCheck>)
    ensures
        r@.map_values(|c: PreflightCheck| check_view(c)) == preflight_report(
            *platform,
            serial_scan,
            hid_scan,
        ),
{
    let ghost serial_copy = serial_scan;
    let ghost hid_copy = hid_scan;
    let mut checks: Vec<PreflightCheck> = Vec::new();
    checks.push(platform_report_check(platform));
    if platform.is_wsl {
        checks.push(
            check(
                "wsl-usb-note",
                CheckStatus::Warn,
                String::from_str(
                    "WSL needs USB passthrough (usbipd-win) for direct USB/serial devices.",
                ),
            ),
        );
    }
    checks.push(serial_scan_check(serial_scan));
    checks.push(hid_scan_check(hid_scan));
    assert(checks@.map_values(|c: PreflightCheck| check_view(c)) =~= preflight_report(
        *platform,
        serial_copy,
        hid_copy,
    ));
    checks
}

/// Whether a kernel release string names WSL.
pub open spec fn release_names_wsl(release: Seq<char>) -> bool {
    contains_text(lower_text(release), "microsoft"@) || contains_text(lower_text(release), "wsl"@)
}

/// Whether a Linux host runs under WSL: either WSL variable set in the
/// environment says so, or else the kernel release (when it could be
/// read) mentions Microsoft or WSL.
pub open spec fn wsl_from(distro_name_set: bool, interop_set: bool, os_release: Option<Seq<char>>) -> bool {
    if distro_name_set || interop_set {
        true
    } else {
        match os_release {
            Some(r) => release_names_wsl(r),
            None => false,
        }
    }
}

/// Decides whether a Linux host runs under WSL from what the environment
/// and the kernel's release file show.
pub fn detect_wsl(distro_name_set: bool, interop_set: bool, os_release: Option<&str>) -> (r: bool)
    ensures
        r == wsl_from(
            distro_name_set,
            interop_set,
            match os_release {
                Some(s) => Some(s@),
                None => None,
            },
        ),
{
    if distro_name_set || interop_set {
        return true;
    }
    match os_release {
        Some(content) => {
            let lower = ascii_lowercase(content);
            contains_chars(&lower, "microsoft") || contains_chars(&lower, "wsl")
        },
        None => false,
    }
}

/// How scans are graded: a HID scan passes only when it found devices and
/// otherwise only warns, never fails; a serial scan passes when it found
/// ports, warns when it found none, and fails when it could not run.
pub proof fn lemma_scan_check_statuses(scan: Result<Vec<DeviceInfo>, PeriphError>)
    ensures
        (hid_check(scan).1 == CheckStatus::Pass) == (scan matches Ok(v) && v@.len() > 0),
        (hid_check(scan).1 == CheckStatus::Warn) == !(scan matches Ok(v) && v@.len() > 0),
        (serial_check(scan).1 == CheckStatus::Pass) == (scan matches Ok(v) && v@.len() > 0),
        (serial_check(scan).1 == CheckStatus::Warn) == (scan matches Ok(v) && v@.len() == 0),
        (serial_check(scan).1 == CheckStatus::Fail) == (scan is Err),
        hid_check(scan).0 == "hid-scan"@,
        serial_check(scan).0 == "serial-scan"@,
{
}

/// The preflight report starts with the platform line, has the WSL note
/// exactly under WSL, and ends with the serial and HID scan lines.
pub proof fn lemma_preflight_layout(
    p: PlatformInfo,
    serial: Result<Vec<DeviceInfo>, PeriphError>,
    hid: Result<Vec<DeviceInfo>, PeriphError>,
)
    ensures
        preflight_report(p, serial, hid).len() == if p.is_wsl {
            4int
        } else {
            3int
        },
        preflight_report(p, serial, hid)[0].0 == "platform"@,
        preflight_report(p, serial, hid)[0].1 == CheckStatus::Pass,
        p.is_wsl ==> preflight_report(p, serial, hid)[1].0 == "wsl-usb-note"@,
        preflight_report(p, serial, hid).last() == hid_check(hid),
        preflight_report(p, serial, hid)[preflight_report(p, serial, hid).len() - 2] == serial_check(
            serial,
        ),
{
}

/// The environment variables of WSL decide alone; otherwise a kernel
/// release that mentions Microsoft or WSL, in any letter case, shows WSL,
/// and a host without a readable release is not WSL.
pub proof fn lemma_wsl_rules(distro_name_set: bool, interop_set: bool, release: Seq<char>, i: int)
    ensures
        distro_name_set || interop_set ==> wsl_from(distro_name_set, interop_set, None),
        !distro_name_set && !interop_set ==> !wsl_from(distro_name_set, interop_set, None),
        0 <= i && i + 9 <= release.len() && lower_text(release.subrange(i, i + 9)) == "microsoft"@
            ==> wsl_from(distro_name_set, interop_set, Some(release)),
        0 <= i && i + 3 <= release.len() && lower_text(release.subrange(i, i + 3)) == "wsl"@
            ==> wsl_from(distro_name_set, interop_set, Some(release)),
{
    if 0 <= i && i + 9 <= release.len() && lower_text(release.subrange(i, i + 9)) == "microsoft"@ {
        assert(lower_text(release).subrange(i, i + 9) =~= lower_text(release.subrange(i, i + 9)));
        assert(contains_text(lower_text(release), "microsoft"@)) by {
            reveal_strlit("microsoft");
        }
    }
    if 0 <= i && i + 3 <= release.len() && lower_text(release.subrange(i, i + 3)) == "wsl"@ {
        assert(lower_text(release).subrange(i, i + 3) =~= lower_text(release.subrange(i, i + 3)));
        assert(contains_text(lower_text(release), "wsl"@)) by {
            reveal_strlit("wsl");
        }
    }
}

/// A scan that found devices reports how many, in a count that reads
/// back as the number found; a failed scan reports the error's text.
pub proof fn lemma_scan_details(scan: Result<Vec<DeviceInfo>, PeriphError>)
    ensures
        match scan {
            Ok(v) => v@.len() > 0 ==> {
                let s = serial_check(scan).2;
                let h = hid_check(scan).2;
                &&& decimal_value(s.subrange(6, s.len() - 16)) == v@.len()
                &&& decimal_value(h.subrange(6, h.len() - 15)) == v@.len()
            },
            Err(_) => true,
        },
        scan matches Err(e) ==> serial_check(scan).2 == e.text() && hid_check(scan).2.skip(
            22,
        ) == e.text(),
{
    reveal_strlit("Found ");
    reveal_strlit(" serial port(s).");
    reveal_strlit(" HID device(s).");
    reveal_strlit("HID scan unavailable: ");
    match scan {
        Ok(v) => {
            if v@.len() > 0 {
                lemma_decimal_reads_back(v@.len());
                let s = serial_check(scan).2;
                let h = hid_check(scan).2;
                assert(s.subrange(6, s.len() - 16) =~= decimal_text(v@.len()));
                assert(h.subrange(6, h.len() - 15) =~= decimal_text(v@.len()));
            }
        },
        Err(e) => {
            assert(hid_check(scan).2.skip(22) =~= e.text());
        },
    }
}

/// The platform line starts with the operating system's name and ends
/// with whether this is WSL.
pub proof fn lemma_platform_details(p: PlatformInfo)
    ensures
        platform_check(p).2.take(p.os@.len() as int) == p.os@,
        platform_check(p).2.subrange(
            platform_check(p).2.len() - 1 - bool_text(p.is_wsl).len(),
            platform_check(p).2.len() - 1,
        ) == bool_text(p.is_wsl),
{
    reveal_strlit(")");
    let t = platform_check(p).2;
    assert(t.take(p.os@.len() as int) =~= p.os@);
    assert(t.subrange(t.len() - 1 - bool_text(p.is_wsl).len(), t.len() - 1) =~= bool_text(p.is_wsl));
}

} // verus!
