//! HID devices: the `vid:pid[:serial]` selectors users type, the listing
//! of devices found, and the choice of the device a selector names.

use vstd::prelude::*;
use crate::error::PeriphError;
use crate::payload::{all_hex_digits, hex_char_value, hex_number, parse_radix16, radix16};
use crate::peripheral::{
    DeviceInfo, PeripheralKind, ReadResponse, WriteResponse, chunk_response, describes,
    metadata_in_key_order, metadata_keys, read_response, truncated,
};
use crate::text::{
    chars_less, hex4_text, hex_digit, lemma_in_order_no_duplicates, lemma_push_in_order, push_hex4,
    texts_in_order,
};

verus! {

/// A parsed `vid:pid[:serial]` selector.
#[derive(Debug, Clone, PartialEq, Eq)]
pub struct VidPidSelector {
    pub vendor_id: u16,
    pub product_id: u16,
    pub serial_number: Option<String>,
}

/// `k` is the position of the first `:` in `s`.
pub open spec fn first_colon(s: Seq<char>, k: int) -> bool {
    &&& 0 <= k < s.len()
    &&& s[k] == ':'
    &&& forall|m: int| 0 <= m < k ==> s[m] != ':'
}

/// `s` cut at its first `:` into what precedes and what follows it.
pub open spec fn split_at_colon(s: Seq<char>) -> Option<(Seq<char>, Seq<char>)> {
    if exists|k: int| first_colon(s, k) {
        let k = choose|k: int| first_colon(s, k);
        Some((s.take(k), s.skip(k + 1)))
    } else {
        None
    }
}

/// The first three `:`-separated fields of `s`, the third keeping any
/// further `:`; `None` when `s` has no `:` at all.
pub open spec fn selector_fields(s: Seq<char>) -> Option<(Seq<char>, Seq<char>, Option<Seq<char>>)> {
    match split_at_colon(s) {
        None => None,
        Some((vendor, rest)) => match split_at_colon(rest) {
            None => Some((vendor, rest, None)),
            Some((product, serial)) => Some((vendor, product, Some(serial))),
        },
    }
}

/// An identifier field: exactly four characters read in base 16.
pub open spec fn id_field(f: Seq<char>) -> Option<u16> {
    if f.len() == 4 {
        match radix16(f, 0xffff) {
            Some(v) => Some(v as u16),
            None => None,
        }
    } else {
        None
    }
}

/// What a `vid:pid[:serial]` selector denotes: vendor id, product id and
/// the serial number when one is given and not empty.
pub open spec fn vid_pid_selector(s: Seq<char>) -> Option<(u16, u16, Option<Seq<char>>)> {
    match selector_fields(s) {
        None => None,
        Some((vendor, product, serial)) => match (id_field(vendor), id_field(product)) {
            (Some(v), Some(p)) => Some(
                (
                    v,
                    p,
                    match serial {
                        Some(x) => if x.len() > 0 {
                            Some(x)
                        } else {
                            None
                        },
                        None => None,
                    },
                ),
            ),
            _ => None,
        },
    }
}

/// The view of an optional string.
pub open spec fn opt_text(o: Option<String>) -> Option<Seq<char>> {
    match o {
        Some(s) => Some(s@),
        None => None,
    }
}

/// The view of an optional string slice.
pub open spec fn opt_str_text(o: Option<&str>) -> Option<Seq<char>> {
    match o {
        Some(s) => Some(s@),
        None => None,
    }
}

impl VidPidSelector {
    /// The selector as plain values.
    pub open spec fn fields(&self) -> (u16, u16, Option<Seq<char>>) {
        (self.vendor_id, self.product_id, opt_text(self.serial_number))
    }
}

/// The selector text for a device: `vvvv:pppp`, followed by `:serial`
/// when the serial number is present and not empty.
pub open spec fn selector_text(vendor_id: u16, product_id: u16, serial: Option<Seq<char>>) -> Seq<char> {
    let base = hex4_text(vendor_id) + ":"@ + hex4_text(product_id);
    match serial {
        Some(s) => if s.len() > 0 {
            base + ":"@ + s
        } else {
            base
        },
        None => base,
    }
}

/// The position of the first `:` in `s`, if any.
fn find_colon(s: &str) -> (r: Option<usize>)
    ensures
        r matches Some(k) ==> first_colon(s@, k as int),
        r is None ==> forall|m: int| 0 <= m < s@.len() ==> s@[m] != ':',
{
    let n = s.unicode_len();
    let mut i: usize = 0;
    while i < n
        invariant
            n == s@.len(),
            i <= n,
            forall|m: int| 0 <= m < i ==> s@[m] != ':',
        decreases n - i,
    {
        if s.get_char(i) == ':' {
            return Some(i);
        }
        i = i + 1;
    }
    None
}

proof fn lemma_first_colon_unique(s: Seq<char>, k: int)
    requires
        first_colon(s, k),
    ensures
        split_at_colon(s) == Some((s.take(k), s.skip(k + 1))),
{
    let c = choose|j: int| first_colon(s, j);
    assert(first_colon(s, c));
    if c < k {
        assert(s[c] != ':');
    }
    if k < c {
        assert(s[k] != ':');
    }
}

/// Cuts `s` at its first `:`.
fn split_colon(s: &str) -> (r: Option<(&str, &str)>)
    ensures
        match split_at_colon(s@) {
            Some((a, b)) => r matches Some((x, y)) && x@ == a && y@ == b,
            None => r is None,
        },
{
    match find_colon(s) {
        Some(k) => {
            proof {
                lemma_first_colon_unique(s@, k as int);
            }
            let n = s.unicode_len();
            let head = s.substring_char(0, k);
            let tail = s.substring_char(k + 1, n);
            assert(head@ =~= s@.take(k as int));
            assert(tail@ =~= s@.skip(k + 1));
            Some((head, tail))
        },
        None => {
            assert(!exists|k: int| first_colon(s@, k)) by {
                if exists|k: int| first_colon(s@, k) {
                    let k = choose|k: int| first_colon(s@, k);
                    assert(s@[k] == ':');
                }
            }
            None
        },
    }
}

/// Reads a four-character identifier field.
fn parse_id_field(f: &str) -> (r: Option<u16>)
    ensures
        r == id_field(f@),
{
    if f.unicode_len() != 4 {
        return None;
    }
    match parse_radix16(f, 0xffff) {
        Some(v) => Some(v as u16),
        None => None,
    }
}

/// Parses a `vid:pid[:serial]` selector such as `2341:0043:ABC123`.
///
/// Vendor and product id are four hexadecimal digits each; a serial
/// number after a second `:` is kept when it is not empty.
pub fn parse_vid_pid_selector(value: &str) -> (r: Option<VidPidSelector>)
    ensures
        match vid_pid_selector(value@) {
            Some(f) => r matches Some(sel) && sel.fields() == f,
            None => r is None,
        },
{
    let (vendor_raw, rest) = match split_colon(value) {
        Some(parts) => parts,
        None => return None,
    };
    let (product_raw, serial_raw) = match split_colon(rest) {
        Some((p, s)) => (p, Some(s)),
        None => (rest, None),
    };
    let vendor_id = match parse_id_field(vendor_raw) {
        Some(v) => v,
        None => return None,
    };
    let product_id = match parse_id_field(product_raw) {
        Some(v) => v,
        None => return None,
    };
    let serial_number = match serial_raw {
        Some(s) => if s.unicode_len() == 0 {
            None
        } else {
            Some(String::from_str(s))
        },
        None => None,
    };
    Some(VidPidSelector { vendor_id, product_id, serial_number })
}

/// Formats the selector of a device: `vvvv:pppp` or `vvvv:pppp:serial`.
pub fn build_selector(vendor_id: u16, product_id: u16, serial_number: Option<&str>) -> (r: String)
    ensures
        r@ == selector_text(vendor_id, product_id, opt_str_text(serial_number)),
{
    let mut r = String::new();
    push_hex4(&mut r, vendor_id);
    r.append(":");
    push_hex4(&mut r, product_id);
    match serial_number {
        Some(serial) => {
            if serial.unicode_len() > 0 {
                r.append(":");
                r.append(serial);
            }
        },
        None => {},
    }
    r
}

proof fn lemma_hex_digit_value(n: int)
    requires
        0 <= n < 16,
    ensures
        hex_char_value(hex_digit(n)) == n,
        hex_digit(n) != ':',
        hex_digit(n) != '+',
{
}

proof fn lemma_hex4_reads_back(v: u16)
    ensures
        all_hex_digits(hex4_text(v)),
        hex_number(hex4_text(v)) == v,
        radix16(hex4_text(v), 0xffff) == Some(v as int),
        id_field(hex4_text(v)) == Some(v),
        forall|i: int| 0 <= i < 4 ==> hex4_text(v)[i] != ':',
{
    let t = hex4_text(v);
    let a = (v / 4096) as int;
    let b = ((v / 256) % 16) as int;
    let c = ((v / 16) % 16) as int;
    let d = (v % 16) as int;
    lemma_hex_digit_value(a);
    lemma_hex_digit_value(b);
    lemma_hex_digit_value(c);
    lemma_hex_digit_value(d);
    assert(t[0] == hex_digit(a) && t[1] == hex_digit(b) && t[2] == hex_digit(c) && t[3] == hex_digit(d));
    assert(t.drop_last().drop_last().drop_last().drop_last() =~= Seq::<char>::empty());
    assert(t.drop_last().drop_last().drop_last() =~= seq![hex_digit(a)]);
    assert(t.drop_last().drop_last() =~= seq![hex_digit(a), hex_digit(b)]);
    assert(t.drop_last() =~= seq![hex_digit(a), hex_digit(b), hex_digit(c)]);
    reveal_with_fuel(hex_number, 5);
    assert(hex_number(t) == ((a * 16 + b) * 16 + c) * 16 + d);
    assert(((a * 16 + b) * 16 + c) * 16 + d == v as int) by (nonlinear_arith)
        requires
            a == (v / 4096) as int,
            b == ((v / 256) % 16) as int,
            c == ((v / 16) % 16) as int,
            d == (v % 16) as int,
            0 <= v <= 0xffff,
    ;
}

/// Reading back the selector formatted for a device gives that device's
/// vendor id, product id and (non-empty) serial number.
pub proof fn lemma_selector_round_trip(vendor_id: u16, product_id: u16, serial: Option<Seq<char>>)
    ensures
        vid_pid_selector(selector_text(vendor_id, product_id, serial)) == Some(
            (
                vendor_id,
                product_id,
                match serial {
                    Some(x) => if x.len() > 0 {
                        Some(x)
                    } else {
                        None
                    },
                    None => None,
                },
            ),
        ),
{
    let hv = hex4_text(vendor_id);
    let hp = hex4_text(product_id);
    lemma_hex4_reads_back(vendor_id);
    lemma_hex4_reads_back(product_id);
    reveal_strlit(":");
    let s = selector_text(vendor_id, product_id, serial);
    let rest = s.skip(5);
    assert(s[4] == ':');
    assert forall|m: int| 0 <= m < 4 implies s[m] != ':' by {
        assert(s[m] == hv[m]);
    }
    assert(first_colon(s, 4));
    lemma_first_colon_unique(s, 4);
    assert(s.take(4) =~= hv);
    let keep = match serial {
        Some(x) => x.len() > 0,
        None => false,
    };
    if keep {
        let x = serial.unwrap();
        assert(rest =~= hp + ":"@ + x);
        assert(rest[4] == ':');
        assert forall|m: int| 0 <= m < 4 implies rest[m] != ':' by {
            assert(rest[m] == hp[m]);
        }
        assert(first_colon(rest, 4));
        lemma_first_colon_unique(rest, 4);
        assert(rest.take(4) =~= hp);
        assert(rest.skip(5) =~= x);
    } else {
        assert(rest =~= hp);
        assert(!exists|k: int| first_colon(rest, k)) by {
            if exists|k: int| first_colon(rest, k) {
                let k = choose|k: int| first_colon(rest, k);
                assert(rest[k] == hp[k]);
            }
        }
    }
}

/// What the HID layer reports about one attached device.
#[derive(Debug, Clone)]
pub struct HidDeviceRecord {
    /// The platform path of the device, as text.
    pub path: String,
    pub vendor_id: u16,
    pub product_id: u16,
    pub serial_number: Option<String>,
    pub manufacturer: Option<String>,
    pub product: Option<String>,
}

/// A metadata list as key/value texts.
pub open spec fn metadata_view(m: Seq<(String, String)>) -> Seq<(Seq<char>, Seq<char>)> {
    m.map_values(|e: (String, String)| (e.0@, e.1@))
}

/// The label shown for a HID device: its product string, or
/// `HID vvvv:pppp` when it has none.
pub open spec fn hid_label(r: HidDeviceRecord) -> Seq<char> {
    match r.product {
        Some(p) => p@,
        None => "HID "@ + hex4_text(r.vendor_id) + ":"@ + hex4_text(r.product_id),
    }
}

/// The metadata recorded for a HID device, in key order: manufacturer
/// and product strings when present, product id, selector, serial number
/// when present, vendor id.
pub open spec fn hid_metadata(r: HidDeviceRecord) -> Seq<(Seq<char>, Seq<char>)> {
    let with_manufacturer = match r.manufacturer {
        Some(v) => seq![("manufacturer"@, v@)],
        None => Seq::empty(),
    };
    let with_product = match r.product {
        Some(v) => with_manufacturer.push(("product"@, v@)),
        None => with_manufacturer,
    };
    let with_ids = with_product.push(("product_id"@, hex4_text(r.product_id))).push(
        ("selector"@, selector_text(r.vendor_id, r.product_id, opt_text(r.serial_number))),
    );
    let with_serial = match r.serial_number {
        Some(v) => with_ids.push(("serial_number"@, v@)),
        None => with_ids,
    };
    with_serial.push(("vendor_id"@, hex4_text(r.vendor_id)))
}

/// The keys of a metadata list given as texts.
pub open spec fn view_keys(m: Seq<(Seq<char>, Seq<char>)>) -> Seq<Seq<char>> {
    m.map_values(|e: (Seq<char>, Seq<char>)| e.0)
}

/// The metadata of a HID device is in key order.
pub proof fn lemma_hid_metadata_in_key_order(r: HidDeviceRecord)
    ensures
        texts_in_order(view_keys(hid_metadata(r))),
{
    reveal_strlit("manufacturer");
    reveal_strlit("product");
    reveal_strlit("product_id");
    reveal_strlit("selector");
    reveal_strlit("serial_number");
    reveal_strlit("vendor_id");
    reveal_with_fuel(chars_less, 9);
    assert(chars_less("manufacturer"@, "product"@));
    assert(chars_less("manufacturer"@, "product_id"@));
    assert(chars_less("product"@, "product_id"@));
    assert(chars_less("product_id"@, "selector"@));
    assert(chars_less("selector"@, "serial_number"@));
    assert(chars_less("selector"@, "vendor_id"@));
    assert(chars_less("serial_number"@, "vendor_id"@));
    let k0: Seq<Seq<char>> = match r.manufacturer {
        Some(_) => seq!["manufacturer"@],
        None => Seq::empty(),
    };
    let k1 = match r.product {
        Some(_) => k0.push("product"@),
        None => k0,
    };
    let k2 = k1.push("product_id"@);
    let k3 = k2.push("selector"@);
    let k4 = match r.serial_number {
        Some(_) => k3.push("serial_number"@),
        None => k3,
    };
    let k5 = k4.push("vendor_id"@);
    assert(texts_in_order(k0));
    if r.product is Some {
        lemma_push_in_order(k0, "product"@);
    }
    lemma_push_in_order(k1, "product_id"@);
    lemma_push_in_order(k2, "selector"@);
    if r.serial_number is Some {
        lemma_push_in_order(k3, "serial_number"@);
    }
    lemma_push_in_order(k4, "vendor_id"@);
    assert(view_keys(hid_metadata(r)) =~= k5);
}

/// `d` is the listing of the HID device `r`.
pub open spec fn lists_hid_device(d: DeviceInfo, r: HidDeviceRecord) -> bool {
    &&& d.id@ == r.path@
    &&& d.kind == PeripheralKind::Hid
    &&& d.label@ == hid_label(r)
    &&& opt_text(d.path) == Some(r.path@)
    &&& metadata_view(d.metadata@) == hid_metadata(r)
}

fn pair(key: &str, value: String) -> (r: (String, String))
    ensures
        r.0@ == key@,
        r.1 == value,
{
    (String::from_str(key), value)
}

/// The listing of one HID device.
pub fn hid_device_info(record: &HidDeviceRecord) -> (d: DeviceInfo)
    ensures
        lists_hid_device(d, *record),
        metadata_in_key_order(d.metadata@),
{
    let vendor_id = record.vendor_id;
    let product_id = record.product_id;
    let serial_ref: Option<&str> = match &record.serial_number {
        Some(s) => Some(s.as_str()),
        None => None,
    };
    assert(opt_str_text(serial_ref) == opt_text(record.serial_number));
    let selector = build_selector(vendor_id, product_id, serial_ref);
    let label = match &record.product {
        Some(p) => p.clone(),
        None => {
            let mut l = String::from_str("HID ");
            push_hex4(&mut l, vendor_id);
            l.append(":");
            push_hex4(&mut l, product_id);
            l
        },
    };
    let mut metadata: Vec<(String, String)> = Vec::new();
    match &record.manufacturer {
        Some(value) => metadata.push(pair("manufacturer", value.clone())),
        None => {},
    }
    match &record.product {
        Some(value) => metadata.push(pair("product", value.clone())),
        None => {},
    }
    let mut p = String::new();
    push_hex4(&mut p, product_id);
    metadata.push(pair("product_id", p));
    metadata.push(pair("selector", selector));
    match &record.serial_number {
        Some(value) => metadata.push(pair("serial_number", value.clone())),
        None => {},
    }
    let mut v = String::new();
    push_hex4(&mut v, vendor_id);
    metadata.push(pair("vendor_id", v));
    let path = record.path.clone();
    let d = DeviceInfo {
        id: record.path.clone(),
        kind: PeripheralKind::Hid,
        label,
        path: Some(path),
        metadata,
    };
    assert(metadata_view(d.metadata@) =~= hid_metadata(*record));
    proof {
        lemma_hid_metadata_in_key_order(*record);
        assert(metadata_keys(d.metadata@) =~= view_keys(hid_metadata(*record)));
        lemma_in_order_no_duplicates(metadata_keys(d.metadata@));
    }
    d
}

/// The listing of every HID device, in the order the HID layer reports
/// them.
pub fn scan_hid_devices(records: &Vec<HidDeviceRecord>) -> (r: Vec<DeviceInfo>)
    ensures
        r@.len() == records@.len(),
        forall|i: int| 0 <= i < r@.len() ==> lists_hid_device(#[trigger] r@[i], records@[i]),
        forall|i: int| 0 <= i < r@.len() ==> metadata_in_key_order(#[trigger] r@[i].metadata@),
{
    let mut devices: Vec<DeviceInfo> = Vec::new();
    let mut i: usize = 0;
    while i < records.len()
        invariant
            i <= records@.len(),
            devices@.len() == i,
            forall|k: int| 0 <= k < i ==> lists_hid_device(#[trigger] devices@[k], records@[k]),
            forall|k: int| 0 <= k < i ==> metadata_in_key_order(#[trigger] devices@[k].metadata@),
        decreases records@.len() - i,
    {
        devices.push(hid_device_info(&records[i]));
        i = i + 1;
    }
    devices
}

/// `r` is a device the parsed selector `sel` names.
pub open spec fn matches_vid_pid(sel: (u16, u16, Option<Seq<char>>), r: HidDeviceRecord) -> bool {
    &&& r.vendor_id == sel.0
    &&& r.product_id == sel.1
    &&& match sel.2 {
        Some(serial) => opt_text(r.serial_number) == Some(serial),
        None => true,
    }
}

/// `r` is a device that `selector` names: by vendor/product id (and
/// serial) when `selector` is a `vid:pid[:serial]` selector, otherwise by
/// its path.
pub open spec fn names_hid_device(selector: Seq<char>, r: HidDeviceRecord) -> bool {
    match vid_pid_selector(selector) {
        Some(sel) => matches_vid_pid(sel, r),
        None => r.path@ == selector,
    }
}

/// The message when no device answers to `selector`.
pub open spec fn hid_not_found_text(selector: Seq<char>) -> Seq<char> {
    match vid_pid_selector(selector) {
        Some(sel) => "hid device not found for selector "@ + hex4_text(sel.0) + ":"@ + hex4_text(
            sel.1,
        ),
        None => "hid device not found: "@ + selector + ". Use `scan --kind hid` to list selectors."@,
    }
}

fn record_matches(selector: &VidPidSelector, record: &HidDeviceRecord) -> (b: bool)
    ensures
        b == matches_vid_pid(selector.fields(), *record),
{
    if record.vendor_id != selector.vendor_id || record.product_id != selector.product_id {
        return false;
    }
    match &selector.serial_number {
        Some(expected) => match &record.serial_number {
            Some(actual) => *actual == *expected,
            None => false,
        },
        None => true,
    }
}

/// Picks the device that `selector` names: the position of the first
/// device in `devices` it names, or the invalid-input error saying that
/// none answers.
pub fn find_hid_device(devices: &Vec<HidDeviceRecord>, selector: &str) -> (r: Result<usize, PeriphError>)
    ensures
        r matches Ok(i) ==> i < devices@.len() && names_hid_device(selector@, devices@[i as int])
            && forall|j: int| 0 <= j < i ==> !names_hid_device(selector@, #[trigger] devices@[j]),
        r matches Err(e) ==> e matches PeriphError::InvalidInput(m) && m@ == hid_not_found_text(
            selector@,
        ) && forall|j: int|
            0 <= j < devices@.len() ==> !names_hid_device(selector@, #[trigger] devices@[j]),
{
    let parsed = parse_vid_pid_selector(selector);
    let wanted = String::from_str(selector);
    let mut i: usize = 0;
    while i < devices.len()
        invariant
            i <= devices@.len(),
            wanted@ == selector@,
            match vid_pid_selector(selector@) {
                Some(f) => parsed matches Some(sel) && sel.fields() == f,
                None => parsed is None,
            },
            forall|j: int| 0 <= j < i ==> !names_hid_device(selector@, #[trigger] devices@[j]),
        decreases devices@.len() - i,
    {
        let hit = match &parsed {
            Some(sel) => record_matches(sel, &devices[i]),
            None => devices[i].path == wanted,
        };
        if hit {
            return Ok(i);
        }
        i = i + 1;
    }
    let message = match &parsed {
        Some(sel) => {
            let mut m = String::from_str("hid device not found for selector ");
            push_hex4(&mut m, sel.vendor_id);
            m.append(":");
            push_hex4(&mut m, sel.product_id);
            m
        },
        None => {
            let mut m = String::from_str("hid device not found: ");
            m.append(selector);
            m.append(". Use `scan --kind hid` to list selectors.");
            m
        },
    };
    Err(PeriphError::InvalidInput(message))
}

/// The timeout handed to the HID layer, which takes milliseconds as an
/// `i32`: the requested value cut to its low 32 bits.
pub fn hid_timeout(timeout_ms: u64) -> (r: i32)
    ensures
        r == timeout_ms as i32,
{
    timeout_ms as i32
}

/// How many bytes a HID read asks for: the requested number, but at
/// least one.
pub fn hid_buffer_len(max_bytes: usize) -> (n: usize)
    ensures
        n == if max_bytes > 0 {
            max_bytes
        } else {
            1
        },
{
    if max_bytes > 0 {
        max_bytes
    } else {
        1
    }
}

/// The response to a one-off HID read of `count` bytes into `buffer`, or
/// the failure.
pub fn read_from_hid(outcome: Result<(Vec<u8>, usize), PeriphError>) -> (r: Result<ReadResponse, PeriphError>)
    ensures
        match outcome {
            Ok((buffer, count)) => r matches Ok(resp) && describes(
                resp,
                count,
                truncated(buffer@, count as int),
            ),
            Err(e) => r == Err::<ReadResponse, PeriphError>(e),
        },
{
    match outcome {
        Ok((buffer, count)) => Ok(read_response(buffer, count)),
        Err(e) => Err(e),
    }
}

/// The response to a HID write that sent `written` bytes, or the failure.
pub fn write_to_hid(outcome: Result<usize, PeriphError>) -> (r: Result<WriteResponse, PeriphError>)
    ensures
        match outcome {
            Ok(n) => r matches Ok(resp) && resp.bytes_written == n,
            Err(e) => r == Err::<WriteResponse, PeriphError>(e),
        },
{
    match outcome {
        Ok(n) => Ok(WriteResponse { bytes_written: n }),
        Err(e) => Err(e),
    }
}

/// One step of monitoring a HID device: the chunk to hand on, nothing
/// when the read brought no bytes, or the failure that ends the session.
pub fn monitor_hid(outcome: Result<(Vec<u8>, usize), PeriphError>) -> (r: Result<Option<ReadResponse>, PeriphError>)
    requires
        outcome matches Ok((buffer, count)) ==> count <= buffer@.len(),
    ensures
        match outcome {
            Ok((buffer, count)) => if count == 0 {
                r matches Ok(None)
            } else {
                r matches Ok(Some(resp)) && describes(resp, count, buffer@.take(count as int))
            },
            Err(e) => r == Err::<Option<ReadResponse>, PeriphError>(e),
        },
{
    match outcome {
        Ok((buffer, count)) => if count == 0 {
            Ok(None)
        } else {
            Ok(Some(chunk_response(buffer, count)))
        },
        Err(e) => Err(e),
    }
}

/// The selector that a HID listing shows for a device names that device:
/// typed back, it picks this device (or an earlier one with the same ids
/// and serial number).
pub proof fn lemma_listed_selector_names_device(r: HidDeviceRecord)
    ensures
        names_hid_device(selector_text(r.vendor_id, r.product_id, opt_text(r.serial_number)), r),
{
    lemma_selector_round_trip(r.vendor_id, r.product_id, opt_text(r.serial_number));
}

/// A `vid:pid[:serial]` selector names exactly the devices with its
/// vendor id and its product id, and, when it gives a serial number, that
/// serial number; any other text names the device at that path.
pub proof fn lemma_selector_names_exactly(selector: Seq<char>, r: HidDeviceRecord)
    ensures
        match vid_pid_selector(selector) {
            Some((v, p, serial)) => names_hid_device(selector, r) == (r.vendor_id == v
                && r.product_id == p && match serial {
                Some(s) => r.serial_number matches Some(x) && x@ == s,
                None => true,
            }),
            None => names_hid_device(selector, r) == (r.path@ == selector),
        },
{
}

/// A device whose product id differs from a selector's is never the one
/// that selector picks, whatever its vendor id.
pub proof fn lemma_other_product_not_named(selector: Seq<char>, r: HidDeviceRecord)
    requires
        vid_pid_selector(selector) matches Some((v, p, s)) && r.product_id != p,
    ensures
        !names_hid_device(selector, r),
{
}

/// A device with a product string is labelled by it; one without is
/// labelled `HID ` followed by its selector without serial number.
pub proof fn lemma_hid_label_from_selector(r: HidDeviceRecord)
    ensures
        hid_label(r) == match r.product {
            Some(p) => p@,
            None => "HID "@ + selector_text(r.vendor_id, r.product_id, None),
        },
{
}

/// A HID device's metadata records, under `product_id` and `vendor_id`,
/// texts that read back as its ids, and under `selector` a selector that
/// reads back as its ids and its non-empty serial number.
pub proof fn lemma_hid_metadata_reads_back(r: HidDeviceRecord)
    ensures
        exists|j: int|
            0 <= j < hid_metadata(r).len() && #[trigger] hid_metadata(r)[j].0 == "selector"@
                && vid_pid_selector(hid_metadata(r)[j].1) == Some(
                (
                    r.vendor_id,
                    r.product_id,
                    match r.serial_number {
                        Some(s) => if s@.len() > 0 {
                            Some(s@)
                        } else {
                            None
                        },
                        None => None,
                    },
                ),
            ),
        exists|j: int|
            0 <= j < hid_metadata(r).len() && #[trigger] hid_metadata(r)[j].0 == "product_id"@
                && id_field(hid_metadata(r)[j].1) == Some(r.product_id),
        hid_metadata(r).last().0 == "vendor_id"@,
        id_field(hid_metadata(r).last().1) == Some(r.vendor_id),
{
    lemma_hex4_reads_back(r.vendor_id);
    lemma_hex4_reads_back(r.product_id);
    lemma_selector_round_trip(r.vendor_id, r.product_id, opt_text(r.serial_number));
    let m = hid_metadata(r);
    let k: int = (if r.manufacturer is Some {
        1int
    } else {
        0int
    }) + (if r.product is Some {
        1int
    } else {
        0int
    });
    assert(m[k].0 == "product_id"@ && m[k].1 == hex4_text(r.product_id));
    assert(m[k + 1].0 == "selector"@);
    assert(m[k + 1].1 == selector_text(r.vendor_id, r.product_id, opt_text(r.serial_number)));
}

/// The not-found message repeats a path selector after
/// `hid device not found: `, and for a `vid:pid` selector ends with ids
/// that read back as the selector's.
pub proof fn lemma_not_found_names_selector(selector: Seq<char>)
    ensures
        match vid_pid_selector(selector) {
            Some((v, p, _)) => {
                let t = hid_not_found_text(selector);
                &&& id_field(t.subrange(t.len() - 9, t.len() - 5)) == Some(v)
                &&& id_field(t.skip(t.len() - 4)) == Some(p)
            },
            None => hid_not_found_text(selector).subrange(22, 22int + selector.len()) == selector,
        },
{
    reveal_strlit("hid device not found: ");
    reveal_strlit(":");
    let t = hid_not_found_text(selector);
    match vid_pid_selector(selector) {
        Some((v, p, _)) => {
            lemma_hex4_reads_back(v);
            lemma_hex4_reads_back(p);
            assert(t.subrange(t.len() - 9, t.len() - 5) =~= hex4_text(v));
            assert(t.skip(t.len() - 4) =~= hex4_text(p));
        },
        None => {
            assert(t.subrange(22, 22int + selector.len()) =~= selector);
        },
    }
}

} // verus!
