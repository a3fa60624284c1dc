//! The data that flows between the caller and the library: peripheral
//! kinds, device listings, and read/write/monitor requests and responses.

use vstd::prelude::*;
use vstd::utf8::*;
use crate::text::{hex_encode, hex_text, lower_text, texts_in_order, utf8_string};

verus! {

/// The kinds of peripheral the tool knows about.
#[derive(Debug, Clone, Copy, PartialEq, Eq, Structural)]
pub enum PeripheralKind {
    Serial,
    Usb,
    Hid,
    Ble,
    Gpio,
    Camera,
    Audio,
}

/// The lowercase name of a kind, as shown to users.
pub open spec fn kind_name(kind: PeripheralKind) -> Seq<char> {
    match kind {
        PeripheralKind::Serial => "serial"@,
        PeripheralKind::Usb => "usb"@,
        PeripheralKind::Hid => "hid"@,
        PeripheralKind::Ble => "ble"@,
        PeripheralKind::Gpio => "gpio"@,
        PeripheralKind::Camera => "camera"@,
        PeripheralKind::Audio => "audio"@,
    }
}

impl PeripheralKind {
    /// The lowercase name of this kind.
    pub fn as_str(&self) -> (r: &'static str)
        ensures
            r@ == kind_name(*self),
    {
        match self {
            PeripheralKind::Serial => "serial",
            PeripheralKind::Usb => "usb",
            PeripheralKind::Hid => "hid",
            PeripheralKind::Ble => "ble",
            PeripheralKind::Gpio => "gpio",
            PeripheralKind::Camera => "camera",
            PeripheralKind::Audio => "audio",
        }
    }

    /// The lowercase name of this kind, as an owned string.
    pub fn name(&self) -> (r: String)
        ensures
            r@ == kind_name(*self),
    {
        String::from_str(self.as_str())
    }
}

/// One device found by a scan.
///
/// `metadata` lists key/value pairs in increasing key order, so that no
/// key occurs twice.
#[derive(Debug, Clone)]
pub struct DeviceInfo {
    pub id: String,
    pub kind: PeripheralKind,
    pub label: String,
    pub path: Option<String>,
    pub metadata: Vec<(String, String)>,
}

/// The keys of a metadata list, in order.
pub open spec fn metadata_keys(metadata: Seq<(String, String)>) -> Seq<Seq<char>> {
    metadata.map_values(|e: (String, String)| e.0@)
}

/// A metadata list whose keys strictly increase, and so never repeat.
pub open spec fn metadata_in_key_order(metadata: Seq<(String, String)>) -> bool {
    &&& texts_in_order(metadata_keys(metadata))
    &&& metadata_keys(metadata).no_duplicates()
}

/// A request to read once from a device.
#[derive(Debug, Clone)]
pub struct ReadRequest {
    pub port: String,
    pub baud_rate: u32,
    pub timeout_ms: u64,
    pub max_bytes: usize,
}

/// What one read produced.
#[derive(Debug, Clone)]
pub struct ReadResponse {
    pub bytes_read: usize,
    pub data_hex: String,
    pub data_utf8: Option<String>,
}

/// A request to write a payload to a device.
#[derive(Debug, Clone)]
pub struct WriteRequest {
    pub port: String,
    pub baud_rate: u32,
    pub timeout_ms: u64,
    pub data: Vec<u8>,
}

/// What one write did.
#[derive(Debug, Clone)]
pub struct WriteResponse {
    pub bytes_written: usize,
}

/// A request to stream from a device until stopped.
#[derive(Debug, Clone)]
pub struct MonitorRequest {
    pub port: String,
    pub baud_rate: u32,
    pub timeout_ms: u64,
    pub chunk_size: usize,
    pub duration_seconds: Option<u64>,
}

/// `r` reports `bytes_read` and renders `data` as hexadecimal and, when
/// `data` is well-formed UTF-8, as text.
pub open spec fn describes(r: ReadResponse, bytes_read: usize, data: Seq<u8>) -> bool {
    &&& r.bytes_read == bytes_read
    &&& r.data_hex@ == hex_text(data)
    &&& (r.data_utf8 is Some <==> valid_utf8(data))
    &&& (r.data_utf8 matches Some(s) ==> s@ == decode_utf8(data))
}

/// The first `count` bytes of `buffer`, or all of it when it is shorter.
pub open spec fn truncated(buffer: Seq<u8>, count: int) -> Seq<u8> {
    if count < buffer.len() {
        buffer.take(count)
    } else {
        buffer
    }
}

/// The response for `bytes_read` reported bytes whose data is `data`.
pub fn response_for(data: Vec<u8>, bytes_read: usize) -> (r: ReadResponse)
    ensures
        describes(r, bytes_read, data@),
{
    let data_hex = hex_encode(data.as_slice());
    let data_utf8 = utf8_string(data);
    ReadResponse { bytes_read, data_hex, data_utf8 }
}

/// The response after a read into `buffer` reported `bytes_read` bytes:
/// the buffer is cut to that length (when it is longer) and rendered.
pub fn read_response(buffer: Vec<u8>, bytes_read: usize) -> (r: ReadResponse)
    ensures
        describes(r, bytes_read, truncated(buffer@, bytes_read as int)),
{
    let ghost before = buffer@;
    let mut buffer = buffer;
    buffer.truncate(bytes_read);
    assert(buffer@ =~= truncated(before, bytes_read as int));
    response_for(buffer, bytes_read)
}

/// What a monitoring session does next.
#[derive(Debug, Clone, Copy, PartialEq, Eq, Structural)]
pub enum MonitorStep {
    /// End the session.
    Stop,
    /// Read the next chunk.
    Read,
}

/// A monitoring session ends once a stop is requested or, when the
/// request limits its duration, once that many whole seconds have passed.
pub open spec fn monitor_should_stop(request: MonitorRequest, stop_requested: bool, elapsed_secs: u64) -> bool {
    stop_requested || (request.duration_seconds matches Some(limit) && elapsed_secs >= limit)
}

/// Decides, before each read, whether a monitoring session goes on.
/// `elapsed_secs` is the whole number of seconds since the session began.
pub fn monitor_poll(request: &MonitorRequest, stop_requested: bool, elapsed_secs: u64) -> (r: MonitorStep)
    ensures
        (r == MonitorStep::Stop) == monitor_should_stop(*request, stop_requested, elapsed_secs),
{
    if stop_requested {
        return MonitorStep::Stop;
    }
    match request.duration_seconds {
        Some(limit) => if elapsed_secs >= limit {
            MonitorStep::Stop
        } else {
            MonitorStep::Read
        },
        None => MonitorStep::Read,
    }
}

/// How many bytes a monitoring read asks for: the chunk size, but at
/// least one.
pub fn monitor_buffer_len(request: &MonitorRequest) -> (n: usize)
    ensures
        n == if request.chunk_size > 0 {
            request.chunk_size
        } else {
            1
        },
{
    if request.chunk_size > 0 {
        request.chunk_size
    } else {
        1
    }
}

/// The first `count` bytes of `buffer`, rendered as a chunk.
pub fn chunk_response(buffer: Vec<u8>, count: usize) -> (r: ReadResponse)
    requires
        count <= buffer@.len(),
    ensures
        describes(r, count, buffer@.take(count as int)),
{
    let ghost before = buffer@;
    let mut buffer = buffer;
    buffer.truncate(count);
    assert(buffer@ =~= before.take(count as int));
    response_for(buffer, count)
}

/// A stop request always ends a monitoring session, with or without a
/// duration limit; reaching the limit ends it too; otherwise it goes on.
pub proof fn lemma_monitor_stop_rules(request: MonitorRequest, stop_requested: bool, elapsed_secs: u64)
    ensures
        stop_requested ==> monitor_should_stop(request, stop_requested, elapsed_secs),
        match request.duration_seconds {
            Some(limit) => elapsed_secs >= limit ==> monitor_should_stop(
                request,
                stop_requested,
                elapsed_secs,
            ),
            None => true,
        },
        !stop_requested && match request.duration_seconds {
            Some(limit) => elapsed_secs < limit,
            None => true,
        } ==> !monitor_should_stop(request, stop_requested, elapsed_secs),
{
}

/// The data of a read is what the buffer held up to the reported count:
/// never more than was read nor more than the buffer holds, and a prefix
/// of the buffer.
pub proof fn lemma_truncated_is_prefix(buffer: Seq<u8>, count: int)
    requires
        count >= 0,
    ensures
        truncated(buffer, count).len() == if count < buffer.len() {
            count
        } else {
            buffer.len() as int
        },
        forall|i: int| 0 <= i < truncated(buffer, count).len() ==> #[trigger] truncated(buffer, count)[i]
            == buffer[i],
{
}

/// Different kinds have different names, each in lower case.
pub proof fn lemma_kind_names_distinct(a: PeripheralKind, b: PeripheralKind)
    ensures
        a != b ==> kind_name(a) != kind_name(b),
        kind_name(a).len() > 0,
        lower_text(kind_name(a)) == kind_name(a),
{
    reveal_strlit("serial");
    reveal_strlit("usb");
    reveal_strlit("hid");
    reveal_strlit("ble");
    reveal_strlit("gpio");
    reveal_strlit("camera");
    reveal_strlit("audio");
    assert(lower_text(kind_name(a)) =~= kind_name(a));
    if a != b && kind_name(a) == kind_name(b) {
        assert(kind_name(a)[0] == kind_name(b)[0]);
        assert(kind_name(a).len() == kind_name(b).len());
    }
}

} // verus!
