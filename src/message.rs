//! The messages sent to clients over the data channel, and the per-client
//! scaling of cursor geometry.
//!
//! Device pixel ratios and scales are carried in thousandths: `1500` is a
//! ratio of 1.5.

use crate::cache::{CachedCursor, CursorView};
use vstd::prelude::*;

verus! {

/// A ratio of one, in thousandths.
pub const UNIT_SCALE: u32 = 1000;

/// Kind of a message.
#[derive(Debug, Clone, Copy, PartialEq, Eq, Structural)]
pub enum MessageType {
    CursorData,
    CursorSignal,
    CursorHide,
    Clipboard,
    Settings,
    Heartbeat,
    CursorNative,
}

/// A full cursor, with its image and the size the client draws it at.
pub struct CursorData {
    pub cursor_id: String,
    pub image_data: Vec<u8>,
    pub width: i32,
    pub height: i32,
    pub hotspot_x: i32,
    pub hotspot_y: i32,
    /// The client's device pixel ratio the geometry was scaled for, in
    /// thousandths.
    pub dpi_scale: u32,
    pub is_animated: bool,
    pub frame_delay_ms: u32,
}

/// Tells a client to draw a cursor it already holds.
pub struct CursorSignal {
    pub cursor_id: String,
}

/// Kind of clipboard content; `Other` keeps a value this side does not know.
#[derive(Debug, Clone, Copy, PartialEq, Eq, Structural)]
pub enum ClipboardContentType {
    Text,
    Image,
    Files,
    Other(i32),
}

/// Clipboard content on the wire.
pub struct ClipboardData {
    pub content_type: ClipboardContentType,
    /// UTF-8 text, PNG bytes, or empty for a file list.
    pub payload: Vec<u8>,
    /// Hex BLAKE3 digest of the payload.
    pub content_hash: String,
    pub filenames: Vec<String>,
    /// Reserved; always empty.
    pub file_sizes: Vec<u64>,
}

/// Host settings relayed to clients.
pub struct SettingsData {
    pub draw_cursor: bool,
}

/// A CSS cursor name.
pub struct NativeCursor {
    pub cursor_name: String,
}

/// Body of a message.
pub enum Payload {
    CursorData(CursorData),
    CursorSignal(CursorSignal),
    ClipboardData(ClipboardData),
    SettingsData(SettingsData),
    NativeCursor(NativeCursor),
}

/// The envelope of every message: its kind, its body if any, and the Unix
/// time in milliseconds when it was made.
pub struct CursorMessage {
    pub message_type: MessageType,
    pub payload: Option<Payload>,
    pub timestamp: u64,
}

/// `n / d` rounded to the nearest integer, halves away from zero.
pub open spec fn round_div(n: int, d: int) -> int {
    if n >= 0 {
        (2 * n + d) / (2 * d)
    } else {
        -((-2 * n + d) / (2 * d))
    }
}

/// Whether scaling by `client / server` is close enough to one (within one
/// hundredth) to be skipped.
pub open spec fn is_unit_scale(client: int, server: int) -> bool {
    100 * (client - server) < server && 100 * (server - client) < server
}

/// `v` clamped into the range of `i32`.
pub open spec fn clamp_i32(v: int) -> int {
    if v > i32::MAX {
        i32::MAX as int
    } else if v < i32::MIN {
        i32::MIN as int
    } else {
        v
    }
}

/// A length scaled by `client / server`, rounded, at least one.
pub open spec fn scaled_length(v: int, client: int, server: int) -> int {
    if is_unit_scale(client, server) {
        clamp_i32(v)
    } else {
        let s = round_div(v * client, server);
        clamp_i32(if s < 1 { 1 } else { s })
    }
}

/// A hotspot coordinate scaled by `client / server`, rounded.
pub open spec fn scaled_offset(v: int, client: int, server: int) -> int {
    if is_unit_scale(client, server) {
        v
    } else {
        clamp_i32(round_div(v * client, server))
    }
}

/// Whether `d` is cursor `c` scaled for a client of ratio `client` on a
/// host of scale `server`.
pub open spec fn is_scaled_cursor(d: CursorData, c: CursorView, client: u32, server: u32) -> bool {
    &&& d.cursor_id@ == c.id
    &&& d.image_data@ == c.webp_data
    &&& d.width == scaled_length(c.width as int, client as int, server as int)
    &&& d.height == scaled_length(c.height as int, client as int, server as int)
    &&& d.hotspot_x == scaled_offset(c.hotspot_x as int, client as int, server as int)
    &&& d.hotspot_y == scaled_offset(c.hotspot_y as int, client as int, server as int)
    &&& d.dpi_scale == client
    &&& d.is_animated == c.is_animated
    &&& d.frame_delay_ms == c.frame_delay_ms
}

/// Whether `m` is the `CursorData` message for cursor `c` at the given
/// ratios.
pub open spec fn is_cursor_data_message(m: CursorMessage, c: CursorView, client: u32, server: u32) -> bool {
    &&& m.message_type == MessageType::CursorData
    &&& m.payload matches Some(Payload::CursorData(d))
    &&& is_scaled_cursor(d, c, client, server)
}

/// Whether `m` is the signal message for cursor `id`.
pub open spec fn is_signal_message(m: CursorMessage, id: Seq<char>) -> bool {
    &&& m.message_type == MessageType::CursorSignal
    &&& m.payload matches Some(Payload::CursorSignal(s))
    &&& s.cursor_id@ == id
}

/// Whether `m` is a message of kind `t` without a body.
pub open spec fn is_bare_message(m: CursorMessage, t: MessageType) -> bool {
    m.message_type == t && m.payload is None
}

fn round_div_exec(n: i64, d: i64) -> (r: i64)
    requires
        d > 0,
        -0x4000_0000_0000 <= n <= 0x4000_0000_0000,
        d <= 0x1000_0000,
    ensures
        r == round_div(n as int, d as int),
{
    if n >= 0 {
        (2 * n + d) / (2 * d)
    } else {
        let m: i64 = 0 - n;
        let q: i64 = (2 * m + d) / (2 * d);
        assert(0 <= q <= 2 * m + d) by (nonlinear_arith)
            requires
                q == (2 * m + d) / (2 * d),
                m >= 0,
                d > 0,
        ;
        0 - q
    }
}

fn clamp_to_i32(v: i64) -> (r: i32)
    ensures
        r == clamp_i32(v as int),
{
    if v > i32::MAX as i64 {
        i32::MAX
    } else if v < i32::MIN as i64 {
        i32::MIN
    } else {
        v as i32
    }
}

/// Whether the scale `client / server` is within one hundredth of one.
pub fn unit_scale(client: u32, server: u32) -> (r: bool)
    ensures
        r == is_unit_scale(client as int, server as int),
{
    let c = client as i64;
    let s = server as i64;
    100 * (c - s) < s && 100 * (s - c) < s
}

/// Scales a width or height for a client.
pub fn scale_length(v: u32, client: u32, server: u32) -> (r: i32)
    requires
        1 <= server <= 0x1000_0000,
        client <= 10 * UNIT_SCALE,
    ensures
        r == scaled_length(v as int, client as int, server as int),
{
    if unit_scale(client, server) {
        return clamp_to_i32(v as i64);
    }
    assert((v as int) * (client as int) <= 0xffff_ffff * 10000) by (nonlinear_arith)
        requires
            v <= 0xffff_ffff,
            client <= 10000,
    ;
    let s = round_div_exec((v as i64) * (client as i64), server as i64);
    clamp_to_i32(if s < 1 { 1 } else { s })
}

/// Scales a hotspot coordinate for a client.
pub fn scale_offset(v: i32, client: u32, server: u32) -> (r: i32)
    requires
        1 <= server <= 0x1000_0000,
        client <= 10 * UNIT_SCALE,
    ensures
        r == scaled_offset(v as int, client as int, server as int),
{
    if unit_scale(client, server) {
        return v;
    }
    assert(-0x8000_0000 * 10000 <= (v as int) * (client as int) <= 0x7fff_ffff * 10000) by (nonlinear_arith)
        requires
            i32::MIN <= v <= i32::MAX,
            0 <= client <= 10000,
    ;
    clamp_to_i32(round_div_exec((v as i64) * (client as i64), server as i64))
}

/// The `CursorData` message for a cursor, its geometry scaled by
/// `client_dpr / server_scale`; the encoded image is sent as it is and the
/// client scales it to the advertised size.
pub fn cursor_data_message(
    cached: &CachedCursor,
    client_dpr: u32,
    server_scale: u32,
    timestamp: u64,
) -> (r: CursorMessage)
    requires
        1 <= server_scale <= 0x1000_0000,
        client_dpr <= 10 * UNIT_SCALE,
    ensures
        is_cursor_data_message(r, cached@, client_dpr, server_scale),
        r.timestamp == timestamp,
{
    let data = cached.webp_data.clone();
    assert(data@ =~= cached.webp_data@);
    CursorMessage {
        message_type: MessageType::CursorData,
        payload: Some(
            Payload::CursorData(
                CursorData {
                    cursor_id: cached.id.clone(),
                    image_data: data,
                    width: scale_length(cached.width, client_dpr, server_scale),
                    height: scale_length(cached.height, client_dpr, server_scale),
                    hotspot_x: scale_offset(cached.hotspot_x, client_dpr, server_scale),
                    hotspot_y: scale_offset(cached.hotspot_y, client_dpr, server_scale),
                    dpi_scale: client_dpr,
                    is_animated: cached.is_animated,
                    frame_delay_ms: cached.frame_delay_ms,
                },
            ),
        ),
        timestamp,
    }
}

/// The message that hides the cursor.
pub fn create_hide_message(timestamp: u64) -> (r: CursorMessage)
    ensures
        is_bare_message(r, MessageType::CursorHide),
        r.timestamp == timestamp,
{
    CursorMessage { message_type: MessageType::CursorHide, payload: None, timestamp }
}

/// The periodic keep-alive message.
pub fn create_heartbeat_message(timestamp: u64) -> (r: CursorMessage)
    ensures
        is_bare_message(r, MessageType::Heartbeat),
        r.timestamp == timestamp,
{
    CursorMessage { message_type: MessageType::Heartbeat, payload: None, timestamp }
}

/// The message telling a client to draw cursor `cursor_id`, which it holds.
pub fn create_signal_message(cursor_id: &str, timestamp: u64) -> (r: CursorMessage)
    ensures
        is_signal_message(r, cursor_id@),
        r.timestamp == timestamp,
{
    CursorMessage {
        message_type: MessageType::CursorSignal,
        payload: Some(Payload::CursorSignal(CursorSignal { cursor_id: cursor_id.to_owned() })),
        timestamp,
    }
}

} // verus!
