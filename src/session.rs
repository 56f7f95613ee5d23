//! One client's session: what the client already holds, which message each
//! event turns into, and what inbound configuration and clipboard pushes do.

use crate::cache::CursorView;
use crate::capture::{create_scaled_cursor_message, get_cached_cursor, get_last_cursor_id, CaptureState, CursorEvent};
use crate::clipboard::{opt_view, ClipboardContent, ClipboardEvent};
use crate::dpr::{dpr_of_text, parse_dpr_from_json};
use crate::message::{
    create_hide_message, create_signal_message, is_bare_message, is_cursor_data_message, is_signal_message,
    scaled_length, ClipboardContentType, ClipboardData, CursorMessage, MessageType, Payload, SettingsData,
    UNIT_SCALE,
};
use vstd::prelude::*;

verus! {

/// Largest device pixel ratio a client may set, in thousandths.
pub const MAX_DPR: u32 = 10 * UNIT_SCALE;

/// Smallest change of ratio, in thousandths, that a client's update must
/// make to take effect.
pub const DPR_EPSILON: u32 = 10;

/// Host settings as the optional settings source reports them.
#[derive(Clone, Debug)]
pub struct SunshineSettingsEvent {
    /// Whether the host's stream already draws the cursor.
    pub draw_cursor: bool,
}

/// Everything that is broadcast to the sessions.
#[derive(Clone, Debug)]
pub enum AgentEvent {
    Cursor(CursorEvent),
    Clipboard(ClipboardEvent),
    Settings(SunshineSettingsEvent),
}

/// What one session knows of its client: its device pixel ratio (in
/// thousandths), the cursors it holds in full, and the clipboard digest it
/// was last sent.
pub struct ClientState {
    dpr: u32,
    sent_cursor_ids: Vec<String>,
    last_clipboard_hash: Option<String>,
}

/// What a cursor event makes a session send.
pub enum Outgoing {
    Nothing,
    Data(Seq<char>),
    Signal(Seq<char>),
    Hide,
}

/// A cursor event as plain values: the new cursor's identifier, or `None`
/// for a hide.
pub open spec fn event_view(e: CursorEvent) -> Option<Seq<char>> {
    match e {
        CursorEvent::CursorChanged(id) => Some(id@),
        CursorEvent::CursorHidden => None,
    }
}

/// The send policy. A cursor not in the cache is skipped; a cursor the
/// client holds is signalled; any other cursor is sent in full and is held
/// from then on. A hide is passed on.
pub open spec fn cursor_event_step(
    sent: Set<Seq<char>>,
    cache: Map<Seq<char>, CursorView>,
    e: Option<Seq<char>>,
) -> (Set<Seq<char>>, Outgoing) {
    match e {
        Some(id) => if !cache.contains_key(id) {
            (sent, Outgoing::Nothing)
        } else if sent.contains(id) {
            (sent, Outgoing::Signal(id))
        } else {
            (sent.insert(id), Outgoing::Data(id))
        },
        None => (sent, Outgoing::Hide),
    }
}

/// Whether message `m` (or its absence) is what `out` asks for, a full
/// cursor being scaled for ratio `dpr` on a host of scale `server`.
pub open spec fn message_matches(
    m: Option<CursorMessage>,
    out: Outgoing,
    cache: Map<Seq<char>, CursorView>,
    dpr: u32,
    server: u32,
) -> bool {
    match out {
        Outgoing::Nothing => m is None,
        Outgoing::Data(id) => m matches Some(msg) && is_cursor_data_message(msg, cache[id], dpr, server),
        Outgoing::Signal(id) => m matches Some(msg) && is_signal_message(msg, id),
        Outgoing::Hide => m matches Some(msg) && is_bare_message(msg, MessageType::CursorHide),
    }
}

/// Whether a client's new ratio `v` replaces the current `cur`: it lies in
/// `(0, MAX_DPR]` and differs by more than `DPR_EPSILON`.
pub open spec fn dpr_accepted(cur: int, v: int) -> bool {
    0 < v <= MAX_DPR && (v - cur > DPR_EPSILON || cur - v > DPR_EPSILON)
}

impl ClientState {
    pub closed spec fn dpr(&self) -> u32 {
        self.dpr
    }

    pub closed spec fn sent(&self) -> Set<Seq<char>> {
        self.sent_cursor_ids@.map_values(|s: String| s@).to_set()
    }

    pub closed spec fn last_clipboard(&self) -> Option<Seq<char>> {
        opt_view(self.last_clipboard_hash)
    }

    pub closed spec fn wf(&self) -> bool {
        0 < self.dpr <= MAX_DPR
    }

    /// A client that just connected: ratio 1, holding nothing.
    pub fn new() -> (r: Self)
        ensures
            r.wf(),
            r.dpr() == UNIT_SCALE,
            r.sent() == Set::<Seq<char>>::empty(),
            r.last_clipboard() is None,
    {
        let r = ClientState { dpr: UNIT_SCALE, sent_cursor_ids: Vec::new(), last_clipboard_hash: None };
        assert(r.sent() =~= Set::<Seq<char>>::empty());
        r
    }

    /// The client's device pixel ratio, in thousandths.
    pub fn device_pixel_ratio(&self) -> (r: u32)
        ensures
            r == self.dpr(),
    {
        self.dpr
    }

    /// Whether the client holds cursor `id` in full.
    pub fn holds(&self, id: &String) -> (r: bool)
        ensures
            r == self.sent().contains(id@),
    {
        let ghost v = self.sent_cursor_ids@.map_values(|s: String| s@);
        let mut i: usize = 0;
        while i < self.sent_cursor_ids.len()
            invariant
                i <= self.sent_cursor_ids@.len(),
                v == self.sent_cursor_ids@.map_values(|s: String| s@),
                forall|j: int| 0 <= j < i ==> self.sent_cursor_ids@[j]@ != id@,
            decreases self.sent_cursor_ids@.len() - i,
        {
            if self.sent_cursor_ids[i] == *id {
                assert(v[i as int] == id@);
                assert(v.contains(id@));
                return true;
            }
            i = i + 1;
        }
        assert(!v.contains(id@)) by {
            if v.contains(id@) {
                let j = choose|j: int| 0 <= j < v.len() && v[j] == id@;
                assert(self.sent_cursor_ids@[j]@ == v[j]);
            }
        }
        false
    }

    fn mark_sent(&mut self, id: String)
        ensures
            final(self).sent() == old(self).sent().insert(id@),
            final(self).dpr() == old(self).dpr(),
            final(self).last_clipboard() == old(self).last_clipboard(),
    {
        if !self.holds(&id) {
            let ghost v0 = self.sent_cursor_ids@.map_values(|s: String| s@);
            self.sent_cursor_ids.push(id);
            proof {
                let v1 = self.sent_cursor_ids@.map_values(|s: String| s@);
                assert(v1 =~= v0.push(id@));
                assert(v1.to_set() =~= v0.to_set().insert(id@)) by {
                    assert forall|x: Seq<char>| v1.to_set().contains(x) == v0.to_set().insert(id@).contains(x) by {
                        if v1.contains(x) && x != id@ {
                            let j = choose|j: int| 0 <= j < v1.len() && v1[j] == x;
                            assert(v0[j] == x);
                        }
                        if v0.contains(x) {
                            let j = choose|j: int| 0 <= j < v0.len() && v0[j] == x;
                            assert(v1[j] == x);
                        }
                        if x == id@ {
                            assert(v1[v0.len() as int] == x);
                        }
                    }
                }
            }
        } else {
            assert(self.sent().insert(id@) =~= self.sent());
        }
    }

    fn forget_sent(&mut self)
        ensures
            final(self).sent() == Set::<Seq<char>>::empty(),
            final(self).dpr() == old(self).dpr(),
            final(self).last_clipboard() == old(self).last_clipboard(),
    {
        self.sent_cursor_ids = Vec::new();
        assert(self.sent() =~= Set::<Seq<char>>::empty());
    }
}

/// The message a cursor event becomes for this client, by the send
/// policy. A full cursor is scaled for the client's ratio on a host of
/// scale `server_scale` (thousandths).
pub fn send_cursor_event(
    client: &mut ClientState,
    capture: &CaptureState,
    event: &CursorEvent,
    server_scale: u32,
    timestamp: u64,
) -> (r: Option<CursorMessage>)
    requires
        old(client).wf(),
        capture.wf(),
        1 <= server_scale <= 0x1000_0000,
    ensures
        final(client).wf(),
        final(client).dpr() == old(client).dpr(),
        final(client).last_clipboard() == old(client).last_clipboard(),
        final(client).sent() == cursor_event_step(old(client).sent(), capture.cache_view(), event_view(*event)).0,
        message_matches(
            r,
            cursor_event_step(old(client).sent(), capture.cache_view(), event_view(*event)).1,
            capture.cache_view(),
            old(client).dpr(),
            server_scale,
        ),
        r matches Some(m) ==> m.timestamp == timestamp,
{
    match event {
        CursorEvent::CursorChanged(id) => {
            let cached = get_cached_cursor(capture, id.as_str());
            if cached.is_none() {
                return None;
            }
            if client.holds(id) {
                Some(create_signal_message(id.as_str(), timestamp))
            } else {
                let m = create_scaled_cursor_message(capture, id.as_str(), client.dpr, server_scale, timestamp);
                client.mark_sent(id.clone());
                m
            }
        },
        CursorEvent::CursorHidden => Some(create_hide_message(timestamp)),
    }
}

/// The full current cursor for a client whose data channel just opened, if
/// a cursor has been announced and is cached; the client then holds it.
pub fn bootstrap_message(
    client: &mut ClientState,
    capture: &CaptureState,
    server_scale: u32,
    timestamp: u64,
) -> (r: Option<CursorMessage>)
    requires
        old(client).wf(),
        capture.wf(),
        1 <= server_scale <= 0x1000_0000,
    ensures
        final(client).wf(),
        final(client).dpr() == old(client).dpr(),
        final(client).last_clipboard() == old(client).last_clipboard(),
        match capture.last_id() {
            Some(id) => if capture.cache_view().contains_key(id) {
                final(client).sent() == old(client).sent().insert(id) && (r matches Some(m)
                    && is_cursor_data_message(m, capture.cache_view()[id], old(client).dpr(), server_scale))
            } else {
                final(client).sent() == old(client).sent() && r is None
            },
            None => final(client).sent() == old(client).sent() && r is None,
        },
{
    match get_last_cursor_id(capture) {
        Some(id) => {
            let m = create_scaled_cursor_message(capture, id.as_str(), client.dpr, server_scale, timestamp);
            if m.is_some() {
                client.mark_sent(id);
            }
            m
        },
        None => None,
    }
}

/// A text message from the client. Where it sets a new ratio (see
/// `dpr_accepted`), the ratio is taken, the client is taken to hold
/// nothing, and the current cursor, if announced and cached, is returned in
/// full at the new ratio and is held from then on.
pub fn handle_text_message(
    client: &mut ClientState,
    capture: &CaptureState,
    text: &str,
    server_scale: u32,
    timestamp: u64,
) -> (r: Option<CursorMessage>)
    requires
        old(client).wf(),
        capture.wf(),
        1 <= server_scale <= 0x1000_0000,
    ensures
        final(client).wf(),
        final(client).last_clipboard() == old(client).last_clipboard(),
        match dpr_of_text(text@) {
            Some(v) if dpr_accepted(old(client).dpr() as int, v) => {
                &&& final(client).dpr() == v
                &&& match capture.last_id() {
                    Some(id) if capture.cache_view().contains_key(id) => {
                        final(client).sent() == Set::<Seq<char>>::empty().insert(id) && (r matches Some(m)
                            && is_cursor_data_message(m, capture.cache_view()[id], v as u32, server_scale))
                    },
                    _ => final(client).sent() == Set::<Seq<char>>::empty() && r is None,
                }
            },
            _ => final(client).dpr() == old(client).dpr() && final(client).sent() == old(client).sent()
                && r is None,
        },
{
    let v = match parse_dpr_from_json(text) {
        Some(v) => v,
        None => return None,
    };
    let cur = client.dpr;
    let accepted = v > 0 && v <= MAX_DPR && ((v > cur && v - cur > DPR_EPSILON) || (cur > v && cur - v > DPR_EPSILON));
    if !accepted {
        return None;
    }
    client.dpr = v;
    client.forget_sent();
    bootstrap_message(client, capture, server_scale, timestamp)
}

/// Whether `d` is the wire form of clipboard event `e`: text as its UTF-8
/// bytes, an image as its PNG bytes, a file list as its names with an empty
/// payload; the digest is carried over and no file sizes are sent.
pub open spec fn is_clipboard_proto(d: ClipboardData, e: ClipboardEvent) -> bool {
    &&& d.content_hash@ == e.content_hash@
    &&& d.file_sizes@.len() == 0
    &&& match e.content {
        ClipboardContent::Text(t) => d.content_type == ClipboardContentType::Text && d.payload@
            == vstd::utf8::encode_utf8(t@) && d.filenames@.len() == 0,
        ClipboardContent::Image { png_data, .. } => d.content_type == ClipboardContentType::Image
            && d.payload@ == png_data@ && d.filenames@.len() == 0,
        ClipboardContent::Files(names) => d.content_type == ClipboardContentType::Files
            && d.payload@.len() == 0 && d.filenames@.map_values(|s: String| s@) == names@.map_values(
            |s: String| s@,
        ),
    }
}

/// The wire form of a clipboard event.
pub fn build_clipboard_proto(event: &ClipboardEvent) -> (r: ClipboardData)
    ensures
        is_clipboard_proto(r, *event),
{
    match &event.content {
        ClipboardContent::Text(text) => {
            let bytes = text.as_str().as_bytes();
            let mut payload: Vec<u8> = Vec::new();
            let mut i: usize = 0;
            while i < bytes.len()
                invariant
                    i <= bytes@.len(),
                    payload@ == bytes@.subrange(0, i as int),
                decreases bytes@.len() - i,
            {
                payload.push(bytes[i]);
                assert(payload@ =~= bytes@.subrange(0, i as int + 1));
                i = i + 1;
            }
            assert(payload@ =~= bytes@);
            ClipboardData {
                content_type: ClipboardContentType::Text,
                payload,
                content_hash: event.content_hash.clone(),
                filenames: Vec::new(),
                file_sizes: Vec::new(),
            }
        },
        ClipboardContent::Image { png_data, .. } => {
            let payload = png_data.clone();
            assert(payload@ =~= png_data@);
            ClipboardData {
                content_type: ClipboardContentType::Image,
                payload,
                content_hash: event.content_hash.clone(),
                filenames: Vec::new(),
                file_sizes: Vec::new(),
            }
        },
        ClipboardContent::Files(names) => {
            let mut filenames: Vec<String> = Vec::new();
            let mut i: usize = 0;
            while i < names.len()
                invariant
                    i <= names@.len(),
                    filenames@.len() == i,
                    forall|k: int| 0 <= k < i ==> #[trigger] filenames@[k]@ == names@[k]@,
                decreases names@.len() - i,
            {
                let name = names[i].clone();
                filenames.push(name);
                i = i + 1;
            }
            assert(filenames@.map_values(|s: String| s@) =~= names@.map_values(|s: String| s@));
            ClipboardData {
                content_type: ClipboardContentType::Files,
                payload: Vec::new(),
                content_hash: event.content_hash.clone(),
                filenames,
                file_sizes: Vec::new(),
            }
        },
    }
}

/// The clipboard message for this client, unless it was already sent this
/// content; the client then counts as having it.
pub fn send_clipboard_event(client: &mut ClientState, event: &ClipboardEvent, timestamp: u64) -> (r: Option<
    CursorMessage,
>)
    ensures
        final(client).dpr() == old(client).dpr(),
        final(client).sent() == old(client).sent(),
        old(client).last_clipboard() == Some(event.content_hash@) ==> r is None && final(client).last_clipboard()
            == old(client).last_clipboard(),
        old(client).last_clipboard() != Some(event.content_hash@) ==> final(client).last_clipboard() == Some(
            event.content_hash@,
        ) && (r matches Some(m) && m.message_type == MessageType::Clipboard && m.timestamp == timestamp
            && (m.payload matches Some(Payload::ClipboardData(d)) && is_clipboard_proto(d, *event))),
{
    let same = match &client.last_clipboard_hash {
        Some(h) => *h == event.content_hash,
        None => false,
    };
    if same {
        return None;
    }
    let data = build_clipboard_proto(event);
    client.last_clipboard_hash = Some(event.content_hash.clone());
    Some(
        CursorMessage {
            message_type: MessageType::Clipboard,
            payload: Some(Payload::ClipboardData(data)),
            timestamp,
        },
    )
}

/// The settings message for a settings event.
pub fn send_settings_event(event: &SunshineSettingsEvent, timestamp: u64) -> (r: CursorMessage)
    ensures
        r.message_type == MessageType::Settings,
        r.payload matches Some(Payload::SettingsData(d)) && d.draw_cursor == event.draw_cursor,
        r.timestamp == timestamp,
{
    CursorMessage {
        message_type: MessageType::Settings,
        payload: Some(Payload::SettingsData(SettingsData { draw_cursor: event.draw_cursor })),
        timestamp,
    }
}


/// Relies on `String::from_utf8`, which accepts exactly the valid UTF-8
/// byte strings and decodes them.
#[verifier::external_body]
fn utf8_string(bytes: Vec<u8>) -> (r: Option<String>)
    ensures
        r is Some <==> vstd::utf8::valid_utf8(bytes@),
        r matches Some(s) ==> s@ == vstd::utf8::decode_utf8(bytes@),
{
    String::from_utf8(bytes).ok()
}

/// The clipboard content a client pushed, with its digest, ready to be
/// written to the host clipboard. Text must be valid UTF-8; an image's size
/// is read later from its PNG header; an unknown kind is dropped.
pub fn handle_client_clipboard(clip_data: ClipboardData) -> (r: Option<(ClipboardContent, String)>)
    ensures
        r is Some <==> match clip_data.content_type {
            ClipboardContentType::Text => vstd::utf8::valid_utf8(clip_data.payload@),
            ClipboardContentType::Image => true,
            ClipboardContentType::Files => true,
            ClipboardContentType::Other(_) => false,
        },
        r matches Some((content, hash)) ==> hash@ == clip_data.content_hash@ && match content {
            ClipboardContent::Text(t) => t@ == vstd::utf8::decode_utf8(clip_data.payload@),
            ClipboardContent::Image { png_data, width, height } => png_data@ == clip_data.payload@
                && width == 0 && height == 0,
            ClipboardContent::Files(names) => names@.map_values(|s: String| s@)
                == clip_data.filenames@.map_values(|s: String| s@),
        },
{
    let hash = clip_data.content_hash;
    match clip_data.content_type {
        ClipboardContentType::Text => match utf8_string(clip_data.payload) {
            Some(text) => Some((ClipboardContent::Text(text), hash)),
            None => None,
        },
        ClipboardContentType::Image => Some(
            (ClipboardContent::Image { png_data: clip_data.payload, width: 0, height: 0 }, hash),
        ),
        ClipboardContentType::Files => Some((ClipboardContent::Files(clip_data.filenames), hash)),
        ClipboardContentType::Other(_) => None,
    }
}

/// Each cursor is sent in full once per client: a cached cursor the client
/// does not hold is sent as `CursorData` and is held from then on, and
/// every later change to a cursor the client holds is only signalled,
/// leaving the client's state as it is.
pub proof fn cursor_sent_in_full_once(sent: Set<Seq<char>>, cache: Map<Seq<char>, CursorView>, id: Seq<char>)
    requires
        cache.contains_key(id),
    ensures
        !sent.contains(id) ==> cursor_event_step(sent, cache, Some(id)).1 == Outgoing::Data(id),
        cursor_event_step(sent, cache, Some(id)).0.contains(id),
        sent.contains(id) ==> cursor_event_step(sent, cache, Some(id)) == (sent, Outgoing::Signal(id)),
        cursor_event_step(cursor_event_step(sent, cache, Some(id)).0, cache, Some(id)) == (
            cursor_event_step(sent, cache, Some(id)).0,
            Outgoing::Signal(id),
        ),
{
    let s1 = cursor_event_step(sent, cache, Some(id)).0;
    if !sent.contains(id) {
        assert(s1 == sent.insert(id));
    }
}

/// After a client's ratio changes to an accepted `v`, the client holds
/// nothing, so the current cursor goes out in full, its width scaled by
/// `v / server` and at least one pixel.
pub proof fn dpr_change_resends_cursor(
    cache: Map<Seq<char>, CursorView>,
    id: Seq<char>,
    cur: int,
    v: int,
    server: int,
)
    requires
        cache.contains_key(id),
        dpr_accepted(cur, v),
        server >= 1,
        cache[id].width >= 1,
    ensures
        cursor_event_step(Set::<Seq<char>>::empty(), cache, Some(id)).1 == Outgoing::Data(id),
        scaled_length(cache[id].width as int, v, server) >= 1,
{
    let w = cache[id].width as int;
    assert(w * v >= 0) by (nonlinear_arith)
        requires
            w >= 1,
            v > 0,
    ;
}

} // verus!
