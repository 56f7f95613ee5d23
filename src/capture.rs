//! The capture side: what the agent remembers between ticks of the cursor
//! poll, the decisions taken on each tick, and the assembly of a captured
//! cursor into a cache entry.

use crate::cache::{cache_insert_post, keys_are_ids, CachedCursor, CursorCache, CursorView, DEFAULT_CACHE_CAPACITY};
use crate::digest::{animated_cursor_id, animated_id_of, frames_view, static_cursor_id, static_id_of};
use crate::encode::{
    animated_webp_of, encode_animated_webp, encode_static_webp, timed_frames, webp_dimensions_ok,
    webp_lossless_of, EncodeError, WEBP_MAX_DIMENSION,
};
use crate::message::{cursor_data_message, is_cursor_data_message, CursorMessage, Payload, UNIT_SCALE};
use crate::pixels::{add_white_outline, expand_canvas, expanded_image, outlined_image};
use vstd::prelude::*;

verus! {

/// Pixels added on every side of a cursor that has inversion pixels, room
/// for its outline.
pub const XOR_PAD: u32 = 4;

/// Frame delay of animated cursors, one Windows jiffy.
pub const ANIM_FRAME_DELAY_MS: u32 = 60;

/// Distance from the virtual screen's edge within which a hidden cursor is
/// taken to be passing between monitors.
pub const EDGE_MARGIN: i32 = 2;

/// What the capture loop reports.
#[derive(Clone, Debug)]
pub enum CursorEvent {
    /// The cursor changed; carries the new cursor's identifier.
    CursorChanged(String),
    /// The cursor was hidden.
    CursorHidden,
}

/// What the capture side remembers: the cache, the identifier last
/// announced (none while hidden), and the last OS cursor handle seen.
pub struct CaptureState {
    cache: CursorCache,
    last_cursor_id: Option<String>,
    last_handle: u64,
}

impl CaptureState {
    pub closed spec fn cache_view(&self) -> Map<Seq<char>, CursorView> {
        self.cache.contents()
    }

    pub closed spec fn last_id(&self) -> Option<Seq<char>> {
        match self.last_cursor_id {
            Some(s) => Some(s@),
            None => None,
        }
    }

    pub closed spec fn handle(&self) -> u64 {
        self.last_handle
    }

    pub closed spec fn capacity(&self) -> nat {
        self.cache.capacity()
    }

    pub closed spec fn cache_wf(&self) -> bool {
        self.cache.wf()
    }

    /// The cache is sound: each cursor is stored under its own identifier,
    /// and there are finitely many, within the capacity.
    pub open spec fn wf(&self) -> bool {
        &&& self.cache_wf()
        &&& keys_are_ids(self.cache_view())
        &&& self.cache_view().dom().finite()
        &&& self.cache_view().dom().len() <= self.capacity()
    }

    /// Fresh state whose cache holds at most `capacity` cursors.
    pub fn with_capacity(capacity: usize) -> (r: Self)
        requires
            capacity >= 2,
        ensures
            r.wf(),
            r.capacity() == capacity,
            r.cache_view() == Map::<Seq<char>, CursorView>::empty(),
            r.last_id() is None,
            r.handle() == 0,
    {
        let r = CaptureState { cache: CursorCache::new(capacity), last_cursor_id: None, last_handle: 0 };
        proof {
            r.cache.lemma_shape();
        }
        r
    }

    /// Fresh state with an empty cache of the default capacity, nothing
    /// announced and no handle seen.
    pub fn new() -> (r: Self)
        ensures
            r.wf(),
            r.capacity() == DEFAULT_CACHE_CAPACITY,
            r.cache_view() == Map::<Seq<char>, CursorView>::empty(),
            r.last_id() is None,
            r.handle() == 0,
    {
        Self::with_capacity(DEFAULT_CACHE_CAPACITY)
    }
}

/// The identifier last announced, so that a new client can be sent the
/// current cursor at once.
pub fn get_last_cursor_id(state: &CaptureState) -> (r: Option<String>)
    ensures
        match r {
            Some(s) => state.last_id() == Some(s@),
            None => state.last_id() is None,
        },
{
    match &state.last_cursor_id {
        Some(s) => Some(s.clone()),
        None => None,
    }
}

/// The cached cursor stored under `cursor_id`, if any.
pub fn get_cached_cursor(state: &CaptureState, cursor_id: &str) -> (r: Option<CachedCursor>)
    requires
        state.wf(),
    ensures
        r is Some <==> state.cache_view().contains_key(cursor_id@),
        r matches Some(c) ==> c@ == state.cache_view()[cursor_id@],
{
    state.cache.get(&cursor_id.to_owned())
}

/// Stores a captured cursor and records its identifier as the one last
/// announced. Returns the identifier and whether the cursor was new to the
/// cache.
pub fn cache_cursor(state: &mut CaptureState, cached: CachedCursor) -> (r: (String, bool))
    requires
        old(state).wf(),
    ensures
        final(state).wf(),
        r.0@ == cached@.id,
        final(state).last_id() == Some(cached@.id),
        final(state).handle() == old(state).handle(),
        final(state).capacity() == old(state).capacity(),
        cache_insert_post(old(state).cache_view(), cached@, final(state).cache_view(), r.1, old(state).capacity()),
{
    let id = cached.id.clone();
    state.last_cursor_id = Some(cached.id.clone());
    let is_new = state.cache.insert(cached);
    proof {
        state.cache.lemma_shape();
    }
    (id, is_new)
}

/// The `CursorData` message for cached cursor `cursor_id`, scaled for a
/// client of device pixel ratio `client_dpr` on a host of scale
/// `server_scale` (both in thousandths). `None` when the cursor is not
/// cached.
pub fn create_scaled_cursor_message(
    state: &CaptureState,
    cursor_id: &str,
    client_dpr: u32,
    server_scale: u32,
    timestamp: u64,
) -> (r: Option<CursorMessage>)
    requires
        state.wf(),
        1 <= server_scale <= 0x1000_0000,
        client_dpr <= 10 * UNIT_SCALE,
    ensures
        r is Some <==> state.cache_view().contains_key(cursor_id@),
        r matches Some(m) ==> is_cursor_data_message(m, state.cache_view()[cursor_id@], client_dpr, server_scale)
            && m.timestamp == timestamp,
        r matches Some(m) ==> (m.payload matches Some(Payload::CursorData(d)) && d.cursor_id@ == cursor_id@),
{
    match get_cached_cursor(state, cursor_id) {
        Some(c) => Some(cursor_data_message(&c, client_dpr, server_scale, timestamp)),
        None => None,
    }
}

/// Whether (x, y) lies within `EDGE_MARGIN` pixels of an edge of the
/// virtual screen, or beyond it.
pub open spec fn at_screen_edge(x: int, y: int, vx: int, vy: int, vw: int, vh: int) -> bool {
    x <= vx + EDGE_MARGIN || y <= vy + EDGE_MARGIN || x >= vx + vw - EDGE_MARGIN || y >= vy + vh
        - EDGE_MARGIN
}

/// Whether the pointer at (x, y) sits at the edge of the virtual screen
/// whose origin is (vx, vy) and size vw x vh. Windows reports the cursor as
/// hidden there while it crosses between monitors.
pub fn is_cursor_at_screen_edge(x: i32, y: i32, vx: i32, vy: i32, vw: i32, vh: i32) -> (r: bool)
    ensures
        r == at_screen_edge(x as int, y as int, vx as int, vy as int, vw as int, vh as int),
{
    let (x, y, vx, vy, vw, vh) = (x as i64, y as i64, vx as i64, vy as i64, vw as i64, vh as i64);
    let m = EDGE_MARGIN as i64;
    x <= vx + m || y <= vy + m || x >= vx + vw - m || y >= vy + vh - m
}

/// One hidden tick: from whether a cursor is still to be hidden and whether
/// the pointer sits at the screen's edge, whether one still is afterwards
/// and whether a hide is reported.
pub open spec fn hidden_tick(pending: bool, at_edge: bool) -> (bool, bool) {
    if at_edge {
        (pending, false)
    } else {
        (false, pending)
    }
}

/// A tick on which Windows reports the cursor not showing. At the screen's
/// edge, where Windows reports it so while the pointer crosses between
/// monitors, nothing changes. Otherwise the handle and the announced
/// identifier are forgotten, and a hide is reported when a cursor handle
/// was seen since the last hide.
pub fn observe_hidden(state: &mut CaptureState, at_edge: bool) -> (r: Option<CursorEvent>)
    requires
        old(state).wf(),
    ensures
        final(state).wf(),
        final(state).cache_view() == old(state).cache_view(),
        final(state).capacity() == old(state).capacity(),
        (final(state).handle() != 0, r is Some) == hidden_tick(old(state).handle() != 0, at_edge),
        r matches Some(e) ==> e is CursorHidden,
        at_edge ==> final(state).last_id() == old(state).last_id() && final(state).handle() == old(state).handle(),
        !at_edge ==> final(state).last_id() is None && final(state).handle() == 0,
{
    if at_edge {
        return None;
    }
    let seen = state.last_handle != 0;
    state.last_cursor_id = None;
    state.last_handle = 0;
    if seen {
        Some(CursorEvent::CursorHidden)
    } else {
        None
    }
}

/// A tick on which X11 or macOS shows no cursor (an image with no visible
/// pixel, or the cursor made invisible). The announced identifier is
/// forgotten, and a hide is reported when one was announced; the last
/// serial or seed is kept, so the same cursor is not read again.
pub fn observe_cursor_gone(state: &mut CaptureState) -> (r: Option<CursorEvent>)
    requires
        old(state).wf(),
    ensures
        final(state).wf(),
        final(state).cache_view() == old(state).cache_view(),
        final(state).capacity() == old(state).capacity(),
        final(state).handle() == old(state).handle(),
        (final(state).last_id() is Some, r is Some) == hidden_tick(old(state).last_id() is Some, false),
        r matches Some(e) ==> e is CursorHidden,
        final(state).last_id() is None,
{
    let shown = state.last_cursor_id.is_some();
    state.last_cursor_id = None;
    if shown {
        Some(CursorEvent::CursorHidden)
    } else {
        None
    }
}

/// A tick on which the OS shows a cursor with the given handle (or serial,
/// or seed). Returns whether it differs from the last one, so that the
/// cursor must be captured.
pub fn observe_shown(state: &mut CaptureState, handle: u64) -> (r: bool)
    requires
        old(state).wf(),
    ensures
        final(state).wf(),
        r == (handle != old(state).handle()),
        final(state).handle() == handle,
        final(state).cache_view() == old(state).cache_view(),
        final(state).capacity() == old(state).capacity(),
        final(state).last_id() == old(state).last_id(),
{
    if handle == state.last_handle {
        false
    } else {
        state.last_handle = handle;
        true
    }
}

/// Stores a freshly captured cursor and reports the change.
pub fn record_capture(state: &mut CaptureState, cached: CachedCursor) -> (r: CursorEvent)
    requires
        old(state).wf(),
    ensures
        final(state).wf(),
        final(state).last_id() == Some(cached@.id),
        final(state).handle() == old(state).handle(),
        final(state).capacity() == old(state).capacity(),
        exists|is_new: bool|
            cache_insert_post(old(state).cache_view(), cached@, final(state).cache_view(), is_new, old(state).capacity()),
        final(state).cache_view().contains_key(cached@.id),
        r matches CursorEvent::CursorChanged(id) && id@ == cached@.id,
{
    let (id, is_new) = cache_cursor(state, cached);
    CursorEvent::CursorChanged(id)
}

/// The single image a cursor is sent as: the frame itself, or, where it has
/// inversion pixels, the frame padded by `XOR_PAD` on each side and
/// outlined in white.
pub open spec fn static_image(rgba: Seq<u8>, width: u32, height: u32, has_inversion: bool) -> Seq<u8> {
    if has_inversion {
        outlined_image(
            expanded_image(rgba, width as int, height as int, XOR_PAD as int),
            width + 2 * XOR_PAD,
            height + 2 * XOR_PAD,
            XOR_PAD as int,
        )
    } else {
        rgba
    }
}

/// The cache entry of a single-frame cursor.
pub open spec fn static_cursor_view(
    rgba: Seq<u8>,
    width: u32,
    height: u32,
    hotspot_x: i32,
    hotspot_y: i32,
    has_inversion: bool,
) -> CursorView {
    let pad: int = if has_inversion { XOR_PAD as int } else { 0 };
    let img = static_image(rgba, width, height, has_inversion);
    CursorView {
        id: static_id_of(img),
        webp_data: webp_lossless_of(img, (width + 2 * pad) as u32, (height + 2 * pad) as u32),
        width: (width + 2 * pad) as u32,
        height: (height + 2 * pad) as u32,
        hotspot_x: (hotspot_x + pad) as i32,
        hotspot_y: (hotspot_y + pad) as i32,
        is_animated: false,
        frame_count: 1,
        frame_delay_ms: 0,
    }
}

/// The cache entry of an animated cursor: frames shown `ANIM_FRAME_DELAY_MS`
/// apart, the last one ending `ANIM_FRAME_DELAY_MS` after it starts.
pub open spec fn animated_cursor_view(
    frames: Seq<Seq<u8>>,
    width: u32,
    height: u32,
    hotspot_x: i32,
    hotspot_y: i32,
) -> CursorView {
    CursorView {
        id: animated_id_of(frames),
        webp_data: animated_webp_of(
            timed_frames(frames, ANIM_FRAME_DELAY_MS as i32),
            width,
            height,
            (frames.len() * ANIM_FRAME_DELAY_MS) as i32,
        ),
        width,
        height,
        hotspot_x,
        hotspot_y,
        is_animated: true,
        frame_count: frames.len() as u32,
        frame_delay_ms: ANIM_FRAME_DELAY_MS,
    }
}

/// Turns the frames of a captured cursor into a cache entry. One frame
/// gives a static cursor, padded and outlined where it has inversion pixels
/// (with its hotspot moved by the pad); several frames give an animated
/// cursor with the default frame delay.
pub fn finish_capture(
    frames: Vec<Vec<u8>>,
    width: u32,
    height: u32,
    hotspot_x: i32,
    hotspot_y: i32,
    has_inversion: bool,
) -> (r: Result<CachedCursor, EncodeError>)
    requires
        1 <= frames@.len() <= 120,
        forall|i: int| 0 <= i < frames@.len() ==> #[trigger] frames@[i]@.len() == 4 * width * height,
        width <= WEBP_MAX_DIMENSION,
        height <= WEBP_MAX_DIMENSION,
        has_inversion ==> hotspot_x <= i32::MAX - XOR_PAD && hotspot_y <= i32::MAX - XOR_PAD,
    ensures
        frames@.len() == 1 ==> match r {
            Ok(c) => webp_dimensions_ok(c.width, c.height) && c@ == static_cursor_view(
                frames@[0]@,
                width,
                height,
                hotspot_x,
                hotspot_y,
                has_inversion,
            ),
            Err(e) => !webp_dimensions_ok(
                (width + 2 * (if has_inversion { XOR_PAD } else { 0 })) as u32,
                (height + 2 * (if has_inversion { XOR_PAD } else { 0 })) as u32,
            ),
        },
        r matches Ok(c) ==> c.id@.len() == 16,
        frames@.len() >= 2 && webp_dimensions_ok(width, height) ==> (r matches Ok(c) && c@
            == animated_cursor_view(frames_view(frames@), width, height, hotspot_x, hotspot_y)),
        frames@.len() >= 2 && !webp_dimensions_ok(width, height) ==> r is Err,
{
    if frames.len() >= 2 {
        let id = animated_cursor_id(&frames);
        let data = encode_animated_webp(&frames, width, height, ANIM_FRAME_DELAY_MS as i32)?;
        return Ok(
            CachedCursor {
                id,
                webp_data: data,
                width,
                height,
                hotspot_x,
                hotspot_y,
                is_animated: true,
                frame_count: frames.len() as u32,
                frame_delay_ms: ANIM_FRAME_DELAY_MS,
            },
        );
    }
    let first = &frames[0];
    assert(first@.len() == 4 * width * height);
    if has_inversion {
        assert(4 * (width + 2 * XOR_PAD) * (height + 2 * XOR_PAD) <= 4 * 16391 * 16391) by (nonlinear_arith)
            requires
                width <= 16383,
                height <= 16383,
        ;
        let (mut canvas, cw, ch) = expand_canvas(first, width, height, XOR_PAD);
        add_white_outline(&mut canvas, cw, ch, XOR_PAD);
        assert(canvas@ == static_image(first@, width, height, has_inversion));
        let data = match encode_static_webp(&canvas, cw, ch) {
            Ok(d) => d,
            Err(e) => return Err(e),
        };
        let id = static_cursor_id(&canvas);
        Ok(
            CachedCursor {
                id,
                webp_data: data,
                width: cw,
                height: ch,
                hotspot_x: hotspot_x + XOR_PAD as i32,
                hotspot_y: hotspot_y + XOR_PAD as i32,
                is_animated: false,
                frame_count: 1,
                frame_delay_ms: 0,
            },
        )
    } else {
        let data = match encode_static_webp(first, width, height) {
            Ok(d) => d,
            Err(e) => return Err(e),
        };
        let id = static_cursor_id(first);
        Ok(
            CachedCursor {
                id,
                webp_data: data,
                width,
                height,
                hotspot_x,
                hotspot_y,
                is_animated: false,
                frame_count: 1,
                frame_delay_ms: 0,
            },
        )
    }
}


/// Hides reported over a run of hidden ticks, from whether a cursor was
/// still to be hidden (a handle seen on Windows, an identifier announced
/// elsewhere) and whether the pointer sat at the edge on each tick.
pub open spec fn hides_over(shown: bool, at_edge: Seq<bool>) -> nat
    decreases at_edge.len(),
{
    if at_edge.len() == 0 {
        0
    } else {
        let (s2, hide) = hidden_tick(shown, at_edge[0]);
        (if hide { 1nat } else { 0nat }) + hides_over(s2, at_edge.drop_first())
    }
}

/// A cursor is hidden at most once per hide and show: over any run of
/// hidden ticks at most one hide is reported.
pub proof fn hide_reported_once(shown: bool, at_edge: Seq<bool>)
    ensures
        hides_over(shown, at_edge) <= 1,
    decreases at_edge.len(),
{
    if at_edge.len() > 0 {
        let (s2, hide) = hidden_tick(shown, at_edge[0]);
        if hide {
            lemma_no_hide_when_hidden(at_edge.drop_first());
        } else {
            hide_reported_once(s2, at_edge.drop_first());
        }
    }
}

proof fn lemma_no_hide_when_hidden(at_edge: Seq<bool>)
    ensures
        hides_over(false, at_edge) == 0,
    decreases at_edge.len(),
{
    if at_edge.len() > 0 {
        lemma_no_hide_when_hidden(at_edge.drop_first());
    }
}

/// A cursor's identity is its content: the identifier of a captured
/// single-frame cursor depends on its pixels (and on whether they needed an
/// outline) alone, not on its hotspot or on the OS handle it came from; an
/// animated cursor's depends on its frames alone.
pub proof fn cursor_id_is_content_address(
    rgba: Seq<u8>,
    width: u32,
    height: u32,
    has_inversion: bool,
    hx1: i32,
    hy1: i32,
    hx2: i32,
    hy2: i32,
    frames1: Seq<Seq<u8>>,
    frames2: Seq<Seq<u8>>,
)
    requires
        frames1 == frames2,
    ensures
        static_cursor_view(rgba, width, height, hx1, hy1, has_inversion).id == static_cursor_view(
            rgba,
            width,
            height,
            hx2,
            hy2,
            has_inversion,
        ).id,
        static_cursor_view(rgba, width, height, hx1, hy1, has_inversion).id == static_id_of(
            static_image(rgba, width, height, has_inversion),
        ),
        animated_id_of(frames1) == animated_id_of(frames2),
{
}

} // verus!
