use deragabu_agent::cache::{CachedCursor, CursorCache};
use deragabu_agent::capture::{
    cache_cursor, create_scaled_cursor_message, finish_capture, get_cached_cursor, get_last_cursor_id,
    is_cursor_at_screen_edge, observe_cursor_gone, observe_hidden, observe_shown, record_capture, CaptureState, CursorEvent,
};
use deragabu_agent::clipboard::{
    decode_png, file_list_stub_text, get_last_set_hash, image_event, record_set_hash, text_event,
    ClipboardContent, ClipboardMirror,
};
use deragabu_agent::digest::{animated_cursor_id, content_hash, frame_hash, static_cursor_id};
use deragabu_agent::dpr::parse_dpr_from_json;
use deragabu_agent::encode::{encode_animated_webp, encode_static_webp, EncodeError};
use deragabu_agent::message::{
    create_heartbeat_message, create_hide_message, create_signal_message, scale_length, scale_offset,
    ClipboardContentType, ClipboardData, CursorData, CursorMessage, MessageType, Payload,
};
use deragabu_agent::probe::AnimationProbe;
use deragabu_agent::session::{
    bootstrap_message, build_clipboard_proto, handle_client_clipboard, handle_text_message,
    send_clipboard_event, send_cursor_event, send_settings_event, ClientState, SunshineSettingsEvent,
};

fn arrow(size: u32) -> Vec<u8> {
    let mut rgba = vec![0u8; (size * size * 4) as usize];
    for y in 0..size {
        for x in 0..size {
            if x <= y && y < size * 3 / 4 {
                let i = ((y * size + x) * 4) as usize;
                let edge = x == 0 || x == y || y == size * 3 / 4 - 1;
                let v = if edge { 0 } else { 255 };
                rgba[i..i + 4].copy_from_slice(&[v, v, v, 255]);
            }
        }
    }
    rgba
}

fn frame(size: u32, seed: u8) -> Vec<u8> {
    let mut rgba = vec![0u8; (size * size * 4) as usize];
    for (i, b) in rgba.iter_mut().enumerate() {
        *b = if i % 4 == 3 { 255 } else { seed.wrapping_mul(31).wrapping_add(i as u8) };
    }
    rgba
}

fn cursor_data(msg: &CursorMessage) -> &CursorData {
    assert_eq!(msg.message_type, MessageType::CursorData);
    match &msg.payload {
        Some(Payload::CursorData(d)) => d,
        _ => panic!("not a cursor data message"),
    }
}

fn signal_id(msg: &CursorMessage) -> String {
    assert_eq!(msg.message_type, MessageType::CursorSignal);
    match &msg.payload {
        Some(Payload::CursorSignal(s)) => s.cursor_id.clone(),
        _ => panic!("not a signal message"),
    }
}

fn capture_static(state: &mut CaptureState, rgba: &[u8], size: u32) -> String {
    let cached = finish_capture(vec![rgba.to_vec()], size, size, 0, 0, false).unwrap();
    match record_capture(state, cached) {
        CursorEvent::CursorChanged(id) => id,
        CursorEvent::CursorHidden => panic!("capture reported a hide"),
    }
}

#[test]
fn arrow_at_unit_ratio_passes_through() {
    let mut state = CaptureState::new();
    let rgba = arrow(32);
    let id = capture_static(&mut state, &rgba, 32);
    assert!(id.starts_with("cur_"));
    assert_eq!(id.len(), 16);
    let mut client = ClientState::new();
    assert!(handle_text_message(&mut client, &state, "{\"device_pixel_ratio\":1.0}", 1000, 1).is_none());
    assert_eq!(client.device_pixel_ratio(), 1000);
    let msg = send_cursor_event(&mut client, &state, &CursorEvent::CursorChanged(id.clone()), 1000, 2).unwrap();
    let d = cursor_data(&msg);
    assert_eq!((d.width, d.height, d.hotspot_x, d.hotspot_y), (32, 32, 0, 0));
    assert!(!d.is_animated);
    assert_eq!(d.cursor_id, id);
    assert_eq!(msg.timestamp, 2);
    let decoded = webp::Decoder::new(&d.image_data).decode().unwrap();
    assert_eq!((decoded.width(), decoded.height()), (32, 32));
    let px: &[u8] = &decoded;
    let stride = if decoded.is_alpha() { 4 } else { 3 };
    for i in 0..32 * 32 {
        let src = &rgba[i * 4..i * 4 + 4];
        let out = &px[i * stride..i * stride + stride];
        if src[3] > 0 {
            assert_eq!(&out[0..3], &src[0..3]);
        }
        if stride == 4 {
            assert_eq!(out[3], src[3]);
        }
    }
}

#[test]
fn ibeam_with_inversion_pixels() {
    // 16 x 16 monochrome I-beam: the bar and its end caps invert the screen.
    let n = 16usize;
    let mut and = vec![255u8; n * n];
    let mut xor = vec![0u8; n * n];
    for y in 1..15 {
        xor[y * n + 7] = 255;
    }
    for x in 5..10 {
        xor[n + x] = 255;
        xor[14 * n + x] = 255;
    }
    and.iter_mut().for_each(|a| *a = 255);
    let mut mask = Vec::new();
    for v in and.iter().chain(xor.iter()) {
        mask.extend_from_slice(&[*v, *v, *v, 0]);
    }
    let (rgba, inv) = deragabu_agent::pixels::monochrome_mask_to_rgba(&mask, n * n);
    assert!(inv);
    let cached = finish_capture(vec![rgba], 16, 16, 7, 8, true).unwrap();
    assert_eq!((cached.width, cached.height), (24, 24));
    assert_eq!((cached.hotspot_x, cached.hotspot_y), (11, 12));
    let decoded = webp::Decoder::new(&cached.webp_data).decode().unwrap();
    assert_eq!((decoded.width(), decoded.height()), (24, 24));
    let (mut padded, w, h) = deragabu_agent::pixels::expand_canvas(
        &deragabu_agent::pixels::monochrome_mask_to_rgba(&mask, n * n).0,
        16,
        16,
        4,
    );
    deragabu_agent::pixels::add_white_outline(&mut padded, w, h, 4);
    let at = |x: usize, y: usize| {
        let i = (y * 24 + x) * 4;
        [padded[i], padded[i + 1], padded[i + 2], padded[i + 3]]
    };
    // the bar: dark and opaque
    assert_eq!(at(11, 11), [0, 0, 0, 255]);
    // the halo beside it fades out over four pixels
    assert_eq!(at(12, 11), [255, 255, 255, 255]);
    assert_eq!(at(13, 11), [255, 255, 255, 170]);
    assert_eq!(at(14, 11), [255, 255, 255, 85]);
    assert_eq!(at(15, 11)[3], 0);
    assert_eq!(cached.id, static_cursor_id(&padded));
}

#[test]
fn animated_wait_cursor() {
    let frames: Vec<Vec<u8>> = (0..8).map(|s| frame(16, s)).collect();
    let mut probe = AnimationProbe::new(frames[0].clone());
    let mut renders = 0;
    while let Some(step) = probe.next_step() {
        renders += 1;
        probe.record(Some(frames[step as usize % 8].clone()));
    }
    assert_eq!(renders, 8);
    let kept = probe.into_frames();
    assert_eq!(kept, frames);
    let cached = finish_capture(kept.clone(), 16, 16, 8, 8, false).unwrap();
    assert!(cached.is_animated);
    assert_eq!(cached.frame_count, 8);
    assert_eq!(cached.frame_delay_ms, 60);
    assert!(cached.id.starts_with("ani_"));
    assert_eq!(cached.id, animated_cursor_id(&kept));
    let decoder = webp_animation::Decoder::new(&cached.webp_data).unwrap();
    assert_eq!(decoder.into_iter().count(), 8);
}

#[test]
fn probe_stops_on_render_failure_and_duplicate() {
    let mut probe = AnimationProbe::new(frame(4, 0));
    assert_eq!(probe.next_step(), Some(1));
    probe.record(Some(frame(4, 1)));
    assert_eq!(probe.next_step(), Some(2));
    probe.record(Some(frame(4, 1)));
    assert_eq!(probe.next_step(), None);
    assert_eq!(probe.into_frames().len(), 2);

    let mut probe = AnimationProbe::new(frame(4, 0));
    probe.record(None);
    assert_eq!(probe.next_step(), None);
    assert_eq!(probe.into_frames().len(), 1);
}

#[test]
fn probe_keeps_at_most_120_frames() {
    let mut probe = AnimationProbe::new(frame(2, 0));
    let mut seed: u32 = 1;
    while let Some(_) = probe.next_step() {
        let mut f = frame(2, 0);
        f[0..4].copy_from_slice(&seed.to_le_bytes());
        probe.record(Some(f));
        seed += 1;
    }
    assert_eq!(seed, 120);
    assert_eq!(probe.into_frames().len(), 120);
}

#[test]
fn cache_hit_across_clients() {
    let mut state = CaptureState::new();
    let x = arrow(32);
    let y = frame(32, 9);
    let id_x = capture_static(&mut state, &x, 32);
    let mut a = ClientState::new();
    let m = send_cursor_event(&mut a, &state, &CursorEvent::CursorChanged(id_x.clone()), 1000, 1).unwrap();
    assert_eq!(cursor_data(&m).cursor_id, id_x);
    let mut b = ClientState::new();
    let boot = bootstrap_message(&mut b, &state, 1000, 2).unwrap();
    assert_eq!(cursor_data(&boot).cursor_id, id_x);
    let id_y = capture_static(&mut state, &y, 32);
    for c in [&mut a, &mut b] {
        let m = send_cursor_event(c, &state, &CursorEvent::CursorChanged(id_y.clone()), 1000, 3).unwrap();
        assert_eq!(cursor_data(&m).cursor_id, id_y);
    }
    let again = capture_static(&mut state, &x, 32);
    assert_eq!(again, id_x);
    for c in [&mut a, &mut b] {
        let m = send_cursor_event(c, &state, &CursorEvent::CursorChanged(again.clone()), 1000, 4).unwrap();
        assert_eq!(signal_id(&m), id_x);
    }
}

#[test]
fn clipboard_echo_is_suppressed() {
    let mut mirror = ClipboardMirror::new();
    let hello = text_event("hello".to_string()).unwrap();
    assert!(mirror.poll_changed(&hello.content_hash));
    let pushed = ClipboardData {
        content_type: ClipboardContentType::Text,
        payload: b"world".to_vec(),
        content_hash: content_hash(b"world"),
        filenames: vec![],
        file_sizes: vec![],
    };
    let (content, hash) = handle_client_clipboard(pushed).unwrap();
    match content {
        ClipboardContent::Text(t) => assert_eq!(t, "world"),
        _ => panic!("expected text"),
    }
    record_set_hash(&mut mirror, &hash);
    assert_eq!(get_last_set_hash(&mirror), Some(hash.clone()));
    let world = text_event("world".to_string()).unwrap();
    assert_eq!(world.content_hash, hash);
    assert!(!mirror.poll_changed(&world.content_hash));
    assert!(!mirror.poll_changed(&world.content_hash));
    let foo = text_event("foo".to_string()).unwrap();
    assert!(mirror.poll_changed(&foo.content_hash));
}

#[test]
fn ratio_change_resends_cursor() {
    let mut state = CaptureState::new();
    let rgba = arrow(32);
    let cached = finish_capture(vec![rgba], 32, 32, 3, 5, false).unwrap();
    let id = match record_capture(&mut state, cached) {
        CursorEvent::CursorChanged(id) => id,
        _ => panic!(),
    };
    let mut client = ClientState::new();
    let first = send_cursor_event(&mut client, &state, &CursorEvent::CursorChanged(id.clone()), 1000, 1).unwrap();
    assert_eq!(cursor_data(&first).width, 32);
    let m = handle_text_message(&mut client, &state, "{\"device_pixel_ratio\":2.0}", 1000, 2).unwrap();
    let d = cursor_data(&m);
    assert_eq!(d.cursor_id, id);
    assert_eq!((d.width, d.height, d.hotspot_x, d.hotspot_y), (64, 64, 6, 10));
    assert_eq!(d.dpi_scale, 2000);
    assert_eq!(client.device_pixel_ratio(), 2000);
    let next = send_cursor_event(&mut client, &state, &CursorEvent::CursorChanged(id.clone()), 1000, 3).unwrap();
    assert_eq!(signal_id(&next), id);
}

#[test]
fn ratio_updates_that_are_ignored() {
    let mut state = CaptureState::new();
    capture_static(&mut state, &arrow(8), 8);
    let mut client = ClientState::new();
    for text in [
        "{\"device_pixel_ratio\":1.005}",
        "{\"device_pixel_ratio\":0}",
        "{\"device_pixel_ratio\":10.5}",
        "{\"device_pixel_ratio\":abc}",
        "{\"other\":2}",
    ] {
        assert!(handle_text_message(&mut client, &state, text, 1000, 1).is_none(), "{text}");
        assert_eq!(client.device_pixel_ratio(), 1000);
    }
}

#[test]
fn ratio_text_parsing() {
    assert_eq!(parse_dpr_from_json("{\"device_pixel_ratio\": 1.25}"), Some(1250));
    assert_eq!(parse_dpr_from_json("{\"device_pixel_ratio\":2}"), Some(2000));
    assert_eq!(parse_dpr_from_json("{\"device_pixel_ratio\":1.0005,\"x\":1}"), Some(1001));
    assert_eq!(parse_dpr_from_json("{\"device_pixel_ratio\":1.1000000238418579}"), Some(1100));
    assert_eq!(parse_dpr_from_json("{\"device_pixel_ratio\": .5 }"), Some(500));
    assert_eq!(parse_dpr_from_json("{\"device_pixel_ratio\":+3.\n}"), Some(3000));
    assert_eq!(parse_dpr_from_json("{\"device_pixel_ratio\":}"), None);
    assert_eq!(parse_dpr_from_json("{\"device_pixel_ratio\" 2}"), None);
    assert_eq!(parse_dpr_from_json("{\"dpr\":2}"), None);
    assert_eq!(parse_dpr_from_json("{\"device_pixel_ratio\":1e2}"), None);
    assert_eq!(parse_dpr_from_json("{\"device_pixel_ratio\":99999999999}"), Some(1_000_000_000));
}

#[test]
fn scaling_at_a_fractional_host_scale() {
    // Host at 1.5, client at 1.0: 32 * 1 / 1.5 = 21.33 rounds to 21.
    assert_eq!(scale_length(32, 1000, 1500), 21);
    assert_eq!(scale_length(1, 100, 1500), 1);
    assert_eq!(scale_offset(3, 1000, 1500), 2);
    assert_eq!(scale_offset(-3, 1000, 1500), -2);
    // 1.5 host, 3.0 client: doubled
    assert_eq!(scale_length(32, 3000, 1500), 64);
    // within one hundredth of one: unchanged
    assert_eq!(scale_length(33, 1005, 1000), 33);
    // halves round away from zero: 3 * 1.5 = 4.5
    assert_eq!(scale_offset(3, 1500, 1000), 5);
    assert_eq!(scale_offset(-3, 1500, 1000), -5);
}

#[test]
fn scaled_message_for_unknown_cursor() {
    let state = CaptureState::new();
    assert!(create_scaled_cursor_message(&state, "cur_000000000000", 1000, 1000, 0).is_none());
    assert!(get_cached_cursor(&state, "cur_000000000000").is_none());
    assert!(get_last_cursor_id(&state).is_none());
}

#[test]
fn screen_edge_rule() {
    assert!(is_cursor_at_screen_edge(0, 500, 0, 0, 1920, 1080));
    assert!(is_cursor_at_screen_edge(2, 500, 0, 0, 1920, 1080));
    assert!(!is_cursor_at_screen_edge(3, 500, 0, 0, 1920, 1080));
    assert!(is_cursor_at_screen_edge(1918, 500, 0, 0, 1920, 1080));
    assert!(!is_cursor_at_screen_edge(1917, 500, 0, 0, 1920, 1080));
    assert!(is_cursor_at_screen_edge(100, 1078, 0, 0, 1920, 1080));
    assert!(is_cursor_at_screen_edge(-1918, 500, -1920, 0, 3840, 1080));
}

#[test]
fn hide_is_reported_once() {
    let mut state = CaptureState::new();
    assert!(observe_hidden(&mut state, false).is_none());
    assert!(observe_shown(&mut state, 17));
    assert!(!observe_shown(&mut state, 17));
    capture_static(&mut state, &arrow(8), 8);
    assert!(observe_hidden(&mut state, true).is_none());
    assert!(matches!(observe_hidden(&mut state, false), Some(CursorEvent::CursorHidden)));
    assert!(observe_hidden(&mut state, false).is_none());
    assert!(get_last_cursor_id(&state).is_none());
    assert!(observe_shown(&mut state, 17));
    capture_static(&mut state, &arrow(8), 8);
    assert!(matches!(observe_hidden(&mut state, false), Some(CursorEvent::CursorHidden)));
}

#[test]
fn cursor_gone_reports_once_and_keeps_serial() {
    let mut state = CaptureState::new();
    assert!(observe_shown(&mut state, 9));
    assert!(observe_cursor_gone(&mut state).is_none());
    capture_static(&mut state, &arrow(8), 8);
    assert!(matches!(observe_cursor_gone(&mut state), Some(CursorEvent::CursorHidden)));
    assert!(observe_cursor_gone(&mut state).is_none());
    assert!(!observe_shown(&mut state, 9));
}

fn entry(id: &str) -> CachedCursor {
    CachedCursor {
        id: id.to_string(),
        webp_data: vec![1, 2, 3],
        width: 4,
        height: 4,
        hotspot_x: 0,
        hotspot_y: 0,
        is_animated: false,
        frame_count: 1,
        frame_delay_ms: 0,
    }
}

#[test]
fn cache_culls_half_when_full() {
    let mut cache = CursorCache::new(4);
    for i in 0..4 {
        assert!(cache.insert(entry(&format!("cur_{i}"))));
    }
    assert_eq!(cache.len(), 4);
    assert!(!cache.insert(entry("cur_2")));
    assert_eq!(cache.len(), 4);
    assert!(cache.insert(entry("cur_9")));
    assert_eq!(cache.len(), 3);
    assert!(cache.contains(&"cur_9".to_string()));
    let got = cache.get(&"cur_9".to_string()).unwrap();
    assert_eq!(got.webp_data, vec![1, 2, 3]);
    assert!(!cache.insert(entry("cur_9")));
}

#[test]
fn cache_insert_through_state() {
    let mut state = CaptureState::new();
    let (id, fresh) = cache_cursor(&mut state, entry("cur_a"));
    assert_eq!(id, "cur_a");
    assert!(fresh);
    let (_, fresh) = cache_cursor(&mut state, entry("cur_a"));
    assert!(!fresh);
    assert_eq!(get_last_cursor_id(&state), Some("cur_a".to_string()));
    for i in 0..60 {
        cache_cursor(&mut state, entry(&format!("cur_{i}")));
    }
    assert!(get_cached_cursor(&state, "cur_59").is_some());
}

#[test]
fn identifiers_are_content_hashes() {
    assert_eq!(static_cursor_id(&vec![]), "cur_af1349b9f5f9");
    let rgba = arrow(8);
    let hex = blake3::hash(&rgba).to_hex().to_string();
    assert_eq!(static_cursor_id(&rgba), format!("cur_{}", &hex[..12]));
    assert_eq!(frame_hash(&rgba), hex[..16].to_string());
    assert_eq!(content_hash(b"hello"), blake3::hash(b"hello").to_hex().to_string());
    let frames = vec![frame(2, 1), frame(2, 2)];
    let mut chain = Vec::new();
    for f in &frames {
        chain.extend_from_slice(blake3::hash(f).as_bytes());
    }
    let hex = blake3::hash(&chain).to_hex().to_string();
    assert_eq!(animated_cursor_id(&frames), format!("ani_{}", &hex[..12]));
}

#[test]
fn encoding_refuses_bad_dimensions() {
    assert_eq!(encode_static_webp(&vec![], 0, 0), Err(EncodeError::BadDimensions));
    assert_eq!(encode_animated_webp(&vec![vec![]], 0, 4, 60), Err(EncodeError::BadDimensions));
    let ok = encode_static_webp(&arrow(8), 8, 8).unwrap();
    assert_eq!(&ok[0..4], b"RIFF");
    assert!(finish_capture(vec![vec![]], 0, 0, 0, 0, false).is_err());
    // a frame gap libwebp refuses
    let frames = vec![frame(2, 1), frame(2, 2)];
    assert_eq!(encode_animated_webp(&frames, 2, 2, 0x100_0000), Err(EncodeError::EncoderFailed));
    assert!(encode_animated_webp(&frames, 2, 2, 0xff_ffff).is_ok());
}

#[test]
fn clipboard_text_and_image_events() {
    assert!(text_event(String::new()).is_none());
    let e = text_event("héllo".to_string()).unwrap();
    assert_eq!(e.content_hash, blake3::hash("héllo".as_bytes()).to_hex().to_string());
    let rgba = frame(3, 4);
    let img = image_event(&rgba, 3, 3).unwrap();
    match &img.content {
        ClipboardContent::Image { png_data, width, height } => {
            assert_eq!((*width, *height), (3, 3));
            assert_eq!(&png_data[1..4], b"PNG");
            assert_eq!(img.content_hash, blake3::hash(png_data).to_hex().to_string());
            let (px, w, h) = decode_png(png_data).unwrap();
            assert_eq!((w, h), (3, 3));
            assert_eq!(px, rgba);
        }
        _ => panic!("expected an image"),
    }
    assert!(decode_png(&vec![1, 2, 3]).is_none());
}

#[test]
fn client_clipboard_pushes() {
    let bad = ClipboardData {
        content_type: ClipboardContentType::Text,
        payload: vec![0xff, 0xfe],
        content_hash: "h".to_string(),
        filenames: vec![],
        file_sizes: vec![],
    };
    assert!(handle_client_clipboard(bad).is_none());
    let unknown = ClipboardData {
        content_type: ClipboardContentType::Other(9),
        payload: vec![],
        content_hash: "h".to_string(),
        filenames: vec![],
        file_sizes: vec![],
    };
    assert!(handle_client_clipboard(unknown).is_none());
    let files = ClipboardData {
        content_type: ClipboardContentType::Files,
        payload: vec![],
        content_hash: "h2".to_string(),
        filenames: vec!["a.txt".to_string(), "b.png".to_string()],
        file_sizes: vec![],
    };
    let (content, hash) = handle_client_clipboard(files).unwrap();
    assert_eq!(hash, "h2");
    match content {
        ClipboardContent::Files(names) => {
            assert_eq!(file_list_stub_text(&names), "[Files \u{2014} transfer not implemented]\na.txt\nb.png");
        }
        _ => panic!("expected files"),
    }
    let image = ClipboardData {
        content_type: ClipboardContentType::Image,
        payload: vec![7, 8],
        content_hash: "h3".to_string(),
        filenames: vec![],
        file_sizes: vec![],
    };
    match handle_client_clipboard(image).unwrap().0 {
        ClipboardContent::Image { png_data, width, height } => {
            assert_eq!(png_data, vec![7, 8]);
            assert_eq!((width, height), (0, 0));
        }
        _ => panic!("expected an image"),
    }
}

#[test]
fn clipboard_sent_once_per_client() {
    let mut client = ClientState::new();
    let e = text_event("abc".to_string()).unwrap();
    let m = send_clipboard_event(&mut client, &e, 9).unwrap();
    assert_eq!(m.message_type, MessageType::Clipboard);
    match &m.payload {
        Some(Payload::ClipboardData(d)) => {
            assert_eq!(d.content_type, ClipboardContentType::Text);
            assert_eq!(d.payload, b"abc".to_vec());
            assert_eq!(d.content_hash, e.content_hash);
        }
        _ => panic!("expected clipboard data"),
    }
    assert!(send_clipboard_event(&mut client, &e, 10).is_none());
    let files = deragabu_agent::clipboard::ClipboardEvent {
        content: ClipboardContent::Files(vec!["x".to_string()]),
        content_hash: "f".to_string(),
    };
    let d = build_clipboard_proto(&files);
    assert_eq!(d.content_type, ClipboardContentType::Files);
    assert!(d.payload.is_empty());
    assert_eq!(d.filenames, vec!["x".to_string()]);
    assert!(d.file_sizes.is_empty());
}

#[test]
fn bare_messages() {
    let h = create_hide_message(5);
    assert_eq!(h.message_type, MessageType::CursorHide);
    assert!(h.payload.is_none());
    assert_eq!(h.timestamp, 5);
    let b = create_heartbeat_message(6);
    assert_eq!(b.message_type, MessageType::Heartbeat);
    assert!(b.payload.is_none());
    let s = create_signal_message("cur_x", 7);
    assert_eq!(signal_id(&s), "cur_x");
    let st = send_settings_event(&SunshineSettingsEvent { draw_cursor: true }, 8);
    assert_eq!(st.message_type, MessageType::Settings);
    match st.payload {
        Some(Payload::SettingsData(d)) => assert!(d.draw_cursor),
        _ => panic!("expected settings"),
    }
    let mut client = ClientState::new();
    let state = CaptureState::new();
    let hide = send_cursor_event(&mut client, &state, &CursorEvent::CursorHidden, 1000, 1).unwrap();
    assert_eq!(hide.message_type, MessageType::CursorHide);
    assert!(send_cursor_event(&mut client, &state, &CursorEvent::CursorChanged("cur_nope".to_string()), 1000, 1).is_none());
    assert!(bootstrap_message(&mut client, &state, 1000, 1).is_none());
}

#[test]
fn state_cache_respects_capacity() {
    let mut state = CaptureState::with_capacity(2);
    cache_cursor(&mut state, entry("cur_a"));
    cache_cursor(&mut state, entry("cur_b"));
    let (_, fresh) = cache_cursor(&mut state, entry("cur_c"));
    assert!(fresh);
    assert!(get_cached_cursor(&state, "cur_a").is_none());
    assert!(get_cached_cursor(&state, "cur_b").is_some());
    assert!(get_cached_cursor(&state, "cur_c").is_some());
    assert_eq!(get_last_cursor_id(&state), Some("cur_c".to_string()));
}

#[test]
fn animated_encoding_succeeds_on_valid_frames() {
    let frames: Vec<Vec<u8>> = (0..3).map(|s| frame(5, s)).collect();
    let bytes = encode_animated_webp(&frames, 5, 5, 60).unwrap();
    let decoder = webp_animation::Decoder::new(&bytes).unwrap();
    assert_eq!(decoder.dimensions(), (5, 5));
    let timestamps: Vec<i32> = decoder.into_iter().map(|f| f.timestamp()).collect();
    assert_eq!(timestamps.len(), 3);
    let cached = finish_capture(frames, 5, 5, 1, 2, false).unwrap();
    assert!(cached.is_animated);
    assert_eq!((cached.width, cached.height, cached.hotspot_x, cached.hotspot_y), (5, 5, 1, 2));
}

#[test]
fn smallest_clipboard_image_is_sent() {
    let ev = image_event(&vec![1, 2, 3, 4], 1, 1).unwrap();
    match ev.content {
        ClipboardContent::Image { png_data, .. } => {
            let (px, w, h) = decode_png(&png_data).unwrap();
            assert_eq!((px, w, h), (vec![1, 2, 3, 4], 1, 1));
        }
        _ => panic!("expected an image"),
    }
}

#[test]
fn hide_forgets_handle_and_edge_keeps_it() {
    let mut state = CaptureState::new();
    assert!(observe_shown(&mut state, 5));
    assert!(observe_hidden(&mut state, true).is_none());
    assert!(!observe_shown(&mut state, 5));
    // a handle was seen, though no cursor was captured: the hide is reported
    assert!(matches!(observe_hidden(&mut state, false), Some(CursorEvent::CursorHidden)));
    assert!(observe_hidden(&mut state, false).is_none());
    assert!(observe_shown(&mut state, 5));
}
