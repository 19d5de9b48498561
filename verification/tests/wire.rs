//! Frames on the daemon, window and preview sockets. Messages are JSON
//! texts; the library carries them as bytes.

use bytes::{BufMut, BytesMut};
use lixun::frames::{encode_frame, read_frame, FrameError, Versions};
use lixun::ipc::{ImpactProfile, ImpactProfileWire, OcrStats, SystemImpact, WatcherStats};
use lixun::preview_ipc::{DaemonPreviewCodec, PreviewBinCodec};
use lixun::{gui, ipc, preview_ipc};

const HIT: &str = r#"{"id":"fs:/tmp/demo.txt","title":"demo.txt","action":{"OpenFile":{"path":"/tmp/demo.txt"}}}"#;

fn json(text: &str) -> serde_json::Value {
    serde_json::from_str(text).unwrap()
}

// -- daemon -----------------------------------------------------------------

fn decode(codec: &mut ipc::FrameCodec, buf: &mut BytesMut) -> Option<serde_json::Value> {
    let payload = codec.decode(buf).unwrap()?;
    let value = serde_json::from_slice(&payload).unwrap();
    codec.accept();
    Some(value)
}

fn roundtrip(messages: &[&str]) {
    let mut codec = ipc::FrameCodec::default();
    let mut buf = BytesMut::new();
    for message in messages {
        codec.encode(message.as_bytes(), &mut buf);
    }
    for message in messages {
        assert_eq!(decode(&mut codec, &mut buf), Some(json(message)));
    }
    assert_eq!(decode(&mut codec, &mut buf), None);
}

#[test]
fn test_encode_decode_toggle() {
    roundtrip(&[r#""Toggle""#]);
}

#[test]
fn test_encode_decode_search() {
    roundtrip(&[r#"{"Search":{"q":"hello world","limit":10,"explain":false,"epoch":42}}"#]);
}

#[test]
fn test_encode_decode_reindex() {
    roundtrip(&[r#"{"Reindex":{"paths":["/tmp/test"]}}"#]);
}

#[test]
fn test_encode_decode_status() {
    roundtrip(&[r#""Status""#]);
}

fn frame_of_version(version: u16, payload: &[u8]) -> BytesMut {
    let mut buf = BytesMut::new();
    buf.put_u32((2 + payload.len()) as u32);
    buf.put_u16(version);
    buf.put_slice(payload);
    buf
}

fn refused(version: u16) -> String {
    let mut codec = ipc::FrameCodec::default();
    let err = codec.decode(&mut frame_of_version(version, b"\"Toggle\"")).unwrap_err();
    assert_eq!(err, FrameError::Version(version));
    ipc::error_text(err)
}

#[test]
fn test_version_mismatch() {
    let err = refused(99);
    assert!(
        err.contains("outside supported"),
        "expected 'outside supported' in error, got: {}",
        err
    );
}

#[test]
fn test_codec_rejects_protocol_v3_frame() {
    let err = refused(3);
    assert!(
        err.contains("outside supported"),
        "expected 'outside supported' in error, got: {}",
        err
    );
}

#[test]
fn test_record_query_click_roundtrip() {
    roundtrip(&[r#"{"RecordQueryClick":{"doc_id":"fs:/a","query":"foo"}}"#]);
}

#[test]
fn test_incomplete_frame_returns_none() {
    let mut codec = ipc::FrameCodec::default();
    let mut buf = BytesMut::new();
    buf.put_u32(10);
    let result = codec.decode(&mut buf).unwrap();
    assert!(result.is_none());
}

#[test]
fn test_empty_buffer_returns_none() {
    let mut codec = ipc::FrameCodec::default();
    let mut buf = BytesMut::new();
    let result = codec.decode(&mut buf).unwrap();
    assert!(result.is_none());
}

#[test]
fn test_multiple_requests_in_buffer() {
    roundtrip(&[r#""Toggle""#, r#""Status""#]);
}

#[test]
fn test_socket_path_format() {
    let path = ipc::socket_path(Some("/run/user/7"), 7);
    assert!(path.contains("lixun.sock"));
    assert_eq!(path, "/run/user/7/lixun.sock");
    assert_eq!(ipc::socket_path(None, 7), "/tmp/lixun-7.sock");
}

fn preview_request(monitor: &str) -> String {
    format!("{{\"Preview\":{{\"hit\":{HIT},\"monitor\":{monitor}}}}}")
}

#[test]
fn test_encode_decode_preview_roundtrips_full_hit() {
    roundtrip(&[&preview_request("\"eDP-1\"")]);
}

#[test]
fn test_preview_monitor_none_roundtrips() {
    roundtrip(&[&preview_request("null")]);
}

#[test]
fn test_preview_interleaved_with_other_variants() {
    roundtrip(&[r#""Toggle""#, &preview_request("null"), r#""Status""#]);
}

#[test]
fn test_impact_set_request_roundtrips_via_codec() {
    roundtrip(&[r#"{"ImpactSet":{"level":"low","persist":true}}"#]);
}

#[test]
fn test_impact_get_and_explain_roundtrip_via_codec() {
    roundtrip(&[r#""ImpactGet""#, r#""ImpactExplain""#]);
}

#[test]
fn a_frame_may_come_in_pieces() {
    let mut whole = BytesMut::new();
    ipc::FrameCodec::default().encode(b"\"Status\"", &mut whole);
    for cut in 0..whole.len() {
        let mut codec = ipc::FrameCodec::default();
        let mut buf = BytesMut::from(&whole[..cut]);
        assert_eq!(decode(&mut codec, &mut buf), None, "cut at {cut}");
        buf.extend_from_slice(&whole[cut..]);
        assert_eq!(decode(&mut codec, &mut buf), Some(json("\"Status\"")), "cut at {cut}");
    }
}

#[test]
fn frames_may_come_in_any_chunks() {
    let messages = ["\"Toggle\"", "{}", "\"Status\"", "[1,2,3]"];
    let mut whole = BytesMut::new();
    for message in messages {
        ipc::FrameCodec::default().encode(message.as_bytes(), &mut whole);
    }
    for size in 1..=whole.len() {
        let mut codec = ipc::FrameCodec::default();
        let mut buf = BytesMut::new();
        let mut got = Vec::new();
        for chunk in whole.chunks(size) {
            buf.extend_from_slice(chunk);
            while let Some(payload) = codec.decode(&mut buf).unwrap() {
                got.push(payload);
                codec.accept();
            }
        }
        assert_eq!(got, messages.map(|m| m.as_bytes().to_vec()), "chunks of {size}");
        assert!(buf.is_empty());
    }
}

#[test]
fn frames_have_a_length_a_version_and_a_payload() {
    assert_eq!(encode_frame(4, b"ab").unwrap(), vec![0, 0, 0, 4, 0, 4, b'a', b'b']);
    let versions = Versions { min: 4, max: 4 };
    assert_eq!(read_frame(&[0, 0, 0, 4, 0, 4, b'a', b'b', 9], versions), Ok(b"ab".to_vec()));
    assert_eq!(read_frame(&[0, 0, 0, 1, 0], versions), Err(FrameError::TooShort));
    assert_eq!(read_frame(&[0, 0, 0, 4, 0, 4, b'a'], versions), Err(FrameError::Truncated));
    let whole = encode_frame(4, b"payload").unwrap();
    for cut in 0..whole.len() {
        assert_eq!(read_frame(&whole[..cut], versions), Err(FrameError::Truncated), "cut at {cut}");
    }
}

#[test]
fn impact_profiles_go_onto_the_wire_field_by_field() {
    let profile = ImpactProfile {
        level: SystemImpact::Medium,
        tokio_worker_threads: 4,
        onnx_intra_threads: 2,
        onnx_inter_threads: 1,
        rayon_threads: 3,
        tantivy_heap_bytes: 50,
        tantivy_num_threads: 6,
        embed_batch_hint: 7,
        embed_concurrency_hint: Some(8),
        ocr_jobs_per_tick: 9,
        ocr_adaptive_throttle: true,
        ocr_nice_level: -10,
        ocr_io_class_idle: true,
        ocr_worker_interval_secs: 5,
        ocr_worker_interval_nanos: 999_999_999,
        extract_cache_max_bytes: 11,
        max_file_size_bytes: 12,
        gloda_batch_size: 13,
        daemon_nice: 14,
        daemon_sched_idle: false,
    };
    let wire = ImpactProfileWire::of(&profile);
    assert_eq!(wire.level, SystemImpact::Medium);
    assert_eq!(wire.tokio_worker_threads, 4);
    assert_eq!(wire.ocr_worker_interval_secs, 5);
    assert_eq!(wire.embed_concurrency_hint, Some(8));
    assert_eq!(wire.ocr_nice_level, -10);
    assert_eq!(wire.daemon_nice, 14);

    assert_eq!(WatcherStats::default().directories, 0);
    assert_eq!(OcrStats::default().last_drain_at, None);
    let ocr = OcrStats::new(3, 2, 9, Some(5));
    assert_eq!((ocr.queue_total, ocr.queue_pending, ocr.queue_failed), (5, 3, 2));
}

#[test]
fn the_user_is_found_in_the_environment_or_the_process_status() {
    assert_eq!(ipc::get_uid_fallback(Some("501"), None), 501);
    let status = "Name:\tx\nUid:\t1002\t1001\t1002\t1003\n";
    assert_eq!(ipc::get_uid_fallback(Some("no number"), Some(status)), 1002);
    assert_eq!(ipc::get_uid_fallback(None, Some("Name:\tx\n")), 1000);
    assert_eq!(ipc::get_uid_fallback(None, None), 1000);
}

// -- window -----------------------------------------------------------------

fn window_roundtrip(message: &str) {
    let frame = gui::write_frame_sync(message.as_bytes()).unwrap();
    let payload = gui::read_frame_sync(&frame).unwrap();
    assert_eq!(serde_json::from_slice::<serde_json::Value>(&payload).unwrap(), json(message));
}

#[test]
fn roundtrip_show() {
    window_roundtrip(r#""Show""#);
}

#[test]
fn roundtrip_hide() {
    window_roundtrip(r#""Hide""#);
}

#[test]
fn roundtrip_toggle() {
    window_roundtrip(r#""Toggle""#);
}

#[test]
fn roundtrip_quit() {
    window_roundtrip(r#""Quit""#);
}

#[test]
fn roundtrip_ping() {
    window_roundtrip(r#""Ping""#);
}

#[test]
fn roundtrip_clear_session() {
    window_roundtrip(r#""ClearSession""#);
}

#[test]
fn roundtrip_response_ok_visible_true() {
    window_roundtrip(r#"{"Ok":{"visible":true}}"#);
}

#[test]
fn roundtrip_response_ok_visible_false() {
    window_roundtrip(r#"{"Ok":{"visible":false}}"#);
}

#[test]
fn roundtrip_response_error() {
    window_roundtrip(r#"{"Error":"gtk thread unresponsive"}"#);
}

#[test]
fn version_mismatch_rejected() {
    let frame = frame_of_version(99, b"\"Show\"");
    let err = gui::read_frame_sync(&frame).unwrap_err();
    assert!(gui::error_text(err).contains("version mismatch"), "{}", gui::error_text(err));
}

#[test]
fn truncated_header_rejected() {
    let r = gui::read_frame_sync(&[0x00, 0x00]);
    assert!(r.is_err());
    assert_eq!(r, Err(FrameError::Truncated));
    assert!(preview_ipc::read_frame_sync(&[]).is_err());
}

#[test]
fn truncated_payload_rejected() {
    let mut buf = Vec::<u8>::new();
    let total_len: u32 = (2 + 100) as u32;
    buf.extend_from_slice(&total_len.to_be_bytes());
    buf.extend_from_slice(&ipc::PROTOCOL_VERSION.to_be_bytes());
    buf.extend_from_slice(&[0u8; 10]);
    let r = gui::read_frame_sync(&buf);
    assert!(r.is_err());
    assert_eq!(gui::error_text(r.unwrap_err()), "failed to fill whole buffer");
}

#[test]
fn frame_too_short_for_version_rejected() {
    let mut buf = Vec::<u8>::new();
    buf.extend_from_slice(&1u32.to_be_bytes());
    buf.push(0x00);
    let err = gui::read_frame_sync(&buf).unwrap_err();
    assert!(gui::error_text(err).contains("too short"), "{}", gui::error_text(err));
}

#[test]
fn gui_socket_path_format() {
    for s in [gui::gui_socket_path(Some("/run/user/7"), 7), gui::gui_socket_path(None, 7)] {
        assert!(s.contains("lixun-gui.sock") || s.contains("lixun-gui-"), "{s}");
    }
}

// -- preview ----------------------------------------------------------------

fn commands_roundtrip(messages: &[&str]) {
    let mut codec: PreviewBinCodec = PreviewBinCodec::new();
    let mut peer: DaemonPreviewCodec = DaemonPreviewCodec::new();
    let mut buf = BytesMut::new();
    for message in messages {
        peer.encode(message.as_bytes(), &mut buf).unwrap();
    }
    for message in messages {
        let payload = codec.decode(&mut buf).unwrap().unwrap();
        assert_eq!(serde_json::from_slice::<serde_json::Value>(&payload).unwrap(), json(message));
        codec.accept();
    }
    assert!(codec.decode(&mut buf).unwrap().is_none());
}

fn events_roundtrip(messages: &[&str]) {
    let mut codec: DaemonPreviewCodec = DaemonPreviewCodec::new();
    let mut peer: PreviewBinCodec = PreviewBinCodec::new();
    let mut buf = BytesMut::new();
    for message in messages {
        peer.encode(message.as_bytes(), &mut buf).unwrap();
    }
    for message in messages {
        let payload = codec.decode(&mut buf).unwrap().unwrap();
        assert_eq!(serde_json::from_slice::<serde_json::Value>(&payload).unwrap(), json(message));
        codec.accept();
    }
}

#[test]
fn command_roundtrip_show_or_update() {
    commands_roundtrip(&[&format!(
        "{{\"kind\":\"show_or_update\",\"epoch\":7,\"hit\":{HIT},\"monitor\":\"eDP-1\"}}"
    )]);
}

#[test]
fn command_roundtrip_close_and_ping() {
    commands_roundtrip(&[r#"{"kind":"close","epoch":3}"#, r#"{"kind":"ping"}"#]);
}

#[test]
fn event_roundtrip_ready_closed_error() {
    events_roundtrip(&[
        r#"{"kind":"ready","pid":4242}"#,
        r#"{"kind":"closed","epoch":9}"#,
        r#"{"kind":"error","epoch":11,"msg":"boom"}"#,
    ]);
}

#[test]
fn command_roundtrip_set_parent_and_clear_parent() {
    commands_roundtrip(&[
        r#"{"kind":"set_parent","handle":"xdg-foreign-handle-abc123"}"#,
        r#"{"kind":"clear_parent"}"#,
    ]);
}

#[test]
fn event_roundtrip_parent_lost() {
    events_roundtrip(&[r#"{"kind":"parent_lost"}"#]);
}

#[test]
fn rejects_unsupported_version() {
    let mut codec: PreviewBinCodec = PreviewBinCodec::new();
    let err = codec.decode(&mut frame_of_version(999, b"{}")).unwrap_err();
    assert_eq!(err, FrameError::Version(999));
    assert!(!preview_ipc::error_text(err).is_empty());
}

#[test]
fn socket_path_is_pid_tagged_under_runtime_dir_or_tmp() {
    let fallback = preview_ipc::fallback_runtime_dir("/tmp", 7);
    for dir in ["/run/user/7", fallback.as_str()] {
        let s = preview_ipc::preview_socket_path(dir, 12345);
        assert!(
            s.contains("lixun-preview-12345.sock"),
            "expected pid-tagged socket name, got {}",
            s
        );
        assert!(s.starts_with(dir));
    }
}

#[test]
fn sync_helpers_roundtrip_through_pipe() {
    let buf = preview_ipc::write_frame_sync(br#"{"kind":"close","epoch":7}"#).unwrap();
    let decoded = preview_ipc::read_frame_sync(&buf).unwrap();
    assert_eq!(decoded, br#"{"kind":"close","epoch":7}"#);
}

#[test]
fn sync_read_rejects_unsupported_version() {
    let mut buf: Vec<u8> = Vec::new();
    buf.extend_from_slice(&4u32.to_be_bytes());
    buf.extend_from_slice(&999u16.to_be_bytes());
    buf.extend_from_slice(b"{}");
    let err = preview_ipc::read_frame_sync(&buf).unwrap_err();
    assert_eq!(err, FrameError::Version(999));
    assert!(!preview_ipc::sync_error_text(err).is_empty());
}
