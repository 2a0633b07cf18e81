use nicodl::session::{
    build_outputs_request, build_session_request, first_endpoint, heartbeat_due, heartbeat_url,
    json_string_field, parse_session_response, select_best_track, DeliverySession,
    HeartbeatHandle, TrackInfo, HEARTBEAT_INTERVAL_MS,
};
use nicodl::Error;

fn sample_session() -> DeliverySession {
    DeliverySession {
        recipe_id: b"rid".to_vec(),
        content_id: b"cid".to_vec(),
        video_src_id: b"v1".to_vec(),
        audio_src_id: b"a1".to_vec(),
        heartbeat_lifetime: 120000,
        token: b"tok".to_vec(),
        signature: b"sig".to_vec(),
        player_id: b"player".to_vec(),
        auth_type: b"ht2".to_vec(),
        content_key_timeout: 600000,
        service_user_id: b"u55".to_vec(),
        transfer_preset: b"".to_vec(),
        use_well_known_port: true,
        use_ssl: true,
        priority: b"0.8".to_vec(),
        urls: vec![b"https://api.example/api/sessions".to_vec()],
    }
}

#[test]
fn session_request_carries_the_exact_key_names() {
    let body = build_session_request(&sample_session());
    let text = String::from_utf8(body).unwrap();
    let expected = "{\"session\":{\"recipe_id\":\"rid\",\"content_id\":\"cid\",\
\"content_type\":\"movie\",\"content_src_id_sets\":[{\"content_src_ids\":[\
{\"src_id_to_mux\":{\"video_src_ids\":[\"v1\"],\"audio_src_ids\":[\"a1\"]}}]}],\
\"timing_constraint\":\"unlimited\",\"keep_method\":{\"heartbeat\":{\"lifetime\":120000}},\
\"protocol\":{\"name\":\"http\",\"parameters\":{\"http_parameters\":{\"parameters\":\
{\"hls_parameters\":{\"use_well_known_port\":\"yes\",\"use_ssl\":\"yes\",\
\"transfer_preset\":\"\",\"segment_duration\":6000}}}}},\"content_uri\":\"\",\
\"session_operation_auth\":{\"session_operation_auth_by_signature\":\
{\"token\":\"tok\",\"signature\":\"sig\"}},\
\"content_auth\":{\"auth_type\":\"ht2\",\"content_key_timeout\":600000,\
\"service_id\":\"nicovideo\",\"service_user_id\":\"u55\"},\
\"client_info\":{\"player_id\":\"player\"},\"priority\":0.8}}";
    assert_eq!(text, expected);
}

#[test]
fn json_strings_are_escaped() {
    let mut s = sample_session();
    s.token = b"a\"b\\c".to_vec();
    let body = build_session_request(&s);
    let text = String::from_utf8(body).unwrap();
    assert!(text.contains("\"token\":\"a\\\"b\\\\c\""));
}

#[test]
fn outputs_request_pairs_the_chosen_tracks() {
    assert_eq!(
        build_outputs_request(b"video-h264-1080p", b"audio-aac-192kbps"),
        b"{\"outputs\":[[\"video-h264-1080p\",\"audio-aac-192kbps\"]]}".to_vec()
    );
}

#[test]
fn negotiation_reads_content_uri_and_id() {
    let body = b"{\"data\":{\"session\":{\"content_uri\":\"http://x/master.m3u8\",\"id\":\"abc\"}}}";
    let info = parse_session_response(body).unwrap();
    assert_eq!(info.content_uri, b"http://x/master.m3u8".to_vec());
    assert_eq!(info.session_id, b"abc".to_vec());
}

#[test]
fn negotiation_fails_without_session_fields() {
    let body = b"{\"meta\":{\"status\":403}}";
    assert_eq!(
        parse_session_response(body).err(),
        Some(Error::SessionNegotiation)
    );
}

#[test]
fn heartbeat_addresses_the_session() {
    let url = heartbeat_url(b"https://api.example/api/sessions", b"abc");
    assert_eq!(url, b"https://api.example/api/sessions/abc".to_vec());
}

#[test]
fn heartbeat_fires_every_thirty_seconds() {
    assert_eq!(HEARTBEAT_INTERVAL_MS, 30_000);
    assert!(!heartbeat_due(0));
    assert!(!heartbeat_due(29_999));
    assert!(heartbeat_due(30_000));
    assert!(heartbeat_due(31_000));
}

#[test]
fn stop_prevents_further_heartbeats_and_is_idempotent() {
    let mut h = HeartbeatHandle::new();
    assert!(h.should_send());
    h.stop();
    assert!(!h.should_send());
    h.stop();
    assert!(!h.should_send());
    // Stopping a handle whose negotiation never ran is a no-op too.
    let mut fresh = HeartbeatHandle::new();
    fresh.stop();
    assert!(!fresh.should_send());
}

#[test]
fn json_field_extraction_is_first_occurrence() {
    let body = b"{\"id\":\"first\",\"inner\":{\"id\":\"second\"}}";
    assert_eq!(json_string_field(body, b"id"), Some(b"first".to_vec()));
    assert_eq!(json_string_field(body, b"missing"), None);
}

#[test]
fn first_endpoint_takes_the_first_candidate() {
    let s = sample_session();
    assert_eq!(
        first_endpoint(&s).unwrap(),
        b"https://api.example/api/sessions".to_vec()
    );
    let mut empty = sample_session();
    empty.urls = Vec::new();
    assert_eq!(first_endpoint(&empty).err(), Some(Error::SessionNegotiation));
}

#[test]
fn best_track_is_highest_available_quality() {
    let tracks = vec![
        TrackInfo { id: b"low".to_vec(), is_available: true, quality_level: 1 },
        TrackInfo { id: b"high".to_vec(), is_available: false, quality_level: 5 },
        TrackInfo { id: b"mid".to_vec(), is_available: true, quality_level: 3 },
        TrackInfo { id: b"mid2".to_vec(), is_available: true, quality_level: 3 },
    ];
    let i = select_best_track(&tracks).unwrap();
    assert_eq!(tracks[i].id, b"mid2".to_vec());
    let none = vec![TrackInfo { id: b"x".to_vec(), is_available: false, quality_level: 9 }];
    assert_eq!(select_best_track(&none), None);
    assert_eq!(select_best_track(&Vec::new()), None);
}
