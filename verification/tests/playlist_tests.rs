use nicodl::playlist::{
    fetch_plan, key_query, make_key_material, parse_master_playlist, parse_media_playlist,
    render_master_playlist, render_media_playlist, rewrite_master, rewrite_media, select_tracks,
    strip_key, url_to_filename,
};
use nicodl::Error;

const MASTER: &[u8] = b"#EXTM3U\n\
#EXT-X-STREAM-INF:BANDWIDTH=1000,RESOLUTION=1920x1080,CODECS=\"avc1.64001f,mp4a.40.2\"\n\
v.m3u8\n\
#EXT-X-MEDIA:TYPE=AUDIO,GROUP-ID=\"audio-high\",NAME=\"Main\",URI=\"a.m3u8\"\n";

const MEDIA: &[u8] = b"#EXTM3U\n\
#EXT-X-VERSION:6\n\
#EXT-X-KEY:METHOD=AES-128,URI=\"https://h/key\",IV=0x000102030405060708090a0b0c0d0e0f\n\
#EXTINF:6.0,\n\
https://cdn.example/video/seg0.cmfv?x=1\n\
#EXTINF:6.0,\n\
https://cdn.example/video/seg1.cmfv?x=2\n\
#EXT-X-ENDLIST\n";

#[test]
fn filename_strips_query_and_path() {
    assert_eq!(
        url_to_filename(b"https://cdn.example/video/seg0.cmfv?x=1", b"cmfv"),
        Some(b"seg0.cmfv".to_vec())
    );
    assert_eq!(
        url_to_filename(b"https://cdn.example/a/b/init.cmfa", b"cmfa"),
        Some(b"init.cmfa".to_vec())
    );
    assert_eq!(url_to_filename(b"https://cdn.example/x.ts?q=1", b"cmfv"), None);
}

#[test]
fn master_selection_takes_first_variant_and_alternative() {
    let m = parse_master_playlist(MASTER);
    let (video, audio) = select_tracks(&m).unwrap();
    assert_eq!(video, b"v.m3u8".to_vec());
    assert_eq!(audio, b"a.m3u8".to_vec());
}

#[test]
fn master_without_variant_is_refused() {
    let m = parse_master_playlist(b"#EXTM3U\nplain.m3u8\n");
    assert_eq!(select_tracks(&m).err(), Some(Error::ParsePlaylist));
}

#[test]
fn key_resolution_finds_first_key_and_decodes_iv() {
    let mut p = parse_media_playlist(MEDIA);
    let kr = key_query(&p).unwrap().expect("a key reference");
    assert_eq!(kr.uri, b"https://h/key".to_vec());
    assert_eq!(kr.iv, b"0x000102030405060708090a0b0c0d0e0f".to_vec());
    let key_bytes = [9u8; 16];
    let km = make_key_material(&key_bytes, &kr.iv).unwrap();
    assert_eq!(km.key, key_bytes.to_vec());
    assert_eq!(
        km.iv,
        vec![0u8, 1, 2, 3, 4, 5, 6, 7, 8, 9, 10, 11, 12, 13, 14, 15]
    );
    strip_key(&mut p, kr.index);
    assert!(key_query(&p).unwrap().is_none());
}

#[test]
fn key_material_rejects_bad_inputs() {
    assert_eq!(
        make_key_material(&[0u8; 15], b"0x000102030405060708090a0b0c0d0e0f").err(),
        Some(Error::ParsePlaylist)
    );
    assert_eq!(
        make_key_material(&[0u8; 16], b"000102030405060708090a0b0c0d0e0f").err(),
        Some(Error::ParsePlaylist)
    );
    assert_eq!(
        make_key_material(&[0u8; 16], b"0x0001").err(),
        Some(Error::ParsePlaylist)
    );
    assert_eq!(
        make_key_material(&[0u8; 16], b"0x0001020304050607_8090a0b0c0d0e0f").err(),
        Some(Error::ParsePlaylist)
    );
}

#[test]
fn keyless_playlist_yields_no_reference() {
    let p = parse_media_playlist(b"#EXTM3U\n#EXTINF:6.0,\nseg0.cmfv\n");
    assert!(key_query(&p).unwrap().is_none());
}

#[test]
fn fetch_plan_lists_segments_in_order() {
    let p = parse_media_playlist(MEDIA);
    let plan = fetch_plan(&p, b"cmfv").unwrap();
    assert_eq!(plan.len(), 2);
    assert_eq!(plan[0].url, b"https://cdn.example/video/seg0.cmfv?x=1".to_vec());
    assert_eq!(plan[0].name, b"seg0.cmfv".to_vec());
    assert!(!plan[0].is_map);
    assert_eq!(plan[1].name, b"seg1.cmfv".to_vec());
}

#[test]
fn fetch_plan_covers_initialization_map() {
    let p = parse_media_playlist(
        b"#EXT-X-MAP:URI=\"https://cdn.example/init.cmfv?x=9\"\n#EXTINF:6.0,\nhttps://cdn.example/seg.cmfv\n",
    );
    let plan = fetch_plan(&p, b"cmfv").unwrap();
    assert_eq!(plan.len(), 2);
    assert!(plan[0].is_map);
    assert_eq!(plan[0].url, b"https://cdn.example/init.cmfv?x=9".to_vec());
    assert_eq!(plan[0].name, b"init.cmfv".to_vec());
    assert!(!plan[1].is_map);
}

#[test]
fn fetch_plan_rejects_foreign_extension() {
    let p = parse_media_playlist(b"#EXTINF:6.0,\nhttps://cdn.example/seg.ts\n");
    assert_eq!(fetch_plan(&p, b"cmfv").err(), Some(Error::ParsePlaylist));
}

#[test]
fn end_to_end_rewrite_produces_local_playlist_tree() {
    // The master names one video variant and one audio alternative; the
    // media playlist lists two keyed segments. After processing, both
    // segment URIs are local file names, the key tag is gone, and the
    // master points at the two local playlists.
    let mut master = parse_master_playlist(MASTER);
    let (video_uri, audio_uri) = select_tracks(&master).unwrap();
    assert_eq!(video_uri, b"v.m3u8".to_vec());
    assert_eq!(audio_uri, b"a.m3u8".to_vec());

    let mut video = parse_media_playlist(MEDIA);
    let kr = key_query(&video).unwrap().unwrap();
    strip_key(&mut video, kr.index);
    let plan = fetch_plan(&video, b"cmfv").unwrap();
    let names: Vec<Vec<u8>> = plan.iter().map(|f| f.name.clone()).collect();
    assert_eq!(names, vec![b"seg0.cmfv".to_vec(), b"seg1.cmfv".to_vec()]);
    rewrite_media(&mut video, b"cmfv").unwrap();
    let video_text = render_media_playlist(&video);
    assert_eq!(
        video_text,
        b"#EXTM3U\n\
#EXT-X-VERSION:6\n\
#EXTINF:6.0,\n\
seg0.cmfv\n\
#EXTINF:6.0,\n\
seg1.cmfv\n\
#EXT-X-ENDLIST\n"
            .to_vec()
    );

    rewrite_master(&mut master).unwrap();
    let master_text = render_master_playlist(&master);
    assert_eq!(
        master_text,
        b"#EXTM3U\n\
#EXT-X-STREAM-INF:BANDWIDTH=1000,RESOLUTION=1920x1080,CODECS=\"avc1.64001f,mp4a.40.2\"\n\
video.m3u8\n\
#EXT-X-MEDIA:TYPE=AUDIO,GROUP-ID=\"audio-high\",NAME=\"Main\",URI=\"audio.m3u8\"\n"
            .to_vec()
    );
}

#[test]
fn map_uri_is_rewritten_in_place() {
    let mut p = parse_media_playlist(
        b"#EXT-X-MAP:URI=\"https://cdn.example/init.cmfa?x=9\",BYTERANGE=\"100@0\"\n#EXTINF:6.0,\nhttps://cdn.example/a0.cmfa\n",
    );
    rewrite_media(&mut p, b"cmfa").unwrap();
    assert_eq!(
        render_media_playlist(&p),
        b"#EXT-X-MAP:URI=\"init.cmfa\",BYTERANGE=\"100@0\"\n#EXTINF:6.0,\na0.cmfa\n".to_vec()
    );
}

#[test]
fn carriage_returns_are_stripped_from_lines() {
    let p = parse_media_playlist(b"#EXTM3U\r\n#EXTINF:6.0,\r\nseg0.cmfv\r\n");
    let plan = fetch_plan(&p, b"cmfv").unwrap();
    assert_eq!(plan.len(), 1);
    assert_eq!(plan[0].name, b"seg0.cmfv".to_vec());
}
