use nicodl::bytes::{contains_sub, ends_with, find_byte, hex_decode, slice_eq, starts_with};
use nicodl::bytes::parse_i32;
use nicodl::web::{
    blob_is_html, blob_is_oekaki_png, classify_transcode_status, clips_next_page,
    extract_data_src, extract_image_ids, html_shows_login, seiga_page_missing,
    seiga_page_private, series_page_done, tags_next_page,
};
use nicodl::Error;

#[test]
fn hex_decoding() {
    assert_eq!(hex_decode(b"0f10"), Some(vec![15u8, 16]));
    assert_eq!(hex_decode(b"DEADbeef"), Some(vec![0xDE, 0xAD, 0xBE, 0xEF]));
    assert_eq!(hex_decode(b""), Some(Vec::new()));
    assert_eq!(hex_decode(b"abc"), None);
    assert_eq!(hex_decode(b"zz"), None);
}

#[test]
fn byte_searches() {
    assert!(contains_sub(b"hello world", b"lo wo"));
    assert!(!contains_sub(b"hello", b"world"));
    assert!(contains_sub(b"abc", b""));
    assert!(starts_with(b"abc", b"ab"));
    assert!(!starts_with(b"abc", b"bc"));
    assert!(ends_with(b"seg0.cmfv", b"cmfv"));
    assert!(!ends_with(b"seg0.cmfa", b"cmfv"));
    assert!(slice_eq(b"same", b"same"));
    assert!(!slice_eq(b"same", b"sane"));
    assert_eq!(find_byte(b"a,b,c", b',', 0), Some(1));
    assert_eq!(find_byte(b"a,b,c", b',', 2), Some(3));
    assert_eq!(find_byte(b"a,b,c", b'x', 0), None);
}

#[test]
fn login_marker_detection() {
    assert!(!html_shows_login(b"{\"login_status\":\"not_login\"}"));
    assert!(html_shows_login(b"{\"login_status\":\"login\"}"));
}

#[test]
fn seiga_page_state_detection() {
    let missing = "<html>ページが見つかりません</html>".as_bytes();
    let private = "<html>この画像は非公開設定です</html>".as_bytes();
    let normal = "<html><h1 class=\"title\">t</h1></html>".as_bytes();
    assert!(seiga_page_missing(missing));
    assert!(!seiga_page_missing(normal));
    assert!(seiga_page_private(private));
    assert!(!seiga_page_private(normal));
}

#[test]
fn blob_classification() {
    assert!(blob_is_html(b"<html><body>503</body></html>"));
    assert!(!blob_is_html(b"\x89PNG\r\n"));
    assert!(blob_is_oekaki_png(&[0xEF, 0xBF, 0xBD, 0x50, 0x4E, 0x47, 1, 2]));
    assert!(!blob_is_oekaki_png(b"<html>"));
    assert!(!blob_is_oekaki_png(&[0xEF, 0xBF]));
}

#[test]
fn transcode_status_classification() {
    assert_eq!(classify_transcode_status(Some(220)), Err(Error::LongFileName));
    assert_eq!(classify_transcode_status(Some(0)), Ok(()));
    assert_eq!(classify_transcode_status(Some(1)), Ok(()));
    assert_eq!(classify_transcode_status(None), Ok(()));
}

#[test]
fn series_pagination() {
    assert!(!series_page_done(100, 1));
    assert!(series_page_done(99, 1));
    assert!(series_page_done(250, 3));
    assert!(!series_page_done(250, 2));
}

#[test]
fn image_ids_from_listing_lines() {
    let clips = b"<div>\n<a href=\"/seiga/im123\">one</a>\n<p>noise</p>\n<a href=\"/seiga/im456\">two</a>\n";
    let ids = extract_image_ids(clips, 1);
    assert_eq!(ids, vec![b"im123".to_vec(), b"im456".to_vec()]);
    let tags = b"<li class=\"item\"><a href=\"/seiga/im77\">x</a>\n";
    let ids = extract_image_ids(tags, 3);
    assert_eq!(ids, vec![b"im77".to_vec()]);
    assert_eq!(extract_image_ids(b"<p>nothing here</p>\n", 1), Vec::<Vec<u8>>::new());
}

#[test]
fn clip_listing_pagination() {
    let more = b"<div>\n<span class=\"page_now\">1</span>|<span><a href=\"?page=2&amp;sort=x\">next</a></span>\n";
    assert_eq!(clips_next_page(more), Some(Some(2)));
    let last = b"<div>\n<span class=\"page_now\">3</span>|<span class=\"nolink\">next</span>\n";
    assert_eq!(clips_next_page(last), Some(None));
    assert_eq!(clips_next_page(b"<div>no pagination</div>\n"), None);
}

#[test]
fn tag_listing_pagination() {
    let more = b"<li class=\"next\"><a href=\"/tag/x?page=4&amp;sort=y\">n</a></li>\n";
    assert_eq!(tags_next_page(more), Some(Some(4)));
    let last = b"<li class=\"next disabled\">n</li>\n";
    assert_eq!(tags_next_page(last), Some(None));
    assert_eq!(tags_next_page(b"<p>plain</p>\n"), None);
}

#[test]
fn image_source_extraction() {
    let page = b"<div>\n<img data-src=\"https://lohas.example/priv/1234\" alt=\"x\">\n";
    assert_eq!(
        extract_data_src(page),
        Some(b"https://lohas.example/priv/1234".to_vec())
    );
    assert_eq!(extract_data_src(b"<div>nothing</div>\n"), None);
}

#[test]
fn decimal_parsing() {
    assert_eq!(parse_i32(b"0"), Some(0));
    assert_eq!(parse_i32(b"42"), Some(42));
    assert_eq!(parse_i32(b"2147483647"), Some(2147483647));
    assert_eq!(parse_i32(b"2147483648"), None);
    assert_eq!(parse_i32(b""), None);
    assert_eq!(parse_i32(b"12a"), None);
    assert_eq!(parse_i32(b"-5"), None);
}
