//! The token scanners: stream instance ids, identity handles, room ids,
//! display names and media URLs read out of page and payload bodies.

use livecap::ids::{
    extract_display_id, extract_flv_urls, extract_m3u8_url, extract_room_id, extract_stream_id,
    extract_username, scan_live_page, stream_id_or_unknown,
};
use livecap::text::{contains_sub, str_eq, str_lex_lt};

#[test]
fn stream_id_from_media_url() {
    let url = "https://cdn.example.com/live/stream-4711_main.flv?sig=x";
    assert_eq!(extract_stream_id(url), Some("4711".to_string()));
}

#[test]
fn stream_id_picks_leftmost_complete_token() {
    let url = "stream-12.mp4 stream-345_take stream-678_later";
    assert_eq!(extract_stream_id(url), Some("345".to_string()));
}

#[test]
fn stream_id_requires_digits_and_underscore() {
    assert_eq!(extract_stream_id("stream-_x"), None);
    assert_eq!(extract_stream_id("stream-123x"), None);
    assert_eq!(extract_stream_id("no marker here"), None);
}

#[test]
fn stream_id_sentinel_when_absent() {
    assert_eq!(stream_id_or_unknown("https://cdn/x.mp4"), "unknown".to_string());
    assert_eq!(stream_id_or_unknown("a stream-9_b"), "9".to_string());
}

#[test]
fn username_from_page() {
    let body = "<a href=\"/@alice_01/live\">watch</a>";
    assert_eq!(extract_username(body), Some("alice_01".to_string()));
}

#[test]
fn username_skips_bare_at() {
    let body = "mail @ example, then @bob";
    assert_eq!(extract_username(body), Some("bob".to_string()));
    assert_eq!(extract_username("just an @ sign"), None);
}

#[test]
fn room_id_from_page() {
    let body = "...room_id=998877&aid=1";
    assert_eq!(extract_room_id(body), Some("998877".to_string()));
    assert_eq!(extract_room_id("room_id=x1"), None);
}

#[test]
fn live_page_scan_needs_both_tokens() {
    let body = "<meta>@carol</meta> share?room_id=5544 more";
    assert_eq!(scan_live_page(body), Some(("carol".to_string(), "5544".to_string())));
    assert_eq!(scan_live_page("@carol only"), None);
    assert_eq!(scan_live_page("room_id=5544 only"), None);
}

#[test]
fn display_id_from_room_info() {
    let body = "{\"data\":{\"owner\":{\"display_id\":\"dave-live\"}}}";
    assert_eq!(extract_display_id(body), Some("dave-live".to_string()));
    assert_eq!(extract_display_id("{\"display_id\":\"\"}"), None);
    assert_eq!(extract_display_id("{\"other\":1}"), None);
}

#[test]
fn m3u8_url_prefers_last_marker_of_first_candidate() {
    let body = "{\"hls\":\"https://pull.example.com/l/abc.m3u8?x=1.m3u8\",\"z\":2}";
    assert_eq!(
        extract_m3u8_url(body),
        Some("https://pull.example.com/l/abc.m3u8?x=1.m3u8".to_string())
    );
    assert_eq!(extract_m3u8_url("{\"u\":\"https://a.b/c.mp4\"}"), None);
}

#[test]
fn m3u8_url_needs_two_characters_before_the_marker() {
    // the marker may come no sooner than two characters into the tail
    assert_eq!(extract_m3u8_url("\"https://abm3u8\""), Some("https://abm3u8".to_string()));
    assert_eq!(extract_m3u8_url("\"https://am3u8\""), None);
}

#[test]
fn flv_urls_in_listed_order() {
    let body = "{\"a\":\"https://e.com/one.flv\",\"b\":\"nope\",\"c\":\"https://e.com/two.flv\"}";
    let urls = extract_flv_urls(body);
    assert_eq!(
        urls,
        vec!["https://e.com/one.flv".to_string(), "https://e.com/two.flv".to_string()]
    );
}

#[test]
fn substring_and_order_helpers() {
    assert!(contains_sub("abcdef", "cde"));
    assert!(!contains_sub("abcdef", "gh"));
    assert!(str_eq("same", "same"));
    assert!(!str_eq("same", "Same"));
    assert!(str_lex_lt("a", "b"));
    assert!(str_lex_lt("ab", "abc"));
    assert!(!str_lex_lt("abc", "ab"));
    assert!(!str_lex_lt("x", "x"));
}
