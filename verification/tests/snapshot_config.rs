//! The orchestrator's data edges: snapshot lines, the JSON link map,
//! configuration values, timestamps and the per-cycle claim pass.

use livecap::claims::ClaimStore;
use livecap::orchestrate::{
    build_snapshot, claim_batch, parse_kv_line, parse_stream_links, parse_u64, trim_str,
    CaptureConfig,
};
use livecap::timefmt::{format_date, format_stamp, now, Timestamp};

#[test]
fn kv_lines_round_the_snapshot_format() {
    assert_eq!(
        parse_kv_line("alice = 12345"),
        Some(("alice".to_string(), "12345".to_string()))
    );
    assert_eq!(parse_kv_line("  bob=9  "), Some(("bob".to_string(), "9".to_string())));
    assert_eq!(parse_kv_line("no separator"), None);
    assert_eq!(parse_kv_line("a = b = c"), None);
    assert_eq!(parse_kv_line(" = "), Some(("".to_string(), "".to_string())));
}

#[test]
fn trimming_strips_only_the_ends() {
    assert_eq!(trim_str("  a b \t\r\n"), "a b");
    assert_eq!(trim_str(""), "");
    assert_eq!(trim_str(" \t "), "");
    assert_eq!(trim_str("plain"), "plain");
}

#[test]
fn snapshot_lists_one_line_per_entry() {
    let entries = vec![
        ("alice".to_string(), "111".to_string()),
        ("bob".to_string(), "222".to_string()),
    ];
    assert_eq!(build_snapshot(&entries), "alice = 111\nbob = 222\n");
    assert_eq!(build_snapshot(&Vec::new()), "");
}

#[test]
fn snapshot_lines_parse_back() {
    let entries = vec![("carol".to_string(), "31337".to_string())];
    let text = build_snapshot(&entries);
    let line = text.lines().next().unwrap();
    assert_eq!(
        parse_kv_line(line),
        Some(("carol".to_string(), "31337".to_string()))
    );
}

#[test]
fn stream_links_parse_from_json() {
    let content = "{\"bob\":\"https://cdn/b.flv\",\"alice\":\"https://cdn/a.flv\"}";
    let links = parse_stream_links(content).expect("a JSON object of strings parses");
    // entries come in key order
    assert_eq!(
        links,
        vec![
            ("alice".to_string(), "https://cdn/a.flv".to_string()),
            ("bob".to_string(), "https://cdn/b.flv".to_string()),
        ]
    );
    assert_eq!(parse_stream_links("{}"), Some(Vec::new()));
    assert_eq!(parse_stream_links("not json"), None);
    assert_eq!(parse_stream_links("{\"a\":1}"), None);
}

#[test]
fn config_values_parse_as_plain_decimals() {
    assert_eq!(parse_u64("0"), Some(0));
    assert_eq!(parse_u64("1500"), Some(1500));
    assert_eq!(parse_u64("18446744073709551615"), Some(u64::MAX));
    assert_eq!(parse_u64("18446744073709551616"), None);
    assert_eq!(parse_u64(""), None);
    assert_eq!(parse_u64("12x"), None);
    assert_eq!(parse_u64("-3"), None);
}

#[test]
fn config_validation() {
    let c = CaptureConfig::new(500, 1500, 8, 60, 10, 3).expect("a sane configuration loads");
    assert_eq!(c.retry.delay_min_ms, 500);
    assert_eq!(c.retry.delay_max_ms, 1500);
    assert_eq!(c.id_check_concurrency, 8);
    assert_eq!(c.chunks, 10);
    assert!(CaptureConfig::new(1500, 500, 8, 60, 10, 3).is_none());
    assert!(CaptureConfig::new(1, 2, 0, 60, 10, 3).is_none());
    assert!(CaptureConfig::new(1, 2, 8, 60, 0, 3).is_none());
}

#[test]
fn claim_pass_dispatches_each_identity_once() {
    let mut store = ClaimStore::new();
    assert!(store.try_claim("busy"));
    let ids = vec![
        "alice".to_string(),
        "busy".to_string(),
        "alice".to_string(),
        "bob".to_string(),
    ];
    let dispatched = claim_batch(&mut store, &ids);
    // already-claimed and repeated identities are skipped
    assert_eq!(dispatched, vec![true, false, false, true]);
    assert_eq!(store.active_count(), 3);
}

#[test]
fn claim_pass_over_nothing_claims_nothing() {
    let mut store = ClaimStore::new();
    let dispatched = claim_batch(&mut store, &Vec::new());
    assert!(dispatched.is_empty());
    assert_eq!(store.active_count(), 0);
}

#[test]
fn stamps_render_fixed_width() {
    let t = Timestamp { year: 987, month: 1, day: 9, hour: 0, minute: 5, second: 59 };
    assert_eq!(format_stamp(&t), "0987-01-09_00-05-59");
    assert_eq!(format_date(&t), "0987-01-09");
}

#[test]
fn clock_reading_is_well_formed() {
    let t = now();
    assert!(t.year <= 9999);
    assert!((1..=12).contains(&t.month));
    assert!((1..=31).contains(&t.day));
    assert!(t.hour <= 23);
    assert!(t.minute <= 59);
    assert!(t.second <= 59);
    // and renders at the fixed width that keeps names sorted
    assert_eq!(format_stamp(&t).len(), 19);
}
