//! The resolver: bounded retries with jittered delays, and the four-way
//! classification of room-info responses.

use livecap::resolver::{
    choose_stream_url, classify_room_info, pick_retry_delay, resolve_media, resolver_start,
    resolver_step, run_resolution, AttemptOutcome, FetchResult, ResolveOutcome, ResolverAction,
    RetryPolicy, RoomInfo, RETRIES,
};

fn policy() -> RetryPolicy {
    RetryPolicy { delay_min_ms: 10, delay_max_ms: 30 }
}

#[test]
fn all_failures_exhaust_exactly_the_retry_budget() {
    let outcomes: Vec<AttemptOutcome> = (0..RETRIES).map(|_| AttemptOutcome::NoTokens).collect();
    let (outcome, delays) = run_resolution(&outcomes, &policy());
    assert!(matches!(outcome, ResolveOutcome::AllRetriesExhausted));
    // one inter-attempt delay per non-final attempt, each within the window
    assert_eq!(delays.len(), RETRIES - 1);
    for d in delays {
        assert!((10..=30).contains(&d));
    }
}

#[test]
fn resolution_stops_at_the_first_find() {
    let outcomes = vec![
        AttemptOutcome::NoTokens,
        AttemptOutcome::NoTokens,
        AttemptOutcome::Found { username: "alice".to_string(), room_id: "77".to_string() },
        AttemptOutcome::NoTokens,
        AttemptOutcome::NoTokens,
    ];
    let (outcome, delays) = run_resolution(&outcomes, &policy());
    match outcome {
        ResolveOutcome::Resolved { username, room_id } => {
            assert_eq!(username, "alice");
            assert_eq!(room_id, "77");
        },
        _ => panic!("must resolve at the third attempt"),
    }
    assert_eq!(delays.len(), 2);
}

#[test]
fn first_attempt_success_sleeps_never() {
    let outcomes = vec![
        AttemptOutcome::Found { username: "bea".to_string(), room_id: "1".to_string() },
        AttemptOutcome::NoTokens,
        AttemptOutcome::NoTokens,
        AttemptOutcome::NoTokens,
        AttemptOutcome::NoTokens,
    ];
    let (outcome, delays) = run_resolution(&outcomes, &policy());
    assert!(matches!(outcome, ResolveOutcome::Resolved { .. }));
    assert!(delays.is_empty());
}

#[test]
fn step_machine_counts_attempts() {
    let mut st = resolver_start();
    let p = policy();
    for used in 1..RETRIES {
        match resolver_step(&mut st, AttemptOutcome::NoTokens, &p) {
            ResolverAction::RetryAfter { delay_ms } => {
                assert!((10..=30).contains(&delay_ms));
            },
            _ => panic!("attempt {} of {} must retry", used, RETRIES),
        }
    }
    assert!(matches!(
        resolver_step(&mut st, AttemptOutcome::NoTokens, &p),
        ResolverAction::GiveUp
    ));
}

#[test]
fn retry_delay_stays_in_the_window() {
    let p = RetryPolicy { delay_min_ms: 100, delay_max_ms: 107 };
    for _ in 0..50 {
        let d = pick_retry_delay(&p);
        assert!((100..=107).contains(&d));
    }
    let fixed = RetryPolicy { delay_min_ms: 55, delay_max_ms: 55 };
    assert_eq!(pick_retry_delay(&fixed), 55);
}

#[test]
fn not_found_wins_over_everything() {
    let info = classify_room_info(true, "{\"status\":2,\"display_id\":\"x\"}");
    assert!(matches!(info, RoomInfo::NotFound));
    assert!(matches!(resolve_media(info, None), FetchResult::NotFound));
}

#[test]
fn status_other_than_live_is_not_live() {
    let info = classify_room_info(false, "{\"status\":4,\"display_id\":\"x\"}");
    assert!(matches!(info, RoomInfo::NotLive));
    assert!(matches!(resolve_media(info, None), FetchResult::NotLive));
}

#[test]
fn live_without_any_url_is_no_url_in_response() {
    // "status":2 and a readable name, but no URL pattern: likely throttled
    let body = "{\"status\":2,\"display_id\":\"dave\"}";
    let info = classify_room_info(false, body);
    match &info {
        RoomInfo::Live { username, m3u8, flv } => {
            assert_eq!(username, "dave");
            assert!(m3u8.is_none());
            assert!(flv.is_empty());
        },
        _ => panic!("live payload with a name classifies as Live"),
    }
    assert!(matches!(resolve_media(info, None), FetchResult::NoUrlInResponse));
    // without even a readable name the classification is already NoUrl
    let bare = classify_room_info(false, "{\"status\":2}");
    assert!(matches!(bare, RoomInfo::NoUrlInResponse));
    assert!(matches!(resolve_media(bare, None), FetchResult::NoUrlInResponse));
}

#[test]
fn live_with_manifest_url_prefers_it() {
    let body = "{\"status\":2,\"display_id\":\"dave\",\
                \"hls\":\"https://pull.e.com/x.m3u8\",\"f\":\"https://pull.e.com/x.flv\"}";
    let info = classify_room_info(false, body);
    match resolve_media(info, None) {
        FetchResult::UrlAndUsername { url, username } => {
            assert_eq!(url, "https://pull.e.com/x.m3u8");
            assert_eq!(username, "dave");
        },
        _ => panic!("a live payload with a manifest URL resolves"),
    }
}

#[test]
fn url_choice_follows_probe_then_first_candidate() {
    let flvs = vec!["https://a/one.flv".to_string(), "https://a/two.flv".to_string()];
    // a successful probe supplies the final redirected URL
    let probed = choose_stream_url(
        None,
        flvs.clone(),
        Some((1, "https://cdn.real/two.flv".to_string())),
    );
    assert_eq!(probed, Some("https://cdn.real/two.flv".to_string()));
    // no probe answered: fall back to the first candidate unprobed
    let fallback = choose_stream_url(None, flvs.clone(), Some((2, "x".to_string())));
    assert_eq!(fallback, Some("https://a/one.flv".to_string()));
    let none = choose_stream_url(None, Vec::new(), None);
    assert_eq!(none, None);
    // the manifest URL always wins
    let manifest = choose_stream_url(Some("https://m/x.m3u8".to_string()), flvs, None);
    assert_eq!(manifest, Some("https://m/x.m3u8".to_string()));
}
