//! The resolver: turns an identity into a playable media URL. One side is
//! the retry machine for the live-page scan — a bounded number of attempts
//! with a randomized delay between non-final ones, giving up with
//! `AllRetriesExhausted`. The other is the room-info classification: every
//! response falls into exactly one of four outcomes, and callers branch on
//! them — `NotLive` and `NotFound` are results, never errors.

use vstd::prelude::*;
use crate::ids::{
    extracted_display_id, no_display_id, extracted_m3u8, no_m3u8, extract_display_id,
    extract_m3u8_url, extract_flv_urls, flv_urls_from,
};
use crate::text::{contains_pat, contains_sub};

verus! {

/// How many resolution attempts one identity gets before the resolver
/// gives up.
pub const RETRIES: usize = 5;

/// The retry-delay window, in milliseconds, read from configuration.
#[derive(Clone, Copy, PartialEq, Eq, Structural)]
pub struct RetryPolicy {
    pub delay_min_ms: u64,
    pub delay_max_ms: u64,
}

impl RetryPolicy {
    /// The window is an interval.
    pub open spec fn wf(&self) -> bool {
        self.delay_min_ms <= self.delay_max_ms
    }
}

/// What one attempt against the live page produced: both tokens, or
/// nothing usable (a transport failure or a body without the token pair).
pub enum AttemptOutcome {
    Found { username: String, room_id: String },
    NoTokens,
}

/// What a full resolution run produced.
pub enum ResolveOutcome {
    Resolved { username: String, room_id: String },
    AllRetriesExhausted,
}

/// What to do after one attempt.
pub enum ResolverAction {
    /// Sleep this long, then attempt again.
    RetryAfter { delay_ms: u64 },
    /// Every attempt is spent: report `AllRetriesExhausted` and move on.
    GiveUp,
    /// Both tokens are in hand.
    Done { username: String, room_id: String },
}

/// The retry machine's state: how many attempts are spent.
pub struct ResolverState {
    pub attempts_used: usize,
}

/// A fresh retry machine.
pub fn resolver_start() -> (s: ResolverState)
    ensures
        s.attempts_used == 0,
{
    ResolverState { attempts_used: 0 }
}

/// Feed one attempt's outcome to the retry machine. A found token pair is
/// done; a failed non-final attempt asks for a retry after a delay drawn
/// from the policy window; the final failed attempt gives up.
pub fn resolver_step(state: &mut ResolverState, outcome: AttemptOutcome, policy: &RetryPolicy)
    -> (a: ResolverAction)
    requires
        old(state).attempts_used < RETRIES,
        policy.wf(),
    ensures
        final(state).attempts_used == old(state).attempts_used + 1,
        match outcome {
            AttemptOutcome::Found { username, room_id } => a == ResolverAction::Done {
                username,
                room_id,
            },
            AttemptOutcome::NoTokens => if old(state).attempts_used + 1 < RETRIES {
                a matches ResolverAction::RetryAfter { delay_ms }
                    && policy.delay_min_ms <= delay_ms <= policy.delay_max_ms
            } else {
                a == ResolverAction::GiveUp
            },
        },
{
    state.attempts_used = state.attempts_used + 1;
    match outcome {
        AttemptOutcome::Found { username, room_id } => ResolverAction::Done { username, room_id },
        AttemptOutcome::NoTokens => {
            if state.attempts_used < RETRIES {
                ResolverAction::RetryAfter { delay_ms: pick_retry_delay(policy) }
            } else {
                ResolverAction::GiveUp
            }
        },
    }
}

/// A randomized inter-attempt delay from the policy window; the jitter
/// defeats synchronized retry storms.
pub fn pick_retry_delay(policy: &RetryPolicy) -> (d: u64)
    requires
        policy.wf(),
    ensures
        policy.delay_min_ms <= d <= policy.delay_max_ms,
{
    rand_in_range(policy.delay_min_ms, policy.delay_max_ms)
}

/// Relies on rand::Rng::gen_range over an inclusive range on the
/// thread-local generator: the sample lies in the range, which the
/// `requires` keeps non-empty (gen_range panics on an empty range). The
/// draw is random, so nothing relates one call's result to another's.
#[verifier::external_body]
fn rand_in_range(lo: u64, hi: u64) -> (r: u64)
    requires
        lo <= hi,
    ensures
        lo <= r <= hi,
{
    rand::Rng::gen_range(&mut rand::thread_rng(), lo..=hi)
}

/// Drive a whole resolution from the outcomes the transport produced, one
/// per attempt: resolve at the first attempt that found the token pair;
/// with the first `RETRIES` attempts all empty-handed, every retry is
/// exhausted. The second result lists the inter-attempt delays, one per
/// non-final failed attempt, each within the policy window.
pub fn run_resolution(outcomes: &Vec<AttemptOutcome>, policy: &RetryPolicy) -> (r: (
    ResolveOutcome,
    Vec<u64>,
))
    requires
        policy.wf(),
        outcomes.len() >= RETRIES,
    ensures
        match r.0 {
            ResolveOutcome::Resolved { username, room_id } => exists|i: int|
                #![trigger outcomes@[i]]
                {
                    &&& 0 <= i < RETRIES
                    &&& (forall|j: int|
                        0 <= j < i ==> (#[trigger] outcomes@[j]) matches AttemptOutcome::NoTokens)
                    &&& outcomes@[i] == (AttemptOutcome::Found { username, room_id })
                    &&& r.1@.len() == i
                },
            ResolveOutcome::AllRetriesExhausted => (forall|i: int|
                0 <= i < RETRIES ==> (#[trigger] outcomes@[i]) matches AttemptOutcome::NoTokens)
                && r.1@.len() == RETRIES - 1,
        },
        forall|k: int|
            0 <= k < r.1@.len() ==> policy.delay_min_ms <= #[trigger] r.1@[k]
                <= policy.delay_max_ms,
{
    let mut st = resolver_start();
    let mut delays: Vec<u64> = Vec::new();
    loop
        invariant
            st.attempts_used < RETRIES,
            outcomes@.len() >= RETRIES,
            delays@.len() == st.attempts_used,
            policy.wf(),
            forall|j: int|
                0 <= j < st.attempts_used ==> (#[trigger] outcomes@[j]) matches
                    AttemptOutcome::NoTokens,
            forall|k: int|
                0 <= k < delays@.len() ==> policy.delay_min_ms <= #[trigger] delays@[k]
                    <= policy.delay_max_ms,
        decreases RETRIES - st.attempts_used,
    {
        let ghost used = st.attempts_used as int;
        let outcome = match &outcomes[st.attempts_used] {
            AttemptOutcome::Found { username, room_id } => AttemptOutcome::Found {
                username: username.clone(),
                room_id: room_id.clone(),
            },
            AttemptOutcome::NoTokens => AttemptOutcome::NoTokens,
        };
        proof {
            assert(outcome == outcomes@[used]);
        }
        match resolver_step(&mut st, outcome, policy) {
            ResolverAction::Done { username, room_id } => {
                proof {
                    assert(outcomes@[used] == (AttemptOutcome::Found { username, room_id }));
                }
                return (ResolveOutcome::Resolved { username, room_id }, delays);
            },
            ResolverAction::RetryAfter { delay_ms } => {
                delays.push(delay_ms);
            },
            ResolverAction::GiveUp => {
                proof {
                    assert(outcomes@[used] matches AttemptOutcome::NoTokens);
                    assert(used == RETRIES - 1);
                }
                return (ResolveOutcome::AllRetriesExhausted, delays);
            },
        }
    }
}

/// The four-way classification of a room-info response; callers branch on
/// it and treat none of these as an error.
pub enum FetchResult {
    /// The broadcast is live and a playable URL was chosen.
    UrlAndUsername { url: String, username: String },
    /// The endpoint answered 404 for this room.
    NotFound,
    /// The payload is live but holds no extractable URL — the usual
    /// symptom of throttling, surfaced loudly by callers.
    NoUrlInResponse,
    /// The payload's status flag says the room is not live.
    NotLive,
}

/// What a room-info body says before any URL probing: not live, live
/// without a readable broadcaster name, or live with the name and the URL
/// candidates scanned out of the body.
pub enum RoomInfo {
    NotFound,
    NotLive,
    NoUrlInResponse,
    Live { username: String, m3u8: Option<String>, flv: Vec<String> },
}

/// The live marker a room-info payload carries.
pub open spec fn live_status(s: Seq<char>) -> bool {
    contains_pat(s, "\"status\":2"@)
}

/// Classify a room-info response body. `not_found` reports whether the
/// transport saw a 404 status.
pub fn classify_room_info(not_found: bool, body: &str) -> (r: RoomInfo)
    ensures
        match r {
            RoomInfo::NotFound => not_found,
            RoomInfo::NotLive => !not_found && !live_status(body@),
            RoomInfo::NoUrlInResponse => !not_found && live_status(body@) && no_display_id(body@),
            RoomInfo::Live { username, m3u8, flv } => {
                &&& !not_found
                &&& live_status(body@)
                &&& extracted_display_id(body@, username@)
                &&& match m3u8 {
                    Some(u) => extracted_m3u8(body@, u@),
                    None => no_m3u8(body@),
                }
                &&& flv.deep_view() == flv_urls_from(body@, 0)
            },
        },
{
    if not_found {
        return RoomInfo::NotFound;
    }
    if !contains_sub(body, "\"status\":2") {
        return RoomInfo::NotLive;
    }
    match extract_display_id(body) {
        None => RoomInfo::NoUrlInResponse,
        Some(username) => RoomInfo::Live {
            username,
            m3u8: extract_m3u8_url(body),
            flv: extract_flv_urls(body),
        },
    }
}

/// Choose the playable URL of a live room: prefer the adaptive manifest
/// URL; else the probed direct-file URL that answered (as the final URL the
/// probe reported); else the first direct-file candidate unprobed; else
/// report that the response held no URL. `probe` is the outcome of probing
/// the candidates in order: the index of the first that answered, and the
/// URL it resolved to.
pub fn choose_stream_url(
    m3u8: Option<String>,
    flv: Vec<String>,
    probe: Option<(usize, String)>,
) -> (r: Option<String>)
    ensures
        match r {
            Some(u) => {
                ||| (m3u8 matches Some(mu) && u == mu)
                ||| (m3u8 is None && (probe matches Some(p) && p.0 < flv.len() && u == p.1))
                ||| {
                    &&& m3u8 is None
                    &&& (probe is None || (probe matches Some(p) && p.0 >= flv.len()))
                    &&& flv.len() > 0
                    &&& u@ == flv.deep_view()[0]
                }
            },
            None => {
                &&& m3u8 is None
                &&& (probe is None || (probe matches Some(p) && p.0 >= flv.len()))
                &&& flv.len() == 0
            },
        },
{
    if let Some(mu) = m3u8 {
        return Some(mu);
    }
    if let Some((idx, final_url)) = probe {
        if idx < flv.len() {
            return Some(final_url);
        }
    }
    if flv.len() > 0 {
        let first = flv[0].clone();
        return Some(first);
    }
    None
}

/// Combine classification and URL choice into the resolver's four-way
/// result: a live room whose body or probing yielded no URL is
/// `NoUrlInResponse`.
pub fn resolve_media(info: RoomInfo, probe: Option<(usize, String)>) -> (r: FetchResult)
    ensures
        match info {
            RoomInfo::NotFound => r == FetchResult::NotFound,
            RoomInfo::NotLive => r == FetchResult::NotLive,
            RoomInfo::NoUrlInResponse => r == FetchResult::NoUrlInResponse,
            RoomInfo::Live { username, m3u8, flv } => match r {
                FetchResult::UrlAndUsername { url, username: u2 } => {
                    &&& u2 == username
                    &&& ({
                        ||| (m3u8 matches Some(mu) && url == mu)
                        ||| (m3u8 is None && (probe matches Some(p) && p.0 < flv.len() && url
                            == p.1))
                        ||| {
                            &&& m3u8 is None
                            &&& (probe is None || (probe matches Some(p) && p.0 >= flv.len()))
                            &&& flv.len() > 0
                            &&& url@ == flv.deep_view()[0]
                        }
                    })
                },
                FetchResult::NoUrlInResponse => m3u8 is None && flv.len() == 0,
                _ => false,
            },
        },
{
    match info {
        RoomInfo::NotFound => FetchResult::NotFound,
        RoomInfo::NotLive => FetchResult::NotLive,
        RoomInfo::NoUrlInResponse => FetchResult::NoUrlInResponse,
        RoomInfo::Live { username, m3u8, flv } => {
            let picked = choose_stream_url(m3u8, flv, probe);
            match picked {
                Some(url) => FetchResult::UrlAndUsername { url, username },
                None => FetchResult::NoUrlInResponse,
            }
        },
    }
}

} // verus!
