//! Token grammars read out of media URLs and remote page bodies: the stream
//! instance id embedded in a media URL, and the identity handle and room id
//! scanned out of a live page. Each scanner returns the leftmost match, as
//! its contract states.

use vstd::prelude::*;
use crate::text::{
    matches_at, is_digit, is_word_char, is_plain_url_char, find_sub_from, find_char_from,
    digit_run_end, word_run_end, url_run_end, match_at, spec_find_char, lemma_spec_find_char,
};

verus! {

/// The digits of a stream-instance token start right after the marker at `i`
/// and run to `e`, where an underscore closes the token.
pub open spec fn stream_digits_end(s: Seq<char>, i: int, e: int) -> bool {
    &&& i + "stream-"@.len() < e < s.len()
    &&& s[e] == '_'
    &&& forall|k: int| i + "stream-"@.len() <= k < e ==> is_digit(s[k])
}

/// A full stream-instance token `stream-<digits>_` occurs at position `i`.
pub open spec fn stream_match_at(s: Seq<char>, i: int) -> bool {
    matches_at(s, "stream-"@, i) && exists|e: int| stream_digits_end(s, i, e)
}

/// `id` is the stream instance id of `s`: the digits of the leftmost
/// complete `stream-<digits>_` token.
pub open spec fn extracted_stream_id(s: Seq<char>, id: Seq<char>) -> bool {
    exists|i: int, e: int|
        #![trigger stream_digits_end(s, i, e)]
        {
            &&& stream_match_at(s, i)
            &&& forall|j: int| 0 <= j < i ==> !stream_match_at(s, j)
            &&& stream_digits_end(s, i, e)
            &&& id == s.subrange(i + "stream-"@.len(), e)
        }
}

/// No stream-instance token occurs in `s`.
pub open spec fn no_stream_id(s: Seq<char>) -> bool {
    forall|i: int| !stream_match_at(s, i)
}

/// Extract the stream instance id from a media URL: the digits of the
/// leftmost `stream-<digits>_` token. `None` when no such token occurs.
pub fn extract_stream_id(url: &str) -> (r: Option<String>)
    ensures
        match r {
            Some(id) => extracted_stream_id(url@, id@),
            None => no_stream_id(url@),
        },
{
    proof {
        reveal_strlit("stream-");
    }
    let n = url.unicode_len();
    let mut pos: usize = 0;
    loop
        invariant
            n == url@.len(),
            pos <= n,
            forall|j: int| 0 <= j < pos ==> !stream_match_at(url@, j),
        decreases n - pos,
    {
        proof {
            reveal_strlit("stream-");
        }
        match find_sub_from(url, "stream-", pos) {
            None => {
                assert(forall|j: int| 0 <= j ==> !stream_match_at(url@, j));
                return None;
            },
            Some(i) => {
                let d = i + 7;
                let e = digit_run_end(url, d);
                if e > d && e < n && url.get_char(e) == '_' {
                    assert(stream_digits_end(url@, i as int, e as int));
                    assert(forall|j: int| 0 <= j < i ==> !stream_match_at(url@, j));
                    let cap = url.substring_char(d, e).to_owned();
                    return Some(cap);
                } else {
                    proof {
                        assert forall|e2: int| !stream_digits_end(url@, i as int, e2) by {
                            if stream_digits_end(url@, i as int, e2) {
                                if e2 < e {
                                    assert(is_digit(url@[e2]));
                                    assert(url@[e2] == '_');
                                } else if e2 > e {
                                    assert(e < n);
                                    assert(is_digit(url@[e as int]));
                                }
                            }
                        }
                    }
                    pos = i + 1;
                }
            },
        }
    }
}

/// The stream instance id of a media URL, degraded to the sentinel
/// `unknown` when the URL carries no instance token.
pub fn stream_id_or_unknown(url: &str) -> (r: String)
    ensures
        no_stream_id(url@) ==> r@ == "unknown"@,
        !no_stream_id(url@) ==> extracted_stream_id(url@, r@),
{
    match extract_stream_id(url) {
        Some(id) => id,
        None => "unknown".to_owned(),
    }
}

/// One resolution attempt's product: the identity, the playable media URL
/// it resolved to, and the broadcast session that URL belongs to. Created
/// per attempt, immutable, discarded after the capture it feeds.
pub struct ResolvedStream {
    pub identity: String,
    pub media_url: String,
    pub stream_instance_id: String,
}

/// Bundle a resolved identity with its media URL, reading the broadcast
/// session id out of the URL (the sentinel `unknown` when it has none).
pub fn resolve_stream_instance(identity: String, media_url: String) -> (r: ResolvedStream)
    ensures
        r.identity == identity,
        r.media_url == media_url,
        no_stream_id(media_url@) ==> r.stream_instance_id@ == "unknown"@,
        !no_stream_id(media_url@) ==> extracted_stream_id(media_url@, r.stream_instance_id@),
{
    let stream_instance_id = stream_id_or_unknown(media_url.as_str());
    ResolvedStream { identity, media_url, stream_instance_id }
}

/// An identity handle `@<word-chars>` occurs at position `i`.
pub open spec fn username_match_at(s: Seq<char>, i: int) -> bool {
    0 <= i && i + 1 < s.len() && s[i] == '@' && is_word_char(s[i + 1])
}

/// The handle's characters run from `i + 1` to `e`, a maximal word run.
pub open spec fn username_run_end(s: Seq<char>, i: int, e: int) -> bool {
    &&& i + 1 < e <= s.len()
    &&& forall|k: int| i + 1 <= k < e ==> is_word_char(s[k])
    &&& e < s.len() ==> !is_word_char(s[e])
}

/// `u` is the identity handle of `s`: the maximal word run after the
/// leftmost `@` that one follows.
pub open spec fn extracted_username(s: Seq<char>, u: Seq<char>) -> bool {
    exists|i: int, e: int|
        #![trigger username_run_end(s, i, e)]
        {
            &&& username_match_at(s, i)
            &&& forall|j: int| 0 <= j < i ==> !username_match_at(s, j)
            &&& username_run_end(s, i, e)
            &&& u == s.subrange(i + 1, e)
        }
}

/// No identity handle occurs in `s`.
pub open spec fn no_username(s: Seq<char>) -> bool {
    forall|i: int| !username_match_at(s, i)
}

/// Extract the identity handle from a page body: the word characters after
/// the leftmost `@` that is followed by at least one word character.
pub fn extract_username(body: &str) -> (r: Option<String>)
    ensures
        match r {
            Some(u) => extracted_username(body@, u@),
            None => no_username(body@),
        },
{
    let n = body.unicode_len();
    let mut pos: usize = 0;
    loop
        invariant
            n == body@.len(),
            pos <= n,
            forall|j: int| 0 <= j < pos ==> !username_match_at(body@, j),
        decreases n - pos,
    {
        match find_char_from(body, '@', pos) {
            None => {
                assert(forall|j: int| 0 <= j ==> !username_match_at(body@, j));
                return None;
            },
            Some(i) => {
                if i + 1 < n {
                    let c = body.get_char(i + 1);
                    let v = c as u32;
                    let word = ('a' as u32 <= v && v <= 'z' as u32) || ('A' as u32 <= v && v
                        <= 'Z' as u32) || ('0' as u32 <= v && v <= '9' as u32) || c == '_';
                    if word {
                        let e = word_run_end(body, i + 1);
                        assert(username_run_end(body@, i as int, e as int));
                        let cap = body.substring_char(i + 1, e).to_owned();
                        return Some(cap);
                    }
                }
                pos = i + 1;
            },
        }
    }
}

/// A room-id token `room_id=<digits>` occurs at position `i`.
pub open spec fn room_id_match_at(s: Seq<char>, i: int) -> bool {
    matches_at(s, "room_id="@, i) && i + "room_id="@.len() < s.len() && is_digit(
        s[i + "room_id="@.len()],
    )
}

/// The id's digits run from the end of the marker to `e`, a maximal run.
pub open spec fn room_id_run_end(s: Seq<char>, i: int, e: int) -> bool {
    &&& i + "room_id="@.len() < e <= s.len()
    &&& forall|k: int| i + "room_id="@.len() <= k < e ==> is_digit(s[k])
    &&& e < s.len() ==> !is_digit(s[e])
}

/// `id` is the room id of `s`: the maximal digit run after the leftmost
/// `room_id=` marker one follows.
pub open spec fn extracted_room_id(s: Seq<char>, id: Seq<char>) -> bool {
    exists|i: int, e: int|
        #![trigger room_id_run_end(s, i, e)]
        {
            &&& room_id_match_at(s, i)
            &&& forall|j: int| 0 <= j < i ==> !room_id_match_at(s, j)
            &&& room_id_run_end(s, i, e)
            &&& id == s.subrange(i + "room_id="@.len(), e)
        }
}

/// No room-id token occurs in `s`.
pub open spec fn no_room_id(s: Seq<char>) -> bool {
    forall|i: int| !room_id_match_at(s, i)
}

/// Extract the room id from a page body: the digits after the leftmost
/// `room_id=` marker that is followed by at least one digit.
pub fn extract_room_id(body: &str) -> (r: Option<String>)
    ensures
        match r {
            Some(id) => extracted_room_id(body@, id@),
            None => no_room_id(body@),
        },
{
    proof {
        reveal_strlit("room_id=");
    }
    let n = body.unicode_len();
    let mut pos: usize = 0;
    loop
        invariant
            n == body@.len(),
            pos <= n,
            forall|j: int| 0 <= j < pos ==> !room_id_match_at(body@, j),
        decreases n - pos,
    {
        proof {
            reveal_strlit("room_id=");
        }
        match find_sub_from(body, "room_id=", pos) {
            None => {
                assert(forall|j: int| 0 <= j ==> !room_id_match_at(body@, j));
                return None;
            },
            Some(i) => {
                let d = i + 8;
                if d < n && crate::text::digit_at(body, d) {
                    let e = digit_run_end(body, d);
                    assert(room_id_run_end(body@, i as int, e as int));
                    let cap = body.substring_char(d, e).to_owned();
                    return Some(cap);
                }
                pos = i + 1;
            },
        }
    }
}

/// A display-name field ends at the closing quote `e`: the value between the
/// marker's final quote and `e` is non-empty and holds no quote.
pub open spec fn display_id_end(s: Seq<char>, i: int, e: int) -> bool {
    &&& i + "\"display_id\":\""@.len() < e < s.len()
    &&& s[e] == '"'
    &&& forall|k: int| i + "\"display_id\":\""@.len() <= k < e ==> s[k] != '"'
}

/// A `"display_id":"<name>"` field occurs at position `i`.
pub open spec fn display_id_match_at(s: Seq<char>, i: int) -> bool {
    matches_at(s, "\"display_id\":\""@, i) && exists|e: int| display_id_end(s, i, e)
}

/// `u` is the display name of `s`: the value of the leftmost complete
/// `"display_id":"..."` field.
pub open spec fn extracted_display_id(s: Seq<char>, u: Seq<char>) -> bool {
    exists|i: int, e: int|
        #![trigger display_id_end(s, i, e)]
        {
            &&& display_id_match_at(s, i)
            &&& forall|j: int| 0 <= j < i ==> !display_id_match_at(s, j)
            &&& display_id_end(s, i, e)
            &&& u == s.subrange(i + "\"display_id\":\""@.len(), e)
        }
}

/// No complete display-name field occurs in `s`.
pub open spec fn no_display_id(s: Seq<char>) -> bool {
    forall|i: int| !display_id_match_at(s, i)
}

/// Extract the broadcaster's display name from a structured room-info body:
/// the value of the leftmost complete `"display_id":"..."` field.
pub fn extract_display_id(body: &str) -> (r: Option<String>)
    ensures
        match r {
            Some(u) => extracted_display_id(body@, u@),
            None => no_display_id(body@),
        },
{
    let n = body.unicode_len();
    let mut pos: usize = 0;
    loop
        invariant
            n == body@.len(),
            pos <= n,
            forall|j: int| 0 <= j < pos ==> !display_id_match_at(body@, j),
        decreases n - pos,
    {
        proof {
            reveal_strlit("\"display_id\":\"");
        }
        match find_sub_from(body, "\"display_id\":\"", pos) {
            None => {
                assert(forall|j: int| 0 <= j ==> !display_id_match_at(body@, j));
                return None;
            },
            Some(i) => {
                let d = i + 14;
                match find_char_from(body, '"', d) {
                    Some(e) if e > d => {
                        assert(display_id_end(body@, i as int, e as int));
                        let cap = body.substring_char(d, e).to_owned();
                        return Some(cap);
                    },
                    _ => {
                        proof {
                            assert forall|e2: int| !display_id_end(body@, i as int, e2) by {
                                if display_id_end(body@, i as int, e2) {
                                    assert(body@[e2] == '"');
                                }
                            }
                        }
                        pos = i + 1;
                    },
                }
            },
        }
    }
}

/// An adaptive-manifest URL candidate: `https://` at `i`, plain URL
/// characters up to `k + 4`, and the manifest marker `m3u8` at `k`, at least
/// two characters into the URL's tail.
pub open spec fn m3u8_end_at(s: Seq<char>, i: int, k: int) -> bool {
    &&& matches_at(s, "https://"@, i)
    &&& i + "https://"@.len() + 2 <= k
    &&& matches_at(s, "m3u8"@, k)
    &&& forall|j: int| i + "https://"@.len() <= j < k + "m3u8"@.len() ==> is_plain_url_char(s[j])
}

/// `u` is the adaptive manifest URL of `s`: it starts at the leftmost
/// candidate and ends at that candidate's last reachable marker.
pub open spec fn extracted_m3u8(s: Seq<char>, u: Seq<char>) -> bool {
    exists|i: int, k: int|
        #![trigger m3u8_end_at(s, i, k)]
        {
            &&& m3u8_end_at(s, i, k)
            &&& forall|j: int, k2: int| 0 <= j < i ==> !m3u8_end_at(s, j, k2)
            &&& forall|k2: int| k2 > k ==> !m3u8_end_at(s, i, k2)
            &&& u == s.subrange(i, k + "m3u8"@.len())
        }
}

/// No adaptive manifest URL occurs in `s`.
pub open spec fn no_m3u8(s: Seq<char>) -> bool {
    forall|i: int, k: int| !m3u8_end_at(s, i, k)
}

/// Extract an adaptive manifest URL from a room-info body: the leftmost
/// `https://` whose unquoted tail reaches an `m3u8` marker, cut greedily at
/// the last such marker.
pub fn extract_m3u8_url(body: &str) -> (r: Option<String>)
    ensures
        match r {
            Some(u) => extracted_m3u8(body@, u@),
            None => no_m3u8(body@),
        },
{
    let n = body.unicode_len();
    let mut pos: usize = 0;
    loop
        invariant
            n == body@.len(),
            pos <= n,
            forall|j: int, k2: int| 0 <= j < pos ==> !m3u8_end_at(body@, j, k2),
        decreases n - pos,
    {
        proof {
            reveal_strlit("https://");
            reveal_strlit("m3u8");
        }
        match find_sub_from(body, "https://", pos) {
            None => {
                assert(forall|j: int, k2: int| 0 <= j ==> !m3u8_end_at(body@, j, k2));
                return None;
            },
            Some(i) => {
                let p = i + 8;
                let e = url_run_end(body, p);
                let found = last_m3u8_marker(body, p, e);
                match found {
                    Some(k) => {
                        assert(m3u8_end_at(body@, i as int, k as int));
                        proof {
                            assert forall|k2: int| k2 > k implies !m3u8_end_at(
                                body@,
                                i as int,
                                k2,
                            ) by {
                                if m3u8_end_at(body@, i as int, k2) {
                                    if k2 + 4 > e {
                                        if e < n {
                                            assert(is_plain_url_char(body@[e as int]));
                                        }
                                    }
                                }
                            }
                        }
                        let cap = body.substring_char(i, k + 4).to_owned();
                        return Some(cap);
                    },
                    None => {
                        proof {
                            assert forall|k2: int| !m3u8_end_at(body@, i as int, k2) by {
                                if m3u8_end_at(body@, i as int, k2) {
                                    if k2 + 4 > e {
                                        if e < n {
                                            assert(is_plain_url_char(body@[e as int]));
                                        }
                                    }
                                }
                            }
                        }
                        pos = i + 1;
                    },
                }
            },
        }
    }
}

/// Position of the rightmost `m3u8` marker that ends within `[p + 6, e]`,
/// starting at least two characters after `p`.
fn last_m3u8_marker(body: &str, p: usize, e: usize) -> (found: Option<usize>)
    requires
        p <= e <= body@.len(),
    ensures
        match found {
            Some(k) => p + 2 <= k && k + "m3u8"@.len() <= e && matches_at(
                body@,
                "m3u8"@,
                k as int,
            ) && forall|k2: int|
                k < k2 && k2 + "m3u8"@.len() <= e ==> !matches_at(body@, "m3u8"@, k2),
            None => forall|k2: int|
                p + 2 <= k2 && k2 + "m3u8"@.len() <= e ==> !matches_at(body@, "m3u8"@, k2),
        },
{
    proof {
        reveal_strlit("m3u8");
    }
    let n = body.unicode_len();
    if e - p < 6 {
        return None;
    }
    let mut k = e - 4;
    loop
        invariant
            n == body@.len(),
            p + 2 <= k,
            k + 4 <= e,
            e <= n,
            "m3u8"@.len() == 4,
            forall|k2: int| k < k2 && k2 + 4 <= e ==> !matches_at(body@, "m3u8"@, k2),
        decreases k,
    {
        proof {
            reveal_strlit("m3u8");
        }
        if match_at(body, "m3u8", k) {
            return Some(k);
        }
        if k == p + 2 {
            return None;
        }
        k -= 1;
    }
}

/// The direct-file URLs listed in a room-info body, scanned from `pos`: the
/// contents of successive quoted values whose content is more than the
/// `.flv` suffix it ends with. A value that does not qualify may still open
/// the next candidate at its closing quote.
pub open spec fn flv_urls_from(s: Seq<char>, pos: int) -> Seq<Seq<char>>
    decreases s.len() - pos,
    when 0 <= pos <= s.len()
{
    match spec_find_char(s, '"', pos) {
        None => Seq::empty(),
        Some(q1) => match spec_find_char(s, '"', q1 + 1) {
            None => Seq::empty(),
            Some(q2) => {
                proof {
                    lemma_spec_find_char(s, '"', pos);
                    lemma_spec_find_char(s, '"', q1 + 1);
                }
                if q2 - q1 >= 6 && matches_at(s, ".flv"@, q2 - 4) {
                    seq![s.subrange(q1 + 1, q2)] + flv_urls_from(s, q2 + 1)
                } else {
                    flv_urls_from(s, q1 + 1)
                }
            },
        },
    }
}

/// Extract every direct-file URL candidate from a room-info body.
pub fn extract_flv_urls(body: &str) -> (r: Vec<String>)
    ensures
        r.deep_view() == flv_urls_from(body@, 0),
{
    flv_urls_from_exec(body, 0)
}

fn flv_urls_from_exec(body: &str, pos: usize) -> (r: Vec<String>)
    requires
        pos <= body@.len(),
    ensures
        r.deep_view() == flv_urls_from(body@, pos as int),
    decreases body@.len() - pos,
{
    proof {
        reveal_strlit(".flv");
    }
    let n = body.unicode_len();
    match find_char_from(body, '"', pos) {
        None => {
            let r: Vec<String> = Vec::new();
            assert(r.deep_view() =~= flv_urls_from(body@, pos as int));
            r
        },
        Some(q1) => {
            match find_char_from(body, '"', q1 + 1) {
                None => {
                    let r: Vec<String> = Vec::new();
                    assert(r.deep_view() =~= flv_urls_from(body@, pos as int));
                    r
                },
                Some(q2) => {
                    if q2 - q1 >= 6 && match_at(body, ".flv", q2 - 4) {
                        let content = body.substring_char(q1 + 1, q2).to_owned();
                        let mut r: Vec<String> = Vec::new();
                        r.push(content);
                        let mut rest = flv_urls_from_exec(body, q2 + 1);
                        let ghost rest0 = rest.deep_view();
                        r.append(&mut rest);
                        assert(r.deep_view() =~= seq![
                            body@.subrange(q1 + 1 as int, q2 as int),
                        ] + rest0);
                        r
                    } else {
                        let r = flv_urls_from_exec(body, q1 + 1);
                        assert(flv_urls_from(body@, pos as int) == flv_urls_from(
                            body@,
                            q1 + 1,
                        ));
                        r
                    }
                },
            }
        },
    }
}

/// Scan a live page body for both tokens the resolver needs: the identity
/// handle and the numeric room id. `None` when either is missing.
pub fn scan_live_page(body: &str) -> (r: Option<(String, String)>)
    ensures
        match r {
            Some(p) => extracted_username(body@, p.0@) && extracted_room_id(body@, p.1@),
            None => no_username(body@) || no_room_id(body@),
        },
{
    match extract_username(body) {
        None => None,
        Some(u) => match extract_room_id(body) {
            None => None,
            Some(rid) => Some((u, rid)),
        },
    }
}

} // verus!
