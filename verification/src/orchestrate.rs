//! What the orchestrator reads and writes between captures: the
//! `identity = value` lines of the monitored-identities snapshot, the
//! snapshot text itself, plain decimal configuration values, and the
//! claim-filter pass over one cycle's identity list.

use vstd::prelude::*;
use crate::text::{find_char_from, is_digit};
use crate::claims::ClaimStore;

verus! {

/// Whitespace that trimming strips from an entry's ends.
pub open spec fn is_space(c: char) -> bool {
    c == ' ' || c == '\t' || c == '\r' || c == '\n'
}

/// `s` without its leading whitespace.
pub open spec fn drop_leading(s: Seq<char>) -> Seq<char>
    decreases s.len(),
{
    if s.len() > 0 && is_space(s[0]) {
        drop_leading(s.drop_first())
    } else {
        s
    }
}

/// `s` without its trailing whitespace.
pub open spec fn drop_trailing(s: Seq<char>) -> Seq<char>
    decreases s.len(),
{
    if s.len() > 0 && is_space(s.last()) {
        drop_trailing(s.drop_last())
    } else {
        s
    }
}

/// `s` without whitespace at either end.
pub open spec fn trimmed(s: Seq<char>) -> Seq<char> {
    drop_trailing(drop_leading(s))
}

/// Dropping leading whitespace keeps the suffix that starts at the first
/// non-space position.
proof fn lemma_drop_leading(s: Seq<char>, k: int)
    requires
        0 <= k <= s.len(),
        forall|j: int| 0 <= j < k ==> is_space(s[j]),
        k < s.len() ==> !is_space(s[k]),
    ensures
        drop_leading(s) == s.skip(k),
    decreases k,
{
    if k == 0 {
        assert(s.skip(0) =~= s);
    } else {
        let t = s.drop_first();
        assert(forall|j: int| 0 <= j < k - 1 ==> is_space(t[j]));
        lemma_drop_leading(t, k - 1);
        assert(t.skip(k - 1) =~= s.skip(k));
    }
}

/// Dropping trailing whitespace keeps the prefix that ends after the last
/// non-space position.
proof fn lemma_drop_trailing(s: Seq<char>, k: int)
    requires
        0 <= k <= s.len(),
        forall|j: int| k <= j < s.len() ==> is_space(s[j]),
        k > 0 ==> !is_space(s[k - 1]),
    ensures
        drop_trailing(s) == s.take(k),
    decreases s.len(),
{
    if k == s.len() {
        if s.len() > 0 && is_space(s.last()) {
            assert(!is_space(s[k - 1]));
            assert(is_space(s[s.len() - 1]));
        }
        assert(s.take(k) =~= s);
    } else {
        let t = s.drop_last();
        assert(forall|j: int| k <= j < t.len() ==> is_space(t[j]));
        lemma_drop_trailing(t, k);
        assert(t.take(k) =~= s.take(k));
    }
}

/// How many whitespace characters `s` starts with.
fn leading_spaces(s: &str) -> (a: usize)
    ensures
        a <= s@.len(),
        forall|j: int| 0 <= j < a ==> is_space(s@[j]),
        a < s@.len() ==> !is_space(s@[a as int]),
{
    let n = s.unicode_len();
    let mut a: usize = 0;
    while a < n
        invariant
            a <= n,
            n == s@.len(),
            forall|j: int| 0 <= j < a ==> is_space(s@[j]),
        decreases n - a,
    {
        let c = s.get_char(a);
        if !(c == ' ' || c == '\t' || c == '\r' || c == '\n') {
            return a;
        }
        a += 1;
    }
    a
}

/// Where the trailing whitespace after position `a` begins.
fn trailing_from(s: &str, a: usize) -> (b: usize)
    requires
        a <= s@.len(),
    ensures
        a <= b <= s@.len(),
        forall|j: int| b <= j < s@.len() ==> is_space(s@[j]),
        b > a ==> !is_space(s@[b - 1]),
{
    let n = s.unicode_len();
    let mut b: usize = n;
    while b > a
        invariant
            a <= b <= n,
            n == s@.len(),
            forall|j: int| b <= j < n ==> is_space(s@[j]),
        decreases b,
    {
        let c = s.get_char(b - 1);
        if !(c == ' ' || c == '\t' || c == '\r' || c == '\n') {
            return b;
        }
        b -= 1;
    }
    b
}

/// Strip whitespace from both ends of a string.
pub fn trim_str(s: &str) -> (r: String)
    ensures
        r@ == trimmed(s@),
{
    let n = s.unicode_len();
    let a = leading_spaces(s);
    proof {
        lemma_drop_leading(s@, a as int);
    }
    let b = trailing_from(s, a);
    let mid = s.substring_char(a, b);
    proof {
        let lead = s@.skip(a as int);
        assert(mid@ =~= lead.take(b - a));
        if b == a {
            assert(forall|j: int| a <= j < n ==> is_space(s@[j]));
            assert(forall|j: int| 0 <= j < lead.len() ==> is_space(lead[j]));
            lemma_drop_trailing(lead, 0);
        } else {
            // b - 1 kept a non-space, everything from b on is space
            assert(!is_space(s@[b - 1]));
            assert(forall|j: int| b - a <= j < lead.len() ==> is_space(lead[j]));
            assert(!is_space(lead[b - a - 1]));
            lemma_drop_trailing(lead, b - a);
        }
    }
    mid.to_owned()
}

/// One snapshot entry, `identity = value`, read back: `Some` exactly when
/// the line holds a single `=`, with both sides trimmed.
pub fn parse_kv_line(line: &str) -> (r: Option<(String, String)>)
    ensures
        match r {
            Some(kv) => exists|p: int|
                #![trigger line@[p]]
                {
                    &&& 0 <= p < line@.len()
                    &&& line@[p] == '='
                    &&& forall|j: int| 0 <= j < line@.len() && j != p ==> line@[j] != '='
                    &&& kv.0@ == trimmed(line@.take(p))
                    &&& kv.1@ == trimmed(line@.skip(p + 1))
                },
            None => (forall|j: int| 0 <= j < line@.len() ==> line@[j] != '=') || exists|
                p1: int,
                p2: int,
            |
                0 <= p1 < p2 < line@.len() && #[trigger] line@[p1] == '=' && #[trigger] line@[p2]
                    == '=',
        },
{
    let n = line.unicode_len();
    match find_char_from(line, '=', 0) {
        None => None,
        Some(p) => {
            match find_char_from(line, '=', p + 1) {
                Some(_) => None,
                None => {
                    let left = line.substring_char(0, p);
                    let right = line.substring_char(p + 1, n);
                    proof {
                        assert(left@ =~= line@.take(p as int));
                        assert(right@ =~= line@.skip(p + 1));
                    }
                    let k = trim_str(left);
                    let v = trim_str(right);
                    Some((k, v))
                },
            }
        },
    }
}

/// One written snapshot line: `identity = value` and a newline.
pub open spec fn snapshot_line(user: Seq<char>, value: Seq<char>) -> Seq<char> {
    user + " = "@ + value + "\n"@
}

/// The whole snapshot: one line per resolved entry, in the given order.
pub open spec fn snapshot_text(entries: Seq<(Seq<char>, Seq<char>)>) -> Seq<char>
    decreases entries.len(),
{
    if entries.len() == 0 {
        Seq::empty()
    } else {
        snapshot_text(entries.drop_last()) + snapshot_line(entries.last().0, entries.last().1)
    }
}

/// Render the monitored-identities snapshot that overwrites the previous
/// one after a resolution sweep.
pub fn build_snapshot(entries: &Vec<(String, String)>) -> (r: String)
    ensures
        r@ == snapshot_text(entries.deep_view()),
{
    let mut out = String::new();
    let n = entries.len();
    let mut i: usize = 0;
    proof {
        assert(entries.deep_view().take(0) =~= Seq::<(Seq<char>, Seq<char>)>::empty());
        assert(out@ =~= snapshot_text(entries.deep_view().take(0)));
    }
    while i < n
        invariant
            i <= n,
            n == entries.len(),
            out@ == snapshot_text(entries.deep_view().take(i as int)),
        decreases n - i,
    {
        out.append(entries[i].0.as_str());
        out.append(" = ");
        out.append(entries[i].1.as_str());
        out.append("\n");
        proof {
            let dv = entries.deep_view();
            assert(dv.take(i + 1).drop_last() =~= dv.take(i as int));
            assert(dv.take(i + 1).last() == dv[i as int]);
            assert(out@ =~= snapshot_text(dv.take(i as int)) + snapshot_line(
                dv[i as int].0,
                dv[i as int].1,
            ));
        }
        i += 1;
    }
    proof {
        assert(entries.deep_view().take(n as int) =~= entries.deep_view());
    }
    out
}

/// Every character is a decimal digit.
pub open spec fn all_digits(s: Seq<char>) -> bool {
    forall|j: int| 0 <= j < s.len() ==> is_digit(s[j])
}

/// The number a digit string denotes.
pub open spec fn digits_value(s: Seq<char>) -> int
    decreases s.len(),
{
    if s.len() == 0 {
        0
    } else {
        digits_value(s.drop_last()) * 10 + (s.last() as u32 - '0' as u32)
    }
}

/// A digit string denotes a non-negative number.
proof fn lemma_digits_value_nonneg(s: Seq<char>)
    requires
        all_digits(s),
    ensures
        digits_value(s) >= 0,
    decreases s.len(),
{
    if s.len() > 0 {
        assert(all_digits(s.drop_last()));
        lemma_digits_value_nonneg(s.drop_last());
    }
}

/// A digit string denotes at least what any of its prefixes denotes.
proof fn lemma_digits_value_prefix(s: Seq<char>, k: int)
    requires
        all_digits(s),
        0 <= k <= s.len(),
    ensures
        digits_value(s.take(k)) <= digits_value(s),
    decreases s.len() - k,
{
    if k < s.len() {
        lemma_digits_value_prefix(s, k + 1);
        let t = s.take(k + 1);
        assert(all_digits(t));
        assert(t.drop_last() =~= s.take(k));
        lemma_digits_value_nonneg(s.take(k));
        assert(digits_value(t) == digits_value(s.take(k)) * 10 + (t.last() as u32 - '0' as u32));
        assert(digits_value(s.take(k)) * 10 >= digits_value(s.take(k))) by (nonlinear_arith)
            requires digits_value(s.take(k)) >= 0;
        assert(t.last() as u32 - '0' as u32 >= 0);
    } else {
        assert(s.take(k) =~= s);
    }
}

/// Read a configuration value: a non-empty all-digit string that fits in a
/// 64-bit count. `None` on an empty string, a non-digit, or a value too
/// large.
pub fn parse_u64(s: &str) -> (r: Option<u64>)
    ensures
        match r {
            Some(v) => s@.len() > 0 && all_digits(s@) && v as int == digits_value(s@),
            None => s@.len() == 0 || !all_digits(s@) || digits_value(s@) > u64::MAX,
        },
{
    let n = s.unicode_len();
    if n == 0 {
        return None;
    }
    let mut acc: u64 = 0;
    let mut i: usize = 0;
    while i < n
        invariant
            i <= n,
            n == s@.len(),
            forall|j: int| 0 <= j < i ==> is_digit(s@[j]),
            acc as int == digits_value(s@.take(i as int)),
        decreases n - i,
    {
        let c = s.get_char(i);
        let v = c as u32;
        if !('0' as u32 <= v && v <= '9' as u32) {
            return None;
        }
        let d: u64 = (v - '0' as u32) as u64;
        proof {
            assert(s@.take(i + 1).drop_last() =~= s@.take(i as int));
            assert(s@.take(i + 1).last() == s@[i as int]);
        }
        if acc > (u64::MAX - d) / 10 {
            // the next digit pushes the value past what fits
            proof {
                let full = digits_value(s@.take(i + 1));
                assert(full == acc as int * 10 + d);
                assert(acc as int * 10 + d > u64::MAX) by (nonlinear_arith)
                    requires
                        acc as int > ((u64::MAX - d) as int) / 10,
                        0 <= d <= 9,
                        acc as int >= 0,
                ;
                if all_digits(s@) {
                    lemma_digits_value_prefix(s@, i + 1);
                }
            }
            return None;
        }
        proof {
            assert(acc as int * 10 + d <= u64::MAX) by (nonlinear_arith)
                requires
                    acc as int <= ((u64::MAX - d) as int) / 10,
                    0 <= d <= 9,
                    acc as int >= 0,
            ;
        }
        acc = acc * 10 + d;
        i += 1;
    }
    proof {
        assert(s@.take(n as int) =~= s@);
    }
    Some(acc)
}

/// The configuration the orchestrator and resolver run with, loaded once
/// at startup from plain key-value pairs.
#[derive(Clone, Copy, PartialEq, Eq, Structural)]
pub struct CaptureConfig {
    /// The resolver's inter-attempt delay window.
    pub retry: crate::resolver::RetryPolicy,
    /// How many resolution requests may be outbound at once.
    pub id_check_concurrency: u64,
    /// Seconds between full resolution sweeps.
    pub live_urls_recheck_s: u64,
    /// How many identities one dispatch batch holds.
    pub chunks: u64,
    /// Seconds between dispatch batches.
    pub batch_pause_s: u64,
}

impl CaptureConfig {
    /// The delay window is an interval, and the concurrency and batch
    /// bounds admit work.
    pub open spec fn wf(&self) -> bool {
        self.retry.wf() && self.id_check_concurrency >= 1 && self.chunks >= 1
    }

    /// Assemble and validate a configuration: `Some` exactly when the
    /// delay window and the bounds are usable, with the given values.
    pub fn new(
        retry_delay_min: u64,
        retry_delay_max: u64,
        id_check_concurrency: u64,
        live_urls_recheck_s: u64,
        chunks: u64,
        batch_pause_s: u64,
    ) -> (r: Option<CaptureConfig>)
        ensures
            match r {
                Some(c) => {
                    &&& c.wf()
                    &&& c.retry.delay_min_ms == retry_delay_min
                    &&& c.retry.delay_max_ms == retry_delay_max
                    &&& c.id_check_concurrency == id_check_concurrency
                    &&& c.live_urls_recheck_s == live_urls_recheck_s
                    &&& c.chunks == chunks
                    &&& c.batch_pause_s == batch_pause_s
                },
                None => retry_delay_min > retry_delay_max || id_check_concurrency == 0 || chunks
                    == 0,
            },
    {
        if retry_delay_min > retry_delay_max || id_check_concurrency == 0 || chunks == 0 {
            return None;
        }
        Some(
            CaptureConfig {
                retry: crate::resolver::RetryPolicy {
                    delay_min_ms: retry_delay_min,
                    delay_max_ms: retry_delay_max,
                },
                id_check_concurrency,
                live_urls_recheck_s,
                chunks,
                batch_pause_s,
            },
        )
    }
}

/// What the identity-to-URL snapshot file deserializes to, when it is a
/// JSON object of strings; the entries come in the object's key order.
pub uninterp spec fn json_links_of(s: Seq<char>) -> Option<Seq<(Seq<char>, Seq<char>)>>;

/// Relies on serde_json::from_str with a `BTreeMap<String, String>`
/// target: deserialization reads the text alone, and a BTreeMap iterates
/// in key order, so the result is a function of the text; it is `None`
/// exactly when the text is not a JSON object of strings.
#[verifier::external_body]
fn parse_json_links(s: &str) -> (r: Option<Vec<(String, String)>>)
    ensures
        r.deep_view() == json_links_of(s@),
{
    let m: std::collections::BTreeMap<String, String> = match serde_json::from_str(s) {
        Ok(m) => m,
        Err(_) => return None,
    };
    Some(m.into_iter().collect())
}

/// Read the identity-to-URL snapshot the harvester refreshed: the entries
/// of the JSON object in the text, or `None` when the text is not one.
pub fn parse_stream_links(content: &str) -> (r: Option<Vec<(String, String)>>)
    ensures
        r.deep_view() == json_links_of(content@),
{
    parse_json_links(content)
}

/// The claim set after the first `k` identities of one cycle were offered
/// to the store in order: each is added exactly when no claim for it
/// existed at its turn.
pub open spec fn claims_after(s0: Seq<Seq<char>>, ids: Seq<Seq<char>>, k: int) -> Seq<Seq<char>>
    decreases k,
{
    if k <= 0 {
        s0
    } else {
        let prev = claims_after(s0, ids, k - 1);
        if prev.contains(ids[k - 1]) {
            prev
        } else {
            prev.push(ids[k - 1])
        }
    }
}

/// A claim once present stays present through the rest of the cycle's
/// claim pass.
pub proof fn lemma_claims_after_monotone(
    s0: Seq<Seq<char>>,
    ids: Seq<Seq<char>>,
    k1: int,
    k2: int,
    x: Seq<char>,
)
    requires
        0 <= k1 <= k2,
        claims_after(s0, ids, k1).contains(x),
    ensures
        claims_after(s0, ids, k2).contains(x),
    decreases k2 - k1,
{
    if k1 < k2 {
        let prev = claims_after(s0, ids, k2 - 1);
        lemma_claims_after_monotone(s0, ids, k1, k2 - 1, x);
        if !prev.contains(ids[k2 - 1]) {
            let j = choose|j: int| 0 <= j < prev.len() && prev[j] == x;
            assert(prev.push(ids[k2 - 1])[j] == x);
        }
    }
}

/// An identity is dispatched at most once per cycle: an entry the pass
/// freshly claimed leaves every later entry with the same identity
/// skipped.
pub proof fn lemma_no_double_dispatch(
    s0: Seq<Seq<char>>,
    ids: Seq<Seq<char>>,
    i: int,
    j: int,
)
    requires
        0 <= i < j < ids.len(),
        ids[i] == ids[j],
        !claims_after(s0, ids, i).contains(ids[i]),
    ensures
        claims_after(s0, ids, j).contains(ids[j]),
{
    let with_i = claims_after(s0, ids, i + 1);
    assert(with_i == claims_after(s0, ids, i).push(ids[i]));
    assert(with_i[with_i.len() - 1] == ids[i]);
    lemma_claims_after_monotone(s0, ids, i + 1, j, ids[i]);
}

/// One orchestrator cycle's claim pass: offer every identity of the
/// snapshot to the claim store in order. The result says, entry by entry,
/// whether the identity was freshly claimed — those are the dispatches;
/// an identity already claimed (or listed twice) is skipped.
pub fn claim_batch(store: &mut ClaimStore, ids: &Vec<String>) -> (dispatched: Vec<bool>)
    requires
        old(store).wf(),
    ensures
        final(store).wf(),
        dispatched@.len() == ids@.len(),
        final(store)@ == claims_after(old(store)@, ids.deep_view(), ids@.len() as int),
        forall|i: int|
            0 <= i < ids@.len() ==> (#[trigger] dispatched@[i]) == !claims_after(
                old(store)@,
                ids.deep_view(),
                i,
            ).contains(ids.deep_view()[i]),
{
    let mut dispatched: Vec<bool> = Vec::new();
    let n = ids.len();
    let mut i: usize = 0;
    while i < n
        invariant
            i <= n,
            n == ids.len(),
            store.wf(),
            dispatched@.len() == i,
            store@ == claims_after(old(store)@, ids.deep_view(), i as int),
            forall|k: int|
                0 <= k < i ==> (#[trigger] dispatched@[k]) == !claims_after(
                    old(store)@,
                    ids.deep_view(),
                    k,
                ).contains(ids.deep_view()[k]),
        decreases n - i,
    {
        let ok = store.try_claim(ids[i].as_str());
        dispatched.push(ok);
        i += 1;
    }
    dispatched
}

} // verus!
