//! The segment assembler: given the files recorded for one broadcast
//! instance, pick the ones that belong to it, order them by name (the
//! fixed-width timestamp makes that creation order), and plan the merge:
//! a direct copy for a single segment, a manifest-driven lossless
//! concatenation for several, and a reported failure for none.

use vstd::prelude::*;
use vstd::multiset::Multiset;
use crate::text::{
    matches_at, contains_pat, lex_lt, lex_le, str_eq, str_lex_lt, contains_sub, lemma_lex_total,
    lemma_lex_lt_le, lemma_lex_le_lt, match_at,
};

verus! {

/// `s` ends with `suffix`.
pub open spec fn ends_with(s: Seq<char>, suffix: Seq<char>) -> bool {
    s.len() >= suffix.len() && matches_at(s, suffix, s.len() - suffix.len())
}

/// Does `s` end with `suffix`?
pub fn ends_with_exec(s: &str, suffix: &str) -> (b: bool)
    ensures
        b == ends_with(s@, suffix@),
{
    let n = s.unicode_len();
    let m = suffix.unicode_len();
    if m > n {
        return false;
    }
    match_at(s, suffix, n - m)
}

/// A file recorded for the broadcast instance `sid`: its name carries the
/// instance id, it is in the recording format, and it is not the instance's
/// own concatenation manifest.
pub open spec fn is_instance_segment(name: Seq<char>, sid: Seq<char>, manifest: Seq<char>) -> bool {
    contains_pat(name, sid) && ends_with(name, ".mp4"@) && name != manifest
}

/// Sorted in (non-strict) lexicographic order.
pub open spec fn sorted_lex(s: Seq<Seq<char>>) -> bool {
    forall|i: int, j: int| 0 <= i < j < s.len() ==> lex_le(s[i], s[j])
}

/// From a directory listing, the segment files of instance `stream_id`, in
/// sorted name order: exactly the names that qualify, kept with their
/// multiplicity, arranged so that every earlier entry sorts at or before
/// every later one.
pub fn select_segments(names: &Vec<String>, stream_id: &str, manifest_name: &str) -> (r: Vec<
    String,
>)
    ensures
        r.deep_view().to_multiset() == names.deep_view().filter(
            |n: Seq<char>| is_instance_segment(n, stream_id@, manifest_name@),
        ).to_multiset(),
        sorted_lex(r.deep_view()),
{
    let ghost pred = |n: Seq<char>| is_instance_segment(n, stream_id@, manifest_name@);
    let mut picked: Vec<String> = Vec::new();
    let n = names.len();
    let mut i: usize = 0;
    while i < n
        invariant
            i <= n,
            n == names.len(),
            picked.deep_view() == names.deep_view().take(i as int).filter(pred),
            pred == (|n: Seq<char>| is_instance_segment(n, stream_id@, manifest_name@)),
        decreases n - i,
    {
        broadcast use vstd::seq_lib::group_seq_lib_default;

        let nm = &names[i];
        let keep = contains_sub(nm.as_str(), stream_id) && ends_with_exec(nm.as_str(), ".mp4")
            && !str_eq(nm.as_str(), manifest_name);
        proof {
            assert(names.deep_view().take(i + 1) =~= names.deep_view().take(i as int).push(
                names.deep_view()[i as int],
            ));
            names.deep_view().take(i as int).lemma_filter_push(names.deep_view()[i as int], pred);
        }
        if keep {
            assert(pred(names.deep_view()[i as int]));
            picked.push(nm.clone());
            proof {
                assert(picked.deep_view() =~= names.deep_view().take(i + 1).filter(pred));
            }
        } else {
            assert(!pred(names.deep_view()[i as int]));
            assert(picked.deep_view() =~= names.deep_view().take(i + 1).filter(pred));
        }
        i += 1;
    }
    proof {
        assert(names.deep_view().take(n as int) =~= names.deep_view());
    }
    sort_names(picked)
}

/// Sort file names lexicographically, keeping exactly the same names.
fn sort_names(input: Vec<String>) -> (r: Vec<String>)
    ensures
        r.deep_view().to_multiset() == input.deep_view().to_multiset(),
        sorted_lex(r.deep_view()),
{
    broadcast use vstd::seq_lib::group_seq_lib_default;
    broadcast use vstd::seq_lib::group_to_multiset_ensures;

    let n = input.len();
    let mut r: Vec<String> = Vec::new();
    let mut i: usize = 0;
    proof {
        assert(input.deep_view().take(0) =~= Seq::<Seq<char>>::empty());
        assert(r.deep_view() =~= Seq::<Seq<char>>::empty());
        assert(Seq::<Seq<char>>::empty().to_multiset() =~= Multiset::<Seq<char>>::empty());
    }
    while i < n
        invariant
            i <= n,
            n == input.len(),
            r.deep_view().to_multiset() == input.deep_view().take(i as int).to_multiset(),
            r.len() == i,
            sorted_lex(r.deep_view()),
        decreases n - i,
    {
        broadcast use vstd::seq_lib::group_seq_lib_default;
        broadcast use vstd::seq_lib::group_to_multiset_ensures;

        let x = input[i].clone();
        let ghost xv = x.deep_view();
        let ghost r0 = r.deep_view();
        let p = insert_position(&x, &r);
        proof {
            assert forall|k: int| 0 <= k < p implies lex_le(r0[k], xv) by {
                lemma_lex_total(xv, r0[k]);
            }
        }
        r.insert(p, x);
        proof {
            assert(r.deep_view() =~= r0.insert(p as int, xv));
            vstd::seq_lib::to_multiset_insert(r0, p as int, xv);
            assert(input.deep_view().take(i + 1) =~= input.deep_view().take(i as int).push(
                input.deep_view()[i as int],
            ));
            assert(r.deep_view().to_multiset() =~= input.deep_view().take(i + 1).to_multiset());
            let rd = r.deep_view();
            assert forall|a: int, b: int| 0 <= a < b < rd.len() implies lex_le(rd[a], rd[b]) by {
                if b < p {
                    assert(rd[a] == r0[a] && rd[b] == r0[b]);
                } else if a > p {
                    assert(rd[a] == r0[a - 1] && rd[b] == r0[b - 1]);
                } else if a == p {
                    // the new name sorts strictly before everything from p on
                    assert(rd[a] == xv && rd[b] == r0[b - 1]);
                    assert(lex_lt(xv, r0[p as int]));
                    if b - 1 > p {
                        lemma_lex_lt_le(xv, r0[p as int], r0[b - 1]);
                    }
                } else if b == p {
                    assert(rd[a] == r0[a] && rd[b] == xv);
                    assert(lex_le(r0[a], xv));
                } else {
                    // a < p < b: chain through the inserted name
                    assert(rd[a] == r0[a] && rd[b] == r0[b - 1]);
                    assert(lex_le(r0[a], xv));
                    assert(lex_lt(xv, r0[p as int]));
                    if b - 1 > p {
                        lemma_lex_lt_le(xv, r0[p as int], r0[b - 1]);
                    }
                    lemma_lex_le_lt(r0[a], xv, r0[b - 1]);
                }
            }
        }
        i += 1;
    }
    proof {
        assert(input.deep_view().take(n as int) =~= input.deep_view());
    }
    r
}

/// Where a new name belongs in a sorted list: the index of the first entry
/// it sorts strictly before.
fn insert_position(x: &String, r: &Vec<String>) -> (p: usize)
    ensures
        p <= r.len(),
        forall|k: int| 0 <= k < p ==> !lex_lt(x.deep_view(), r.deep_view()[k]),
        p < r.len() ==> lex_lt(x.deep_view(), r.deep_view()[p as int]),
{
    let n = r.len();
    let mut p: usize = 0;
    while p < n
        invariant
            p <= n,
            n == r.len(),
            forall|k: int| 0 <= k < p ==> !lex_lt(x.deep_view(), r.deep_view()[k]),
        decreases n - p,
    {
        if str_lex_lt(x.as_str(), r[p].as_str()) {
            return p;
        }
        p += 1;
    }
    p
}

/// A path with every backslash separator turned forward, the form the
/// recorder's manifest reader accepts on any platform.
pub open spec fn forward_slashed(s: Seq<char>) -> Seq<char> {
    s.map_values(|c: char| if c == '\\' { '/' } else { c })
}

/// Normalize a canonical path's separators for the manifest.
pub fn normalize_separators(path: &str) -> (r: String)
    ensures
        r@ == forward_slashed(path@),
{
    let n = path.unicode_len();
    let mut out = String::new();
    let mut i: usize = 0;
    proof {
        assert(out@ =~= forward_slashed(path@.take(0)));
    }
    while i < n
        invariant
            i <= n,
            n == path@.len(),
            out@ == forward_slashed(path@.take(i as int)),
        decreases n - i,
    {
        let c = path.get_char(i);
        if c == '\\' {
            out.append("/");
        } else {
            let piece = path.substring_char(i, i + 1);
            out.append(piece);
        }
        proof {
            reveal_strlit("/");
            assert("/"@ =~= seq!['/']);
            assert(out@ =~= forward_slashed(path@.take(i + 1)));
        }
        i += 1;
    }
    proof {
        assert(path@.take(n as int) =~= path@);
    }
    out
}

/// One manifest entry: the canonical path of a segment, in the line format
/// the recorder's concatenation mode reads.
pub open spec fn manifest_line(path: Seq<char>) -> Seq<char> {
    "file '"@ + path + "'\n"@
}

/// The whole manifest: one line per segment path, in the given order.
pub open spec fn manifest_text(paths: Seq<Seq<char>>) -> Seq<char>
    decreases paths.len(),
{
    if paths.len() == 0 {
        Seq::empty()
    } else {
        manifest_text(paths.drop_last()) + manifest_line(paths.last())
    }
}

/// Render the concatenation manifest for the given segment paths.
pub fn build_manifest(paths: &Vec<String>) -> (r: String)
    ensures
        r@ == manifest_text(paths.deep_view()),
{
    let mut out = String::new();
    let n = paths.len();
    let mut i: usize = 0;
    proof {
        assert(paths.deep_view().take(0) =~= Seq::<Seq<char>>::empty());
        assert(out@ =~= manifest_text(paths.deep_view().take(0)));
    }
    while i < n
        invariant
            i <= n,
            n == paths.len(),
            out@ == manifest_text(paths.deep_view().take(i as int)),
        decreases n - i,
    {
        out.append("file '");
        out.append(paths[i].as_str());
        out.append("'\n");
        proof {
            let dv = paths.deep_view();
            assert(dv.take(i + 1).drop_last() =~= dv.take(i as int));
            assert(dv.take(i + 1).last() == dv[i as int]);
            assert(out@ =~= manifest_text(dv.take(i as int)) + manifest_line(dv[i as int]));
        }
        i += 1;
    }
    proof {
        assert(paths.deep_view().take(n as int) =~= paths.deep_view());
    }
    out
}

/// What to do with the segments of one broadcast instance.
pub enum AssemblePlan {
    /// Nothing was recorded: report it, produce no artifact.
    NoSegments,
    /// One segment: copy it to the artifact path unchanged.
    CopySingle { source: String },
    /// Several segments: write the manifest and run the recorder's
    /// lossless concatenation mode over it.
    Concat { manifest: String },
}

/// Plan the assembly of the given (already selected and sorted) segments:
/// none reports `NoSegments`, exactly one is copied, two or more get a
/// manifest listing each of them in order.
pub fn plan_assembly(segments: &Vec<String>) -> (p: AssemblePlan)
    ensures
        match p {
            AssemblePlan::NoSegments => segments.len() == 0,
            AssemblePlan::CopySingle { source } => segments.len() == 1 && source@
                == segments.deep_view()[0],
            AssemblePlan::Concat { manifest } => segments.len() >= 2 && manifest@
                == manifest_text(segments.deep_view()),
        },
{
    if segments.len() == 0 {
        AssemblePlan::NoSegments
    } else if segments.len() == 1 {
        AssemblePlan::CopySingle { source: segments[0].clone() }
    } else {
        AssemblePlan::Concat { manifest: build_manifest(segments) }
    }
}

/// Why an assembly produced no artifact.
#[derive(Debug)]
pub enum AssembleError {
    /// No segment of the instance was found in the segment directory.
    NoSegmentsFound,
    /// The recorder's concatenation run exited with a failure; the raw
    /// segments remain on disk as the fallback.
    ConcatenationFailed,
}

/// The reported outcome of executing an assembly plan, given whether the
/// concatenation subprocess (when one ran) exited successfully.
pub fn assembly_outcome(plan: &AssemblePlan, concat_exit_ok: bool) -> (r: Result<
    (),
    AssembleError,
>)
    ensures
        match plan {
            AssemblePlan::NoSegments => r == Result::<(), AssembleError>::Err(
                AssembleError::NoSegmentsFound,
            ),
            AssemblePlan::CopySingle { .. } => r == Result::<(), AssembleError>::Ok(()),
            AssemblePlan::Concat { .. } => if concat_exit_ok {
                r == Result::<(), AssembleError>::Ok(())
            } else {
                r == Result::<(), AssembleError>::Err(AssembleError::ConcatenationFailed)
            },
        },
{
    match plan {
        AssemblePlan::NoSegments => Err(AssembleError::NoSegmentsFound),
        AssemblePlan::CopySingle { .. } => Ok(()),
        AssemblePlan::Concat { .. } => if concat_exit_ok {
            Ok(())
        } else {
            Err(AssembleError::ConcatenationFailed)
        },
    }
}

/// The byte content of a lossless concatenation: the segments' bytes, in
/// order, nothing added and nothing lost.
pub fn concat_segment_bytes(segments: &Vec<Vec<u8>>) -> (out: Vec<u8>)
    ensures
        out@ == segments.deep_view().flatten(),
{
    broadcast use vstd::seq_lib::group_seq_lib_default;

    let mut out: Vec<u8> = Vec::new();
    let n = segments.len();
    let mut i: usize = 0;
    proof {
        assert(segments.deep_view().take(0) =~= Seq::<Seq<u8>>::empty());
        assert(out@ =~= segments.deep_view().take(0).flatten());
    }
    while i < n
        invariant
            i <= n,
            n == segments.len(),
            out@ == segments.deep_view().take(i as int).flatten(),
        decreases n - i,
    {
        broadcast use vstd::seq_lib::group_seq_lib_default;

        let ghost before = out@;
        let seg = &segments[i];
        let m = seg.len();
        let mut j: usize = 0;
        while j < m
            invariant
                j <= m,
                m == seg.len(),
                out@ == before + seg@.take(j as int),
            decreases m - j,
        {
            out.push(seg[j]);
            proof {
                assert(out@ =~= before + seg@.take(j + 1));
            }
            j += 1;
        }
        proof {
            let dv = segments.deep_view();
            assert(seg@.take(m as int) =~= dv[i as int]);
            assert(dv.take(i + 1) =~= dv.take(i as int).push(dv[i as int]));
            dv.take(i as int).lemma_flatten_push(dv[i as int]);
            assert(out@ =~= dv.take(i + 1).flatten());
        }
        i += 1;
    }
    proof {
        assert(segments.deep_view().take(n as int) =~= segments.deep_view());
    }
    out
}

/// A single-segment assembly is a byte-identical copy: concatenating one
/// segment yields exactly its bytes.
pub proof fn lemma_single_segment_roundtrip(segments: Seq<Seq<u8>>)
    requires
        segments.len() == 1,
    ensures
        segments.flatten() == segments[0],
{
    assert(segments.drop_first().len() == 0);
    assert(segments.drop_first().flatten() =~= Seq::<u8>::empty());
    assert(segments.flatten() =~= segments[0] + segments.drop_first().flatten());
    assert(segments.flatten() =~= segments[0]);
}

} // verus!
