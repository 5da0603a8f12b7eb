//! The capture worker: names the segment file for one claimed identity,
//! hands the recorder its argument list, and on completion always runs the
//! assembler and releases the claim, whatever the recorder and the
//! assembler reported. Releasing on every exit path is the worker's one
//! hard obligation, stated by `finish_capture`.

use vstd::prelude::*;
use crate::text::{lex_lt, lemma_lex_concat};
use crate::timefmt::{Timestamp, spec_stamp, spec_date, format_stamp, format_date,
    lemma_stamp_monotonic};
use crate::claims::ClaimStore;
use crate::assembler::{AssemblePlan, AssembleError, assembly_outcome};

verus! {

/// The name of a segment file: identity, stream instance id and the
/// fixed-width capture stamp, joined by underscores, in the recording
/// format.
pub open spec fn spec_segment_name(user: Seq<char>, sid: Seq<char>, stamp: Seq<char>) -> Seq<
    char,
> {
    user + "_"@ + sid + "_"@ + stamp + ".mp4"@
}

/// The name of the final artifact: identity, stream instance id and the
/// capture date.
pub open spec fn spec_artifact_name(user: Seq<char>, sid: Seq<char>, date: Seq<char>) -> Seq<
    char,
> {
    user + "_"@ + sid + "_"@ + date + ".mp4"@
}

/// The name of the instance's concatenation manifest.
pub open spec fn spec_manifest_name(user: Seq<char>, sid: Seq<char>) -> Seq<char> {
    user + "_"@ + sid + "_concat.txt"@
}

/// Render the segment file name for a capture starting at `ts`.
pub fn segment_file_name(user: &str, sid: &str, ts: &Timestamp) -> (r: String)
    requires
        ts.wf(),
    ensures
        r@ == spec_segment_name(user@, sid@, spec_stamp(*ts)),
{
    let mut out = String::new();
    out.append(user);
    out.append("_");
    out.append(sid);
    out.append("_");
    let stamp = format_stamp(ts);
    out.append(stamp.as_str());
    out.append(".mp4");
    proof {
        assert(out@ =~= spec_segment_name(user@, sid@, spec_stamp(*ts)));
    }
    out
}

/// Render the artifact file name for a capture of day `ts`.
pub fn artifact_file_name(user: &str, sid: &str, ts: &Timestamp) -> (r: String)
    requires
        ts.wf(),
    ensures
        r@ == spec_artifact_name(user@, sid@, spec_date(*ts)),
{
    let mut out = String::new();
    out.append(user);
    out.append("_");
    out.append(sid);
    out.append("_");
    let date = format_date(ts);
    out.append(date.as_str());
    out.append(".mp4");
    proof {
        assert(out@ =~= spec_artifact_name(user@, sid@, spec_date(*ts)));
    }
    out
}

/// Render the manifest file name of the instance.
pub fn manifest_file_name(user: &str, sid: &str) -> (r: String)
    ensures
        r@ == spec_manifest_name(user@, sid@),
{
    let mut out = String::new();
    out.append(user);
    out.append("_");
    out.append(sid);
    out.append("_concat.txt");
    proof {
        assert(out@ =~= spec_manifest_name(user@, sid@));
    }
    out
}

/// Segment names of one instance order by capture time: the timestamp is
/// the only varying part and renders fixed-width, so an earlier capture's
/// name sorts strictly first.
pub proof fn lemma_segment_name_monotonic(
    user: Seq<char>,
    sid: Seq<char>,
    t1: Timestamp,
    t2: Timestamp,
)
    requires
        t1.wf(),
        t2.wf(),
        t1.lt(&t2),
    ensures
        lex_lt(
            spec_segment_name(user, sid, spec_stamp(t1)),
            spec_segment_name(user, sid, spec_stamp(t2)),
        ),
{
    let prefix = user + "_"@ + sid + "_"@;
    let s1 = spec_stamp(t1);
    let s2 = spec_stamp(t2);
    lemma_stamp_monotonic(t1, t2);
    lemma_lex_concat(s1, s2, ".mp4"@, ".mp4"@);
    lemma_lex_concat(prefix, prefix, s1 + ".mp4"@, s2 + ".mp4"@);
    assert(spec_segment_name(user, sid, s1) =~= prefix + (s1 + ".mp4"@));
    assert(spec_segment_name(user, sid, s2) =~= prefix + (s2 + ".mp4"@));
}

/// Segment ordering is stable and monotonic with the capture time: in any
/// sorted listing of one instance's segments — the order the manifest
/// lists them in — the segment captured earlier stands strictly before the
/// one captured later.
pub proof fn lemma_sorted_segments_follow_time(
    names: Seq<Seq<char>>,
    user: Seq<char>,
    sid: Seq<char>,
    t1: Timestamp,
    t2: Timestamp,
    i: int,
    j: int,
)
    requires
        crate::assembler::sorted_lex(names),
        0 <= i < names.len(),
        0 <= j < names.len(),
        names[i] == spec_segment_name(user, sid, spec_stamp(t1)),
        names[j] == spec_segment_name(user, sid, spec_stamp(t2)),
        t1.wf(),
        t2.wf(),
        t1.lt(&t2),
    ensures
        i < j,
{
    lemma_segment_name_monotonic(user, sid, t1, t2);
    assert(lex_lt(names[i], names[j]));
    crate::text::lemma_lex_lt_irrefl(names[i]);
    if j < i {
        assert(crate::text::lex_le(names[j], names[i]));
        crate::text::lemma_lex_lt_asym(names[i], names[j]);
    }
}

/// The recorder's capture argument list: stream copy, no re-encode, the
/// audio bitstream filter for container compatibility, reconnect on EOF and
/// on stream break with a bounded reconnect delay, and a bounded connection
/// timeout.
pub fn recorder_capture_args(url: &str, segment_path: &str) -> (r: Vec<String>)
    ensures
        r.deep_view() =~= seq![
            "-i"@,
            url@,
            "-reconnect"@,
            "1"@,
            "-reconnect_at_eof"@,
            "1"@,
            "-reconnect_streamed"@,
            "1"@,
            "-reconnect_delay_max"@,
            "1"@,
            "-timeout"@,
            "30"@,
            "-c"@,
            "copy"@,
            "-bsf:a"@,
            "aac_adtstoasc"@,
            segment_path@,
        ],
{
    let mut r: Vec<String> = Vec::new();
    r.push("-i".to_owned());
    r.push(url.to_owned());
    r.push("-reconnect".to_owned());
    r.push("1".to_owned());
    r.push("-reconnect_at_eof".to_owned());
    r.push("1".to_owned());
    r.push("-reconnect_streamed".to_owned());
    r.push("1".to_owned());
    r.push("-reconnect_delay_max".to_owned());
    r.push("1".to_owned());
    r.push("-timeout".to_owned());
    r.push("30".to_owned());
    r.push("-c".to_owned());
    r.push("copy".to_owned());
    r.push("-bsf:a".to_owned());
    r.push("aac_adtstoasc".to_owned());
    r.push(segment_path.to_owned());
    proof {
        assert(r.deep_view() =~= seq![
            "-i"@,
            url@,
            "-reconnect"@,
            "1"@,
            "-reconnect_at_eof"@,
            "1"@,
            "-reconnect_streamed"@,
            "1"@,
            "-reconnect_delay_max"@,
            "1"@,
            "-timeout"@,
            "30"@,
            "-c"@,
            "copy"@,
            "-bsf:a"@,
            "aac_adtstoasc"@,
            segment_path@,
        ]);
    }
    r
}

/// The recorder's concatenation argument list: concat demuxer over the
/// manifest, unsafe path checking off, stream copy, overwrite the output.
pub fn recorder_concat_args(manifest_path: &str, output_path: &str) -> (r: Vec<String>)
    ensures
        r.deep_view() =~= seq![
            "-f"@,
            "concat"@,
            "-safe"@,
            "0"@,
            "-i"@,
            manifest_path@,
            "-c"@,
            "copy"@,
            "-y"@,
            output_path@,
        ],
{
    let mut r: Vec<String> = Vec::new();
    r.push("-f".to_owned());
    r.push("concat".to_owned());
    r.push("-safe".to_owned());
    r.push("0".to_owned());
    r.push("-i".to_owned());
    r.push(manifest_path.to_owned());
    r.push("-c".to_owned());
    r.push("copy".to_owned());
    r.push("-y".to_owned());
    r.push(output_path.to_owned());
    proof {
        assert(r.deep_view() =~= seq![
            "-f"@,
            "concat"@,
            "-safe"@,
            "0"@,
            "-i"@,
            manifest_path@,
            "-c"@,
            "copy"@,
            "-y"@,
            output_path@,
        ]);
    }
    r
}

/// Finish one capture: report the assembly outcome and release the claim.
/// The release happens on every exit path — recorder success or failure,
/// assembly success or failure — exactly once per held claim, and no other
/// identity's claim moves.
pub fn finish_capture(
    store: &mut ClaimStore,
    id: &str,
    recorder_exit_ok: bool,
    plan: &AssemblePlan,
    concat_exit_ok: bool,
) -> (r: Result<(), AssembleError>)
    requires
        old(store).wf(),
    ensures
        final(store).wf(),
        !final(store).holds(id@),
        forall|x: Seq<char>| x != id@ ==> final(store).holds(x) == old(store).holds(x),
        old(store).holds(id@) ==> final(store)@.len() == old(store)@.len() - 1,
        !old(store).holds(id@) ==> final(store)@ == old(store)@,
        match plan {
            AssemblePlan::NoSegments => r == Result::<(), AssembleError>::Err(
                AssembleError::NoSegmentsFound,
            ),
            AssemblePlan::CopySingle { .. } => r == Result::<(), AssembleError>::Ok(()),
            AssemblePlan::Concat { .. } => if concat_exit_ok {
                r == Result::<(), AssembleError>::Ok(())
            } else {
                r == Result::<(), AssembleError>::Err(AssembleError::ConcatenationFailed)
            },
        },
{
    // a failed recorder run still goes through assembly: a partial
    // recording is still valuable
    let _ = recorder_exit_ok;
    let outcome = assembly_outcome(plan, concat_exit_ok);
    store.release(id);
    outcome
}

} // verus!
