//! The segment assembler: selection, ordering, manifest content, the
//! single-segment copy and the concatenation plan.

use livecap::assembler::{
    assembly_outcome, build_manifest, concat_segment_bytes, normalize_separators, plan_assembly,
    select_segments, AssembleError, AssemblePlan,
};
use livecap::timefmt::Timestamp;
use livecap::worker::{
    artifact_file_name, manifest_file_name, recorder_capture_args, recorder_concat_args,
    segment_file_name,
};

fn ts(h: u32, mi: u32, s: u32) -> Timestamp {
    Timestamp { year: 2024, month: 3, day: 5, hour: h, minute: mi, second: s }
}

#[test]
fn segment_names_sort_in_capture_order() {
    // three segments of one instance, captured at T1 < T2 < T3
    let n1 = segment_file_name("eve", "42", &ts(7, 9, 1));
    let n2 = segment_file_name("eve", "42", &ts(7, 9, 2));
    let n3 = segment_file_name("eve", "42", &ts(7, 10, 0));
    assert_eq!(n1, "eve_42_2024-03-05_07-09-01.mp4");
    // listed shuffled, selected and sorted back into timestamp order
    let listing = vec![n3.clone(), n1.clone(), n2.clone()];
    let picked = select_segments(&listing, "42", "eve_42_concat.txt");
    assert_eq!(picked, vec![n1.clone(), n2.clone(), n3.clone()]);
    // and the manifest lists them in that order
    let manifest = build_manifest(&picked);
    let expected = format!("file '{}'\nfile '{}'\nfile '{}'\n", n1, n2, n3);
    assert_eq!(manifest, expected);
}

#[test]
fn segment_names_sort_across_day_boundaries() {
    let before = Timestamp { year: 2024, month: 2, day: 29, hour: 23, minute: 59, second: 59 };
    let after = Timestamp { year: 2024, month: 3, day: 1, hour: 0, minute: 0, second: 0 };
    let n1 = segment_file_name("eve", "42", &before);
    let n2 = segment_file_name("eve", "42", &after);
    let picked = select_segments(&vec![n2.clone(), n1.clone()], "42", "eve_42_concat.txt");
    assert_eq!(picked, vec![n1, n2]);
}

#[test]
fn selection_keeps_only_this_instance() {
    let listing = vec![
        "eve_42_2024-03-05_07-09-01.mp4".to_string(),
        "eve_43_2024-03-05_07-09-01.mp4".to_string(),
        "eve_42_concat.txt".to_string(),
        "notes_42.txt".to_string(),
        "eve_42_2024-03-05_07-08-00.mp4".to_string(),
    ];
    let picked = select_segments(&listing, "42", "eve_42_concat.txt");
    assert_eq!(
        picked,
        vec![
            "eve_42_2024-03-05_07-08-00.mp4".to_string(),
            "eve_42_2024-03-05_07-09-01.mp4".to_string(),
        ]
    );
}

#[test]
fn empty_selection_reports_no_segments() {
    let listing = vec!["other_7_x.mp4".to_string()];
    let picked = select_segments(&listing, "42", "eve_42_concat.txt");
    assert!(picked.is_empty());
    let plan = plan_assembly(&picked);
    assert!(matches!(plan, AssemblePlan::NoSegments));
    let r = assembly_outcome(&plan, true);
    assert!(matches!(r, Err(AssembleError::NoSegmentsFound)));
}

#[test]
fn single_segment_is_copied() {
    let picked = vec!["eve_42_2024-03-05_07-08-00.mp4".to_string()];
    let plan = plan_assembly(&picked);
    match &plan {
        AssemblePlan::CopySingle { source } => {
            assert_eq!(source, "eve_42_2024-03-05_07-08-00.mp4");
        },
        _ => panic!("one segment must be copied"),
    }
    assert!(assembly_outcome(&plan, false).is_ok());
}

#[test]
fn single_segment_bytes_round_trip() {
    let input: Vec<u8> = vec![0, 1, 2, 250, 255, 3];
    let merged = concat_segment_bytes(&vec![input.clone()]);
    assert_eq!(merged, input);
}

#[test]
fn multi_segment_bytes_concatenate_in_order() {
    let merged = concat_segment_bytes(&vec![vec![1u8, 2], vec![], vec![3u8, 4, 5]]);
    assert_eq!(merged, vec![1u8, 2, 3, 4, 5]);
}

#[test]
fn two_segments_get_a_two_line_manifest_and_safe_zero() {
    let picked = vec!["A.mp4".to_string(), "B.mp4".to_string()];
    let sorted = select_segments(&picked, ".mp4", "unused");
    assert_eq!(sorted, picked);
    let plan = plan_assembly(&sorted);
    match &plan {
        AssemblePlan::Concat { manifest } => {
            assert_eq!(manifest, "file 'A.mp4'\nfile 'B.mp4'\n");
            assert_eq!(manifest.lines().count(), 2);
        },
        _ => panic!("two segments must be concatenated"),
    }
    let args = recorder_concat_args("eve_42_concat.txt", "eve_42_2024-03-05.mp4");
    assert_eq!(
        args,
        vec![
            "-f", "concat", "-safe", "0", "-i", "eve_42_concat.txt", "-c", "copy", "-y",
            "eve_42_2024-03-05.mp4",
        ]
    );
    // a failing concatenation is reported, not fatal
    assert!(matches!(
        assembly_outcome(&plan, false),
        Err(AssembleError::ConcatenationFailed)
    ));
    assert!(assembly_outcome(&plan, true).is_ok());
}

#[test]
fn capture_args_use_stream_copy_and_reconnect() {
    let args = recorder_capture_args("https://cdn/x", "seg.mp4");
    assert_eq!(
        args,
        vec![
            "-i",
            "https://cdn/x",
            "-reconnect",
            "1",
            "-reconnect_at_eof",
            "1",
            "-reconnect_streamed",
            "1",
            "-reconnect_delay_max",
            "1",
            "-timeout",
            "30",
            "-c",
            "copy",
            "-bsf:a",
            "aac_adtstoasc",
            "seg.mp4",
        ]
    );
}

#[test]
fn manifest_paths_use_forward_slashes() {
    assert_eq!(
        normalize_separators("C:\\captures\\eve\\seg.mp4"),
        "C:/captures/eve/seg.mp4"
    );
    assert_eq!(normalize_separators("/already/fine.mp4"), "/already/fine.mp4");
    assert_eq!(normalize_separators(""), "");
}

#[test]
fn artifact_and_manifest_names() {
    let t = ts(0, 0, 0);
    assert_eq!(artifact_file_name("eve", "42", &t), "eve_42_2024-03-05.mp4");
    assert_eq!(manifest_file_name("eve", "42"), "eve_42_concat.txt");
}
