//! Tests of batch-export bookkeeping and partial-failure isolation.
use clip_studio::batch::clip_output_path;
use clip_studio::batch::collect_manifest;
use clip_studio::batch::ExportManifest;

#[test]
fn output_paths_are_deterministic_and_zero_padded() {
    assert_eq!(clip_output_path("out", 0), "out/clip_001.mp4");
    assert_eq!(clip_output_path("out", 9), "out/clip_010.mp4");
    assert_eq!(clip_output_path("out", 998), "out/clip_999.mp4");
    assert_eq!(clip_output_path("out", 999), "out/clip_1000.mp4");
    assert_eq!(clip_output_path("some/dir", 2), "some/dir/clip_003.mp4");
}

#[test]
fn second_failure_is_recorded_and_batch_completes() {
    // a batch of three where the second extraction's tool exited non-zero
    let results: Vec<Result<String, String>> = vec![
        Ok("out/clip_001.mp4".to_string()),
        Err("tool exited with status 1".to_string()),
        Ok("out/clip_003.mp4".to_string()),
    ];
    let m = collect_manifest(results);
    assert_eq!(m.outputs, vec!["out/clip_001.mp4", "out/clip_003.mp4"]);
    assert_eq!(m.failures.len(), 1);
    assert_eq!(m.failures[0].index, 1);
    assert_eq!(m.failures[0].error, "tool exited with status 1");
}

#[test]
fn all_failures_still_complete() {
    let results: Vec<Result<String, String>> = vec![
        Err("a".to_string()),
        Err("b".to_string()),
    ];
    let m = collect_manifest(results);
    assert!(m.outputs.is_empty());
    assert_eq!(m.failures.len(), 2);
    assert_eq!(m.failures[0].index, 0);
    assert_eq!(m.failures[1].index, 1);
    assert_eq!(m.failures[0].error, "a");
    assert_eq!(m.failures[1].error, "b");
}

#[test]
fn empty_batch_yields_empty_manifest() {
    let m = collect_manifest(Vec::new());
    assert!(m.outputs.is_empty());
    assert!(m.failures.is_empty());
}

#[test]
fn incremental_recording_matches() {
    let mut m = ExportManifest::new();
    m.record_success("one.mp4".to_string());
    m.record_failure(1, "broke".to_string());
    m.record_success("three.mp4".to_string());
    assert_eq!(m.outputs, vec!["one.mp4", "three.mp4"]);
    assert_eq!(m.failures.len(), 1);
    assert_eq!(m.failures[0].index, 1);
}
