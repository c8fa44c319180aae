//! Concrete-value witnesses for the segmentation laws and the error
//! taxonomy.
use clip_studio::clip::Clip;
use clip_studio::outcome::PipelineError;
use clip_studio::segment::clips_from_scene_times;
use clip_studio::segment::clips_with_fallback;
use clip_studio::segment::detect_clips_by_time;

fn assert_contiguous_from_zero(clips: &[Clip]) {
    let mut cursor = 0u64;
    for c in clips {
        assert_eq!(c.start_ms, cursor, "gap or overlap before {}", c.start_ms);
        assert!(c.end_ms > c.start_ms);
        cursor = c.end_ms;
    }
}

#[test]
fn scene_clips_stay_within_duration_bounds() {
    // includes a forced split (75 s segment with max 40 s) and a plain
    // emission; every clip lands in [min, max] since max >= 2 * min
    let times: Vec<u64> = vec![75_000, 100_000];
    let (min, max) = (20_000, 40_000);
    let clips = clips_from_scene_times(&times, 130_000, min, max);
    assert!(!clips.is_empty());
    for c in &clips {
        assert!(min <= c.duration_ms && c.duration_ms <= max, "{} out of bounds", c.duration_ms);
    }
}

#[test]
fn scene_clips_tile_up_to_a_remnant_below_min() {
    let times: Vec<u64> = vec![10_000, 25_000, 58_000, 95_000];
    let (min, max) = (15_000, 60_000);
    let total = 100_000;
    let clips = clips_from_scene_times(&times, total, min, max);
    assert_contiguous_from_zero(&clips);
    let covered = clips.last().map_or(0, |c| c.end_ms);
    assert!(total - covered < min, "uncovered remnant of {} ms", total - covered);
}

#[test]
fn full_coverage_when_the_end_is_a_boundary_fit() {
    let times: Vec<u64> = vec![30_000, 60_000];
    let clips = clips_from_scene_times(&times, 90_000, 15_000, 60_000);
    assert_contiguous_from_zero(&clips);
    assert_eq!(clips.last().unwrap().end_ms, 90_000);
}

#[test]
fn every_interval_keeps_duration_consistent() {
    let times: Vec<u64> = vec![33_333, 77_777];
    let clips = clips_from_scene_times(&times, 99_999, 15_000, 60_000);
    for c in &clips {
        assert_eq!(c.duration_ms, c.end_ms - c.start_ms);
    }
    let uniform = detect_clips_by_time(99_999, 25_000, 3_000);
    for c in &uniform {
        assert_eq!(c.duration_ms, c.end_ms - c.start_ms);
    }
}

#[test]
fn fallback_yields_at_least_one_clip_for_short_media() {
    // exactly the slice floor
    let clips = clips_with_fallback(&vec![], 10_000, 15_000, 60_000);
    assert!(!clips.is_empty());
}

#[test]
fn every_error_variant_carries_its_text() {
    let cases = [
        PipelineError::Spawn("tool missing".to_string()),
        PipelineError::Wait("killed".to_string()),
        PipelineError::ToolFailure("exit 1".to_string()),
        PipelineError::Parse("garbage".to_string()),
        PipelineError::Validation("no input".to_string()),
    ];
    let texts: Vec<String> = cases.iter().map(|e| e.text()).collect();
    assert_eq!(texts, vec!["tool missing", "killed", "exit 1", "garbage", "no input"]);
}
