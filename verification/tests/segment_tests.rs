//! Scenario tests for the clip segmentation engine.
use clip_studio::clip::Clip;
use clip_studio::segment::clips_from_scene_times;
use clip_studio::segment::clips_with_fallback;
use clip_studio::segment::detect_clips_by_time;
use clip_studio::segment::prepare_scene_times;
use clip_studio::segment::sort_and_dedup_times;

fn windows(clips: &[Clip]) -> Vec<(u64, u64)> {
    clips.iter().map(|c| (c.start_ms, c.end_ms)).collect()
}

#[test]
fn scene_scenario_short_first_and_tail_dropped() {
    // 100 s media, boundaries at 10, 25, 58, 95 s, clips of 15..60 s:
    // the 10 s opening segment is absorbed, the 5 s tail is dropped.
    let times: Vec<u64> = vec![10_000, 25_000, 58_000, 95_000];
    let clips = clips_from_scene_times(&times, 100_000, 15_000, 60_000);
    assert_eq!(
        windows(&clips),
        vec![(0, 25_000), (25_000, 58_000), (58_000, 95_000)]
    );
    for c in &clips {
        assert_eq!(c.duration_ms, c.end_ms - c.start_ms);
        assert_eq!(c.score_milli, 500);
    }
}

#[test]
fn fallback_scenario_two_second_overlap() {
    // 40 s media, no boundaries: uniform slices of (15+60)/2 = 37.5 s with
    // a 2 s overlap; the 4.5 s remainder slice is below the 10 s floor.
    let times: Vec<u64> = vec![];
    let clips = clips_with_fallback(&times, 40_000, 15_000, 60_000);
    assert_eq!(windows(&clips), vec![(0, 37_500)]);
}

#[test]
fn uniform_slices_stop_at_media_end() {
    let clips = detect_clips_by_time(100_000, 30_000, 5_000);
    assert_eq!(
        windows(&clips),
        vec![(0, 30_000), (25_000, 55_000), (50_000, 80_000), (75_000, 100_000)]
    );
    for c in &clips {
        assert!(c.duration_ms >= 10_000);
    }
}

#[test]
fn uniform_slicing_drops_short_remainder() {
    // last slice would be 8 s and is dropped
    let clips = detect_clips_by_time(83_000, 30_000, 5_000);
    assert_eq!(
        windows(&clips),
        vec![(0, 30_000), (25_000, 55_000), (50_000, 80_000)]
    );
}

#[test]
fn long_segment_is_split_evenly() {
    // one boundary at 90 s with max 40 s: split into ceil(90/40) = 3 pieces
    // of 30 s each, covering [0, 90) contiguously; tail 10 s < min dropped
    let times: Vec<u64> = vec![90_000];
    let clips = clips_from_scene_times(&times, 100_000, 15_000, 40_000);
    assert_eq!(
        windows(&clips),
        vec![(0, 30_000), (30_000, 60_000), (60_000, 90_000)]
    );
}

#[test]
fn forced_tail_split_ends_at_media_end() {
    // no boundaries: the whole 95 s media is one segment above max 40 s,
    // split into 3 pieces whose last ends exactly at the media's end
    let times: Vec<u64> = vec![];
    let clips = clips_from_scene_times(&times, 95_000, 15_000, 40_000);
    assert_eq!(
        windows(&clips),
        vec![(0, 31_666), (31_666, 63_333), (63_333, 95_000)]
    );
    assert_eq!(clips.last().unwrap().end_ms, 95_000);
}

#[test]
fn boundary_exactly_min_and_max_inclusive() {
    let times: Vec<u64> = vec![15_000, 75_000];
    let clips = clips_from_scene_times(&times, 75_000, 15_000, 60_000);
    assert_eq!(windows(&clips), vec![(0, 15_000), (15_000, 75_000)]);
}

#[test]
fn sort_and_dedup_orders_and_collapses() {
    let raw: Vec<u64> = vec![5_000, 1_000, 5_000, 3_000, 1_000];
    let sorted = sort_and_dedup_times(&raw);
    assert_eq!(sorted, vec![1_000, 3_000, 5_000]);
}

#[test]
fn prepare_drops_out_of_range_boundaries() {
    let raw: Vec<u64> = vec![120_000, 30_000, 10_000, 30_000];
    let prepared = prepare_scene_times(&raw, 100_000);
    assert_eq!(prepared, vec![10_000, 30_000]);
}

#[test]
fn zero_duration_media_yields_no_clips() {
    let times: Vec<u64> = vec![];
    let clips = clips_from_scene_times(&times, 0, 15_000, 60_000);
    assert!(clips.is_empty());
}

#[test]
fn duplicate_boundaries_collapse_before_segmentation() {
    let raw: Vec<u64> = vec![25_000, 25_000, 25_000, 60_000];
    let times = prepare_scene_times(&raw, 100_000);
    assert_eq!(times, vec![25_000, 60_000]);
    let clips = clips_from_scene_times(&times, 100_000, 15_000, 60_000);
    assert_eq!(
        windows(&clips),
        vec![(0, 25_000), (25_000, 60_000), (60_000, 100_000)]
    );
}

#[test]
fn equal_boundary_at_media_end_adds_no_tail() {
    let times: Vec<u64> = vec![50_000, 100_000];
    let clips = clips_from_scene_times(&times, 100_000, 15_000, 60_000);
    assert_eq!(windows(&clips), vec![(0, 50_000), (50_000, 100_000)]);
}
