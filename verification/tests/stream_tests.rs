//! Tests of diagnostic-stream classification and scene-time extraction.
use clip_studio::stream::classify_line;
use clip_studio::stream::is_progress_line;
use clip_studio::stream::scene_time_of_line;
use clip_studio::stream::ProgressEvent;
use clip_studio::stream::SceneCollector;

#[test]
fn scene_time_parsed_up_to_next_space() {
    let line = "[Parsed_showinfo_0 @ 0x55] n:3 pts:12345 pts_time:12.345 duration:0.04";
    assert_eq!(scene_time_of_line(line), Some(12_345));
}

#[test]
fn scene_time_at_line_end_is_trimmed_and_parsed() {
    assert_eq!(scene_time_of_line("noise pts_time:7.5"), Some(7_500));
    assert_eq!(scene_time_of_line("noise pts_time:7.5  \t"), Some(7_500));
    assert_eq!(scene_time_of_line("noise pts_time:42"), Some(42_000));
}

#[test]
fn fractions_beyond_milliseconds_truncate() {
    assert_eq!(scene_time_of_line("pts_time:1.23456 x"), Some(1_234));
}

#[test]
fn malformed_or_absent_marker_yields_nothing() {
    assert_eq!(scene_time_of_line("frame=  100 fps= 25"), None);
    assert_eq!(scene_time_of_line("pts_time:abc def"), None);
    assert_eq!(scene_time_of_line("pts_time:-3.5 x"), None);
    assert_eq!(scene_time_of_line("pts_time:"), None);
}

#[test]
fn collector_appends_counts_and_ignores() {
    let mut c = SceneCollector::new();
    c.feed_line("pts_time:1.5 x");
    c.feed_line("some ordinary log line");
    c.feed_line("pts_time:bad x");
    c.feed_line("pts_time:2.25 y");
    assert_eq!(c.times, vec![1_500, 2_250]);
    assert_eq!(c.skipped, 1);
}

#[test]
fn progress_markers_classify_lines() {
    assert!(is_progress_line("frame=  100 fps= 25 time=00:00:04.00 bitrate=..."));
    assert!(is_progress_line("size=     256kB time=00:00:10.00"));
    assert!(is_progress_line("fps=30.1"));
    assert!(!is_progress_line("Input #0, mov,mp4 from 'in.mp4':"));
}

#[test]
fn classification_keeps_the_line_text() {
    match classify_line("time=00:00:04.00".to_string()) {
        ProgressEvent::Progress(t) => assert_eq!(t, "time=00:00:04.00"),
        ProgressEvent::Log(_) => panic!("expected a progress event"),
    }
    match classify_line("opening input".to_string()) {
        ProgressEvent::Log(t) => assert_eq!(t, "opening input"),
        ProgressEvent::Progress(_) => panic!("expected a log event"),
    }
}
