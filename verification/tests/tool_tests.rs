//! Tests of number formatting, duration probing, tool argument vectors,
//! process outcomes, fetcher support and the requirement report.
use clip_studio::fetch::download_failure_message;
use clip_studio::fetch::download_output_template;
use clip_studio::fetch::is_video_extension;
use clip_studio::fetch::latest_pick;
use clip_studio::fetch::video_info_from_fields;
use clip_studio::invocations::extract_clip_args;
use clip_studio::invocations::scene_detect_args;
use clip_studio::invocations::vertical_convert_args;
use clip_studio::numbers::format_seconds;
use clip_studio::outcome::outcome_from_wait;
use clip_studio::outcome::outcome_into_result;
use clip_studio::outcome::PipelineError;
use clip_studio::probe::parse_duration_output;
use clip_studio::probe::probe_args;
use clip_studio::setup::requirement_report;
use clip_studio::setup::requirement_status;
use clip_studio::text::replace_suffix;

#[test]
fn seconds_render_with_three_fraction_digits() {
    assert_eq!(format_seconds(0), "0.000");
    assert_eq!(format_seconds(12_345), "12.345");
    assert_eq!(format_seconds(60_000), "60.000");
    assert_eq!(format_seconds(7_005), "7.005");
}

#[test]
fn probe_output_parses_with_whitespace() {
    assert_eq!(parse_duration_output("123.456000\n").unwrap(), 123_456);
    assert_eq!(parse_duration_output("  42  ").unwrap(), 42_000);
    assert_eq!(parse_duration_output("0.5").unwrap(), 500);
}

#[test]
fn probe_output_parse_failures_name_the_text() {
    let e = parse_duration_output("N/A\n").unwrap_err();
    match e {
        PipelineError::Parse(m) => assert_eq!(m, "failed to parse duration: N/A\n"),
        _ => panic!("expected a parse error"),
    }
    assert!(parse_duration_output("").is_err());
    assert!(parse_duration_output("-1.0").is_err());
    assert!(parse_duration_output("1e3").is_err());
}

#[test]
fn probe_args_ask_for_the_duration_only() {
    let args = probe_args("movie.mp4");
    assert_eq!(
        args,
        vec![
            "-v",
            "error",
            "-show_entries",
            "format=duration",
            "-of",
            "default=noprint_wrappers=1:nokey=1",
            "movie.mp4"
        ]
    );
}

#[test]
fn scene_detect_args_embed_the_threshold() {
    let args = scene_detect_args("movie.mp4", 300);
    assert_eq!(args[3], "scale=320:-1,select='gt(scene,0.300)',showinfo");
    assert_eq!(args[0], "-i");
    assert_eq!(args[1], "movie.mp4");
    assert_eq!(args.last().unwrap(), "-");
}

#[test]
fn extract_args_are_stream_copy_over_the_window() {
    let args = extract_clip_args("in.mp4", "out.mp4", 25_000, 33_000);
    assert_eq!(
        args,
        vec!["-y", "-ss", "25.000", "-i", "in.mp4", "-t", "33.000", "-c", "copy", "out.mp4"]
    );
}

#[test]
fn vertical_convert_args_frame_and_encode() {
    let args = vertical_convert_args("in.mp4", "out.mp4");
    assert_eq!(args.len(), 18);
    assert_eq!(args[0], "-y");
    assert_eq!(args[2], "in.mp4");
    assert_eq!(
        args[4],
        "scale=1080:1920:force_original_aspect_ratio=decrease,pad=1080:1920:(ow-iw)/2:(oh-ih)/2:color=black,setsar=1,format=yuv420p"
    );
    assert_eq!(args[17], "out.mp4");
}

#[test]
fn outcome_success_tracks_exit_code() {
    let ok = outcome_from_wait(Some(0), "out".to_string(), "".to_string());
    assert!(ok.success);
    assert!(outcome_into_result(ok).is_ok());
    let bad = outcome_from_wait(Some(1), "".to_string(), "boom".to_string());
    assert!(!bad.success);
    match outcome_into_result(bad).unwrap_err() {
        PipelineError::ToolFailure(t) => assert_eq!(t, "boom"),
        _ => panic!("expected a tool failure"),
    }
    let none = outcome_from_wait(None, String::new(), String::new());
    assert!(!none.success);
}

#[test]
fn suffix_replacement_derives_artifact_paths() {
    assert_eq!(replace_suffix("video.mp4", ".mp4", "_audio.wav"), "video_audio.wav");
    assert_eq!(replace_suffix("video.mkv", ".mp4", "_audio.wav"), "video.mkv_audio.wav");
    assert_eq!(replace_suffix("take.wav", ".wav", ".ass"), "take.ass");
    assert_eq!(
        replace_suffix("subs.ass", ".ass", "_emoji_filter.txt"),
        "subs_emoji_filter.txt"
    );
}

#[test]
fn fetch_metadata_defaults() {
    let full = video_info_from_fields(
        Some("A Title".to_string()),
        Some(95_000),
        Some("someone".to_string()),
    );
    assert_eq!(full.title, "A Title");
    assert_eq!(full.duration_ms, 95_000);
    assert_eq!(full.uploader, "someone");
    let empty = video_info_from_fields(None, None, None);
    assert_eq!(empty.title, "Unknown");
    assert_eq!(empty.duration_ms, 0);
    assert_eq!(empty.uploader, "Unknown");
}

#[test]
fn download_template_and_failure_text() {
    assert_eq!(download_output_template("/tmp/dl"), "/tmp/dl/%(title)s.%(ext)s");
    assert_eq!(
        download_failure_message(""),
        "YouTube download failed. Check the URL and try again."
    );
    assert_eq!(
        download_failure_message("403 Forbidden"),
        "YouTube download failed: 403 Forbidden"
    );
}

#[test]
fn video_extensions_match_case_insensitively() {
    assert!(is_video_extension("mp4"));
    assert!(is_video_extension("MKV"));
    assert!(is_video_extension("WebM"));
    assert!(!is_video_extension("srt"));
    assert!(!is_video_extension(""));
}

#[test]
fn latest_pick_takes_last_maximum() {
    assert_eq!(latest_pick(&vec![]), None);
    assert_eq!(latest_pick(&vec![5]), Some(0));
    assert_eq!(latest_pick(&vec![3, 9, 9, 2]), Some(2));
    assert_eq!(latest_pick(&vec![7, 1, 7]), Some(2));
}

#[test]
fn requirement_messages_name_the_tool() {
    let ok = requirement_status("Docker", true);
    assert_eq!(ok.message, "Docker is installed");
    assert!(ok.installed);
    let missing = requirement_status("FFmpeg", false);
    assert_eq!(missing.message, "FFmpeg needs to be installed");
    assert!(!missing.installed);
    let report = requirement_report(vec![
        ("Git".to_string(), true),
        ("Node.js".to_string(), false),
    ]);
    assert_eq!(report.len(), 2);
    assert_eq!(report[0].message, "Git is installed");
    assert_eq!(report[1].message, "Node.js needs to be installed");
}

#[test]
fn vertical_filter_args_take_the_given_filter() {
    let args = clip_studio::invocations::vertical_filter_args(
        "in.mp4",
        "out.mp4",
        "null".to_string(),
    );
    assert_eq!(args.len(), 18);
    assert_eq!(args[4], "null");
    assert_eq!(args[15], "-progress");
    assert_eq!(args[17], "out.mp4");
}

#[test]
fn seconds_survive_a_render_parse_round_trip() {
    for ms in [0u64, 1, 999, 1_000, 12_345, 3_599_999, 4_294_967_295] {
        let text = format_seconds(ms);
        let chars: Vec<char> = text.chars().collect();
        assert_eq!(clip_studio::numbers::parse_seconds_ms(&chars), Some(ms));
    }
}
