//! Tests of the render pipeline selector and caption handling.
use clip_studio::captions::caption_format_of_path;
use clip_studio::captions::compose_overlay_filter;
use clip_studio::captions::content_has_emoji;
use clip_studio::captions::count_cues;
use clip_studio::captions::escape_filter_path;
use clip_studio::captions::parse_subtitle_metadata;
use clip_studio::captions::select_render_pipeline;
use clip_studio::captions::subtitle_filter;
use clip_studio::captions::CaptionFormat;
use clip_studio::captions::RenderPipeline;

#[test]
fn grinning_face_selects_emoji_overlay() {
    let content = "1\n00:00:01,000 --> 00:00:02,000\nhello \u{1F600}\n";
    assert!(content_has_emoji(content));
    let p = select_render_pipeline(true, content, CaptionFormat::TimedText);
    assert_eq!(p, RenderPipeline::EmojiOverlay);
}

#[test]
fn ascii_content_selects_plain_burn_in_per_format() {
    let content = "1\n00:00:01,000 --> 00:00:02,000\nhello world\n";
    assert!(!content_has_emoji(content));
    let p = select_render_pipeline(true, content, CaptionFormat::TimedText);
    assert_eq!(p, RenderPipeline::PlainBurnIn(CaptionFormat::TimedText));
    let p2 = select_render_pipeline(true, content, CaptionFormat::StyledDialogue);
    assert_eq!(p2, RenderPipeline::PlainBurnIn(CaptionFormat::StyledDialogue));
}

#[test]
fn no_overlay_request_goes_direct() {
    let p = select_render_pipeline(false, "anything \u{1F600}", CaptionFormat::TimedText);
    assert_eq!(p, RenderPipeline::Direct);
}

#[test]
fn escaped_unicode_marker_selects_emoji_overlay() {
    assert!(content_has_emoji("plain text with \\u1F600 marker"));
    assert!(content_has_emoji("plain text with \\U0001F600 marker"));
    assert!(!content_has_emoji("plain text with u and U letters"));
}

#[test]
fn variation_selector_counts_as_emoji() {
    assert!(content_has_emoji("star \u{2600}"));
    assert!(content_has_emoji("dingbat \u{2705}"));
    assert!(content_has_emoji("selector \u{FE0F}"));
    assert!(!content_has_emoji("caf\u{00E9}"));
}

#[test]
fn format_follows_extension_case_insensitively() {
    assert_eq!(caption_format_of_path("subs.ass"), CaptionFormat::StyledDialogue);
    assert_eq!(caption_format_of_path("subs.ASS"), CaptionFormat::StyledDialogue);
    assert_eq!(caption_format_of_path("subs.srt"), CaptionFormat::TimedText);
    assert_eq!(caption_format_of_path("noextension"), CaptionFormat::TimedText);
}

#[test]
fn filter_name_matches_format() {
    assert_eq!(
        subtitle_filter("subs.ass", CaptionFormat::StyledDialogue),
        "ass='subs.ass'"
    );
    assert_eq!(
        subtitle_filter("subs.srt", CaptionFormat::TimedText),
        "subtitles='subs.srt'"
    );
}

#[test]
fn escaping_covers_filter_metacharacters() {
    assert_eq!(escape_filter_path("C:\\clips\\a'b.ass", false), "C\\:\\\\clips\\\\a\\'b.ass");
    assert_eq!(escape_filter_path("a[1].ass", false), "a[1].ass");
    assert_eq!(escape_filter_path("a[1].ass", true), "a\\[1\\].ass");
}

#[test]
fn empty_fragment_falls_back_to_plain_burn_in_graph() {
    let f = compose_overlay_filter("", "subs.ass");
    assert_eq!(
        f,
        "scale=1080:1920:force_original_aspect_ratio=decrease,pad=1080:1920:(ow-iw)/2:(oh-ih)/2:color=black,setsar=1,format=yuv420p,subtitles='subs.ass'"
    );
}

#[test]
fn fragment_appends_overlay_stages() {
    let f = compose_overlay_filter("[v0][1:v]overlay=10:10[vN]", "subs.ass");
    assert_eq!(
        f,
        "scale=1080:1920:force_original_aspect_ratio=decrease,pad=1080:1920:(ow-iw)/2:(oh-ih)/2:color=black,setsar=1,format=yuv420p[scaled];[scaled]subtitles='subs.ass'[v0];[v0][1:v]overlay=10:10[vN]"
    );
}

#[test]
fn cue_counting_by_format() {
    let srt = "1\n00:00:01,000 --> 00:00:02,000\nfirst\n\n2\n00:00:03,000 --> 00:00:04,000\nsecond\n";
    assert_eq!(count_cues(srt, CaptionFormat::TimedText), 2);
    let ass = "[Events]\nDialogue: 0,0:00:01.00,0:00:02.00,Default,,0,0,0,,first\nDialogue: 0,0:00:03.00,0:00:04.00,Default,,0,0,0,,second\nComment: nothing\n";
    assert_eq!(count_cues(ass, CaptionFormat::StyledDialogue), 2);
}

#[test]
fn subtitle_metadata_counts_by_declared_format() {
    let srt = "1\n00:00:01,000 --> 00:00:02,000\nhello\n";
    let r = parse_subtitle_metadata("out.srt", srt);
    assert_eq!(r.subtitle_path, "out.srt");
    assert_eq!(r.segment_count, 1);
    assert_eq!(r.duration_ms, 0);
    assert_eq!(r.language, "auto");
}

#[test]
fn framed_caption_filter_names_the_font_directory() {
    let f = clip_studio::captions::framed_subtitle_filter("word_subs.ass");
    assert_eq!(
        f,
        "scale=1080:1920:force_original_aspect_ratio=decrease,pad=1080:1920:(ow-iw)/2:(oh-ih)/2:color=black,setsar=1,format=yuv420p,subtitles='word_subs.ass':fontsdir=/usr/share/fonts/truetype/noto"
    );
}

#[test]
fn extension_reading_edge_cases() {
    assert_eq!(caption_format_of_path("archive.tar.ass"), CaptionFormat::StyledDialogue);
    assert_eq!(caption_format_of_path("trailing.dot."), CaptionFormat::TimedText);
    assert_eq!(caption_format_of_path(""), CaptionFormat::TimedText);
    assert_eq!(caption_format_of_path(".ass"), CaptionFormat::StyledDialogue);
}

#[test]
fn empty_content_holds_no_cues_or_emoji() {
    assert_eq!(count_cues("", CaptionFormat::TimedText), 0);
    assert_eq!(count_cues("", CaptionFormat::StyledDialogue), 0);
    assert!(!content_has_emoji(""));
    assert_eq!(escape_filter_path("", false), "");
}

#[test]
fn cue_on_last_line_without_newline_counts() {
    assert_eq!(
        count_cues("00:00:01,000 --> 00:00:02,000", CaptionFormat::TimedText),
        1
    );
}
