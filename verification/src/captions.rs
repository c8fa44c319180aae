//! Render pipeline selection: a pure, deterministic decision over a caption
//! file's content and name. Captions containing emoji code points (or
//! escaped-unicode markers) take the image-overlay pipeline; anything else
//! takes plain burn-in with the filter named after the caption format.
use vstd::prelude::*;
use vstd::string::StringExecFns;

use crate::text::chars_of;
use crate::text::contains_pattern;
use crate::text::eq_ignore_ascii_case_chars;
use crate::text::eq_ignore_case_seq;
use crate::text::has_substring;
use crate::text::push_char;
use crate::text::starts_with_chars;
use crate::text::starts_with_seq;

verus! {

/// The two recognized caption formats.
#[derive(Clone, Copy, Debug, PartialEq, Eq, Structural)]
pub enum CaptionFormat {
    /// Styled dialogue lines (one `Dialogue:` event per cue).
    StyledDialogue,
    /// Line-oriented timed text (one `-->` time range per cue).
    TimedText,
}

/// The rendering route chosen for one export.
#[derive(Clone, Copy, Debug, PartialEq, Eq, Structural)]
pub enum RenderPipeline {
    /// No overlay requested: direct transcode only.
    Direct,
    /// Burn the captions in with the filter for the given format.
    PlainBurnIn(CaptionFormat),
    /// Composite emoji glyph images over the video.
    EmojiOverlay,
}

/// Code points rendered as emoji glyph images: the main pictograph block,
/// miscellaneous symbols, dingbats, and variation selectors.
pub open spec fn is_emoji_char(c: char) -> bool {
    ||| 0x1F300 <= c as u32 <= 0x1F9FF
    ||| 0x2600 <= c as u32 <= 0x26FF
    ||| 0x2700 <= c as u32 <= 0x27BF
    ||| 0xFE00 <= c as u32 <= 0xFE0F
}

/// The caption content calls for the emoji pipeline: an escaped-unicode
/// marker or any emoji code point.
pub open spec fn has_emoji_spec(s: Seq<char>) -> bool {
    ||| has_substring(s, seq!['\\', 'u'])
    ||| has_substring(s, seq!['\\', 'U'])
    ||| exists|i: int| 0 <= i < s.len() && is_emoji_char(#[trigger] s[i])
}

/// Is `c` in the emoji code point ranges?
pub fn is_emoji(c: char) -> (b: bool)
    ensures
        b == is_emoji_char(c),
{
    let u: u32 = c as u32;
    (0x1F300 <= u && u <= 0x1F9FF) || (0x2600 <= u && u <= 0x26FF) || (0x2700 <= u && u <= 0x27BF)
        || (0xFE00 <= u && u <= 0xFE0F)
}

/// Does the caption content call for the emoji pipeline?
pub fn content_has_emoji(content: &str) -> (b: bool)
    ensures
        b == has_emoji_spec(content@),
{
    let v = chars_of(content);
    let lower_marker: Vec<char> = vec!['\\', 'u'];
    let upper_marker: Vec<char> = vec!['\\', 'U'];
    proof {
        assert(lower_marker@ =~= seq!['\\', 'u']);
        assert(upper_marker@ =~= seq!['\\', 'U']);
    }
    if contains_pattern(&v, &lower_marker) {
        return true;
    }
    if contains_pattern(&v, &upper_marker) {
        return true;
    }
    let mut i: usize = 0;
    while i < v.len()
        invariant
            i <= v@.len(),
            v@ == content@,
            forall|j: int| 0 <= j < i ==> !is_emoji_char(#[trigger] v@[j]),
        decreases v@.len() - i,
    {
        if is_emoji(v[i]) {
            return true;
        }
        i = i + 1;
    }
    false
}

/// The characters after the last `'.'`, or nothing when there is no dot.
pub open spec fn after_last_dot(s: Seq<char>) -> Option<Seq<char>>
    decreases s.len(),
{
    if s.len() == 0 {
        None
    } else if s.last() == '.' {
        Some(Seq::empty())
    } else {
        match after_last_dot(s.drop_last()) {
            Some(e) => Some(e.push(s.last())),
            None => None,
        }
    }
}

/// The format a caption path declares: styled dialogue when its extension
/// (the text after the final dot) is `ass` in any ASCII case, timed text
/// otherwise.
pub open spec fn caption_format_spec(path: Seq<char>) -> CaptionFormat {
    match after_last_dot(path) {
        Some(e) => if eq_ignore_case_seq(e, seq!['a', 's', 's']) {
            CaptionFormat::StyledDialogue
        } else {
            CaptionFormat::TimedText
        },
        None => CaptionFormat::TimedText,
    }
}

/// With the last dot at `d`, the extension is everything after it.
proof fn lemma_after_last_dot_at(s: Seq<char>, d: int)
    requires
        0 <= d < s.len(),
        s[d] == '.',
        forall|j: int| d < j < s.len() ==> #[trigger] s[j] != '.',
    ensures
        after_last_dot(s) == Some(s.skip(d + 1)),
    decreases s.len(),
{
    if d == s.len() - 1 {
        assert(s.last() == '.');
        assert(s.skip(d + 1) =~= Seq::<char>::empty());
    } else {
        assert(s.last() != '.');
        let s2 = s.drop_last();
        assert forall|j: int| d < j < s2.len() implies #[trigger] s2[j] != '.' by {
            assert(s2[j] == s[j]);
        }
        assert(s2[d] == s[d]);
        lemma_after_last_dot_at(s2, d);
        assert(s2.skip(d + 1).push(s.last()) =~= s.skip(d + 1));
    }
}

/// With no dot anywhere, there is no extension.
proof fn lemma_after_last_dot_none(s: Seq<char>)
    requires
        forall|j: int| 0 <= j < s.len() ==> #[trigger] s[j] != '.',
    ensures
        after_last_dot(s) is None,
    decreases s.len(),
{
    if s.len() > 0 {
        let s2 = s.drop_last();
        assert forall|j: int| 0 <= j < s2.len() implies #[trigger] s2[j] != '.' by {
            assert(s2[j] == s[j]);
        }
        lemma_after_last_dot_none(s2);
    }
}

/// Reads the format a caption path declares from its extension.
pub fn caption_format_of_path(path: &str) -> (f: CaptionFormat)
    ensures
        f == caption_format_spec(path@),
{
    let v = chars_of(path);
    let n: usize = v.len();
    // find the last dot
    let mut i: usize = n;
    while i > 0 && v[i - 1] != '.'
        invariant
            i <= n,
            n == v@.len(),
            forall|j: int| i <= j < n ==> #[trigger] v@[j] != '.',
        decreases i,
    {
        i = i - 1;
    }
    if i == 0 {
        proof {
            lemma_after_last_dot_none(v@);
        }
        return CaptionFormat::TimedText;
    }
    proof {
        lemma_after_last_dot_at(v@, i as int - 1);
    }
    let ext = crate::text::copy_range(&v, i, n);
    let ass: Vec<char> = vec!['a', 's', 's'];
    proof {
        assert(ass@ =~= seq!['a', 's', 's']);
        assert(ext@ =~= v@.skip(i as int));
    }
    if eq_ignore_ascii_case_chars(&ext, &ass) {
        CaptionFormat::StyledDialogue
    } else {
        CaptionFormat::TimedText
    }
}

/// Chooses the rendering route. Pure and deterministic: a function of the
/// request flag, the caption content, and the declared format alone.
pub fn select_render_pipeline(overlay_requested: bool, content: &str, format: CaptionFormat) -> (p:
    RenderPipeline)
    ensures
        !overlay_requested ==> p == RenderPipeline::Direct,
        overlay_requested && has_emoji_spec(content@) ==> p == RenderPipeline::EmojiOverlay,
        overlay_requested && !has_emoji_spec(content@) ==> p == RenderPipeline::PlainBurnIn(
            format,
        ),
{
    if !overlay_requested {
        RenderPipeline::Direct
    } else if content_has_emoji(content) {
        RenderPipeline::EmojiOverlay
    } else {
        RenderPipeline::PlainBurnIn(format)
    }
}

/// One character as it appears inside a filter-graph path argument:
/// backslashes, colons and quotes are escaped; with `brackets` set, square
/// brackets too.
pub open spec fn escape_char(c: char, brackets: bool) -> Seq<char> {
    if c == '\\' {
        seq!['\\', '\\']
    } else if c == ':' {
        seq!['\\', ':']
    } else if c == '\'' {
        seq!['\\', '\'']
    } else if brackets && (c == '[' || c == ']') {
        seq!['\\', c]
    } else {
        seq![c]
    }
}

/// A whole path escaped for use inside a filter graph.
pub open spec fn escape_seq(s: Seq<char>, brackets: bool) -> Seq<char>
    decreases s.len(),
{
    if s.len() == 0 {
        Seq::empty()
    } else {
        escape_char(s[0], brackets) + escape_seq(s.drop_first(), brackets)
    }
}

/// Escaping one more character appends its escape.
proof fn lemma_escape_snoc(s: Seq<char>, i: int, brackets: bool)
    requires
        0 <= i < s.len(),
    ensures
        escape_seq(s.take(i + 1), brackets) == escape_seq(s.take(i), brackets) + escape_char(
            s[i],
            brackets,
        ),
    decreases i,
{
    if i == 0 {
        assert(s.take(1) =~= seq![s[0]]);
        assert(s.take(1).drop_first() =~= Seq::<char>::empty());
        assert(s.take(0) =~= Seq::<char>::empty());
        assert(escape_seq(Seq::empty(), brackets) == Seq::<char>::empty());
        assert(escape_char(s[0], brackets) + Seq::<char>::empty() =~= escape_char(s[0], brackets));
        assert(Seq::<char>::empty() + escape_char(s[0], brackets) =~= escape_char(s[0], brackets));
    } else {
        let s2 = s.drop_first();
        assert(s.take(i + 1)[0] == s[0]);
        assert(s.take(i + 1).drop_first() =~= s2.take(i));
        assert(s.take(i)[0] == s[0]);
        assert(s.take(i).drop_first() =~= s2.take(i - 1));
        lemma_escape_snoc(s2, i - 1, brackets);
        assert(s2[i - 1] == s[i]);
        assert(escape_char(s[0], brackets) + (escape_seq(s2.take(i - 1), brackets) + escape_char(
            s[i],
            brackets,
        )) =~= (escape_char(s[0], brackets) + escape_seq(s2.take(i - 1), brackets)) + escape_char(
            s[i],
            brackets,
        ));
    }
}

/// Escapes a path for use inside a filter graph.
pub fn escape_filter_path(path: &str, brackets: bool) -> (r: String)
    ensures
        r@ == escape_seq(path@, brackets),
{
    let v = chars_of(path);
    let mut r = String::new();
    let mut i: usize = 0;
    while i < v.len()
        invariant
            i <= v@.len(),
            v@ == path@,
            r@ == escape_seq(v@.take(i as int), brackets),
        decreases v@.len() - i,
    {
        let c = v[i];
        let ghost r0 = r@;
        if c == '\\' {
            push_char(&mut r, '\\');
            push_char(&mut r, '\\');
        } else if c == ':' {
            push_char(&mut r, '\\');
            push_char(&mut r, ':');
        } else if c == '\'' {
            push_char(&mut r, '\\');
            push_char(&mut r, '\'');
        } else if brackets && (c == '[' || c == ']') {
            push_char(&mut r, '\\');
            push_char(&mut r, c);
        } else {
            push_char(&mut r, c);
        }
        proof {
            assert(r@ =~= r0 + escape_char(v@[i as int], brackets));
            lemma_escape_snoc(v@, i as int, brackets);
        }
        i = i + 1;
    }
    proof {
        assert(v@.take(v@.len() as int) =~= v@);
    }
    r
}

/// The burn-in filter for an escaped caption path: the filter name follows
/// the caption format.
pub fn subtitle_filter(escaped_path: &str, format: CaptionFormat) -> (r: String)
    ensures
        format is StyledDialogue ==> r@ == "ass='"@ + escaped_path@ + "'"@,
        format is TimedText ==> r@ == "subtitles='"@ + escaped_path@ + "'"@,
{
    let mut r = match format {
        CaptionFormat::StyledDialogue => String::from_str("ass='"),
        CaptionFormat::TimedText => String::from_str("subtitles='"),
    };
    r.append(escaped_path);
    r.append("'");
    r
}

/// The base filter chain that frames the video vertically: scale to fit,
/// pad to the exact portrait size, reset the sample aspect, settle the pixel
/// format.
pub fn base_frame_filter() -> (r: String)
    ensures
        r@
            == "scale=1080:1920:force_original_aspect_ratio=decrease,pad=1080:1920:(ow-iw)/2:(oh-ih)/2:color=black,setsar=1,format=yuv420p"@,
{
    String::from_str(
        "scale=1080:1920:force_original_aspect_ratio=decrease,pad=1080:1920:(ow-iw)/2:(oh-ih)/2:color=black,setsar=1,format=yuv420p",
    )
}

/// The one-pass filter that frames the video vertically and burns captions
/// in, loading glyphs from the system's font directory directly. The
/// caption path must be escaped with brackets included, since it stands
/// inside a filter option.
pub fn framed_subtitle_filter(escaped_sub: &str) -> (r: String)
    ensures
        r@
            == "scale=1080:1920:force_original_aspect_ratio=decrease,pad=1080:1920:(ow-iw)/2:(oh-ih)/2:color=black,setsar=1,format=yuv420p,subtitles='"@
            + escaped_sub@ + "':fontsdir=/usr/share/fonts/truetype/noto"@,
{
    let mut r = base_frame_filter();
    r.append(",subtitles='");
    r.append(escaped_sub);
    r.append("':fontsdir=/usr/share/fonts/truetype/noto");
    proof {
        assert(r@ =~= "scale=1080:1920:force_original_aspect_ratio=decrease,pad=1080:1920:(ow-iw)/2:(oh-ih)/2:color=black,setsar=1,format=yuv420p,subtitles='"@
            + escaped_sub@ + "':fontsdir=/usr/share/fonts/truetype/noto"@) by {
            reveal_strlit(
                "scale=1080:1920:force_original_aspect_ratio=decrease,pad=1080:1920:(ow-iw)/2:(oh-ih)/2:color=black,setsar=1,format=yuv420p",
            );
            reveal_strlit(",subtitles='");
            reveal_strlit(
                "scale=1080:1920:force_original_aspect_ratio=decrease,pad=1080:1920:(ow-iw)/2:(oh-ih)/2:color=black,setsar=1,format=yuv420p,subtitles='",
            );
        }
    }
    r
}

/// The full filter graph of the emoji-overlay pipeline. With a non-empty
/// per-emoji fragment, the framed video is labelled, captions are burned
/// into it, and the fragment's overlay stages follow. With an empty
/// fragment (no emoji actually resolved), the graph falls back to plain
/// caption burn-in over the framed video.
pub fn compose_overlay_filter(emoji_fragment: &str, escaped_sub: &str) -> (r: String)
    ensures
        emoji_fragment@.len() == 0 ==> r@
            == "scale=1080:1920:force_original_aspect_ratio=decrease,pad=1080:1920:(ow-iw)/2:(oh-ih)/2:color=black,setsar=1,format=yuv420p,subtitles='"@
            + escaped_sub@ + "'"@,
        emoji_fragment@.len() > 0 ==> r@
            == "scale=1080:1920:force_original_aspect_ratio=decrease,pad=1080:1920:(ow-iw)/2:(oh-ih)/2:color=black,setsar=1,format=yuv420p[scaled];[scaled]subtitles='"@
            + escaped_sub@ + "'[v0];"@ + emoji_fragment@,
{
    let mut r = base_frame_filter();
    if emoji_fragment.unicode_len() == 0 {
        r.append(",subtitles='");
        r.append(escaped_sub);
        r.append("'");
        proof {
            assert(r@ =~= "scale=1080:1920:force_original_aspect_ratio=decrease,pad=1080:1920:(ow-iw)/2:(oh-ih)/2:color=black,setsar=1,format=yuv420p,subtitles='"@
                + escaped_sub@ + "'"@) by {
                reveal_strlit(
                    "scale=1080:1920:force_original_aspect_ratio=decrease,pad=1080:1920:(ow-iw)/2:(oh-ih)/2:color=black,setsar=1,format=yuv420p",
                );
                reveal_strlit(",subtitles='");
                reveal_strlit(
                    "scale=1080:1920:force_original_aspect_ratio=decrease,pad=1080:1920:(ow-iw)/2:(oh-ih)/2:color=black,setsar=1,format=yuv420p,subtitles='",
                );
            }
        }
    } else {
        r.append("[scaled];[scaled]subtitles='");
        r.append(escaped_sub);
        r.append("'[v0];");
        r.append(emoji_fragment);
        proof {
            assert(r@ =~= "scale=1080:1920:force_original_aspect_ratio=decrease,pad=1080:1920:(ow-iw)/2:(oh-ih)/2:color=black,setsar=1,format=yuv420p[scaled];[scaled]subtitles='"@
                + escaped_sub@ + "'[v0];"@ + emoji_fragment@) by {
                reveal_strlit(
                    "scale=1080:1920:force_original_aspect_ratio=decrease,pad=1080:1920:(ow-iw)/2:(oh-ih)/2:color=black,setsar=1,format=yuv420p",
                );
                reveal_strlit("[scaled];[scaled]subtitles='");
                reveal_strlit(
                    "scale=1080:1920:force_original_aspect_ratio=decrease,pad=1080:1920:(ow-iw)/2:(oh-ih)/2:color=black,setsar=1,format=yuv420p[scaled];[scaled]subtitles='",
                );
            }
        }
    }
    r
}

/// A cue in a caption file: a timed-text line holds a `-->` time range; a
/// styled-dialogue line opens with `Dialogue:`.
pub open spec fn line_is_cue(line: Seq<char>, format: CaptionFormat) -> bool {
    match format {
        CaptionFormat::TimedText => has_substring(line, seq!['-', '-', '>']),
        CaptionFormat::StyledDialogue => starts_with_seq(
            line,
            seq!['D', 'i', 'a', 'l', 'o', 'g', 'u', 'e', ':'],
        ),
    }
}

/// Cues in `s` continued from a partial current line `cur`.
pub open spec fn cue_count_from(s: Seq<char>, cur: Seq<char>, format: CaptionFormat) -> int
    decreases s.len(),
{
    if s.len() == 0 {
        if line_is_cue(cur, format) {
            1
        } else {
            0
        }
    } else if s[0] == '\n' {
        (if line_is_cue(cur, format) {
            1int
        } else {
            0int
        }) + cue_count_from(s.drop_first(), Seq::empty(), format)
    } else {
        cue_count_from(s.drop_first(), cur.push(s[0]), format)
    }
}

/// How many cues the caption content holds, line by line.
pub open spec fn cue_count(s: Seq<char>, format: CaptionFormat) -> int {
    cue_count_from(s, Seq::empty(), format)
}

/// Is this (newline-free) line a cue?
fn line_cue(cur: &Vec<char>, format: CaptionFormat) -> (b: bool)
    ensures
        b == line_is_cue(cur@, format),
{
    match format {
        CaptionFormat::TimedText => {
            let arrow: Vec<char> = vec!['-', '-', '>'];
            proof {
                assert(arrow@ =~= seq!['-', '-', '>']);
            }
            contains_pattern(cur, &arrow)
        },
        CaptionFormat::StyledDialogue => {
            let tag: Vec<char> = vec!['D', 'i', 'a', 'l', 'o', 'g', 'u', 'e', ':'];
            proof {
                assert(tag@ =~= seq!['D', 'i', 'a', 'l', 'o', 'g', 'u', 'e', ':']);
            }
            starts_with_chars(cur, &tag)
        },
    }
}

/// Counts the cues in caption content.
pub fn count_cues(content: &str, format: CaptionFormat) -> (n: usize)
    ensures
        n == cue_count(content@, format),
{
    let v = chars_of(content);
    let mut cur: Vec<char> = Vec::new();
    let mut count: usize = 0;
    let mut i: usize = 0;
    proof {
        assert(v@.skip(0) =~= v@);
    }
    while i < v.len()
        invariant
            i <= v@.len(),
            v@ == content@,
            2 * count + cur@.len() <= i,
            count + cue_count_from(v@.skip(i as int), cur@, format) == cue_count(v@, format),
        decreases v@.len() - i,
    {
        let ghost suffix = v@.skip(i as int);
        proof {
            assert(suffix[0] == v@[i as int]);
            assert(suffix.drop_first() =~= v@.skip(i as int + 1));
        }
        let c = v[i];
        if c == '\n' {
            if line_cue(&cur, format) {
                proof {
                    lemma_cue_line_len(cur@, format);
                }
                count = count + 1;
            }
            cur.clear();
        } else {
            cur.push(c);
        }
        i = i + 1;
    }
    proof {
        assert(v@.skip(v@.len() as int) =~= Seq::<char>::empty());
    }
    if line_cue(&cur, format) {
        proof {
            lemma_cue_line_len(cur@, format);
        }
        count = count + 1;
    }
    count
}

/// A cue line is never empty: it holds at least the arrow or the tag.
proof fn lemma_cue_line_len(line: Seq<char>, format: CaptionFormat)
    requires
        line_is_cue(line, format),
    ensures
        line.len() >= 3,
{
    match format {
        CaptionFormat::TimedText => {
            let w = choose|w: int| crate::text::is_match_at(line, seq!['-', '-', '>'], w);
        },
        CaptionFormat::StyledDialogue => {},
    }
}

/// Metadata of a generated caption file.
pub struct SubtitleResult {
    /// Path of the caption file.
    pub subtitle_path: String,
    /// How many cues it holds.
    pub segment_count: usize,
    /// Total duration covered, milliseconds. Not derived yet; always 0.
    pub duration_ms: u64,
    /// Detected language tag.
    pub language: String,
}

/// Builds the metadata of a caption file from its path and content: the cue
/// count follows the format the path declares.
pub fn parse_subtitle_metadata(path: &str, content: &str) -> (r: SubtitleResult)
    ensures
        r.subtitle_path@ == path@,
        r.segment_count == cue_count(content@, caption_format_spec(path@)),
        r.duration_ms == 0,
        r.language@ == "auto"@,
{
    let format = caption_format_of_path(path);
    let segment_count = count_cues(content, format);
    SubtitleResult {
        subtitle_path: String::from_str(path),
        segment_count,
        duration_ms: 0,
        language: String::from_str("auto"),
    }
}

/// Picks the caption file a transcription run produced: the styled-dialogue
/// file when it exists, else the timed-text file, else a parse error (the
/// engine exited cleanly but wrote neither promised file).
pub fn choose_transcript_path(ass_path: String, srt_path: String, ass_exists: bool, srt_exists:
    bool) -> (r: Result<String, crate::outcome::PipelineError>)
    ensures
        ass_exists ==> (r matches Ok(p) && p@ == ass_path@),
        !ass_exists && srt_exists ==> (r matches Ok(p) && p@ == srt_path@),
        !ass_exists && !srt_exists ==> (r matches Err(e) && e matches
            crate::outcome::PipelineError::Parse(m) && m@ == "no subtitle file generated"@),
{
    if ass_exists {
        Ok(ass_path)
    } else if srt_exists {
        Ok(srt_path)
    } else {
        Err(crate::outcome::PipelineError::Parse(String::from_str("no subtitle file generated")))
    }
}

} // verus!
