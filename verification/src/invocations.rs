//! Argument vectors for the external transcoding engine: scene analysis,
//! stream-copy extraction, vertical-format conversion, caption burn-in,
//! emoji-overlay compositing, and audio extraction. Each builder pins every
//! argument down, so what the tools are asked is part of the contract.
use vstd::prelude::*;
use vstd::string::StringExecFns;

use crate::numbers::pad3_str;
use crate::numbers::push_pad3;
use crate::numbers::seconds_str;
use crate::numbers::format_seconds;

verus! {

/// The scene-analysis filter: downscale for speed, keep frames whose scene
/// score passes the threshold (given in thousandths), report each kept
/// frame.
pub fn scene_detect_filter(threshold_milli: u32) -> (r: String)
    requires
        0 < threshold_milli < 1000,
    ensures
        r@ == "scale=320:-1,select='gt(scene,0."@ + pad3_str(threshold_milli as int)
            + ")',showinfo"@,
{
    let mut r = String::from_str("scale=320:-1,select='gt(scene,0.");
    push_pad3(&mut r, threshold_milli as u64);
    r.append(")',showinfo");
    r
}

/// Asks the transcoder to analyse `path` for scene changes above the given
/// threshold, discarding audio and producing no real output: its diagnostic
/// stream then carries one marker line per boundary.
pub fn scene_detect_args(path: &str, threshold_milli: u32) -> (args: Vec<String>)
    requires
        0 < threshold_milli < 1000,
    ensures
        args@.len() == 8,
        args@[0]@ == "-i"@,
        args@[1]@ == path@,
        args@[2]@ == "-vf"@,
        args@[3]@ == "scale=320:-1,select='gt(scene,0."@ + pad3_str(threshold_milli as int)
            + ")',showinfo"@,
        args@[4]@ == "-an"@,
        args@[5]@ == "-f"@,
        args@[6]@ == "null"@,
        args@[7]@ == "-"@,
{
    let mut args: Vec<String> = Vec::new();
    args.push(String::from_str("-i"));
    args.push(String::from_str(path));
    args.push(String::from_str("-vf"));
    args.push(scene_detect_filter(threshold_milli));
    args.push(String::from_str("-an"));
    args.push(String::from_str("-f"));
    args.push(String::from_str("null"));
    args.push(String::from_str("-"));
    args
}

/// Cuts `[start, start + duration)` out of `input` into `output` by stream
/// copy: no re-encoding, times rendered as decimal seconds.
pub fn extract_clip_args(input: &str, output: &str, start_ms: u64, duration_ms: u64) -> (args: Vec<
    String,
>)
    ensures
        args@.len() == 10,
        args@[0]@ == "-y"@,
        args@[1]@ == "-ss"@,
        args@[2]@ == seconds_str(start_ms as int),
        args@[3]@ == "-i"@,
        args@[4]@ == input@,
        args@[5]@ == "-t"@,
        args@[6]@ == seconds_str(duration_ms as int),
        args@[7]@ == "-c"@,
        args@[8]@ == "copy"@,
        args@[9]@ == output@,
{
    let mut args: Vec<String> = Vec::new();
    args.push(String::from_str("-y"));
    args.push(String::from_str("-ss"));
    args.push(format_seconds(start_ms));
    args.push(String::from_str("-i"));
    args.push(String::from_str(input));
    args.push(String::from_str("-t"));
    args.push(format_seconds(duration_ms));
    args.push(String::from_str("-c"));
    args.push(String::from_str("copy"));
    args.push(String::from_str(output));
    args
}

/// Converts `input` to the vertical 1080x1920 format through the given
/// video filter, with H.264 video and AAC audio, progress reported on the
/// diagnostic stream.
pub fn vertical_filter_args(input: &str, output: &str, filter: String) -> (args: Vec<String>)
    ensures
        args@.len() == 18,
        args@[0]@ == "-y"@,
        args@[1]@ == "-i"@,
        args@[2]@ == input@,
        args@[3]@ == "-vf"@,
        args@[4]@ == filter@,
        args@[5]@ == "-c:v"@,
        args@[6]@ == "libx264"@,
        args@[7]@ == "-preset"@,
        args@[8]@ == "fast"@,
        args@[9]@ == "-crf"@,
        args@[10]@ == "20"@,
        args@[11]@ == "-c:a"@,
        args@[12]@ == "aac"@,
        args@[13]@ == "-b:a"@,
        args@[14]@ == "192k"@,
        args@[15]@ == "-progress"@,
        args@[16]@ == "pipe:2"@,
        args@[17]@ == output@,
{
    let mut args: Vec<String> = Vec::new();
    args.push(String::from_str("-y"));
    args.push(String::from_str("-i"));
    args.push(String::from_str(input));
    args.push(String::from_str("-vf"));
    args.push(filter);
    args.push(String::from_str("-c:v"));
    args.push(String::from_str("libx264"));
    args.push(String::from_str("-preset"));
    args.push(String::from_str("fast"));
    args.push(String::from_str("-crf"));
    args.push(String::from_str("20"));
    args.push(String::from_str("-c:a"));
    args.push(String::from_str("aac"));
    args.push(String::from_str("-b:a"));
    args.push(String::from_str("192k"));
    args.push(String::from_str("-progress"));
    args.push(String::from_str("pipe:2"));
    args.push(String::from_str(output));
    args
}

/// Converts `input` to the vertical 1080x1920 format with no captions.
pub fn vertical_convert_args(input: &str, output: &str) -> (args: Vec<String>)
    ensures
        args@.len() == 18,
        args@[0]@ == "-y"@,
        args@[1]@ == "-i"@,
        args@[2]@ == input@,
        args@[3]@ == "-vf"@,
        args@[4]@
            == "scale=1080:1920:force_original_aspect_ratio=decrease,pad=1080:1920:(ow-iw)/2:(oh-ih)/2:color=black,setsar=1,format=yuv420p"@,
        args@[5]@ == "-c:v"@,
        args@[6]@ == "libx264"@,
        args@[7]@ == "-preset"@,
        args@[8]@ == "fast"@,
        args@[9]@ == "-crf"@,
        args@[10]@ == "20"@,
        args@[11]@ == "-c:a"@,
        args@[12]@ == "aac"@,
        args@[13]@ == "-b:a"@,
        args@[14]@ == "192k"@,
        args@[15]@ == "-progress"@,
        args@[16]@ == "pipe:2"@,
        args@[17]@ == output@,
{
    vertical_filter_args(input, output, crate::captions::base_frame_filter())
}

/// Burns captions into `input` using the given burn-in filter, copying the
/// audio untouched.
pub fn burn_in_args(input: &str, output: &str, filter: String) -> (args: Vec<String>)
    ensures
        args@.len() == 14,
        args@[0]@ == "-y"@,
        args@[1]@ == "-i"@,
        args@[2]@ == input@,
        args@[3]@ == "-vf"@,
        args@[4]@ == filter@,
        args@[5]@ == "-c:v"@,
        args@[6]@ == "libx264"@,
        args@[7]@ == "-preset"@,
        args@[8]@ == "fast"@,
        args@[9]@ == "-crf"@,
        args@[10]@ == "20"@,
        args@[11]@ == "-c:a"@,
        args@[12]@ == "copy"@,
        args@[13]@ == output@,
{
    let mut args: Vec<String> = Vec::new();
    args.push(String::from_str("-y"));
    args.push(String::from_str("-i"));
    args.push(String::from_str(input));
    args.push(String::from_str("-vf"));
    args.push(filter);
    args.push(String::from_str("-c:v"));
    args.push(String::from_str("libx264"));
    args.push(String::from_str("-preset"));
    args.push(String::from_str("fast"));
    args.push(String::from_str("-crf"));
    args.push(String::from_str("20"));
    args.push(String::from_str("-c:a"));
    args.push(String::from_str("copy"));
    args.push(String::from_str(output));
    args
}

/// Renders `input` with a multi-stage filter graph and maps its final
/// labelled output: the emoji-overlay pipeline's invocation.
pub fn overlay_render_args(input: &str, output: &str, filter_complex: String) -> (args: Vec<
    String,
>)
    ensures
        args@.len() == 18,
        args@[0]@ == "-y"@,
        args@[1]@ == "-i"@,
        args@[2]@ == input@,
        args@[3]@ == "-filter_complex"@,
        args@[4]@ == filter_complex@,
        args@[5]@ == "-map"@,
        args@[6]@ == "[vN]"@,
        args@[7]@ == "-c:v"@,
        args@[8]@ == "libx264"@,
        args@[9]@ == "-preset"@,
        args@[10]@ == "fast"@,
        args@[11]@ == "-crf"@,
        args@[12]@ == "20"@,
        args@[13]@ == "-c:a"@,
        args@[14]@ == "aac"@,
        args@[15]@ == "-b:a"@,
        args@[16]@ == "192k"@,
        args@[17]@ == output@,
{
    let mut args: Vec<String> = Vec::new();
    args.push(String::from_str("-y"));
    args.push(String::from_str("-i"));
    args.push(String::from_str(input));
    args.push(String::from_str("-filter_complex"));
    args.push(filter_complex);
    args.push(String::from_str("-map"));
    args.push(String::from_str("[vN]"));
    args.push(String::from_str("-c:v"));
    args.push(String::from_str("libx264"));
    args.push(String::from_str("-preset"));
    args.push(String::from_str("fast"));
    args.push(String::from_str("-crf"));
    args.push(String::from_str("20"));
    args.push(String::from_str("-c:a"));
    args.push(String::from_str("aac"));
    args.push(String::from_str("-b:a"));
    args.push(String::from_str("192k"));
    args.push(String::from_str(output));
    args
}

/// Extracts the audio track as 16 kHz mono 16-bit PCM, the format the
/// speech-to-text engine takes.
pub fn audio_extract_args(video_path: &str, audio_output: &str) -> (args: Vec<String>)
    ensures
        args@.len() == 11,
        args@[0]@ == "-y"@,
        args@[1]@ == "-i"@,
        args@[2]@ == video_path@,
        args@[3]@ == "-vn"@,
        args@[4]@ == "-acodec"@,
        args@[5]@ == "pcm_s16le"@,
        args@[6]@ == "-ar"@,
        args@[7]@ == "16000"@,
        args@[8]@ == "-ac"@,
        args@[9]@ == "1"@,
        args@[10]@ == audio_output@,
{
    let mut args: Vec<String> = Vec::new();
    args.push(String::from_str("-y"));
    args.push(String::from_str("-i"));
    args.push(String::from_str(video_path));
    args.push(String::from_str("-vn"));
    args.push(String::from_str("-acodec"));
    args.push(String::from_str("pcm_s16le"));
    args.push(String::from_str("-ar"));
    args.push(String::from_str("16000"));
    args.push(String::from_str("-ac"));
    args.push(String::from_str("1"));
    args.push(String::from_str(audio_output));
    args
}

/// Asks the speech-to-text engine to transcribe `audio_path` into
/// `output_path` with the given model size.
pub fn transcribe_args(audio_path: &str, output_path: &str, model: &str) -> (args: Vec<String>)
    ensures
        args@.len() == 3,
        args@[0]@ == audio_path@,
        args@[1]@ == output_path@,
        args@[2]@ == model@,
{
    let mut args: Vec<String> = Vec::new();
    args.push(String::from_str(audio_path));
    args.push(String::from_str(output_path));
    args.push(String::from_str(model));
    args
}

} // verus!
