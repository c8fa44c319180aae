//! Video-source fetcher support: the argument vectors handed to the fetch
//! tool, the defaulting rules for its metadata answers, and the selection
//! of the file a download produced.
use vstd::prelude::*;
use vstd::string::StringExecFns;

use crate::text::eq_ignore_case_seq;
use crate::text::eq_ignore_ascii_case_chars;
use crate::text::chars_of;

verus! {

/// Metadata of one remote video, as far as the fetcher reports it.
pub struct VideoInfo {
    /// The video's title; `Unknown` when the fetcher did not say.
    pub title: String,
    /// Total duration in milliseconds; 0 when the fetcher did not say.
    pub duration_ms: u64,
    /// The uploader's name; `Unknown` when the fetcher did not say.
    pub uploader: String,
}

/// Builds the metadata record, filling each missing field with its
/// documented default.
pub fn video_info_from_fields(title: Option<String>, duration_ms: Option<u64>, uploader: Option<
    String,
>) -> (r: VideoInfo)
    ensures
        match title {
            Some(t) => r.title@ == t@,
            None => r.title@ == "Unknown"@,
        },
        match duration_ms {
            Some(d) => r.duration_ms == d,
            None => r.duration_ms == 0,
        },
        match uploader {
            Some(u) => r.uploader@ == u@,
            None => r.uploader@ == "Unknown"@,
        },
{
    VideoInfo {
        title: match title {
            Some(t) => t,
            None => String::from_str("Unknown"),
        },
        duration_ms: match duration_ms {
            Some(d) => d,
            None => 0,
        },
        uploader: match uploader {
            Some(u) => u,
            None => String::from_str("Unknown"),
        },
    }
}

/// The fetcher's output template: files land in the directory under their
/// own title and container extension.
pub fn download_output_template(output_dir: &str) -> (r: String)
    ensures
        r@ == output_dir@ + "/%(title)s.%(ext)s"@,
{
    let mut r = String::from_str(output_dir);
    r.append("/%(title)s.%(ext)s");
    r
}

/// Asks the fetcher to download one video (never a playlist) in the best
/// available MP4 form, reporting progress line by line.
pub fn download_args(url: &str, output_template: &str) -> (args: Vec<String>)
    ensures
        args@.len() == 8,
        args@[0]@ == url@,
        args@[1]@ == "-f"@,
        args@[2]@ == "bestvideo[ext=mp4]+bestaudio[ext=m4a]/best[ext=mp4]/best"@,
        args@[3]@ == "-o"@,
        args@[4]@ == output_template@,
        args@[5]@ == "--no-playlist"@,
        args@[6]@ == "--progress"@,
        args@[7]@ == "--newline"@,
{
    let mut args: Vec<String> = Vec::new();
    args.push(String::from_str(url));
    args.push(String::from_str("-f"));
    args.push(String::from_str("bestvideo[ext=mp4]+bestaudio[ext=m4a]/best[ext=mp4]/best"));
    args.push(String::from_str("-o"));
    args.push(String::from_str(output_template));
    args.push(String::from_str("--no-playlist"));
    args.push(String::from_str("--progress"));
    args.push(String::from_str("--newline"));
    args
}

/// Asks the fetcher for one video's metadata as a single structured object,
/// without downloading.
pub fn info_args(url: &str) -> (args: Vec<String>)
    ensures
        args@.len() == 3,
        args@[0]@ == url@,
        args@[1]@ == "--dump-json"@,
        args@[2]@ == "--no-playlist"@,
{
    let mut args: Vec<String> = Vec::new();
    args.push(String::from_str(url));
    args.push(String::from_str("--dump-json"));
    args.push(String::from_str("--no-playlist"));
    args
}

/// The user-visible failure text of a download: the fetcher's own
/// diagnostics when it printed any, a pointed hint otherwise.
pub fn download_failure_message(stderr: &str) -> (r: String)
    ensures
        stderr@.len() == 0 ==> r@ == "YouTube download failed. Check the URL and try again."@,
        stderr@.len() > 0 ==> r@ == "YouTube download failed: "@ + stderr@,
{
    if stderr.is_empty() {
        String::from_str("YouTube download failed. Check the URL and try again.")
    } else {
        let mut r = String::from_str("YouTube download failed: ");
        r.append(stderr);
        r
    }
}

/// The container extensions recognised as video files, up to ASCII case.
pub open spec fn is_video_extension_spec(ext: Seq<char>) -> bool {
    ||| eq_ignore_case_seq(ext, seq!['m', 'p', '4'])
    ||| eq_ignore_case_seq(ext, seq!['m', 'k', 'v'])
    ||| eq_ignore_case_seq(ext, seq!['w', 'e', 'b', 'm'])
    ||| eq_ignore_case_seq(ext, seq!['m', 'o', 'v'])
    ||| eq_ignore_case_seq(ext, seq!['a', 'v', 'i'])
}

/// Is this file extension one of the recognised video containers?
pub fn is_video_extension(ext: &str) -> (b: bool)
    ensures
        b == is_video_extension_spec(ext@),
{
    let v = chars_of(ext);
    let mp4: Vec<char> = vec!['m', 'p', '4'];
    let mkv: Vec<char> = vec!['m', 'k', 'v'];
    let webm: Vec<char> = vec!['w', 'e', 'b', 'm'];
    let mov: Vec<char> = vec!['m', 'o', 'v'];
    let avi: Vec<char> = vec!['a', 'v', 'i'];
    proof {
        assert(mp4@ =~= seq!['m', 'p', '4']);
        assert(mkv@ =~= seq!['m', 'k', 'v']);
        assert(webm@ =~= seq!['w', 'e', 'b', 'm']);
        assert(mov@ =~= seq!['m', 'o', 'v']);
        assert(avi@ =~= seq!['a', 'v', 'i']);
    }
    eq_ignore_ascii_case_chars(&v, &mp4) || eq_ignore_ascii_case_chars(&v, &mkv)
        || eq_ignore_ascii_case_chars(&v, &webm) || eq_ignore_ascii_case_chars(&v, &mov)
        || eq_ignore_ascii_case_chars(&v, &avi)
}

/// Picks the most recent of the candidate files by modification time: the
/// last index carrying the maximum. `None` only for an empty list.
pub fn latest_pick(mtimes: &Vec<u64>) -> (r: Option<usize>)
    ensures
        match r {
            Some(i) => i < mtimes@.len() && (forall|j: int|
                0 <= j < mtimes@.len() ==> mtimes@[j] <= mtimes@[i as int]) && (forall|j: int|
                i < j < mtimes@.len() ==> mtimes@[j] < mtimes@[i as int]),
            None => mtimes@.len() == 0,
        },
{
    if mtimes.len() == 0 {
        return None;
    }
    let mut best: usize = 0;
    let mut i: usize = 1;
    while i < mtimes.len()
        invariant
            best < i <= mtimes@.len(),
            forall|j: int| 0 <= j < i ==> mtimes@[j] <= mtimes@[best as int],
            forall|j: int| best < j < i ==> mtimes@[j] < mtimes@[best as int],
        decreases mtimes@.len() - i,
    {
        if mtimes[i] >= mtimes[best] {
            best = i;
        }
        i = i + 1;
    }
    Some(best)
}

} // verus!
