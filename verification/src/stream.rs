//! Progress stream reading: classifying the transcoder's diagnostic lines
//! and extracting scene-change timestamps from its marker lines. Lines
//! arrive one at a time from a live stream; everything here is a pure
//! function of the line's characters.
use vstd::prelude::*;

use crate::clip::TIME_LIMIT_MS;
use crate::numbers::is_decimal_seconds;
use crate::numbers::parse_seconds_ms;
use crate::numbers::seconds_value_ms;
use crate::text::chars_of;
use crate::text::copy_range;
use crate::text::find_pattern;
use crate::text::has_substring;
use crate::text::is_match_at;
use crate::text::starts_with_seq;
use crate::text::trim_chars;
use crate::text::trim_spec;

verus! {

/// One event republished from a child process's diagnostic stream: either an
/// ordinary log line or an encoding-progress update.
pub enum ProgressEvent {
    /// A line to show as-is.
    Log(String),
    /// A line that only reports that encoding is still under way.
    Progress(String),
}

/// Index of the first occurrence of `p` in `s`, if any.
pub open spec fn find_first(s: Seq<char>, p: Seq<char>) -> Option<int>
    decreases s.len(),
{
    if starts_with_seq(s, p) {
        Some(0int)
    } else if s.len() == 0 {
        None
    } else {
        match find_first(s.drop_first(), p) {
            Some(i) => Some(i + 1),
            None => None,
        }
    }
}

/// `find_first` names exactly the first match position.
proof fn lemma_find_first_correct(s: Seq<char>, p: Seq<char>)
    ensures
        match find_first(s, p) {
            Some(i) => 0 <= i && is_match_at(s, p, i) && forall|j: int|
                0 <= j < i ==> !is_match_at(s, p, j),
            None => !has_substring(s, p),
        },
    decreases s.len(),
{
    if starts_with_seq(s, p) {
        assert(s.subrange(0, p.len() as int) == p);
        assert(is_match_at(s, p, 0));
    } else if s.len() == 0 {
        assert forall|j: int| !is_match_at(s, p, j) by {
            if is_match_at(s, p, j) {
                assert(j == 0 && p.len() == 0);
                assert(starts_with_seq(s, p));
            }
        }
    } else {
        lemma_find_first_correct(s.drop_first(), p);
        assert forall|j: int| 1 <= j implies (is_match_at(s, p, j) == is_match_at(
            s.drop_first(),
            p,
            j - 1,
        )) by {
            if 1 <= j && j + p.len() <= s.len() {
                assert(s.subrange(j, j + p.len() as int) =~= s.drop_first().subrange(
                    j - 1,
                    j - 1 + p.len() as int,
                ));
            }
        }
        match find_first(s.drop_first(), p) {
            Some(i) => {
                assert(is_match_at(s, p, i + 1));
                assert forall|j: int| 0 <= j < i + 1 implies !is_match_at(s, p, j) by {
                    if j == 0 {
                        if is_match_at(s, p, 0) {
                            assert(starts_with_seq(s, p));
                        }
                    } else {
                        assert(!is_match_at(s.drop_first(), p, j - 1));
                    }
                }
            },
            None => {
                assert forall|j: int| !is_match_at(s, p, j) by {
                    if is_match_at(s, p, j) {
                        if j == 0 {
                            assert(starts_with_seq(s, p));
                        } else {
                            assert(is_match_at(s.drop_first(), p, j - 1));
                            assert(has_substring(s.drop_first(), p));
                        }
                    }
                }
            },
        }
    }
}

/// Bridges the executable search to `find_first`.
proof fn lemma_find_matches(s: Seq<char>, p: Seq<char>, r: Option<usize>)
    requires
        match r {
            Some(i) => is_match_at(s, p, i as int) && forall|j: int|
                0 <= j < i ==> !is_match_at(s, p, j),
            None => !has_substring(s, p),
        },
    ensures
        match r {
            Some(i) => find_first(s, p) == Some(i as int),
            None => find_first(s, p) is None,
        },
{
    lemma_find_first_correct(s, p);
    match r {
        Some(i) => {
            match find_first(s, p) {
                Some(w) => {
                    if w < i {
                        assert(!is_match_at(s, p, w));
                    }
                    if i < w {
                        assert(!is_match_at(s, p, i as int));
                    }
                },
                None => {
                    assert(has_substring(s, p));
                },
            }
        },
        None => {
            if find_first(s, p) is Some {
                let w = find_first(s, p)->0;
                assert(is_match_at(s, p, w));
                assert(has_substring(s, p));
            }
        },
    }
}

/// The marker that precedes a scene-change time offset in the transcoder's
/// diagnostic output.
pub open spec fn scene_marker() -> Seq<char> {
    seq!['p', 't', 's', '_', 't', 'i', 'm', 'e', ':']
}

/// The token holding the time offset: the text after the first marker, cut
/// at the next space, or whitespace-trimmed when no space follows.
pub open spec fn scene_token(s: Seq<char>) -> Seq<char>
    recommends
        find_first(s, scene_marker()) is Some,
{
    let rest = s.skip(find_first(s, scene_marker())->0 + scene_marker().len() as int);
    match find_first(rest, seq![' ']) {
        Some(j) => rest.take(j),
        None => trim_spec(rest),
    }
}

/// The scene timestamp a diagnostic line carries: present exactly when the
/// line holds the marker and the token after it is a decimal seconds
/// literal within range. Malformed lines yield nothing; diagnostic streams
/// are expected to contain non-matching noise.
pub open spec fn scene_time_spec(s: Seq<char>) -> Option<u64> {
    match find_first(s, scene_marker()) {
        None => None,
        Some(i) => {
            let tok = scene_token(s);
            if is_decimal_seconds(tok) && seconds_value_ms(tok) <= TIME_LIMIT_MS {
                Some(seconds_value_ms(tok) as u64)
            } else {
                None
            }
        },
    }
}

/// Scans one diagnostic line for a scene-change time offset.
pub fn scene_time_of_line(line: &str) -> (r: Option<u64>)
    ensures
        r == scene_time_spec(line@),
{
    let v = chars_of(line);
    let marker: Vec<char> = vec!['p', 't', 's', '_', 't', 'i', 'm', 'e', ':'];
    proof {
        assert(marker@ =~= scene_marker());
    }
    let found = find_pattern(&v, &marker);
    proof {
        lemma_find_matches(v@, marker@, found);
    }
    match found {
        None => None,
        Some(i) => {
            let n: usize = v.len();
            proof {
                assert(i as int + 9 <= n as int);
            }
            let rest = copy_range(&v, i + 9, n);
            proof {
                assert(rest@ =~= v@.skip(i as int + 9));
            }
            let space: Vec<char> = vec![' '];
            proof {
                assert(space@ =~= seq![' ']);
            }
            let sp = find_pattern(&rest, &space);
            proof {
                lemma_find_matches(rest@, space@, sp);
            }
            let tok: Vec<char> = match sp {
                Some(j) => copy_range(&rest, 0, j),
                None => trim_chars(&rest),
            };
            proof {
                assert(tok@ == scene_token(v@));
            }
            parse_seconds_ms(&tok)
        },
    }
}

/// `x + 1`, stopping at the top of the counter's range.
pub open spec fn saturating_inc(x: u64) -> u64 {
    if x == u64::MAX {
        x
    } else {
        (x + 1) as u64
    }
}

/// Collects the scene timestamps of one detector run as its diagnostic
/// lines arrive, and counts marker lines whose offset could not be parsed
/// (dropped by design, but counted for observability).
pub struct SceneCollector {
    /// Timestamps in arrival order, milliseconds.
    pub times: Vec<u64>,
    /// Marker lines dropped because their token did not parse.
    pub skipped: u64,
}

impl SceneCollector {
    /// An empty collector.
    pub fn new() -> (c: SceneCollector)
        ensures
            c.times@ == Seq::<u64>::empty(),
            c.skipped == 0,
    {
        SceneCollector { times: Vec::new(), skipped: 0 }
    }

    /// Feeds one diagnostic line: appends its timestamp when it carries one;
    /// counts it as skipped when it carries the marker but no parseable
    /// offset; ignores it otherwise.
    pub fn feed_line(&mut self, line: &str)
        ensures
            match scene_time_spec(line@) {
                Some(t) => final(self).times@ == old(self).times@.push(t) && final(self).skipped
                    == old(self).skipped,
                None => final(self).times@ == old(self).times@ && final(self).skipped == if
                    has_substring(line@, scene_marker()) {
                    saturating_inc(old(self).skipped)
                } else {
                    old(self).skipped
                },
            },
    {
        proof {
            lemma_find_first_correct(line@, scene_marker());
        }
        match scene_time_of_line(line) {
            Some(t) => {
                self.times.push(t);
            },
            None => {
                let v = chars_of(line);
                let marker: Vec<char> = vec!['p', 't', 's', '_', 't', 'i', 'm', 'e', ':'];
                proof {
                    assert(marker@ =~= scene_marker());
                }
                let found = find_pattern(&v, &marker);
                if found.is_some() {
                    if self.skipped < u64::MAX {
                        self.skipped = self.skipped + 1;
                    }
                }
                proof {
                    match found {
                        Some(i) => {
                            assert(has_substring(line@, scene_marker()));
                        },
                        None => {},
                    }
                }
            },
        }
    }
}

/// The markers that tag a diagnostic line as an encoding-progress update:
/// elapsed time, frame count, or frame rate.
pub open spec fn is_progress_spec(s: Seq<char>) -> bool {
    ||| has_substring(s, seq!['t', 'i', 'm', 'e', '='])
    ||| has_substring(s, seq!['f', 'r', 'a', 'm', 'e', '='])
    ||| has_substring(s, seq!['f', 'p', 's', '='])
}

/// Is this diagnostic line an encoding-progress update?
pub fn is_progress_line(line: &str) -> (b: bool)
    ensures
        b == is_progress_spec(line@),
{
    let v = chars_of(line);
    let time_marker: Vec<char> = vec!['t', 'i', 'm', 'e', '='];
    let frame_marker: Vec<char> = vec!['f', 'r', 'a', 'm', 'e', '='];
    let fps_marker: Vec<char> = vec!['f', 'p', 's', '='];
    proof {
        assert(time_marker@ =~= seq!['t', 'i', 'm', 'e', '=']);
        assert(frame_marker@ =~= seq!['f', 'r', 'a', 'm', 'e', '=']);
        assert(fps_marker@ =~= seq!['f', 'p', 's', '=']);
    }
    let mut b = crate::text::contains_pattern(&v, &time_marker);
    if !b {
        b = crate::text::contains_pattern(&v, &frame_marker);
    }
    if !b {
        b = crate::text::contains_pattern(&v, &fps_marker);
    }
    b
}

/// Classifies one diagnostic line: progress updates are collapsed into a
/// "still working" signal; everything else is republished as a log line.
pub fn classify_line(line: String) -> (e: ProgressEvent)
    ensures
        is_progress_spec(line@) ==> (e matches ProgressEvent::Progress(t) && t@ == line@),
        !is_progress_spec(line@) ==> (e matches ProgressEvent::Log(t) && t@ == line@),
{
    if is_progress_line(line.as_str()) {
        ProgressEvent::Progress(line)
    } else {
        ProgressEvent::Log(line)
    }
}

} // verus!
