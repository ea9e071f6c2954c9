//! StoryHighlightVideo: a short vertical video drafted from lines of a
//! local text, with narration, subtitles and a reviewable draft package.
use vstd::prelude::*;

use crate::config::StoryVideoConfig;
use crate::error::{CutlineError, ErrorKind, Result};
use crate::ffmpeg::{command_line, story_preview_args, story_preview_render_args, FfmpegCommand};
use crate::digest::{hex, sha256_hex, sha256_of};
use crate::paths::{join_path, path_join, path_strip_prefix, strip_path_prefix};
use crate::model::{NormalizedProject, StoryVideo};
use crate::text::{
    byte_offsets, decimal, find_sub, find_sub_range, is_whitespace, is_whitespace_char,
    lemma_encode_utf8_len, line_ranges, lines, padded_decimal_chars, trim_end, trim_end_range,
    trim_start, utf8_bytes_len,
    push_chars, push_decimal, push_str, range_string, range_texts, str_chars, string_from_chars,
    push_string, push_strings, str_equal, string_of, string_views, trim, trim_range, zero_padded,
};
use crate::time::TimeValue;
use vstd::utf8::encode_utf8;

verus! {

/// `r` is the story video configured by `config`.
pub open spec fn generated_story(config: StoryVideoConfig, r: StoryVideo) -> bool {
    &&& r.name@ == config.name@
    &&& r.source@ == config.source@
    &&& r.start_line == config.start_line
    &&& r.end_line == config.end_line
    &&& r.engagement_angle@ == config.engagement_angle@
    &&& r.background@ == config.background@
    &&& r.voice_provider == config.voice_provider
    &&& r.platform@ == config.platform@
}

/// The story video a configuration describes.
pub fn generate_story_video(config: &StoryVideoConfig) -> (r: StoryVideo)
    ensures
        generated_story(*config, r),
{
    StoryVideo {
        name: config.name.clone(),
        source: config.source.clone(),
        start_line: config.start_line,
        end_line: config.end_line,
        engagement_angle: config.engagement_angle.clone(),
        background: config.background.clone(),
        voice_provider: clone_opt_string(&config.voice_provider),
        platform: config.platform.clone(),
    }
}

/// A copy of an optional string.
pub fn clone_opt_string(s: &Option<String>) -> (r: Option<String>)
    ensures
        r == *s,
{
    match s {
        Some(x) => Some(x.clone()),
        None => None,
    }
}

// ---------------------------------------------------------------- subtitles

/// At most this many characters on a subtitle line.
pub const SUBTITLE_MAX_CHARS_PER_LINE: usize = 18;

/// Each subtitle cue stays this long on screen.
pub const SUBTITLE_CUE_DURATION_MILLIS: u64 = 2000;

/// The punctuation after which a subtitle line ends.
pub open spec fn is_line_break_mark(c: char) -> bool {
    c == '，' || c == '。' || c == '！' || c == '？' || c == '；' || c == '：'
}

fn line_break_mark(c: char) -> (r: bool)
    ensures
        r == is_line_break_mark(c),
{
    c == '，' || c == '。' || c == '！' || c == '？' || c == '；' || c == '：'
}

/// The characters of `s` that are not whitespace.
pub open spec fn non_whitespace(s: Seq<char>) -> Seq<char>
    decreases s.len(),
{
    if s.len() == 0 {
        Seq::empty()
    } else if is_whitespace(s.last()) {
        non_whitespace(s.drop_last())
    } else {
        non_whitespace(s.drop_last()).push(s.last())
    }
}

/// Subtitle lines cut from `cs`, continuing the line `current`: a line ends
/// once it holds `max` characters or after a break mark.
pub open spec fn subtitle_lines_from(cs: Seq<char>, current: Seq<char>, max: nat) -> Seq<Seq<char>>
    decreases cs.len(),
{
    if cs.len() == 0 {
        if current.len() > 0 {
            seq![current]
        } else {
            Seq::empty()
        }
    } else {
        let cur = current.push(cs[0]);
        if cur.len() >= max || is_line_break_mark(cs[0]) {
            seq![cur] + subtitle_lines_from(cs.drop_first(), Seq::empty(), max)
        } else {
            subtitle_lines_from(cs.drop_first(), cur, max)
        }
    }
}

/// The subtitle lines of a text: its characters other than whitespace, cut
/// into lines of at most `max` characters, a line also ending after
/// `，。！？；：`.
pub open spec fn subtitle_lines(text: Seq<char>, max: nat) -> Seq<Seq<char>> {
    subtitle_lines_from(non_whitespace(text), Seq::empty(), max)
}

fn non_whitespace_chars(text: &str) -> (r: Vec<char>)
    ensures
        r@ == non_whitespace(text@),
{
    let cs = str_chars(text);
    let mut r: Vec<char> = Vec::new();
    let mut i: usize = 0;
    while i < cs.len()
        invariant
            0 <= i <= cs@.len(),
            cs@ == text@,
            r@ == non_whitespace(cs@.take(i as int)),
        decreases cs.len() - i,
    {
        proof {
            assert(cs@.take(i + 1).drop_last() =~= cs@.take(i as int));
        }
        if !is_whitespace_char(cs[i]) {
            r.push(cs[i]);
        }
        i += 1;
    }
    assert(cs@.take(i as int) =~= cs@);
    r
}

/// Cuts a text into subtitle lines of at most `max_chars` characters,
/// dropping whitespace and ending a line after `，。！？；：`.
pub fn split_subtitle_text(text: &str, max_chars: usize) -> (r: Vec<String>)
    ensures
        string_views(r@) == subtitle_lines(text@, max_chars as nat),
{
    let cs = non_whitespace_chars(text);
    let mut lines: Vec<String> = Vec::new();
    let mut current: Vec<char> = Vec::new();
    let mut i: usize = 0;
    assert(cs@.skip(0) =~= cs@);
    while i < cs.len()
        invariant
            0 <= i <= cs@.len(),
            cs@ == non_whitespace(text@),
            string_views(lines@) + subtitle_lines_from(cs@.skip(i as int), current@, max_chars as nat)
                == subtitle_lines(text@, max_chars as nat),
        decreases cs.len() - i,
    {
        let c = cs[i];
        let ghost before = string_views(lines@);
        let ghost rest = cs@.skip(i as int);
        assert(rest[0] == c);
        assert(rest.drop_first() =~= cs@.skip(i + 1));
        current.push(c);
        if current.len() >= max_chars || line_break_mark(c) {
            let line = string_from_chars(&current);
            lines.push(line);
            current = Vec::new();
            proof {
                assert(string_views(lines@) =~= before.push(line@));
                let tail = subtitle_lines_from(cs@.skip(i + 1), Seq::empty(), max_chars as nat);
                assert(before + (seq![line@] + tail) =~= before.push(line@) + tail);
                assert(current@ =~= Seq::<char>::empty());
            }
        }
        i += 1;
    }
    proof {
        assert(cs@.skip(i as int) =~= Seq::<char>::empty());
    }
    if current.len() > 0 {
        let ghost before = string_views(lines@);
        let line = string_from_chars(&current);
        lines.push(line);
        assert(string_views(lines@) =~= before + seq![line@]);
    } else {
        assert(string_views(lines@) =~= string_views(lines@) + Seq::<Seq<char>>::empty());
    }
    lines
}

/// Subtitle lines hold between one and `max` characters, and together they
/// are the text without its whitespace.
pub proof fn law_subtitle_lines(cs: Seq<char>, current: Seq<char>, max: nat)
    requires
        max >= 1,
        current.len() < max,
    ensures
        forall|k: int|
            0 <= k < subtitle_lines_from(cs, current, max).len() ==> 1 <= (
            #[trigger] subtitle_lines_from(cs, current, max)[k]).len() <= max,
        subtitle_lines_from(cs, current, max).flatten() == current + cs,
    decreases cs.len(),
{
    let r = subtitle_lines_from(cs, current, max);
    if cs.len() == 0 {
        if current.len() > 0 {
            assert(r == seq![current]);
            assert(r.drop_first() =~= Seq::<Seq<char>>::empty());
            assert(r.flatten() == current + r.drop_first().flatten());
            assert(current + cs =~= current);
            assert(current + Seq::<char>::empty() =~= current);
        } else {
            assert(current + cs =~= Seq::<char>::empty());
        }
    } else {
        let cur = current.push(cs[0]);
        assert(current + cs =~= cur + cs.drop_first());
        if cur.len() >= max || is_line_break_mark(cs[0]) {
            let tail = subtitle_lines_from(cs.drop_first(), Seq::empty(), max);
            law_subtitle_lines(cs.drop_first(), Seq::empty(), max);
            assert(r == seq![cur] + tail);
            assert(r.drop_first() =~= tail);
            assert(r[0] == cur);
            assert(Seq::<char>::empty() + cs.drop_first() =~= cs.drop_first());
            assert forall|k: int| 0 <= k < r.len() implies 1 <= (#[trigger] r[k]).len() <= max by {
                if k > 0 {
                    assert(r[k] == tail[k - 1]);
                }
            }
        } else {
            law_subtitle_lines(cs.drop_first(), cur, max);
        }
    }
}

/// Whether `c` is one of the punctuation marks `，。！？；：`.
pub open spec fn is_cjk_pause(c: char) -> bool {
    c == '，' || c == '。' || c == '！' || c == '？' || c == '；' || c == '：'
}

/// No subtitle line holds `，。！？；：` but as its last character: a line
/// always ends right after such a mark.
pub proof fn law_subtitle_marks_end_lines(text: Seq<char>, max: nat)
    ensures
        forall|k: int, j: int|
            0 <= k < subtitle_lines(text, max).len() && 0 <= j < subtitle_lines(text, max)[k].len()
                - 1 ==> !is_cjk_pause(#[trigger] subtitle_lines(text, max)[k][j]),
{
    lemma_subtitle_marks_end_lines(non_whitespace(text), Seq::empty(), max);
}

proof fn lemma_subtitle_marks_end_lines(cs: Seq<char>, current: Seq<char>, max: nat)
    requires
        forall|j: int| 0 <= j < current.len() ==> !is_cjk_pause(#[trigger] current[j]),
    ensures
        forall|k: int, j: int|
            0 <= k < subtitle_lines_from(cs, current, max).len() && 0 <= j < subtitle_lines_from(
                cs,
                current,
                max,
            )[k].len() - 1 ==> !is_cjk_pause(#[trigger] subtitle_lines_from(cs, current, max)[k][j]),
    decreases cs.len(),
{
    let r = subtitle_lines_from(cs, current, max);
    if cs.len() == 0 {
        if current.len() > 0 {
            assert(r == seq![current]);
            assert forall|k: int, j: int| 0 <= k < r.len() && 0 <= j < r[k].len() - 1 implies !is_cjk_pause(
                #[trigger] r[k][j],
            ) by {
                assert(r[k] == current);
            }
        } else {
            assert(r.len() == 0);
        }
    } else {
        let cur = current.push(cs[0]);
        if cur.len() >= max || is_line_break_mark(cs[0]) {
            let tail = subtitle_lines_from(cs.drop_first(), Seq::empty(), max);
            lemma_subtitle_marks_end_lines(cs.drop_first(), Seq::empty(), max);
            assert(r == seq![cur] + tail);
            assert forall|k: int, j: int| 0 <= k < r.len() && 0 <= j < r[k].len() - 1 implies !is_cjk_pause(
                #[trigger] r[k][j],
            ) by {
                if k == 0 {
                    assert(r[0] == cur);
                    assert(cur[j] == current[j]);
                } else {
                    assert(r[k] == tail[k - 1]);
                }
            }
        } else {
            assert(!is_cjk_pause(cs[0]));
            assert forall|j: int| 0 <= j < cur.len() implies !is_cjk_pause(#[trigger] cur[j]) by {
                if j < current.len() {
                    assert(cur[j] == current[j]);
                }
            }
            lemma_subtitle_marks_end_lines(cs.drop_first(), cur, max);
            assert(r == subtitle_lines_from(cs.drop_first(), cur, max));
        }
    }
}

/// A subtitle cue: its number, from one, when it shows and ends, and its
/// line.
#[derive(Debug, Clone)]
pub struct SubtitleCue {
    pub index: usize,
    pub start_millis: u64,
    pub end_millis: u64,
    pub text: String,
}

/// The cues of a narration: one line after the other, each shown for two
/// seconds from the end of the one before.
pub open spec fn cues_of(lines: Seq<Seq<char>>, cues: Seq<SubtitleCue>) -> bool {
    &&& cues.len() == lines.len()
    &&& forall|k: int|
        0 <= k < cues.len() ==> {
            let c = #[trigger] cues[k];
            &&& c.index == k + 1
            &&& c.start_millis == k * SUBTITLE_CUE_DURATION_MILLIS
            &&& c.end_millis == c.start_millis + SUBTITLE_CUE_DURATION_MILLIS
            &&& c.text@ == lines[k]
        }
}

/// The cue times of a narration's subtitles stay inside `u64`.
pub open spec fn subtitles_fit_spec(narration: Seq<char>) -> bool {
    subtitle_lines(narration, SUBTITLE_MAX_CHARS_PER_LINE as nat).len() * SUBTITLE_CUE_DURATION_MILLIS
        + SUBTITLE_CUE_DURATION_MILLIS <= u64::MAX
}

/// Whether the cue times of a narration's subtitles stay inside `u64`.
pub fn subtitles_fit(narration: &str) -> (r: bool)
    ensures
        r == subtitles_fit_spec(narration@),
{
    let lines = split_subtitle_text(narration, SUBTITLE_MAX_CHARS_PER_LINE);
    assert(lines@.len() == string_views(lines@).len());
    lines.len() as u128 * 2000 + 2000 <= u64::MAX as u128
}

/// Subtitles for a narration: its lines of at most eighteen characters, two
/// seconds each, one after the other.
pub fn generate_subtitles(narration: &str) -> (r: Vec<SubtitleCue>)
    requires
        subtitles_fit_spec(narration@),
    ensures
        cues_of(subtitle_lines(narration@, SUBTITLE_MAX_CHARS_PER_LINE as nat), r@),
{
    let lines = split_subtitle_text(narration, SUBTITLE_MAX_CHARS_PER_LINE);
    let mut cues: Vec<SubtitleCue> = Vec::new();
    let mut k: usize = 0;
    while k < lines.len()
        invariant
            0 <= k <= lines@.len(),
            lines@.len() * SUBTITLE_CUE_DURATION_MILLIS + SUBTITLE_CUE_DURATION_MILLIS <= u64::MAX,
            string_views(lines@) == subtitle_lines(narration@, SUBTITLE_MAX_CHARS_PER_LINE as nat),
            cues@.len() == k,
            forall|j: int|
                0 <= j < k ==> {
                    let c = #[trigger] cues@[j];
                    &&& c.index == j + 1
                    &&& c.start_millis == j * SUBTITLE_CUE_DURATION_MILLIS
                    &&& c.end_millis == c.start_millis + SUBTITLE_CUE_DURATION_MILLIS
                    &&& c.text@ == string_views(lines@)[j]
                },
        decreases lines.len() - k,
    {
        assert(k * SUBTITLE_CUE_DURATION_MILLIS + SUBTITLE_CUE_DURATION_MILLIS <= u64::MAX) by (nonlinear_arith)
            requires
                k < lines@.len(),
                lines@.len() * SUBTITLE_CUE_DURATION_MILLIS + SUBTITLE_CUE_DURATION_MILLIS <= u64::MAX,
        ;
        let start = (k as u64) * SUBTITLE_CUE_DURATION_MILLIS;
        cues.push(
            SubtitleCue {
                index: k + 1,
                start_millis: start,
                end_millis: start + SUBTITLE_CUE_DURATION_MILLIS,
                text: lines[k].clone(),
            },
        );
        k += 1;
    }
    cues
}

/// Subtitle cues follow one another: each starts before it ends, and the
/// next starts where it ends.
pub proof fn law_subtitle_cues_monotonic(lines: Seq<Seq<char>>, cues: Seq<SubtitleCue>)
    requires
        cues_of(lines, cues),
    ensures
        forall|k: int| 0 <= k < cues.len() ==> (#[trigger] cues[k]).start_millis < cues[k].end_millis,
        forall|k: int|
            0 <= k < cues.len() - 1 ==> (#[trigger] cues[k]).end_millis == cues[k + 1].start_millis,
{
    assert forall|k: int| 0 <= k < cues.len() - 1 implies (#[trigger] cues[k]).end_millis
        == cues[k + 1].start_millis by {
        let a = cues[k];
        let b = cues[k + 1];
        assert(b.start_millis == (k + 1) * SUBTITLE_CUE_DURATION_MILLIS);
        assert((k + 1) * 2000 == k * 2000 + 2000) by (nonlinear_arith);
    }
}

/// `HH:MM:SS,mmm`, as SubRip writes a time.
pub open spec fn srt_timestamp(millis: nat) -> Seq<char> {
    zero_padded(decimal(millis / 3_600_000), 2) + seq![':'] + zero_padded(
        decimal((millis % 3_600_000) / 60_000),
        2,
    ) + seq![':'] + zero_padded(decimal((millis % 60_000) / 1_000), 2) + seq![','] + zero_padded(
        decimal(millis % 1_000),
        3,
    )
}

pub fn format_srt_timestamp(millis: u64) -> (r: String)
    ensures
        r@ == srt_timestamp(millis as nat),
{
    let mut out = padded_decimal_chars(millis / 3_600_000, 2);
    out.push(':');
    let m = padded_decimal_chars((millis % 3_600_000) / 60_000, 2);
    push_chars(&mut out, &m);
    out.push(':');
    let sec = padded_decimal_chars((millis % 60_000) / 1_000, 2);
    push_chars(&mut out, &sec);
    out.push(',');
    let ms = padded_decimal_chars(millis % 1_000, 3);
    push_chars(&mut out, &ms);
    proof {
        assert(out@ =~= srt_timestamp(millis as nat));
    }
    string_from_chars(&out)
}

/// One SubRip block: number, times, line, and a blank line.
pub open spec fn srt_block(c: SubtitleCue) -> Seq<char> {
    decimal(c.index as nat) + "\n"@ + srt_timestamp(c.start_millis as nat) + " --> "@
        + srt_timestamp(c.end_millis as nat) + "\n"@ + c.text@ + "\n\n"@
}

pub open spec fn srt_text(cues: Seq<SubtitleCue>) -> Seq<char>
    decreases cues.len(),
{
    if cues.len() == 0 {
        Seq::empty()
    } else {
        srt_text(cues.drop_last()) + srt_block(cues.last())
    }
}

/// The cues as a SubRip file.
pub fn format_srt(cues: &Vec<SubtitleCue>) -> (r: String)
    ensures
        r@ == srt_text(cues@),
{
    let mut out: Vec<char> = Vec::new();
    let mut k: usize = 0;
    while k < cues.len()
        invariant
            0 <= k <= cues@.len(),
            out@ == srt_text(cues@.take(k as int)),
        decreases cues.len() - k,
    {
        let cue = &cues[k];
        let ghost before = out@;
        push_decimal(&mut out, cue.index as u64);
        push_str(&mut out, "\n");
        let a = format_srt_timestamp(cue.start_millis);
        push_str(&mut out, a.as_str());
        push_str(&mut out, " --> ");
        let b = format_srt_timestamp(cue.end_millis);
        push_str(&mut out, b.as_str());
        push_str(&mut out, "\n");
        push_str(&mut out, cue.text.as_str());
        push_str(&mut out, "\n\n");
        proof {
            assert(cues@.take(k + 1).drop_last() =~= cues@.take(k as int));
            assert(out@ =~= before + srt_block(*cue));
        }
        k += 1;
    }
    assert(cues@.take(k as int) =~= cues@);
    string_from_chars(&out)
}

/// How long a preview runs: until the last cue ends, two seconds without
/// cues.
pub fn preview_duration(subtitles: &Vec<SubtitleCue>) -> (r: TimeValue)
    ensures
        r@ == (if subtitles@.len() == 0 {
            SUBTITLE_CUE_DURATION_MILLIS as nat
        } else {
            subtitles@.last().end_millis as nat
        }),
{
    if subtitles.len() == 0 {
        TimeValue::from_millis(SUBTITLE_CUE_DURATION_MILLIS)
    } else {
        TimeValue::from_millis(subtitles[subtitles.len() - 1].end_millis)
    }
}

/// How subtitles are laid out for a platform.
#[derive(Debug, Clone)]
pub struct SubtitleStyle {
    pub platform: String,
    pub aspect_ratio: String,
    pub max_chars_per_line: usize,
    pub position: String,
    pub safe_area_bottom_percent: u8,
}

/// Vertical 9:16, eighteen characters a line, at the bottom inside a safe
/// area of twelve percent.
pub fn default_subtitle_style(platform: &str) -> (r: SubtitleStyle)
    ensures
        r.platform@ == platform@,
        r.aspect_ratio@ == "9:16"@,
        r.max_chars_per_line == SUBTITLE_MAX_CHARS_PER_LINE,
        r.position@ == "bottom_safe_area"@,
        r.safe_area_bottom_percent == 12,
{
    SubtitleStyle {
        platform: string_of(platform),
        aspect_ratio: string_of("9:16"),
        max_chars_per_line: SUBTITLE_MAX_CHARS_PER_LINE,
        position: string_of("bottom_safe_area"),
        safe_area_bottom_percent: 12,
    }
}

// ---------------------------------------------------------------- local script

/// Where a piece of a draft comes from: a line range of the story's source.
#[derive(Debug, Clone)]
pub struct SourceReference {
    pub source: String,
    pub start_line: usize,
    pub end_line: usize,
}

#[derive(Debug, Clone)]
pub struct ScriptText {
    pub text: String,
    pub source_reference: SourceReference,
}

/// A short video draft: a hook, three to five content beats, the narration
/// they make together, and an ending.
#[derive(Debug, Clone)]
pub struct ShortVideoDraft {
    pub id: String,
    pub hook: ScriptText,
    pub content_beats: Vec<ScriptText>,
    pub adapted_narration: ScriptText,
    pub ending: ScriptText,
}

/// The trimmed lines numbered `start..=end` (from one) that are not empty,
/// from line index `k` on.
pub open spec fn selected_from(ls: Seq<Seq<char>>, start: nat, end: nat, k: int) -> Seq<Seq<char>>
    decreases ls.len() - k,
{
    if k < 0 || k >= ls.len() {
        Seq::empty()
    } else {
        let rest = selected_from(ls, start, end, k + 1);
        let t = trim(ls[k]);
        if start <= k + 1 <= end && t.len() > 0 {
            seq![t] + rest
        } else {
            rest
        }
    }
}

pub open spec fn placeholder_line() -> Seq<char> {
    "选定文本暂未包含非空内容"@
}

/// The lines a script is written from: the selected lines, or a placeholder
/// where none is left.
pub open spec fn script_lines(source: Seq<char>, start: nat, end: nat) -> Seq<Seq<char>> {
    let selected = selected_from(lines(source), start, end, 0);
    if selected.len() == 0 {
        seq![placeholder_line()]
    } else {
        selected
    }
}

/// As many beats as lines, but at least three and at most five.
pub open spec fn beat_count(n: nat) -> nat {
    if n < 3 {
        3
    } else if n > 5 {
        5
    } else {
        n
    }
}

pub open spec fn beat_text(angle: Seq<char>, i: nat, line: Seq<char>) -> Seq<char> {
    "围绕"@ + angle + "推进第"@ + decimal(i + 1) + "个看点："@ + line
}

/// The texts joined, one space between each two.
pub open spec fn joined(texts: Seq<Seq<char>>) -> Seq<char>
    decreases texts.len(),
{
    if texts.len() == 0 {
        Seq::empty()
    } else if texts.len() == 1 {
        texts[0]
    } else {
        joined(texts.drop_last()) + " "@ + texts.last()
    }
}

pub open spec fn references_story(t: ScriptText, story: StoryVideo) -> bool {
    &&& t.source_reference.source@ == story.source@
    &&& t.source_reference.start_line == story.start_line
    &&& t.source_reference.end_line == story.end_line
}

/// The content beats of the draft of `story`: beat `i` pushes the angle
/// with line `i`, taken round again where lines run out.
pub open spec fn draft_beats(story: StoryVideo, source: Seq<char>) -> Seq<Seq<char>> {
    let ls = script_lines(source, story.start_line as nat, story.end_line as nat);
    Seq::new(
        beat_count(ls.len()),
        |i: int| beat_text(story.engagement_angle@, i as nat, ls[i % ls.len() as int]),
    )
}

/// `d` is the draft written for `story` from its source text: beat `i`
/// pushes the angle with line `i` (taken round again where lines run out),
/// the narration is the beats in order, and every piece points back at the
/// story's line range.
pub open spec fn drafted_from(story: StoryVideo, source: Seq<char>, d: ShortVideoDraft) -> bool {
    let ls = script_lines(source, story.start_line as nat, story.end_line as nat);
    let n = beat_count(ls.len());
    let beats = draft_beats(story, source);
    &&& d.id@ == story.name@ + "-001"@
    &&& d.hook.text@ == story.engagement_angle@ + "反转来了："@ + ls[0]
    &&& d.content_beats@.len() == n
    &&& forall|i: int| 0 <= i < n ==> (#[trigger] d.content_beats@[i]).text@ == beats[i]
    &&& d.adapted_narration.text@ == joined(beats)
    &&& d.ending.text@ == "真正的爆点，才刚刚开始。"@
    &&& references_story(d.hook, story)
    &&& forall|i: int| 0 <= i < n ==> references_story(#[trigger] d.content_beats@[i], story)
    &&& references_story(d.adapted_narration, story)
    &&& references_story(d.ending, story)
}

fn selected_lines(source: &str, start: usize, end: usize) -> (r: Vec<String>)
    ensures
        string_views(r@) == script_lines(source@, start as nat, end as nat),
{
    let cs = str_chars(source);
    let ranges = line_ranges(&cs);
    let ghost ls = lines(source@);
    proof {
        assert(range_texts(cs@, ranges@).len() == ranges@.len());
    }
    let mut picked: Vec<String> = Vec::new();
    let mut k: usize = ranges.len();
    while k > 0
        invariant
            0 <= k <= ranges@.len(),
            cs@ == source@,
            ls == lines(source@),
            ls == range_texts(cs@, ranges@),
            crate::text::ranges_within(ranges@, cs@.len() as int),
            string_views(picked@) == selected_from(ls, start as nat, end as nat, k as int),
        decreases k,
    {
        k -= 1;
        let (lo, hi) = ranges[k];
        let (a, b) = trim_range(&cs, lo, hi);
        let ghost before = string_views(picked@);
        assert(ls[k as int] == cs@.subrange(lo as int, hi as int));
        if start <= k + 1 && k + 1 <= end && a < b {
            let line = range_string(&cs, a, b);
            picked.insert(0, line);
            assert(string_views(picked@) =~= seq![line@] + before);
        }
    }
    if picked.len() == 0 {
        let mut only: Vec<String> = Vec::new();
        only.push(string_of("选定文本暂未包含非空内容"));
        assert(string_views(only@) =~= seq![placeholder_line()]);
        only
    } else {
        picked
    }
}

fn story_reference(story: &StoryVideo) -> (r: SourceReference)
    ensures
        r.source@ == story.source@,
        r.start_line == story.start_line,
        r.end_line == story.end_line,
{
    SourceReference {
        source: story.source.clone(),
        start_line: story.start_line,
        end_line: story.end_line,
    }
}

/// Writes a short video draft for a story from its source text, locally:
/// no service is asked.
pub fn generate_local_script_draft(story: &StoryVideo, source: &str) -> (r: ShortVideoDraft)
    ensures
        drafted_from(*story, source@, r),
{
    let ls = selected_lines(source, story.start_line, story.end_line);
    let ghost lv = script_lines(source@, story.start_line as nat, story.end_line as nat);
    let n = ls.len();
    let count: usize = if n < 3 {
        3
    } else if n > 5 {
        5
    } else {
        n
    };
    let ghost beats = Seq::new(
        count as nat,
        |i: int| beat_text(story.engagement_angle@, i as nat, lv[i % lv.len() as int]),
    );
    let mut content_beats: Vec<ScriptText> = Vec::new();
    let mut narration: Vec<char> = Vec::new();
    let mut i: usize = 0;
    while i < count
        invariant
            0 <= i <= count <= 5,
            n == ls@.len(),
            n >= 1,
            string_views(ls@) == lv,
            count == beat_count(n as nat),
            beats == Seq::new(
                count as nat,
                |i: int| beat_text(story.engagement_angle@, i as nat, lv[i % lv.len() as int]),
            ),
            content_beats@.len() == i,
            forall|j: int|
                0 <= j < i ==> (#[trigger] content_beats@[j]).text@ == beats[j] && references_story(
                    content_beats@[j],
                    *story,
                ),
            narration@ == joined(beats.take(i as int)),
        decreases count - i,
    {
        let mut text: Vec<char> = Vec::new();
        push_str(&mut text, "围绕");
        push_str(&mut text, story.engagement_angle.as_str());
        push_str(&mut text, "推进第");
        push_decimal(&mut text, (i + 1) as u64);
        push_str(&mut text, "个看点：");
        push_str(&mut text, ls[i % n].as_str());
        proof {
            assert(string_views(ls@)[(i % n) as int] == ls@[(i % n) as int]@);
            assert(text@ =~= beats[i as int]);
            assert(beats.take(i + 1).drop_last() =~= beats.take(i as int));
            assert(beats.take(i + 1).last() == beats[i as int]);
        }
        if i > 0 {
            push_str(&mut narration, " ");
        } else {
            assert(beats.take(1) =~= seq![beats[0]]);
        }
        push_chars(&mut narration, &text);
        content_beats.push(
            ScriptText { text: string_from_chars(&text), source_reference: story_reference(story) },
        );
        i += 1;
    }
    assert(beats.take(count as int) =~= beats);
    let mut hook: Vec<char> = Vec::new();
    push_str(&mut hook, story.engagement_angle.as_str());
    push_str(&mut hook, "反转来了：");
    push_str(&mut hook, ls[0].as_str());
    assert(string_views(ls@)[0] == ls@[0]@);
    let mut id: Vec<char> = Vec::new();
    push_str(&mut id, story.name.as_str());
    push_str(&mut id, "-001");
    ShortVideoDraft {
        id: string_from_chars(&id),
        hook: ScriptText { text: string_from_chars(&hook), source_reference: story_reference(story) },
        content_beats,
        adapted_narration: ScriptText {
            text: string_from_chars(&narration),
            source_reference: story_reference(story),
        },
        ending: ScriptText {
            text: string_of("真正的爆点，才刚刚开始。"),
            source_reference: story_reference(story),
        },
    }
}

/// A local script draft has three to five content beats, and its hook,
/// beats, narration and ending all point back at the story's line range.
pub proof fn law_script_draft_shape(story: StoryVideo, source: Seq<char>, d: ShortVideoDraft)
    requires
        drafted_from(story, source, d),
    ensures
        3 <= d.content_beats@.len() <= 5,
        references_story(d.hook, story),
        forall|i: int| 0 <= i < d.content_beats@.len() ==> references_story(#[trigger] d.content_beats@[i], story),
        references_story(d.adapted_narration, story),
        references_story(d.ending, story),
{
}

/// `l` is line `m` of `ls` (numbered `m + 1`, from one), trimmed and not
/// empty, and `start <= m + 1 <= end`.
pub open spec fn range_line_at(ls: Seq<Seq<char>>, start: nat, end: nat, m: int, l: Seq<char>) -> bool {
    &&& 0 <= m < ls.len()
    &&& start <= m + 1 <= end
    &&& l == trim(ls[m])
    &&& l.len() > 0
}

/// `l` is a line a draft may quote: a trimmed, non-empty line of `source`
/// numbered within `start..=end`; or the placeholder, where the range holds
/// no such line.
pub open spec fn quotable_line(source: Seq<char>, start: nat, end: nat, l: Seq<char>) -> bool {
    let ls = lines(source);
    ||| exists|m: int| #[trigger] range_line_at(ls, start, end, m, l)
    ||| l == placeholder_line() && forall|m: int|
        0 <= m < ls.len() && start <= m + 1 <= end ==> (#[trigger] trim(ls[m])).len() == 0
}

/// A local script draft quotes only the story's own lines: its hook and
/// each content beat end with a trimmed, non-empty source line numbered
/// within `start_line..=end_line`, or with the placeholder where the range
/// holds none.
pub proof fn law_script_draft_quotes_range(story: StoryVideo, source: Seq<char>, d: ShortVideoDraft)
    requires
        drafted_from(story, source, d),
    ensures
        exists|l: Seq<char>|
            quotable_line(source, story.start_line as nat, story.end_line as nat, l) && d.hook.text@
                == story.engagement_angle@ + "反转来了："@ + l,
        forall|i: int|
            0 <= i < d.content_beats@.len() ==> exists|l: Seq<char>|
                quotable_line(source, story.start_line as nat, story.end_line as nat, l) && (
                #[trigger] d.content_beats@[i]).text@ == "围绕"@ + story.engagement_angle@ + "推进第"@
                    + decimal((i + 1) as nat) + "个看点："@ + l,
{
    let start = story.start_line as nat;
    let end = story.end_line as nat;
    let ls = script_lines(source, start, end);
    lemma_script_lines_quotable(source, start, end);
    assert(quotable_line(source, start, end, ls[0]));
    assert forall|i: int| 0 <= i < d.content_beats@.len() implies exists|l: Seq<char>|
        quotable_line(source, start, end, l) && (#[trigger] d.content_beats@[i]).text@ == "围绕"@
            + story.engagement_angle@ + "推进第"@ + decimal((i + 1) as nat) + "个看点："@ + l by {
        let l = ls[i % (ls.len() as int)];
        assert(0 <= i % (ls.len() as int) < ls.len());
        assert(quotable_line(source, start, end, l));
        assert(d.content_beats@[i].text@ == draft_beats(story, source)[i]);
    }
}

/// A draft is written from every trimmed, non-empty line numbered within
/// `start..=end`: each such line is one of the lines its beats take round.
pub proof fn law_script_lines_cover_range(source: Seq<char>, start: nat, end: nat, m: int)
    requires
        range_line_at(lines(source), start, end, m, trim(lines(source)[m])),
    ensures
        script_lines(source, start, end).contains(trim(lines(source)[m])),
{
    let ls = lines(source);
    lemma_selected_from_covers(ls, start, end, 0, m);
    let sel = selected_from(ls, start, end, 0);
    assert(sel.len() > 0);
}

proof fn lemma_selected_from_covers(ls: Seq<Seq<char>>, start: nat, end: nat, k: int, m: int)
    requires
        0 <= k <= m,
        range_line_at(ls, start, end, m, trim(ls[m])),
    ensures
        selected_from(ls, start, end, k).contains(trim(ls[m])),
    decreases m - k,
{
    let r = selected_from(ls, start, end, k);
    let t = trim(ls[k]);
    if k == m {
        assert(r == seq![t] + selected_from(ls, start, end, k + 1));
        assert(r[0] == t);
    } else {
        lemma_selected_from_covers(ls, start, end, k + 1, m);
        let rest = selected_from(ls, start, end, k + 1);
        let i = choose|i: int| 0 <= i < rest.len() && rest[i] == trim(ls[m]);
        if start <= k + 1 <= end && t.len() > 0 {
            assert(r == seq![t] + rest);
            assert(r[i + 1] == rest[i]);
        } else {
            assert(r == rest);
        }
    }
}

proof fn lemma_script_lines_quotable(source: Seq<char>, start: nat, end: nat)
    ensures
        script_lines(source, start, end).len() > 0,
        forall|i: int|
            0 <= i < script_lines(source, start, end).len() ==> quotable_line(
                source,
                start,
                end,
                #[trigger] script_lines(source, start, end)[i],
            ),
{
    let ls = lines(source);
    lemma_selected_from_in_range(ls, start, end, 0);
    let sel = selected_from(ls, start, end, 0);
    if sel.len() == 0 {
        assert(script_lines(source, start, end) == seq![placeholder_line()]);
    } else {
        assert forall|i: int| 0 <= i < sel.len() implies quotable_line(
            source,
            start,
            end,
            #[trigger] sel[i],
        ) by {
            let m = choose|m: int| 0 <= m && #[trigger] range_line_at(ls, start, end, m, sel[i]);
            assert(range_line_at(ls, start, end, m, sel[i]));
        }
    }
}

/// `l` is a line of `ls` from index `k` on that `range_line_at` allows.
pub open spec fn line_from(ls: Seq<Seq<char>>, start: nat, end: nat, k: int, l: Seq<char>) -> bool {
    exists|m: int| k <= m && #[trigger] range_line_at(ls, start, end, m, l)
}

proof fn lemma_selected_from_in_range(ls: Seq<Seq<char>>, start: nat, end: nat, k: int)
    requires
        0 <= k,
    ensures
        forall|i: int|
            0 <= i < selected_from(ls, start, end, k).len() ==> line_from(
                ls,
                start,
                end,
                k,
                #[trigger] selected_from(ls, start, end, k)[i],
            ),
        selected_from(ls, start, end, k).len() == 0 ==> forall|m: int|
            k <= m < ls.len() && start <= m + 1 <= end ==> (#[trigger] trim(ls[m])).len() == 0,
    decreases ls.len() - k,
{
    if k < ls.len() {
        lemma_selected_from_in_range(ls, start, end, k + 1);
        let rest = selected_from(ls, start, end, k + 1);
        let r = selected_from(ls, start, end, k);
        let t = trim(ls[k]);
        if start <= k + 1 <= end && t.len() > 0 {
            assert(r == seq![t] + rest);
            assert forall|i: int| 0 <= i < r.len() implies line_from(ls, start, end, k, #[trigger] r[i]) by {
                if i == 0 {
                    assert(range_line_at(ls, start, end, k, r[0]));
                } else {
                    assert(r[i] == rest[i - 1]);
                    let m = choose|m: int| k + 1 <= m && #[trigger] range_line_at(ls, start, end, m, rest[i - 1]);
                    assert(range_line_at(ls, start, end, m, r[i]));
                }
            }
        } else {
            assert(r == rest);
            assert forall|i: int| 0 <= i < r.len() implies line_from(ls, start, end, k, #[trigger] r[i]) by {
                let m = choose|m: int| k + 1 <= m && #[trigger] range_line_at(ls, start, end, m, rest[i]);
                assert(range_line_at(ls, start, end, m, r[i]));
            }
            if r.len() == 0 {
                assert forall|m: int| k <= m < ls.len() && start <= m + 1 <= end implies (#[trigger] trim(
                    ls[m],
                )).len() == 0 by {
                    if m == k {
                        assert(t.len() == 0);
                    }
                }
            }
        }
    }
}

// ---------------------------------------------------------------- draft package pieces

/// The schema of draft manifests and reference maps.
pub open spec fn draft_schema_version() -> Seq<char> {
    "cutline-draft-v1"@
}

/// Which voice to synthesize the narration with: none (`Disabled`), DiamoE-TTS (not yet
/// run locally), or a test provider that hands back fixed audio.
#[derive(Debug, Clone)]
pub enum VoiceProviderConfig {
    Disabled,
    DiamoETts,
    Test { audio_bytes: Vec<u8> },
}

/// How to build a draft package: whether to render a preview, with which
/// ffmpeg, and with which voice provider.
#[derive(Debug, Clone)]
pub struct DraftPackageOptions {
    pub render_preview: bool,
    pub ffmpeg_program: String,
    pub voice_provider: VoiceProviderConfig,
}

impl Default for DraftPackageOptions {
    fn default() -> (r: Self)
        ensures
            !r.render_preview,
            r.ffmpeg_program@ == "ffmpeg"@,
            r.voice_provider is Disabled,
    {
        DraftPackageOptions {
            render_preview: false,
            ffmpeg_program: string_of("ffmpeg"),
            voice_provider: VoiceProviderConfig::Disabled,
        }
    }
}

#[derive(Debug, Clone)]
pub struct DraftPackageSummary {
    pub draft_id: String,
    pub package_path: String,
}

/// A file of the package or of the project, and the SHA-256 of its bytes.
#[derive(Debug, Clone)]
pub struct ManifestAssetReference {
    pub path: String,
    pub fingerprint: String,
}

/// A parameter value of a pipeline step.
#[derive(Debug, Clone)]
pub enum ParamValue {
    Text(String),
    Number(u64),
    Flag(bool),
    List(Vec<String>),
}

/// One step of the pipeline that made the package, as recorded.
#[derive(Debug, Clone)]
pub struct PipelineStepRun {
    pub step: String,
    pub status: String,
    pub provider: String,
    pub parameters: Vec<(String, ParamValue)>,
    pub outputs: Vec<String>,
}

/// Where a generated text comes from.
#[derive(Debug, Clone)]
pub struct ReferenceEntry {
    pub target: String,
    pub source: String,
    pub start_line: usize,
    pub end_line: usize,
}

/// What the voice step gave: the voiceover, where one was made, and its run.
#[derive(Debug, Clone)]
pub struct VoiceStepResult {
    pub asset: Option<ManifestAssetReference>,
    pub step_run: PipelineStepRun,
}

pub open spec fn text_param(p: (String, ParamValue), key: Seq<char>, value: Seq<char>) -> bool {
    p.0@ == key && p.1 is Text && p.1->Text_0@ == value
}

pub open spec fn number_param(p: (String, ParamValue), key: Seq<char>, value: nat) -> bool {
    p.0@ == key && p.1 is Number && p.1->Number_0 == value
}

pub open spec fn flag_param(p: (String, ParamValue), key: Seq<char>, value: bool) -> bool {
    p.0@ == key && p.1 is Flag && p.1->Flag_0 == value
}

pub open spec fn list_param(p: (String, ParamValue), key: Seq<char>, value: Seq<Seq<char>>) -> bool {
    p.0@ == key && p.1 is List && string_views(p.1->List_0@) == value
}

/// A step run's name, status, provider and outputs.
pub open spec fn step_is(
    r: PipelineStepRun,
    step: Seq<char>,
    status: Seq<char>,
    provider: Seq<char>,
    outputs: Seq<Seq<char>>,
) -> bool {
    &&& r.step@ == step
    &&& r.status@ == status
    &&& r.provider@ == provider
    &&& string_views(r.outputs@) == outputs
}

/// The voice provider used: one asked for, else DiamoE-TTS where the story
/// names it, else none.
pub open spec fn voice_provider_for(story: StoryVideo, requested: VoiceProviderConfig) -> VoiceProviderConfig {
    match requested {
        VoiceProviderConfig::Disabled => if story.voice_provider is Some && story.voice_provider->0@
            == "diamoetts"@ {
            VoiceProviderConfig::DiamoETts
        } else {
            VoiceProviderConfig::Disabled
        },
        other => other,
    }
}

pub fn selected_voice_provider(story: &StoryVideo, requested: VoiceProviderConfig) -> (r: VoiceProviderConfig)
    ensures
        r == voice_provider_for(*story, requested),
{
    match requested {
        VoiceProviderConfig::Disabled => match &story.voice_provider {
            Some(p) => if str_equal(p.as_str(), "diamoetts") {
                VoiceProviderConfig::DiamoETts
            } else {
                VoiceProviderConfig::Disabled
            },
            None => VoiceProviderConfig::Disabled,
        },
        other => other,
    }
}

/// `sha256:` and the SHA-256 of the bytes in lowercase hex.
pub open spec fn fingerprint_of(bytes: Seq<u8>) -> Seq<char> {
    "sha256:"@ + hex(sha256_of(bytes))
}

pub fn bytes_fingerprint(bytes: &[u8]) -> (r: String)
    ensures
        r@ == fingerprint_of(bytes@),
{
    let mut out: Vec<char> = Vec::new();
    push_str(&mut out, "sha256:");
    let digest = sha256_hex(bytes);
    push_chars(&mut out, &digest);
    string_from_chars(&out)
}

fn strings_of2(a: &str, b: &str) -> (r: Vec<String>)
    ensures
        string_views(r@) == seq![a@, b@],
{
    let mut v: Vec<String> = Vec::new();
    push_string(&mut v, a);
    push_string(&mut v, b);
    assert(string_views(v@) =~= seq![a@, b@]);
    v
}

fn strings_of1(a: &str) -> (r: Vec<String>)
    ensures
        string_views(r@) == seq![a@],
{
    let mut v: Vec<String> = Vec::new();
    push_string(&mut v, a);
    assert(string_views(v@) =~= seq![a@]);
    v
}

/// The voice step: skipped without a provider, skipped for DiamoE-TTS
/// without a local model, completed by the test provider, whose audio
/// becomes `voiceover.wav`.
/// `r` is the voice step run by `provider`.
pub open spec fn voice_step_of(provider: VoiceProviderConfig, r: VoiceStepResult) -> bool {
    match provider {
        VoiceProviderConfig::Disabled => {
            &&& r.asset is None
            &&& step_is(r.step_run, "voice"@, "skipped"@, "none"@, Seq::empty())
            &&& r.step_run.parameters@.len() == 1
            &&& text_param(r.step_run.parameters@[0], "reason"@, "no voice provider configured"@)
        },
        VoiceProviderConfig::DiamoETts => {
            &&& r.asset is None
            &&& step_is(r.step_run, "voice"@, "skipped"@, "diamoetts"@, Seq::empty())
            &&& r.step_run.parameters@.len() == 2
            &&& text_param(
                r.step_run.parameters@[0],
                "reason"@,
                "diamoetts provider declared but no local model configured"@,
            )
            &&& flag_param(r.step_run.parameters@[1], "optional"@, true)
        },
        VoiceProviderConfig::Test { audio_bytes } => {
            &&& r.asset is Some
            &&& r.asset->0.path@ == "voiceover.wav"@
            &&& r.asset->0.fingerprint@ == fingerprint_of(audio_bytes@)
            &&& step_is(r.step_run, "voice"@, "completed"@, "test_voice_provider"@, seq!["voiceover.wav"@])
            &&& r.step_run.parameters@.len() == 1
            &&& text_param(r.step_run.parameters@[0], "source"@, "narration.txt"@)
        },
    }
}

pub fn voice_step_result(provider: &VoiceProviderConfig) -> (r: VoiceStepResult)
    ensures
        voice_step_of(*provider, r),
{
    match provider {
        VoiceProviderConfig::Disabled => {
            let mut parameters: Vec<(String, ParamValue)> = Vec::new();
            parameters.push(
                (string_of("reason"), ParamValue::Text(string_of("no voice provider configured"))),
            );
            let outputs: Vec<String> = Vec::new();
            assert(string_views(outputs@) =~= Seq::<Seq<char>>::empty());
            VoiceStepResult {
                asset: None,
                step_run: PipelineStepRun {
                    step: string_of("voice"),
                    status: string_of("skipped"),
                    provider: string_of("none"),
                    parameters,
                    outputs,
                },
            }
        },
        VoiceProviderConfig::DiamoETts => {
            let mut parameters: Vec<(String, ParamValue)> = Vec::new();
            parameters.push(
                (
                    string_of("reason"),
                    ParamValue::Text(
                        string_of("diamoetts provider declared but no local model configured"),
                    ),
                ),
            );
            parameters.push((string_of("optional"), ParamValue::Flag(true)));
            let outputs: Vec<String> = Vec::new();
            assert(string_views(outputs@) =~= Seq::<Seq<char>>::empty());
            VoiceStepResult {
                asset: None,
                step_run: PipelineStepRun {
                    step: string_of("voice"),
                    status: string_of("skipped"),
                    provider: string_of("diamoetts"),
                    parameters,
                    outputs,
                },
            }
        },
        VoiceProviderConfig::Test { audio_bytes } => {
            let mut parameters: Vec<(String, ParamValue)> = Vec::new();
            parameters.push((string_of("source"), ParamValue::Text(string_of("narration.txt"))));
            VoiceStepResult {
                asset: Some(
                    ManifestAssetReference {
                        path: string_of("voiceover.wav"),
                        fingerprint: bytes_fingerprint(audio_bytes.as_slice()),
                    },
                ),
                step_run: PipelineStepRun {
                    step: string_of("voice"),
                    status: string_of("completed"),
                    provider: string_of("test_voice_provider"),
                    parameters,
                    outputs: strings_of1("voiceover.wav"),
                },
            }
        },
    }
}

/// A path as the manifest records it: relative to the project's directory
/// where it lies inside it.
pub open spec fn reference_path_of(project_dir: Seq<char>, path: Seq<char>) -> Seq<char> {
    match path_strip_prefix(path, project_dir) {
        Some(p) => p,
        None => path,
    }
}

pub fn project_reference_path(project_dir: &str, path: &str) -> (r: String)
    ensures
        r@ == reference_path_of(project_dir@, path@),
{
    match strip_path_prefix(path, project_dir) {
        Some(p) => p,
        None => string_of(path),
    }
}

pub open spec fn entry_is(e: ReferenceEntry, target: Seq<char>, t: ScriptText) -> bool {
    &&& e.target@ == target
    &&& e.source@ == t.source_reference.source@
    &&& e.start_line == t.source_reference.start_line
    &&& e.end_line == t.source_reference.end_line
}

fn reference_entry(target: Vec<char>, text: &ScriptText) -> (r: ReferenceEntry)
    ensures
        entry_is(r, target@, *text),
{
    ReferenceEntry {
        target: string_from_chars(&target),
        source: text.source_reference.source.clone(),
        start_line: text.source_reference.start_line,
        end_line: text.source_reference.end_line,
    }
}

/// The targets the reference map points back at the source: the hook, each
/// beat, the narration, the narration file, each subtitle cue, the ending.
pub open spec fn reference_targets(id: Seq<char>, beats: nat, cue_numbers: Seq<nat>) -> Seq<Seq<char>> {
    seq![id + ".hook"@] + Seq::new(beats, |i: int| id + ".content_beats["@ + decimal(i as nat) + "]"@)
        + seq![id + ".adapted_narration"@, "narration.txt:1"@] + Seq::new(
        cue_numbers.len(),
        |i: int| "subtitles.srt:"@ + decimal(cue_numbers[i]),
    ) + seq![id + ".ending"@]
}

pub open spec fn cue_numbers(cues: Seq<SubtitleCue>) -> Seq<nat> {
    Seq::new(cues.len(), |i: int| cues[i].index as nat)
}

/// The reference entries of a draft and its subtitles, in the order of
/// `reference_targets`; each text's entry carries that text's source range.
pub open spec fn references_of(draft: ShortVideoDraft, cues: Seq<SubtitleCue>, r: Seq<ReferenceEntry>) -> bool {
    let n = draft.content_beats@.len() as int;
    let m = cues.len() as int;
    let targets = reference_targets(draft.id@, n as nat, cue_numbers(cues));
    &&& r.len() == n + m + 4
    &&& entry_is(r[0], targets[0], draft.hook)
    &&& forall|i: int| 0 <= i < n ==> entry_is(#[trigger] r[1 + i], targets[1 + i], draft.content_beats@[i])
    &&& entry_is(r[n + 1], targets[n + 1], draft.adapted_narration)
    &&& entry_is(r[n + 2], targets[n + 2], draft.adapted_narration)
    &&& forall|i: int| 0 <= i < m ==> entry_is(#[trigger] r[n + 3 + i], targets[n + 3 + i], draft.adapted_narration)
    &&& entry_is(r[n + m + 3], targets[n + m + 3], draft.ending)
}

pub fn generated_reference_entries(draft: &ShortVideoDraft, subtitles: &Vec<SubtitleCue>) -> (r: Vec<
    ReferenceEntry,
>)
    ensures
        references_of(*draft, subtitles@, r@),
{
    let ghost n: int = draft.content_beats@.len() as int;
    let ghost m: int = subtitles@.len() as int;
    let ghost targets = reference_targets(draft.id@, n as nat, cue_numbers(subtitles@));
    let mut entries: Vec<ReferenceEntry> = Vec::new();
    let mut t: Vec<char> = Vec::new();
    push_str(&mut t, draft.id.as_str());
    push_str(&mut t, ".hook");
    assert(t@ == targets[0]);
    entries.push(reference_entry(t, &draft.hook));
    let mut i: usize = 0;
    while i < draft.content_beats.len()
        invariant
            0 <= i <= n,
            n == draft.content_beats@.len(),
            targets == reference_targets(draft.id@, n as nat, cue_numbers(subtitles@)),
            entries@.len() == 1 + i,
            entry_is(entries@[0], targets[0], draft.hook),
            forall|j: int| 0 <= j < i ==> entry_is(#[trigger] entries@[1 + j], targets[1 + j], draft.content_beats@[j]),
        decreases draft.content_beats.len() - i,
    {
        let mut t: Vec<char> = Vec::new();
        push_str(&mut t, draft.id.as_str());
        push_str(&mut t, ".content_beats[");
        push_decimal(&mut t, i as u64);
        push_str(&mut t, "]");
        assert(t@ =~= targets[1 + i]);
        entries.push(reference_entry(t, &draft.content_beats[i]));
        i += 1;
    }
    let mut t: Vec<char> = Vec::new();
    push_str(&mut t, draft.id.as_str());
    push_str(&mut t, ".adapted_narration");
    assert(t@ =~= targets[n + 1]);
    entries.push(reference_entry(t, &draft.adapted_narration));
    let mut t: Vec<char> = Vec::new();
    push_str(&mut t, "narration.txt:1");
    assert(t@ =~= targets[n + 2]);
    entries.push(reference_entry(t, &draft.adapted_narration));
    let mut k: usize = 0;
    while k < subtitles.len()
        invariant
            0 <= k <= m,
            n == draft.content_beats@.len(),
            m == subtitles@.len(),
            targets == reference_targets(draft.id@, n as nat, cue_numbers(subtitles@)),
            entries@.len() == n + 3 + k,
            entry_is(entries@[0], targets[0], draft.hook),
            forall|j: int| 0 <= j < n ==> entry_is(#[trigger] entries@[1 + j], targets[1 + j], draft.content_beats@[j]),
            entry_is(entries@[n + 1], targets[n + 1], draft.adapted_narration),
            entry_is(entries@[n + 2], targets[n + 2], draft.adapted_narration),
            forall|j: int| 0 <= j < k ==> entry_is(#[trigger] entries@[n + 3 + j], targets[n + 3 + j], draft.adapted_narration),
        decreases subtitles.len() - k,
    {
        let mut t: Vec<char> = Vec::new();
        push_str(&mut t, "subtitles.srt:");
        push_decimal(&mut t, subtitles[k].index as u64);
        assert(t@ =~= targets[n + 3 + k]);
        entries.push(reference_entry(t, &draft.adapted_narration));
        k += 1;
    }
    let mut t: Vec<char> = Vec::new();
    push_str(&mut t, draft.id.as_str());
    push_str(&mut t, ".ending");
    assert(t@ =~= targets[n + m + 3]);
    entries.push(reference_entry(t, &draft.ending));
    entries
}

fn empty_step(step: &str, provider: &str, outputs: Vec<String>) -> (r: PipelineStepRun)
    ensures
        r.step@ == step@,
        r.status@ == "completed"@,
        r.provider@ == provider@,
        r.outputs == outputs,
        r.parameters@.len() == 0,
{
    PipelineStepRun {
        step: string_of(step),
        status: string_of("completed"),
        provider: string_of(provider),
        parameters: Vec::new(),
        outputs,
    }
}

/// The steps that made a draft package, in order: ingest, script, subtitle,
/// voice, the preview where one was rendered, and the package itself.
pub open spec fn step_runs_of(
    story: StoryVideo,
    voice_step: PipelineStepRun,
    preview: Option<FfmpegCommand>,
    r: Seq<PipelineStepRun>,
) -> bool {
    let last = r.len() - 1;
    &&& r.len() == if preview is Some {
        6int
    } else {
        5int
    }
    &&& step_is(r[0], "ingest"@, "completed"@, "local"@, Seq::empty())
    &&& r[0].parameters@.len() == 0
    &&& step_is(r[1], "script"@, "completed"@, "local_script_provider"@, seq!["short_video_drafts[0]"@])
    &&& r[1].parameters@.len() == 4
    &&& text_param(r[1].parameters@[0], "engagement_angle"@, story.engagement_angle@)
    &&& text_param(r[1].parameters@[1], "source"@, story.source@)
    &&& number_param(r[1].parameters@[2], "start_line"@, story.start_line as nat)
    &&& number_param(r[1].parameters@[3], "end_line"@, story.end_line as nat)
    &&& step_is(
        r[2],
        "subtitle"@,
        "completed"@,
        "local_subtitle_provider"@,
        seq!["narration.txt"@, "subtitles.srt"@],
    )
    &&& r[2].parameters@.len() == 3
    &&& number_param(r[2].parameters@[0], "max_chars_per_line"@, SUBTITLE_MAX_CHARS_PER_LINE as nat)
    &&& number_param(r[2].parameters@[1], "cue_duration_millis"@, SUBTITLE_CUE_DURATION_MILLIS as nat)
    &&& text_param(r[2].parameters@[2], "subtitle_style"@, "douyin_default"@)
    &&& r[3] == voice_step
    &&& match preview {
        Some(c) => {
            &&& step_is(r[4], "preview"@, "completed"@, "ffmpeg"@, seq!["preview.mp4"@])
            &&& r[4].parameters@.len() == 4
            &&& text_param(r[4].parameters@[0], "command"@, command_line(c.program@, string_views(c.args@)))
            &&& text_param(r[4].parameters@[1], "program"@, c.program@)
            &&& list_param(r[4].parameters@[2], "args"@, string_views(c.args@))
            &&& text_param(r[4].parameters@[3], "output_path"@, "preview.mp4"@)
        },
        None => true,
    }
    &&& step_is(r[last], "draft_package"@, "completed"@, "local"@, seq!["draft.json"@, "references.json"@])
    &&& r[last].parameters@.len() == 0
}

pub fn pipeline_step_runs(
    story: &StoryVideo,
    voice_step: PipelineStepRun,
    preview_command: Option<&FfmpegCommand>,
) -> (r: Vec<PipelineStepRun>)
    ensures
        step_runs_of(
            *story,
            voice_step,
            match preview_command {
                Some(c) => Some(*c),
                None => None,
            },
            r@,
        ),
{
    let mut steps: Vec<PipelineStepRun> = Vec::new();
    let no_outputs: Vec<String> = Vec::new();
    assert(string_views(no_outputs@) =~= Seq::<Seq<char>>::empty());
    steps.push(empty_step("ingest", "local", no_outputs));
    let mut script_params: Vec<(String, ParamValue)> = Vec::new();
    script_params.push((string_of("engagement_angle"), ParamValue::Text(story.engagement_angle.clone())));
    script_params.push((string_of("source"), ParamValue::Text(story.source.clone())));
    script_params.push((string_of("start_line"), ParamValue::Number(story.start_line as u64)));
    script_params.push((string_of("end_line"), ParamValue::Number(story.end_line as u64)));
    steps.push(
        PipelineStepRun {
            step: string_of("script"),
            status: string_of("completed"),
            provider: string_of("local_script_provider"),
            parameters: script_params,
            outputs: strings_of1("short_video_drafts[0]"),
        },
    );
    let mut subtitle_params: Vec<(String, ParamValue)> = Vec::new();
    subtitle_params.push(
        (string_of("max_chars_per_line"), ParamValue::Number(SUBTITLE_MAX_CHARS_PER_LINE as u64)),
    );
    subtitle_params.push((string_of("cue_duration_millis"), ParamValue::Number(SUBTITLE_CUE_DURATION_MILLIS)));
    subtitle_params.push((string_of("subtitle_style"), ParamValue::Text(string_of("douyin_default"))));
    steps.push(
        PipelineStepRun {
            step: string_of("subtitle"),
            status: string_of("completed"),
            provider: string_of("local_subtitle_provider"),
            parameters: subtitle_params,
            outputs: strings_of2("narration.txt", "subtitles.srt"),
        },
    );
    steps.push(voice_step);
    match preview_command {
        Some(command) => {
            let mut args: Vec<String> = Vec::new();
            push_strings(&mut args, &command.args);
            assert(string_views(args@) =~= string_views(command.args@)) by {
                assert(string_views(Seq::<String>::empty()) =~= Seq::<Seq<char>>::empty());
                assert(Seq::<Seq<char>>::empty() + string_views(command.args@) =~= string_views(command.args@));
            }
            let mut params: Vec<(String, ParamValue)> = Vec::new();
            params.push((string_of("command"), ParamValue::Text(command.display())));
            params.push((string_of("program"), ParamValue::Text(command.program.clone())));
            params.push((string_of("args"), ParamValue::List(args)));
            params.push((string_of("output_path"), ParamValue::Text(string_of("preview.mp4"))));
            steps.push(
                PipelineStepRun {
                    step: string_of("preview"),
                    status: string_of("completed"),
                    provider: string_of("ffmpeg"),
                    parameters: params,
                    outputs: strings_of1("preview.mp4"),
                },
            );
        },
        None => {},
    }
    steps.push(empty_step("draft_package", "local", strings_of2("draft.json", "references.json")));
    steps
}

// ---------------------------------------------------------------- the package

#[derive(Debug, Clone)]
pub struct ManifestStorySource {
    pub path: String,
    pub start_line: usize,
    pub end_line: usize,
    pub fingerprint: String,
}

#[derive(Debug, Clone)]
pub struct ManifestStory {
    pub source: ManifestStorySource,
    pub engagement_angle: String,
}

#[derive(Debug, Clone)]
pub struct ManifestVisual {
    pub background: ManifestAssetReference,
}

#[derive(Debug, Clone)]
pub struct ManifestOutput {
    pub path: String,
}

#[derive(Debug, Clone)]
pub struct GeneratedAssets {
    pub narration: ManifestAssetReference,
    pub subtitles: ManifestAssetReference,
    pub preview: Option<ManifestAssetReference>,
    pub voiceover: Option<ManifestAssetReference>,
}

/// `draft.json`: what the package holds and where it comes from.
#[derive(Debug, Clone)]
pub struct DraftManifest {
    pub schema_version: String,
    pub workflow: String,
    pub draft_id: String,
    pub platform_profile: String,
    pub story: ManifestStory,
    pub visual: ManifestVisual,
    pub output: ManifestOutput,
    pub generated_assets: GeneratedAssets,
    pub subtitle_style: SubtitleStyle,
    pub short_video_drafts: Vec<ShortVideoDraft>,
}

/// `references.json`: where each generated text comes from, and the steps
/// that made the package.
#[derive(Debug, Clone)]
pub struct ReferenceMap {
    pub schema_version: String,
    pub draft_id: String,
    pub references: Vec<ReferenceEntry>,
    pub pipeline_step_runs: Vec<PipelineStepRun>,
}

/// What a draft package holds before its files are written: its directory,
/// the draft, the narration and subtitle files' text, the voice step, and
/// the preview command where a preview is asked for.
#[derive(Debug, Clone)]
pub struct DraftPreparation {
    pub package_path: String,
    pub draft: ShortVideoDraft,
    pub narration_text: String,
    pub subtitles: Vec<SubtitleCue>,
    pub subtitles_text: String,
    pub voice_provider: VoiceProviderConfig,
    pub voice: VoiceStepResult,
    pub preview_path: String,
    pub preview_command: Option<FfmpegCommand>,
}

pub open spec fn no_story_message() -> Seq<char> {
    "at least one [[story]] section is required to generate a draft package"@
}

/// `.cutline/drafts/<story name>` in the project's directory.
pub open spec fn package_path_of(project_dir: Seq<char>, name: Seq<char>) -> Seq<char> {
    path_join(path_join(path_join(project_dir, ".cutline"@), "drafts"@), name)
}

/// The source text file of the project's first story, which the draft is
/// written from.
pub fn draft_story_source(project: &NormalizedProject) -> (r: Result<String>)
    ensures
        project.story_videos@.len() == 0 ==> (r matches Err(e) && e@ == (
            ErrorKind::InvalidProject,
            no_story_message(),
        )),
        project.story_videos@.len() > 0 ==> (r matches Ok(p) && p@ == path_join(
            project.project_dir@,
            project.story_videos@[0].source@,
        )),
{
    if project.story_videos.len() == 0 {
        return Err(CutlineError::InvalidProject(string_of(
            "at least one [[story]] section is required to generate a draft package",
        )));
    }
    Ok(join_path(project.project_dir.as_str(), project.story_videos[0].source.as_str()))
}

/// `p` prepares the package of the project's first story from its source
/// text, as `options` ask.
pub open spec fn prepared_from(
    project: NormalizedProject,
    options: DraftPackageOptions,
    source: Seq<char>,
    p: DraftPreparation,
) -> bool {
    let story = project.story_videos@[0];
    let package = package_path_of(project.project_dir@, story.name@);
    let narration = p.draft.adapted_narration.text@;
    &&& p.package_path@ == package
    &&& drafted_from(story, source, p.draft)
    &&& p.narration_text@ == narration + "\n"@
    &&& cues_of(subtitle_lines(narration, SUBTITLE_MAX_CHARS_PER_LINE as nat), p.subtitles@)
    &&& p.subtitles_text@ == srt_text(p.subtitles@)
    &&& p.voice_provider == voice_provider_for(story, options.voice_provider)
    &&& voice_step_of(p.voice_provider, p.voice)
    &&& p.preview_path@ == path_join(package, "preview.mp4"@)
    &&& if options.render_preview {
        &&& p.preview_command is Some
        &&& p.preview_command->0.program@ == options.ffmpeg_program@
        &&& string_views(p.preview_command->0.args@) == story_preview_args(
            path_join(project.project_dir@, story.background@),
            path_join(package, "subtitles.srt"@),
            if p.subtitles@.len() == 0 {
                SUBTITLE_CUE_DURATION_MILLIS as nat
            } else {
                p.subtitles@.last().end_millis as nat
            },
            p.preview_path@,
        )
    } else {
        p.preview_command is None
    }
}

/// Prepares the draft package of the project's first story from its source
/// text: the draft, narration, subtitles, voice step and preview command.
pub fn prepare_draft_package(project: &NormalizedProject, options: DraftPackageOptions, source: &str) -> (r:
    Result<DraftPreparation>)
    requires
        project.story_videos@.len() > 0 ==> subtitles_fit_spec(
            joined(draft_beats(project.story_videos@[0], source@)),
        ),
    ensures
        project.story_videos@.len() == 0 ==> (r matches Err(e) && e@ == (
            ErrorKind::InvalidProject,
            no_story_message(),
        )),
        project.story_videos@.len() > 0 ==> (r matches Ok(p) && prepared_from(
            *project,
            options,
            source@,
            p,
        )),
{
    if project.story_videos.len() == 0 {
        return Err(CutlineError::InvalidProject(string_of(
            "at least one [[story]] section is required to generate a draft package",
        )));
    }
    let story = &project.story_videos[0];
    let cutline_dir = join_path(project.project_dir.as_str(), ".cutline");
    let drafts = join_path(cutline_dir.as_str(), "drafts");
    let package_path = join_path(drafts.as_str(), story.name.as_str());
    let draft = generate_local_script_draft(story, source);
    let mut narration: Vec<char> = Vec::new();
    push_str(&mut narration, draft.adapted_narration.text.as_str());
    push_str(&mut narration, "\n");
    let subtitles = generate_subtitles(draft.adapted_narration.text.as_str());
    let subtitles_text = format_srt(&subtitles);
    let voice_provider = selected_voice_provider(story, options.voice_provider);
    let voice = voice_step_result(&voice_provider);
    let preview_path = join_path(package_path.as_str(), "preview.mp4");
    let preview_command = if options.render_preview {
        let background = join_path(project.project_dir.as_str(), story.background.as_str());
        let subtitles_path = join_path(package_path.as_str(), "subtitles.srt");
        let duration = preview_duration(&subtitles);
        let args = story_preview_render_args(
            background.as_str(),
            subtitles_path.as_str(),
            duration,
            preview_path.as_str(),
        );
        Some(FfmpegCommand { program: options.ffmpeg_program.clone(), args })
    } else {
        None
    };
    Ok(
        DraftPreparation {
            package_path,
            draft,
            narration_text: string_from_chars(&narration),
            subtitles,
            subtitles_text,
            voice_provider,
            voice,
            preview_path,
            preview_command,
        },
    )
}

/// A preview render must leave its file behind.
pub fn preview_outcome(preview_path: &str, exists: bool) -> (r: Result<()>)
    ensures
        exists ==> r is Ok,
        !exists ==> (r matches Err(e) && e@ == (
            ErrorKind::InvalidProject,
            "preview render did not create expected output: "@ + preview_path@,
        )),
{
    if exists {
        Ok(())
    } else {
        let mut out: Vec<char> = Vec::new();
        push_str(&mut out, "preview render did not create expected output: ");
        push_str(&mut out, preview_path);
        Err(CutlineError::InvalidProject(string_from_chars(&out)))
    }
}

pub open spec fn asset_is(a: ManifestAssetReference, path: Seq<char>, fingerprint: Seq<char>) -> bool {
    a.path@ == path && a.fingerprint@ == fingerprint
}

/// `m` is the manifest of a prepared package, the project's files having
/// the fingerprints given.
pub open spec fn manifest_of(
    project: NormalizedProject,
    p: DraftPreparation,
    source_fingerprint: Seq<char>,
    background_fingerprint: Seq<char>,
    preview_fingerprint: Option<String>,
    m: DraftManifest,
) -> bool {
    let story = project.story_videos@[0];
    &&& m.schema_version@ == draft_schema_version()
    &&& m.workflow@ == "StoryHighlightVideo"@
    &&& m.draft_id@ == story.name@
    &&& m.platform_profile@ == story.platform@
    &&& m.story.source.path@ == story.source@
    &&& m.story.source.start_line == story.start_line
    &&& m.story.source.end_line == story.end_line
    &&& m.story.source.fingerprint@ == source_fingerprint
    &&& m.story.engagement_angle@ == story.engagement_angle@
    &&& asset_is(m.visual.background, story.background@, background_fingerprint)
    &&& m.output.path@ == reference_path_of(project.project_dir@, project.output_path@)
    &&& asset_is(
        m.generated_assets.narration,
        "narration.txt"@,
        fingerprint_of(encode_utf8(p.narration_text@)),
    )
    &&& asset_is(
        m.generated_assets.subtitles,
        "subtitles.srt"@,
        fingerprint_of(encode_utf8(p.subtitles_text@)),
    )
    &&& match preview_fingerprint {
        Some(f) => m.generated_assets.preview is Some && asset_is(
            m.generated_assets.preview->0,
            "preview.mp4"@,
            f@,
        ),
        None => m.generated_assets.preview is None,
    }
    &&& m.generated_assets.voiceover == p.voice.asset
    &&& m.subtitle_style.platform@ == story.platform@
    &&& m.subtitle_style.aspect_ratio@ == "9:16"@
    &&& m.subtitle_style.max_chars_per_line == SUBTITLE_MAX_CHARS_PER_LINE
    &&& m.subtitle_style.position@ == "bottom_safe_area"@
    &&& m.subtitle_style.safe_area_bottom_percent == 12
    &&& m.short_video_drafts@ == seq![p.draft]
}

/// `r` is the reference map of a prepared package.
pub open spec fn reference_map_of(project: NormalizedProject, p: DraftPreparation, r: ReferenceMap) -> bool {
    let story = project.story_videos@[0];
    &&& r.schema_version@ == draft_schema_version()
    &&& r.draft_id@ == story.name@
    &&& references_of(p.draft, p.subtitles@, r.references@)
    &&& step_runs_of(story, p.voice.step_run, p.preview_command, r.pipeline_step_runs@)
}

fn asset(path: &str, fingerprint: String) -> (r: ManifestAssetReference)
    ensures
        asset_is(r, path@, fingerprint@),
{
    ManifestAssetReference { path: string_of(path), fingerprint }
}

/// The manifest, reference map and summary of a prepared package whose
/// files are written, given the fingerprints of the story's source, its
/// background and, where one was rendered, the preview.
pub fn finish_draft_package(
    project: &NormalizedProject,
    prep: DraftPreparation,
    source_fingerprint: String,
    background_fingerprint: String,
    preview_fingerprint: Option<String>,
) -> (r: (DraftManifest, ReferenceMap, DraftPackageSummary))
    requires
        project.story_videos@.len() > 0,
    ensures
        manifest_of(
            *project,
            prep,
            source_fingerprint@,
            background_fingerprint@,
            preview_fingerprint,
            r.0,
        ),
        reference_map_of(*project, prep, r.1),
        r.2.draft_id@ == project.story_videos@[0].name@,
        r.2.package_path == prep.package_path,
{
    let ghost prepared = prep;
    let story = &project.story_videos[0];
    let narration_fp = bytes_fingerprint(prep.narration_text.as_str().as_bytes());
    let subtitles_fp = bytes_fingerprint(prep.subtitles_text.as_str().as_bytes());
    let preview = match preview_fingerprint {
        Some(f) => Some(asset("preview.mp4", f)),
        None => None,
    };
    let references = generated_reference_entries(&prep.draft, &prep.subtitles);
    let DraftPreparation { package_path, draft, voice, preview_command, .. } = prep;
    let VoiceStepResult { asset: voiceover, step_run } = voice;
    let steps = pipeline_step_runs(story, step_run, preview_command.as_ref());
    let mut drafts: Vec<ShortVideoDraft> = Vec::new();
    drafts.push(draft);
    assert(drafts@ =~= seq![prepared.draft]);
    let manifest = DraftManifest {
        schema_version: string_of("cutline-draft-v1"),
        workflow: string_of("StoryHighlightVideo"),
        draft_id: story.name.clone(),
        platform_profile: story.platform.clone(),
        story: ManifestStory {
            source: ManifestStorySource {
                path: story.source.clone(),
                start_line: story.start_line,
                end_line: story.end_line,
                fingerprint: source_fingerprint,
            },
            engagement_angle: story.engagement_angle.clone(),
        },
        visual: ManifestVisual {
            background: ManifestAssetReference {
                path: story.background.clone(),
                fingerprint: background_fingerprint,
            },
        },
        output: ManifestOutput {
            path: project_reference_path(project.project_dir.as_str(), project.output_path.as_str()),
        },
        generated_assets: GeneratedAssets {
            narration: asset("narration.txt", narration_fp),
            subtitles: asset("subtitles.srt", subtitles_fp),
            preview,
            voiceover,
        },
        subtitle_style: default_subtitle_style(story.platform.as_str()),
        short_video_drafts: drafts,
    };
    let map = ReferenceMap {
        schema_version: string_of("cutline-draft-v1"),
        draft_id: story.name.clone(),
        references,
        pipeline_step_runs: steps,
    };
    let summary = DraftPackageSummary { draft_id: story.name.clone(), package_path };
    (manifest, map, summary)
}

// ---------------------------------------------------------------- engaging content

pub open spec fn is_sentence_end(c: char) -> bool {
    c == '。' || c == '！' || c == '？' || c == '.' || c == '!' || c == '?'
}

/// Where the sentence starting at `lo` ends (exclusive): just after the
/// first of `。！？.!?` from `lo` on, or at the end of the text.
pub open spec fn piece_end(s: Seq<char>, lo: int) -> int
    decreases s.len() - lo,
{
    if lo >= s.len() {
        s.len() as int
    } else if is_sentence_end(s[lo]) {
        lo + 1
    } else {
        piece_end(s, lo + 1)
    }
}

pub proof fn lemma_piece_end(s: Seq<char>, lo: int)
    requires
        0 <= lo < s.len(),
    ensures
        lo < piece_end(s, lo) <= s.len(),
    decreases s.len() - lo,
{
    if !is_sentence_end(s[lo]) {
        if lo + 1 < s.len() {
            lemma_piece_end(s, lo + 1);
        } else {
            assert(piece_end(s, lo + 1) == s.len());
        }
    }
}

/// The sentences of a text from `lo` on, as `split_inclusive` cuts them:
/// each with the mark that ends it.
pub open spec fn piece_bounds(s: Seq<char>, lo: int) -> Seq<(int, int)>
    decreases s.len() - lo,
{
    if lo < 0 || lo >= s.len() {
        Seq::empty()
    } else {
        let hi = piece_end(s, lo);
        proof {
            lemma_piece_end(s, lo);
        }
        seq![(lo, hi)] + piece_bounds(s, hi)
    }
}

/// The keywords that make a sentence engaging, their weights in tenths,
/// and whether they are matched without regard to ASCII case.
pub open spec fn keyword_table() -> Seq<(Seq<char>, nat, bool)> {
    seq![
        ("反转"@, 20nat, false),
        ("复仇"@, 18nat, false),
        ("真相"@, 17nat, false),
        ("秘密"@, 16nat, false),
        ("背叛"@, 16nat, false),
        ("危机"@, 15nat, false),
        ("震惊"@, 15nat, false),
        ("悬念"@, 14nat, false),
        ("冲突"@, 14nat, false),
        ("命运"@, 12nat, false),
        ("突然"@, 12nat, false),
        ("revealed"@, 15nat, true),
        ("secret"@, 14nat, true),
        ("betrayal"@, 14nat, true),
        ("revenge"@, 14nat, true),
        ("danger"@, 12nat, true),
    ]
}

pub open spec fn ascii_lower_char(c: char) -> char {
    if 'A' <= c <= 'Z' {
        ((c as u32) + 32) as char
    } else {
        c
    }
}

pub open spec fn ascii_lower(s: Seq<char>) -> Seq<char> {
    Seq::new(s.len(), |i: int| ascii_lower_char(s[i]))
}

pub open spec fn keyword_hit(sentence: Seq<char>, entry: (Seq<char>, nat, bool)) -> bool {
    let hay = if entry.2 {
        ascii_lower(sentence)
    } else {
        sentence
    };
    find_sub(hay, entry.0) is Some
}

/// The keywords of `table` found in a sentence, in the table's order.
pub open spec fn matched_keywords(sentence: Seq<char>, table: Seq<(Seq<char>, nat, bool)>) -> Seq<Seq<char>>
    decreases table.len(),
{
    if table.len() == 0 {
        Seq::empty()
    } else {
        let rest = matched_keywords(sentence, table.drop_last());
        if keyword_hit(sentence, table.last()) {
            rest.push(table.last().0)
        } else {
            rest
        }
    }
}

/// The weights of the keywords found, added up, in tenths.
pub open spec fn keyword_score(sentence: Seq<char>, table: Seq<(Seq<char>, nat, bool)>) -> nat
    decreases table.len(),
{
    if table.len() == 0 {
        0
    } else {
        keyword_score(sentence, table.drop_last()) + if keyword_hit(sentence, table.last()) {
            table.last().1
        } else {
            0
        }
    }
}

/// An engaging segment as a value: its byte offsets in the text, its text,
/// its score in tenths, and its keywords.
pub type SegmentView = (nat, nat, Seq<char>, nat, Seq<Seq<char>>);

/// The engaging sentences among the pieces from position `k` on, in text
/// order.
pub open spec fn candidates_from(text: Seq<char>, bounds: Seq<(int, int)>, k: int) -> Seq<SegmentView>
    decreases bounds.len() - k,
{
    if k < 0 || k >= bounds.len() {
        Seq::empty()
    } else {
        let (lo, hi) = bounds[k];
        let raw = text.subrange(lo, hi);
        let sentence = trim(raw);
        let a = hi - trim_start(raw).len();
        let score = keyword_score(sentence, keyword_table());
        let rest = candidates_from(text, bounds, k + 1);
        if sentence.len() > 0 && score > 0 {
            seq![
                (
                    utf8_bytes_len(text.take(a)),
                    utf8_bytes_len(text.take(a + sentence.len())),
                    sentence,
                    score,
                    matched_keywords(sentence, keyword_table()),
                ),
            ] + rest
        } else {
            rest
        }
    }
}

/// `c` put after every segment scoring at least as much.
pub open spec fn insert_by_score(sorted: Seq<SegmentView>, c: SegmentView) -> Seq<SegmentView>
    decreases sorted.len(),
{
    if sorted.len() == 0 {
        seq![c]
    } else if sorted[0].3 < c.3 {
        seq![c] + sorted
    } else {
        seq![sorted[0]] + insert_by_score(sorted.drop_first(), c)
    }
}

pub open spec fn sort_by_score(cs: Seq<SegmentView>) -> Seq<SegmentView>
    decreases cs.len(),
{
    if cs.len() == 0 {
        Seq::empty()
    } else {
        insert_by_score(sort_by_score(cs.drop_last()), cs.last())
    }
}

/// The engaging sentences of a text, highest score first, in text order
/// where scores are equal.
pub open spec fn engaging_segments(text: Seq<char>) -> Seq<SegmentView> {
    sort_by_score(candidates_from(text, piece_bounds(text, 0), 0))
}

/// A sentence found engaging: where it lies in the text, in bytes, its
/// text, its score in tenths, and the keywords that made it.
#[derive(Debug, Clone)]
pub struct EngagingSegment {
    pub start_offset: usize,
    pub end_offset: usize,
    pub content: String,
    pub score_tenths: u64,
    pub keywords: Vec<String>,
}

pub open spec fn segment_view(e: EngagingSegment) -> SegmentView {
    (e.start_offset as nat, e.end_offset as nat, e.content@, e.score_tenths as nat, string_views(e.keywords@))
}

pub open spec fn segment_views(v: Seq<EngagingSegment>) -> Seq<SegmentView> {
    Seq::new(v.len(), |i: int| segment_view(v[i]))
}

fn keyword_entry(v: &mut Vec<(Vec<char>, u64, bool)>, kw: &str, w: u64, ascii: bool)
    ensures
        final(v)@.len() == old(v)@.len() + 1,
        forall|i: int| 0 <= i < old(v)@.len() ==> final(v)@[i] == old(v)@[i],
        final(v)@[old(v)@.len() as int].0@ == kw@,
        final(v)@[old(v)@.len() as int].1 == w,
        final(v)@[old(v)@.len() as int].2 == ascii,
{
    v.push((str_chars(kw), w, ascii));
}

pub open spec fn table_view(v: Seq<(Vec<char>, u64, bool)>) -> Seq<(Seq<char>, nat, bool)> {
    Seq::new(v.len(), |i: int| (v[i].0@, v[i].1 as nat, v[i].2))
}

fn keywords() -> (r: Vec<(Vec<char>, u64, bool)>)
    ensures
        table_view(r@) == keyword_table(),
{
    let mut v: Vec<(Vec<char>, u64, bool)> = Vec::new();
    keyword_entry(&mut v, "反转", 20, false);
    keyword_entry(&mut v, "复仇", 18, false);
    keyword_entry(&mut v, "真相", 17, false);
    keyword_entry(&mut v, "秘密", 16, false);
    keyword_entry(&mut v, "背叛", 16, false);
    keyword_entry(&mut v, "危机", 15, false);
    keyword_entry(&mut v, "震惊", 15, false);
    keyword_entry(&mut v, "悬念", 14, false);
    keyword_entry(&mut v, "冲突", 14, false);
    keyword_entry(&mut v, "命运", 12, false);
    keyword_entry(&mut v, "突然", 12, false);
    keyword_entry(&mut v, "revealed", 15, true);
    keyword_entry(&mut v, "secret", 14, true);
    keyword_entry(&mut v, "betrayal", 14, true);
    keyword_entry(&mut v, "revenge", 14, true);
    keyword_entry(&mut v, "danger", 12, true);
    assert(table_view(v@) =~= keyword_table());
    v
}

fn lower_chars(s: &Vec<char>) -> (r: Vec<char>)
    ensures
        r@ == ascii_lower(s@),
{
    let mut r: Vec<char> = Vec::new();
    let mut i: usize = 0;
    while i < s.len()
        invariant
            0 <= i <= s@.len(),
            r@ == ascii_lower(s@).take(i as int),
        decreases s.len() - i,
    {
        let c = s[i];
        let l = if 'A' <= c && c <= 'Z' {
            char_from_u32_ascii((c as u32) + 32)
        } else {
            c
        };
        r.push(l);
        proof {
            assert(ascii_lower(s@).take(i + 1) =~= ascii_lower(s@).take(i as int).push(ascii_lower_char(c)));
        }
        i += 1;
    }
    assert(ascii_lower(s@).take(i as int) =~= ascii_lower(s@));
    r
}

fn char_from_u32_ascii(u: u32) -> (c: char)
    requires
        0x61 <= u <= 0x7a,
    ensures
        c == u as char,
{
    (u as u8) as char
}

/// Scores a sentence: the keywords found and their weights in tenths.
fn score_sentence(sentence: &Vec<char>, table: &Vec<(Vec<char>, u64, bool)>) -> (r: (Vec<String>, u64))
    requires
        table_view(table@) == keyword_table(),
    ensures
        string_views(r.0@) == matched_keywords(sentence@, keyword_table()),
        r.1 == keyword_score(sentence@, keyword_table()),
{
    let lower = lower_chars(sentence);
    let ghost t = keyword_table();
    let mut found: Vec<String> = Vec::new();
    let mut score: u64 = 0;
    let mut k: usize = 0;
    while k < table.len()
        invariant
            0 <= k <= table@.len(),
            table_view(table@) == t,
            t == keyword_table(),
            lower@ == ascii_lower(sentence@),
            string_views(found@) == matched_keywords(sentence@, t.take(k as int)),
            score == keyword_score(sentence@, t.take(k as int)),
            score <= 20 * k,
        decreases table.len() - k,
    {
        let entry = &table[k];
        let hit = if entry.2 {
            find_sub_range(&lower, 0, lower.len(), &entry.0).is_some()
        } else {
            find_sub_range(sentence, 0, sentence.len(), &entry.0).is_some()
        };
        proof {
            assert(t.take(k + 1).drop_last() =~= t.take(k as int));
            assert(t.take(k + 1).last() == t[k as int]);
            assert(t[k as int] == (entry.0@, entry.1 as nat, entry.2));
            assert(lower@.subrange(0, lower@.len() as int) =~= lower@);
            assert(sentence@.subrange(0, sentence@.len() as int) =~= sentence@);
            assert(entry.1 <= 20) by {
                reveal_with_fuel(keyword_table, 1);
            }
        }
        if hit {
            let ghost before = string_views(found@);
            found.push(string_from_chars(&entry.0));
            assert(string_views(found@) =~= before.push(entry.0@));
            score = score + entry.1;
        }
        k += 1;
    }
    assert(t.take(k as int) =~= t);
    (found, score)
}

proof fn lemma_insert_by_score_at(sorted: Seq<SegmentView>, c: SegmentView, p: int)
    requires
        0 <= p <= sorted.len(),
        forall|j: int| 0 <= j < p ==> sorted[j].3 >= c.3,
        p < sorted.len() ==> sorted[p].3 < c.3,
    ensures
        insert_by_score(sorted, c) == sorted.take(p) + seq![c] + sorted.skip(p),
    decreases sorted.len(),
{
    if sorted.len() == 0 {
        assert(sorted.take(p) + seq![c] + sorted.skip(p) =~= seq![c]);
    } else if p == 0 {
        assert(sorted.take(0) + seq![c] + sorted.skip(0) =~= seq![c] + sorted);
    } else {
        let t = sorted.drop_first();
        lemma_insert_by_score_at(t, c, p - 1);
        assert(sorted.take(p) + seq![c] + sorted.skip(p) =~= seq![sorted[0]] + (t.take(p - 1) + seq![c]
            + t.skip(p - 1)));
    }
}

fn insert_segment(sorted: &mut Vec<EngagingSegment>, c: EngagingSegment)
    ensures
        segment_views(final(sorted)@) == insert_by_score(segment_views(old(sorted)@), segment_view(c)),
{
    let ghost before = segment_views(sorted@);
    let mut p: usize = 0;
    while p < sorted.len() && sorted[p].score_tenths >= c.score_tenths
        invariant
            0 <= p <= sorted@.len(),
            before == segment_views(sorted@),
            forall|j: int| 0 <= j < p ==> before[j].3 >= c.score_tenths,
        decreases sorted.len() - p,
    {
        p += 1;
    }
    proof {
        lemma_insert_by_score_at(before, segment_view(c), p as int);
    }
    sorted.insert(p, c);
    assert(segment_views(sorted@) =~= before.take(p as int) + seq![segment_view(c)] + before.skip(p as int));
}

/// The sentences of a text that hold engaging keywords, scored by their
/// keywords' weights in tenths, highest first and in text order where
/// scores are equal. Offsets count UTF-8 bytes.
pub fn extract_engaging_content(text: &str) -> (r: Vec<EngagingSegment>)
    ensures
        segment_views(r@) == engaging_segments(text@),
{
    let v = str_chars(text);
    let total = text.as_bytes().len();
    proof {
        lemma_encode_utf8_len(text@);
    }
    let offsets = byte_offsets(&v, total);
    let table = keywords();
    let ghost bounds = piece_bounds(v@, 0);
    let mut sorted: Vec<EngagingSegment> = Vec::new();
    let mut lo: usize = 0;
    let ghost mut k: int = 0;
    assert(sort_by_score(candidates_from(v@, bounds, 0).take(0)) =~= Seq::<SegmentView>::empty()) by {
        assert(candidates_from(v@, bounds, 0).take(0) =~= Seq::<SegmentView>::empty());
    }
    while lo < v.len()
        invariant
            v@ == text@,
            0 <= lo <= v@.len(),
            offsets@.len() == v@.len() + 1,
            forall|i: int| 0 <= i <= v@.len() ==> #[trigger] offsets@[i] == utf8_bytes_len(v@.take(i)),
            table_view(table@) == keyword_table(),
            bounds == piece_bounds(v@, 0),
            0 <= k <= bounds.len(),
            piece_bounds(v@, lo as int) == bounds.skip(k),
            candidates_from(v@, bounds, 0) == candidates_from(v@, bounds, 0).take(
                candidates_from(v@, bounds, 0).len() - candidates_from(v@, bounds, k).len(),
            ) + candidates_from(v@, bounds, k),
            segment_views(sorted@) == sort_by_score(
                candidates_from(v@, bounds, 0).take(
                    candidates_from(v@, bounds, 0).len() - candidates_from(v@, bounds, k).len(),
                ),
            ),
        decreases v.len() - lo,
    {
        let mut hi = lo;
        while hi < v.len() && !is_sentence_end_char(v[hi])
            invariant
                lo <= hi <= v@.len(),
                piece_end(v@, lo as int) == piece_end(v@, hi as int),
            decreases v.len() - hi,
        {
            hi += 1;
        }
        if hi < v.len() {
            hi += 1;
        }
        proof {
            lemma_piece_end(v@, lo as int);
            assert(bounds.skip(k)[0] == (lo as int, hi as int));
            assert(bounds.skip(k).drop_first() =~= bounds.skip(k + 1));
            assert(bounds[k] == (lo as int, hi as int));
        }
        let (a, b) = trim_range(&v, lo, hi);
        let ghost all = candidates_from(v@, bounds, 0);
        let ghost done = all.take(all.len() - candidates_from(v@, bounds, k).len());
        if a < b {
            let sentence = slice_chars(&v, a, b);
            let (found, score) = score_sentence(&sentence, &table);
            if score > 0 {
                let seg = EngagingSegment {
                    start_offset: offsets[a],
                    end_offset: offsets[b],
                    content: string_from_chars(&sentence),
                    score_tenths: score,
                    keywords: found,
                };
                proof {
                    let c = segment_view(seg);
                    assert(candidates_from(v@, bounds, k) == seq![c] + candidates_from(v@, bounds, k + 1));
                    let rest_len = candidates_from(v@, bounds, k + 1).len();
                    let new_done = all.take(all.len() - rest_len);
                    assert(new_done =~= done.push(c));
                    assert(new_done.drop_last() =~= done);
                    assert(all =~= new_done + candidates_from(v@, bounds, k + 1));
                }
                insert_segment(&mut sorted, seg);
            } else {
                proof {
                    assert(candidates_from(v@, bounds, k) == candidates_from(v@, bounds, k + 1));
                }
            }
        } else {
            proof {
                assert(candidates_from(v@, bounds, k) == candidates_from(v@, bounds, k + 1));
            }
        }
        proof {
            k = k + 1;
        }
        lo = hi;
    }
    proof {
        assert(piece_bounds(v@, lo as int).len() == 0);
        assert(k == bounds.len());
        assert(candidates_from(v@, bounds, k).len() == 0);
        assert(candidates_from(v@, bounds, 0).take(candidates_from(v@, bounds, 0).len() as int)
            =~= candidates_from(v@, bounds, 0));
    }
    sorted
}

fn is_sentence_end_char(c: char) -> (r: bool)
    ensures
        r == is_sentence_end(c),
{
    c == '。' || c == '！' || c == '？' || c == '.' || c == '!' || c == '?'
}

fn slice_chars(v: &Vec<char>, lo: usize, hi: usize) -> (r: Vec<char>)
    requires
        lo <= hi <= v@.len(),
    ensures
        r@ == v@.subrange(lo as int, hi as int),
{
    let mut r: Vec<char> = Vec::new();
    let mut i: usize = lo;
    while i < hi
        invariant
            lo <= i <= hi <= v@.len(),
            r@ == v@.subrange(lo as int, i as int),
        decreases hi - i,
    {
        r.push(v[i]);
        assert(v@.subrange(lo as int, i + 1) =~= v@.subrange(lo as int, i as int).push(v@[i as int]));
        i += 1;
    }
    r
}

// ---------------------------------------------------------------- text segments

/// A line range of a text and the lines it holds.
#[derive(Debug, Clone)]
pub struct TextSegment {
    pub start_line: usize,
    pub end_line: usize,
    pub content: String,
    pub description: Option<String>,
}

/// The texts joined, a line break between each two.
pub open spec fn joined_lines(texts: Seq<Seq<char>>) -> Seq<char>
    decreases texts.len(),
{
    if texts.len() == 0 {
        Seq::empty()
    } else if texts.len() == 1 {
        texts[0]
    } else {
        joined_lines(texts.drop_last()) + "\n"@ + texts.last()
    }
}

/// Lines `start..=end` (from one, `end` cut at the last line), their
/// trailing whitespace dropped, one per line.
pub open spec fn segment_text(ls: Seq<Seq<char>>, start: nat, end: nat) -> Seq<char> {
    joined_lines(Seq::new((end - start + 1) as nat, |i: int| trim_end(ls[start - 1 + i])))
}

/// The segment a line range gives, if any: the range must start at line one
/// or later, not end before it starts, and start within the text; its end is
/// cut at the last line, and a segment of whitespace only is dropped.
pub open spec fn segment_of(ls: Seq<Seq<char>>, range: (usize, usize)) -> Option<(nat, nat, Seq<char>)> {
    let (start, end) = range;
    if start == 0 || end < start || start > ls.len() {
        None
    } else {
        let cut = if end <= ls.len() {
            end as nat
        } else {
            ls.len()
        };
        let text = segment_text(ls, start as nat, cut);
        if trim(text).len() == 0 {
            None
        } else {
            Some((start as nat, cut, text))
        }
    }
}

/// The segments of `ranges` that `segment_of` keeps, in order.
pub open spec fn segments_of(ls: Seq<Seq<char>>, ranges: Seq<(usize, usize)>) -> Seq<(nat, nat, Seq<char>)>
    decreases ranges.len(),
{
    if ranges.len() == 0 {
        Seq::empty()
    } else {
        let rest = segments_of(ls, ranges.drop_last());
        match segment_of(ls, ranges.last()) {
            Some(x) => rest.push(x),
            None => rest,
        }
    }
}

pub open spec fn text_segment_views(v: Seq<TextSegment>) -> Seq<(nat, nat, Seq<char>)> {
    Seq::new(v.len(), |i: int| (v[i].start_line as nat, v[i].end_line as nat, v[i].content@))
}

/// The segments of a text for the given line ranges: for each range that
/// holds something other than whitespace, its lines joined by line
/// breaks, trailing whitespace dropped, without description.
pub fn text_segments_from(content: &str, segments: &Vec<(usize, usize)>) -> (r: Vec<TextSegment>)
    ensures
        text_segment_views(r@) == segments_of(lines(content@), segments@),
        forall|i: int| 0 <= i < r@.len() ==> (#[trigger] r@[i]).description is None,
{
    let v = str_chars(content);
    let ranges = line_ranges(&v);
    let ghost ls = lines(content@);
    proof {
        assert(range_texts(v@, ranges@).len() == ranges@.len());
    }
    let n = ranges.len();
    let mut out: Vec<TextSegment> = Vec::new();
    let mut k: usize = 0;
    while k < segments.len()
        invariant
            0 <= k <= segments@.len(),
            v@ == content@,
            ls == lines(content@),
            ls == range_texts(v@, ranges@),
            n == ranges@.len(),
            crate::text::ranges_within(ranges@, v@.len() as int),
            text_segment_views(out@) == segments_of(ls, segments@.take(k as int)),
            forall|i: int| 0 <= i < out@.len() ==> (#[trigger] out@[i]).description is None,
        decreases segments.len() - k,
    {
        let (start, end) = segments[k];
        let ghost before = text_segment_views(out@);
        proof {
            assert(segments@.take(k + 1).drop_last() =~= segments@.take(k as int));
            assert(segments@.take(k + 1).last() == (start, end));
        }
        if !(start == 0 || end < start || start > n) {
            let cut = if end <= n {
                end
            } else {
                n
            };
            let ghost items = Seq::new((cut - start + 1) as nat, |i: int| trim_end(ls[start - 1 + i]));
            let mut text: Vec<char> = Vec::new();
            let mut j: usize = start - 1;
            while j < cut
                invariant
                    1 <= start <= cut <= n,
                    start - 1 <= j <= cut,
                    ls == range_texts(v@, ranges@),
                    n == ranges@.len(),
                    crate::text::ranges_within(ranges@, v@.len() as int),
                    items == Seq::new((cut - start + 1) as nat, |i: int| trim_end(ls[start - 1 + i])),
                    j == start - 1 ==> text@.len() == 0,
                    j > start - 1 ==> text@ == joined_lines(items.take(j - (start - 1))),
                decreases cut - j,
            {
                let (lo, hi) = ranges[j];
                let b = trim_end_range(&v, lo, hi);
                let ghost prev = text@;
                if j > start - 1 {
                    text.push('\n');
                }
                let mut c = lo;
                let ghost mid = text@;
                while c < b
                    invariant
                        lo <= c <= b <= v@.len(),
                        text@ == mid + v@.subrange(lo as int, c as int),
                    decreases b - c,
                {
                    text.push(v[c]);
                    assert(v@.subrange(lo as int, c + 1) =~= v@.subrange(lo as int, c as int).push(v@[c as int]));
                    c += 1;
                }
                proof {
                    let idx = j - (start - 1);
                    assert(ls[j as int] == v@.subrange(lo as int, hi as int));
                    assert(items[idx] == trim_end(ls[j as int]));
                    let t = items.take(idx + 1);
                    assert(t.last() == items[idx]);
                    assert(t.drop_last() =~= items.take(idx));
                    if idx == 0 {
                        assert(t.len() == 1);
                        assert(text@ =~= items[0]);
                    } else {
                        assert(text@ =~= prev + "\n"@ + items[idx]) by {
                            reveal_strlit("\n");
                        }
                    }
                }
                j += 1;
            }
            proof {
                assert(items.take(cut - (start - 1)) =~= items);
            }
            let (ta, tb) = trim_range(&text, 0, text.len());
            proof {
                assert(text@.subrange(0, text@.len() as int) =~= text@);
            }
            if ta < tb {
                out.push(
                    TextSegment {
                        start_line: start,
                        end_line: cut,
                        content: string_from_chars(&text),
                        description: None,
                    },
                );
                assert(text_segment_views(out@) =~= before.push((start as nat, cut as nat, text@)));
            }
        }
        k += 1;
    }
    assert(segments@.take(k as int) =~= segments@);
    out
}

/// Every reference entry of a local draft points back at the story's own
/// source and line range.
pub proof fn law_references_point_at_story(
    story: StoryVideo,
    source: Seq<char>,
    draft: ShortVideoDraft,
    cues: Seq<SubtitleCue>,
    r: Seq<ReferenceEntry>,
)
    requires
        drafted_from(story, source, draft),
        references_of(draft, cues, r),
    ensures
        forall|i: int|
            0 <= i < r.len() ==> (#[trigger] r[i]).source@ == story.source@ && r[i].start_line
                == story.start_line && r[i].end_line == story.end_line,
{
    let n = draft.content_beats@.len() as int;
    let m = cues.len() as int;
    assert forall|i: int| 0 <= i < r.len() implies (#[trigger] r[i]).source@ == story.source@
        && r[i].start_line == story.start_line && r[i].end_line == story.end_line by {
        if 1 <= i < 1 + n {
            let j = i - 1;
            assert(r[1 + j] == r[i]);
            assert(references_story(draft.content_beats@[j], story));
        } else if n + 3 <= i < n + 3 + m {
            let j = i - n - 3;
            assert(r[n + 3 + j] == r[i]);
        }
    }
}

/// Whether `c` is one of `。！？.!?`.
pub open spec fn is_stop_mark(c: char) -> bool {
    c == '。' || c == '！' || c == '？' || c == '.' || c == '!' || c == '?'
}

/// `s` holds none of `。！？.!?` but as its last character.
pub open spec fn stops_only_at_end(s: Seq<char>) -> bool {
    forall|j: int| 0 <= j < s.len() - 1 ==> !is_stop_mark(#[trigger] s[j])
}

/// An engaging segment is one sentence: its content holds none of
/// `。！？.!?` but as its last character.
pub proof fn law_engaging_segments_are_sentences(text: Seq<char>)
    ensures
        forall|i: int|
            0 <= i < engaging_segments(text).len() ==> stops_only_at_end(
                (#[trigger] engaging_segments(text)[i]).2,
            ),
{
    let bounds = piece_bounds(text, 0);
    lemma_pieces_are_sentences(text, 0);
    lemma_candidates_are_sentences(text, bounds, 0);
    lemma_sort_keeps_sentences(candidates_from(text, bounds, 0));
}

proof fn lemma_piece_end_clean(s: Seq<char>, lo: int)
    requires
        0 <= lo < s.len(),
    ensures
        forall|m: int| lo <= m < piece_end(s, lo) - 1 ==> !is_stop_mark(#[trigger] s[m]),
    decreases s.len() - lo,
{
    if !is_sentence_end(s[lo]) {
        assert(!is_stop_mark(s[lo]));
        assert(piece_end(s, lo) == piece_end(s, lo + 1));
        if lo + 1 < s.len() {
            lemma_piece_end_clean(s, lo + 1);
        } else {
            assert(piece_end(s, lo + 1) == s.len());
        }
    }
}

proof fn lemma_pieces_are_sentences(s: Seq<char>, lo: int)
    ensures
        forall|k: int|
            0 <= k < piece_bounds(s, lo).len() ==> {
                let (a, b) = #[trigger] piece_bounds(s, lo)[k];
                &&& 0 <= a <= b <= s.len()
                &&& stops_only_at_end(s.subrange(a, b))
            },
    decreases s.len() - lo,
{
    if 0 <= lo < s.len() {
        let hi = piece_end(s, lo);
        lemma_piece_end(s, lo);
        lemma_piece_end_clean(s, lo);
        lemma_pieces_are_sentences(s, hi);
        let pb = piece_bounds(s, lo);
        assert(pb == seq![(lo, hi)] + piece_bounds(s, hi));
        assert forall|k: int| 0 <= k < pb.len() implies {
            let (a, b) = #[trigger] pb[k];
            &&& 0 <= a <= b <= s.len()
            &&& stops_only_at_end(s.subrange(a, b))
        } by {
            if k == 0 {
                let t = s.subrange(lo, hi);
                assert forall|j: int| 0 <= j < t.len() - 1 implies !is_stop_mark(#[trigger] t[j]) by {
                    assert(t[j] == s[lo + j]);
                }
            } else {
                assert(pb[k] == piece_bounds(s, hi)[k - 1]);
            }
        }
    }
}

proof fn lemma_trim_start_sentence(s: Seq<char>)
    requires
        stops_only_at_end(s),
    ensures
        stops_only_at_end(trim_start(s)),
    decreases s.len(),
{
    if s.len() > 0 && is_whitespace(s[0]) {
        let t = s.drop_first();
        assert forall|j: int| 0 <= j < t.len() - 1 implies !is_stop_mark(#[trigger] t[j]) by {
            assert(t[j] == s[j + 1]);
        }
        lemma_trim_start_sentence(t);
    }
}

proof fn lemma_trim_end_sentence(s: Seq<char>)
    requires
        stops_only_at_end(s),
    ensures
        stops_only_at_end(trim_end(s)),
    decreases s.len(),
{
    if s.len() > 0 && is_whitespace(s.last()) {
        let t = s.drop_last();
        assert forall|j: int| 0 <= j < t.len() - 1 implies !is_stop_mark(#[trigger] t[j]) by {
            assert(t[j] == s[j]);
        }
        lemma_trim_end_sentence(t);
    }
}

proof fn lemma_candidates_are_sentences(text: Seq<char>, bounds: Seq<(int, int)>, k: int)
    requires
        forall|i: int|
            0 <= i < bounds.len() ==> {
                let (a, b) = #[trigger] bounds[i];
                &&& 0 <= a <= b <= text.len()
                &&& stops_only_at_end(text.subrange(a, b))
            },
    ensures
        forall|i: int|
            0 <= i < candidates_from(text, bounds, k).len() ==> stops_only_at_end(
                (#[trigger] candidates_from(text, bounds, k)[i]).2,
            ),
    decreases bounds.len() - k,
{
    if 0 <= k < bounds.len() {
        let (lo, hi) = bounds[k];
        let raw = text.subrange(lo, hi);
        lemma_trim_start_sentence(raw);
        lemma_trim_end_sentence(trim_start(raw));
        lemma_candidates_are_sentences(text, bounds, k + 1);
        let rest = candidates_from(text, bounds, k + 1);
        let r = candidates_from(text, bounds, k);
        assert forall|i: int| 0 <= i < r.len() implies stops_only_at_end((#[trigger] r[i]).2) by {
            if r.len() > rest.len() {
                if i > 0 {
                    assert(r[i] == rest[i - 1]);
                } else {
                    assert(r[0].2 == trim(raw));
                }
            } else {
                assert(r == rest);
            }
        }
    }
}

proof fn lemma_insert_keeps_sentences(sorted: Seq<SegmentView>, c: SegmentView)
    requires
        forall|i: int| 0 <= i < sorted.len() ==> stops_only_at_end((#[trigger] sorted[i]).2),
        stops_only_at_end(c.2),
    ensures
        forall|i: int|
            0 <= i < insert_by_score(sorted, c).len() ==> stops_only_at_end(
                (#[trigger] insert_by_score(sorted, c)[i]).2,
            ),
    decreases sorted.len(),
{
    let r = insert_by_score(sorted, c);
    if sorted.len() == 0 {
        assert(r == seq![c]);
    } else if sorted[0].3 < c.3 {
        assert(r == seq![c] + sorted);
        assert forall|i: int| 0 <= i < r.len() implies stops_only_at_end((#[trigger] r[i]).2) by {
            if i > 0 {
                assert(r[i] == sorted[i - 1]);
            }
        }
    } else {
        let t = sorted.drop_first();
        assert forall|i: int| 0 <= i < t.len() implies stops_only_at_end((#[trigger] t[i]).2) by {
            assert(t[i] == sorted[i + 1]);
        }
        lemma_insert_keeps_sentences(t, c);
        let tr = insert_by_score(t, c);
        assert(r == seq![sorted[0]] + tr);
        assert forall|i: int| 0 <= i < r.len() implies stops_only_at_end((#[trigger] r[i]).2) by {
            if i > 0 {
                assert(r[i] == tr[i - 1]);
            }
        }
    }
}

proof fn lemma_sort_keeps_sentences(cs: Seq<SegmentView>)
    requires
        forall|i: int| 0 <= i < cs.len() ==> stops_only_at_end((#[trigger] cs[i]).2),
    ensures
        forall|i: int|
            0 <= i < sort_by_score(cs).len() ==> stops_only_at_end((#[trigger] sort_by_score(cs)[i]).2),
    decreases cs.len(),
{
    if cs.len() > 0 {
        let init = cs.drop_last();
        assert forall|i: int| 0 <= i < init.len() implies stops_only_at_end((#[trigger] init[i]).2) by {
            assert(init[i] == cs[i]);
        }
        lemma_sort_keeps_sentences(init);
        lemma_insert_keeps_sentences(sort_by_score(init), cs.last());
    }
}

/// Engaging segments come highest score first.
pub proof fn law_engaging_sorted(text: Seq<char>)
    ensures
        forall|i: int, j: int|
            0 <= i < j < engaging_segments(text).len() ==> engaging_segments(text)[i].3
                >= engaging_segments(text)[j].3,
{
    lemma_sort_by_score_sorted(candidates_from(text, piece_bounds(text, 0), 0));
}

pub open spec fn score_sorted(s: Seq<SegmentView>) -> bool {
    forall|i: int, j: int| 0 <= i < j < s.len() ==> s[i].3 >= s[j].3
}

/// Where `insert_by_score` puts `c`: before the first segment scoring less.
pub open spec fn insert_position(s: Seq<SegmentView>, c: SegmentView) -> int
    decreases s.len(),
{
    if s.len() == 0 || s[0].3 < c.3 {
        0
    } else {
        1 + insert_position(s.drop_first(), c)
    }
}

proof fn lemma_insert_position(s: Seq<SegmentView>, c: SegmentView)
    ensures
        0 <= insert_position(s, c) <= s.len(),
        forall|j: int| 0 <= j < insert_position(s, c) ==> s[j].3 >= c.3,
        insert_position(s, c) < s.len() ==> s[insert_position(s, c)].3 < c.3,
    decreases s.len(),
{
    if s.len() > 0 && s[0].3 >= c.3 {
        let t = s.drop_first();
        lemma_insert_position(t, c);
        assert forall|j: int| 0 <= j < insert_position(s, c) implies s[j].3 >= c.3 by {
            if j > 0 {
                assert(s[j] == t[j - 1]);
            }
        }
    }
}

proof fn lemma_insert_keeps_sorted(s: Seq<SegmentView>, c: SegmentView)
    requires
        score_sorted(s),
    ensures
        score_sorted(insert_by_score(s, c)),
{
    lemma_insert_position(s, c);
    let p = insert_position(s, c);
    lemma_insert_by_score_at(s, c, p);
    let r = insert_by_score(s, c);
    assert forall|i: int, j: int| 0 <= i < j < r.len() implies r[i].3 >= r[j].3 by {
        let vi = if i < p {
            s[i].3
        } else if i == p {
            c.3
        } else {
            s[i - 1].3
        };
        let vj = if j < p {
            s[j].3
        } else if j == p {
            c.3
        } else {
            s[j - 1].3
        };
        assert(r[i].3 == vi);
        assert(r[j].3 == vj);
        if j > p && i < p {
            assert(s[i].3 >= s[j - 1].3);
        }
        if j > p && i == p {
            assert(s[p].3 < c.3);
            assert(s[p].3 >= s[j - 1].3 || p == j - 1);
        }
    }
}

proof fn lemma_sort_by_score_sorted(cs: Seq<SegmentView>)
    ensures
        score_sorted(sort_by_score(cs)),
    decreases cs.len(),
{
    if cs.len() > 0 {
        lemma_sort_by_score_sorted(cs.drop_last());
        lemma_insert_keeps_sorted(sort_by_score(cs.drop_last()), cs.last());
    }
}

} // verus!
