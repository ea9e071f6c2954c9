//! AutoCut: choosing clips of a source video from analysis anchors, and the
//! AutoCut plan built around that choice.
use vstd::prelude::*;

use crate::config::{AutoCutConfig, AutoCutRuleConfig};
use crate::decimal::{capped, seconds_millis_range, seconds_text_millis};
use crate::error::{CutlineError, Result};
use crate::model::{
    input_index, lemma_input_index, AutoCut, AutoCutOutputMode, AutoCutRule, Input,
    NormalizedProject,
};
use crate::ordering::{
    lemma_increasing_same_values, lemma_sorted_distinct, lemma_sorted_distinct_pairs, pairs_strictly_increasing, sort_distinct,
    sort_distinct_pairs, sorted_distinct, sorted_distinct_pairs, strictly_increasing,
};
use crate::text::{debug_quoted, debug_str, push_str, string_from_chars,
    find_sub, find_sub_range, first_token, first_token_range, line_ranges, lines, range_texts,
    str_chars, trim_end_char, trim_end_char_range,
};
use crate::time::TimeValue;

verus! {

pub open spec fn imin(a: int, b: int) -> int {
    if a <= b {
        a
    } else {
        b
    }
}

/// `i64::clamp`.
pub open spec fn iclamp(x: int, lo: int, hi: int) -> int {
    if x < lo {
        lo
    } else if x > hi {
        hi
    } else {
        x
    }
}

/// Clips laid end to end from `cursor`, each `clip` long or cut at `total`,
/// those shorter than `minc` left out.
pub open spec fn fallback_from(cursor: int, total: int, clip: int, minc: int) -> Seq<(i64, i64)>
    decreases if total > cursor { total - cursor } else { 0 },
{
    if clip <= 0 || cursor >= total {
        Seq::empty()
    } else {
        let end = imin(cursor + clip, total);
        let rest = fallback_from(cursor + clip, total, clip, minc);
        if end - cursor >= minc {
            seq![(cursor as i64, end as i64)] + rest
        } else {
            rest
        }
    }
}

/// Laying clips end to end from `cursor` never steps past `i64::MAX`.
pub open spec fn fallback_in_range(cursor: int, total: int, clip: int) -> bool
    decreases if total > cursor { total - cursor } else { 0 },
{
    clip <= 0 || cursor >= total || (cursor + clip <= i64::MAX && fallback_in_range(
        cursor + clip,
        total,
        clip,
    ))
}

/// Scene timestamps inside `[0, total)`.
pub open spec fn scene_anchors(total: int, scenes: Seq<i64>) -> Seq<i64>
    decreases scenes.len(),
{
    if scenes.len() == 0 {
        Seq::empty()
    } else {
        let rest = scene_anchors(total, scenes.drop_last());
        let t = scenes.last();
        if 0 <= t < total {
            rest.push(t)
        } else {
            rest
        }
    }
}

/// The starts of the audio regions, clamped to `[0, total]`, of those
/// regions that keep some length after clamping.
pub open spec fn audio_anchors(total: int, audio: Seq<(i64, i64)>) -> Seq<i64>
    decreases audio.len(),
{
    if audio.len() == 0 {
        Seq::empty()
    } else {
        let rest = audio_anchors(total, audio.drop_last());
        let (s, e) = audio.last();
        let cs = iclamp(s as int, 0, total);
        let ce = iclamp(e as int, 0, total);
        if ce > cs {
            rest.push(cs as i64)
        } else {
            rest
        }
    }
}

/// One clip per anchor, the clip's start pulled back so that it ends by
/// `total`, skipping anchors whose clip would overlap the one before.
pub open spec fn select_from(anchors: Seq<i64>, covered: int, total: int, clip: int, minc: int) -> Seq<
    (i64, i64),
>
    decreases anchors.len(),
{
    if anchors.len() == 0 {
        Seq::empty()
    } else {
        let start = iclamp(anchors[0] as int, 0, total - clip);
        let end = imin(start + clip, total);
        if end - start < minc || start < covered {
            select_from(anchors.drop_first(), covered, total, clip, minc)
        } else {
            seq![(start as i64, end as i64)] + select_from(anchors.drop_first(), end, total, clip, minc)
        }
    }
}

/// The anchors that the clips are chosen from, in increasing order.
pub open spec fn analysis_anchor_list(total: int, scenes: Seq<i64>, audio: Seq<(i64, i64)>) -> Seq<
    i64,
> {
    sorted_distinct(scene_anchors(total, scenes) + audio_anchors(total, audio))
}

/// The clips AutoCut chooses over a span of `total` milliseconds, and
/// whether it fell back to cutting the span into even pieces.
pub open spec fn clip_generation(
    total: int,
    clip: int,
    minc: int,
    scenes: Seq<i64>,
    audio: Seq<(i64, i64)>,
) -> (Seq<(i64, i64)>, bool) {
    if total <= 0 || clip <= 0 || minc <= 0 {
        (Seq::empty(), true)
    } else {
        let c = imin(clip, total);
        let m = imin(minc, c);
        if scenes.len() == 0 && audio.len() == 0 {
            (fallback_from(0, total, c, m), true)
        } else {
            let chosen = select_from(analysis_anchor_list(total, scenes, audio), 0, total, c, m);
            if chosen.len() == 0 {
                (fallback_from(0, total, c, m), true)
            } else {
                (chosen, false)
            }
        }
    }
}

/// Whether generating the clips would overflow: only cutting even pieces
/// can, where the last piece's step runs past `i64::MAX`.
pub open spec fn clip_generation_overflows(
    total: int,
    clip: int,
    minc: int,
    scenes: Seq<i64>,
    audio: Seq<(i64, i64)>,
) -> bool {
    &&& total > 0 && clip > 0 && minc > 0
    &&& clip_generation(total, clip, minc, scenes, audio).1
    &&& !fallback_in_range(0, total, imin(clip, total))
}

/// Clips in increasing order, none overlapping the next, all inside
/// `[0, total]`, each at least `lo` and at most `hi` long.
pub open spec fn clips_well_placed(clips: Seq<(i64, i64)>, total: int, lo: int, hi: int) -> bool {
    &&& forall|i: int|
        0 <= i < clips.len() ==> {
            &&& 0 <= (#[trigger] clips[i]).0
            &&& clips[i].0 < clips[i].1 <= total
            &&& lo <= clips[i].1 - clips[i].0 <= hi
        }
    &&& forall|i: int, j: int| 0 <= i < j < clips.len() ==> #[trigger] clips[i].1 <= #[trigger] clips[j].0
}

// ---------------------------------------------------------------- lemmas

pub proof fn lemma_fallback_well_placed(cursor: int, total: int, clip: int, minc: int)
    requires
        0 <= cursor,
        0 < minc <= clip,
        total <= i64::MAX,
    ensures
        clips_well_placed(fallback_from(cursor, total, clip, minc), total, minc, clip),
        forall|i: int|
            0 <= i < fallback_from(cursor, total, clip, minc).len() ==> cursor <= (
            #[trigger] fallback_from(cursor, total, clip, minc)[i]).0,
    decreases if total > cursor { total - cursor } else { 0 },
{
    if cursor < total {
        lemma_fallback_well_placed(cursor + clip, total, clip, minc);
        let end = imin(cursor + clip, total);
        let rest = fallback_from(cursor + clip, total, clip, minc);
        let r = fallback_from(cursor, total, clip, minc);
        if end - cursor >= minc {
            assert(r == seq![(cursor as i64, end as i64)] + rest);
            assert forall|i: int| 0 <= i < r.len() implies {
                &&& 0 <= (#[trigger] r[i]).0
                &&& r[i].0 < r[i].1 <= total
                &&& minc <= r[i].1 - r[i].0 <= clip
                &&& cursor <= r[i].0
            } by {
                if i > 0 {
                    assert(r[i] == rest[i - 1]);
                }
            }
            assert forall|i: int, j: int| 0 <= i < j < r.len() implies #[trigger] r[i].1 <= #[trigger] r[j].0 by {
                assert(r[j] == rest[j - 1]);
                if i > 0 {
                    assert(r[i] == rest[i - 1]);
                }
            }
        }
    }
}

pub proof fn lemma_select_well_placed(anchors: Seq<i64>, covered: int, total: int, clip: int, minc: int)
    requires
        0 <= covered,
        0 < minc <= clip <= total <= i64::MAX,
    ensures
        clips_well_placed(select_from(anchors, covered, total, clip, minc), total, minc, clip),
        forall|i: int|
            0 <= i < select_from(anchors, covered, total, clip, minc).len() ==> covered <= (
            #[trigger] select_from(anchors, covered, total, clip, minc)[i]).0,
    decreases anchors.len(),
{
    if anchors.len() > 0 {
        let start = iclamp(anchors[0] as int, 0, total - clip);
        let end = imin(start + clip, total);
        let rest_anchors = anchors.drop_first();
        if end - start < minc || start < covered {
            lemma_select_well_placed(rest_anchors, covered, total, clip, minc);
        } else {
            lemma_select_well_placed(rest_anchors, end, total, clip, minc);
            let rest = select_from(rest_anchors, end, total, clip, minc);
            let r = select_from(anchors, covered, total, clip, minc);
            assert(r == seq![(start as i64, end as i64)] + rest);
            assert forall|i: int| 0 <= i < r.len() implies {
                &&& 0 <= (#[trigger] r[i]).0
                &&& r[i].0 < r[i].1 <= total
                &&& minc <= r[i].1 - r[i].0 <= clip
                &&& covered <= r[i].0
            } by {
                if i > 0 {
                    assert(r[i] == rest[i - 1]);
                }
            }
            assert forall|i: int, j: int| 0 <= i < j < r.len() implies #[trigger] r[i].1 <= #[trigger] r[j].0 by {
                assert(r[j] == rest[j - 1]);
                if i > 0 {
                    assert(r[i] == rest[i - 1]);
                }
            }
        }
    }
}

/// AutoCut's clips never overlap: they come in increasing order, inside the
/// span, each between the minimum and the clip duration (both capped at the
/// span) long.
pub proof fn law_generated_clips_well_placed(
    total: int,
    clip: int,
    minc: int,
    scenes: Seq<i64>,
    audio: Seq<(i64, i64)>,
)
    requires
        0 < total <= i64::MAX,
        clip > 0,
        minc > 0,
    ensures
        clips_well_placed(
            clip_generation(total, clip, minc, scenes, audio).0,
            total,
            imin(minc, imin(clip, total)),
            imin(clip, total),
        ),
{
    let c = imin(clip, total);
    let m = imin(minc, c);
    lemma_fallback_well_placed(0, total, c, m);
    lemma_select_well_placed(analysis_anchor_list(total, scenes, audio), 0, total, c, m);
}

/// Clips depend only on the set of anchors the analysis gives: two analyses
/// whose in-span scene timestamps and clamped audio starts are the same
/// values, in whatever order, repeated or not, give the same clips.
pub proof fn law_equal_anchor_sets_equal_clips(
    total: int,
    clip: int,
    minc: int,
    scenes1: Seq<i64>,
    audio1: Seq<(i64, i64)>,
    scenes2: Seq<i64>,
    audio2: Seq<(i64, i64)>,
)
    requires
        forall|x: i64|
            (scene_anchors(total, scenes1) + audio_anchors(total, audio1)).contains(x) <==> (
            scene_anchors(total, scenes2) + audio_anchors(total, audio2)).contains(x),
    ensures
        clip_generation(total, clip, minc, scenes1, audio1) == clip_generation(
            total,
            clip,
            minc,
            scenes2,
            audio2,
        ),
{
    let l1 = scene_anchors(total, scenes1) + audio_anchors(total, audio1);
    let l2 = scene_anchors(total, scenes2) + audio_anchors(total, audio2);
    lemma_sorted_distinct(l1);
    lemma_sorted_distinct(l2);
    assert forall|v: i64| sorted_distinct(l1).contains(v) <==> sorted_distinct(l2).contains(v) by {
        assert(l1.contains(v) <==> l2.contains(v));
    }
    lemma_increasing_same_values(sorted_distinct(l1), sorted_distinct(l2));
    assert(analysis_anchor_list(total, scenes1, audio1) == analysis_anchor_list(
        total,
        scenes2,
        audio2,
    ));
    let c = imin(clip, total);
    let m = imin(minc, c);
    assert(select_from(Seq::<i64>::empty(), 0, total, c, m).len() == 0);
    if scenes1.len() == 0 && audio1.len() == 0 {
        lemma_no_analysis_no_anchors(total);
    }
    if scenes2.len() == 0 && audio2.len() == 0 {
        lemma_no_analysis_no_anchors(total);
    }
}

proof fn lemma_no_analysis_no_anchors(total: int)
    ensures
        analysis_anchor_list(total, Seq::empty(), Seq::empty()) == Seq::<i64>::empty(),
{
    assert(scene_anchors(total, Seq::empty()) + audio_anchors(total, Seq::empty()) =~= Seq::<
        i64,
    >::empty());
}

// ---------------------------------------------------------------- exec

/// The clips of a generation, and whether it fell back to even pieces.
pub struct GeneratedClips {
    pub segments: Vec<(i64, i64)>,
    pub fallback_used: bool,
}

fn fallback_clips(total_duration: i64, clip_duration: i64, min_clip_duration: i64) -> (r: Vec<
    (i64, i64),
>)
    requires
        clip_duration > 0,
        fallback_in_range(0, total_duration as int, clip_duration as int),
    ensures
        r@ == fallback_from(0, total_duration as int, clip_duration as int, min_clip_duration as int),
{
    let mut clips: Vec<(i64, i64)> = Vec::new();
    let mut cursor: i64 = 0;
    while cursor < total_duration
        invariant
            clip_duration > 0,
            cursor >= 0,
            fallback_in_range(cursor as int, total_duration as int, clip_duration as int),
            fallback_from(0, total_duration as int, clip_duration as int, min_clip_duration as int)
                == clips@ + fallback_from(
                cursor as int,
                total_duration as int,
                clip_duration as int,
                min_clip_duration as int,
            ),
        decreases if total_duration > cursor { total_duration - cursor } else { 0 },
    {
        let end = if cursor + clip_duration < total_duration {
            cursor + clip_duration
        } else {
            total_duration
        };
        let ghost before = clips@;
        if end - cursor >= min_clip_duration {
            clips.push((cursor, end));
        }
        proof {
            let rest = fallback_from(
                cursor + clip_duration,
                total_duration as int,
                clip_duration as int,
                min_clip_duration as int,
            );
            if end - cursor >= min_clip_duration {
                assert(before + (seq![(cursor, end)] + rest) =~= clips@ + rest);
            }
        }
        cursor = cursor + clip_duration;
    }
    assert(clips@ + Seq::<(i64, i64)>::empty() =~= clips@);
    clips
}

fn analysis_anchors(total_duration: i64, scene_changes: &[i64], audio_regions: &[(i64, i64)]) -> (r:
    Vec<i64>)
    requires
        total_duration > 0,
    ensures
        r@ == scene_anchors(total_duration as int, scene_changes@) + audio_anchors(
            total_duration as int,
            audio_regions@,
        ),
{
    let mut anchors: Vec<i64> = Vec::new();
    let mut i: usize = 0;
    while i < scene_changes.len()
        invariant
            0 <= i <= scene_changes@.len(),
            anchors@ == scene_anchors(total_duration as int, scene_changes@.take(i as int)),
        decreases scene_changes.len() - i,
    {
        let t = scene_changes[i];
        proof {
            assert(scene_changes@.take(i + 1).drop_last() =~= scene_changes@.take(i as int));
        }
        if 0 <= t && t < total_duration {
            anchors.push(t);
        }
        i += 1;
    }
    assert(scene_changes@.take(i as int) =~= scene_changes@);
    let ghost scenes_part = anchors@;
    let mut j: usize = 0;
    while j < audio_regions.len()
        invariant
            0 <= j <= audio_regions@.len(),
            total_duration > 0,
            anchors@ == scenes_part + audio_anchors(total_duration as int, audio_regions@.take(j as int)),
        decreases audio_regions.len() - j,
    {
        let (s, e) = audio_regions[j];
        let cs = if s < 0 {
            0
        } else if s > total_duration {
            total_duration
        } else {
            s
        };
        let ce = if e < 0 {
            0
        } else if e > total_duration {
            total_duration
        } else {
            e
        };
        proof {
            assert(audio_regions@.take(j + 1).drop_last() =~= audio_regions@.take(j as int));
        }
        if ce > cs {
            anchors.push(cs);
            assert(anchors@ =~= scenes_part + audio_anchors(
                total_duration as int,
                audio_regions@.take(j + 1),
            ));
        }
        j += 1;
    }
    assert(audio_regions@.take(j as int) =~= audio_regions@);
    anchors
}

fn select_clips(anchors: &Vec<i64>, total_duration: i64, clip_duration: i64, min_clip_duration: i64) -> (r:
    Vec<(i64, i64)>)
    requires
        0 < clip_duration <= total_duration,
    ensures
        r@ == select_from(
            anchors@,
            0,
            total_duration as int,
            clip_duration as int,
            min_clip_duration as int,
        ),
{
    let mut clips: Vec<(i64, i64)> = Vec::new();
    let mut covered_until: i64 = 0;
    let mut i: usize = 0;
    let latest_start = total_duration - clip_duration;
    assert(anchors@.skip(0) =~= anchors@);
    while i < anchors.len()
        invariant
            0 <= i <= anchors@.len(),
            0 < clip_duration <= total_duration,
            latest_start == total_duration - clip_duration,
            0 <= covered_until,
            select_from(
                anchors@,
                0,
                total_duration as int,
                clip_duration as int,
                min_clip_duration as int,
            ) == clips@ + select_from(
                anchors@.skip(i as int),
                covered_until as int,
                total_duration as int,
                clip_duration as int,
                min_clip_duration as int,
            ),
        decreases anchors.len() - i,
    {
        let anchor = anchors[i];
        let start = if anchor < 0 {
            0
        } else if anchor > latest_start {
            latest_start
        } else {
            anchor
        };
        let end = if start + clip_duration < total_duration {
            start + clip_duration
        } else {
            total_duration
        };
        let ghost before = clips@;
        let ghost rest = anchors@.skip(i as int);
        proof {
            assert(rest[0] == anchor);
            assert(rest.drop_first() =~= anchors@.skip(i + 1));
        }
        if end - start < min_clip_duration || start < covered_until {
        } else {
            clips.push((start, end));
            proof {
                let tail = select_from(
                    anchors@.skip(i + 1),
                    end as int,
                    total_duration as int,
                    clip_duration as int,
                    min_clip_duration as int,
                );
                assert(before + (seq![(start, end)] + tail) =~= clips@ + tail);
            }
            covered_until = end;
        }
        i += 1;
    }
    assert(anchors@.skip(i as int) =~= Seq::<i64>::empty());
    assert(clips@ + Seq::<(i64, i64)>::empty() =~= clips@);
    clips
}

/// The clips AutoCut chooses over `total_duration` milliseconds from scene
/// timestamps and audio regions, and whether it fell back to even pieces.
pub fn generate_clips_from_analysis_with_status(
    total_duration: i64,
    clip_duration: i64,
    min_clip_duration: i64,
    scene_changes: &[i64],
    audio_regions: &[(i64, i64)],
) -> (r: GeneratedClips)
    requires
        !clip_generation_overflows(
            total_duration as int,
            clip_duration as int,
            min_clip_duration as int,
            scene_changes@,
            audio_regions@,
        ),
    ensures
        (r.segments@, r.fallback_used) == clip_generation(
            total_duration as int,
            clip_duration as int,
            min_clip_duration as int,
            scene_changes@,
            audio_regions@,
        ),
{
    if total_duration <= 0 || clip_duration <= 0 || min_clip_duration <= 0 {
        return GeneratedClips { segments: Vec::new(), fallback_used: true };
    }
    let clip_duration = if clip_duration < total_duration {
        clip_duration
    } else {
        total_duration
    };
    let min_clip_duration = if min_clip_duration < clip_duration {
        min_clip_duration
    } else {
        clip_duration
    };
    if scene_changes.len() == 0 && audio_regions.len() == 0 {
        return GeneratedClips {
            segments: fallback_clips(total_duration, clip_duration, min_clip_duration),
            fallback_used: true,
        };
    }
    let raw = analysis_anchors(total_duration, scene_changes, audio_regions);
    let anchors = sort_distinct(&raw);
    let clips = select_clips(&anchors, total_duration, clip_duration, min_clip_duration);
    if clips.len() == 0 {
        GeneratedClips {
            segments: fallback_clips(total_duration, clip_duration, min_clip_duration),
            fallback_used: true,
        }
    } else {
        GeneratedClips { segments: clips, fallback_used: false }
    }
}

/// The clips AutoCut chooses over `total_duration` milliseconds.
pub fn generate_clips_from_analysis(
    total_duration: i64,
    clip_duration: i64,
    min_clip_duration: i64,
    scene_changes: &[i64],
    audio_regions: &[(i64, i64)],
) -> (r: Vec<(i64, i64)>)
    requires
        !clip_generation_overflows(
            total_duration as int,
            clip_duration as int,
            min_clip_duration as int,
            scene_changes@,
            audio_regions@,
        ),
    ensures
        r@ == clip_generation(
            total_duration as int,
            clip_duration as int,
            min_clip_duration as int,
            scene_changes@,
            audio_regions@,
        ).0,
{
    generate_clips_from_analysis_with_status(
        total_duration,
        clip_duration,
        min_clip_duration,
        scene_changes,
        audio_regions,
    ).segments
}

// ---------------------------------------------------------------- ffmpeg output

/// The milliseconds written after the first `key` of a line: the first
/// token after it, without trailing `|`, read as seconds.
pub open spec fn key_seconds(line: Seq<char>, key: Seq<char>) -> Option<nat> {
    match find_sub(line, key) {
        None => None,
        Some(i) => match first_token(line.skip(i + key.len())) {
            None => None,
            Some(tok) => seconds_text_millis(trim_end_char(tok, '|')),
        },
    }
}

/// `key_seconds` as an `i64`, saturating at `i64::MAX`.
pub open spec fn key_millis(line: Seq<char>, key: Seq<char>) -> Option<i64> {
    match key_seconds(line, key) {
        Some(m) => Some(capped(m, i64::MAX as nat) as i64),
        None => None,
    }
}

/// The values that `key` gives on the lines that have one.
pub open spec fn keyed_values(ls: Seq<Seq<char>>, key: Seq<char>) -> Seq<i64>
    decreases ls.len(),
{
    if ls.len() == 0 {
        Seq::empty()
    } else {
        let rest = keyed_values(ls.drop_last(), key);
        match key_millis(ls.last(), key) {
            Some(t) => rest.push(t),
            None => rest,
        }
    }
}

/// The scene-change timestamps in the `showinfo` output, sorted, once each.
pub open spec fn showinfo_timestamps(stderr: Seq<char>) -> Seq<i64> {
    sorted_distinct(keyed_values(lines(stderr), "pts_time:"@))
}

/// One line of `silencedetect` output applied to the regions found so far
/// and the start of the sound that is running, if any.
pub open spec fn silence_step(state: (Seq<(i64, i64)>, Option<i64>), line: Seq<char>) -> (Seq<
    (i64, i64),
>, Option<i64>) {
    let (regions, active) = state;
    let (regions2, active2) = match key_millis(line, "silence_start:"@) {
        Some(ss) => match active {
            Some(start) => (
                if ss > start {
                    regions.push((start, ss))
                } else {
                    regions
                },
                None,
            ),
            None => (regions, None),
        },
        None => (regions, active),
    };
    match key_millis(line, "silence_end:"@) {
        Some(se) => (regions2, Some(se)),
        None => (regions2, active2),
    }
}

pub open spec fn silence_scan(ls: Seq<Seq<char>>) -> (Seq<(i64, i64)>, Option<i64>)
    decreases ls.len(),
{
    if ls.len() == 0 {
        (Seq::empty(), Some(0i64))
    } else {
        silence_step(silence_scan(ls.drop_last()), ls.last())
    }
}

/// The stretches with sound between the silences that `silencedetect`
/// reports, the last one running to `total` when it is known.
pub open spec fn audio_activity_regions(stderr: Seq<char>, total: Option<i64>) -> Seq<(i64, i64)> {
    let (regions, active) = silence_scan(lines(stderr));
    match (active, total) {
        (Some(start), Some(t)) => if t > start {
            regions.push((start, t))
        } else {
            regions
        },
        _ => regions,
    }
}

/// No line of `ls` strictly between indices `k` and `j` reports a silence
/// starting or ending.
pub open spec fn quiet_between(ls: Seq<Seq<char>>, k: int, j: int) -> bool {
    forall|m: int|
        k < m < j ==> key_millis(#[trigger] ls[m], "silence_start:"@) is None && key_millis(
            ls[m],
            "silence_end:"@,
        ) is None
}

/// No line of `ls` after index `k` reports a silence starting or ending.
pub open spec fn quiet_after(ls: Seq<Seq<char>>, k: int) -> bool {
    quiet_between(ls, k, ls.len() as int)
}

/// Lines without a silence leave the scan where it was.
proof fn lemma_quiet_scan(ls: Seq<Seq<char>>, k: int, j: int)
    requires
        -1 <= k < j <= ls.len(),
        quiet_between(ls, k, j),
    ensures
        silence_scan(ls.take(j)) == silence_scan(ls.take(k + 1)),
    decreases j - k,
{
    if j > k + 1 {
        lemma_quiet_scan(ls, k, j - 1);
        assert(ls.take(j).drop_last() =~= ls.take(j - 1));
        assert(ls.take(j).last() == ls[j - 1]);
    }
}

/// The regions found so far stay, in order, as more lines are scanned.
proof fn lemma_scan_regions_grow(ls: Seq<Seq<char>>, a: int, b: int)
    requires
        0 <= a <= b <= ls.len(),
    ensures
        silence_scan(ls.take(a)).0.len() <= silence_scan(ls.take(b)).0.len(),
        silence_scan(ls.take(b)).0.take(silence_scan(ls.take(a)).0.len() as int) == silence_scan(
            ls.take(a),
        ).0,
    decreases b - a,
{
    let ra = silence_scan(ls.take(a)).0;
    if b == a {
        assert(ra.take(ra.len() as int) =~= ra);
    } else {
        lemma_scan_regions_grow(ls, a, b - 1);
        assert(ls.take(b).drop_last() =~= ls.take(b - 1));
        let rp = silence_scan(ls.take(b - 1)).0;
        let rb = silence_scan(ls.take(b)).0;
        assert(rb == rp || rb == rp.push(rb.last()));
        if rb != rp {
            assert(rb.take(ra.len() as int) =~= rp.take(ra.len() as int));
        }
    }
}

/// Sound between two silences is a region: where a silence ends at `e` on
/// line `i`, the next one reported starts at `ss` on line `j`, and
/// `ss > e`, the regions hold `(e, ss)`, whatever the end of the audio.
pub proof fn law_sound_between_silences(
    stderr: Seq<char>,
    i: int,
    j: int,
    e: i64,
    ss: i64,
    total: Option<i64>,
)
    requires
        0 <= i < j < lines(stderr).len(),
        key_millis(lines(stderr)[i], "silence_end:"@) == Some(e),
        quiet_between(lines(stderr), i, j),
        key_millis(lines(stderr)[j], "silence_start:"@) == Some(ss),
        ss > e,
    ensures
        audio_activity_regions(stderr, total).contains((e, ss)),
{
    let ls = lines(stderr);
    assert(ls.take(i + 1).drop_last() =~= ls.take(i));
    assert(ls.take(i + 1).last() == ls[i]);
    assert(silence_scan(ls.take(i + 1)).1 == Some(e));
    lemma_quiet_scan(ls, i, j);
    assert(ls.take(j + 1).drop_last() =~= ls.take(j));
    assert(ls.take(j + 1).last() == ls[j]);
    let r1 = silence_scan(ls.take(j + 1)).0;
    assert(r1.last() == (e, ss));
    lemma_scan_regions_grow(ls, j + 1, ls.len() as int);
    assert(ls.take(ls.len() as int) =~= ls);
    let rf = silence_scan(ls).0;
    assert(rf[r1.len() - 1] == r1[r1.len() - 1]);
    let out = audio_activity_regions(stderr, total);
    assert(out == rf || out == rf.push(out.last()));
    assert(out[r1.len() - 1] == (e, ss));
}

/// Sound before the first silence is a region: where the first silence
/// reported starts at `ss > 0` on line `j`, the regions hold `(0, ss)`.
pub proof fn law_sound_before_first_silence(stderr: Seq<char>, j: int, ss: i64, total: Option<i64>)
    requires
        0 <= j < lines(stderr).len(),
        quiet_between(lines(stderr), -1, j),
        key_millis(lines(stderr)[j], "silence_start:"@) == Some(ss),
        ss > 0,
    ensures
        audio_activity_regions(stderr, total).contains((0i64, ss)),
{
    let ls = lines(stderr);
    lemma_quiet_scan(ls, -1, j);
    assert(ls.take(0) =~= Seq::<Seq<char>>::empty());
    assert(ls.take(j + 1).drop_last() =~= ls.take(j));
    assert(ls.take(j + 1).last() == ls[j]);
    let r1 = silence_scan(ls.take(j + 1)).0;
    assert(r1 == seq![(0i64, ss)]);
    lemma_scan_regions_grow(ls, j + 1, ls.len() as int);
    assert(ls.take(ls.len() as int) =~= ls);
    let rf = silence_scan(ls).0;
    assert(rf[0] == r1[0]);
    let out = audio_activity_regions(stderr, total);
    assert(out == rf || out == rf.push(out.last()));
    assert(out[0] == (0i64, ss));
}

proof fn lemma_scan_regions_nonempty(ls: Seq<Seq<char>>)
    ensures
        forall|k: int|
            0 <= k < silence_scan(ls).0.len() ==> (#[trigger] silence_scan(ls).0[k]).0 < silence_scan(
                ls,
            ).0[k].1,
    decreases ls.len(),
{
    if ls.len() > 0 {
        lemma_scan_regions_nonempty(ls.drop_last());
        let rp = silence_scan(ls.drop_last()).0;
        let r = silence_scan(ls).0;
        assert(r == rp || (r == rp.push(r.last()) && r.last().0 < r.last().1));
        assert forall|k: int| 0 <= k < r.len() implies (#[trigger] r[k]).0 < r[k].1 by {
            if k < rp.len() {
                assert(r[k] == rp[k]);
            }
        }
    }
}

/// Every region of sound starts before it ends.
pub proof fn law_sound_regions_nonempty(stderr: Seq<char>, total: Option<i64>)
    ensures
        forall|k: int|
            0 <= k < audio_activity_regions(stderr, total).len() ==> (
            #[trigger] audio_activity_regions(stderr, total)[k]).0 < audio_activity_regions(
                stderr,
                total,
            )[k].1,
{
    let ls = lines(stderr);
    lemma_scan_regions_nonempty(ls);
    let rf = silence_scan(ls).0;
    let out = audio_activity_regions(stderr, total);
    assert(out == rf || (out == rf.push(out.last()) && out.last().0 < out.last().1));
    assert forall|k: int| 0 <= k < out.len() implies (#[trigger] out[k]).0 < out[k].1 by {
        if k < rf.len() {
            assert(out[k] == rf[k]);
        }
    }
}

/// When the last silence ends at `s` before the end `t` of the audio, the
/// sound from `s` to `t` is the last region.
pub proof fn law_sound_after_last_silence(stderr: Seq<char>, k: int, s: i64, t: i64)
    requires
        0 <= k < lines(stderr).len(),
        key_millis(lines(stderr)[k], "silence_end:"@) == Some(s),
        quiet_after(lines(stderr), k),
        t > s,
    ensures
        audio_activity_regions(stderr, Some(t)).len() > 0,
        audio_activity_regions(stderr, Some(t)).last() == (s, t),
{
    let ls = lines(stderr);
    lemma_quiet_scan(ls, k, ls.len() as int);
    assert(ls.take(ls.len() as int) =~= ls);
    assert(ls.take(k + 1).drop_last() =~= ls.take(k));
    assert(ls.take(k + 1).last() == ls[k]);
    assert(silence_scan(ls).1 == Some(s));
}

/// Audio in which no silence is reported is one region of sound from the
/// start to the end `t`.
pub proof fn law_sound_without_silence(stderr: Seq<char>, t: i64)
    requires
        quiet_after(lines(stderr), -1),
        t > 0,
    ensures
        audio_activity_regions(stderr, Some(t)) == seq![(0i64, t)],
{
    let ls = lines(stderr);
    lemma_quiet_scan(ls, -1, ls.len() as int);
    assert(ls.take(ls.len() as int) =~= ls);
    assert(ls.take(0) =~= Seq::<Seq<char>>::empty());
    assert(silence_scan(ls) == (Seq::<(i64, i64)>::empty(), Some(0i64)));
    assert(Seq::<(i64, i64)>::empty().push((0i64, t)) =~= seq![(0i64, t)]);
}

fn key_millis_range(v: &Vec<char>, lo: usize, hi: usize, key: &Vec<char>) -> (r: Option<i64>)
    requires
        lo <= hi <= v@.len(),
    ensures
        r == key_millis(v@.subrange(lo as int, hi as int), key@),
{
    let ghost line = v@.subrange(lo as int, hi as int);
    let at = match find_sub_range(v, lo, hi, key) {
        Some(i) => i,
        None => {
            return None;
        },
    };
    let after = at + key.len();
    assert(line.skip(at - lo + key@.len()) =~= v@.subrange(after as int, hi as int));
    let (a, b) = match first_token_range(v, after, hi) {
        Some(p) => p,
        None => {
            return None;
        },
    };
    let e = trim_end_char_range(v, a, b, '|');
    match seconds_millis_range(v, a, e, i64::MAX as u64) {
        Some(m) => Some(m as i64),
        None => None,
    }
}

/// The milliseconds of the seconds written after the first `key` in `line`:
/// `None` where they are no number, negative, or too large for an `f64`.
/// They are rounded half up from their exact decimal value (see
/// `crate::decimal`) and capped at `i64::MAX`.
pub fn parse_key_seconds_millis(line: &str, key: &str) -> (r: Option<i64>)
    ensures
        r == key_millis(line@, key@),
{
    let v = str_chars(line);
    let k = str_chars(key);
    let n = v.len();
    assert(v@.subrange(0, n as int) =~= v@);
    key_millis_range(&v, 0, n, &k)
}

/// The scene-change timestamps, in milliseconds, that ffmpeg's `showinfo`
/// filter printed.
pub fn parse_scene_showinfo(stderr: &str) -> (r: Vec<i64>)
    ensures
        r@ == showinfo_timestamps(stderr@),
{
    let v = str_chars(stderr);
    let key = str_chars("pts_time:");
    let ranges = line_ranges(&v);
    let ghost ls = lines(v@);
    let mut timestamps: Vec<i64> = Vec::new();
    let mut i: usize = 0;
    while i < ranges.len()
        invariant
            0 <= i <= ranges@.len(),
            key@ == "pts_time:"@,
            crate::text::ranges_within(ranges@, v@.len() as int),
            range_texts(v@, ranges@) == ls,
            timestamps@ == keyed_values(ls.take(i as int), "pts_time:"@),
        decreases ranges.len() - i,
    {
        let (a, b) = ranges[i];
        proof {
            assert(ls[i as int] == v@.subrange(a as int, b as int));
            assert(ls.take(i + 1).drop_last() =~= ls.take(i as int));
        }
        match key_millis_range(&v, a, b, &key) {
            Some(t) => timestamps.push(t),
            None => {},
        }
        i += 1;
    }
    assert(ls.take(i as int) =~= ls);
    sort_distinct(&timestamps)
}

/// The stretches with sound between the silences that ffmpeg's
/// `silencedetect` filter printed.
pub fn parse_audio_activity_from_silencedetect(stderr: &str, total_duration: Option<i64>) -> (r: Vec<
    (i64, i64),
>)
    ensures
        r@ == audio_activity_regions(stderr@, total_duration),
{
    let v = str_chars(stderr);
    let start_key = str_chars("silence_start:");
    let end_key = str_chars("silence_end:");
    let ranges = line_ranges(&v);
    let ghost ls = lines(v@);
    let mut regions: Vec<(i64, i64)> = Vec::new();
    let mut active_start: Option<i64> = Some(0);
    let mut i: usize = 0;
    while i < ranges.len()
        invariant
            0 <= i <= ranges@.len(),
            start_key@ == "silence_start:"@,
            end_key@ == "silence_end:"@,
            crate::text::ranges_within(ranges@, v@.len() as int),
            range_texts(v@, ranges@) == ls,
            (regions@, active_start) == silence_scan(ls.take(i as int)),
        decreases ranges.len() - i,
    {
        let (a, b) = ranges[i];
        proof {
            assert(ls[i as int] == v@.subrange(a as int, b as int));
            assert(ls.take(i + 1).drop_last() =~= ls.take(i as int));
        }
        match key_millis_range(&v, a, b, &start_key) {
            Some(silence_start) => {
                match active_start {
                    Some(start) => {
                        if silence_start > start {
                            regions.push((start, silence_start));
                        }
                    },
                    None => {},
                }
                active_start = None;
            },
            None => {},
        }
        match key_millis_range(&v, a, b, &end_key) {
            Some(silence_end) => {
                active_start = Some(silence_end);
            },
            None => {},
        }
        i += 1;
    }
    assert(ls.take(i as int) =~= ls);
    match (active_start, total_duration) {
        (Some(start), Some(total)) => {
            if total > start {
                regions.push((start, total));
            }
        },
        _ => {},
    }
    regions
}

// ---------------------------------------------------------------- configuration

/// The rule a configured rule stands for.
pub open spec fn rule_of_config(r: AutoCutRuleConfig) -> AutoCutRule {
    match r {
        AutoCutRuleConfig::SceneChange { threshold_bits } => AutoCutRule::SceneChange {
            threshold_bits,
        },
        AutoCutRuleConfig::AudioActivity { threshold_bits } => AutoCutRule::AudioActivity {
            threshold_bits,
        },
        AutoCutRuleConfig::Motion { threshold_bits } => AutoCutRule::Motion { threshold_bits },
    }
}

fn auto_cut_rule(rule: &AutoCutRuleConfig) -> (r: AutoCutRule)
    ensures
        r == rule_of_config(*rule),
{
    match rule {
        AutoCutRuleConfig::SceneChange { threshold_bits } => AutoCutRule::SceneChange {
            threshold_bits: *threshold_bits,
        },
        AutoCutRuleConfig::AudioActivity { threshold_bits } => AutoCutRule::AudioActivity {
            threshold_bits: *threshold_bits,
        },
        AutoCutRuleConfig::Motion { threshold_bits } => AutoCutRule::Motion {
            threshold_bits: *threshold_bits,
        },
    }
}

/// `r` is the AutoCut configured by `config`: `output_mode = "multiple"`
/// gives one output per clip, anything else a single output.
pub open spec fn generated_autocut(config: AutoCutConfig, r: AutoCut) -> bool {
    &&& r.name@ == config.name@
    &&& r.input@ == config.input@
    &&& r.target_duration == config.target_duration
    &&& r.clip_duration == config.clip_duration
    &&& r.min_clip_duration == config.min_clip_duration
    &&& r.rules@.len() == config.rules@.len()
    &&& forall|i: int| 0 <= i < r.rules@.len() ==> #[trigger] r.rules@[i] == rule_of_config(config.rules@[i])
    &&& r.output_mode == (if config.output_mode@ == "multiple"@ {
        AutoCutOutputMode::Multiple
    } else {
        AutoCutOutputMode::Single
    })
}

/// The AutoCut a configuration describes.
pub fn generate_autocut(config: &AutoCutConfig) -> (r: AutoCut)
    ensures
        generated_autocut(*config, r),
{
    let mut rules: Vec<AutoCutRule> = Vec::new();
    let mut i: usize = 0;
    while i < config.rules.len()
        invariant
            0 <= i <= config.rules@.len(),
            rules@.len() == i,
            forall|k: int| 0 <= k < i ==> rules@[k] == rule_of_config(config.rules@[k]),
        decreases config.rules.len() - i,
    {
        rules.push(auto_cut_rule(&config.rules[i]));
        i += 1;
    }
    let output_mode = if crate::text::str_equal(config.output_mode.as_str(), "multiple") {
        AutoCutOutputMode::Multiple
    } else {
        AutoCutOutputMode::Single
    };
    AutoCut {
        name: config.name.clone(),
        input: config.input.clone(),
        target_duration: config.target_duration,
        clip_duration: config.clip_duration,
        min_clip_duration: config.min_clip_duration,
        rules,
        output_mode,
    }
}

// ---------------------------------------------------------------- the plan

#[derive(Debug, Clone)]
pub struct AutoCutPlan {
    pub auto_cuts: Vec<PlannedAutoCut>,
}

#[derive(Debug, Clone)]
pub struct PlannedAutoCut {
    pub name: String,
    pub input: String,
    pub input_path: String,
    pub input_duration: TimeValue,
    pub target_duration: TimeValue,
    pub clip_duration: TimeValue,
    pub min_clip_duration: TimeValue,
    pub output_mode: AutoCutOutputMode,
    pub rules: Vec<AutoCutRule>,
    pub analysis: AutoCutAnalysis,
    pub clips: Vec<AutoCutClip>,
}

#[derive(Debug, Clone)]
pub struct AutoCutAnalysis {
    pub scene_changes: Vec<TimeValue>,
    pub audio_regions: Vec<AutoCutAudioRegion>,
    pub fallback_used: bool,
}

#[derive(Debug, Clone, Copy)]
pub struct AutoCutAudioRegion {
    pub start: TimeValue,
    pub end: TimeValue,
}

#[derive(Debug, Clone)]
pub struct AutoCutClip {
    pub index: usize,
    pub input: String,
    pub start: TimeValue,
    pub end: TimeValue,
    pub duration: TimeValue,
    pub output_start: TimeValue,
    pub output_end: TimeValue,
}

/// What the analyzer found for one AutoCut: scene (and motion) timestamps
/// and audio regions, sorted, once each.
#[derive(Debug, Clone)]
pub struct CollectedAnalysis {
    pub scene_changes: Vec<i64>,
    pub audio_regions: Vec<(i64, i64)>,
}

/// Finds scene changes, audio activity and motion in a video. An analyzer
/// may find anything: the plan records what it found and chooses clips from
/// that. An implementation may say, through its answer predicates, which
/// findings it gives for which question; where it says nothing, any
/// findings are an answer.
pub trait AutoCutAnalyzer {
    /// `found` is what this analyzer answers when asked for the scene
    /// changes of the video at `video_path` with the threshold whose `f64`
    /// bits are `threshold_bits`.
    open spec fn scene_answer(&self, video_path: Seq<char>, threshold_bits: u64, found: Seq<i64>) -> bool {
        true
    }

    /// `found` is what this analyzer answers when asked for the audio
    /// activity of the video at `video_path`, `duration` milliseconds long,
    /// with the threshold whose `f64` bits are `threshold_bits`.
    open spec fn audio_answer(
        &self,
        video_path: Seq<char>,
        threshold_bits: u64,
        duration: nat,
        found: Seq<(i64, i64)>,
    ) -> bool {
        true
    }

    /// `found` is what this analyzer answers when asked for the motion
    /// anchors of the video at `video_path` with the threshold whose `f64`
    /// bits are `threshold_bits`.
    open spec fn motion_answer(&self, video_path: Seq<char>, threshold_bits: u64, found: Seq<i64>) -> bool {
        true
    }

    fn scene_changes(&self, video_path: &str, threshold_bits: u64) -> (found: Vec<i64>)
        ensures
            self.scene_answer(video_path@, threshold_bits, found@),
    ;

    fn audio_activity(&self, video_path: &str, threshold_bits: u64, duration: TimeValue) -> (found:
        Vec<(i64, i64)>)
        ensures
            self.audio_answer(video_path@, threshold_bits, duration@, found@),
    ;

    fn motion_anchors(&self, video_path: &str, threshold_bits: u64) -> (found: Vec<i64>)
        ensures
            self.motion_answer(video_path@, threshold_bits, found@),
    ;
}

/// `x as i64` for a `u64`.
pub open spec fn wrap_i64(x: nat) -> int {
    if x <= i64::MAX {
        x as int
    } else {
        x - 0x1_0000_0000_0000_0000
    }
}

fn u64_as_i64(x: u64) -> (r: i64)
    ensures
        r == wrap_i64(x as nat),
{
    if x <= i64::MAX as u64 {
        x as i64
    } else {
        let below: u64 = u64::MAX - x;
        -(below as i64) - 1
    }
}

/// An `i64` timestamp as a time value, negatives read as zero.
pub open spec fn nonneg(t: i64) -> nat {
    if t < 0 {
        0
    } else {
        t as nat
    }
}

/// The length of a clip once its ends are read as time values.
pub open spec fn segment_duration(seg: (i64, i64)) -> nat {
    if nonneg(seg.1) >= nonneg(seg.0) {
        (nonneg(seg.1) - nonneg(seg.0)) as nat
    } else {
        0
    }
}

/// The output time at which clip `k` starts: the lengths of the clips before it.
pub open spec fn output_offset(segs: Seq<(i64, i64)>, k: int) -> nat
    decreases k,
{
    if k <= 0 {
        0
    } else {
        output_offset(segs, k - 1) + segment_duration(segs[k - 1])
    }
}

pub open spec fn unknown_input_message(ac: AutoCut) -> Seq<char> {
    "unknown input "@ + debug_str(ac.input@) + " at auto_cut "@ + debug_str(ac.name@)
}

pub open spec fn missing_duration_message(ac: AutoCut) -> Seq<char> {
    "auto_cut "@ + debug_str(ac.name@) + " requires probed duration for input "@ + debug_str(
        ac.input@,
    )
}

/// Why an AutoCut cannot be planned, if it cannot: its input is unknown or
/// has no probed duration.
pub open spec fn autocut_input_problem(project: NormalizedProject, ac: AutoCut) -> Option<Seq<char>> {
    match input_index(project.inputs@, ac.input@) {
        None => Some(unknown_input_message(ac)),
        Some(i) => match project.inputs@[i].metadata {
            Some(md) => match md.duration {
                Some(d) => None,
                None => Some(missing_duration_message(ac)),
            },
            None => Some(missing_duration_message(ac)),
        },
    }
}

/// The input an AutoCut reads, and its probed duration.
pub open spec fn autocut_input(project: NormalizedProject, ac: AutoCut) -> (Input, nat) {
    let i = input_index(project.inputs@, ac.input@)->0;
    let input = project.inputs@[i];
    (input, input.metadata->0.duration->0@)
}

/// The span clips are chosen from: the input's length or the target
/// duration, whichever is shorter, as an `i64`.
pub open spec fn selection_span(project: NormalizedProject, ac: AutoCut) -> int {
    let d = autocut_input(project, ac).1;
    wrap_i64(if d <= ac.target_duration@ {
        d
    } else {
        ac.target_duration@
    })
}

/// The clip generation of an AutoCut over what was collected.
pub open spec fn autocut_generation(
    project: NormalizedProject,
    ac: AutoCut,
    c: (Seq<i64>, Seq<(i64, i64)>),
) -> (Seq<(i64, i64)>, bool) {
    clip_generation(
        selection_span(project, ac),
        wrap_i64(ac.clip_duration@),
        wrap_i64(ac.min_clip_duration@),
        c.0,
        c.1,
    )
}

/// Cutting even pieces over the selection span never overflows.
pub open spec fn autocut_fits(project: NormalizedProject, ac: AutoCut) -> bool {
    autocut_input_problem(project, ac) is None ==> {
        let total = selection_span(project, ac);
        let clip = wrap_i64(ac.clip_duration@);
        !(total > 0 && clip > 0 && wrap_i64(ac.min_clip_duration@) > 0) || fallback_in_range(
            0,
            total,
            imin(clip, total),
        )
    }
}

/// `p` is the plan of AutoCut `ac` when the analysis collected `c`.
pub open spec fn planned_from(
    project: NormalizedProject,
    ac: AutoCut,
    c: (Seq<i64>, Seq<(i64, i64)>),
    p: PlannedAutoCut,
) -> bool {
    let (input, duration) = autocut_input(project, ac);
    let (segs, fallback) = autocut_generation(project, ac, c);
    &&& p.name@ == ac.name@
    &&& p.input@ == ac.input@
    &&& p.input_path@ == input.path@
    &&& p.input_duration@ == duration
    &&& p.target_duration == ac.target_duration
    &&& p.clip_duration == ac.clip_duration
    &&& p.min_clip_duration == ac.min_clip_duration
    &&& p.output_mode == ac.output_mode
    &&& p.rules@ == ac.rules@
    &&& p.analysis.fallback_used == fallback
    &&& p.analysis.scene_changes@.len() == c.0.len()
    &&& forall|k: int|
        0 <= k < c.0.len() ==> (#[trigger] p.analysis.scene_changes@[k])@ == nonneg(c.0[k])
    &&& p.analysis.audio_regions@.len() == c.1.len()
    &&& forall|k: int|
        0 <= k < c.1.len() ==> (#[trigger] p.analysis.audio_regions@[k]).start@ == nonneg(c.1[k].0)
            && p.analysis.audio_regions@[k].end@ == nonneg(c.1[k].1)
    &&& p.clips@.len() == segs.len()
    &&& forall|k: int|
        0 <= k < segs.len() ==> {
            let clip = #[trigger] p.clips@[k];
            &&& clip.index == k
            &&& clip.input@ == ac.input@
            &&& clip.start@ == nonneg(segs[k].0)
            &&& clip.end@ == nonneg(segs[k].1)
            &&& clip.duration@ == segment_duration(segs[k])
            &&& clip.output_start@ == output_offset(segs, k)
            &&& clip.output_end@ == output_offset(segs, k + 1)
        }
}

/// Clips inside `[0, total]` that do not overlap add up to no more than the
/// end of the last one.
proof fn lemma_output_offset_bound(segs: Seq<(i64, i64)>, total: int, lo: int, hi: int, k: int)
    requires
        clips_well_placed(segs, total, lo, hi),
        0 <= k <= segs.len(),
    ensures
        k == 0 ==> output_offset(segs, k) == 0,
        k > 0 ==> output_offset(segs, k) <= segs[k - 1].1,
    decreases k,
{
    if k > 0 {
        lemma_output_offset_bound(segs, total, lo, hi, k - 1);
        assert(0 <= segs[k - 1].0 < segs[k - 1].1);
        if k > 1 {
            assert(segs[k - 2].1 <= segs[k - 1].0);
        }
    }
}

fn timestamp_value(t: i64) -> (r: TimeValue)
    ensures
        r@ == nonneg(t),
{
    if t < 0 {
        TimeValue::from_millis(0)
    } else {
        TimeValue::from_millis(t as u64)
    }
}

fn lookup_autocut_input(project: &NormalizedProject, auto_cut: &AutoCut) -> (r: Result<(usize, TimeValue)>)
    ensures
        match autocut_input_problem(*project, *auto_cut) {
            Some(m) => r matches Err(CutlineError::InvalidProject(e)) && e@ == m,
            None => r matches Ok(p) && p.0 == input_index(project.inputs@, auto_cut.input@)->0
                && p.0 < project.inputs@.len() && p.1@ == autocut_input(*project, *auto_cut).1,
        },
{
    proof {
        lemma_input_index(project.inputs@, auto_cut.input@);
    }
    let i = match crate::model::find_input(&project.inputs, auto_cut.input.as_str()) {
        Some(i) => i,
        None => {
            let mut out: Vec<char> = Vec::new();
            push_str(&mut out, "unknown input ");
            let q = debug_quoted(auto_cut.input.as_str());
            push_str(&mut out, q.as_str());
            push_str(&mut out, " at auto_cut ");
            let n = debug_quoted(auto_cut.name.as_str());
            push_str(&mut out, n.as_str());
            return Err(CutlineError::InvalidProject(string_from_chars(&out)));
        },
    };
    let duration = match &project.inputs[i].metadata {
        Some(md) => md.duration,
        None => None,
    };
    match duration {
        Some(d) => Ok((i, d)),
        None => {
            let mut out: Vec<char> = Vec::new();
            push_str(&mut out, "auto_cut ");
            let n = debug_quoted(auto_cut.name.as_str());
            push_str(&mut out, n.as_str());
            push_str(&mut out, " requires probed duration for input ");
            let q = debug_quoted(auto_cut.input.as_str());
            push_str(&mut out, q.as_str());
            Err(CutlineError::InvalidProject(string_from_chars(&out)))
        },
    }
}

/// The plan of one AutoCut over an analysis already collected.
pub fn plan_autocut_from_analysis(
    project: &NormalizedProject,
    auto_cut: &AutoCut,
    analysis: &CollectedAnalysis,
) -> (r: Result<PlannedAutoCut>)
    requires
        autocut_fits(*project, *auto_cut),
    ensures
        match autocut_input_problem(*project, *auto_cut) {
            Some(m) => r matches Err(CutlineError::InvalidProject(e)) && e@ == m,
            None => r matches Ok(p) && planned_from(
                *project,
                *auto_cut,
                (analysis.scene_changes@, analysis.audio_regions@),
                p,
            ),
        },
{
    let (index, input_duration) = lookup_autocut_input(project, auto_cut)?;
    let input = &project.inputs[index];
    let d = input_duration.millis();
    let t = auto_cut.target_duration.millis();
    let selection_duration = u64_as_i64(if d <= t {
        d
    } else {
        t
    });
    let clip_duration = u64_as_i64(auto_cut.clip_duration.millis());
    let min_clip_duration = u64_as_i64(auto_cut.min_clip_duration.millis());
    let generated = generate_clips_from_analysis_with_status(
        selection_duration,
        clip_duration,
        min_clip_duration,
        analysis.scene_changes.as_slice(),
        analysis.audio_regions.as_slice(),
    );
    let ghost segs = generated.segments@;
    proof {
        if selection_duration > 0 && clip_duration > 0 && min_clip_duration > 0 {
            law_generated_clips_well_placed(
                selection_duration as int,
                clip_duration as int,
                min_clip_duration as int,
                analysis.scene_changes@,
                analysis.audio_regions@,
            );
        } else {
            assert(segs.len() == 0);
        }
    }
    let ghost lo = imin(
        min_clip_duration as int,
        imin(clip_duration as int, selection_duration as int),
    );
    let ghost hi = imin(clip_duration as int, selection_duration as int);
    let mut clips: Vec<AutoCutClip> = Vec::new();
    let mut cursor: u64 = 0;
    let mut k: usize = 0;
    while k < generated.segments.len()
        invariant
            0 <= k <= segs.len(),
            segs == generated.segments@,
            segs.len() > 0 ==> clips_well_placed(segs, selection_duration as int, lo, hi),
            selection_duration <= i64::MAX,
            cursor == output_offset(segs, k as int),
            clips@.len() == k,
            forall|j: int|
                0 <= j < k ==> {
                    let clip = #[trigger] clips@[j];
                    &&& clip.index == j
                    &&& clip.input@ == auto_cut.input@
                    &&& clip.start@ == nonneg(segs[j].0)
                    &&& clip.end@ == nonneg(segs[j].1)
                    &&& clip.duration@ == segment_duration(segs[j])
                    &&& clip.output_start@ == output_offset(segs, j)
                    &&& clip.output_end@ == output_offset(segs, j + 1)
                },
        decreases generated.segments.len() - k,
    {
        let (s, e) = generated.segments[k];
        let start = timestamp_value(s);
        let end = timestamp_value(e);
        let duration: u64 = if end.millis() >= start.millis() {
            end.millis() - start.millis()
        } else {
            0
        };
        proof {
            lemma_output_offset_bound(segs, selection_duration as int, lo, hi, k + 1);
            assert(output_offset(segs, k + 1) == output_offset(segs, k as int) + segment_duration(
                segs[k as int],
            ));
        }
        let output_start = cursor;
        let output_end = output_start + duration;
        cursor = output_end;
        clips.push(
            AutoCutClip {
                index: k,
                input: auto_cut.input.clone(),
                start,
                end,
                duration: TimeValue::from_millis(duration),
                output_start: TimeValue::from_millis(output_start),
                output_end: TimeValue::from_millis(output_end),
            },
        );
        k += 1;
    }
    let mut scene_changes: Vec<TimeValue> = Vec::new();
    let mut i: usize = 0;
    while i < analysis.scene_changes.len()
        invariant
            0 <= i <= analysis.scene_changes@.len(),
            scene_changes@.len() == i,
            forall|j: int|
                0 <= j < i ==> (#[trigger] scene_changes@[j])@ == nonneg(analysis.scene_changes@[j]),
        decreases analysis.scene_changes.len() - i,
    {
        scene_changes.push(timestamp_value(analysis.scene_changes[i]));
        i += 1;
    }
    let mut audio_regions: Vec<AutoCutAudioRegion> = Vec::new();
    let mut j: usize = 0;
    while j < analysis.audio_regions.len()
        invariant
            0 <= j <= analysis.audio_regions@.len(),
            audio_regions@.len() == j,
            forall|m: int|
                0 <= m < j ==> (#[trigger] audio_regions@[m]).start@ == nonneg(
                    analysis.audio_regions@[m].0,
                ) && audio_regions@[m].end@ == nonneg(analysis.audio_regions@[m].1),
        decreases analysis.audio_regions.len() - j,
    {
        let (s, e) = analysis.audio_regions[j];
        audio_regions.push(AutoCutAudioRegion { start: timestamp_value(s), end: timestamp_value(e) });
        j += 1;
    }
    Ok(
        PlannedAutoCut {
            name: auto_cut.name.clone(),
            input: auto_cut.input.clone(),
            input_path: input.path.clone(),
            input_duration,
            target_duration: auto_cut.target_duration,
            clip_duration: auto_cut.clip_duration,
            min_clip_duration: auto_cut.min_clip_duration,
            output_mode: auto_cut.output_mode,
            rules: auto_cut.rules.clone(),
            analysis: AutoCutAnalysis {
                scene_changes,
                audio_regions,
                fallback_used: generated.fallback_used,
            },
            clips,
        },
    )
}

/// `anchors` and `regions` are what `analyzer` answers to `rule`, asked of
/// the video at `path`, `duration` milliseconds long: scene and motion rules
/// find anchors only, audio rules regions only.
pub open spec fn rule_findings<A: AutoCutAnalyzer>(
    analyzer: A,
    path: Seq<char>,
    duration: nat,
    rule: AutoCutRule,
    anchors: Seq<i64>,
    regions: Seq<(i64, i64)>,
) -> bool {
    match rule {
        AutoCutRule::SceneChange { threshold_bits } => analyzer.scene_answer(
            path,
            threshold_bits,
            anchors,
        ) && regions.len() == 0,
        AutoCutRule::AudioActivity { threshold_bits } => analyzer.audio_answer(
            path,
            threshold_bits,
            duration,
            regions,
        ) && anchors.len() == 0,
        AutoCutRule::Motion { threshold_bits } => analyzer.motion_answer(
            path,
            threshold_bits,
            anchors,
        ) && regions.len() == 0,
    }
}

/// The `i`-th entries of `anchors` and `regions` are the analyzer's answer
/// to the `i`-th rule, for every rule.
pub open spec fn findings_fit_rules<A: AutoCutAnalyzer>(
    analyzer: A,
    path: Seq<char>,
    duration: nat,
    rules: Seq<AutoCutRule>,
    anchors: Seq<Seq<i64>>,
    regions: Seq<Seq<(i64, i64)>>,
) -> bool {
    &&& anchors.len() == rules.len()
    &&& regions.len() == rules.len()
    &&& forall|i: int|
        0 <= i < rules.len() ==> rule_findings(
            analyzer,
            path,
            duration,
            #[trigger] rules[i],
            anchors[i],
            regions[i],
        )
}

/// `c` gathers the findings of every rule: all anchors, then all regions,
/// each sorted and once.
pub open spec fn collected_from(
    anchors: Seq<Seq<i64>>,
    regions: Seq<Seq<(i64, i64)>>,
    c: (Seq<i64>, Seq<(i64, i64)>),
) -> bool {
    &&& c.0 == sorted_distinct(anchors.flatten_alt())
    &&& c.1 == sorted_distinct_pairs(regions.flatten_alt())
}

/// `c` is what asking `analyzer` once per rule of `rules`, in order, about
/// the video at `path`, `duration` milliseconds long, collects.
pub open spec fn collected_by_rules<A: AutoCutAnalyzer>(
    analyzer: A,
    path: Seq<char>,
    duration: nat,
    rules: Seq<AutoCutRule>,
    c: (Seq<i64>, Seq<(i64, i64)>),
) -> bool {
    exists|anchors: Seq<Seq<i64>>, regions: Seq<Seq<(i64, i64)>>|
        findings_fit_rules(analyzer, path, duration, rules, anchors, regions) && collected_from(
            anchors,
            regions,
            c,
        )
}

proof fn lemma_flatten_alt_push<T>(s: Seq<Seq<T>>, x: Seq<T>)
    ensures
        s.push(x).flatten_alt() == s.flatten_alt() + x,
{
    assert(s.push(x).drop_last() =~= s);
}

fn append_anchors(out: &mut Vec<i64>, found: &Vec<i64>)
    ensures
        final(out)@ == old(out)@ + found@,
{
    let mut i: usize = 0;
    while i < found.len()
        invariant
            0 <= i <= found@.len(),
            out@ == old(out)@ + found@.take(i as int),
        decreases found.len() - i,
    {
        out.push(found[i]);
        proof {
            assert(found@.take(i + 1) =~= found@.take(i as int).push(found@[i as int]));
        }
        i += 1;
    }
    assert(found@.take(i as int) =~= found@);
}

fn append_regions(out: &mut Vec<(i64, i64)>, found: &Vec<(i64, i64)>)
    ensures
        final(out)@ == old(out)@ + found@,
{
    let mut i: usize = 0;
    while i < found.len()
        invariant
            0 <= i <= found@.len(),
            out@ == old(out)@ + found@.take(i as int),
        decreases found.len() - i,
    {
        out.push(found[i]);
        proof {
            assert(found@.take(i + 1) =~= found@.take(i as int).push(found@[i as int]));
        }
        i += 1;
    }
    assert(found@.take(i as int) =~= found@);
}

/// Asks the analyzer once for each rule of the AutoCut, in order, about the
/// video at `video_path`: scene rules for scene changes and motion rules for
/// motion anchors at the rule's threshold, audio rules for audio activity at
/// the rule's threshold over `input_duration`. Anchors and regions are then
/// sorted and each kept once.
pub fn collect_analysis<A: AutoCutAnalyzer>(
    video_path: &str,
    input_duration: TimeValue,
    auto_cut: &AutoCut,
    analyzer: &A,
) -> (r: CollectedAnalysis)
    ensures
        collected_by_rules(
            *analyzer,
            video_path@,
            input_duration@,
            auto_cut.rules@,
            (r.scene_changes@, r.audio_regions@),
        ),
        strictly_increasing(r.scene_changes@),
        pairs_strictly_increasing(r.audio_regions@),
{
    let mut scene_changes: Vec<i64> = Vec::new();
    let mut audio_regions: Vec<(i64, i64)> = Vec::new();
    let ghost mut anchors: Seq<Seq<i64>> = Seq::empty();
    let ghost mut regions: Seq<Seq<(i64, i64)>> = Seq::empty();
    let mut i: usize = 0;
    while i < auto_cut.rules.len()
        invariant
            0 <= i <= auto_cut.rules@.len(),
            findings_fit_rules(
                *analyzer,
                video_path@,
                input_duration@,
                auto_cut.rules@.take(i as int),
                anchors,
                regions,
            ),
            scene_changes@ == anchors.flatten_alt(),
            audio_regions@ == regions.flatten_alt(),
        decreases auto_cut.rules.len() - i,
    {
        let ghost before_rules = auto_cut.rules@.take(i as int);
        proof {
            assert(auto_cut.rules@.take(i + 1) =~= before_rules.push(auto_cut.rules@[i as int]));
            lemma_flatten_alt_push(anchors, Seq::<i64>::empty());
            lemma_flatten_alt_push(regions, Seq::<(i64, i64)>::empty());
            assert(anchors.flatten_alt() + Seq::<i64>::empty() =~= anchors.flatten_alt());
            assert(regions.flatten_alt() + Seq::<(i64, i64)>::empty() =~= regions.flatten_alt());
        }
        match auto_cut.rules[i] {
            AutoCutRule::SceneChange { threshold_bits } => {
                let found = analyzer.scene_changes(video_path, threshold_bits);
                append_anchors(&mut scene_changes, &found);
                proof {
                    lemma_flatten_alt_push(anchors, found@);
                    anchors = anchors.push(found@);
                    regions = regions.push(Seq::empty());
                }
            },
            AutoCutRule::AudioActivity { threshold_bits } => {
                let found = analyzer.audio_activity(video_path, threshold_bits, input_duration);
                append_regions(&mut audio_regions, &found);
                proof {
                    lemma_flatten_alt_push(regions, found@);
                    anchors = anchors.push(Seq::empty());
                    regions = regions.push(found@);
                }
            },
            AutoCutRule::Motion { threshold_bits } => {
                let found = analyzer.motion_anchors(video_path, threshold_bits);
                append_anchors(&mut scene_changes, &found);
                proof {
                    lemma_flatten_alt_push(anchors, found@);
                    anchors = anchors.push(found@);
                    regions = regions.push(Seq::empty());
                }
            },
        }
        proof {
            let rules = auto_cut.rules@.take(i + 1);
            assert forall|k: int| 0 <= k < rules.len() implies rule_findings(
                *analyzer,
                video_path@,
                input_duration@,
                #[trigger] rules[k],
                anchors[k],
                regions[k],
            ) by {
                if k < i {
                    assert(rules[k] == before_rules[k]);
                }
            }
        }
        i += 1;
    }
    proof {
        assert(auto_cut.rules@.take(i as int) =~= auto_cut.rules@);
        lemma_sorted_distinct(scene_changes@);
        lemma_sorted_distinct_pairs(audio_regions@);
    }
    let scene_changes = sort_distinct(&scene_changes);
    let audio_regions = sort_distinct_pairs(&audio_regions);
    let r = CollectedAnalysis { scene_changes, audio_regions };
    assert(findings_fit_rules(
        *analyzer,
        video_path@,
        input_duration@,
        auto_cut.rules@,
        anchors,
        regions,
    ) && collected_from(
        anchors,
        regions,
        (r.scene_changes@, r.audio_regions@),
    ));
    r
}

/// `p` is the plan of AutoCut `ac` over what `analyzer`, asked once per rule
/// about the AutoCut's input, collects.
pub open spec fn planned_by_rules<A: AutoCutAnalyzer>(
    analyzer: A,
    project: NormalizedProject,
    ac: AutoCut,
    p: PlannedAutoCut,
) -> bool {
    exists|c: (Seq<i64>, Seq<(i64, i64)>)|
        collected_by_rules(
            analyzer,
            autocut_input(project, ac).0.path@,
            autocut_input(project, ac).1,
            ac.rules@,
            c,
        ) && #[trigger] planned_from(project, ac, c, p)
}

/// The problem of the first AutoCut in `cuts` that cannot be planned.
pub open spec fn first_autocut_problem(project: NormalizedProject, cuts: Seq<AutoCut>) -> Option<
    Seq<char>,
>
    decreases cuts.len(),
{
    if cuts.len() == 0 {
        None
    } else {
        match autocut_input_problem(project, cuts[0]) {
            Some(m) => Some(m),
            None => first_autocut_problem(project, cuts.drop_first()),
        }
    }
}

/// Every AutoCut of the project fits: none of them overflows.
pub open spec fn all_autocuts_fit(project: NormalizedProject) -> bool {
    forall|k: int| 0 <= k < project.auto_cuts@.len() ==> autocut_fits(project, #[trigger] project.auto_cuts@[k])
}

fn plan_autocut<A: AutoCutAnalyzer>(project: &NormalizedProject, auto_cut: &AutoCut, analyzer: &A) -> (r:
    Result<PlannedAutoCut>)
    requires
        autocut_fits(*project, *auto_cut),
    ensures
        match autocut_input_problem(*project, *auto_cut) {
            Some(m) => r matches Err(CutlineError::InvalidProject(e)) && e@ == m,
            None => r matches Ok(p) && planned_by_rules(*analyzer, *project, *auto_cut, p),
        },
{
    let (index, input_duration) = lookup_autocut_input(project, auto_cut)?;
    let collected = collect_analysis(
        project.inputs[index].path.as_str(),
        input_duration,
        auto_cut,
        analyzer,
    );
    let r = plan_autocut_from_analysis(project, auto_cut, &collected);
    proof {
        let c = (collected.scene_changes@, collected.audio_regions@);
        if r is Ok {
            assert(planned_from(*project, *auto_cut, c, r->Ok_0));
        }
    }
    r
}

/// The AutoCut plan of a project: each AutoCut in order, its clips chosen
/// from what the analyzer finds for its rules. The first AutoCut whose input
/// is unknown or has no probed duration stops the plan with its error.
pub fn build_autocut_plan_with_analyzer<A: AutoCutAnalyzer>(
    project: &NormalizedProject,
    analyzer: &A,
) -> (r: Result<AutoCutPlan>)
    requires
        all_autocuts_fit(*project),
    ensures
        match first_autocut_problem(*project, project.auto_cuts@) {
            Some(m) => r matches Err(CutlineError::InvalidProject(e)) && e@ == m,
            None => r matches Ok(plan) && plan.auto_cuts@.len() == project.auto_cuts@.len() && (
            forall|k: int|
                0 <= k < project.auto_cuts@.len() ==> planned_by_rules(
                    *analyzer,
                    *project,
                    project.auto_cuts@[k],
                    #[trigger] plan.auto_cuts@[k],
                )),
        },
{
    let mut auto_cuts: Vec<PlannedAutoCut> = Vec::new();
    let mut i: usize = 0;
    let ghost cuts = project.auto_cuts@;
    assert(cuts.skip(0) =~= cuts);
    while i < project.auto_cuts.len()
        invariant
            0 <= i <= cuts.len(),
            cuts == project.auto_cuts@,
            all_autocuts_fit(*project),
            first_autocut_problem(*project, cuts) == first_autocut_problem(
                *project,
                cuts.skip(i as int),
            ),
            auto_cuts@.len() == i,
            forall|k: int|
                0 <= k < i ==> planned_by_rules(
                    *analyzer,
                    *project,
                    cuts[k],
                    #[trigger] auto_cuts@[k],
                ),
        decreases cuts.len() - i,
    {
        let ghost rest = cuts.skip(i as int);
        assert(rest[0] == cuts[i as int]);
        assert(rest.drop_first() =~= cuts.skip(i + 1));
        let planned = plan_autocut(project, &project.auto_cuts[i], analyzer)?;
        auto_cuts.push(planned);
        i += 1;
    }
    assert(cuts.skip(i as int) =~= Seq::<AutoCut>::empty());
    Ok(AutoCutPlan { auto_cuts })
}

/// Whether laying clips of `clip` end to end over `total` stays inside `i64`.
pub fn fallback_steps_fit(total: i64, clip: i64) -> (r: bool)
    requires
        clip > 0,
    ensures
        r == fallback_in_range(0, total as int, clip as int),
{
    let mut cursor: i64 = 0;
    while cursor < total
        invariant
            clip > 0,
            cursor >= 0,
            fallback_in_range(0, total as int, clip as int) == fallback_in_range(
                cursor as int,
                total as int,
                clip as int,
            ),
        decreases if total > cursor { total - cursor } else { 0 },
    {
        if cursor > i64::MAX - clip {
            return false;
        }
        cursor = cursor + clip;
    }
    true
}

/// Whether planning the AutoCut stays inside `i64`.
pub fn autocut_fits_check(project: &NormalizedProject, auto_cut: &AutoCut) -> (r: bool)
    ensures
        r == autocut_fits(*project, *auto_cut),
{
    let (_, input_duration) = match lookup_autocut_input(project, auto_cut) {
        Ok(found) => found,
        Err(_) => return true,
    };
    let d = input_duration.millis();
    let t = auto_cut.target_duration.millis();
    let total = u64_as_i64(if d <= t {
        d
    } else {
        t
    });
    let clip = u64_as_i64(auto_cut.clip_duration.millis());
    let min_clip = u64_as_i64(auto_cut.min_clip_duration.millis());
    if total > 0 && clip > 0 && min_clip > 0 {
        fallback_steps_fit(total, if clip < total {
            clip
        } else {
            total
        })
    } else {
        true
    }
}

/// Whether planning every AutoCut of the project stays inside `i64`.
pub fn autocuts_fit_check(project: &NormalizedProject) -> (r: bool)
    ensures
        r == all_autocuts_fit(*project),
{
    let mut i: usize = 0;
    while i < project.auto_cuts.len()
        invariant
            0 <= i <= project.auto_cuts@.len(),
            forall|k: int| 0 <= k < i ==> autocut_fits(*project, #[trigger] project.auto_cuts@[k]),
        decreases project.auto_cuts.len() - i,
    {
        if !autocut_fits_check(project, &project.auto_cuts[i]) {
            return false;
        }
        i += 1;
    }
    true
}

/// The clips of a planned AutoCut follow one another on its output: the
/// first starts at zero, each starts where the one before ends, and each
/// lasts on the output as long as in its source.
pub proof fn law_autocut_outputs_contiguous(
    project: NormalizedProject,
    ac: AutoCut,
    c: (Seq<i64>, Seq<(i64, i64)>),
    p: PlannedAutoCut,
)
    requires
        planned_from(project, ac, c, p),
    ensures
        p.clips@.len() > 0 ==> p.clips@[0].output_start@ == 0,
        forall|k: int|
            0 < k < p.clips@.len() ==> (#[trigger] p.clips@[k]).output_start@ == p.clips@[k - 1].output_end@,
        forall|k: int|
            0 <= k < p.clips@.len() ==> (#[trigger] p.clips@[k]).output_end@ - p.clips@[k].output_start@
                == p.clips@[k].duration@,
{
    let segs = autocut_generation(project, ac, c).0;
    assert forall|k: int| 0 < k < p.clips@.len() implies (#[trigger] p.clips@[k]).output_start@
        == p.clips@[k - 1].output_end@ by {
        assert(p.clips@[k - 1].output_end@ == output_offset(segs, k));
    }
}

} // verus!
