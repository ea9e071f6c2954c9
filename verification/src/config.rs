//! The project file as written: output, named inputs, render settings,
//! manual clips, AutoCut and StoryHighlightVideo sections.
//!
//! Paths are UTF-8 strings. AutoCut thresholds are held as the bit pattern
//! of their `f64` value (`f64::to_bits`): the library never computes with a
//! threshold, it hands it on to the analyzer.
use vstd::prelude::*;

use crate::text::{
    debug_quoted, debug_str, push_str, str_chars, str_equal, string_from_chars, string_of,
};
use crate::time::TimeValue;

verus! {

#[derive(Debug, Clone)]
pub struct ProjectConfig {
    pub output: OutputConfig,
    /// The `[input.<name>]` sections, in the increasing order of their
    /// names, each name once (see `ProjectConfig::wf`).
    pub input: Vec<(String, InputConfig)>,
    pub render: RenderConfig,
    pub clips: Vec<ClipConfig>,
    pub auto_cuts: Vec<AutoCutConfig>,
    pub story_videos: Vec<StoryVideoConfig>,
}

/// `a` comes before `b` in the order of `String`: at the first character
/// where they differ, by character code; a proper prefix first.
pub open spec fn text_before(a: Seq<char>, b: Seq<char>) -> bool
    decreases a.len(),
{
    if a.len() == 0 {
        b.len() > 0
    } else if b.len() == 0 {
        false
    } else if a[0] != b[0] {
        (a[0] as u32) < (b[0] as u32)
    } else {
        text_before(a.drop_first(), b.drop_first())
    }
}

/// Input names strictly increase: they are distinct and in the order of a
/// map keyed by name.
pub open spec fn input_keys_ordered(input: Seq<(String, InputConfig)>) -> bool {
    forall|i: int, j: int| 0 <= i < j < input.len() ==> text_before(input[i].0@, input[j].0@)
}

proof fn lemma_text_before_transitive(a: Seq<char>, b: Seq<char>, c: Seq<char>)
    requires
        text_before(a, b),
        text_before(b, c),
    ensures
        text_before(a, c),
    decreases a.len(),
{
    if a.len() > 0 && b.len() > 0 && c.len() > 0 && a[0] == b[0] && b[0] == c[0] {
        lemma_text_before_transitive(a.drop_first(), b.drop_first(), c.drop_first());
    }
}

/// Whether `a` comes before `b` in the order of `String`.
pub fn text_is_before(a: &str, b: &str) -> (r: bool)
    ensures
        r == text_before(a@, b@),
{
    let x = str_chars(a);
    let y = str_chars(b);
    let mut i: usize = 0;
    assert(x@.skip(0) =~= x@ && y@.skip(0) =~= y@);
    while i < x.len() && i < y.len() && x[i] == y[i]
        invariant
            0 <= i <= x@.len(),
            i <= y@.len(),
            x@ == a@,
            y@ == b@,
            text_before(a@, b@) == text_before(x@.skip(i as int), y@.skip(i as int)),
        decreases x.len() - i,
    {
        proof {
            let xs = x@.skip(i as int);
            let ys = y@.skip(i as int);
            assert(xs.drop_first() =~= x@.skip(i + 1));
            assert(ys.drop_first() =~= y@.skip(i + 1));
        }
        i += 1;
    }
    let ghost xs = x@.skip(i as int);
    let ghost ys = y@.skip(i as int);
    if i == x.len() {
        assert(xs.len() == 0);
        i < y.len()
    } else if i == y.len() {
        assert(ys.len() == 0);
        false
    } else {
        assert(xs[0] == x@[i as int] && ys[0] == y@[i as int]);
        proof {
            vstd::utf8::char_is_scalar(x@[i as int]);
            vstd::utf8::char_is_scalar(y@[i as int]);
        }
        (x[i] as u32) < (y[i] as u32)
    }
}

impl ProjectConfig {
    /// The project's inputs are keyed by name, as in a map.
    pub open spec fn wf(&self) -> bool {
        input_keys_ordered(self.input@)
    }

    /// Whether the inputs are keyed by name, each name once, in increasing
    /// order.
    pub fn inputs_in_key_order(&self) -> (r: bool)
        ensures
            r == self.wf(),
    {
        let n = self.input.len();
        if n == 0 {
            return true;
        }
        let mut i: usize = 1;
        while i < n
            invariant
                1 <= i <= n,
                n == self.input@.len(),
                forall|a: int, b: int|
                    0 <= a < b < i ==> text_before(self.input@[a].0@, self.input@[b].0@),
            decreases n - i,
        {
            if !text_is_before(self.input[i - 1].0.as_str(), self.input[i].0.as_str()) {
                return false;
            }
            proof {
                assert forall|a: int, b: int|
                    0 <= a < b < i + 1 implies text_before(self.input@[a].0@, self.input@[b].0@) by {
                    if b == i && a < i - 1 {
                        lemma_text_before_transitive(
                            self.input@[a].0@,
                            self.input@[i - 1].0@,
                            self.input@[b].0@,
                        );
                    }
                }
            }
            i += 1;
        }
        true
    }
}

#[derive(Debug, Clone)]
pub struct OutputConfig {
    pub path: String,
}

#[derive(Debug, Clone)]
pub struct InputConfig {
    pub path: String,
    pub chat: Option<String>,
}

#[derive(Debug, Clone)]
pub struct ClipConfig {
    pub input: String,
    pub start: TimeValue,
    pub end: TimeValue,
    pub chapter: Option<String>,
    pub blur: bool,
    pub mute: bool,
}

#[derive(Debug, Clone)]
pub struct AutoCutConfig {
    pub name: String,
    pub input: String,
    pub target_duration: TimeValue,
    pub clip_duration: TimeValue,
    pub min_clip_duration: TimeValue,
    pub rules: Vec<AutoCutRuleConfig>,
    pub output_mode: String,
}

/// An AutoCut rule and its threshold, as the bits of an `f64`.
#[derive(Debug, Clone, Copy, PartialEq, Eq)]
pub enum AutoCutRuleConfig {
    SceneChange { threshold_bits: u64 },
    AudioActivity { threshold_bits: u64 },
    Motion { threshold_bits: u64 },
}

#[derive(Debug, Clone)]
pub struct StoryVideoConfig {
    pub name: String,
    pub source: String,
    pub start_line: usize,
    pub end_line: usize,
    pub engagement_angle: String,
    pub background: String,
    pub voice_provider: Option<String>,
    pub platform: String,
}

#[derive(Debug, Clone)]
pub struct StorySegmentConfig {
    pub start_line: usize,
    pub end_line: usize,
    pub description: Option<String>,
}

#[derive(Debug, Clone)]
pub struct RenderConfig {
    pub video_codec: String,
    pub audio_codec: String,
    pub video_bitrate: String,
    pub audio_bitrate: String,
    pub pixel_format: String,
    pub container: String,
    pub preset: Option<String>,
    pub crf: Option<u8>,
    pub extra: RenderExtraConfig,
}

#[derive(Debug, Clone)]
pub struct RenderExtraConfig {
    pub input_args: Vec<String>,
    pub output_args: Vec<String>,
}

/// `0.3_f64.to_bits()`.
pub const SCENE_THRESHOLD_BITS: u64 = 0x3FD3333333333333u64;

/// `0.01_f64.to_bits()`.
pub const AUDIO_THRESHOLD_BITS: u64 = 0x3F847AE147AE147Bu64;

/// `0.1_f64.to_bits()`.
pub const MOTION_THRESHOLD_BITS: u64 = 0x3FB999999999999Au64;

/// The render settings a project gets where it names none.
pub open spec fn is_default_render(r: RenderConfig) -> bool {
    &&& r.video_codec@ == "libx264"@
    &&& r.audio_codec@ == "aac"@
    &&& r.video_bitrate@ == "4000k"@
    &&& r.audio_bitrate@ == "300k"@
    &&& r.pixel_format@ == "yuv420p"@
    &&& r.container@ == "mp4"@
    &&& r.preset is Some && r.preset->0@ == "veryfast"@
    &&& r.crf == Some(23u8)
    &&& r.extra.input_args@.len() == 0
    &&& r.extra.output_args@.len() == 0
}

pub fn default_video_codec() -> (s: String)
    ensures
        s@ == "libx264"@,
{
    string_of("libx264")
}

pub fn default_audio_codec() -> (s: String)
    ensures
        s@ == "aac"@,
{
    string_of("aac")
}

pub fn default_video_bitrate() -> (s: String)
    ensures
        s@ == "4000k"@,
{
    string_of("4000k")
}

pub fn default_audio_bitrate() -> (s: String)
    ensures
        s@ == "300k"@,
{
    string_of("300k")
}

pub fn default_pixel_format() -> (s: String)
    ensures
        s@ == "yuv420p"@,
{
    string_of("yuv420p")
}

pub fn default_container() -> (s: String)
    ensures
        s@ == "mp4"@,
{
    string_of("mp4")
}

/// The encoder preset a project gets where it names none.
pub fn default_preset() -> (s: Option<String>)
    ensures
        s is Some,
        s->0@ == "veryfast"@,
{
    Some(string_of("veryfast"))
}

/// The constant rate factor a project gets where it names none.
pub fn default_crf() -> (c: Option<u8>)
    ensures
        c == Some(23u8),
{
    Some(23)
}

/// Fifteen seconds.
pub fn default_min_clip_duration() -> (t: TimeValue)
    ensures
        t@ == 15000,
{
    TimeValue::from_millis(15000)
}

pub fn default_scene_threshold() -> (bits: u64)
    ensures
        bits == SCENE_THRESHOLD_BITS,
{
    SCENE_THRESHOLD_BITS
}

pub fn default_audio_threshold() -> (bits: u64)
    ensures
        bits == AUDIO_THRESHOLD_BITS,
{
    AUDIO_THRESHOLD_BITS
}

pub fn default_motion_threshold() -> (bits: u64)
    ensures
        bits == MOTION_THRESHOLD_BITS,
{
    MOTION_THRESHOLD_BITS
}

pub fn default_single_output() -> (s: String)
    ensures
        s@ == "single"@,
{
    string_of("single")
}

pub fn default_platform() -> (s: String)
    ensures
        s@ == "douyin"@,
{
    string_of("douyin")
}

impl Default for RenderExtraConfig {
    fn default() -> (r: Self)
        ensures
            r.input_args@.len() == 0,
            r.output_args@.len() == 0,
    {
        RenderExtraConfig { input_args: Vec::new(), output_args: Vec::new() }
    }
}

impl Default for RenderConfig {
    fn default() -> (r: Self)
        ensures
            is_default_render(r),
    {
        RenderConfig {
            video_codec: default_video_codec(),
            audio_codec: default_audio_codec(),
            video_bitrate: default_video_bitrate(),
            audio_bitrate: default_audio_bitrate(),
            pixel_format: default_pixel_format(),
            container: default_container(),
            preset: default_preset(),
            crf: default_crf(),
            extra: RenderExtraConfig { input_args: Vec::new(), output_args: Vec::new() },
        }
    }
}

/// The rule a bare name in `rules = [...]` stands for, with its default
/// threshold.
pub open spec fn rule_named(name: Seq<char>) -> Option<AutoCutRuleConfig> {
    if name == "scene_change"@ {
        Some(AutoCutRuleConfig::SceneChange { threshold_bits: SCENE_THRESHOLD_BITS })
    } else if name == "audio_activity"@ {
        Some(AutoCutRuleConfig::AudioActivity { threshold_bits: AUDIO_THRESHOLD_BITS })
    } else if name == "motion"@ {
        Some(AutoCutRuleConfig::Motion { threshold_bits: MOTION_THRESHOLD_BITS })
    } else {
        None
    }
}

pub open spec fn unknown_rule_message(name: Seq<char>) -> Seq<char> {
    "unknown AutoCut rule "@ + debug_str(name)
        + "; expected scene_change, audio_activity, or motion"@
}

/// The rule a bare name stands for, or the reason it is refused.
pub fn rule_from_name(name: &str) -> (r: core::result::Result<AutoCutRuleConfig, String>)
    ensures
        match rule_named(name@) {
            Some(rule) => r == Ok::<AutoCutRuleConfig, String>(rule),
            None => r matches Err(m) && m@ == unknown_rule_message(name@),
        },
{
    if str_equal(name, "scene_change") {
        Ok(AutoCutRuleConfig::SceneChange { threshold_bits: default_scene_threshold() })
    } else if str_equal(name, "audio_activity") {
        Ok(AutoCutRuleConfig::AudioActivity { threshold_bits: default_audio_threshold() })
    } else if str_equal(name, "motion") {
        Ok(AutoCutRuleConfig::Motion { threshold_bits: default_motion_threshold() })
    } else {
        let mut out: Vec<char> = Vec::new();
        push_str(&mut out, "unknown AutoCut rule ");
        let q = debug_quoted(name);
        push_str(&mut out, q.as_str());
        push_str(&mut out, "; expected scene_change, audio_activity, or motion");
        Err(string_from_chars(&out))
    }
}

} // verus!
