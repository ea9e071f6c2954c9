//! The normalized project: paths resolved, inputs loaded, clips placed on
//! the output timeline, creative workflows read.
use vstd::prelude::*;

use crate::config::RenderConfig;
use crate::text::str_equal;
use crate::time::TimeValue;

verus! {

#[derive(Debug, Clone)]
pub struct NormalizedProject {
    pub project_path: String,
    pub project_dir: String,
    pub output_path: String,
    pub render: RenderConfig,
    pub inputs: Vec<Input>,
    pub clips: Vec<Clip>,
    pub auto_cuts: Vec<AutoCut>,
    pub story_videos: Vec<StoryVideo>,
}

#[derive(Debug, Clone)]
pub struct Input {
    pub name: String,
    pub path: String,
    pub chat: Option<String>,
    pub metadata: Option<InputMetadata>,
}

#[derive(Debug, Clone)]
pub struct InputMetadata {
    pub size_bytes: u64,
    pub modified_unix_millis: Option<i128>,
    pub duration: Option<TimeValue>,
}

#[derive(Debug, Clone)]
pub struct Clip {
    pub index: usize,
    pub input: String,
    pub start: TimeValue,
    pub end: TimeValue,
    pub output_start: TimeValue,
    pub output_end: TimeValue,
    pub chapter: Option<String>,
    pub blur: bool,
    pub mute: bool,
}

#[derive(Debug, Clone)]
pub struct AutoCut {
    pub name: String,
    pub input: String,
    pub target_duration: TimeValue,
    pub clip_duration: TimeValue,
    pub min_clip_duration: TimeValue,
    pub rules: Vec<AutoCutRule>,
    pub output_mode: AutoCutOutputMode,
}

/// An AutoCut rule and its threshold, as the bits of an `f64`.
#[derive(Debug, Clone, Copy, PartialEq, Eq)]
pub enum AutoCutRule {
    SceneChange { threshold_bits: u64 },
    AudioActivity { threshold_bits: u64 },
    Motion { threshold_bits: u64 },
}

#[derive(Debug, Clone, Copy, PartialEq, Eq)]
pub enum AutoCutOutputMode {
    Single,
    Multiple,
}

#[derive(Debug, Clone)]
pub struct StoryVideo {
    pub name: String,
    pub source: String,
    pub start_line: usize,
    pub end_line: usize,
    pub engagement_angle: String,
    pub background: String,
    pub voice_provider: Option<String>,
    pub platform: String,
}

#[derive(Debug, Clone)]
pub struct StorySegment {
    pub start_line: usize,
    pub end_line: usize,
    pub description: Option<String>,
}

/// The index of the first input named `name`.
pub open spec fn input_index(inputs: Seq<Input>, name: Seq<char>) -> Option<int>
    decreases inputs.len(),
{
    if inputs.len() == 0 {
        None
    } else if inputs[0].name@ == name {
        Some(0)
    } else {
        match input_index(inputs.drop_first(), name) {
            Some(i) => Some(i + 1),
            None => None,
        }
    }
}

pub proof fn lemma_input_index(inputs: Seq<Input>, name: Seq<char>)
    ensures
        input_index(inputs, name) matches Some(i) ==> 0 <= i < inputs.len() && inputs[i].name@
            == name && forall|k: int| 0 <= k < i ==> inputs[k].name@ != name,
        input_index(inputs, name) is None ==> forall|k: int|
            0 <= k < inputs.len() ==> inputs[k].name@ != name,
    decreases inputs.len(),
{
    if inputs.len() > 0 && inputs[0].name@ != name {
        let t = inputs.drop_first();
        lemma_input_index(t, name);
        assert forall|k: int| 1 <= k < inputs.len() implies inputs[k] == t[k - 1] by {}
    }
}

/// The position of the first input named `name` in `inputs`.
pub fn find_input(inputs: &Vec<Input>, name: &str) -> (r: Option<usize>)
    ensures
        match input_index(inputs@, name@) {
            Some(i) => r == Some(i as usize),
            None => r is None,
        },
        r matches Some(i) ==> i < inputs@.len() && inputs@[i as int].name@ == name@,
{
    let mut i: usize = 0;
    while i < inputs.len()
        invariant
            0 <= i <= inputs@.len(),
            forall|k: int| 0 <= k < i ==> inputs@[k].name@ != name@,
        decreases inputs.len() - i,
    {
        if str_equal(inputs[i].name.as_str(), name) {
            proof {
                lemma_input_index_at(inputs@, name@, i as int);
            }
            return Some(i);
        }
        i += 1;
    }
    proof {
        lemma_input_index(inputs@, name@);
        if let Some(j) = input_index(inputs@, name@) {
            assert(inputs@[j].name@ == name@);
        }
    }
    None
}

proof fn lemma_input_index_at(inputs: Seq<Input>, name: Seq<char>, i: int)
    requires
        0 <= i < inputs.len(),
        inputs[i].name@ == name,
        forall|k: int| 0 <= k < i ==> inputs[k].name@ != name,
    ensures
        input_index(inputs, name) == Some(i),
    decreases i,
{
    if i > 0 {
        let t = inputs.drop_first();
        assert forall|k: int| 0 <= k < i - 1 implies t[k].name@ != name by {
            assert(t[k] == inputs[k + 1]);
        }
        lemma_input_index_at(t, name, i - 1);
    }
}

impl NormalizedProject {
    /// The first input named `name`.
    pub fn input(&self, name: &str) -> (r: Option<&Input>)
        ensures
            match input_index(self.inputs@, name@) {
                Some(i) => r matches Some(x) && *x == self.inputs@[i],
                None => r is None,
            },
    {
        proof {
            lemma_input_index(self.inputs@, name@);
        }
        match find_input(&self.inputs, name) {
            Some(i) => Some(&self.inputs[i]),
            None => None,
        }
    }

    /// The first input named `name`, to change in place.
    pub fn input_mut(&mut self, name: &str) -> (r: Option<&mut Input>)
        ensures
            match input_index(old(self).inputs@, name@) {
                Some(i) => r matches Some(x) && *x == old(self).inputs@[i] && final(self).inputs@
                    == old(self).inputs@.update(i, *final(x)) && final(self).project_path
                    == old(self).project_path && final(self).project_dir == old(self).project_dir
                    && final(self).output_path == old(self).output_path && final(self).render
                    == old(self).render && final(self).clips == old(self).clips
                    && final(self).auto_cuts == old(self).auto_cuts && final(self).story_videos
                    == old(self).story_videos,
                None => r is None && *final(self) == *old(self),
            },
    {
        proof {
            lemma_input_index(self.inputs@, name@);
        }
        match find_input(&self.inputs, name) {
            Some(i) => Some(&mut self.inputs[i]),
            None => None,
        }
    }
}

impl Clip {
    /// `end - start`.
    pub fn duration(&self) -> (d: TimeValue)
        requires
            self.start@ <= self.end@,
        ensures
            d@ == self.end@ - self.start@,
    {
        TimeValue::from_millis(self.end.millis() - self.start.millis())
    }
}

} // verus!
