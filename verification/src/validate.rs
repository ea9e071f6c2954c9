//! Checking a project file and resolving it into a normalized project.
//!
//! What the checks need from the file system (whether an input exists, its
//! size, its probed duration, a story's text) is read by the caller and
//! handed in as plain values; every decision taken on them is made here.
use vstd::prelude::*;

use crate::autocut::{generate_autocut, generated_autocut};
use crate::config::{ClipConfig, InputConfig, ProjectConfig, RenderConfig, StoryVideoConfig};
use crate::error::{CutlineError, ErrorKind, Result};
use crate::model::{
    find_input, input_index, lemma_input_index, AutoCut, Clip, Input, InputMetadata,
    NormalizedProject, StoryVideo,
};
use crate::story::{clone_opt_string, generate_story_video, generated_story};
use crate::paths::{
    is_absolute_path, join_path, parent_path, path_extension, path_extension_of, path_is_absolute,
    path_join, path_parent,
};
use crate::text::{
    debug_quoted, debug_str, decimal, line_ranges, lines, push_chars, push_decimal, push_str,
    range_texts, str_chars, str_equal, string_from_chars, string_of,
};
use crate::time::{display_text, TimeValue};

verus! {

/// How strictly inputs are checked: whether they must exist, and whether
/// their media are probed for a duration.
#[derive(Debug, Clone, Copy)]
pub struct ValidationOptions {
    pub require_inputs: bool,
    pub probe_media: bool,
}

impl Default for ValidationOptions {
    fn default() -> (r: Self)
        ensures
            r.require_inputs,
            r.probe_media,
    {
        ValidationOptions { require_inputs: true, probe_media: true }
    }
}

/// A path of the project file read from the project's directory: absolute
/// paths stay as they are.
pub open spec fn resolved_path(dir: Seq<char>, p: Seq<char>) -> Seq<char> {
    if path_is_absolute(p) {
        p
    } else {
        path_join(dir, p)
    }
}

pub fn resolve_project_path(project_dir: &str, path: &str) -> (r: String)
    ensures
        r@ == resolved_path(project_dir@, path@),
{
    if is_absolute_path(path) {
        string_of(path)
    } else {
        join_path(project_dir, path)
    }
}

/// The directory of the project file, `.` where its path has no parent.
pub open spec fn project_dir_of(project_path: Seq<char>) -> Seq<char> {
    match path_parent(project_path) {
        Some(d) => d,
        None => "."@,
    }
}

pub fn project_dir(project_path: &str) -> (r: String)
    ensures
        r@ == project_dir_of(project_path@),
{
    match parent_path(project_path) {
        Some(d) => d,
        None => string_of("."),
    }
}

/// What the file system said of an input path.
#[derive(Debug, Clone)]
pub enum InputAccess {
    /// The path could not be made canonical; `not_found` where it does not
    /// exist, `error` as the system put it.
    CanonicalizeFailed { not_found: bool, error: String },
    /// The canonical path is not valid UTF-8; `display` is how it shows.
    NonUtf8 { display: String },
    /// The metadata of the canonical path could not be read.
    MetadataFailed { canonical: String, error: String },
    /// The canonical path, whether it is a file, its size and modification
    /// time, and, where media were probed, what the probe gave.
    Found {
        canonical: String,
        is_file: bool,
        size_bytes: u64,
        modified_unix_millis: Option<i128>,
        probed_duration: Option<Result<TimeValue>>,
    },
}

/// The access carries a probe outcome wherever one is needed.
pub open spec fn access_complete(options: ValidationOptions, access: InputAccess) -> bool {
    options.probe_media ==> match access {
        InputAccess::Found { is_file, probed_duration, .. } => is_file ==> probed_duration is Some,
        _ => true,
    }
}

/// Why loading an input at `path` fails, if it does.
pub open spec fn input_load_error(path: Seq<char>, options: ValidationOptions, access: InputAccess) -> Option<
    (ErrorKind, Seq<char>),
> {
    match access {
        InputAccess::CanonicalizeFailed { not_found, error } => if not_found
            && !options.require_inputs {
            None
        } else {
            Some((ErrorKind::InvalidProject, "could not access input path "@ + path + ": "@ + error@))
        },
        InputAccess::NonUtf8 { display } => Some((ErrorKind::NonUtf8Path, display@)),
        InputAccess::MetadataFailed { canonical, error } => Some(
            (
                ErrorKind::InvalidProject,
                "could not access input path "@ + canonical@ + ": "@ + error@,
            ),
        ),
        InputAccess::Found { canonical, is_file, probed_duration, .. } => if !is_file {
            Some((ErrorKind::InvalidProject, "input path is not a file: "@ + canonical@))
        } else if options.probe_media {
            match probed_duration {
                Some(Err(e)) => Some(e@),
                _ => None,
            }
        } else {
            None
        },
    }
}

/// The path an input is known by once loaded: its canonical form where it
/// exists.
pub open spec fn loaded_path(path: Seq<char>, access: InputAccess) -> Seq<char> {
    match access {
        InputAccess::Found { canonical, .. } => canonical@,
        _ => path,
    }
}

/// What is known of a loaded input: nothing where it does not exist.
pub open spec fn loaded_metadata(options: ValidationOptions, access: InputAccess) -> Option<
    InputMetadata,
> {
    match access {
        InputAccess::Found { size_bytes, modified_unix_millis, probed_duration, .. } => Some(
            InputMetadata {
                size_bytes,
                modified_unix_millis,
                duration: if options.probe_media {
                    match probed_duration {
                        Some(Ok(d)) => Some(d),
                        _ => None,
                    }
                } else {
                    None
                },
            },
        ),
        _ => None,
    }
}

/// A copy of an error.
pub fn clone_error(e: &CutlineError) -> (r: CutlineError)
    ensures
        r@ == e@,
{
    match e {
        CutlineError::InvalidTime(s) => CutlineError::InvalidTime(s.clone()),
        CutlineError::InvalidProject(s) => CutlineError::InvalidProject(s.clone()),
        CutlineError::Io(s) => CutlineError::Io(s.clone()),
        CutlineError::Toml(s) => CutlineError::Toml(s.clone()),
        CutlineError::NonUtf8Path(s) => CutlineError::NonUtf8Path(s.clone()),
    }
}

/// Loads an input at `path` from what the file system said of it: a missing
/// input is accepted without metadata unless inputs are required.
pub fn load_input_outcome(path: &str, options: ValidationOptions, access: &InputAccess) -> (r: Result<
    (String, Option<InputMetadata>),
>)
    requires
        access_complete(options, *access),
    ensures
        match input_load_error(path@, options, *access) {
            Some(e) => r matches Err(x) && x@ == e,
            None => r matches Ok(p) && p.0@ == loaded_path(path@, *access) && p.1 == loaded_metadata(
                options,
                *access,
            ),
        },
{
    match access {
        InputAccess::CanonicalizeFailed { not_found, error } => {
            if *not_found && !options.require_inputs {
                Ok((string_of(path), None))
            } else {
                let mut out: Vec<char> = Vec::new();
                push_str(&mut out, "could not access input path ");
                push_str(&mut out, path);
                push_str(&mut out, ": ");
                push_str(&mut out, error.as_str());
                Err(CutlineError::InvalidProject(string_from_chars(&out)))
            }
        },
        InputAccess::NonUtf8 { display } => Err(CutlineError::NonUtf8Path(display.clone())),
        InputAccess::MetadataFailed { canonical, error } => {
            let mut out: Vec<char> = Vec::new();
            push_str(&mut out, "could not access input path ");
            push_str(&mut out, canonical.as_str());
            push_str(&mut out, ": ");
            push_str(&mut out, error.as_str());
            Err(CutlineError::InvalidProject(string_from_chars(&out)))
        },
        InputAccess::Found {
            canonical,
            is_file,
            size_bytes,
            modified_unix_millis,
            probed_duration,
        } => {
            if !*is_file {
                let mut out: Vec<char> = Vec::new();
                push_str(&mut out, "input path is not a file: ");
                push_str(&mut out, canonical.as_str());
                return Err(CutlineError::InvalidProject(string_from_chars(&out)));
            }
            let duration = if options.probe_media {
                match probed_duration {
                    Some(Ok(d)) => Some(*d),
                    Some(Err(e)) => {
                        return Err(clone_error(e));
                    },
                    None => None,
                }
            } else {
                None
            };
            Ok(
                (
                    canonical.clone(),
                    Some(
                        InputMetadata {
                            size_bytes: *size_bytes,
                            modified_unix_millis: *modified_unix_millis,
                            duration,
                        },
                    ),
                ),
            )
        },
    }
}

// ---------------------------------------------------------------- clips

/// The names of the configured inputs, in order.
pub open spec fn config_names(inputs: Seq<(String, InputConfig)>) -> Seq<Seq<char>> {
    Seq::new(inputs.len(), |i: int| inputs[i].0@)
}

/// Why the clip at position `k` is refused, if it is: its input is not
/// configured, or it does not end after it starts.
pub open spec fn clip_problem(names: Seq<Seq<char>>, clip: ClipConfig, k: int) -> Option<Seq<char>> {
    if !names.contains(clip.input@) {
        Some("unknown input "@ + debug_str(clip.input@) + " at clip["@ + decimal(k as nat) + "].input"@)
    } else if clip.end@ <= clip.start@ {
        Some(
            "clip["@ + decimal(k as nat) + "].end must be greater than clip["@ + decimal(k as nat)
                + "].start"@,
        )
    } else {
        None
    }
}

/// The problem of the first refused clip from position `k` on.
pub open spec fn first_clip_problem(names: Seq<Seq<char>>, clips: Seq<ClipConfig>, k: int) -> Option<
    Seq<char>,
>
    decreases clips.len() - k,
{
    if k < 0 || k >= clips.len() {
        None
    } else {
        match clip_problem(names, clips[k], k) {
            Some(m) => Some(m),
            None => first_clip_problem(names, clips, k + 1),
        }
    }
}

/// Where clip `k` starts on the output timeline: the lengths of the clips
/// before it, end to end.
pub open spec fn clip_offset(clips: Seq<ClipConfig>, k: int) -> int
    decreases k,
{
    if k <= 0 {
        0
    } else {
        clip_offset(clips, k - 1) + (clips[k - 1].end@ - clips[k - 1].start@)
    }
}

/// The output timeline of the clips stays inside `u64` as far as the clips
/// are accepted.
pub open spec fn clip_offsets_fit(names: Seq<Seq<char>>, clips: Seq<ClipConfig>) -> bool {
    forall|k: int|
        0 <= k < clips.len() && (forall|j: int|
            0 <= j <= k ==> (#[trigger] clip_problem(names, clips[j], j)) is None) ==> #[trigger] clip_offset(
            clips,
            k + 1,
        ) <= u64::MAX
}

/// `placed` are the configured clips with their positions on the output
/// timeline.
pub open spec fn clips_placed(clips: Seq<ClipConfig>, placed: Seq<Clip>) -> bool {
    &&& placed.len() == clips.len()
    &&& forall|k: int|
        0 <= k < clips.len() ==> {
            let c = #[trigger] placed[k];
            &&& c.index == k
            &&& c.input@ == clips[k].input@
            &&& c.start == clips[k].start
            &&& c.end == clips[k].end
            &&& c.output_start@ == clip_offset(clips, k)
            &&& c.output_end@ == clip_offset(clips, k + 1)
            &&& c.chapter == clips[k].chapter
            &&& c.blur == clips[k].blur
            &&& c.mute == clips[k].mute
        }
}

/// Clips placed on the output timeline follow one another without gap: the
/// first starts at zero, each starts where the one before ends, and each is
/// as long on the output as in its source.
pub proof fn law_clip_timeline_contiguous(clips: Seq<ClipConfig>, placed: Seq<Clip>)
    requires
        clips_placed(clips, placed),
        forall|k: int| 0 <= k < clips.len() ==> clips[k].start@ < (#[trigger] clips[k]).end@,
    ensures
        placed.len() > 0 ==> placed[0].output_start@ == 0,
        forall|k: int|
            0 < k < placed.len() ==> (#[trigger] placed[k]).output_start == placed[k - 1].output_end,
        forall|k: int|
            0 <= k < placed.len() ==> (#[trigger] placed[k]).output_end@ - placed[k].output_start@
                == placed[k].end@ - placed[k].start@,
{
    assert forall|k: int| 0 < k < placed.len() implies (#[trigger] placed[k]).output_start
        == placed[k - 1].output_end by {
        let a = placed[k];
        let b = placed[k - 1];
        assert(a.output_start@ == b.output_end@);
        lemma_time_view_injective(a.output_start, b.output_end);
    }
}

/// Time values are equal where their milliseconds are.
pub proof fn lemma_time_view_injective(a: TimeValue, b: TimeValue)
    requires
        a@ == b@,
    ensures
        a == b,
{
    a.lemma_view_injective(b);
}

fn has_name(inputs: &Vec<(String, InputConfig)>, name: &str) -> (r: bool)
    ensures
        r == config_names(inputs@).contains(name@),
{
    let ghost names = config_names(inputs@);
    let mut i: usize = 0;
    while i < inputs.len()
        invariant
            0 <= i <= inputs@.len(),
            names == config_names(inputs@),
            forall|j: int| 0 <= j < i ==> names[j] != name@,
        decreases inputs.len() - i,
    {
        if str_equal(inputs[i].0.as_str(), name) {
            assert(names[i as int] == name@);
            return true;
        }
        i += 1;
    }
    false
}

fn clip_at_message(k: usize, tail: &str) -> (r: Vec<char>)
    ensures
        r@ == "clip["@ + decimal(k as nat) + tail@,
{
    let mut out: Vec<char> = Vec::new();
    push_str(&mut out, "clip[");
    push_decimal(&mut out, k as u64);
    push_str(&mut out, tail);
    out
}

/// Places the configured clips end to end on the output timeline, refusing
/// the first clip whose input is unknown or that does not end after it
/// starts.
pub fn place_clips(inputs: &Vec<(String, InputConfig)>, clips: &Vec<ClipConfig>) -> (r: Result<Vec<Clip>>)
    requires
        clip_offsets_fit(config_names(inputs@), clips@),
    ensures
        match first_clip_problem(config_names(inputs@), clips@, 0) {
            Some(m) => r matches Err(e) && e@ == (ErrorKind::InvalidProject, m),
            None => r matches Ok(v) && clips_placed(clips@, v@),
        },
{
    let ghost names = config_names(inputs@);
    let mut placed: Vec<Clip> = Vec::new();
    let mut cursor: u64 = 0;
    let mut k: usize = 0;
    while k < clips.len()
        invariant
            0 <= k <= clips@.len(),
            names == config_names(inputs@),
            clip_offsets_fit(names, clips@),
            forall|j: int| 0 <= j < k ==> (#[trigger] clip_problem(names, clips@[j], j)) is None,
            first_clip_problem(names, clips@, 0) == first_clip_problem(names, clips@, k as int),
            cursor == clip_offset(clips@, k as int),
            placed@.len() == k,
            forall|j: int|
                0 <= j < k ==> {
                    let c = #[trigger] placed@[j];
                    &&& c.index == j
                    &&& c.input@ == clips@[j].input@
                    &&& c.start == clips@[j].start
                    &&& c.end == clips@[j].end
                    &&& c.output_start@ == clip_offset(clips@, j)
                    &&& c.output_end@ == clip_offset(clips@, j + 1)
                    &&& c.chapter == clips@[j].chapter
                    &&& c.blur == clips@[j].blur
                    &&& c.mute == clips@[j].mute
                },
        decreases clips.len() - k,
    {
        let clip = &clips[k];
        if !has_name(inputs, clip.input.as_str()) {
            let mut out: Vec<char> = Vec::new();
            push_str(&mut out, "unknown input ");
            let q = debug_quoted(clip.input.as_str());
            push_str(&mut out, q.as_str());
            push_str(&mut out, " at ");
            let tail = clip_at_message(k, "].input");
            push_chars(&mut out, &tail);
            proof {
                reveal_strlit(" at clip[");
                reveal_strlit(" at ");
                reveal_strlit("clip[");
                assert(out@ =~= "unknown input "@ + debug_str(clip.input@) + " at clip["@ + decimal(
                    k as nat,
                ) + "].input"@);
                assert(clip_problem(names, clips@[k as int], k as int) == Some(out@));
            }
            return Err(CutlineError::InvalidProject(string_from_chars(&out)));
        }
        let start = clip.start.millis();
        let end = clip.end.millis();
        if end <= start {
            let mut out = clip_at_message(k, "].end must be greater than ");
            let tail = clip_at_message(k, "].start");
            push_chars(&mut out, &tail);
            proof {
                assert(out@ =~= "clip["@ + decimal(k as nat) + "].end must be greater than clip["@
                    + decimal(k as nat) + "].start"@) by {
                    reveal_strlit("clip[");
                    reveal_strlit("].end must be greater than ");
                    reveal_strlit("].end must be greater than clip[");
                }
                assert(clip_problem(names, clips@[k as int], k as int) == Some(out@));
            }
            return Err(CutlineError::InvalidProject(string_from_chars(&out)));
        }
        proof {
            assert(clip_problem(names, clips@[k as int], k as int) is None);
            assert forall|j: int| 0 <= j <= k implies (#[trigger] clip_problem(
                names,
                clips@[j],
                j,
            )) is None by {}
            assert(clip_offset(clips@, k + 1) <= u64::MAX);
        }
        let duration = end - start;
        let output_start = cursor;
        let output_end = cursor + duration;
        cursor = output_end;
        placed.push(
            Clip {
                index: k,
                input: clip.input.clone(),
                start: clip.start,
                end: clip.end,
                output_start: TimeValue::from_millis(output_start),
                output_end: TimeValue::from_millis(output_end),
                chapter: clone_opt_string(&clip.chapter),
                blur: clip.blur,
                mute: clip.mute,
            },
        );
        k += 1;
    }
    Ok(placed)
}

// ---------------------------------------------------------------- clip ranges

/// The position of the first name equal to `n`.
pub open spec fn first_named(names: Seq<Seq<char>>, n: Seq<char>) -> Option<int>
    decreases names.len(),
{
    if names.len() == 0 {
        None
    } else if names[0] == n {
        Some(0)
    } else {
        match first_named(names.drop_first(), n) {
            Some(i) => Some(i + 1),
            None => None,
        }
    }
}

pub open spec fn input_names(inputs: Seq<Input>) -> Seq<Seq<char>> {
    Seq::new(inputs.len(), |i: int| inputs[i].name@)
}

pub open spec fn input_metas(inputs: Seq<Input>) -> Seq<Option<InputMetadata>> {
    Seq::new(inputs.len(), |i: int| inputs[i].metadata)
}

/// What the range check reads of a clip: its input, its index and its end.
pub open spec fn clip_refs(clips: Seq<Clip>) -> Seq<(Seq<char>, int, nat)> {
    Seq::new(clips.len(), |k: int| (clips[k].input@, clips[k].index as int, clips[k].end@))
}

pub proof fn lemma_first_named(inputs: Seq<Input>, n: Seq<char>)
    ensures
        input_index(inputs, n) == first_named(input_names(inputs), n),
    decreases inputs.len(),
{
    if inputs.len() > 0 {
        lemma_first_named(inputs.drop_first(), n);
        assert(input_names(inputs).drop_first() =~= input_names(inputs.drop_first()));
    }
}

pub open spec fn missing_duration(name: Seq<char>) -> Seq<char> {
    "missing probed duration for input "@ + debug_str(name)
}

/// Why a clip does not fit its input, if it does not: the input is unknown,
/// has no probed duration, or is shorter than the clip's end.
pub open spec fn range_problem(
    names: Seq<Seq<char>>,
    metas: Seq<Option<InputMetadata>>,
    clip: (Seq<char>, int, nat),
) -> Option<Seq<char>> {
    let (input, index, end) = clip;
    match first_named(names, input) {
        None => Some(
            "unknown input "@ + debug_str(input) + " at clip["@ + decimal(index as nat) + "].input"@,
        ),
        Some(i) => match metas[i] {
            Some(md) => match md.duration {
                Some(d) => if end > d@ {
                    Some(
                        "clip["@ + decimal(index as nat) + "].end "@ + display_text(end)
                            + " exceeds input "@ + debug_str(input) + " duration "@ + display_text(
                            d@,
                        ),
                    )
                } else {
                    None
                },
                None => Some(missing_duration(names[i])),
            },
            None => Some(missing_duration(names[i])),
        },
    }
}

/// The problem of the first clip from position `k` on that does not fit its
/// input.
pub open spec fn first_range_problem(
    names: Seq<Seq<char>>,
    metas: Seq<Option<InputMetadata>>,
    clips: Seq<(Seq<char>, int, nat)>,
    k: int,
) -> Option<Seq<char>>
    decreases clips.len() - k,
{
    if k < 0 || k >= clips.len() {
        None
    } else {
        match range_problem(names, metas, clips[k]) {
            Some(m) => Some(m),
            None => first_range_problem(names, metas, clips, k + 1),
        }
    }
}

/// Checks that each clip ends within its input's probed duration.
pub fn validate_clip_ranges_against_inputs(clips: &Vec<Clip>, inputs: &Vec<Input>) -> (r: Result<()>)
    ensures
        match first_range_problem(input_names(inputs@), input_metas(inputs@), clip_refs(clips@), 0) {
            Some(m) => r matches Err(e) && e@ == (ErrorKind::InvalidProject, m),
            None => r is Ok,
        },
{
    let ghost names = input_names(inputs@);
    let ghost metas = input_metas(inputs@);
    let ghost refs = clip_refs(clips@);
    let mut k: usize = 0;
    while k < clips.len()
        invariant
            0 <= k <= clips@.len(),
            names == input_names(inputs@),
            metas == input_metas(inputs@),
            refs == clip_refs(clips@),
            first_range_problem(names, metas, refs, 0) == first_range_problem(
                names,
                metas,
                refs,
                k as int,
            ),
        decreases clips.len() - k,
    {
        let clip = &clips[k];
        proof {
            lemma_first_named(inputs@, clip.input@);
            lemma_input_index(inputs@, clip.input@);
        }
        let i = match find_input(inputs, clip.input.as_str()) {
            Some(i) => i,
            None => {
                let mut out: Vec<char> = Vec::new();
                push_str(&mut out, "unknown input ");
                let q = debug_quoted(clip.input.as_str());
                push_str(&mut out, q.as_str());
                push_str(&mut out, " at ");
                let tail = clip_at_message(clip.index, "].input");
                push_chars(&mut out, &tail);
                proof {
                    reveal_strlit(" at clip[");
                    reveal_strlit(" at ");
                    reveal_strlit("clip[");
                    assert(out@ =~= "unknown input "@ + debug_str(clip.input@) + " at clip["@
                        + decimal(clip.index as nat) + "].input"@);
                    assert(range_problem(names, metas, refs[k as int]) == Some(out@));
                }
                return Err(CutlineError::InvalidProject(string_from_chars(&out)));
            },
        };
        let input = &inputs[i];
        let duration = match &input.metadata {
            Some(md) => md.duration,
            None => None,
        };
        match duration {
            None => {
                let mut out: Vec<char> = Vec::new();
                push_str(&mut out, "missing probed duration for input ");
                let q = debug_quoted(input.name.as_str());
                push_str(&mut out, q.as_str());
                proof {
                    assert(range_problem(names, metas, refs[k as int]) == Some(out@));
                }
                return Err(CutlineError::InvalidProject(string_from_chars(&out)));
            },
            Some(d) => {
                if clip.end.millis() > d.millis() {
                    let mut out = clip_at_message(clip.index, "].end ");
                    let shown = clip.end.display();
                    push_str(&mut out, shown.as_str());
                    push_str(&mut out, " exceeds input ");
                    let q = debug_quoted(clip.input.as_str());
                    push_str(&mut out, q.as_str());
                    push_str(&mut out, " duration ");
                    let shown_d = d.display();
                    push_str(&mut out, shown_d.as_str());
                    proof {
                        reveal_strlit("clip[");
                        assert(out@ =~= "clip["@ + decimal(clip.index as nat) + "].end "@
                            + display_text(clip.end@) + " exceeds input "@ + debug_str(clip.input@)
                            + " duration "@ + display_text(d@));
                        assert(range_problem(names, metas, refs[k as int]) == Some(out@));
                    }
                    return Err(CutlineError::InvalidProject(string_from_chars(&out)));
                }
            },
        }
        assert(range_problem(names, metas, refs[k as int]) is None);
        k += 1;
    }
    Ok(())
}

// ---------------------------------------------------------------- stories

/// What the file system said of a story's files: whether its source is a
/// file, its text (or why it could not be read as UTF-8), and whether its
/// background is a file.
#[derive(Debug)]
pub struct StoryFiles {
    pub source_is_file: bool,
    pub source_text: core::result::Result<String, String>,
    pub background_is_file: bool,
}

pub open spec fn story_at(k: int) -> Seq<char> {
    "story["@ + decimal(k as nat) + "]"@
}

/// Why story `k` is refused, if it is.
pub open spec fn story_problem(dir: Seq<char>, k: int, story: StoryVideoConfig, files: StoryFiles) -> Option<
    Seq<char>,
> {
    let at = story_at(k);
    let source = resolved_path(dir, story.source@);
    let background = resolved_path(dir, story.background@);
    if story.start_line == 0 || story.end_line < story.start_line {
        Some(
            at + ".start_line must be at least 1 and "@ + at
                + ".end_line must be greater than or equal to start_line"@,
        )
    } else if story.platform@ != "douyin"@ {
        Some(at + ".platform must be \"douyin\" in V1, got "@ + debug_str(story.platform@))
    } else if story.voice_provider is Some && story.voice_provider->0@ != "diamoetts"@ {
        Some(
            at + ".voice_provider must be \"diamoetts\" when set in V1, got "@ + debug_str(
                story.voice_provider->0@,
            ),
        )
    } else if path_extension(source) != Some("txt"@) {
        Some(at + ".source must be a local UTF-8 .txt file: "@ + source)
    } else if !files.source_is_file {
        Some(at + ".source does not exist or is not a file: "@ + source)
    } else {
        match files.source_text {
            Err(err) => Some(at + ".source could not be read as UTF-8 text: "@ + source + ": "@ + err@),
            Ok(text) => if story.end_line > lines(text@).len() {
                Some(
                    at + ".end_line "@ + decimal(story.end_line as nat) + " exceeds "@ + at
                        + ".source line count "@ + decimal(lines(text@).len()),
                )
            } else if !files.background_is_file {
                Some(at + ".background does not exist or is not a file: "@ + background)
            } else {
                None
            },
        }
    }
}

/// The problem of the first refused story from position `k` on.
pub open spec fn first_story_problem(
    dir: Seq<char>,
    stories: Seq<StoryVideoConfig>,
    files: Seq<StoryFiles>,
    k: int,
) -> Option<Seq<char>>
    decreases stories.len() - k,
{
    if k < 0 || k >= stories.len() {
        None
    } else {
        match story_problem(dir, k, stories[k], files[k]) {
            Some(m) => Some(m),
            None => first_story_problem(dir, stories, files, k + 1),
        }
    }
}

fn story_message(k: usize, tail: &str) -> (r: Vec<char>)
    ensures
        r@ == story_at(k as int) + tail@,
{
    let mut out: Vec<char> = Vec::new();
    push_str(&mut out, "story[");
    push_decimal(&mut out, k as u64);
    push_str(&mut out, "]");
    push_str(&mut out, tail);
    proof {
        reveal_strlit("story[");
        reveal_strlit("]");
        assert(out@ =~= story_at(k as int) + tail@);
    }
    out
}

fn story_refusal(dir: &str, k: usize, story: &StoryVideoConfig, files: &StoryFiles) -> (r: Option<
    Vec<char>,
>)
    ensures
        match story_problem(dir@, k as int, *story, *files) {
            Some(m) => r matches Some(v) && v@ == m,
            None => r is None,
        },
{
    let ghost at = story_at(k as int);
    if story.start_line == 0 || story.end_line < story.start_line {
        let mut out = story_message(k, ".start_line must be at least 1 and ");
        let tail = story_message(k, ".end_line must be greater than or equal to start_line");
        push_chars(&mut out, &tail);
        assert(out@ =~= at + ".start_line must be at least 1 and "@ + at
            + ".end_line must be greater than or equal to start_line"@);
        return Some(out);
    }
    if !str_equal(story.platform.as_str(), "douyin") {
        let mut out = story_message(k, ".platform must be \"douyin\" in V1, got ");
        let q = debug_quoted(story.platform.as_str());
        push_str(&mut out, q.as_str());
        return Some(out);
    }
    match &story.voice_provider {
        Some(p) => {
            if !str_equal(p.as_str(), "diamoetts") {
                let mut out = story_message(
                    k,
                    ".voice_provider must be \"diamoetts\" when set in V1, got ",
                );
                let q = debug_quoted(p.as_str());
                push_str(&mut out, q.as_str());
                return Some(out);
            }
        },
        None => {},
    }
    let source = resolve_project_path(dir, story.source.as_str());
    let is_txt = match path_extension_of(source.as_str()) {
        Some(e) => str_equal(e.as_str(), "txt"),
        None => false,
    };
    if !is_txt {
        let mut out = story_message(k, ".source must be a local UTF-8 .txt file: ");
        push_str(&mut out, source.as_str());
        return Some(out);
    }
    if !files.source_is_file {
        let mut out = story_message(k, ".source does not exist or is not a file: ");
        push_str(&mut out, source.as_str());
        return Some(out);
    }
    match &files.source_text {
        Err(err) => {
            let mut out = story_message(k, ".source could not be read as UTF-8 text: ");
            push_str(&mut out, source.as_str());
            push_str(&mut out, ": ");
            push_str(&mut out, err.as_str());
            Some(out)
        },
        Ok(text) => {
            let chars = str_chars(text.as_str());
            let ranges = line_ranges(&chars);
            let count = ranges.len();
            proof {
                assert(range_texts(chars@, ranges@).len() == ranges@.len());
            }
            if story.end_line > count {
                let mut out = story_message(k, ".end_line ");
                push_decimal(&mut out, story.end_line as u64);
                push_str(&mut out, " exceeds ");
                let tail = story_message(k, ".source line count ");
                push_chars(&mut out, &tail);
                push_decimal(&mut out, count as u64);
                assert(out@ =~= at + ".end_line "@ + decimal(story.end_line as nat) + " exceeds "@
                    + at + ".source line count "@ + decimal(lines(text@).len()));
                return Some(out);
            }
            if !files.background_is_file {
                let background = resolve_project_path(dir, story.background.as_str());
                let mut out = story_message(k, ".background does not exist or is not a file: ");
                push_str(&mut out, background.as_str());
                return Some(out);
            }
            None
        },
    }
}

/// Checks each story's line range, platform, voice provider, source text
/// and background, refusing the first story that fails.
pub fn validate_story_video_configs(
    project_dir: &str,
    story_videos: &Vec<StoryVideoConfig>,
    files: &Vec<StoryFiles>,
) -> (r: Result<()>)
    requires
        files@.len() == story_videos@.len(),
    ensures
        match first_story_problem(project_dir@, story_videos@, files@, 0) {
            Some(m) => r matches Err(e) && e@ == (ErrorKind::InvalidProject, m),
            None => r is Ok,
        },
{
    let mut k: usize = 0;
    while k < story_videos.len()
        invariant
            0 <= k <= story_videos@.len(),
            files@.len() == story_videos@.len(),
            first_story_problem(project_dir@, story_videos@, files@, 0) == first_story_problem(
                project_dir@,
                story_videos@,
                files@,
                k as int,
            ),
        decreases story_videos.len() - k,
    {
        match story_refusal(project_dir, k, &story_videos[k], &files[k]) {
            Some(out) => {
                return Err(CutlineError::InvalidProject(string_from_chars(&out)));
            },
            None => {},
        }
        k += 1;
    }
    Ok(())
}

// ---------------------------------------------------------------- the project

/// The resolved paths of the configured inputs.
pub open spec fn input_paths(dir: Seq<char>, inputs: Seq<(String, InputConfig)>) -> Seq<Seq<char>> {
    Seq::new(inputs.len(), |i: int| resolved_path(dir, inputs[i].1.path@))
}

/// The first input, from position `k` on, that cannot be loaded.
pub open spec fn first_input_error(
    paths: Seq<Seq<char>>,
    options: ValidationOptions,
    accesses: Seq<InputAccess>,
    k: int,
) -> Option<(ErrorKind, Seq<char>)>
    decreases paths.len() - k,
{
    if k < 0 || k >= paths.len() {
        None
    } else {
        match input_load_error(paths[k], options, accesses[k]) {
            Some(e) => Some(e),
            None => first_input_error(paths, options, accesses, k + 1),
        }
    }
}

pub open spec fn loaded_metas(options: ValidationOptions, accesses: Seq<InputAccess>) -> Seq<
    Option<InputMetadata>,
> {
    Seq::new(accesses.len(), |i: int| loaded_metadata(options, accesses[i]))
}

/// What the range check reads of the configured clips.
pub open spec fn config_clip_refs(clips: Seq<ClipConfig>) -> Seq<(Seq<char>, int, nat)> {
    Seq::new(clips.len(), |k: int| (clips[k].input@, k, clips[k].end@))
}

pub open spec fn container_message(container: Seq<char>) -> Seq<char> {
    "render.container must be \"mp4\" in V1, got "@ + debug_str(container)
}

/// Why the project is refused, if it is: the first failing check in the
/// order they are made.
pub open spec fn normalize_problem(
    project_path: Seq<char>,
    config: ProjectConfig,
    options: ValidationOptions,
    accesses: Seq<InputAccess>,
    files: Seq<StoryFiles>,
) -> Option<(ErrorKind, Seq<char>)> {
    let dir = project_dir_of(project_path);
    let creative = config.auto_cuts@.len() > 0 || config.story_videos@.len() > 0;
    let names = config_names(config.input@);
    let input_error = first_input_error(input_paths(dir, config.input@), options, accesses, 0);
    let clip_error = first_clip_problem(names, config.clips@, 0);
    let range_error = first_range_problem(
        names,
        loaded_metas(options, accesses),
        config_clip_refs(config.clips@),
        0,
    );
    let story_error = first_story_problem(dir, config.story_videos@, files, 0);
    if config.render.container@ != "mp4"@ {
        Some((ErrorKind::InvalidProject, container_message(config.render.container@)))
    } else if input_error is Some {
        input_error
    } else if config.input@.len() == 0 && !creative {
        Some((ErrorKind::InvalidProject, "at least one [input.<name>] section is required"@))
    } else if config.clips@.len() == 0 && !creative {
        Some((ErrorKind::InvalidProject, "at least one [[clip]] section is required"@))
    } else if clip_error is Some {
        Some((ErrorKind::InvalidProject, clip_error->0))
    } else if options.probe_media && range_error is Some {
        Some((ErrorKind::InvalidProject, range_error->0))
    } else if story_error is Some {
        Some((ErrorKind::InvalidProject, story_error->0))
    } else {
        None
    }
}

/// The chat path of an input, resolved where there is one.
pub open spec fn chat_resolved(dir: Seq<char>, chat: Option<String>, r: Option<String>) -> bool {
    match chat {
        None => r is None,
        Some(c) => r is Some && r->0@ == resolved_path(dir, c@),
    }
}

/// `p` is the project that `config` describes, its inputs loaded as
/// `accesses` say.
pub open spec fn normalized_from(
    project_path: Seq<char>,
    config: ProjectConfig,
    options: ValidationOptions,
    accesses: Seq<InputAccess>,
    p: NormalizedProject,
) -> bool {
    let dir = project_dir_of(project_path);
    &&& p.project_path@ == project_path
    &&& p.project_dir@ == dir
    &&& p.output_path@ == resolved_path(dir, config.output.path@)
    &&& p.render == config.render
    &&& p.inputs@.len() == config.input@.len()
    &&& forall|i: int|
        0 <= i < config.input@.len() ==> {
            let x = #[trigger] p.inputs@[i];
            &&& x.name@ == config.input@[i].0@
            &&& x.path@ == loaded_path(resolved_path(dir, config.input@[i].1.path@), accesses[i])
            &&& chat_resolved(dir, config.input@[i].1.chat, x.chat)
            &&& x.metadata == loaded_metadata(options, accesses[i])
        }
    &&& clips_placed(config.clips@, p.clips@)
    &&& p.auto_cuts@.len() == config.auto_cuts@.len()
    &&& forall|k: int|
        0 <= k < config.auto_cuts@.len() ==> generated_autocut(
            config.auto_cuts@[k],
            #[trigger] p.auto_cuts@[k],
        )
    &&& p.story_videos@.len() == config.story_videos@.len()
    &&& forall|k: int|
        0 <= k < config.story_videos@.len() ==> generated_story(
            config.story_videos@[k],
            #[trigger] p.story_videos@[k],
        )
}

/// What the caller must hand in: inputs keyed by name; one access per
/// input, in order, up to and including the first input that cannot be
/// loaded (none where the container is refused, as no input is looked at
/// then); one set of story files per story; and a clip timeline that fits in
/// `u64`.
pub open spec fn normalize_inputs_ready(
    project_path: Seq<char>,
    config: ProjectConfig,
    options: ValidationOptions,
    accesses: Seq<InputAccess>,
    files: Seq<StoryFiles>,
) -> bool {
    let paths = input_paths(project_dir_of(project_path), config.input@);
    &&& config.wf()
    &&& accesses.len() <= config.input@.len()
    &&& accesses.len() < config.input@.len() ==> config.render.container@ != "mp4"@ || (
    accesses.len() > 0 && input_load_error(
        paths[accesses.len() - 1],
        options,
        accesses[accesses.len() - 1],
    ) is Some)
    &&& files.len() == config.story_videos@.len()
    &&& forall|i: int| 0 <= i < accesses.len() ==> access_complete(options, #[trigger] accesses[i])
    &&& clip_offsets_fit(config_names(config.input@), config.clips@)
}

/// Refuses a render container other than `mp4`.
pub fn render_container_check(render: &RenderConfig) -> (r: Result<()>)
    ensures
        render.container@ == "mp4"@ ==> r is Ok,
        render.container@ != "mp4"@ ==> (r matches Err(e) && e@ == (
            ErrorKind::InvalidProject,
            container_message(render.container@),
        )),
{
    if !str_equal(render.container.as_str(), "mp4") {
        let mut out: Vec<char> = Vec::new();
        push_str(&mut out, "render.container must be \"mp4\" in V1, got ");
        let q = debug_quoted(render.container.as_str());
        push_str(&mut out, q.as_str());
        return Err(CutlineError::InvalidProject(string_from_chars(&out)));
    }
    Ok(())
}

fn resolve_chat(dir: &str, chat: &Option<String>) -> (r: Option<String>)
    ensures
        chat_resolved(dir@, *chat, r),
{
    match chat {
        Some(c) => Some(resolve_project_path(dir, c.as_str())),
        None => None,
    }
}

/// Checks a project file and resolves it: paths read from the project's
/// directory, inputs loaded, clips placed end to end on the output timeline,
/// AutoCut and story sections read. The first failing check refuses the
/// project.
pub fn normalize_project_with_options(
    project_path: &str,
    config: ProjectConfig,
    options: ValidationOptions,
    accesses: Vec<InputAccess>,
    files: Vec<StoryFiles>,
) -> (r: Result<NormalizedProject>)
    requires
        normalize_inputs_ready(project_path@, config, options, accesses@, files@),
    ensures
        match normalize_problem(project_path@, config, options, accesses@, files@) {
            Some(e) => r matches Err(x) && x@ == e,
            None => r matches Ok(p) && normalized_from(project_path@, config, options, accesses@, p),
        },
{
    let ghost cfg = config;
    let ProjectConfig { output, input, render, clips, auto_cuts, story_videos } = config;
    render_container_check(&render)?;
    let dir = project_dir(project_path);
    let output_path = resolve_project_path(dir.as_str(), output.path.as_str());
    let ghost paths = input_paths(dir@, input@);
    let mut inputs: Vec<Input> = Vec::new();
    let mut i: usize = 0;
    while i < input.len()
        invariant
            0 <= i <= input@.len(),
            input == cfg.input,
            cfg == config,
            cfg.render.container@ == "mp4"@,
            dir@ == project_dir_of(project_path@),
            paths == input_paths(dir@, input@),
            i <= accesses@.len() <= input@.len(),
            accesses@.len() < input@.len() ==> accesses@.len() > 0 && input_load_error(
                paths[accesses@.len() - 1],
                options,
                accesses@[accesses@.len() - 1],
            ) is Some,
            forall|j: int| 0 <= j < i ==> input_load_error(paths[j], options, #[trigger] accesses@[j]) is None,
            forall|j: int| 0 <= j < accesses@.len() ==> access_complete(options, #[trigger] accesses@[j]),
            first_input_error(paths, options, accesses@, 0) == first_input_error(
                paths,
                options,
                accesses@,
                i as int,
            ),
            inputs@.len() == i,
            forall|j: int|
                0 <= j < i ==> {
                    let x = #[trigger] inputs@[j];
                    &&& x.name@ == input@[j].0@
                    &&& x.path@ == loaded_path(resolved_path(dir@, input@[j].1.path@), accesses@[j])
                    &&& chat_resolved(dir@, input@[j].1.chat, x.chat)
                    &&& x.metadata == loaded_metadata(options, accesses@[j])
                },
        decreases input.len() - i,
    {
        if i == accesses.len() {
            assert(input_load_error(paths[i - 1], options, accesses@[i - 1]) is None);
        }
        let path = resolve_project_path(dir.as_str(), input[i].1.path.as_str());
        assert(paths[i as int] == path@);
        let (path, metadata) = match load_input_outcome(path.as_str(), options, &accesses[i]) {
            Ok(loaded) => loaded,
            Err(e) => {
                assert(first_input_error(paths, options, accesses@, i as int) == Some(e@));
                assert(normalize_problem(project_path@, cfg, options, accesses@, files@) == Some(e@));
                return Err(e);
            },
        };
        let chat = resolve_chat(dir.as_str(), &input[i].1.chat);
        inputs.push(Input { name: input[i].0.clone(), path, chat, metadata });
        i += 1;
    }
    let creative = auto_cuts.len() > 0 || story_videos.len() > 0;
    if inputs.len() == 0 && !creative {
        return Err(
            CutlineError::InvalidProject(string_of("at least one [input.<name>] section is required")),
        );
    }
    if clips.len() == 0 && !creative {
        return Err(CutlineError::InvalidProject(string_of("at least one [[clip]] section is required")));
    }
    let placed = place_clips(&input, &clips)?;
    if options.probe_media {
        proof {
            assert(input_names(inputs@) =~= config_names(input@));
            assert(input_metas(inputs@) =~= loaded_metas(options, accesses@));
            assert(clip_refs(placed@) =~= config_clip_refs(clips@)) by {
                assert forall|k: int| 0 <= k < clips@.len() implies #[trigger] clip_refs(placed@)[k]
                    == config_clip_refs(clips@)[k] by {
                    let c = placed@[k];
                    assert(c.end == clips@[k].end);
                }
            }
        }
        validate_clip_ranges_against_inputs(&placed, &inputs)?;
    }
    validate_story_video_configs(dir.as_str(), &story_videos, &files)?;
    let mut planned_cuts: Vec<AutoCut> = Vec::new();
    let mut k: usize = 0;
    while k < auto_cuts.len()
        invariant
            0 <= k <= auto_cuts@.len(),
            planned_cuts@.len() == k,
            forall|j: int| 0 <= j < k ==> generated_autocut(auto_cuts@[j], #[trigger] planned_cuts@[j]),
        decreases auto_cuts.len() - k,
    {
        planned_cuts.push(generate_autocut(&auto_cuts[k]));
        k += 1;
    }
    let mut stories: Vec<StoryVideo> = Vec::new();
    let mut m: usize = 0;
    while m < story_videos.len()
        invariant
            0 <= m <= story_videos@.len(),
            stories@.len() == m,
            forall|j: int| 0 <= j < m ==> generated_story(story_videos@[j], #[trigger] stories@[j]),
        decreases story_videos.len() - m,
    {
        stories.push(generate_story_video(&story_videos[m]));
        m += 1;
    }
    Ok(
        NormalizedProject {
            project_path: string_of(project_path),
            project_dir: dir,
            output_path,
            render,
            inputs,
            clips: placed,
            auto_cuts: planned_cuts,
            story_videos: stories,
        },
    )
}

/// `normalize_project_with_options` with inputs required and media probed.
pub fn normalize_project(
    project_path: &str,
    config: ProjectConfig,
    accesses: Vec<InputAccess>,
    files: Vec<StoryFiles>,
) -> (r: Result<NormalizedProject>)
    requires
        normalize_inputs_ready(
            project_path@,
            config,
            ValidationOptions::default_spec(),
            accesses@,
            files@,
        ),
    ensures
        match normalize_problem(
            project_path@,
            config,
            ValidationOptions::default_spec(),
            accesses@,
            files@,
        ) {
            Some(e) => r matches Err(x) && x@ == e,
            None => r matches Ok(p) && normalized_from(
                project_path@,
                config,
                ValidationOptions::default_spec(),
                accesses@,
                p,
            ),
        },
{
    normalize_project_with_options(
        project_path,
        config,
        ValidationOptions { require_inputs: true, probe_media: true },
        accesses,
        files,
    )
}

impl ValidationOptions {
    /// Inputs required and media probed.
    pub open spec fn default_spec() -> ValidationOptions {
        ValidationOptions { require_inputs: true, probe_media: true }
    }
}

/// Whether the output timeline of the clips fits in `u64`, as far as the
/// clips are accepted.
pub fn clip_offsets_fit_check(inputs: &Vec<(String, InputConfig)>, clips: &Vec<ClipConfig>) -> (r: bool)
    ensures
        r == clip_offsets_fit(config_names(inputs@), clips@),
{
    let ghost names = config_names(inputs@);
    let mut cursor: u64 = 0;
    let mut k: usize = 0;
    while k < clips.len()
        invariant
            0 <= k <= clips@.len(),
            names == config_names(inputs@),
            cursor == clip_offset(clips@, k as int),
            forall|j: int| 0 <= j < k ==> (#[trigger] clip_problem(names, clips@[j], j)) is None,
            forall|j: int|
                0 <= j < k ==> #[trigger] clip_offset(clips@, j + 1) <= u64::MAX,
        decreases clips.len() - k,
    {
        let clip = &clips[k];
        let start = clip.start.millis();
        let end = clip.end.millis();
        if !has_name(inputs, clip.input.as_str()) || end <= start {
            proof {
                assert(clip_problem(names, clips@[k as int], k as int) is Some);
                assert forall|m: int|
                    0 <= m < clips@.len() && (forall|j: int|
                        0 <= j <= m ==> (#[trigger] clip_problem(names, clips@[j], j)) is None) implies #[trigger] clip_offset(
                    clips@,
                    m + 1,
                ) <= u64::MAX by {
                    if m >= k {
                        assert(clip_problem(names, clips@[k as int], k as int) is None);
                    }
                }
            }
            return true;
        }
        if end - start > u64::MAX - cursor {
            assert(clip_problem(names, clips@[k as int], k as int) is None);
            assert(!clip_offsets_fit(names, clips@)) by {
                let kk = k as int;
                assert(forall|j: int| 0 <= j <= kk ==> (#[trigger] clip_problem(names, clips@[j], j)) is None);
                assert(clip_offset(clips@, kk + 1) == cursor + (end - start));
                assert(clip_offset(clips@, kk + 1) > u64::MAX);
            }
            return false;
        }
        cursor = cursor + (end - start);
        k += 1;
    }
    true
}

} // verus!
