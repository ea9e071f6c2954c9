//! What the render and report commands compute: the project that renders an
//! AutoCut's clips, the output paths of one-file-per-clip AutoCuts, and the
//! text reports of a plan.
use vstd::prelude::*;

use crate::autocut::{AutoCutClip, AutoCutPlan, PlannedAutoCut};
use crate::config::{RenderConfig, RenderExtraConfig};
use crate::model::{AutoCut, AutoCutOutputMode, Clip, Input, InputMetadata, NormalizedProject, StoryVideo};
use crate::paths::{
    join_path, parent_path, path_extension, path_extension_of, path_file_stem, path_file_stem_of,
    path_join, path_parent,
};
use crate::planner::{Plan, PlannedChapter, PlannedClip, PlannedInput};
use crate::story::clone_opt_string;
use crate::text::{
    decimal, padded_decimal_chars, push_chars, push_decimal, push_str, push_strings,
    string_from_chars, string_of, string_views, zero_padded,
};
use crate::time::display_text;

verus! {

// ---------------------------------------------------------------- copies

pub fn clone_metadata(m: &Option<InputMetadata>) -> (r: Option<InputMetadata>)
    ensures
        r == *m,
{
    match m {
        Some(md) => Some(
            InputMetadata {
                size_bytes: md.size_bytes,
                modified_unix_millis: md.modified_unix_millis,
                duration: md.duration,
            },
        ),
        None => None,
    }
}

pub fn clone_input(x: &Input) -> (r: Input)
    ensures
        r == *x,
{
    Input {
        name: x.name.clone(),
        path: x.path.clone(),
        chat: clone_opt_string(&x.chat),
        metadata: clone_metadata(&x.metadata),
    }
}

/// Two render settings say the same.
pub open spec fn same_render(a: RenderConfig, b: RenderConfig) -> bool {
    &&& a.video_codec == b.video_codec
    &&& a.audio_codec == b.audio_codec
    &&& a.video_bitrate == b.video_bitrate
    &&& a.audio_bitrate == b.audio_bitrate
    &&& a.pixel_format == b.pixel_format
    &&& a.container == b.container
    &&& a.preset == b.preset
    &&& a.crf == b.crf
    &&& string_views(a.extra.input_args@) == string_views(b.extra.input_args@)
    &&& string_views(a.extra.output_args@) == string_views(b.extra.output_args@)
}

pub fn clone_render(r: &RenderConfig) -> (c: RenderConfig)
    ensures
        same_render(c, *r),
{
    let mut input_args: Vec<String> = Vec::new();
    push_strings(&mut input_args, &r.extra.input_args);
    let mut output_args: Vec<String> = Vec::new();
    push_strings(&mut output_args, &r.extra.output_args);
    proof {
        assert(string_views(Seq::<String>::empty()) =~= Seq::<Seq<char>>::empty());
        assert(Seq::<Seq<char>>::empty() + string_views(r.extra.input_args@) =~= string_views(
            r.extra.input_args@,
        ));
        assert(Seq::<Seq<char>>::empty() + string_views(r.extra.output_args@) =~= string_views(
            r.extra.output_args@,
        ));
    }
    RenderConfig {
        video_codec: r.video_codec.clone(),
        audio_codec: r.audio_codec.clone(),
        video_bitrate: r.video_bitrate.clone(),
        audio_bitrate: r.audio_bitrate.clone(),
        pixel_format: r.pixel_format.clone(),
        container: r.container.clone(),
        preset: clone_opt_string(&r.preset),
        crf: r.crf,
        extra: RenderExtraConfig { input_args, output_args },
    }
}

// ---------------------------------------------------------------- AutoCut outputs

/// Where AutoCut clip `k` (from zero) starts on its output: the durations of
/// the clips before it.
pub open spec fn autocut_offset(clips: Seq<AutoCutClip>, k: int) -> int
    decreases k,
{
    if k <= 0 {
        0
    } else {
        autocut_offset(clips, k - 1) + clips[k - 1].duration@
    }
}

/// The clips fit one output: their durations add up inside `u64`, and their
/// numbers can be shown from one.
pub open spec fn autocut_clips_fit(clips: Seq<AutoCutClip>) -> bool {
    &&& autocut_offset(clips, clips.len() as int) <= u64::MAX
    &&& forall|k: int| 0 <= k < clips.len() ==> (#[trigger] clips[k]).index < usize::MAX
}

proof fn lemma_autocut_offset_monotonic(clips: Seq<AutoCutClip>, j: int, k: int)
    requires
        0 <= j <= k <= clips.len(),
    ensures
        autocut_offset(clips, j) <= autocut_offset(clips, k),
    decreases k - j,
{
    if j < k {
        lemma_autocut_offset_monotonic(clips, j, k - 1);
    }
}

/// `p` renders `clips` of the AutoCut named `name` into `output_path`: the
/// clips end to end, each a chapter named after the AutoCut and its number,
/// without effects; the project's inputs and settings, nothing else to
/// render.
pub open spec fn autocut_output_project(
    project: NormalizedProject,
    name: Seq<char>,
    output_path: Seq<char>,
    clips: Seq<AutoCutClip>,
    p: NormalizedProject,
) -> bool {
    &&& p.project_path == project.project_path
    &&& p.project_dir == project.project_dir
    &&& p.output_path@ == output_path
    &&& same_render(p.render, project.render)
    &&& p.inputs@ == project.inputs@
    &&& p.auto_cuts@.len() == 0
    &&& p.story_videos@.len() == 0
    &&& p.clips@.len() == clips.len()
    &&& forall|k: int|
        0 <= k < clips.len() ==> {
            let c = #[trigger] p.clips@[k];
            &&& c.index == k
            &&& c.input@ == clips[k].input@
            &&& c.start == clips[k].start
            &&& c.end == clips[k].end
            &&& c.output_start@ == autocut_offset(clips, k)
            &&& c.output_end@ == autocut_offset(clips, k + 1)
            &&& c.chapter is Some
            &&& c.chapter->0@ == name + " "@ + decimal((clips[k].index + 1) as nat)
            &&& !c.blur
            &&& !c.mute
        }
}

/// The project that renders `clips` of the AutoCut named `auto_cut_name`
/// into `output_path`.
pub fn project_for_autocut_output(
    project: &NormalizedProject,
    auto_cut_name: &str,
    output_path: String,
    clips: &Vec<AutoCutClip>,
) -> (r: NormalizedProject)
    requires
        autocut_clips_fit(clips@),
    ensures
        autocut_output_project(*project, auto_cut_name@, output_path@, clips@, r),
{
    let mut placed: Vec<Clip> = Vec::new();
    let mut cursor: u64 = 0;
    let mut k: usize = 0;
    while k < clips.len()
        invariant
            0 <= k <= clips@.len(),
            autocut_clips_fit(clips@),
            cursor == autocut_offset(clips@, k as int),
            placed@.len() == k,
            forall|j: int|
                0 <= j < k ==> {
                    let c = #[trigger] placed@[j];
                    &&& c.index == j
                    &&& c.input@ == clips@[j].input@
                    &&& c.start == clips@[j].start
                    &&& c.end == clips@[j].end
                    &&& c.output_start@ == autocut_offset(clips@, j)
                    &&& c.output_end@ == autocut_offset(clips@, j + 1)
                    &&& c.chapter is Some
                    &&& c.chapter->0@ == auto_cut_name@ + " "@ + decimal((clips@[j].index + 1) as nat)
                    &&& !c.blur
                    &&& !c.mute
                },
        decreases clips.len() - k,
    {
        let clip = &clips[k];
        proof {
            lemma_autocut_offset_monotonic(clips@, k + 1, clips@.len() as int);
        }
        let output_start = cursor;
        let output_end = cursor + clip.duration.millis();
        cursor = output_end;
        let mut chapter: Vec<char> = Vec::new();
        push_str(&mut chapter, auto_cut_name);
        push_str(&mut chapter, " ");
        assert(clips@[k as int].index < usize::MAX);
        push_decimal(&mut chapter, (clip.index + 1) as u64);
        placed.push(
            Clip {
                index: k,
                input: clip.input.clone(),
                start: clip.start,
                end: clip.end,
                output_start: crate::time::TimeValue::from_millis(output_start),
                output_end: crate::time::TimeValue::from_millis(output_end),
                chapter: Some(string_from_chars(&chapter)),
                blur: false,
                mute: false,
            },
        );
        k += 1;
    }
    let mut inputs: Vec<Input> = Vec::new();
    let mut i: usize = 0;
    while i < project.inputs.len()
        invariant
            0 <= i <= project.inputs@.len(),
            inputs@ == project.inputs@.take(i as int),
        decreases project.inputs.len() - i,
    {
        inputs.push(clone_input(&project.inputs[i]));
        assert(project.inputs@.take(i + 1) =~= project.inputs@.take(i as int).push(project.inputs@[i as int]));
        i += 1;
    }
    assert(project.inputs@.take(i as int) =~= project.inputs@);
    NormalizedProject {
        project_path: project.project_path.clone(),
        project_dir: project.project_dir.clone(),
        output_path,
        render: clone_render(&project.render),
        inputs,
        clips: placed,
        auto_cuts: Vec::new(),
        story_videos: Vec::new(),
    }
}

/// The project that renders all `clips` of an AutoCut into the project's
/// own output.
pub fn project_for_autocut_clips(
    project: &NormalizedProject,
    auto_cut_name: &str,
    clips: &Vec<AutoCutClip>,
) -> (r: NormalizedProject)
    requires
        autocut_clips_fit(clips@),
    ensures
        autocut_output_project(*project, auto_cut_name@, project.output_path@, clips@, r),
{
    project_for_autocut_output(project, auto_cut_name, project.output_path.clone(), clips)
}

/// The output of clip `index` (from zero) of a one-file-per-clip AutoCut:
/// beside the project's output, `<stem>-<name>-<NNN>.<extension>`, the
/// number from one and at least three digits.
pub open spec fn multiple_output_path_of(base: Seq<char>, name: Seq<char>, index: nat) -> Seq<char> {
    let parent = match path_parent(base) {
        Some(p) => p,
        None => Seq::empty(),
    };
    let stem = match path_file_stem(base) {
        Some(s) => s,
        None => "autocut"@,
    };
    let extension = match path_extension(base) {
        Some(e) => e,
        None => "mp4"@,
    };
    path_join(parent, stem + "-"@ + name + "-"@ + zero_padded(decimal(index + 1), 3) + "."@ + extension)
}

pub fn multiple_autocut_output_path(base_output_path: &str, auto_cut_name: &str, index: usize) -> (r: String)
    requires
        index < usize::MAX,
    ensures
        r@ == multiple_output_path_of(base_output_path@, auto_cut_name@, index as nat),
{
    let parent = match parent_path(base_output_path) {
        Some(p) => p,
        None => String::new(),
    };
    let stem = match path_file_stem_of(base_output_path) {
        Some(s) => s,
        None => string_of("autocut"),
    };
    let extension = match path_extension_of(base_output_path) {
        Some(e) => e,
        None => string_of("mp4"),
    };
    let mut name: Vec<char> = Vec::new();
    push_str(&mut name, stem.as_str());
    push_str(&mut name, "-");
    push_str(&mut name, auto_cut_name);
    push_str(&mut name, "-");
    let number = padded_decimal_chars((index + 1) as u64, 3);
    push_chars(&mut name, &number);
    push_str(&mut name, ".");
    push_str(&mut name, extension.as_str());
    let file = string_from_chars(&name);
    join_path(parent.as_str(), file.as_str())
}

pub fn clone_autocut_clip(c: &AutoCutClip) -> (r: AutoCutClip)
    ensures
        r == *c,
{
    AutoCutClip {
        index: c.index,
        input: c.input.clone(),
        start: c.start,
        end: c.end,
        duration: c.duration,
        output_start: c.output_start,
        output_end: c.output_end,
    }
}

/// What rendering an AutoCut makes, one project per output file: the
/// project's own output holding every clip, or one numbered output per clip.
pub open spec fn autocut_render_projects_of(
    project: NormalizedProject,
    auto_cut: PlannedAutoCut,
    r: Seq<NormalizedProject>,
) -> bool {
    let clips = auto_cut.clips@;
    match auto_cut.output_mode {
        AutoCutOutputMode::Single => r.len() == 1 && autocut_output_project(
            project,
            auto_cut.name@,
            project.output_path@,
            clips,
            r[0],
        ),
        AutoCutOutputMode::Multiple => r.len() == clips.len() && forall|k: int|
            0 <= k < clips.len() ==> autocut_output_project(
                project,
                auto_cut.name@,
                multiple_output_path_of(project.output_path@, auto_cut.name@, clips[k].index as nat),
                seq![clips[k]],
                #[trigger] r[k],
            ),
    }
}

/// The outputs of an AutoCut fit: one output's clip timeline stays inside
/// `u64`, and the clips' numbers can be shown from one.
pub open spec fn autocut_render_fits(auto_cut: PlannedAutoCut) -> bool {
    match auto_cut.output_mode {
        AutoCutOutputMode::Single => autocut_clips_fit(auto_cut.clips@),
        AutoCutOutputMode::Multiple => forall|k: int|
            0 <= k < auto_cut.clips@.len() ==> (#[trigger] auto_cut.clips@[k]).index < usize::MAX,
    }
}

/// Whether the outputs of an AutoCut fit.
pub fn autocut_render_fits_check(auto_cut: &PlannedAutoCut) -> (r: bool)
    ensures
        r == autocut_render_fits(*auto_cut),
{
    match auto_cut.output_mode {
        AutoCutOutputMode::Single => autocut_clips_fit_check(&auto_cut.clips),
        AutoCutOutputMode::Multiple => {
            let mut k: usize = 0;
            while k < auto_cut.clips.len()
                invariant
                    0 <= k <= auto_cut.clips@.len(),
                    forall|j: int| 0 <= j < k ==> (#[trigger] auto_cut.clips@[j]).index < usize::MAX,
                decreases auto_cut.clips.len() - k,
            {
                if auto_cut.clips[k].index == usize::MAX {
                    return false;
                }
                k += 1;
            }
            true
        },
    }
}

/// The projects that render an AutoCut's outputs, in order.
pub fn autocut_render_projects(project: &NormalizedProject, auto_cut: &PlannedAutoCut) -> (r: Vec<
    NormalizedProject,
>)
    requires
        autocut_render_fits(*auto_cut),
    ensures
        autocut_render_projects_of(*project, *auto_cut, r@),
{
    let mut out: Vec<NormalizedProject> = Vec::new();
    match auto_cut.output_mode {
        AutoCutOutputMode::Single => {
            out.push(project_for_autocut_clips(project, auto_cut.name.as_str(), &auto_cut.clips));
        },
        AutoCutOutputMode::Multiple => {
            let mut k: usize = 0;
            while k < auto_cut.clips.len()
                invariant
                    0 <= k <= auto_cut.clips@.len(),
                    auto_cut.output_mode == AutoCutOutputMode::Multiple,
                    autocut_render_fits(*auto_cut),
                    out@.len() == k,
                    forall|j: int|
                        0 <= j < k ==> autocut_output_project(
                            *project,
                            auto_cut.name@,
                            multiple_output_path_of(
                                project.output_path@,
                                auto_cut.name@,
                                auto_cut.clips@[j].index as nat,
                            ),
                            seq![auto_cut.clips@[j]],
                            #[trigger] out@[j],
                        ),
                decreases auto_cut.clips.len() - k,
            {
                let clip = &auto_cut.clips[k];
                assert(clip.index < usize::MAX);
                let path = multiple_autocut_output_path(
                    project.output_path.as_str(),
                    auto_cut.name.as_str(),
                    clip.index,
                );
                let mut one: Vec<AutoCutClip> = Vec::new();
                one.push(clone_autocut_clip(clip));
                proof {
                    assert(one@ =~= seq![auto_cut.clips@[k as int]]);
                    assert(autocut_offset(one@, 1) == autocut_offset(one@, 0) + one@[0].duration@);
                    one@[0].duration.lemma_view_bound();
                }
                out.push(project_for_autocut_output(project, auto_cut.name.as_str(), path, &one));
                k += 1;
            }
        },
    }
    out
}

/// Whether the clips fit one output.
pub fn autocut_clips_fit_check(clips: &Vec<AutoCutClip>) -> (r: bool)
    ensures
        r == autocut_clips_fit(clips@),
{
    let mut total: u64 = 0;
    let mut k: usize = 0;
    while k < clips.len()
        invariant
            0 <= k <= clips@.len(),
            total == autocut_offset(clips@, k as int),
            forall|j: int| 0 <= j < k ==> (#[trigger] clips@[j]).index < usize::MAX,
        decreases clips.len() - k,
    {
        if clips[k].index == usize::MAX {
            return false;
        }
        let d = clips[k].duration.millis();
        if d > u64::MAX - total {
            proof {
                lemma_autocut_offset_monotonic(clips@, k + 1, clips@.len() as int);
            }
            return false;
        }
        total = total + d;
        k += 1;
    }
    true
}

// ---------------------------------------------------------------- reports

/// A time as reports show it, `HH:MM:SS.mmm`.
#[verifier::opaque]
pub open spec fn shown(millis: nat) -> Seq<char> {
    display_text(millis)
}

fn show(t: crate::time::TimeValue) -> (s: String)
    ensures
        s@ == shown(t@),
{
    proof {
        reveal(shown);
    }
    t.display()
}

pub open spec fn bool_text(b: bool) -> Seq<char> {
    if b {
        "true"@
    } else {
        "false"@
    }
}

pub open spec fn output_mode_text(m: AutoCutOutputMode) -> Seq<char> {
    match m {
        AutoCutOutputMode::Single => "Single"@,
        AutoCutOutputMode::Multiple => "Multiple"@,
    }
}

pub open spec fn autocut_clip_line(c: AutoCutClip) -> Seq<char> {
    "    "@ + decimal((c.index + 1) as nat) + "  "@ + shown(c.start@) + " -> "@ + shown(
        c.end@,
    ) + "  duration "@ + shown(c.duration@) + "  out "@ + shown(c.output_start@)
        + " -> "@ + shown(c.output_end@) + "\n"@
}

pub open spec fn autocut_clip_lines(clips: Seq<AutoCutClip>) -> Seq<char>
    decreases clips.len(),
{
    if clips.len() == 0 {
        Seq::empty()
    } else {
        autocut_clip_lines(clips.drop_last()) + autocut_clip_line(clips.last())
    }
}

pub open spec fn autocut_source_lines(a: PlannedAutoCut) -> Seq<char> {
    "AutoCut: "@ + a.name@ + "\n"@ + "  input: "@ + a.input@ + " ("@ + a.input_path@ + ")\n"@
        + "  target: "@ + shown(a.target_duration@) + "  clip: "@ + shown(
        a.clip_duration@,
    ) + "  min: "@ + shown(a.min_clip_duration@) + "\n"@
}

pub open spec fn autocut_analysis_lines(a: PlannedAutoCut) -> Seq<char> {
    "  output_mode: "@ + output_mode_text(a.output_mode) + "\n"@ + "  analysis: "@ + decimal(
        a.analysis.scene_changes@.len(),
    ) + " scene changes, "@ + decimal(a.analysis.audio_regions@.len()) + " audio regions, fallback "@
        + bool_text(a.analysis.fallback_used) + "\n"@ + "  clips:\n"@
}

pub open spec fn planned_autocut_text(a: PlannedAutoCut) -> Seq<char> {
    autocut_source_lines(a) + autocut_analysis_lines(a) + autocut_clip_lines(a.clips@)
}

pub open spec fn autocut_plan_text(cuts: Seq<PlannedAutoCut>) -> Seq<char>
    decreases cuts.len(),
{
    if cuts.len() == 0 {
        Seq::empty()
    } else {
        autocut_plan_text(cuts.drop_last()) + planned_autocut_text(cuts.last())
    }
}

/// Every clip number of the plan can be shown from one.
pub open spec fn autocut_plan_numbered(plan: AutoCutPlan) -> bool {
    forall|a: int, k: int|
        0 <= a < plan.auto_cuts@.len() && 0 <= k < plan.auto_cuts@[a].clips@.len() ==> (
        #[trigger] plan.auto_cuts@[a].clips@[k]).index < usize::MAX
}

#[verifier::rlimit(50)]
fn push_autocut_clip_line(out: &mut Vec<char>, c: &AutoCutClip)
    requires
        c.index < usize::MAX,
    ensures
        final(out)@ == old(out)@ + autocut_clip_line(*c),
{
    let ghost before = out@;
    push_str(out, "    ");
    push_decimal(out, (c.index + 1) as u64);
    push_str(out, "  ");
    let t = show(c.start);
    push_str(out, t.as_str());
    push_str(out, " -> ");
    let t = show(c.end);
    push_str(out, t.as_str());
    let ghost first = out@;
    assert(first =~= before + ("    "@ + decimal((c.index + 1) as nat) + "  "@ + shown(c.start@)
        + " -> "@ + shown(c.end@)));
    push_str(out, "  duration ");
    let t = show(c.duration);
    push_str(out, t.as_str());
    push_str(out, "  out ");
    let t = show(c.output_start);
    push_str(out, t.as_str());
    push_str(out, " -> ");
    let t = show(c.output_end);
    push_str(out, t.as_str());
    push_str(out, "\n");
    assert(out@ =~= first + ("  duration "@ + shown(c.duration@) + "  out "@ + shown(
        c.output_start@,
    ) + " -> "@ + shown(c.output_end@) + "\n"@));
    assert(out@ =~= before + autocut_clip_line(*c));
}

fn push_autocut_source_lines(out: &mut Vec<char>, a: &PlannedAutoCut)
    ensures
        final(out)@ == old(out)@ + autocut_source_lines(*a),
{
    let ghost before = out@;
    push_str(out, "AutoCut: ");
    push_str(out, a.name.as_str());
    push_str(out, "\n");
    push_str(out, "  input: ");
    push_str(out, a.input.as_str());
    push_str(out, " (");
    push_str(out, a.input_path.as_str());
    push_str(out, ")\n");
    let ghost mid = out@;
    push_str(out, "  target: ");
    let t = show(a.target_duration);
    push_str(out, t.as_str());
    push_str(out, "  clip: ");
    let t = show(a.clip_duration);
    push_str(out, t.as_str());
    push_str(out, "  min: ");
    let t = show(a.min_clip_duration);
    push_str(out, t.as_str());
    push_str(out, "\n");
    assert(out@ =~= before + autocut_source_lines(*a));
}

fn push_autocut_analysis_lines(out: &mut Vec<char>, a: &PlannedAutoCut)
    ensures
        final(out)@ == old(out)@ + autocut_analysis_lines(*a),
{
    let ghost before = out@;
    push_str(out, "  output_mode: ");
    match a.output_mode {
        AutoCutOutputMode::Single => push_str(out, "Single"),
        AutoCutOutputMode::Multiple => push_str(out, "Multiple"),
    }
    push_str(out, "\n");
    let ghost mid = out@;
    push_str(out, "  analysis: ");
    push_decimal(out, a.analysis.scene_changes.len() as u64);
    push_str(out, " scene changes, ");
    push_decimal(out, a.analysis.audio_regions.len() as u64);
    push_str(out, " audio regions, fallback ");
    if a.analysis.fallback_used {
        push_str(out, "true");
    } else {
        push_str(out, "false");
    }
    push_str(out, "\n");
    push_str(out, "  clips:\n");
    assert(out@ =~= before + autocut_analysis_lines(*a));
}

fn push_planned_autocut(out: &mut Vec<char>, a: &PlannedAutoCut)
    requires
        forall|k: int| 0 <= k < a.clips@.len() ==> (#[trigger] a.clips@[k]).index < usize::MAX,
    ensures
        final(out)@ == old(out)@ + planned_autocut_text(*a),
{
    let ghost before = out@;
    push_autocut_source_lines(out, a);
    push_autocut_analysis_lines(out, a);
    let ghost head = out@;
    let mut k: usize = 0;
    while k < a.clips.len()
        invariant
            0 <= k <= a.clips@.len(),
            forall|j: int| 0 <= j < a.clips@.len() ==> (#[trigger] a.clips@[j]).index < usize::MAX,
            out@ == head + autocut_clip_lines(a.clips@.take(k as int)),
        decreases a.clips.len() - k,
    {
        push_autocut_clip_line(out, &a.clips[k]);
        proof {
            assert(a.clips@.take(k + 1).drop_last() =~= a.clips@.take(k as int));
        }
        k += 1;
    }
    assert(a.clips@.take(k as int) =~= a.clips@);
    assert(out@ =~= before + planned_autocut_text(*a));
}

/// The AutoCut plan as text: for each AutoCut its input, durations, output
/// mode, what the analysis found, and its clips.
pub fn format_autocut_plan(plan: &AutoCutPlan) -> (r: String)
    requires
        autocut_plan_numbered(*plan),
    ensures
        r@ == autocut_plan_text(plan.auto_cuts@),
{
    let mut out: Vec<char> = Vec::new();
    let mut a: usize = 0;
    while a < plan.auto_cuts.len()
        invariant
            0 <= a <= plan.auto_cuts@.len(),
            autocut_plan_numbered(*plan),
            out@ == autocut_plan_text(plan.auto_cuts@.take(a as int)),
        decreases plan.auto_cuts.len() - a,
    {
        proof {
            assert forall|k: int| 0 <= k < plan.auto_cuts@[a as int].clips@.len() implies (
            #[trigger] plan.auto_cuts@[a as int].clips@[k]).index < usize::MAX by {}
        }
        push_planned_autocut(&mut out, &plan.auto_cuts[a]);
        proof {
            assert(plan.auto_cuts@.take(a + 1).drop_last() =~= plan.auto_cuts@.take(a as int));
        }
        a += 1;
    }
    assert(plan.auto_cuts@.take(a as int) =~= plan.auto_cuts@);
    string_from_chars(&out)
}

pub open spec fn plan_input_line(i: PlannedInput) -> Seq<char> {
    "  "@ + i.name@ + "  "@ + i.path@ + "  duration "@ + match i.duration {
        Some(d) => d@,
        None => "unknown"@,
    } + "\n"@
}

pub open spec fn plan_input_lines(inputs: Seq<PlannedInput>) -> Seq<char>
    decreases inputs.len(),
{
    if inputs.len() == 0 {
        Seq::empty()
    } else {
        plan_input_lines(inputs.drop_last()) + plan_input_line(inputs.last())
    }
}

pub open spec fn plan_clip_lines_of(p: PlannedClip) -> Seq<char> {
    let c = p.clip;
    "  "@ + decimal((c.index + 1) as nat) + "  "@ + c.input@ + "  "@ + shown(c.start@) + " -> "@
        + shown(c.end@) + "  out "@ + shown(c.output_start@) + " -> "@ + shown(
        c.output_end@,
    ) + "  cache "@ + (if p.cache_exists {
        "hit"@
    } else {
        "miss"@
    }) + "  "@ + p.cache_key@ + "\n"@ + "      "@ + p.ffmpeg@ + "\n"@
}

pub open spec fn plan_clip_lines(clips: Seq<PlannedClip>) -> Seq<char>
    decreases clips.len(),
{
    if clips.len() == 0 {
        Seq::empty()
    } else {
        plan_clip_lines(clips.drop_last()) + plan_clip_lines_of(clips.last())
    }
}

pub open spec fn plan_chapter_lines(chapters: Seq<PlannedChapter>) -> Seq<char>
    decreases chapters.len(),
{
    if chapters.len() == 0 {
        Seq::empty()
    } else {
        plan_chapter_lines(chapters.drop_last()) + "  "@ + chapters.last().time@ + "  "@
            + chapters.last().title@ + "\n"@
    }
}

/// The plan as text: the output, the inputs with their durations, each
/// clip with its range, output times, cache status and command, and the
/// chapters where there are any.
pub open spec fn plan_text(plan: Plan) -> Seq<char> {
    "Output: "@ + plan.output_path@ + "\n"@ + "\n"@ + "Inputs:\n"@ + plan_input_lines(plan.inputs@)
        + "\n"@ + "Clips:\n"@ + plan_clip_lines(plan.clips@) + if plan.chapters@.len() == 0 {
        Seq::empty()
    } else {
        "\n"@ + "Chapters:\n"@ + plan_chapter_lines(plan.chapters@)
    }
}

fn push_plan_inputs(out: &mut Vec<char>, inputs: &Vec<PlannedInput>)
    ensures
        final(out)@ == old(out)@ + plan_input_lines(inputs@),
{
    let ghost start = out@;
    let mut k: usize = 0;
    while k < inputs.len()
        invariant
            0 <= k <= inputs@.len(),
            out@ == start + plan_input_lines(inputs@.take(k as int)),
        decreases inputs.len() - k,
    {
        let i = &inputs[k];
        let ghost before = out@;
        push_str(out, "  ");
        push_str(out, i.name.as_str());
        push_str(out, "  ");
        push_str(out, i.path.as_str());
        push_str(out, "  duration ");
        match &i.duration {
            Some(d) => push_str(out, d.as_str()),
            None => push_str(out, "unknown"),
        }
        push_str(out, "\n");
        proof {
            assert(out@ =~= before + plan_input_line(*i));
            assert(inputs@.take(k + 1).drop_last() =~= inputs@.take(k as int));
        }
        k += 1;
    }
    assert(inputs@.take(k as int) =~= inputs@);
}

pub open spec fn plan_clip_range(c: Clip) -> Seq<char> {
    "  "@ + decimal((c.index + 1) as nat) + "  "@ + c.input@ + "  "@ + shown(c.start@) + " -> "@
        + shown(c.end@)
}

pub open spec fn plan_clip_cache(p: PlannedClip) -> Seq<char> {
    "  out "@ + shown(p.clip.output_start@) + " -> "@ + shown(p.clip.output_end@)
        + "  cache "@ + (if p.cache_exists {
        "hit"@
    } else {
        "miss"@
    }) + "  "@ + p.cache_key@ + "\n"@
}

fn plan_clip_range_text(c: &Clip) -> (r: Vec<char>)
    requires
        c.index < usize::MAX,
    ensures
        r@ == plan_clip_range(*c),
{
    let mut line: Vec<char> = Vec::new();
    push_str(&mut line, "  ");
    push_decimal(&mut line, (c.index + 1) as u64);
    push_str(&mut line, "  ");
    push_str(&mut line, c.input.as_str());
    push_str(&mut line, "  ");
    let t = show(c.start);
    push_str(&mut line, t.as_str());
    push_str(&mut line, " -> ");
    let t = show(c.end);
    push_str(&mut line, t.as_str());
    assert(line@ =~= plan_clip_range(*c));
    line
}

fn plan_clip_cache_text(p: &PlannedClip) -> (r: Vec<char>)
    ensures
        r@ == plan_clip_cache(*p),
{
    let c = &p.clip;
    let mut line: Vec<char> = Vec::new();
    push_str(&mut line, "  out ");
    let t = show(c.output_start);
    push_str(&mut line, t.as_str());
    push_str(&mut line, " -> ");
    let t = show(c.output_end);
    push_str(&mut line, t.as_str());
    push_str(&mut line, "  cache ");
    if p.cache_exists {
        push_str(&mut line, "hit");
    } else {
        push_str(&mut line, "miss");
    }
    push_str(&mut line, "  ");
    push_str(&mut line, p.cache_key.as_str());
    push_str(&mut line, "\n");
    assert(line@ =~= plan_clip_cache(*p));
    line
}

fn push_plan_clip(out: &mut Vec<char>, p: &PlannedClip)
    requires
        p.clip.index < usize::MAX,
    ensures
        final(out)@ == old(out)@ + plan_clip_lines_of(*p),
{
    let ghost before = out@;
    let a = plan_clip_range_text(&p.clip);
    let b = plan_clip_cache_text(p);
    push_chars(out, &a);
    push_chars(out, &b);
    push_str(out, "      ");
    push_str(out, p.ffmpeg.as_str());
    push_str(out, "\n");
    assert(plan_clip_lines_of(*p) =~= plan_clip_range(p.clip) + plan_clip_cache(*p) + "      "@
        + p.ffmpeg@ + "\n"@);
    assert(out@ =~= before + plan_clip_lines_of(*p));
}

fn push_plan_chapters(out: &mut Vec<char>, chapters: &Vec<PlannedChapter>)
    ensures
        final(out)@ == old(out)@ + plan_chapter_lines(chapters@),
{
    let ghost start = out@;
    let mut k: usize = 0;
    while k < chapters.len()
        invariant
            0 <= k <= chapters@.len(),
            out@ == start + plan_chapter_lines(chapters@.take(k as int)),
        decreases chapters.len() - k,
    {
        let ghost before = out@;
        push_str(out, "  ");
        push_str(out, chapters[k].time.as_str());
        push_str(out, "  ");
        push_str(out, chapters[k].title.as_str());
        push_str(out, "\n");
        proof {
            assert(chapters@.take(k + 1).drop_last() =~= chapters@.take(k as int));
            assert(out@ =~= start + plan_chapter_lines(chapters@.take(k + 1)));
        }
        k += 1;
    }
    assert(chapters@.take(k as int) =~= chapters@);
}

/// The plan as the `plan` command shows it.
pub fn format_plan(plan: &Plan) -> (r: String)
    requires
        forall|k: int| 0 <= k < plan.clips@.len() ==> (#[trigger] plan.clips@[k]).clip.index < usize::MAX,
    ensures
        r@ == plan_text(*plan),
{
    let mut out: Vec<char> = Vec::new();
    push_str(&mut out, "Output: ");
    push_str(&mut out, plan.output_path.as_str());
    push_str(&mut out, "\n");
    push_str(&mut out, "\n");
    push_str(&mut out, "Inputs:\n");
    push_plan_inputs(&mut out, &plan.inputs);
    push_str(&mut out, "\n");
    push_str(&mut out, "Clips:\n");
    let ghost head = out@;
    let mut k: usize = 0;
    while k < plan.clips.len()
        invariant
            0 <= k <= plan.clips@.len(),
            forall|j: int| 0 <= j < plan.clips@.len() ==> (#[trigger] plan.clips@[j]).clip.index < usize::MAX,
            out@ == head + plan_clip_lines(plan.clips@.take(k as int)),
        decreases plan.clips.len() - k,
    {
        push_plan_clip(&mut out, &plan.clips[k]);
        proof {
            assert(plan.clips@.take(k + 1).drop_last() =~= plan.clips@.take(k as int));
        }
        k += 1;
    }
    assert(plan.clips@.take(k as int) =~= plan.clips@);
    let ghost body = out@;
    if plan.chapters.len() > 0 {
        push_str(&mut out, "\n");
        push_str(&mut out, "Chapters:\n");
        push_plan_chapters(&mut out, &plan.chapters);
        assert(out@ =~= plan_text(*plan));
    } else {
        assert(out@ =~= plan_text(*plan));
    }
    string_from_chars(&out)
}

/// A render writes its output only where nothing is there yet, or where it
/// is told to overwrite.
pub fn refuse_overwrite(output_path: &str, exists: bool, force: bool) -> (r: core::result::Result<(), String>)
    ensures
        (exists && !force) ==> (r matches Err(m) && m@ == "output file already exists: "@ + output_path@
            + "\nhint: pass --force to overwrite"@),
        !(exists && !force) ==> r is Ok,
{
    if exists && !force {
        let mut out: Vec<char> = Vec::new();
        push_str(&mut out, "output file already exists: ");
        push_str(&mut out, output_path);
        push_str(&mut out, "\nhint: pass --force to overwrite");
        Err(string_from_chars(&out))
    } else {
        Ok(())
    }
}

} // verus!
