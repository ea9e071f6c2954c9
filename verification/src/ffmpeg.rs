//! The ffmpeg command lines that render a clip, join the clips, and render
//! a story preview.
use vstd::prelude::*;

use crate::config::RenderConfig;
use crate::model::{find_input, input_index, lemma_input_index, Clip, NormalizedProject};
use crate::error::{CutlineError, ErrorKind, Result};
use crate::paths::{parent_path, path_file_stem, path_file_stem_of, path_join, path_parent, join_path};
use crate::planner::{Plan, PlannedClip};
use crate::text::{
    debug_quoted, debug_str, decimal, decimal_chars, push_str, push_string, push_strings,
    string_from_chars, string_of, string_views,
};
use crate::time::{ffmpeg_seconds_text, TimeValue};

verus! {

/// A program and its arguments.
#[derive(Debug, Clone)]
pub struct FfmpegCommand {
    pub program: String,
    pub args: Vec<String>,
}

/// The arguments, each after a space.
pub open spec fn spaced(args: Seq<Seq<char>>) -> Seq<char>
    decreases args.len(),
{
    if args.len() == 0 {
        Seq::empty()
    } else {
        spaced(args.drop_last()) + " "@ + args.last()
    }
}

/// A command as one line: the program, then its arguments, separated by
/// spaces.
pub open spec fn command_line(program: Seq<char>, args: Seq<Seq<char>>) -> Seq<char> {
    program + spaced(args)
}

impl FfmpegCommand {
    /// The command as one line.
    pub fn display(&self) -> (r: String)
        ensures
            r@ == command_line(self.program@, string_views(self.args@)),
    {
        let mut out: Vec<char> = Vec::new();
        push_str(&mut out, self.program.as_str());
        let ghost args = string_views(self.args@);
        let mut i: usize = 0;
        while i < self.args.len()
            invariant
                0 <= i <= self.args@.len(),
                args == string_views(self.args@),
                out@ == self.program@ + spaced(args.take(i as int)),
            decreases self.args.len() - i,
        {
            push_str(&mut out, " ");
            push_str(&mut out, self.args[i].as_str());
            proof {
                assert(args.take(i + 1).drop_last() =~= args.take(i as int));
                assert(args[i as int] == self.args@[i as int]@);
            }
            i += 1;
        }
        assert(args.take(i as int) =~= args);
        string_from_chars(&out)
    }
}

pub open spec fn opt_text(o: Option<String>) -> Option<Seq<char>> {
    match o {
        Some(s) => Some(s@),
        None => None,
    }
}

pub open spec fn opt_number(o: Option<u8>) -> Option<Seq<char>> {
    match o {
        Some(n) => Some(decimal(n as nat)),
        None => None,
    }
}

pub open spec fn opt_args(flag: Seq<char>, value: Option<Seq<char>>) -> Seq<Seq<char>> {
    match value {
        Some(v) => seq![flag, v],
        None => Seq::empty(),
    }
}

/// The arguments before a clip's effects: seek to the clip in the input.
pub open spec fn clip_head_args(render: RenderConfig, input_path: Seq<char>, clip: Clip) -> Seq<Seq<char>> {
    seq!["-hide_banner"@, "-y"@] + string_views(render.extra.input_args@) + seq![
        "-ss"@,
        ffmpeg_seconds_text(clip.start@),
        "-to"@,
        ffmpeg_seconds_text(clip.end@),
        "-i"@,
        input_path,
    ]
}

/// The filters of a clip's effects: a box blur, silence.
pub open spec fn effect_args(blur: bool, mute: bool) -> Seq<Seq<char>> {
    (if blur {
        seq!["-vf"@, "boxblur=20:1"@]
    } else {
        Seq::empty()
    }) + (if mute {
        seq!["-af"@, "volume=0"@]
    } else {
        Seq::empty()
    })
}

/// The encoding settings, then the extra output arguments and the output.
pub open spec fn encode_args(render: RenderConfig, output: Seq<char>) -> Seq<Seq<char>> {
    seq![
        "-c:v"@,
        render.video_codec@,
        "-b:v"@,
        render.video_bitrate@,
        "-pix_fmt"@,
        render.pixel_format@,
        "-c:a"@,
        render.audio_codec@,
        "-b:a"@,
        render.audio_bitrate@,
    ] + opt_args("-preset"@, opt_text(render.preset)) + opt_args("-crf"@, opt_number(render.crf))
        + string_views(render.extra.output_args@) + seq![output]
}

/// The arguments that render `clip` of the input at `input_path` into
/// `output`: seek to the clip, apply its effects, encode as configured.
pub open spec fn clip_render_args(render: RenderConfig, input_path: Seq<char>, clip: Clip, output: Seq<char>) -> Seq<
    Seq<char>,
> {
    clip_head_args(render, input_path, clip) + effect_args(clip.blur, clip.mute) + encode_args(
        render,
        output,
    )
}

fn push_clip_head(args: &mut Vec<String>, render: &RenderConfig, input_path: &str, clip: &Clip)
    ensures
        string_views(final(args)@) == string_views(old(args)@) + clip_head_args(*render, input_path@, *clip),
{
    let ghost before = string_views(args@);
    push_string(args, "-hide_banner");
    push_string(args, "-y");
    push_strings(args, &render.extra.input_args);
    push_string(args, "-ss");
    let start = clip.start.as_ffmpeg_seconds();
    push_string(args, start.as_str());
    push_string(args, "-to");
    let end = clip.end.as_ffmpeg_seconds();
    push_string(args, end.as_str());
    push_string(args, "-i");
    push_string(args, input_path);
    assert(string_views(args@) =~= before + clip_head_args(*render, input_path@, *clip));
}

fn push_effects(args: &mut Vec<String>, blur: bool, mute: bool)
    ensures
        string_views(final(args)@) == string_views(old(args)@) + effect_args(blur, mute),
{
    let ghost before = string_views(args@);
    if blur {
        push_string(args, "-vf");
        push_string(args, "boxblur=20:1");
    }
    let ghost mid = string_views(args@);
    if mute {
        push_string(args, "-af");
        push_string(args, "volume=0");
    }
    assert(string_views(args@) =~= before + effect_args(blur, mute));
}

fn push_encoding(args: &mut Vec<String>, render: &RenderConfig, output: &str)
    ensures
        string_views(final(args)@) == string_views(old(args)@) + encode_args(*render, output@),
{
    let ghost before = string_views(args@);
    push_string(args, "-c:v");
    push_string(args, render.video_codec.as_str());
    push_string(args, "-b:v");
    push_string(args, render.video_bitrate.as_str());
    push_string(args, "-pix_fmt");
    push_string(args, render.pixel_format.as_str());
    push_string(args, "-c:a");
    push_string(args, render.audio_codec.as_str());
    push_string(args, "-b:a");
    push_string(args, render.audio_bitrate.as_str());
    let ghost codecs = string_views(args@);
    match &render.preset {
        Some(p) => {
            push_string(args, "-preset");
            push_string(args, p.as_str());
        },
        None => {},
    }
    let ghost with_preset = string_views(args@);
    assert(with_preset =~= codecs + opt_args("-preset"@, opt_text(render.preset)));
    match render.crf {
        Some(c) => {
            push_string(args, "-crf");
            let d = decimal_chars(c as u64);
            let ds = string_from_chars(&d);
            push_string(args, ds.as_str());
        },
        None => {},
    }
    let ghost with_crf = string_views(args@);
    assert(with_crf =~= with_preset + opt_args("-crf"@, opt_number(render.crf)));
    push_strings(args, &render.extra.output_args);
    push_string(args, output);
    assert(string_views(args@) =~= before + encode_args(*render, output@));
}

/// The ffmpeg command that renders a planned clip into `output_path`; the
/// clip's input must be one of the project's.
pub fn clip_render_command(project: &NormalizedProject, planned: &PlannedClip, output_path: &str) -> (r:
    Result<FfmpegCommand>)
    ensures
        match input_index(project.inputs@, planned.clip.input@) {
            None => r matches Err(e) && e@ == (
                ErrorKind::InvalidProject,
                "unknown input "@ + debug_str(planned.clip.input@),
            ),
            Some(i) => r matches Ok(c) && c.program@ == "ffmpeg"@ && string_views(c.args@)
                == clip_render_args(project.render, project.inputs@[i].path@, planned.clip, output_path@),
        },
{
    let clip = &planned.clip;
    proof {
        lemma_input_index(project.inputs@, clip.input@);
    }
    let i = match find_input(&project.inputs, clip.input.as_str()) {
        Some(i) => i,
        None => {
            let mut out: Vec<char> = Vec::new();
            push_str(&mut out, "unknown input ");
            let q = debug_quoted(clip.input.as_str());
            push_str(&mut out, q.as_str());
            return Err(CutlineError::InvalidProject(string_from_chars(&out)));
        },
    };
    let mut args: Vec<String> = Vec::new();
    push_clip_head(&mut args, &project.render, project.inputs[i].path.as_str(), clip);
    push_effects(&mut args, clip.blur, clip.mute);
    push_encoding(&mut args, &project.render, output_path);
    proof {
        let a = clip_head_args(project.render, project.inputs@[i as int].path@, *clip);
        let b = effect_args(clip.blur, clip.mute);
        let c = encode_args(project.render, output_path@);
        assert(Seq::<Seq<char>>::empty() + a =~= a);
        assert(string_views(args@) =~= a + b + c);
    }
    Ok(FfmpegCommand { program: string_of("ffmpeg"), args })
}

/// The arguments that join the clips listed in `list_path` into `output`
/// without encoding again.
pub open spec fn concat_args(list_path: Seq<char>, output: Seq<char>) -> Seq<Seq<char>> {
    seq![
        "-hide_banner"@,
        "-y"@,
        "-f"@,
        "concat"@,
        "-safe"@,
        "0"@,
        "-i"@,
        list_path,
        "-c"@,
        "copy"@,
        output,
    ]
}

/// The ffmpeg command that joins the clips listed in `list_path` into
/// `output_path`.
pub fn concat_command(list_path: &str, output_path: &str) -> (r: FfmpegCommand)
    ensures
        r.program@ == "ffmpeg"@,
        string_views(r.args@) == concat_args(list_path@, output_path@),
{
    let mut args: Vec<String> = Vec::new();
    push_string(&mut args, "-hide_banner");
    push_string(&mut args, "-y");
    push_string(&mut args, "-f");
    push_string(&mut args, "concat");
    push_string(&mut args, "-safe");
    push_string(&mut args, "0");
    push_string(&mut args, "-i");
    push_string(&mut args, list_path);
    push_string(&mut args, "-c");
    push_string(&mut args, "copy");
    push_string(&mut args, output_path);
    assert(string_views(args@) =~= concat_args(list_path@, output_path@));
    FfmpegCommand { program: string_of("ffmpeg"), args }
}

/// The arguments that render a vertical preview: the background looped for
/// `duration`, cropped to 1080x1920, the subtitles burnt in, without sound.
pub open spec fn story_preview_args(
    background: Seq<char>,
    subtitles: Seq<char>,
    duration: nat,
    output: Seq<char>,
) -> Seq<Seq<char>> {
    seq![
        "-hide_banner"@,
        "-y"@,
        "-stream_loop"@,
        "-1"@,
        "-i"@,
        background,
        "-t"@,
        ffmpeg_seconds_text(duration),
        "-vf"@,
        "scale=1080:1920:force_original_aspect_ratio=increase,crop=1080:1920,subtitles="@
            + subtitles,
        "-an"@,
        "-c:v"@,
        "libx264"@,
        "-pix_fmt"@,
        "yuv420p"@,
        output,
    ]
}

pub fn story_preview_render_args(
    background: &str,
    subtitles: &str,
    duration: TimeValue,
    output: &str,
) -> (r: Vec<String>)
    ensures
        string_views(r@) == story_preview_args(background@, subtitles@, duration@, output@),
{
    let mut args: Vec<String> = Vec::new();
    push_string(&mut args, "-hide_banner");
    push_string(&mut args, "-y");
    push_string(&mut args, "-stream_loop");
    push_string(&mut args, "-1");
    push_string(&mut args, "-i");
    push_string(&mut args, background);
    push_string(&mut args, "-t");
    let t = duration.as_ffmpeg_seconds();
    push_string(&mut args, t.as_str());
    push_string(&mut args, "-vf");
    let mut filter: Vec<char> = Vec::new();
    push_str(&mut filter, "scale=1080:1920:force_original_aspect_ratio=increase,crop=1080:1920,subtitles=");
    push_str(&mut filter, subtitles);
    let f = string_from_chars(&filter);
    push_string(&mut args, f.as_str());
    push_string(&mut args, "-an");
    push_string(&mut args, "-c:v");
    push_string(&mut args, "libx264");
    push_string(&mut args, "-pix_fmt");
    push_string(&mut args, "yuv420p");
    push_string(&mut args, output);
    assert(string_views(args@) =~= story_preview_args(background@, subtitles@, duration@, output@));
    args
}

/// Where a clip is rendered before it takes its place in the cache: beside
/// it, as `<stem>.partial.mp4`.
pub open spec fn temp_path_of(cache_path: Seq<char>) -> Seq<char> {
    let dir = match path_parent(cache_path) {
        Some(d) => d,
        None => Seq::empty(),
    };
    let stem = match path_file_stem(cache_path) {
        Some(s) => s,
        None => "clip"@,
    };
    path_join(dir, stem + ".partial.mp4"@)
}

pub fn temp_clip_path(cache_path: &str) -> (r: String)
    ensures
        r@ == temp_path_of(cache_path@),
{
    let dir = match parent_path(cache_path) {
        Some(d) => d,
        None => String::new(),
    };
    let stem = match path_file_stem_of(cache_path) {
        Some(s) => s,
        None => string_of("clip"),
    };
    let mut name: Vec<char> = Vec::new();
    push_str(&mut name, stem.as_str());
    push_str(&mut name, ".partial.mp4");
    let n = string_from_chars(&name);
    join_path(dir.as_str(), n.as_str())
}

/// The commands this module renders a whole plan with: none. A plan's clip
/// commands come from `planner::render_commands`, its final join from
/// `planner::final_concat_command`.
pub fn render_commands(_plan: &Plan) -> (r: Vec<FfmpegCommand>)
    ensures
        r@.len() == 0,
{
    Vec::new()
}

} // verus!
