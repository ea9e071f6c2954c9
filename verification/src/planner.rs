//! The render plan of a project: each clip with its cache key, cache file
//! and ffmpeg command, the inputs, and the chapters.
use vstd::prelude::*;

use camino::Utf8Path;

use crate::cache::{cache_dir, cache_dir_of, concat_list_path, work_dir_of};
use crate::config::RenderConfig;
use crate::digest::{hex, sha256_hex, sha256_of};
use crate::error::{CutlineError, ErrorKind, Result};
use crate::ffmpeg::{
    clip_render_args, clip_render_command, command_line, concat_args, concat_command,
    temp_clip_path, temp_path_of, FfmpegCommand,
};
use crate::model::{input_index, lemma_input_index, Clip, Input, InputMetadata, NormalizedProject};
use crate::paths::{join_path, path_join};
use crate::story::clone_opt_string;
use crate::text::{
    debug_quoted, debug_str, decimal, push_chars, push_decimal, push_signed_decimal, push_str,
    signed_decimal, str_chars, string_from_chars, string_of, string_views,
};
use crate::time::display_text;
use vstd::utf8::encode_utf8;

verus! {

/// The version of the plan format, the first thing a cache key hashes.
pub open spec fn schema_version() -> Seq<char> {
    "cutline-plan-v1"@
}

#[derive(Debug, Clone)]
pub struct Plan {
    pub output_path: String,
    pub concat_list_path: String,
    pub inputs: Vec<PlannedInput>,
    pub clips: Vec<PlannedClip>,
    pub chapters: Vec<PlannedChapter>,
}

#[derive(Debug, Clone)]
pub struct PlannedInput {
    pub name: String,
    pub path: String,
    pub duration: Option<String>,
}

#[derive(Debug, Clone)]
pub struct PlannedClip {
    pub clip: Clip,
    pub cache_key: String,
    pub cache_path: String,
    pub cache_exists: bool,
    pub ffmpeg: String,
}

#[derive(Debug, Clone)]
pub struct PlannedChapter {
    pub time: String,
    pub title: String,
}

// ---------------------------------------------------------------- cache keys

/// A text as the cache key takes it in: its length in bytes, a colon, the
/// text, a semicolon.
pub open spec fn keyed_str(s: Seq<char>) -> Seq<char> {
    decimal(encode_utf8(s).len()) + ":"@ + s + ";"@
}

pub open spec fn keyed_opt_str(v: Option<String>) -> Seq<char> {
    match v {
        Some(s) => "some:"@ + keyed_str(s@),
        None => "none;"@,
    }
}

pub open spec fn keyed_opt_u8(v: Option<u8>) -> Seq<char> {
    match v {
        Some(n) => "some:"@ + decimal(n as nat),
        None => "none;"@,
    }
}

pub open spec fn keyed_all(args: Seq<Seq<char>>) -> Seq<char>
    decreases args.len(),
{
    if args.len() == 0 {
        Seq::empty()
    } else {
        keyed_all(args.drop_last()) + keyed_str(args.last())
    }
}

pub open spec fn metadata_key(md: Option<InputMetadata>) -> Seq<char> {
    match md {
        Some(m) => decimal(m.size_bytes as nat) + match m.modified_unix_millis {
            Some(t) => signed_decimal(t as int),
            None => Seq::empty(),
        },
        None => Seq::empty(),
    }
}

pub open spec fn render_key(render: RenderConfig) -> Seq<char> {
    keyed_str(render.video_codec@) + keyed_str(render.audio_codec@) + keyed_str(
        render.video_bitrate@,
    ) + keyed_str(render.audio_bitrate@) + keyed_str(render.pixel_format@) + keyed_str(
        render.container@,
    ) + keyed_opt_str(render.preset) + keyed_opt_u8(render.crf) + keyed_all(
        string_views(render.extra.input_args@),
    ) + keyed_all(string_views(render.extra.output_args@))
}

pub open spec fn effects_key(blur: bool, mute: bool) -> Seq<char> {
    (if blur {
        "blur=1"@
    } else {
        "blur=0"@
    }) + (if mute {
        "mute=1"@
    } else {
        "mute=0"@
    })
}

/// What a clip's cache key hashes: the plan version, the render settings,
/// the clip's place and input, the input's path, size and modification
/// time, the clip's range, and its effects.
pub open spec fn cache_key_preimage(render: RenderConfig, input: Input, clip: Clip) -> Seq<char> {
    schema_version() + render_key(render) + decimal(clip.index as nat) + keyed_str(clip.input@)
        + keyed_str(input.path@) + metadata_key(input.metadata) + decimal(clip.start@) + decimal(
        clip.end@,
    ) + effects_key(clip.blur, clip.mute)
}

/// A clip's cache key: the SHA-256 of its preimage's UTF-8 bytes, in hex.
pub open spec fn cache_key_of(render: RenderConfig, input: Input, clip: Clip) -> Seq<char> {
    hex(sha256_of(encode_utf8(cache_key_preimage(render, input, clip))))
}

fn push_keyed(out: &mut Vec<char>, s: &str)
    ensures
        final(out)@ == old(out)@ + keyed_str(s@),
{
    let bytes = s.as_bytes();
    push_decimal(out, bytes.len() as u64);
    push_str(out, ":");
    push_str(out, s);
    push_str(out, ";");
    proof {
        reveal_strlit(":");
        reveal_strlit(";");
    }
    assert(final(out)@ =~= old(out)@ + keyed_str(s@));
}

fn push_keyed_all(out: &mut Vec<char>, args: &Vec<String>)
    ensures
        final(out)@ == old(out)@ + keyed_all(string_views(args@)),
{
    let ghost start = out@;
    let ghost views = string_views(args@);
    let mut i: usize = 0;
    while i < args.len()
        invariant
            0 <= i <= args@.len(),
            views == string_views(args@),
            out@ == start + keyed_all(views.take(i as int)),
        decreases args.len() - i,
    {
        push_keyed(out, args[i].as_str());
        proof {
            assert(views.take(i + 1).drop_last() =~= views.take(i as int));
            assert(views[i as int] == args@[i as int]@);
        }
        i += 1;
    }
    assert(views.take(i as int) =~= views);
}

pub open spec fn render_strings_key(render: RenderConfig) -> Seq<char> {
    keyed_str(render.video_codec@) + keyed_str(render.audio_codec@) + keyed_str(
        render.video_bitrate@,
    ) + keyed_str(render.audio_bitrate@) + keyed_str(render.pixel_format@) + keyed_str(
        render.container@,
    )
}

fn push_render_strings(out: &mut Vec<char>, render: &RenderConfig)
    ensures
        final(out)@ == old(out)@ + render_strings_key(*render),
{
    let ghost s0 = out@;
    push_keyed(out, render.video_codec.as_str());
    let ghost s1 = out@;
    push_keyed(out, render.audio_codec.as_str());
    let ghost s2 = out@;
    push_keyed(out, render.video_bitrate.as_str());
    let ghost s3 = out@;
    push_keyed(out, render.audio_bitrate.as_str());
    let ghost s4 = out@;
    push_keyed(out, render.pixel_format.as_str());
    let ghost s5 = out@;
    push_keyed(out, render.container.as_str());
    assert(out@ =~= s0 + render_strings_key(*render));
}

fn push_opt_keys(out: &mut Vec<char>, preset: &Option<String>, crf: Option<u8>)
    ensures
        final(out)@ == old(out)@ + keyed_opt_str(*preset) + keyed_opt_u8(crf),
{
    let ghost s0 = out@;
    match preset {
        Some(p) => {
            push_str(out, "some:");
            push_keyed(out, p.as_str());
        },
        None => push_str(out, "none;"),
    }
    let ghost s1 = out@;
    assert(s1 =~= s0 + keyed_opt_str(*preset));
    match crf {
        Some(c) => {
            push_str(out, "some:");
            push_decimal(out, c as u64);
        },
        None => push_str(out, "none;"),
    }
    assert(out@ =~= s1 + keyed_opt_u8(crf));
}

fn push_render_key(out: &mut Vec<char>, render: &RenderConfig)
    ensures
        final(out)@ == old(out)@ + render_key(*render),
{
    let ghost s0 = out@;
    push_render_strings(out, render);
    let ghost s1 = out@;
    push_opt_keys(out, &render.preset, render.crf);
    let ghost s2 = out@;
    push_keyed_all(out, &render.extra.input_args);
    let ghost s3 = out@;
    push_keyed_all(out, &render.extra.output_args);
    assert(render_key(*render) == render_strings_key(*render) + keyed_opt_str(render.preset)
        + keyed_opt_u8(render.crf) + keyed_all(string_views(render.extra.input_args@)) + keyed_all(
        string_views(render.extra.output_args@),
    ));
    assert(out@ =~= s0 + render_key(*render));
}

fn push_metadata_key(out: &mut Vec<char>, metadata: &Option<InputMetadata>)
    ensures
        final(out)@ == old(out)@ + metadata_key(*metadata),
{
    let ghost before = out@;
    match metadata {
        Some(md) => {
            push_decimal(out, md.size_bytes);
            let ghost mid = out@;
            match md.modified_unix_millis {
                Some(t) => push_signed_decimal(out, t),
                None => {},
            }
            assert(out@ =~= before + metadata_key(*metadata));
        },
        None => {
            assert(out@ =~= before + metadata_key(*metadata));
        },
    }
}

fn push_effects_key(out: &mut Vec<char>, blur: bool, mute: bool)
    ensures
        final(out)@ == old(out)@ + effects_key(blur, mute),
{
    let ghost before = out@;
    if blur {
        push_str(out, "blur=1");
    } else {
        push_str(out, "blur=0");
    }
    if mute {
        push_str(out, "mute=1");
    } else {
        push_str(out, "mute=0");
    }
    assert(out@ =~= before + effects_key(blur, mute));
}

/// The preimage of a clip's cache key.
pub fn clip_cache_preimage(project: &NormalizedProject, input: &Input, clip: &Clip) -> (r: Vec<char>)
    ensures
        r@ == cache_key_preimage(project.render, *input, *clip),
{
    let mut out: Vec<char> = Vec::new();
    push_str(&mut out, "cutline-plan-v1");
    push_render_key(&mut out, &project.render);
    push_decimal(&mut out, clip.index as u64);
    push_keyed(&mut out, clip.input.as_str());
    push_keyed(&mut out, input.path.as_str());
    push_metadata_key(&mut out, &input.metadata);
    push_decimal(&mut out, clip.start.millis());
    push_decimal(&mut out, clip.end.millis());
    push_effects_key(&mut out, clip.blur, clip.mute);
    proof {
        reveal_strlit("cutline-plan-v1");
        assert(out@ =~= cache_key_preimage(project.render, *input, *clip));
    }
    out
}

/// A clip's cache key.
pub fn clip_cache_key(project: &NormalizedProject, input: &Input, clip: &Clip) -> (r: String)
    ensures
        r@ == cache_key_of(project.render, *input, *clip),
{
    let preimage = string_from_chars(&clip_cache_preimage(project, input, clip));
    let digest = sha256_hex(preimage.as_str().as_bytes());
    string_from_chars(&digest)
}

/// Clips that differ in an effect have different cache key preimages, so
/// a changed effect is never served from the cache of the other.
pub proof fn law_cache_preimage_tracks_effects(render: RenderConfig, input: Input, a: Clip, b: Clip)
    requires
        a.index == b.index,
        a.input@ == b.input@,
        a.start == b.start,
        a.end == b.end,
        a.blur != b.blur || a.mute != b.mute,
    ensures
        cache_key_preimage(render, input, a) != cache_key_preimage(render, input, b),
{
    let pa = cache_key_preimage(render, input, a);
    let pb = cache_key_preimage(render, input, b);
    let head = schema_version() + render_key(render) + decimal(a.index as nat) + keyed_str(a.input@)
        + keyed_str(input.path@) + metadata_key(input.metadata) + decimal(a.start@) + decimal(a.end@);
    assert(pa == head + effects_key(a.blur, a.mute));
    assert(pb == head + effects_key(b.blur, b.mute));
    reveal_strlit("blur=1");
    reveal_strlit("blur=0");
    reveal_strlit("mute=1");
    reveal_strlit("mute=0");
    let n: int = head.len() as int;
    if a.blur != b.blur {
        assert(pa[n + 5] != pb[n + 5]);
    } else {
        assert(pa[n + 11] != pb[n + 11]);
    }
}

/// Texts that differ only in a middle part differ.
proof fn lemma_middle_differs(head: Seq<char>, x: Seq<char>, y: Seq<char>, tail: Seq<char>)
    requires
        x != y,
    ensures
        head + x + tail != head + y + tail,
{
    let p = head + x + tail;
    let q = head + y + tail;
    if x.len() == y.len() {
        let i = choose|i: int| 0 <= i < x.len() && x[i] != y[i];
        if !(0 <= i < x.len() && x[i] != y[i]) {
            assert(x =~= y);
        }
        assert(p[head.len() + i] == x[i]);
        assert(q[head.len() + i] == y[i]);
    } else {
        assert(p.len() != q.len());
    }
}

/// Different numbers have different decimal texts.
proof fn lemma_decimal_differs(m: nat, n: nat)
    requires
        m != n,
    ensures
        decimal(m) != decimal(n),
{
    crate::text::lemma_decimal(m);
    crate::text::lemma_decimal(n);
}

/// Clips that differ in where they start, or in where they end, but not in
/// both, have different cache key preimages: an edited range is never
/// served from the cache of the old one.
pub proof fn law_cache_preimage_tracks_range(render: RenderConfig, input: Input, a: Clip, b: Clip)
    requires
        a.index == b.index,
        a.input@ == b.input@,
        a.blur == b.blur,
        a.mute == b.mute,
        (a.start@ == b.start@) != (a.end@ == b.end@),
    ensures
        cache_key_preimage(render, input, a) != cache_key_preimage(render, input, b),
{
    let head = schema_version() + render_key(render) + decimal(a.index as nat) + keyed_str(a.input@)
        + keyed_str(input.path@) + metadata_key(input.metadata);
    let fx = effects_key(a.blur, a.mute);
    if a.start@ != b.start@ {
        lemma_decimal_differs(a.start@, b.start@);
        let tail = decimal(a.end@) + fx;
        lemma_middle_differs(head, decimal(a.start@), decimal(b.start@), tail);
        assert(cache_key_preimage(render, input, a) =~= head + decimal(a.start@) + tail);
        assert(cache_key_preimage(render, input, b) =~= head + decimal(b.start@) + tail);
    } else {
        lemma_decimal_differs(a.end@, b.end@);
        let h2 = head + decimal(a.start@);
        lemma_middle_differs(h2, decimal(a.end@), decimal(b.end@), fx);
        assert(cache_key_preimage(render, input, a) =~= h2 + decimal(a.end@) + fx);
        assert(cache_key_preimage(render, input, b) =~= h2 + decimal(b.end@) + fx);
    }
}

/// Different texts have different keyed forms.
proof fn lemma_keyed_str_differs(p: Seq<char>, q: Seq<char>)
    requires
        p != q,
    ensures
        keyed_str(p) != keyed_str(q),
{
    let x = decimal(encode_utf8(p).len());
    let y = decimal(encode_utf8(q).len());
    crate::text::lemma_decimal(encode_utf8(p).len());
    crate::text::lemma_decimal(encode_utf8(q).len());
    let kp = keyed_str(p);
    let kq = keyed_str(q);
    reveal_strlit(":");
    reveal_strlit(";");
    if x.len() < y.len() {
        assert(kp[x.len() as int] == ':');
        assert(kq[x.len() as int] == y[x.len() as int]);
        assert(crate::text::is_digit(y[x.len() as int]));
    } else if y.len() < x.len() {
        assert(kq[y.len() as int] == ':');
        assert(kp[y.len() as int] == x[y.len() as int]);
        assert(crate::text::is_digit(x[y.len() as int]));
    } else if x != y {
        let i = choose|i: int| 0 <= i < x.len() && x[i] != y[i];
        if !(0 <= i < x.len() && x[i] != y[i]) {
            assert(x =~= y);
        }
        assert(kp[i] == x[i] && kq[i] == y[i]);
    } else {
        lemma_middle_differs(x + ":"@, p, q, ";"@);
        assert(kp =~= x + ":"@ + p + ";"@);
        assert(kq =~= y + ":"@ + q + ";"@);
    }
}

/// Texts that differ keep differing with the same text after them.
proof fn lemma_append_differs(x: Seq<char>, y: Seq<char>, c: Seq<char>)
    requires
        x != y,
    ensures
        x + c != y + c,
{
    if x.len() == y.len() {
        let i = choose|i: int| 0 <= i < x.len() && x[i] != y[i];
        if !(0 <= i < x.len() && x[i] != y[i]) {
            assert(x =~= y);
        }
        assert((x + c)[i] == x[i] && (y + c)[i] == y[i]);
    } else {
        assert((x + c).len() != (y + c).len());
    }
}

/// Texts that differ keep differing with the same text before them.
proof fn lemma_prepend_differs(h: Seq<char>, x: Seq<char>, y: Seq<char>)
    requires
        x != y,
    ensures
        h + x != h + y,
{
    if x.len() == y.len() {
        let i = choose|i: int| 0 <= i < x.len() && x[i] != y[i];
        if !(0 <= i < x.len() && x[i] != y[i]) {
            assert(x =~= y);
        }
        assert((h + x)[h.len() + i] == x[i] && (h + y)[h.len() + i] == y[i]);
    } else {
        assert((h + x).len() != (h + y).len());
    }
}

/// Clips read from inputs that differ in path (with the same metadata), or
/// in size (with the same path and modification time), have different cache
/// key preimages: a moved or rewritten input is never served from the
/// cache of the old one.
pub proof fn law_cache_preimage_tracks_input(render: RenderConfig, a: Input, b: Input, clip: Clip)
    requires
        (a.path@ != b.path@ && a.metadata == b.metadata) || (a.path@ == b.path@ && a.metadata is Some
            && b.metadata is Some && a.metadata->0.modified_unix_millis
            == b.metadata->0.modified_unix_millis && a.metadata->0.size_bytes
            != b.metadata->0.size_bytes),
    ensures
        cache_key_preimage(render, a, clip) != cache_key_preimage(render, b, clip),
{
    let head = schema_version() + render_key(render) + decimal(clip.index as nat) + keyed_str(
        clip.input@,
    );
    let ma = metadata_key(a.metadata);
    let mb = metadata_key(b.metadata);
    let pa = head + keyed_str(a.path@);
    let pb = head + keyed_str(b.path@);
    if a.path@ != b.path@ {
        lemma_keyed_str_differs(a.path@, b.path@);
        lemma_prepend_differs(head, keyed_str(a.path@), keyed_str(b.path@));
        lemma_append_differs(pa, pb, ma);
    } else {
        assert(pa == pb);
        let sa = a.metadata->0.size_bytes as nat;
        let sb = b.metadata->0.size_bytes as nat;
        let mt = match a.metadata->0.modified_unix_millis {
            Some(t) => signed_decimal(t as int),
            None => Seq::empty(),
        };
        lemma_decimal_differs(sa, sb);
        lemma_append_differs(decimal(sa), decimal(sb), mt);
        assert(ma == decimal(sa) + mt);
        assert(mb == decimal(sb) + mt);
        lemma_prepend_differs(pa, ma, mb);
    }
    lemma_append_differs(pa + ma, pb + mb, decimal(clip.start@));
    lemma_append_differs(pa + ma + decimal(clip.start@), pb + mb + decimal(clip.start@), decimal(clip.end@));
    lemma_append_differs(
        pa + ma + decimal(clip.start@) + decimal(clip.end@),
        pb + mb + decimal(clip.start@) + decimal(clip.end@),
        effects_key(clip.blur, clip.mute),
    );
}

/// Clips at different places of the plan, or naming different inputs,
/// with the same range and effects, have different cache key preimages.
pub proof fn law_cache_preimage_tracks_clip_place(render: RenderConfig, input: Input, a: Clip, b: Clip)
    requires
        (a.index != b.index && a.input@ == b.input@) || (a.index == b.index && a.input@ != b.input@),
        a.start@ == b.start@,
        a.end@ == b.end@,
        a.blur == b.blur,
        a.mute == b.mute,
    ensures
        cache_key_preimage(render, input, a) != cache_key_preimage(render, input, b),
{
    let h = schema_version() + render_key(render);
    let pa = h + decimal(a.index as nat) + keyed_str(a.input@);
    let pb = h + decimal(b.index as nat) + keyed_str(b.input@);
    if a.index != b.index {
        lemma_decimal_differs(a.index as nat, b.index as nat);
        lemma_prepend_differs(h, decimal(a.index as nat), decimal(b.index as nat));
        lemma_append_differs(h + decimal(a.index as nat), h + decimal(b.index as nat), keyed_str(a.input@));
    } else {
        lemma_keyed_str_differs(a.input@, b.input@);
        lemma_prepend_differs(h + decimal(a.index as nat), keyed_str(a.input@), keyed_str(b.input@));
    }
    let p = keyed_str(input.path@);
    let m = metadata_key(input.metadata);
    let st = decimal(a.start@);
    let en = decimal(a.end@);
    lemma_append_differs(pa, pb, p);
    lemma_append_differs(pa + p, pb + p, m);
    lemma_append_differs(pa + p + m, pb + p + m, st);
    lemma_append_differs(pa + p + m + st, pb + p + m + st, en);
    lemma_append_differs(pa + p + m + st + en, pb + p + m + st + en, effects_key(a.blur, a.mute));
}

// ---------------------------------------------------------------- the plan

/// Calls `camino::Utf8Path::exists`: whether something is at `path` now.
/// The answer depends on the disk, so nothing is claimed of it.
#[verifier::external_body]
fn cache_file_exists(path: &str) -> (r: bool) {
    Utf8Path::new(path).exists()
}

/// Where a clip with `key` is cached.
pub open spec fn cache_path_of(project_dir: Seq<char>, key: Seq<char>) -> Seq<char> {
    path_join(cache_dir_of(project_dir), key + ".mp4"@)
}

/// `pc` plans clip `clip` of `project`, whose input is `input`: its key,
/// cache file and render command; `cache_exists` is left as found.
pub open spec fn planned_clip_of(project: NormalizedProject, input: Input, clip: Clip, pc: PlannedClip) -> bool {
    let key = cache_key_of(project.render, input, clip);
    let path = cache_path_of(project.project_dir@, key);
    &&& pc.clip == clip
    &&& pc.cache_key@ == key
    &&& pc.cache_path@ == path
    &&& pc.ffmpeg@ == command_line("ffmpeg"@, clip_render_args(project.render, input.path@, clip, path))
}

pub fn clone_clip(c: &Clip) -> (r: Clip)
    ensures
        r == *c,
{
    Clip {
        index: c.index,
        input: c.input.clone(),
        start: c.start,
        end: c.end,
        output_start: c.output_start,
        output_end: c.output_end,
        chapter: clone_opt_string(&c.chapter),
        blur: c.blur,
        mute: c.mute,
    }
}

/// The cache key of a clip whose input is `input`, and the cache file it
/// names.
fn clip_cache_file(project: &NormalizedProject, input: &Input, clip: &Clip) -> (r: (String, String))
    ensures
        r.0@ == cache_key_of(project.render, *input, *clip),
        r.1@ == cache_path_of(project.project_dir@, r.0@),
{
    let key = clip_cache_key(project, input, clip);
    let dir = cache_dir(project);
    let mut name: Vec<char> = Vec::new();
    push_str(&mut name, key.as_str());
    push_str(&mut name, ".mp4");
    let file = string_from_chars(&name);
    let cache_path = join_path(dir.as_str(), file.as_str());
    (key, cache_path)
}

/// The plan of one clip whose input is `input`, `cache_exists` being what
/// the disk said of its cache file.
pub fn planned_clip(project: &NormalizedProject, input: &Input, clip: &Clip, cache_exists: bool) -> (r: PlannedClip)
    requires
        input_index(project.inputs@, clip.input@) is Some,
        *input == project.inputs@[input_index(project.inputs@, clip.input@)->0],
    ensures
        planned_clip_of(*project, *input, *clip, r),
        r.cache_exists == cache_exists,
{
    let (key, cache_path) = clip_cache_file(project, input, clip);
    let stub = PlannedClip {
        clip: clone_clip(clip),
        cache_key: key.clone(),
        cache_path: cache_path.clone(),
        cache_exists: false,
        ffmpeg: string_of(""),
    };
    let ffmpeg = match clip_render_command(project, &stub, cache_path.as_str()) {
        Ok(command) => command.display(),
        Err(_) => string_of(""),
    };
    PlannedClip { clip: clone_clip(clip), cache_key: key, cache_path, cache_exists, ffmpeg }
}

/// The error for a clip whose input `name` is not one of the project's.
fn unknown_clip_input(name: &str) -> (e: CutlineError)
    ensures
        e@ == (ErrorKind::InvalidProject, "unknown input "@ + debug_str(name@)),
{
    let mut out: Vec<char> = Vec::new();
    push_str(&mut out, "unknown input ");
    let q = debug_quoted(name);
    push_str(&mut out, q.as_str());
    CutlineError::InvalidProject(string_from_chars(&out))
}

/// The cache file of clip `k` of the project.
pub open spec fn clip_cache_path_at(project: NormalizedProject, k: int) -> Seq<char> {
    let input = project.inputs@[input_index(project.inputs@, project.clips@[k].input@)->0];
    cache_path_of(project.project_dir@, cache_key_of(project.render, input, project.clips@[k]))
}

/// The cache file of each clip of the project, in clip order; the first
/// clip whose input is unknown refuses them all.
pub fn clip_cache_paths(project: &NormalizedProject) -> (r: Result<Vec<String>>)
    ensures
        match first_unknown_clip_input(project.inputs@, project.clips@, 0) {
            Some(name) => r matches Err(e) && e@ == (ErrorKind::InvalidProject, "unknown input "@ + debug_str(name)),
            None => r matches Ok(paths) && paths@.len() == project.clips@.len() && forall|k: int|
                0 <= k < project.clips@.len() ==> (#[trigger] paths@[k])@ == clip_cache_path_at(*project, k),
        },
{
    let mut paths: Vec<String> = Vec::new();
    let mut k: usize = 0;
    while k < project.clips.len()
        invariant
            0 <= k <= project.clips@.len(),
            first_unknown_clip_input(project.inputs@, project.clips@, 0) == first_unknown_clip_input(
                project.inputs@,
                project.clips@,
                k as int,
            ),
            paths@.len() == k,
            forall|j: int| 0 <= j < k ==> (#[trigger] paths@[j])@ == clip_cache_path_at(*project, j),
        decreases project.clips.len() - k,
    {
        let clip = &project.clips[k];
        let input = match project.input(clip.input.as_str()) {
            Some(input) => input,
            None => {
                return Err(unknown_clip_input(clip.input.as_str()));
            },
        };
        let (_key, path) = clip_cache_file(project, input, clip);
        paths.push(path);
        k += 1;
    }
    Ok(paths)
}

/// `pc` plans clip `k` of the project.
pub open spec fn clip_planned_at(project: NormalizedProject, k: int, pc: PlannedClip) -> bool {
    let idx = input_index(project.inputs@, project.clips@[k].input@);
    &&& idx is Some
    &&& planned_clip_of(project, project.inputs@[idx->0], project.clips@[k], pc)
}

/// The input of the first clip, from position `k` on, whose input is not
/// one of the project's.
pub open spec fn first_unknown_clip_input(inputs: Seq<Input>, clips: Seq<Clip>, k: int) -> Option<Seq<char>>
    decreases clips.len() - k,
{
    if k < 0 || k >= clips.len() {
        None
    } else if input_index(inputs, clips[k].input@) is None {
        Some(clips[k].input@)
    } else {
        first_unknown_clip_input(inputs, clips, k + 1)
    }
}

/// The chapters of clips: for each clip with a chapter, where it starts on
/// the output and its title.
pub open spec fn chapters_of(clips: Seq<Clip>) -> Seq<(Seq<char>, Seq<char>)>
    decreases clips.len(),
{
    if clips.len() == 0 {
        Seq::empty()
    } else {
        let rest = chapters_of(clips.drop_last());
        match clips.last().chapter {
            Some(t) => rest.push((display_text(clips.last().output_start@), t@)),
            None => rest,
        }
    }
}

pub open spec fn chapter_views(cs: Seq<PlannedChapter>) -> Seq<(Seq<char>, Seq<char>)> {
    Seq::new(cs.len(), |i: int| (cs[i].time@, cs[i].title@))
}

/// `p` lists the inputs with their probed durations shown.
pub open spec fn inputs_planned(inputs: Seq<Input>, p: Seq<PlannedInput>) -> bool {
    &&& p.len() == inputs.len()
    &&& forall|i: int|
        0 <= i < inputs.len() ==> {
            let x = #[trigger] p[i];
            &&& x.name@ == inputs[i].name@
            &&& x.path@ == inputs[i].path@
            &&& match inputs[i].metadata {
                Some(md) => match md.duration {
                    Some(d) => x.duration is Some && x.duration->0@ == display_text(d@),
                    None => x.duration is None,
                },
                None => x.duration is None,
            }
        }
}

/// The render plan of a project, given whether each clip's cache file is
/// there. Each clip is planned with its cache key, cache file and ffmpeg
/// command; the first clip whose input is unknown refuses the plan.
pub fn build_plan_with_cache_status(project: &NormalizedProject, cache_exists: &[bool]) -> (r: Result<Plan>)
    requires
        cache_exists@.len() == project.clips@.len(),
    ensures
        match first_unknown_clip_input(project.inputs@, project.clips@, 0) {
            Some(name) => r matches Err(e) && e@ == (ErrorKind::InvalidProject, "unknown input "@ + debug_str(name)),
            None => r matches Ok(plan) && {
                &&& plan.output_path@ == project.output_path@
                &&& plan.concat_list_path@ == path_join(work_dir_of(project.project_dir@), "concat.txt"@)
                &&& inputs_planned(project.inputs@, plan.inputs@)
                &&& plan.clips@.len() == project.clips@.len()
                &&& forall|k: int|
                    0 <= k < project.clips@.len() ==> clip_planned_at(*project, k, #[trigger] plan.clips@[k])
                        && plan.clips@[k].cache_exists == cache_exists@[k]
                &&& chapter_views(plan.chapters@) == chapters_of(project.clips@)
            },
        },
{
    let mut clips: Vec<PlannedClip> = Vec::new();
    let mut k: usize = 0;
    while k < project.clips.len()
        invariant
            0 <= k <= project.clips@.len(),
            first_unknown_clip_input(project.inputs@, project.clips@, 0) == first_unknown_clip_input(
                project.inputs@,
                project.clips@,
                k as int,
            ),
            clips@.len() == k,
            cache_exists@.len() == project.clips@.len(),
            forall|j: int|
                0 <= j < k ==> clip_planned_at(*project, j, #[trigger] clips@[j]) && clips@[j].cache_exists
                    == cache_exists@[j],
        decreases project.clips.len() - k,
    {
        let clip = &project.clips[k];
        let input = match project.input(clip.input.as_str()) {
            Some(input) => input,
            None => {
                return Err(unknown_clip_input(clip.input.as_str()));
            },
        };
        let planned = planned_clip(project, input, clip, cache_exists[k]);
        assert(clip_planned_at(*project, k as int, planned));
        let ghost before = clips@;
        clips.push(planned);
        assert(forall|j: int| 0 <= j < k ==> clips@[j] == before[j]);
        k += 1;
    }
    let mut inputs: Vec<PlannedInput> = Vec::new();
    let mut i: usize = 0;
    while i < project.inputs.len()
        invariant
            0 <= i <= project.inputs@.len(),
            inputs@.len() == i,
            forall|j: int|
                0 <= j < i ==> {
                    let x = #[trigger] inputs@[j];
                    &&& x.name@ == project.inputs@[j].name@
                    &&& x.path@ == project.inputs@[j].path@
                    &&& match project.inputs@[j].metadata {
                        Some(md) => match md.duration {
                            Some(d) => x.duration is Some && x.duration->0@ == display_text(d@),
                            None => x.duration is None,
                        },
                        None => x.duration is None,
                    }
                },
        decreases project.inputs.len() - i,
    {
        let input = &project.inputs[i];
        let duration = match &input.metadata {
            Some(md) => match md.duration {
                Some(d) => Some(d.display()),
                None => None,
            },
            None => None,
        };
        inputs.push(PlannedInput { name: input.name.clone(), path: input.path.clone(), duration });
        i += 1;
    }
    let mut chapters: Vec<PlannedChapter> = Vec::new();
    let mut c: usize = 0;
    while c < project.clips.len()
        invariant
            0 <= c <= project.clips@.len(),
            chapter_views(chapters@) == chapters_of(project.clips@.take(c as int)),
        decreases project.clips.len() - c,
    {
        let clip = &project.clips[c];
        let ghost before = chapter_views(chapters@);
        proof {
            assert(project.clips@.take(c + 1).drop_last() =~= project.clips@.take(c as int));
        }
        match &clip.chapter {
            Some(title) => {
                chapters.push(PlannedChapter { time: clip.output_start.display(), title: title.clone() });
                assert(chapter_views(chapters@) =~= before.push(
                    (display_text(clip.output_start@), title@),
                ));
            },
            None => {},
        }
        c += 1;
    }
    assert(project.clips@.take(c as int) =~= project.clips@);
    Ok(
        Plan {
            output_path: project.output_path.clone(),
            concat_list_path: concat_list_path(project),
            inputs,
            clips,
            chapters,
        },
    )
}

/// The render plan of a project, each clip's cache file looked for on disk:
/// the flag of clip `k` is what the disk says of `clip_cache_paths`'s `k`-th
/// path, the clip's `cache_path`. The first clip whose input is unknown
/// refuses the plan before the disk is asked.
pub fn build_plan(project: &NormalizedProject) -> (r: Result<Plan>)
    ensures
        match first_unknown_clip_input(project.inputs@, project.clips@, 0) {
            Some(name) => r matches Err(e) && e@ == (ErrorKind::InvalidProject, "unknown input "@ + debug_str(name)),
            None => r matches Ok(plan) && {
                &&& plan.output_path@ == project.output_path@
                &&& plan.concat_list_path@ == path_join(work_dir_of(project.project_dir@), "concat.txt"@)
                &&& inputs_planned(project.inputs@, plan.inputs@)
                &&& plan.clips@.len() == project.clips@.len()
                &&& forall|k: int|
                    0 <= k < project.clips@.len() ==> clip_planned_at(*project, k, #[trigger] plan.clips@[k])
                &&& chapter_views(plan.chapters@) == chapters_of(project.clips@)
            },
        },
{
    let paths = clip_cache_paths(project)?;
    let mut found: Vec<bool> = Vec::new();
    let mut k: usize = 0;
    while k < paths.len()
        invariant
            0 <= k <= paths@.len(),
            found@.len() == k,
        decreases paths.len() - k,
    {
        found.push(cache_file_exists(paths[k].as_str()));
        k += 1;
    }
    build_plan_with_cache_status(project, found.as_slice())
}

/// The commands that render the planned clips, each into its temporary
/// file beside its cache file; the first clip whose input is unknown
/// refuses them all.
pub fn render_commands(project: &NormalizedProject, plan: &Plan) -> (r: Result<Vec<FfmpegCommand>>)
    ensures
        match first_unknown_planned_input(project.inputs@, plan.clips@, 0) {
            Some(name) => r matches Err(e) && e@ == (ErrorKind::InvalidProject, "unknown input "@ + debug_str(name)),
            None => r matches Ok(cs) && cs@.len() == plan.clips@.len() && forall|k: int|
                0 <= k < cs@.len() ==> {
                    let pc = plan.clips@[k];
                    let c = #[trigger] cs@[k];
                    &&& c.program@ == "ffmpeg"@
                    &&& string_views(c.args@) == clip_render_args(
                        project.render,
                        project.inputs@[input_index(project.inputs@, pc.clip.input@)->0].path@,
                        pc.clip,
                        temp_path_of(pc.cache_path@),
                    )
                },
        },
{
    let mut commands: Vec<FfmpegCommand> = Vec::new();
    let mut k: usize = 0;
    while k < plan.clips.len()
        invariant
            0 <= k <= plan.clips@.len(),
            first_unknown_planned_input(project.inputs@, plan.clips@, 0)
                == first_unknown_planned_input(project.inputs@, plan.clips@, k as int),
            commands@.len() == k,
            forall|j: int|
                0 <= j < k ==> {
                    let pc = plan.clips@[j];
                    let c = #[trigger] commands@[j];
                    &&& c.program@ == "ffmpeg"@
                    &&& string_views(c.args@) == clip_render_args(
                        project.render,
                        project.inputs@[input_index(project.inputs@, pc.clip.input@)->0].path@,
                        pc.clip,
                        temp_path_of(pc.cache_path@),
                    )
                },
        decreases plan.clips.len() - k,
    {
        let planned = &plan.clips[k];
        let temp = temp_clip_path(planned.cache_path.as_str());
        let command = clip_render_command(project, planned, temp.as_str())?;
        commands.push(command);
        k += 1;
    }
    Ok(commands)
}

/// The input of the first planned clip, from position `k` on, that is not
/// one of the project's.
pub open spec fn first_unknown_planned_input(inputs: Seq<Input>, clips: Seq<PlannedClip>, k: int) -> Option<
    Seq<char>,
>
    decreases clips.len() - k,
{
    if k < 0 || k >= clips.len() {
        None
    } else if input_index(inputs, clips[k].clip.input@) is None {
        Some(clips[k].clip.input@)
    } else {
        first_unknown_planned_input(inputs, clips, k + 1)
    }
}

/// The command that joins the cached clips of a plan into its output.
pub fn final_concat_command(plan: &Plan) -> (r: FfmpegCommand)
    ensures
        r.program@ == "ffmpeg"@,
        string_views(r.args@) == concat_args(plan.concat_list_path@, plan.output_path@),
{
    concat_command(plan.concat_list_path.as_str(), plan.output_path.as_str())
}

/// A path inside single quotes for ffmpeg's concat list: each `'` becomes
/// `'\''`.
pub open spec fn quote_escaped(s: Seq<char>) -> Seq<char>
    decreases s.len(),
{
    if s.len() == 0 {
        Seq::empty()
    } else {
        quote_escaped(s.drop_last()) + if s.last() == '\'' {
            "'\\''"@
        } else {
            seq![s.last()]
        }
    }
}

pub open spec fn concat_list_of(clips: Seq<PlannedClip>) -> Seq<char>
    decreases clips.len(),
{
    if clips.len() == 0 {
        Seq::empty()
    } else {
        concat_list_of(clips.drop_last()) + "file '"@ + quote_escaped(clips.last().cache_path@)
            + "'\n"@
    }
}

fn push_quote_escaped(out: &mut Vec<char>, s: &str)
    ensures
        final(out)@ == old(out)@ + quote_escaped(s@),
{
    let cs = str_chars(s);
    let ghost start = out@;
    let mut i: usize = 0;
    while i < cs.len()
        invariant
            0 <= i <= cs@.len(),
            cs@ == s@,
            out@ == start + quote_escaped(cs@.take(i as int)),
        decreases cs.len() - i,
    {
        let ghost before = out@;
        if cs[i] == '\'' {
            push_str(out, "'\\''");
        } else {
            out.push(cs[i]);
        }
        proof {
            assert(cs@.take(i + 1).drop_last() =~= cs@.take(i as int));
            assert(out@ =~= start + quote_escaped(cs@.take(i + 1)));
        }
        i += 1;
    }
    assert(cs@.take(i as int) =~= cs@);
}

/// The concat list of a plan: one `file '<cache path>'` line per clip, in
/// order.
pub fn concat_list_text(plan: &Plan) -> (r: String)
    ensures
        r@ == concat_list_of(plan.clips@),
{
    let mut out: Vec<char> = Vec::new();
    let mut k: usize = 0;
    while k < plan.clips.len()
        invariant
            0 <= k <= plan.clips@.len(),
            out@ == concat_list_of(plan.clips@.take(k as int)),
        decreases plan.clips.len() - k,
    {
        let ghost before = out@;
        push_str(&mut out, "file '");
        push_quote_escaped(&mut out, plan.clips[k].cache_path.as_str());
        push_str(&mut out, "'\n");
        proof {
            assert(plan.clips@.take(k + 1).drop_last() =~= plan.clips@.take(k as int));
            assert(out@ =~= concat_list_of(plan.clips@.take(k + 1)));
        }
        k += 1;
    }
    assert(plan.clips@.take(k as int) =~= plan.clips@);
    string_from_chars(&out)
}

} // verus!
