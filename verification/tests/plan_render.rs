use cutline::autocut::AutoCutClip;
use cutline::cache::{cache_dir, concat_list_path, plan_json_path, work_dir};
use cutline::config::{ClipConfig, InputConfig, OutputConfig, ProjectConfig, RenderConfig};
use cutline::ffmpeg::{concat_command, temp_clip_path, FfmpegCommand};
use cutline::model::NormalizedProject;
use cutline::planner::{
    build_plan, build_plan_with_cache_status, clip_cache_paths, concat_list_text,
    final_concat_command, render_commands,
};
use cutline::render::{
    autocut_clips_fit_check, format_plan, multiple_autocut_output_path, project_for_autocut_output,
    refuse_overwrite,
};
use cutline::time::TimeValue;
use cutline::validate::{normalize_project_with_options, InputAccess, ValidationOptions};

fn config_with_blur(blur: bool) -> ProjectConfig {
    ProjectConfig {
        output: OutputConfig { path: "out.mp4".to_owned() },
        input: vec![(
            "main".to_owned(),
            InputConfig { path: "Cargo.toml".to_owned(), chat: None },
        )],
        render: RenderConfig::default(),
        clips: vec![ClipConfig {
            input: "main".to_owned(),
            start: TimeValue::from_millis(0),
            end: TimeValue::from_millis(1_000),
            chapter: Some("Opening".to_owned()),
            blur,
            mute: false,
        }],
        auto_cuts: vec![],
        story_videos: vec![],
    }
}

fn normalized(config: ProjectConfig) -> NormalizedProject {
    normalize_project_with_options(
        "/work/demo/project.toml",
        config,
        ValidationOptions { require_inputs: true, probe_media: false },
        vec![InputAccess::Found {
            canonical: "/work/demo/Cargo.toml".to_owned(),
            is_file: true,
            size_bytes: 2_048,
            modified_unix_millis: Some(1_700_000_000_000),
            probed_duration: None,
        }],
        vec![],
    )
    .unwrap()
}

#[test]
fn builds_plan_with_chapters_and_cache_paths() {
    let project = normalized(config_with_blur(false));
    let plan = build_plan(&project).unwrap();

    assert_eq!(plan.clips.len(), 1);
    assert_eq!(plan.chapters[0].time, "00:00:00.000");
    assert_eq!(plan.chapters[0].title, "Opening");
    assert!(plan.clips[0].cache_path.as_str().contains(".cutline/cache"));
    assert!(plan.clips[0].ffmpeg.contains("ffmpeg"));
}

#[test]
fn cache_key_changes_when_effect_changes() {
    let plan_a = build_plan(&normalized(config_with_blur(false))).unwrap();
    let plan_b = build_plan(&normalized(config_with_blur(true))).unwrap();

    assert_ne!(plan_a.clips[0].cache_key, plan_b.clips[0].cache_key);
}

#[test]
fn cache_key_is_stable_lowercase_hex() {
    let plan_a = build_plan(&normalized(config_with_blur(false))).unwrap();
    let plan_b = build_plan(&normalized(config_with_blur(false))).unwrap();
    let key = &plan_a.clips[0].cache_key;

    assert_eq!(key, &plan_b.clips[0].cache_key);
    assert_eq!(key.len(), 64);
    assert!(key.chars().all(|c| c.is_ascii_digit() || ('a'..='f').contains(&c)));
    assert_eq!(plan_a.clips[0].cache_path, format!("/work/demo/.cutline/cache/{key}.mp4"));
}

#[test]
fn render_command_follows_settings_and_effects() {
    let project = normalized(config_with_blur(true));
    let plan = build_plan(&project).unwrap();
    let command = &plan.clips[0].ffmpeg;

    assert!(command.starts_with("ffmpeg -hide_banner -y -ss 0.000 -to 1.000 -i /work/demo/Cargo.toml"));
    assert!(command.contains("-vf boxblur=20:1"));
    assert!(!command.contains("volume=0"));
    assert!(command.contains("-c:v libx264 -b:v 4000k -pix_fmt yuv420p -c:a aac -b:a 300k"));
    assert!(command.ends_with(&plan.clips[0].cache_path));

    let commands = render_commands(&project, &plan).unwrap();
    assert_eq!(commands.len(), 1);
    assert_eq!(
        commands[0].args.last().unwrap(),
        &temp_clip_path(&plan.clips[0].cache_path)
    );
}

#[test]
fn plan_lists_inputs_and_concat_paths() {
    let project = normalized(config_with_blur(false));
    let plan = build_plan(&project).unwrap();

    assert_eq!(plan.output_path, "/work/demo/out.mp4");
    assert_eq!(plan.concat_list_path, "/work/demo/.cutline/concat.txt");
    assert_eq!(plan.inputs[0].name, "main");
    assert_eq!(plan.inputs[0].duration, None);
    assert_eq!(concat_list_path(&project), plan.concat_list_path);
    assert_eq!(work_dir(&project), "/work/demo/.cutline");
    assert_eq!(cache_dir(&project), "/work/demo/.cutline/cache");
    assert_eq!(plan_json_path(&project), "/work/demo/.cutline/plan.json");

    let concat = final_concat_command(&plan);
    assert_eq!(
        concat.display(),
        "ffmpeg -hide_banner -y -f concat -safe 0 -i /work/demo/.cutline/concat.txt -c copy /work/demo/out.mp4"
    );
    let list = concat_list_text(&plan);
    assert_eq!(list, format!("file '{}'\n", plan.clips[0].cache_path));
}

#[test]
fn plan_report_shows_clips_and_chapters() {
    let project = normalized(config_with_blur(false));
    let plan = build_plan(&project).unwrap();
    let report = format_plan(&plan);

    assert!(report.starts_with("Output: /work/demo/out.mp4\n\nInputs:\n  main  /work/demo/Cargo.toml  duration unknown\n\nClips:\n"));
    assert!(report.contains("  1  main  00:00:00.000 -> 00:00:01.000  out 00:00:00.000 -> 00:00:01.000  cache "));
    assert!(report.ends_with("\nChapters:\n  00:00:00.000  Opening\n"));
}

#[test]
fn concat_list_quotes_single_quotes() {
    let mut project = normalized(config_with_blur(false));
    project.project_dir = "/work/it's".to_owned();
    let plan = build_plan(&project).unwrap();

    assert!(concat_list_text(&plan).starts_with("file '/work/it'\\''s/.cutline/cache/"));
}

#[test]
fn command_display_joins_program_and_args() {
    let command = FfmpegCommand {
        program: "ffmpeg".to_owned(),
        args: vec!["-i".to_owned(), "a b.mp4".to_owned()],
    };
    assert_eq!(command.display(), "ffmpeg -i a b.mp4");
    assert_eq!(concat_command("list.txt", "out.mp4").args.len(), 11);
}

#[test]
fn multiple_outputs_are_numbered_beside_the_output() {
    assert_eq!(multiple_autocut_output_path("dist/out.mp4", "main", 0), "dist/out-main-001.mp4");
    assert_eq!(multiple_autocut_output_path("dist/out.mp4", "main", 11), "dist/out-main-012.mp4");
    assert_eq!(multiple_autocut_output_path("video", "cut", 1), "video-cut-002.mp4");
}

#[test]
fn autocut_output_project_places_clips_end_to_end() {
    let project = normalized(config_with_blur(true));
    let clips = vec![
        AutoCutClip {
            index: 0,
            input: "main".to_owned(),
            start: TimeValue::from_millis(5_000),
            end: TimeValue::from_millis(25_000),
            duration: TimeValue::from_millis(20_000),
            output_start: TimeValue::from_millis(0),
            output_end: TimeValue::from_millis(20_000),
        },
        AutoCutClip {
            index: 1,
            input: "main".to_owned(),
            start: TimeValue::from_millis(50_000),
            end: TimeValue::from_millis(70_000),
            duration: TimeValue::from_millis(20_000),
            output_start: TimeValue::from_millis(20_000),
            output_end: TimeValue::from_millis(40_000),
        },
    ];
    assert!(autocut_clips_fit_check(&clips));

    let render = project_for_autocut_output(&project, "main_autocut", "dist/x.mp4".to_owned(), &clips);

    assert_eq!(render.output_path, "dist/x.mp4");
    assert_eq!(render.clips.len(), 2);
    assert_eq!(render.clips[1].index, 1);
    assert_eq!(render.clips[1].output_start.millis(), 20_000);
    assert_eq!(render.clips[1].output_end.millis(), 40_000);
    assert_eq!(render.clips[1].chapter.as_deref(), Some("main_autocut 2"));
    assert!(!render.clips[0].blur);
    assert!(render.auto_cuts.is_empty());
    assert_eq!(render.inputs.len(), 1);
}

#[test]
fn refuses_to_overwrite_without_force() {
    assert_eq!(
        refuse_overwrite("dist/out.mp4", true, false),
        Err("output file already exists: dist/out.mp4\nhint: pass --force to overwrite".to_owned())
    );
    assert_eq!(refuse_overwrite("dist/out.mp4", true, true), Ok(()));
    assert_eq!(refuse_overwrite("dist/out.mp4", false, false), Ok(()));
}

#[test]
fn autocut_render_projects_follow_output_mode() {
    use_render_projects();
}

fn use_render_projects() {
    let project = normalized(config_with_blur(false));
    let clip = |index: usize, start: u64| AutoCutClip {
        index,
        input: "main".to_owned(),
        start: TimeValue::from_millis(start),
        end: TimeValue::from_millis(start + 10_000),
        duration: TimeValue::from_millis(10_000),
        output_start: TimeValue::from_millis(index as u64 * 10_000),
        output_end: TimeValue::from_millis(index as u64 * 10_000 + 10_000),
    };
    let mut planned = cutline::autocut::PlannedAutoCut {
        name: "cut".to_owned(),
        input: "main".to_owned(),
        input_path: "/work/demo/Cargo.toml".to_owned(),
        input_duration: TimeValue::from_millis(60_000),
        target_duration: TimeValue::from_millis(60_000),
        clip_duration: TimeValue::from_millis(10_000),
        min_clip_duration: TimeValue::from_millis(5_000),
        output_mode: cutline::model::AutoCutOutputMode::Multiple,
        rules: vec![],
        analysis: cutline::autocut::AutoCutAnalysis {
            scene_changes: vec![],
            audio_regions: vec![],
            fallback_used: true,
        },
        clips: vec![clip(0, 0), clip(1, 30_000)],
    };
    assert!(cutline::render::autocut_render_fits_check(&planned));
    let outputs = cutline::render::autocut_render_projects(&project, &planned);
    assert_eq!(outputs.len(), 2);
    assert_eq!(outputs[1].output_path, "/work/demo/out-cut-002.mp4");
    assert_eq!(outputs[1].clips.len(), 1);
    assert_eq!(outputs[1].clips[0].output_start.millis(), 0);

    planned.output_mode = cutline::model::AutoCutOutputMode::Single;
    let single = cutline::render::autocut_render_projects(&project, &planned);
    assert_eq!(single.len(), 1);
    assert_eq!(single[0].output_path, "/work/demo/out.mp4");
    assert_eq!(single[0].clips[1].output_start.millis(), 10_000);
}

#[test]
fn cache_status_is_recorded_for_each_clip_cache_path() {
    let project = normalized(config_with_blur(false));
    let paths = clip_cache_paths(&project).unwrap();
    let found = build_plan_with_cache_status(&project, &[true]).unwrap();
    let missing = build_plan_with_cache_status(&project, &[false]).unwrap();
    let probed = build_plan(&project).unwrap();

    assert_eq!(paths.len(), 1);
    assert_eq!(found.clips[0].cache_path, paths[0]);
    assert_eq!(probed.clips[0].cache_path, paths[0]);
    assert!(found.clips[0].cache_exists);
    assert!(!missing.clips[0].cache_exists);
    assert!(!probed.clips[0].cache_exists);
    assert!(paths[0].starts_with("/work/demo/.cutline/cache/"));
    assert!(paths[0].ends_with(".mp4"));
}
