use cutline::config::{
    ClipConfig, InputConfig, OutputConfig, ProjectConfig, RenderConfig, StoryVideoConfig,
};
use cutline::error::CutlineError;
use cutline::model::NormalizedProject;
use cutline::time::TimeValue;
use cutline::validate::{
    clip_offsets_fit_check, load_input_outcome, normalize_project_with_options,
    resolve_project_path, InputAccess, StoryFiles, ValidationOptions,
};

fn project_config() -> ProjectConfig {
    ProjectConfig {
        output: OutputConfig { path: "out.mp4".to_owned() },
        input: vec![(
            "main".to_owned(),
            InputConfig { path: "Cargo.toml".to_owned(), chat: None },
        )],
        render: RenderConfig::default(),
        clips: vec![ClipConfig {
            input: "main".to_owned(),
            start: TimeValue::from_millis(1_000),
            end: TimeValue::from_millis(2_500),
            chapter: Some("Start".to_owned()),
            blur: false,
            mute: true,
        }],
        auto_cuts: vec![],
        story_videos: vec![],
    }
}

fn found(canonical: &str) -> InputAccess {
    InputAccess::Found {
        canonical: canonical.to_owned(),
        is_file: true,
        size_bytes: 1_234,
        modified_unix_millis: Some(1_700_000_000_000),
        probed_duration: None,
    }
}

fn no_probe() -> ValidationOptions {
    ValidationOptions { require_inputs: true, probe_media: false }
}

fn story_config(story: StoryVideoConfig) -> ProjectConfig {
    ProjectConfig {
        output: OutputConfig { path: "dist/story.mp4".to_owned() },
        input: vec![],
        render: RenderConfig::default(),
        clips: vec![],
        auto_cuts: vec![],
        story_videos: vec![story],
    }
}

fn valid_story_video_config() -> StoryVideoConfig {
    StoryVideoConfig {
        name: "demo".to_owned(),
        source: "stories/demo.txt".to_owned(),
        start_line: 1,
        end_line: 2,
        engagement_angle: "reversal".to_owned(),
        background: "assets/bg.mp4".to_owned(),
        voice_provider: None,
        platform: "douyin".to_owned(),
    }
}

fn files_with(text: &str) -> StoryFiles {
    StoryFiles {
        source_is_file: true,
        source_text: Ok(text.to_owned()),
        background_is_file: true,
    }
}

fn normalize_story(story: StoryVideoConfig, files: StoryFiles) -> cutline::error::Result<NormalizedProject> {
    normalize_project_with_options(
        "/tmp/cutline-story/project.toml",
        story_config(story),
        no_probe(),
        vec![],
        vec![files],
    )
}

fn err_text(r: cutline::error::Result<NormalizedProject>) -> String {
    r.unwrap_err().message()
}

#[test]
fn derives_output_times_and_resolves_paths() {
    let config = project_config();
    assert!(clip_offsets_fit_check(&config.input, &config.clips));
    let project = normalize_project_with_options(
        "project.toml",
        config,
        no_probe(),
        vec![found("/work/cutline/Cargo.toml")],
        vec![],
    )
    .unwrap();

    assert_eq!(project.output_path, "out.mp4");
    assert!(project.inputs[0].path.starts_with('/'));
    assert!(project.inputs[0].path.ends_with("Cargo.toml"));
    assert_eq!(project.clips[0].output_start.millis(), 0);
    assert_eq!(project.clips[0].output_end.millis(), 1_500);
    assert!(project.inputs[0].metadata.is_some());
    assert_eq!(project.inputs[0].metadata.as_ref().unwrap().duration, None);
    assert_eq!(project.clips[0].chapter.as_deref(), Some("Start"));
}

#[test]
fn rejects_unknown_clip_input() {
    let mut config = project_config();
    config.clips[0].input = "missing".to_owned();

    let err = err_text(normalize_project_with_options(
        "project.toml",
        config,
        no_probe(),
        vec![found("/work/cutline/Cargo.toml")],
        vec![],
    ));

    assert!(err.contains("unknown input"));
    assert_eq!(err, "invalid project: unknown input \"missing\" at clip[0].input");
}

#[test]
fn places_clips_end_to_end() {
    let mut config = project_config();
    config.clips.push(ClipConfig {
        input: "main".to_owned(),
        start: TimeValue::from_millis(10_000),
        end: TimeValue::from_millis(12_000),
        chapter: None,
        blur: true,
        mute: false,
    });

    let project = normalize_project_with_options(
        "project.toml",
        config,
        no_probe(),
        vec![found("/work/cutline/Cargo.toml")],
        vec![],
    )
    .unwrap();

    assert_eq!(project.clips[1].index, 1);
    assert_eq!(project.clips[1].output_start.millis(), 1_500);
    assert_eq!(project.clips[1].output_end.millis(), 3_500);
    assert!(project.clips[1].blur);
}

#[test]
fn rejects_reversed_clip() {
    let mut config = project_config();
    config.clips[0].end = TimeValue::from_millis(1_000);

    let err = err_text(normalize_project_with_options(
        "project.toml",
        config,
        no_probe(),
        vec![found("/work/cutline/Cargo.toml")],
        vec![],
    ));

    assert_eq!(err, "invalid project: clip[0].end must be greater than clip[0].start");
}

#[test]
fn rejects_non_mp4_container() {
    let mut config = project_config();
    config.render.container = "mkv".to_owned();

    let err = err_text(normalize_project_with_options(
        "project.toml",
        config,
        no_probe(),
        vec![found("/work/cutline/Cargo.toml")],
        vec![],
    ));

    assert_eq!(err, "invalid project: render.container must be \"mp4\" in V1, got \"mkv\"");
}

#[test]
fn requires_an_input_and_a_clip_without_creative_workflows() {
    let mut config = project_config();
    config.input.clear();
    config.clips.clear();
    let err = err_text(normalize_project_with_options("project.toml", config, no_probe(), vec![], vec![]));
    assert_eq!(err, "invalid project: at least one [input.<name>] section is required");

    let mut config = project_config();
    config.clips.clear();
    let err = err_text(normalize_project_with_options(
        "project.toml",
        config,
        no_probe(),
        vec![found("/work/cutline/Cargo.toml")],
        vec![],
    ));
    assert_eq!(err, "invalid project: at least one [[clip]] section is required");
}

#[test]
fn checks_clip_ranges_against_probed_durations() {
    let probed = |millis: u64| InputAccess::Found {
        canonical: "/work/cutline/vod.mp4".to_owned(),
        is_file: true,
        size_bytes: 1,
        modified_unix_millis: None,
        probed_duration: Some(Ok(TimeValue::from_millis(millis))),
    };
    let options = ValidationOptions { require_inputs: true, probe_media: true };

    let project =
        normalize_project_with_options("project.toml", project_config(), options, vec![probed(3_000)], vec![])
            .unwrap();
    assert_eq!(
        project.inputs[0].metadata.as_ref().unwrap().duration,
        Some(TimeValue::from_millis(3_000))
    );

    let err = err_text(normalize_project_with_options(
        "project.toml",
        project_config(),
        options,
        vec![probed(2_000)],
        vec![],
    ));
    assert_eq!(
        err,
        "invalid project: clip[0].end 00:00:02.500 exceeds input \"main\" duration 00:00:02.000"
    );
}

#[test]
fn missing_input_is_accepted_when_not_required() {
    let access = InputAccess::CanonicalizeFailed { not_found: true, error: "No such file".to_owned() };
    let options = ValidationOptions { require_inputs: false, probe_media: false };
    let (path, metadata) = load_input_outcome("raw/vod.mp4", options, &access).unwrap();
    assert_eq!(path, "raw/vod.mp4");
    assert!(metadata.is_none());

    let err = load_input_outcome("raw/vod.mp4", no_probe(), &access).unwrap_err();
    assert_eq!(
        err,
        CutlineError::InvalidProject("could not access input path raw/vod.mp4: No such file".to_owned())
    );
}

#[test]
fn input_load_errors() {
    let access = InputAccess::NonUtf8 { display: "/tmp/\u{fffd}".to_owned() };
    assert_eq!(
        load_input_outcome("x", no_probe(), &access).unwrap_err(),
        CutlineError::NonUtf8Path("/tmp/\u{fffd}".to_owned())
    );
    let access = InputAccess::MetadataFailed { canonical: "/a/b".to_owned(), error: "denied".to_owned() };
    assert_eq!(
        load_input_outcome("x", no_probe(), &access).unwrap_err(),
        CutlineError::InvalidProject("could not access input path /a/b: denied".to_owned())
    );
    let access = InputAccess::Found {
        canonical: "/a".to_owned(),
        is_file: false,
        size_bytes: 0,
        modified_unix_millis: None,
        probed_duration: None,
    };
    assert_eq!(
        load_input_outcome("x", no_probe(), &access).unwrap_err(),
        CutlineError::InvalidProject("input path is not a file: /a".to_owned())
    );
    let access = InputAccess::Found {
        canonical: "/a".to_owned(),
        is_file: true,
        size_bytes: 0,
        modified_unix_millis: None,
        probed_duration: Some(Err(CutlineError::InvalidProject("ffprobe failed".to_owned()))),
    };
    let options = ValidationOptions { require_inputs: true, probe_media: true };
    assert_eq!(
        load_input_outcome("x", options, &access).unwrap_err(),
        CutlineError::InvalidProject("ffprobe failed".to_owned())
    );
}

#[test]
fn resolves_relative_and_absolute_paths() {
    assert_eq!(resolve_project_path("/projects/demo", "raw/vod.mp4"), "/projects/demo/raw/vod.mp4");
    assert_eq!(resolve_project_path("/projects/demo", "/media/vod.mp4"), "/media/vod.mp4");
}

#[test]
fn story_highlight_video_can_be_valid_without_manual_inputs_or_clips() {
    let mut story = valid_story_video_config();
    story.end_line = 4;

    let project = normalize_story(story, files_with("第一行\n第二行\n第三行\n第四行\n第五行\n")).unwrap();

    assert!(project.inputs.is_empty());
    assert!(project.clips.is_empty());
    assert_eq!(project.story_videos.len(), 1);
    assert_eq!(project.story_videos[0].name, "demo");
}

#[test]
fn story_highlight_video_rejects_missing_text_source() {
    let mut story = valid_story_video_config();
    story.source = "stories/missing.txt".to_owned();
    story.end_line = 4;
    let files = StoryFiles {
        source_is_file: false,
        source_text: Err("No such file or directory (os error 2)".to_owned()),
        background_is_file: true,
    };

    let err = err_text(normalize_story(story, files));

    assert!(err.contains("story[0].source"));
    assert!(err.contains("missing.txt"));
}

#[test]
fn story_highlight_video_rejects_missing_background_asset() {
    let mut story = valid_story_video_config();
    story.background = "assets/missing.mp4".to_owned();
    let files = StoryFiles {
        source_is_file: true,
        source_text: Ok("第一行\n第二行\n".to_owned()),
        background_is_file: false,
    };

    let err = err_text(normalize_story(story, files));

    assert!(err.contains("story[0].background"));
    assert!(err.contains("missing.mp4"));
}

#[test]
fn story_highlight_video_rejects_non_txt_source() {
    let mut story = valid_story_video_config();
    story.source = "stories/demo.epub".to_owned();

    let err = err_text(normalize_story(story, files_with("not supported")));

    assert!(err.contains("story[0].source"));
    assert!(err.contains(".txt"));
}

#[test]
fn story_highlight_video_rejects_reversed_line_range() {
    let mut story = valid_story_video_config();
    story.start_line = 3;
    story.end_line = 2;

    let err = err_text(normalize_story(story, files_with("第一行\n第二行\n第三行\n")));

    assert!(err.contains("story[0]"));
    assert!(err.contains("start_line"));
    assert!(err.contains("end_line"));
}

#[test]
fn story_highlight_video_rejects_zero_start_line() {
    let mut story = valid_story_video_config();
    story.start_line = 0;

    let err = err_text(normalize_story(story, files_with("第一行\n第二行\n")));

    assert!(err.contains("story[0].start_line"));
    assert!(err.contains("at least 1"));
}

#[test]
fn story_highlight_video_rejects_out_of_bounds_line_range() {
    let mut story = valid_story_video_config();
    story.end_line = 3;

    let err = err_text(normalize_story(story, files_with("第一行\n第二行\n")));

    assert!(err.contains("story[0].end_line"));
    assert!(err.contains("exceeds"));
    assert!(err.contains("2"));
    assert_eq!(
        err,
        "invalid project: story[0].end_line 3 exceeds story[0].source line count 2"
    );
}

#[test]
fn story_highlight_video_rejects_unsupported_platform_profile() {
    let mut story = valid_story_video_config();
    story.platform = "unknown-platform".to_owned();

    let err = err_text(normalize_story(story, files_with("第一行\n第二行\n")));

    assert!(err.contains("story[0].platform"));
    assert!(err.contains("douyin"));
}

#[test]
fn story_highlight_video_rejects_unknown_voice_provider() {
    let mut story = valid_story_video_config();
    story.voice_provider = Some("unknown-tts".to_owned());

    let err = err_text(normalize_story(story, files_with("第一行\n第二行\n")));

    assert!(err.contains("story[0].voice_provider"));
    assert!(err.contains("diamoetts"));
}

#[test]
fn story_source_read_error_is_reported() {
    let files = StoryFiles {
        source_is_file: true,
        source_text: Err("stream did not contain valid UTF-8".to_owned()),
        background_is_file: true,
    };

    let err = err_text(normalize_story(valid_story_video_config(), files));

    assert_eq!(
        err,
        "invalid project: story[0].source could not be read as UTF-8 text: /tmp/cutline-story/stories/demo.txt: stream did not contain valid UTF-8"
    );
}
