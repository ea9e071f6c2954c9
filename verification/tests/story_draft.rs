use cutline::config::StoryVideoConfig;
use cutline::model::{NormalizedProject, StoryVideo};
use cutline::config::RenderConfig;
use cutline::story::{
    bytes_fingerprint, default_subtitle_style, draft_story_source, extract_engaging_content,
    finish_draft_package, format_srt, format_srt_timestamp, generate_local_script_draft,
    generate_story_video, generate_subtitles, pipeline_step_runs, prepare_draft_package,
    preview_duration, preview_outcome, project_reference_path, selected_voice_provider,
    split_subtitle_text, subtitles_fit, text_segments_from, voice_step_result,
    DraftPackageOptions, ParamValue, VoiceProviderConfig,
};

fn story() -> StoryVideo {
    StoryVideo {
        name: "demo".to_owned(),
        source: "stories/demo.txt".to_owned(),
        start_line: 1,
        end_line: 3,
        engagement_angle: "reversal".to_owned(),
        background: "assets/bg.mp4".to_owned(),
        voice_provider: None,
        platform: "douyin".to_owned(),
    }
}

fn project() -> NormalizedProject {
    NormalizedProject {
        project_path: "/work/story/project.toml".to_owned(),
        project_dir: "/work/story".to_owned(),
        output_path: "/work/story/dist/story.mp4".to_owned(),
        render: RenderConfig::default(),
        inputs: vec![],
        clips: vec![],
        auto_cuts: vec![],
        story_videos: vec![story()],
    }
}

#[test]
fn generates_story_video_from_config() {
    let config = StoryVideoConfig {
        name: "test".to_string(),
        source: "stories/chapter1.txt".into(),
        start_line: 10,
        end_line: 50,
        engagement_angle: "reversal".to_string(),
        background: "assets/bg.mp4".into(),
        voice_provider: None,
        platform: "douyin".to_string(),
    };

    let story_video = generate_story_video(&config);

    assert_eq!(story_video.name, "test");
    assert_eq!(story_video.engagement_angle, "reversal");
}

#[test]
fn extracts_engaging_content_by_keyword_score() {
    let segments = extract_engaging_content("平静开场。反转来了！A secret betrayal was revealed.");

    assert_eq!(segments.len(), 2);
    assert!(segments[0].score_tenths >= segments[1].score_tenths);
    assert!(segments[0].content.contains("secret"));
    assert_eq!(
        segments[0].keywords,
        vec!["revealed".to_owned(), "secret".to_owned(), "betrayal".to_owned()]
    );
    assert!(segments[1].keywords.contains(&"反转".to_owned()));
}

#[test]
fn engaging_segments_carry_byte_offsets_and_scores() {
    let text = "平静开场。反转来了！A secret betrayal was revealed.";
    let segments = extract_engaging_content(text);

    assert_eq!(segments[0].score_tenths, 43);
    assert_eq!(segments[1].score_tenths, 20);
    assert_eq!(&text[segments[1].start_offset..segments[1].end_offset], "反转来了！");
    assert_eq!(
        &text[segments[0].start_offset..segments[0].end_offset],
        "A secret betrayal was revealed."
    );
    assert!(extract_engaging_content("nothing here. really.").is_empty());
    let upper = extract_engaging_content("DANGER ahead!");
    assert_eq!(upper[0].keywords, vec!["danger".to_owned()]);
}

#[test]
fn engaging_segments_keep_text_order_on_equal_scores() {
    let segments = extract_engaging_content("a secret. another secret!");
    assert_eq!(segments.len(), 2);
    assert!(segments[0].start_offset < segments[1].start_offset);
}

#[test]
fn parses_text_segments_from_line_ranges() {
    let segments = text_segments_from("第一行\n第二行\n第三行\n第四行\n", &vec![(2, 3), (4, 99), (0, 1)]);

    assert_eq!(segments.len(), 2);
    assert_eq!(segments[0].start_line, 2);
    assert_eq!(segments[0].end_line, 3);
    assert_eq!(segments[0].content, "第二行\n第三行");
    assert_eq!(segments[1].start_line, 4);
    assert_eq!(segments[1].end_line, 4);
}

#[test]
fn text_segments_drop_blank_ranges_and_trailing_space() {
    let segments = text_segments_from("a  \n   \nb\n", &vec![(2, 2), (1, 1), (3, 1)]);
    assert_eq!(segments.len(), 1);
    assert_eq!(segments[0].content, "a");
}

#[test]
fn local_script_draft_keeps_three_to_five_beats() {
    let draft = generate_local_script_draft(&story(), "第一行\n第二行\n");
    assert_eq!(draft.content_beats.len(), 3);
    assert_eq!(draft.content_beats[2].text, "围绕reversal推进第3个看点：第一行");
    assert_eq!(draft.hook.text, "reversal反转来了：第一行");
    assert_eq!(draft.id, "demo-001");
    assert_eq!(draft.ending.text, "真正的爆点，才刚刚开始。");

    let many = generate_local_script_draft(
        &StoryVideo { end_line: 10, ..story() },
        "1\n2\n3\n4\n5\n6\n7\n",
    );
    assert_eq!(many.content_beats.len(), 5);

    let empty = generate_local_script_draft(&story(), "   \n\n");
    assert_eq!(empty.hook.text, "reversal反转来了：选定文本暂未包含非空内容");
    assert_eq!(empty.content_beats.len(), 3);
}

#[test]
fn local_script_draft_records_source_references() {
    let draft = generate_local_script_draft(&story(), "第一行\n第二行\n第三行\n");
    for text in [&draft.hook, &draft.content_beats[0], &draft.adapted_narration, &draft.ending] {
        assert_eq!(text.source_reference.source, "stories/demo.txt");
        assert_eq!(text.source_reference.start_line, 1);
        assert_eq!(text.source_reference.end_line, 3);
    }
    assert_eq!(
        draft.adapted_narration.text,
        draft.content_beats.iter().map(|b| b.text.as_str()).collect::<Vec<_>>().join(" ")
    );
}

#[test]
fn splits_subtitles_at_eighteen_characters_and_punctuation() {
    let lines = split_subtitle_text("第一行出现了很长很长的冲突信息需要拆短，好 的", 18);
    assert_eq!(lines, vec!["第一行出现了很长很长的冲突信息需要拆".to_owned(), "短，".to_owned(), "好的".to_owned()]);
    assert!(lines.iter().all(|l| l.chars().count() <= 18));
    assert!(split_subtitle_text("   ", 18).is_empty());
}

#[test]
fn subtitle_cues_are_monotonic() {
    let narration = "围绕reversal推进第1个看点：第一行 围绕reversal推进第2个看点：第二行";
    assert!(subtitles_fit(narration));
    let cues = generate_subtitles(narration);
    assert!(cues.len() >= 2);
    for (i, cue) in cues.iter().enumerate() {
        assert_eq!(cue.index, i + 1);
        assert!(cue.start_millis < cue.end_millis);
    }
    for pair in cues.windows(2) {
        assert!(pair[0].end_millis <= pair[1].start_millis);
    }
    assert_eq!(preview_duration(&cues).millis(), cues.last().unwrap().end_millis);
    assert_eq!(preview_duration(&vec![]).millis(), 2_000);
}

#[test]
fn formats_srt_blocks() {
    assert_eq!(format_srt_timestamp(3_723_004), "01:02:03,004");
    let cues = generate_subtitles("你好。世界");
    assert_eq!(
        format_srt(&cues),
        "1\n00:00:00,000 --> 00:00:02,000\n你好。\n\n2\n00:00:02,000 --> 00:00:04,000\n世界\n\n"
    );
}

#[test]
fn fingerprints_bytes_with_sha256() {
    assert_eq!(
        bytes_fingerprint(b"abc"),
        "sha256:ba7816bf8f01cfea414140de5dae2223b00361a396177a9cb410ff61f20015ad"
    );
    assert_ne!(bytes_fingerprint(b"abc"), bytes_fingerprint(b"abd"));
}

#[test]
fn subtitle_style_for_douyin() {
    let style = default_subtitle_style("douyin");
    assert_eq!(style.aspect_ratio, "9:16");
    assert_eq!(style.max_chars_per_line, 18);
    assert_eq!(style.position, "bottom_safe_area");
    assert_eq!(style.safe_area_bottom_percent, 12);
}

#[test]
fn voice_provider_selection_and_steps() {
    let mut s = story();
    assert!(matches!(selected_voice_provider(&s, VoiceProviderConfig::Disabled), VoiceProviderConfig::Disabled));
    s.voice_provider = Some("diamoetts".to_owned());
    assert!(matches!(selected_voice_provider(&s, VoiceProviderConfig::Disabled), VoiceProviderConfig::DiamoETts));

    let skipped = voice_step_result(&VoiceProviderConfig::Disabled);
    assert_eq!(skipped.step_run.status, "skipped");
    assert_eq!(skipped.step_run.provider, "none");
    assert!(skipped.asset.is_none());

    let done = voice_step_result(&VoiceProviderConfig::Test { audio_bytes: b"fake wav".to_vec() });
    assert_eq!(done.step_run.status, "completed");
    assert_eq!(done.step_run.outputs, vec!["voiceover.wav".to_owned()]);
    assert_eq!(done.asset.unwrap().fingerprint, bytes_fingerprint(b"fake wav"));
}

#[test]
fn pipeline_records_steps_in_order() {
    let voice = voice_step_result(&VoiceProviderConfig::Disabled);
    let steps = pipeline_step_runs(&story(), voice.step_run, None);
    let names: Vec<_> = steps.iter().map(|s| s.step.as_str()).collect();
    assert_eq!(names, vec!["ingest", "script", "subtitle", "voice", "draft_package"]);
    assert!(matches!(&steps[1].parameters[0].1, ParamValue::Text(t) if t == "reversal"));
    assert!(matches!(&steps[2].parameters[1].1, ParamValue::Number(2000)));
    assert_eq!(steps[4].outputs, vec!["draft.json".to_owned(), "references.json".to_owned()]);
}

#[test]
fn prepares_and_finishes_a_draft_package() {
    let project = project();
    assert_eq!(draft_story_source(&project).unwrap(), "/work/story/stories/demo.txt");
    let options = DraftPackageOptions {
        render_preview: true,
        ffmpeg_program: "/bin/ffmpeg".to_owned(),
        voice_provider: VoiceProviderConfig::Disabled,
    };
    let prep = prepare_draft_package(&project, options, "第一行\n第二行\n第三行\n").unwrap();

    assert_eq!(prep.package_path, "/work/story/.cutline/drafts/demo");
    assert_eq!(prep.narration_text, format!("{}\n", prep.draft.adapted_narration.text));
    let command = prep.preview_command.clone().unwrap();
    assert_eq!(command.program, "/bin/ffmpeg");
    assert!(command.display().contains("subtitles.srt"));
    assert_eq!(command.args.last().unwrap(), &prep.preview_path);
    assert!(preview_outcome(&prep.preview_path, true).is_ok());
    assert!(preview_outcome(&prep.preview_path, false).is_err());

    let (manifest, references, summary) = finish_draft_package(
        &project,
        prep,
        "sha256:source".to_owned(),
        "sha256:background".to_owned(),
        Some("sha256:preview".to_owned()),
    );
    assert_eq!(summary.draft_id, "demo");
    assert_eq!(manifest.output.path, "dist/story.mp4");
    assert_eq!(manifest.story.source.path, "stories/demo.txt");
    assert_eq!(manifest.generated_assets.preview.unwrap().path, "preview.mp4");
    assert!(manifest.generated_assets.narration.fingerprint.starts_with("sha256:"));
    assert_eq!(manifest.short_video_drafts.len(), 1);
    let targets: Vec<_> = references.references.iter().map(|r| r.target.as_str()).collect();
    assert_eq!(targets[0], "demo-001.hook");
    assert!(targets.contains(&"demo-001.content_beats[0]"));
    assert!(targets.contains(&"narration.txt:1"));
    assert!(targets.contains(&"subtitles.srt:1"));
    assert_eq!(*targets.last().unwrap(), "demo-001.ending");
    let steps: Vec<_> = references.pipeline_step_runs.iter().map(|s| s.step.as_str()).collect();
    assert_eq!(steps, vec!["ingest", "script", "subtitle", "voice", "preview", "draft_package"]);
}

#[test]
fn draft_package_requires_a_story() {
    let mut project = project();
    project.story_videos.clear();
    let err = draft_story_source(&project).unwrap_err();
    assert_eq!(
        err.message(),
        "invalid project: at least one [[story]] section is required to generate a draft package"
    );
}

#[test]
fn reference_paths_are_relative_to_the_project() {
    assert_eq!(project_reference_path("/work/story", "/work/story/dist/a.mp4"), "dist/a.mp4");
    assert_eq!(project_reference_path("/work/story", "/elsewhere/a.mp4"), "/elsewhere/a.mp4");
}

#[test]
fn generates_reviewable_draft_package_skeleton() {
    let project = project();
    let prep =
        prepare_draft_package(&project, DraftPackageOptions::default(), "第一行\n第二行\n第三行\n")
            .unwrap();
    assert!(prep.preview_command.is_none());

    let (manifest, references, summary) = finish_draft_package(
        &project,
        prep,
        "sha256:source".to_owned(),
        "sha256:background".to_owned(),
        None,
    );

    assert_eq!(summary.draft_id, "demo");
    assert!(summary.package_path.ends_with(".cutline/drafts/demo"));
    assert_eq!(manifest.draft_id, "demo");
    assert!(manifest.generated_assets.preview.is_none());
    assert!(!references.references.is_empty());
    assert!(!references.pipeline_step_runs.is_empty());
}
