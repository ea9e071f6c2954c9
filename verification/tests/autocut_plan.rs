use cutline::autocut::{
    autocuts_fit_check, build_autocut_plan_with_analyzer, fallback_steps_fit, generate_autocut,
    AutoCutAnalyzer,
};
use cutline::config::{
    AutoCutConfig, AutoCutRuleConfig, InputConfig, OutputConfig, ProjectConfig, RenderConfig,
};
use cutline::error::CutlineError;
use cutline::model::{AutoCut, AutoCutOutputMode, AutoCutRule, Input, InputMetadata, NormalizedProject};
use cutline::time::TimeValue;

#[derive(Debug, Default)]
struct FakeAnalyzer {
    scene_changes: Vec<i64>,
    audio_regions: Vec<(i64, i64)>,
    motion_anchors: Vec<i64>,
}

impl AutoCutAnalyzer for FakeAnalyzer {
    fn scene_changes(&self, _video_path: &str, _threshold_bits: u64) -> Vec<i64> {
        self.scene_changes.clone()
    }

    fn audio_activity(
        &self,
        _video_path: &str,
        _threshold_bits: u64,
        _duration: TimeValue,
    ) -> Vec<(i64, i64)> {
        self.audio_regions.clone()
    }

    fn motion_anchors(&self, _video_path: &str, _threshold_bits: u64) -> Vec<i64> {
        self.motion_anchors.clone()
    }
}

fn project_with_autocut(auto_cut: AutoCut, input_duration: u64) -> NormalizedProject {
    NormalizedProject {
        project_path: "project.toml".to_owned(),
        project_dir: ".".to_owned(),
        output_path: "dist/out.mp4".to_owned(),
        render: RenderConfig::default(),
        inputs: vec![Input {
            name: "main".to_owned(),
            path: "raw/vod.mp4".to_owned(),
            chat: None,
            metadata: Some(InputMetadata {
                size_bytes: 100,
                modified_unix_millis: None,
                duration: Some(TimeValue::from_millis(input_duration)),
            }),
        }],
        clips: vec![],
        auto_cuts: vec![auto_cut],
        story_videos: vec![],
    }
}

fn basic_autocut(rules: Vec<AutoCutRule>) -> AutoCut {
    AutoCut {
        name: "main_autocut".to_owned(),
        input: "main".to_owned(),
        target_duration: TimeValue::from_millis(60_000),
        clip_duration: TimeValue::from_millis(20_000),
        min_clip_duration: TimeValue::from_millis(10_000),
        rules,
        output_mode: AutoCutOutputMode::Single,
    }
}

#[test]
fn generates_autocut_from_config() {
    let config = AutoCutConfig {
        name: "test".to_string(),
        input: "main".to_string(),
        target_duration: TimeValue::from_millis(300000),
        clip_duration: TimeValue::from_millis(30000),
        min_clip_duration: TimeValue::from_millis(15000),
        rules: vec![],
        output_mode: "single".to_string(),
    };

    let autocut = generate_autocut(&config);

    assert_eq!(autocut.name, "test");
    assert_eq!(autocut.input, "main");
    assert_eq!(autocut.target_duration.millis(), 300000);
    assert_eq!(autocut.clip_duration.millis(), 30000);
}

#[test]
fn builds_autocut_plan_from_project_duration() {
    let mut auto_cut = basic_autocut(vec![]);
    auto_cut.clip_duration = TimeValue::from_millis(30_000);
    let project = project_with_autocut(auto_cut, 65_000);
    assert!(autocuts_fit_check(&project));

    let plan = build_autocut_plan_with_analyzer(&project, &FakeAnalyzer::default()).unwrap();

    assert_eq!(plan.auto_cuts.len(), 1);
    assert_eq!(plan.auto_cuts[0].clips.len(), 2);
    assert_eq!(plan.auto_cuts[0].clips[1].start.millis(), 30_000);
    assert!(plan.auto_cuts[0].analysis.fallback_used);
}

#[test]
fn autocut_plan_respects_target_duration() {
    let project = project_with_autocut(basic_autocut(vec![]), 180_000);

    let plan = build_autocut_plan_with_analyzer(&project, &FakeAnalyzer::default()).unwrap();

    assert_eq!(plan.auto_cuts[0].clips.len(), 3);
    assert_eq!(plan.auto_cuts[0].clips[2].end.millis(), 60_000);
}

#[test]
fn autocut_plan_uses_scene_and_audio_rule_analysis() {
    let project = project_with_autocut(
        basic_autocut(vec![
            AutoCutRule::SceneChange { threshold_bits: 0.3f64.to_bits() },
            AutoCutRule::AudioActivity { threshold_bits: 0.01f64.to_bits() },
        ]),
        120_000,
    );
    let analyzer = FakeAnalyzer {
        scene_changes: vec![8_000, 50_000],
        audio_regions: vec![(82_000, 96_000)],
        motion_anchors: vec![],
    };

    let plan = build_autocut_plan_with_analyzer(&project, &analyzer).unwrap();

    assert!(!plan.auto_cuts[0].analysis.fallback_used);
    assert_eq!(
        plan.auto_cuts[0]
            .analysis
            .scene_changes
            .iter()
            .map(|timestamp| timestamp.millis())
            .collect::<Vec<_>>(),
        vec![8_000, 50_000]
    );
    assert_eq!(plan.auto_cuts[0].analysis.audio_regions[0].start.millis(), 82_000);
    assert_eq!(plan.auto_cuts[0].clips[0].start.millis(), 8_000);
    assert_eq!(plan.auto_cuts[0].clips[1].start.millis(), 40_000);
}

#[test]
fn autocut_plan_uses_motion_rule_as_visual_anchor() {
    let project = project_with_autocut(
        basic_autocut(vec![AutoCutRule::Motion { threshold_bits: 0.1f64.to_bits() }]),
        120_000,
    );
    let analyzer = FakeAnalyzer { motion_anchors: vec![35_000], ..Default::default() };

    let plan = build_autocut_plan_with_analyzer(&project, &analyzer).unwrap();

    assert!(!plan.auto_cuts[0].analysis.fallback_used);
    assert_eq!(plan.auto_cuts[0].analysis.scene_changes[0].millis(), 35_000);
    assert_eq!(plan.auto_cuts[0].clips[0].start.millis(), 35_000);
}

#[test]
fn normalizes_autocut_config_from_project_config() {
    let config = ProjectConfig {
        output: OutputConfig { path: "dist/out.mp4".to_owned() },
        input: vec![(
            "main".to_owned(),
            InputConfig { path: "raw/vod.mp4".to_owned(), chat: None },
        )],
        render: RenderConfig::default(),
        clips: vec![],
        auto_cuts: vec![AutoCutConfig {
            name: "main_autocut".to_owned(),
            input: "main".to_owned(),
            target_duration: TimeValue::from_millis(60_000),
            clip_duration: TimeValue::from_millis(30_000),
            min_clip_duration: TimeValue::from_millis(10_000),
            rules: vec![AutoCutRuleConfig::SceneChange { threshold_bits: 0.3f64.to_bits() }],
            output_mode: "multiple".to_owned(),
        }],
        story_videos: vec![],
    };

    let auto_cut = generate_autocut(&config.auto_cuts[0]);

    assert_eq!(auto_cut.output_mode, AutoCutOutputMode::Multiple);
    assert!(matches!(
        auto_cut.rules[0],
        AutoCutRule::SceneChange { threshold_bits } if f64::from_bits(threshold_bits) == 0.3
    ));
}

#[test]
fn autocut_plan_outputs_are_contiguous() {
    let project = project_with_autocut(basic_autocut(vec![]), 180_000);

    let plan = build_autocut_plan_with_analyzer(&project, &FakeAnalyzer::default()).unwrap();
    let clips = &plan.auto_cuts[0].clips;

    assert_eq!(clips[0].output_start.millis(), 0);
    for pair in clips.windows(2) {
        assert_eq!(pair[0].output_end, pair[1].output_start);
    }
    for clip in clips {
        assert_eq!(clip.output_end.millis() - clip.output_start.millis(), clip.duration.millis());
        assert_eq!(clip.end.millis() - clip.start.millis(), clip.duration.millis());
    }
    assert_eq!(plan.auto_cuts[0].input_path, "raw/vod.mp4");
}

#[test]
fn autocut_plan_sorts_and_dedups_analysis() {
    let project = project_with_autocut(
        basic_autocut(vec![
            AutoCutRule::SceneChange { threshold_bits: 0 },
            AutoCutRule::Motion { threshold_bits: 0 },
            AutoCutRule::AudioActivity { threshold_bits: 0 },
            AutoCutRule::AudioActivity { threshold_bits: 0 },
        ]),
        120_000,
    );
    let analyzer = FakeAnalyzer {
        scene_changes: vec![50_000, 8_000],
        audio_regions: vec![(90_000, 95_000), (82_000, 96_000)],
        motion_anchors: vec![8_000, 30_000],
    };

    let plan = build_autocut_plan_with_analyzer(&project, &analyzer).unwrap();
    let analysis = &plan.auto_cuts[0].analysis;

    assert_eq!(
        analysis.scene_changes.iter().map(|t| t.millis()).collect::<Vec<_>>(),
        vec![8_000, 30_000, 50_000]
    );
    assert_eq!(analysis.audio_regions.len(), 2);
    assert_eq!(analysis.audio_regions[0].start.millis(), 82_000);
    assert_eq!(analysis.audio_regions[1].start.millis(), 90_000);
}

#[test]
fn autocut_plan_rejects_unknown_input() {
    let mut auto_cut = basic_autocut(vec![]);
    auto_cut.input = "other".to_owned();
    let project = project_with_autocut(auto_cut, 60_000);

    let err = build_autocut_plan_with_analyzer(&project, &FakeAnalyzer::default()).unwrap_err();

    assert_eq!(
        err,
        CutlineError::InvalidProject(
            "unknown input \"other\" at auto_cut \"main_autocut\"".to_owned()
        )
    );
}

#[test]
fn autocut_plan_requires_probed_duration() {
    let mut project = project_with_autocut(basic_autocut(vec![]), 60_000);
    project.inputs[0].metadata = None;

    let err = build_autocut_plan_with_analyzer(&project, &FakeAnalyzer::default()).unwrap_err();

    assert_eq!(
        err,
        CutlineError::InvalidProject(
            "auto_cut \"main_autocut\" requires probed duration for input \"main\"".to_owned()
        )
    );
}

#[test]
fn fallback_steps_fit_detects_overflow() {
    assert!(fallback_steps_fit(95_000, 30_000));
    assert!(!fallback_steps_fit(i64::MAX, i64::MAX / 2 + 1));
    assert!(fallback_steps_fit(i64::MAX, i64::MAX));
}
