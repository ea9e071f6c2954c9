use cutline::config::{
    rule_from_name, text_is_before, AutoCutRuleConfig, InputConfig, OutputConfig, ProjectConfig,
    RenderConfig,
};
use cutline::validate::render_container_check;

fn with_inputs(names: &[&str]) -> ProjectConfig {
    ProjectConfig {
        output: OutputConfig { path: "out.mp4".to_owned() },
        input: names
            .iter()
            .map(|name| {
                (
                    (*name).to_owned(),
                    InputConfig { path: format!("{name}.mp4"), chat: None },
                )
            })
            .collect(),
        render: RenderConfig::default(),
        clips: vec![],
        auto_cuts: vec![],
        story_videos: vec![],
    }
}

#[test]
fn parses_autocut_rule_names_with_default_thresholds() {
    let names = ["scene_change", "audio_activity", "motion"];
    let rules: Vec<AutoCutRuleConfig> =
        names.iter().map(|name| rule_from_name(name).unwrap()).collect();

    assert!(matches!(
        rules[0],
        AutoCutRuleConfig::SceneChange { threshold_bits } if f64::from_bits(threshold_bits) == 0.3
    ));
    assert!(matches!(
        rules[1],
        AutoCutRuleConfig::AudioActivity { threshold_bits } if f64::from_bits(threshold_bits) == 0.01
    ));
    assert!(matches!(
        rules[2],
        AutoCutRuleConfig::Motion { threshold_bits } if f64::from_bits(threshold_bits) == 0.1
    ));
}

#[test]
fn unknown_rule_name_is_refused() {
    assert!(rule_from_name("brightness").is_err());
}

#[test]
fn render_defaults_are_mp4_h264_aac_veryfast() {
    let render = RenderConfig::default();
    assert_eq!(render.video_codec, "libx264");
    assert_eq!(render.audio_codec, "aac");
    assert_eq!(render.video_bitrate, "4000k");
    assert_eq!(render.audio_bitrate, "300k");
    assert_eq!(render.pixel_format, "yuv420p");
    assert_eq!(render.container, "mp4");
    assert_eq!(render.preset.as_deref(), Some("veryfast"));
    assert_eq!(render.crf, Some(23));
    assert!(render.extra.input_args.is_empty());
    assert!(render.extra.output_args.is_empty());
}

#[test]
fn input_names_follow_string_order() {
    assert!(text_is_before("a", "ab"));
    assert!(text_is_before("ab", "b"));
    assert!(text_is_before("Z", "a"));
    assert!(!text_is_before("b", "ab"));
    assert!(!text_is_before("main", "main"));
    assert!(text_is_before("", "a"));
    assert!(!text_is_before("a", ""));
}

#[test]
fn inputs_are_keyed_by_name_in_order() {
    assert!(with_inputs(&[]).inputs_in_key_order());
    assert!(with_inputs(&["broll", "main", "mainb"]).inputs_in_key_order());
    assert!(!with_inputs(&["main", "broll"]).inputs_in_key_order());
    assert!(!with_inputs(&["main", "main"]).inputs_in_key_order());
}

#[test]
fn only_mp4_container_is_accepted() {
    let mut render = RenderConfig::default();
    assert!(render_container_check(&render).is_ok());
    render.container = "mkv".to_owned();
    assert_eq!(
        render_container_check(&render).unwrap_err().message(),
        "invalid project: render.container must be \"mp4\" in V1, got \"mkv\""
    );
}
