use cutline::autocut::{
    generate_clips_from_analysis, parse_audio_activity_from_silencedetect,
    parse_key_seconds_millis, parse_scene_showinfo,
};

#[test]
fn generates_fallback_clips_when_analysis_is_empty() {
    let clips = generate_clips_from_analysis(95_000, 30_000, 15_000, &[], &[]);

    assert_eq!(clips, vec![(0, 30_000), (30_000, 60_000), (60_000, 90_000)]);
}

#[test]
fn keeps_short_final_fallback_clip_when_it_meets_minimum_duration() {
    let clips = generate_clips_from_analysis(75_000, 30_000, 15_000, &[], &[]);

    assert_eq!(clips, vec![(0, 30_000), (30_000, 60_000), (60_000, 75_000)]);
}

#[test]
fn uses_scene_and_audio_anchors_without_overlapping_clips() {
    let clips = generate_clips_from_analysis(
        120_000,
        20_000,
        10_000,
        &[5_000, 12_000, 50_000],
        &[(80_000, 95_000)],
    );

    assert_eq!(
        clips,
        vec![(5_000, 25_000), (50_000, 70_000), (80_000, 100_000)]
    );
}

#[test]
fn parses_scene_showinfo_timestamps() {
    let timestamps = parse_scene_showinfo(
        "[Parsed_showinfo_1 @ 0x] n: 0 pts: 12000 pts_time:12 pos:0\n\
         [Parsed_showinfo_1 @ 0x] n: 1 pts: 34567 pts_time:34.567 pos:0\n",
    );

    assert_eq!(timestamps, vec![12_000, 34_567]);
}

#[test]
fn parses_audio_activity_from_silencedetect_output() {
    let regions = parse_audio_activity_from_silencedetect(
        "[silencedetect @ 0x] silence_start: 3\n\
         [silencedetect @ 0x] silence_end: 5.5 | silence_duration: 2.5\n\
         [silencedetect @ 0x] silence_start: 12.25\n",
        Some(20_000),
    );

    assert_eq!(regions, vec![(0, 3_000), (5_500, 12_250)]);
}

#[test]
fn anchors_near_the_end_are_pulled_back_inside_the_span() {
    let clips = generate_clips_from_analysis(100_000, 30_000, 10_000, &[90_000], &[]);
    assert_eq!(clips, vec![(70_000, 100_000)]);
}

#[test]
fn out_of_span_analysis_falls_back_to_even_pieces() {
    let clips = generate_clips_from_analysis(50_000, 20_000, 10_000, &[-5, 60_000], &[(70_000, 80_000)]);
    assert_eq!(clips, vec![(0, 20_000), (20_000, 40_000), (40_000, 50_000)]);
}

#[test]
fn non_positive_durations_give_no_clips() {
    assert!(generate_clips_from_analysis(0, 10, 10, &[], &[]).is_empty());
    assert!(generate_clips_from_analysis(100, 0, 10, &[], &[]).is_empty());
    assert!(generate_clips_from_analysis(100, 10, -1, &[1], &[]).is_empty());
}

#[test]
fn reads_the_first_token_after_the_key() {
    assert_eq!(parse_key_seconds_millis("x silence_end: 5.5| d", "silence_end:"), Some(5_500));
    assert_eq!(parse_key_seconds_millis("pts_time:-0 ", "pts_time:"), Some(0));
    assert_eq!(parse_key_seconds_millis("pts_time:-1", "pts_time:"), None);
    assert_eq!(parse_key_seconds_millis("pts_time:   ", "pts_time:"), None);
    assert_eq!(parse_key_seconds_millis("no key here", "pts_time:"), None);
    assert_eq!(parse_key_seconds_millis("pts_time:1e30", "pts_time:"), Some(i64::MAX));
}

#[test]
fn silence_without_end_closes_no_region() {
    let regions = parse_audio_activity_from_silencedetect("silence_start: 0\n", Some(10_000));
    assert!(regions.is_empty());
    let regions = parse_audio_activity_from_silencedetect("", Some(10_000));
    assert_eq!(regions, vec![(0, 10_000)]);
    let regions = parse_audio_activity_from_silencedetect("", None);
    assert!(regions.is_empty());
}

#[test]
fn same_anchor_values_give_same_clips() {
    let first = generate_clips_from_analysis(
        120_000,
        20_000,
        10_000,
        &[5_000, 12_000, 50_000],
        &[(80_000, 95_000)],
    );
    let second = generate_clips_from_analysis(
        120_000,
        20_000,
        10_000,
        &[50_000, 5_000, -3_000, 12_000, 130_000, 5_000],
        &[(80_000, 95_000), (80_000, 90_000), (125_000, 140_000)],
    );

    assert_eq!(first, second);
}

#[test]
fn out_of_span_analysis_falls_back_like_no_analysis() {
    let empty = generate_clips_from_analysis(95_000, 30_000, 15_000, &[], &[]);
    let outside = generate_clips_from_analysis(95_000, 30_000, 15_000, &[-5, 99_000], &[]);

    assert_eq!(empty, outside);
}

#[test]
fn key_seconds_beyond_f64_range_are_refused() {
    assert_eq!(parse_key_seconds_millis("pts_time:1e309 pos:0", "pts_time:"), None);
    assert_eq!(
        parse_key_seconds_millis("pts_time:1e308 pos:0", "pts_time:"),
        Some(i64::MAX)
    );
}
