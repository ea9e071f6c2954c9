use cutline::error::CutlineError;
use cutline::time::TimeValue;

#[test]
fn parses_supported_time_values() {
    assert_eq!(TimeValue::parse("12:34").unwrap().millis(), 754_000);
    assert_eq!(TimeValue::parse("01:12:34").unwrap().millis(), 4_354_000);
    assert_eq!(
        TimeValue::parse("01:12:34.567").unwrap().millis(),
        4_354_567
    );
    assert_eq!(TimeValue::parse("754.2s").unwrap().millis(), 754_200);
    assert_eq!(TimeValue::parse("754200").unwrap().millis(), 754_200);
}

#[test]
fn displays_canonical_time() {
    assert_eq!(TimeValue::from_millis(4_354_567).display(), "01:12:34.567");
}

#[test]
fn formats_ffmpeg_seconds() {
    assert_eq!(
        TimeValue::from_millis(4_354_567).as_ffmpeg_seconds(),
        "4354.567"
    );
}

#[test]
fn rejects_out_of_range_colon_parts() {
    assert!(TimeValue::parse("01:60:00").is_err());
    assert!(TimeValue::parse("01:00:60").is_err());
}

#[test]
fn display_reads_back_as_the_same_time() {
    for millis in [0u64, 1, 999, 59_999, 3_599_999, 4_354_567, 360_000_000_123] {
        let t = TimeValue::from_millis(millis);
        assert_eq!(TimeValue::parse(&t.display()).unwrap().millis(), millis);
        let seconds = format!("{}s", t.as_ffmpeg_seconds());
        assert_eq!(TimeValue::parse(&seconds).unwrap().millis(), millis);
    }
}

#[test]
fn displays_hours_past_two_digits() {
    assert_eq!(TimeValue::from_millis(360_000_123).display(), "100:00:00.123");
}

#[test]
fn reads_seconds_like_f64_then_rounds_half_up() {
    assert_eq!(TimeValue::parse("0.0005s").unwrap().millis(), 1);
    assert_eq!(TimeValue::parse("0.0004s").unwrap().millis(), 0);
    assert_eq!(TimeValue::parse("1e3s").unwrap().millis(), 1_000_000);
    assert_eq!(TimeValue::parse("+.5s").unwrap().millis(), 500);
    assert_eq!(TimeValue::parse("5.s").unwrap().millis(), 5_000);
    assert_eq!(TimeValue::parse("-0s").unwrap().millis(), 0);
    assert_eq!(TimeValue::parse("  2.25E1s \n").unwrap().millis(), 22_500);
    assert!(TimeValue::parse("-1s").is_err());
    assert!(TimeValue::parse("infs").is_err());
    assert!(TimeValue::parse("nans").is_err());
    assert!(TimeValue::parse(".s").is_err());
    assert!(TimeValue::parse("1e s").is_err());
}

#[test]
fn refused_text_is_reported() {
    match TimeValue::parse(" abc ") {
        Err(CutlineError::InvalidTime(text)) => assert_eq!(text, "abc"),
        other => panic!("unexpected {other:?}"),
    }
    match TimeValue::parse("1.5xs") {
        Err(CutlineError::InvalidTime(text)) => assert_eq!(text, "1.5xs"),
        other => panic!("unexpected {other:?}"),
    }
    match TimeValue::parse("aa:10") {
        Err(CutlineError::InvalidTime(text)) => assert_eq!(text, "aa"),
        other => panic!("unexpected {other:?}"),
    }
    match TimeValue::parse("01:02.x") {
        Err(CutlineError::InvalidTime(text)) => assert_eq!(text, "x00"),
        other => panic!("unexpected {other:?}"),
    }
    match TimeValue::parse("1:2:3:4") {
        Err(CutlineError::InvalidTime(text)) => assert_eq!(text, "1:2:3:4"),
        other => panic!("unexpected {other:?}"),
    }
    assert_eq!(
        TimeValue::parse("x").unwrap_err().message(),
        "invalid time value: x"
    );
}

#[test]
fn colon_time_fraction_keeps_three_digits() {
    assert_eq!(TimeValue::parse("00:01.2").unwrap().millis(), 1_200);
    assert_eq!(TimeValue::parse("00:01.23456").unwrap().millis(), 1_234);
    assert_eq!(TimeValue::parse("+1:+2").unwrap().millis(), 62_000);
}

#[test]
fn parse_is_defined_except_where_reading_would_abort() {
    assert!(TimeValue::parse_is_defined("01:00:00"));
    assert!(!TimeValue::parse_is_defined("00:00.éé"));
    assert!(!TimeValue::parse_is_defined("99999999999999999999:00:00") == false);
    assert!(!TimeValue::parse_is_defined("9999999999999:00:00"));
}

#[test]
fn error_messages_by_kind() {
    use_errors();
}

fn use_errors() {
    assert_eq!(
        cutline::error::CutlineError::InvalidTime("1:99".to_owned()).message(),
        "invalid time value: 1:99"
    );
    assert_eq!(
        cutline::error::CutlineError::InvalidProject("bad".to_owned()).message(),
        "invalid project: bad"
    );
    assert_eq!(cutline::error::CutlineError::Io("denied".to_owned()).message(), "denied");
    assert_eq!(cutline::error::CutlineError::Toml("expected `=`".to_owned()).message(), "expected `=`");
    assert_eq!(
        cutline::error::CutlineError::NonUtf8Path("/tmp/x".to_owned()).message(),
        "path is not valid UTF-8: /tmp/x"
    );
}

#[test]
fn seconds_beyond_f64_range_are_refused() {
    match TimeValue::parse("1e309s") {
        Err(CutlineError::InvalidTime(text)) => assert_eq!(text, "1e309s"),
        other => panic!("unexpected {other:?}"),
    }
    let overflow = "179769313486231580793728971405303415079934132710037826936173778980444968292764750946649017977587207096330286416692887910946555547851940402630657488671505820681908902000708383676273854845817711531764475730270069855571366959622842914819860834936475292719074168444365510704342711559699508093042880177904174497792";
    assert!(TimeValue::parse(&format!("{overflow}s")).is_err());
    assert!(TimeValue::parse(&format!("{overflow}.0e0s")).is_err());
    assert!(TimeValue::parse(&format!("0.{overflow}e309s")).is_err());
    let below = "179769313486231580793728971405303415079934132710037826936173778980444968292764750946649017977587207096330286416692887910946555547851940402630657488671505820681908902000708383676273854845817711531764475730270069855571366959622842914819860834936475292719074168444365510704342711559699508093042880177904174497791";
    assert_eq!(TimeValue::parse(&format!("{below}s")).unwrap().millis(), u64::MAX);
    assert_eq!(TimeValue::parse("1e308s").unwrap().millis(), u64::MAX);
    assert_eq!(TimeValue::parse("000.5e3s").unwrap().millis(), 500_000);
}

#[test]
fn negative_seconds_that_read_as_zero_are_zero() {
    assert_eq!(TimeValue::parse("-0.0s").unwrap().millis(), 0);
    assert_eq!(TimeValue::parse("-1e-400s").unwrap().millis(), 0);
    assert!(TimeValue::parse("-1e-300s").is_err());
    assert!(TimeValue::parse("-0.001s").is_err());
    let half_least = "24703282292062327208828439643411068618252990130716238221279284125033775363510437593264991818081799618989828234772285886546332835517796989819938739800539093906315035659515570226392290858392449105184435931802849936536152500319370457678249219365623669863658480757001585769269903706311928279558551332927834338409351978015531246597263579574622766465272827220056374006485499977096599470454020828166226237857393450736339007967761930577506740176324673600968951340535537458516661134223766678604162159680461914467291840300530057530849048765391711386591646239524912623653881879636239373280423891018672348497668235089863388587925628302755995657524455507255189313690836254779186948667994968324049705821028513185451396213837722826145437693412532098591327667236328125";
    assert_eq!(TimeValue::parse(&format!("-0.{half_least}e-323s")).unwrap().millis(), 0);
    assert!(TimeValue::parse(&format!("-0.{half_least}1e-323s")).is_err());
}
