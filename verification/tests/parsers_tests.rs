use gidterm::metrics::{MetricValue, TaskMetrics};
use gidterm::parsers::build_output::{build_metrics, BuildParser, BuildReadings};
use gidterm::parsers::generic::RegexParser;
use gidterm::parsers::ml_training::{assemble, MLTrainingParser, TrainingReadings};
use gidterm::parsers::generic::progress_told;
use gidterm::parsers::{count_flags, count_lines, flagged_lines, last_captures, last_found, ratio};
use gidterm::pattern::Pattern;
use gidterm::registry::{OutputParser, ParserRegistry};
use gidterm::text::{parse_decimal, parse_whole, split_lines};

fn whole(m: &TaskMetrics, name: &str) -> Option<i64> {
    m.metrics.get(name).and_then(|v| v.as_int())
}

fn fixed(m: &TaskMetrics, name: &str) -> Option<i64> {
    m.metrics.get(name).and_then(|v| v.as_decimal())
}

#[test]
fn test_cargo_build_output() {
    let parser = BuildParser::new().unwrap();

    let output = "   Compiling serde v1.0.204\n   Compiling tokio v1.40.0\n   Compiling gidterm v0.2.0\nwarning[unused_import]: unused import\n    Finished `dev` profile [unoptimized + debuginfo] target(s) in 4.32s";

    let metrics = parser.parse(output);

    assert_eq!(metrics.progress, 1_000_000);
    assert_eq!(whole(&metrics, "crates_compiled"), Some(3));
    assert_eq!(whole(&metrics, "warnings"), Some(1));
    assert_eq!(fixed(&metrics, "build_time_secs"), Some(4_320_000));
    assert_eq!(metrics.phase, Some("Finished".to_string()));
}

#[test]
fn build_parse_scenario() {
    let parser = BuildParser::new().unwrap();
    let window = "Compiling serde v1.0.204\nCompiling app v0.1.0\nwarning[unused_import]: unused import\n    Finished `dev` profile [unoptimized + debuginfo] target(s) in 4.32s";
    let m = parser.parse(window);
    assert_eq!(m.progress, 1_000_000);
    assert_eq!(m.metrics.len(), 4);
    assert_eq!(whole(&m, "crates_compiled"), Some(2));
    assert_eq!(whole(&m, "warnings"), Some(1));
    assert_eq!(fixed(&m, "build_time_secs"), Some(4_320_000));
    assert_eq!(m.metrics.get("profile").and_then(|v| v.as_string()), Some("dev"));
    assert_eq!(m.phase.as_deref(), Some("Finished"));
    assert!(m.errors.is_empty());
}

#[test]
fn test_cargo_test_output() {
    let parser = BuildParser::new().unwrap();

    let output = "test result: ok. 16 passed; 0 failed; 0 ignored; 0 measured; 0 filtered out";

    let metrics = parser.parse(output);
    assert_eq!(whole(&metrics, "tests_passed"), Some(16));
    assert_eq!(whole(&metrics, "tests_failed"), Some(0));
    assert_eq!(metrics.phase.as_deref(), Some("Testing"));
}

#[test]
fn test_step_progress() {
    let parser = BuildParser::new().unwrap();

    let output = "[3/10] Building module foo\n[4/10] Building module bar";

    let metrics = parser.parse(output);
    assert_eq!(metrics.progress, 400_000);
}

#[test]
fn test_error_extraction() {
    let parser = BuildParser::new().unwrap();

    let output = "error[E0308]: mismatched types\n  --> src/main.rs:10:5";

    let metrics = parser.parse(output);
    assert!(!metrics.errors.is_empty());
    assert_eq!(metrics.errors, vec!["error[E0308]: mismatched types"]);
    assert_eq!(whole(&metrics, "errors"), Some(1));
}

#[test]
fn build_parser_counts_npm_lines_and_names_its_types() {
    let parser = BuildParser::new().unwrap();
    let m = parser.parse("npm warn deprecated x\nnpm ERR! code E404\nERROR: bad\nCompiling a v1\nLinking");
    assert_eq!(whole(&m, "warnings"), Some(1));
    assert_eq!(whole(&m, "errors"), Some(2));
    assert_eq!(m.errors, vec!["npm ERR! code E404", "ERROR: bad"]);
    assert_eq!(m.phase.as_deref(), Some("Linking"));
    assert_eq!(m.progress, 0);
    assert_eq!(parser.name(), "build");
    assert_eq!(parser.supported_types(), vec!["build", "compile", "Build", "BugFix", "Refactor"]);
    assert!(parser.can_parse("   Compiling serde v1.0.204"));
    assert!(parser.can_parse("[1/2]"));
    assert!(!parser.can_parse("hello"));
    let only = parser.parse("   Compiling serde v1.0.204");
    assert_eq!(only.phase.as_deref(), Some("Compiling"));
}

#[test]
fn build_phase_is_the_latest_that_shows() {
    let parser = BuildParser::new().unwrap();
    let m = parser.parse("Compiling a v1\ntest result: ok. 1 passed; 0 failed\nFinished `release` profile in 1.5s");
    assert_eq!(m.phase.as_deref(), Some("Finished"));
    assert_eq!(fixed(&m, "build_time_secs"), Some(1_500_000));
    let m = parser.parse("Compiling a v1\nLinking\ntest result: ok. 1 passed; 0 failed");
    assert_eq!(m.phase.as_deref(), Some("Testing"));
}

fn readings() -> BuildReadings {
    BuildReadings {
        warnings: 0,
        errors: 0,
        crates: 0,
        finished: false,
        build_time: None,
        profile: None,
        tests: None,
        step: None,
        error_lines: vec![],
        compiling: false,
        linking: false,
        testing: false,
    }
}

#[test]
fn build_metrics_from_readings() {
    let blank = build_metrics(readings());
    assert_eq!(blank.progress, 0);
    assert!(blank.metrics.is_empty());
    assert_eq!(blank.phase, None);
    assert!(!blank.has_content());

    let mut r = readings();
    r.warnings = 2;
    r.crates = 7;
    r.step = Some((1, 4));
    r.compiling = true;
    r.tests = Some((5, 1));
    let m = build_metrics(r);
    assert_eq!(m.progress, 250_000);
    assert_eq!(m.phase.as_deref(), Some("Compiling"));
    assert_eq!(whole(&m, "warnings"), Some(2));
    assert_eq!(whole(&m, "errors"), None);
    assert_eq!(whole(&m, "crates_compiled"), Some(7));
    assert_eq!(whole(&m, "tests_passed"), Some(5));
    assert_eq!(whole(&m, "tests_failed"), Some(1));
    assert_eq!(m.metrics.key_at(0), "warnings");
    assert_eq!(m.metrics.key_at(1), "crates_compiled");

    let mut r = readings();
    r.finished = true;
    r.profile = Some("dev".to_string());
    r.step = Some((1, 4));
    let m = build_metrics(r);
    // the build has ended, whatever the steps say
    assert_eq!(m.progress, 1_000_000);
    assert_eq!(m.phase.as_deref(), Some("Finished"));
    assert_eq!(m.metrics.len(), 1);
    assert_eq!(m.metrics.get("profile").and_then(|v| v.as_string()), Some("dev"));
}

#[test]
fn a_finished_line_without_a_readable_time_still_ends_the_build() {
    let parser = BuildParser::new().unwrap();
    let m = parser.parse("[1/4] step\nFinished `dev` profile in 1.2.3s");
    assert_eq!(m.progress, 1_000_000);
    assert_eq!(m.phase.as_deref(), Some("Finished"));
    assert!(m.metrics.get("build_time_secs").is_none());
    assert_eq!(m.metrics.get("profile").and_then(|v| v.as_string()), Some("dev"));
}

#[test]
fn ratio_is_a_share_of_one() {
    assert_eq!(ratio(4, 10), 400_000);
    assert_eq!(ratio(1, 3), 333_333);
    assert_eq!(ratio(0, 5), 0);
    assert_eq!(ratio(5, 5), 1_000_000);
    assert_eq!(ratio(7, 5), 1_000_000);
    assert_eq!(ratio(3, 0), 0);
    assert_eq!(ratio(i64::MAX, 1), 1_000_000);
}

#[test]
fn training_parser_reads_the_last_values() {
    let parser = MLTrainingParser::new().unwrap();
    let m = parser.parse("Epoch 1/10 - loss: 0.9 - acc: 0.5\nEpoch 3/10 - loss: 0.234 - accuracy: 0.876 - lr: 0.001");
    assert_eq!(m.progress, 300_000);
    assert_eq!(whole(&m, "epoch"), Some(3));
    assert_eq!(whole(&m, "total_epochs"), Some(10));
    assert_eq!(fixed(&m, "loss"), Some(234_000));
    assert_eq!(fixed(&m, "accuracy"), Some(876_000));
    assert_eq!(fixed(&m, "lr"), Some(1_000));
    assert!(m.errors.is_empty());
    assert_eq!(parser.name(), "ml-training");
    assert!(parser.can_parse("epoch 2/5"));
    assert!(parser.can_parse("loss: 1.0"));
    assert!(!parser.can_parse("[1/2] Building"));
    assert!(parser.supported_types().contains(&"ml_training"));
}

#[test]
fn training_parser_reports_a_loss_that_is_no_number() {
    let parser = MLTrainingParser::new().unwrap();
    let m = parser.parse("epoch 2/4\nloss: NaN");
    assert_eq!(m.errors, vec!["Loss is NaN - training diverged"]);
    assert_eq!(fixed(&m, "loss"), None);
    assert_eq!(m.progress, 500_000);
}

#[test]
fn training_metrics_from_readings() {
    let m = assemble(TrainingReadings {
        epoch: Some((9, 3)),
        loss: Some(1),
        loss_is_nan: false,
        accuracy: None,
        learning_rate: Some(2),
    });
    assert_eq!(m.progress, 1_000_000);
    assert_eq!(m.metrics.len(), 4);
    assert_eq!(fixed(&m, "lr"), Some(2));
    assert_eq!(m.phase, None);
    let nothing = assemble(TrainingReadings {
        epoch: None,
        loss: None,
        loss_is_nan: true,
        accuracy: None,
        learning_rate: None,
    });
    assert_eq!(nothing.progress, 0);
    assert!(nothing.metrics.is_empty());
    assert_eq!(nothing.errors.len(), 1);
}

#[test]
fn generic_parser_takes_the_last_line_that_tells_progress() {
    let parser = RegexParser::default_parser().unwrap();
    assert_eq!(parser.parse("10%\nhalf way: 50%\nstill going").progress, 500_000);
    assert_eq!(parser.parse("25%\n[3/4] step").progress, 750_000);
    assert_eq!(parser.parse("[3/4] at 12.5%").progress, 125_000);
    assert_eq!(parser.parse("150%").progress, 1_000_000);
    assert_eq!(parser.parse("nothing here").progress, 0);
    assert!(parser.parse("42%").metrics.is_empty());
    assert!(parser.can_parse("42 %"));
    assert!(!parser.can_parse("nothing"));
    assert_eq!(parser.name(), "regex");
}

#[test]
fn registry_parses_nothing_off_an_empty_text() {
    let registry = ParserRegistry::with_defaults().unwrap();
    let m = registry.parse(None, "");
    assert_eq!(m.progress, 0);
    assert!(m.metrics.is_empty());
    assert!(m.errors.is_empty());
    assert_eq!(m.phase, None);
    let typed = registry.parse(Some("build"), "");
    assert!(!typed.has_content());
}

#[test]
fn registry_picks_by_type_then_by_look() {
    let registry = ParserRegistry::with_defaults().unwrap();
    assert_eq!(registry.names(), vec!["ml-training", "build", "regex"]);
    // by type: the build parser, though the text looks like training
    let m = registry.parse(Some("build"), "epoch 1/2 [1/4]");
    assert_eq!(m.progress, 250_000);
    assert_eq!(whole(&m, "epoch"), None);
    // by look: the training parser comes first
    let m = registry.parse(None, "epoch 1/2 [1/4]");
    assert_eq!(m.progress, 500_000);
    // an unknown type falls back to the look
    let m = registry.parse(Some(""), "   Compiling a v1");
    assert_eq!(whole(&m, "crates_compiled"), Some(1));
    // the parser of last resort
    let m = registry.parse(None, "done 30%");
    assert_eq!(m.progress, 300_000);
    // no parser at all
    let m = registry.parse(None, "hello");
    assert!(!m.has_content());
    assert!(!ParserRegistry::new().parse(None, "42%").has_content());
}

#[test]
fn registry_takes_parsers_in_the_order_given() {
    let mut registry = ParserRegistry::new();
    registry.register(OutputParser::Regex(RegexParser::default_parser().unwrap()));
    registry.register(OutputParser::Build(BuildParser::new().unwrap()));
    let m = registry.parse(None, "[1/4] Compiling a v1");
    assert_eq!(m.progress, 250_000);
    assert!(m.metrics.is_empty());
    let defaults = ParserRegistry::with_defaults().unwrap();
    assert_eq!(defaults.parse(Some("compile"), "[1/4] Compiling a v1").metrics.len(), 1);
}

#[test]
fn patterns_are_those_of_the_regex_crate() {
    assert!(Pattern::new("a(b").is_none());
    let whole = Pattern::new("^a+$").unwrap();
    assert!(whole.is_match("aaa"));
    assert!(!whole.is_match("aab"));
    let p = Pattern::new("(\\d+)-(x)?(\\d+)").unwrap();
    assert!(p.is_match("on 12-34"));
    assert_eq!(
        p.captures("on 12-34 and 5-6"),
        Some(vec![Some("12-34".to_string()), Some("12".to_string()), None, Some("34".to_string())])
    );
    assert_eq!(p.captures("none"), None);
    let lines = split_lines("a1\nb\na2\n");
    let digit = Pattern::new("a(\\d)").unwrap();
    assert_eq!(count_lines(&digit, &lines), 2);
    assert_eq!(last_captures(&digit, &lines).unwrap()[1].as_deref(), Some("2"));
}

#[test]
fn lines_are_split_as_text_lines() {
    assert!(split_lines("").is_empty());
    assert_eq!(split_lines("a"), vec!["a"]);
    assert_eq!(split_lines("a\n"), vec!["a"]);
    assert_eq!(split_lines("a\n\n"), vec!["a", ""]);
    assert_eq!(split_lines("a\r\nb\r"), vec!["a", "b\r"]);
    assert_eq!(split_lines("\nx"), vec!["", "x"]);
}

#[test]
fn numbers_are_read_in_millionths() {
    assert_eq!(parse_decimal("4.32"), Some(4_320_000));
    assert_eq!(parse_decimal("0.0000019"), Some(1));
    assert_eq!(parse_decimal("7"), Some(7_000_000));
    assert_eq!(parse_decimal("7."), Some(7_000_000));
    assert_eq!(parse_decimal(".5"), Some(500_000));
    assert_eq!(parse_decimal("."), None);
    assert_eq!(parse_decimal(""), None);
    assert_eq!(parse_decimal("1.2.3"), None);
    assert_eq!(parse_decimal("1e3"), None);
    assert_eq!(parse_decimal("9223372036854.775807"), Some(i64::MAX));
    assert_eq!(parse_decimal("9223372036854.775808"), None);
    assert_eq!(parse_whole("16"), Some(16));
    assert_eq!(parse_whole("007"), Some(7));
    assert_eq!(parse_whole(""), None);
    assert_eq!(parse_whole("1a"), None);
    assert_eq!(parse_whole("9223372036854775807"), Some(i64::MAX));
    assert_eq!(parse_whole("9223372036854775808"), None);
}

#[test]
fn metric_values_convert() {
    assert_eq!(MetricValue::Decimal(4_320_000).as_decimal(), Some(4_320_000));
    assert_eq!(MetricValue::Int(3).as_decimal(), Some(3_000_000));
    assert_eq!(MetricValue::Int(i64::MAX).as_decimal(), Some(i64::MAX));
    assert_eq!(MetricValue::Bool(true).as_decimal(), None);
    assert_eq!(MetricValue::Decimal(4_999_999).as_int(), Some(4));
    assert_eq!(MetricValue::Decimal(-4_999_999).as_int(), Some(-4));
    assert_eq!(MetricValue::Int(-3).as_int(), Some(-3));
    assert_eq!(MetricValue::String("x".to_string()).as_int(), None);
    assert_eq!(MetricValue::String("x".to_string()).as_string(), Some("x"));
    assert_eq!(MetricValue::Int(1).as_string(), None);
}

fn groups(texts: &[Option<&str>]) -> Option<Vec<Option<String>>> {
    Some(texts.iter().map(|t| t.map(|s| s.to_string())).collect())
}

#[test]
fn flags_are_counted() {
    assert_eq!(count_flags(&vec![]), 0);
    assert_eq!(count_flags(&vec![true, false, true, true]), 3);
    assert_eq!(count_flags(&vec![false, false]), 0);
}

#[test]
fn the_last_match_is_taken() {
    assert_eq!(last_found(vec![]), None);
    assert_eq!(last_found(vec![None, None]), None);
    let first = groups(&[Some("a1"), Some("1")]);
    let second = groups(&[Some("a2"), None]);
    assert_eq!(last_found(vec![first.clone(), None, second.clone(), None]), second);
    assert_eq!(last_found(vec![first.clone(), None]), first);
}

#[test]
fn lines_are_kept_by_their_flags() {
    let lines: Vec<String> = ["a", "b", "c", "d"].iter().map(|s| s.to_string()).collect();
    assert_eq!(
        flagged_lines(&lines, &vec![true, false, false, false], &vec![false, false, true, false]),
        vec!["a", "c"]
    );
    assert_eq!(flagged_lines(&lines, &vec![true, true, true, true], &vec![true, true, true, true]), lines);
    // a flag that is missing counts as false
    assert_eq!(flagged_lines(&lines, &vec![false, true], &vec![]), vec!["b"]);
    assert!(flagged_lines(&lines, &vec![], &vec![]).is_empty());
}

#[test]
fn progress_is_told_by_the_last_line_that_tells_it() {
    let p10 = groups(&[Some("10%"), Some("10")]);
    let p50 = groups(&[Some("12.5%"), Some("12.5")]);
    let s34 = groups(&[Some("[3/4]"), Some("3"), Some("4")]);
    assert_eq!(progress_told(&vec![], &vec![]), 0);
    assert_eq!(progress_told(&vec![None, None], &vec![None, None]), 0);
    assert_eq!(progress_told(&vec![p10.clone(), None], &vec![None, None]), 100_000);
    assert_eq!(progress_told(&vec![p10.clone(), None], &vec![None, s34.clone()]), 750_000);
    assert_eq!(progress_told(&vec![p10.clone(), p50.clone()], &vec![None, s34.clone()]), 125_000);
    assert_eq!(progress_told(&vec![None, None], &vec![s34.clone()]), 750_000);
    // a percentage without a number that can be read tells nothing
    assert_eq!(progress_told(&vec![groups(&[Some("%"), None])], &vec![s34]), 0);
}
