use tit::tools::cron_parser::{
    describe, expand_field, next_runs, next_runs_from, parse_cron, parse_cron_at, validate_field,
};

#[test]
fn parses() {
    let out = parse_cron("*/5 9-17 * * 1-5").unwrap();
    assert!(out.contains("every 5"));
    assert!(out.contains("Next runs"));
}

#[test]
fn rejects_range() {
    assert!(parse_cron("61 * * * *").is_err());
}

#[test]
fn expand_star() {
    assert_eq!(expand_field("*", (0, 3)).len(), 4);
}

#[test]
fn expand_step() {
    let v = expand_field("*/2", (0, 5));
    assert_eq!(v, vec![0, 2, 4]);
}

#[test]
fn expand_range() {
    assert_eq!(expand_field("1-3", (0, 5)), vec![1, 2, 3]);
}

#[test]
fn next_run_is_in_the_future() {
    let runs = next_runs("0 0 * * *", 1).unwrap();
    assert!(runs[0] > chrono::Utc::now().timestamp());
}

#[test]
fn rejection_messages() {
    assert_eq!(
        parse_cron("* * *").unwrap_err(),
        "Expected five fields: minute hour day-of-month month day-of-week"
    );
    assert_eq!(parse_cron("* 24 * * *").unwrap_err(), "Invalid Hour field: 24");
    assert_eq!(parse_cron("* * * * */0").unwrap_err(), "Invalid Day of week field: */0");
}

#[test]
fn blank_expression_is_empty() {
    assert_eq!(parse_cron("  ").unwrap(), "");
}

#[test]
fn explanation_lines() {
    let out = parse_cron("0 12 1 * */2").unwrap();
    assert!(out.starts_with(
        "Minute: 0\nHour: 12\nDay of month: 1\nMonth: every value\nDay of week: every 2\n\nNext runs (UTC):\n"
    ));
    assert_eq!(out.lines().count(), 12);
}

#[test]
fn runs_are_increasing_and_match() {
    let runs = next_runs("30 6 * * 1", 3).unwrap();
    assert_eq!(runs.len(), 3);
    assert!(runs.windows(2).all(|w| w[1] - w[0] == 7 * 86_400));
    assert!(runs.iter().all(|r| r % 86_400 == 6 * 3600 + 30 * 60));
}

#[test]
fn validation_details() {
    assert!(validate_field("1,2,5-7,*/3", (0, 59)));
    assert!(validate_field("5-1", (0, 59)));
    assert!(!validate_field("", (0, 59)));
    assert!(!validate_field("1-60", (0, 59)));
    assert!(!validate_field("*/x", (0, 59)));
    assert!(validate_field("+5", (0, 59)));
}

#[test]
fn expansion_details() {
    assert_eq!(expand_field("1,3,99", (0, 59)), vec![1, 3]);
    assert_eq!(expand_field("5-1", (0, 59)), Vec::<u8>::new());
    assert_eq!(expand_field("10-", (0, 12)), vec![10, 11, 12]);
    assert_eq!(expand_field("0-10/5", (0, 59)), vec![0, 5, 10]);
}

#[test]
fn describes_fields() {
    assert_eq!(describe("*"), "every value");
    assert_eq!(describe("*/15"), "every 15");
    assert_eq!(describe("1-5"), "1-5");
}

#[test]
fn lists_mix_with_ranges_and_steps() {
    assert_eq!(expand_field("1-3,5", (0, 59)), vec![1, 2, 3, 5]);
    assert_eq!(expand_field("*/15,30", (0, 59)), vec![0, 15, 30, 45]);
    assert_eq!(expand_field("5,1-2,2", (0, 59)), vec![1, 2, 5]);
    assert_eq!(expand_field("10-20/5,1-3/2", (0, 59)), vec![1, 3, 10, 15, 20]);
}

#[test]
fn runs_after_a_given_time() {
    assert_eq!(next_runs_from("0 0 * * *", 2, 0), Ok(vec![86_400, 172_800]));
    assert_eq!(next_runs_from("0 0 * * *", 1, 86_400), Ok(vec![172_800]));
    assert_eq!(next_runs_from("0 0 29 2 *", 1, 0), Ok(vec![789 * 86_400]));
    assert_eq!(next_runs_from("* * * * *", 0, 0), Ok(vec![]));
}

#[test]
fn no_run_within_four_years() {
    assert_eq!(
        next_runs_from("0 0 31 2 *", 1, 0).unwrap_err(),
        "No matching run time found in the next four years"
    );
}

#[test]
fn runs_beyond_supported_dates() {
    assert_eq!(
        next_runs_from("* * * * *", 1, i64::MAX).unwrap_err(),
        "Next run time lies beyond the supported date range"
    );
    assert_eq!(
        next_runs_from("* * * * *", 1, 9_000_000_000_000).unwrap_err(),
        "Next run time lies beyond the supported date range"
    );
}

#[test]
fn report_at_a_given_time() {
    let out = parse_cron_at("*/5 9-17 * * 1-5", 0).unwrap();
    assert!(out.starts_with(
        "Minute: every 5\nHour: 9-17\nDay of month: every value\nMonth: every value\nDay of week: 1-5\n\nNext runs (UTC):\n1970-01-01T09:00:00+00:00\n1970-01-01T09:05:00+00:00\n"
    ));
    assert_eq!(parse_cron_at("61 * * * *", 0).unwrap_err(), "Invalid Minute field: 61");
    assert!(parse_cron_at("0 0 31 2 *", 0)
        .unwrap()
        .ends_with("\nCould not calculate next runs: No matching run time found in the next four years"));
}
