use agpod::kiro::commands::{
    compare_by_mtime, format_name_for_display, format_relative_time, parse_time_expression,
    summarize_design, TimeExprError,
};
use std::cmp::Ordering;
use agpod::kiro::plugin::sanitize_branch_name;
use agpod::kiro::slug::{generate_branch_name, slugify};
use agpod::vcs_path::format_string;
use std::time::Duration;

fn secs(r: Result<u64, TimeExprError>) -> Duration {
    Duration::from_secs(r.unwrap())
}

#[test]
fn plugin_test_sanitize_branch_name() {
    assert_eq!(sanitize_branch_name("hello-world"), "hello-world");
    assert_eq!(sanitize_branch_name("hello/world"), "helloworld");
    assert_eq!(sanitize_branch_name("hello..world"), "hello..world");
    assert_eq!(sanitize_branch_name("hello world"), "hello-world");
    assert_eq!(sanitize_branch_name("hello---world"), "hello---world");

    assert_eq!(sanitize_branch_name("hello-"), "hello");
    assert_eq!(sanitize_branch_name("hello--"), "hello");

    let long_name = "a".repeat(100);
    let sanitized = sanitize_branch_name(&long_name);
    assert_eq!(sanitized.len(), 80);
}

#[test]
fn plugin_test_sanitize_special_chars() {
    assert_eq!(sanitize_branch_name("test!@#$%"), "test");
    assert_eq!(sanitize_branch_name("test & demo"), "test-demo");
}

#[test]
fn sanitize_keeps_non_ascii_letters() {
    assert_eq!(sanitize_branch_name("修复 bug"), "修复-bug");
    let long_name = format!("{}{}", "a".repeat(79), "é");
    assert_eq!(sanitize_branch_name(&long_name), "a".repeat(79));
}

#[test]
fn slug_test_slugify_ascii() {
    assert_eq!(slugify("Hello World"), "hello-world");
    assert_eq!(slugify("Test_Feature"), "test-feature");
    assert_eq!(slugify("Fix Bug #123"), "fix-bug-123");
}

#[test]
fn slug_test_slugify_chinese() {
    let result = slugify("实现登录功能");
    assert!(result.contains("shi"));
    assert!(result.contains("xian"));
    assert!(result.contains("deng"));
    assert!(result.contains("lu"));
    assert!(result.contains("gong"));
    assert!(result.contains("neng"));
}

#[test]
fn slug_test_slugify_mixed() {
    let result = slugify("Add 用户 Feature");
    assert!(result.starts_with("add"));
    assert!(result.contains("yong"));
    assert!(result.contains("hu"));
    assert!(result.contains("feature"));
}

#[test]
fn slug_test_slugify_special_chars() {
    assert_eq!(slugify("hello---world"), "hello-world");
    assert_eq!(slugify("   spaces   "), "spaces");
    assert_eq!(slugify("!!!test!!!"), "test");
}

#[test]
fn slug_test_slugify_length_limit() {
    let long_text = "this is a very long description that exceeds the maximum allowed length for branch names";
    let result = slugify(long_text);
    assert!(result.len() <= 60);
    assert!(!result.ends_with('-'));
}

#[test]
fn slug_test_generate_branch_name() {
    let name = generate_branch_name("Test Feature");
    assert_eq!(name, "test-feature");
}

#[test]
fn test_format_name_for_display() {
    assert_eq!(
        format_name_for_display("recently-modified-pr"),
        "Recently modified pr"
    );
    assert_eq!(format_name_for_display("pr-5-days-ago"), "Pr 5 days ago");
    assert_eq!(format_name_for_display("single"), "Single");
    assert_eq!(
        format_name_for_display("multiple-word-name-here"),
        "Multiple word name here"
    );
}

#[test]
fn test_parse_time_expression() {
    assert_eq!(
        secs(parse_time_expression("2 days")),
        Duration::from_secs(2 * 86400)
    );
    assert_eq!(
        secs(parse_time_expression("1 week")),
        Duration::from_secs(604800)
    );
    assert_eq!(
        secs(parse_time_expression("3 hours")),
        Duration::from_secs(3 * 3600)
    );
    assert_eq!(
        secs(parse_time_expression("5 minutes")),
        Duration::from_secs(5 * 60)
    );
    assert_eq!(
        secs(parse_time_expression("30 seconds")),
        Duration::from_secs(30)
    );

    assert_eq!(
        secs(parse_time_expression("2 d")),
        Duration::from_secs(2 * 86400)
    );
    assert_eq!(
        secs(parse_time_expression("1 w")),
        Duration::from_secs(604800)
    );
    assert_eq!(
        secs(parse_time_expression("3 h")),
        Duration::from_secs(3 * 3600)
    );

    assert_eq!(
        secs(parse_time_expression("2 DAYS")),
        Duration::from_secs(2 * 86400)
    );
    assert_eq!(
        secs(parse_time_expression("1 Week")),
        Duration::from_secs(604800)
    );

    assert!(parse_time_expression("invalid").is_err());
    assert!(parse_time_expression("2").is_err());
    assert!(parse_time_expression("days").is_err());
    assert!(parse_time_expression("2 invalid_unit").is_err());

    let result = parse_time_expression("999999999999999 years");
    assert!(result.is_err());
    assert!(result
        .unwrap_err()
        .to_string()
        .contains("Time duration value too large"));
}

#[test]
fn time_expression_errors_by_kind() {
    assert!(matches!(parse_time_expression("a b c"), Err(TimeExprError::InvalidFormat)));
    assert!(matches!(parse_time_expression("x days"), Err(TimeExprError::InvalidNumber)));
    assert!(matches!(
        parse_time_expression("99999999999999999999 s"),
        Err(TimeExprError::InvalidNumber)
    ));
    match parse_time_expression("3 fortnights") {
        Err(TimeExprError::UnknownUnit(u)) => assert_eq!(u, "fortnights"),
        other => panic!("unexpected {:?}", other),
    }
    assert_eq!(parse_time_expression("  +4   months ").unwrap(), 4 * 2592000);
    assert_eq!(parse_time_expression("1 y").unwrap(), 31536000);
}

#[test]
fn test_format_string() {
    let vars = vec![
        ("path".to_string(), "/home/user/project".to_string()),
        ("branch".to_string(), "main".to_string()),
    ];
    let result = format_string("{path} [{branch}]", &vars);
    assert_eq!(result, Some("/home/user/project [main]".to_string()));
}

#[test]
fn test_format_string_default() {
    let vars = vec![
        ("path".to_string(), "/home/user/project".to_string()),
        ("branch".to_string(), "feature/test".to_string()),
    ];
    let result = format_string("{path} {branch}", &vars);
    assert_eq!(result, Some("/home/user/project feature/test".to_string()));
}

#[test]
fn format_string_replaces_every_occurrence() {
    let vars = vec![("x".to_string(), "1".to_string())];
    assert_eq!(format_string("{x}{x} {y}", &vars), Some("11 {y}".to_string()));
}

#[test]
fn test_format_relative_time() {
    assert_eq!(format_relative_time(30), "just now");
    assert_eq!(format_relative_time(3 * 60), "3min ago");
    assert_eq!(format_relative_time(30 * 60), "30min ago");
    assert_eq!(format_relative_time(2 * 3600), "2 hours ago");
    assert_eq!(format_relative_time(3600), "1 hour ago");
    assert_eq!(format_relative_time(25 * 3600), "yesterday");
    assert_eq!(format_relative_time(5 * 24 * 3600), "5 days ago");
}

#[test]
fn relative_time_longer_spans() {
    assert_eq!(format_relative_time(-5), "just now");
    assert_eq!(format_relative_time(7 * 86400), "1 week ago");
    assert_eq!(format_relative_time(20 * 86400), "2 weeks ago");
    assert_eq!(format_relative_time(45 * 86400), "1 month ago");
    assert_eq!(format_relative_time(100 * 86400), "3 months ago");
    assert_eq!(format_relative_time(365 * 86400), "1 year ago");
    assert_eq!(format_relative_time(800 * 86400), "2 years ago");
}

#[test]
fn design_summary_takes_first_text_lines() {
    let content = "# Title\n\nLine 1\n\nLine 2\n\nLine 3";
    assert_eq!(summarize_design(content, 2), "# Title Line 1");
    assert_eq!(summarize_design(content, 10), "# Title Line 1 Line 2 Line 3");
    assert_eq!(summarize_design("", 3), "");
    assert_eq!(summarize_design(content, 0), "");
}

#[test]
fn entries_order_by_time_then_name() {
    let newer = ("b".to_string(), String::new(), Some((200u64, 0u32)));
    let older = ("a".to_string(), String::new(), Some((100u64, 5u32)));
    let none_a = ("a".to_string(), String::new(), None);
    let none_b = ("b".to_string(), String::new(), None);
    assert_eq!(compare_by_mtime(&newer, &older), Ordering::Less);
    assert_eq!(compare_by_mtime(&older, &newer), Ordering::Greater);
    assert_eq!(compare_by_mtime(&older, &none_a), Ordering::Less);
    assert_eq!(compare_by_mtime(&none_b, &older), Ordering::Greater);
    assert_eq!(compare_by_mtime(&none_a, &none_b), Ordering::Less);
    assert_eq!(compare_by_mtime(&none_a, &none_a), Ordering::Equal);
}
