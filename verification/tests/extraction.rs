use deep_links::links::{extract_external_link_from_arg, extract_external_links_from_argv,
    is_valid_external_link};

fn argv(args: &[&str]) -> Vec<String> {
    args.iter().map(|a| a.to_string()).collect()
}

#[test]
fn extracts_plain_link() {
    let out = extract_external_links_from_argv(&argv(&["youwee://download?v=1&url=https://x"]));
    assert_eq!(out, vec!["youwee://download?v=1&url=https://x".to_string()]);
}

#[test]
fn ignores_unrelated_arguments() {
    let out = extract_external_links_from_argv(&argv(&["--flag", "noise"]));
    assert_eq!(out, Vec::<String>::new());
}

#[test]
fn extracts_embedded_scheme_and_strips_trailing_quote() {
    let out = extract_external_links_from_argv(&argv(&["prefixyouwee://download?v=1&url=abc\""]));
    assert_eq!(out, vec!["youwee://download?v=1&url=abc".to_string()]);
}

#[test]
fn deduplicates_in_first_seen_order() {
    let a = "youwee://download?v=1&url=a";
    let b = "youwee://download?v=1&url=b";
    let out = extract_external_links_from_argv(&argv(&[a, b, a]));
    assert_eq!(out, vec![a.to_string(), b.to_string()]);
}

#[test]
fn trims_whitespace_and_double_quotes() {
    let out = extract_external_links_from_argv(&argv(&["  \"youwee://download?v=1&url=x\"  "]));
    assert_eq!(out, vec!["youwee://download?v=1&url=x".to_string()]);
}

#[test]
fn trims_single_quotes() {
    let out = extract_external_links_from_argv(&argv(&["'youwee://download?v=1&url=x'"]));
    assert_eq!(out, vec!["youwee://download?v=1&url=x".to_string()]);
}

#[test]
fn strips_only_one_quote_layer() {
    // One layer of single quotes is removed at the cleaning step; the inner
    // layer survives, and the embedded-scheme path keeps the trailing single
    // quote (only double quotes are stripped there).
    let out = extract_external_links_from_argv(&argv(&["''youwee://download?v=1&url=q''"]));
    assert_eq!(out, vec!["youwee://download?v=1&url=q'".to_string()]);
}

#[test]
fn rejects_missing_version_marker() {
    assert_eq!(extract_external_link_from_arg("youwee://download?url=abc"), None);
}

#[test]
fn rejects_missing_payload_marker() {
    assert_eq!(extract_external_link_from_arg("youwee://download?v=1"), None);
}

#[test]
fn rejects_wrong_prefix() {
    assert_eq!(extract_external_link_from_arg("youwee://down?v=1&url=abc"), None);
    assert_eq!(extract_external_link_from_arg("other://download?v=1&url=abc"), None);
}

#[test]
fn rejects_empty_argument() {
    assert_eq!(extract_external_link_from_arg(""), None);
    assert_eq!(extract_external_link_from_arg("   "), None);
}

#[test]
fn accepts_link_at_length_bound() {
    let base = "youwee://download?v=1&url=";
    let link = format!("{}{}", base, "a".repeat(4096 - base.chars().count()));
    assert_eq!(link.chars().count(), 4096);
    assert!(is_valid_external_link(&link));
    let too_long = format!("{}{}", base, "a".repeat(4097 - base.chars().count()));
    assert!(!is_valid_external_link(&too_long));
    assert_eq!(extract_external_link_from_arg(&too_long), None);
}

#[test]
fn extracts_from_single_argument() {
    assert_eq!(
        extract_external_link_from_arg(" youwee://download?v=1&url=https://y "),
        Some("youwee://download?v=1&url=https://y".to_string())
    );
}

#[test]
fn trims_unicode_whitespace() {
    assert!(is_valid_external_link("\u{000C}youwee://download?v=1&url=x"));
    assert!(is_valid_external_link("\u{000B}youwee://download?v=1&url=x\u{00A0}"));
    assert_eq!(
        extract_external_link_from_arg("youwee://download?v=1&url=x\u{00A0}"),
        Some("youwee://download?v=1&url=x".to_string())
    );
    assert_eq!(
        extract_external_link_from_arg("\u{2028}\u{3000}youwee://download?v=1&url=x\u{2009}"),
        Some("youwee://download?v=1&url=x".to_string())
    );
}

#[test]
fn validation_requires_all_markers() {
    assert!(is_valid_external_link("youwee://download?v=1&url=x"));
    assert!(is_valid_external_link("  youwee://download?v=1&url=x  "));
    assert!(!is_valid_external_link(""));
    assert!(!is_valid_external_link("youwee://"));
    assert!(!is_valid_external_link("youwee://download"));
}
