use sectools::lint::{
    clean_value, parse_config, parse_schema, render_report, split_lines, validate_config,
};
use sectools::numbers::parse_usize;
use sectools::text::{contains_substring, starts_with_str, str_eq, trim};

fn pairs(v: &[(&str, &str)]) -> Vec<(String, String)> {
    v.iter().map(|(k, w)| (k.to_string(), w.to_string())).collect()
}

#[test]
fn lint_trim_strips_whitespace() {
    assert_eq!(trim("  \t value \n "), "value");
    assert_eq!(trim(""), "");
    assert_eq!(trim("   "), "");
    assert_eq!(trim("no-space"), "no-space");
}

#[test]
fn lint_str_eq_and_starts_with() {
    assert!(str_eq("abc", "abc"));
    assert!(!str_eq("abc", "abd"));
    assert!(!str_eq("abc", "ab"));
    assert!(starts_with_str("https://example", "https://"));
    assert!(!starts_with_str("http://example", "https://"));
}

#[test]
fn lint_contains_substring_cases() {
    assert!(contains_substring("hello world", "lo w"));
    assert!(contains_substring("abc", ""));
    assert!(!contains_substring("abc", "abd"));
    assert!(!contains_substring("ab", "abc"));
}

#[test]
fn lint_clean_value_strips_quotes() {
    assert_eq!(clean_value("  \"hello\"  "), "hello");
    assert_eq!(clean_value("'x'"), "x");
    assert_eq!(clean_value(" plain "), "plain");
    assert_eq!(clean_value("\"\""), "");
    assert_eq!(clean_value("\"unbalanced"), "\"unbalanced");
    assert_eq!(clean_value("\""), "\"");
}

#[test]
fn lint_split_lines_handles_terminators() {
    assert_eq!(split_lines("a\nb"), vec!["a".to_string(), "b".to_string()]);
    assert_eq!(split_lines("a\r\nb\n"), vec!["a".to_string(), "b".to_string()]);
    assert_eq!(
        split_lines("a\n\nb"),
        vec!["a".to_string(), "".to_string(), "b".to_string()]
    );
    assert!(split_lines("").is_empty());
}

#[test]
fn lint_parse_config_skips_comments_and_malformed_lines() {
    let content = "# comment\n\nkey1=value1\n malformed line \nkey2 = \"v2\"\r\nkey3=a=b";
    let parsed = parse_config(content);
    assert_eq!(
        parsed,
        pairs(&[("key1", "value1"), ("key2", "v2"), ("key3", "a=b")])
    );
}

#[test]
fn lint_parse_schema_uses_config_format() {
    let parsed = parse_schema("debug_mode=false\nlog_level=INFO\n");
    assert_eq!(parsed, pairs(&[("debug_mode", "false"), ("log_level", "INFO")]));
}

#[test]
fn lint_parse_usize_matches_standard_parsing() {
    assert_eq!(parse_usize("42"), Some(42));
    assert_eq!(parse_usize("+7"), Some(7));
    assert_eq!(parse_usize("007"), Some(7));
    assert_eq!(parse_usize(""), None);
    assert_eq!(parse_usize("-1"), None);
    assert_eq!(parse_usize("4 2"), None);
    assert_eq!(parse_usize("99999999999999999999999999999999999999999"), None);
}

#[test]
fn lint_validate_flags_every_rule() {
    let config = pairs(&[
        ("extra", "1"),
        ("database_url", "http://x"),
        ("debug_mode", "true"),
        ("admin_password", "password123"),
        ("log_level", "DEBUG"),
        ("api_key_length", "6"),
        ("other", "abc"),
    ]);
    let schema = pairs(&[
        ("database_url", "https://"),
        ("debug_mode", "false"),
        ("admin_password", "no_default_password"),
        ("log_level", "INFO"),
        ("api_key_length", "min_length_8"),
        ("other", "xyz"),
        ("absent", "INFO"),
    ]);
    let warnings = validate_config(&config, &schema, false);
    assert_eq!(
        warnings,
        vec![
            "Config key 'extra' not found in schema. Consider defining its security posture."
                .to_string(),
            "Insecure setting: 'database_url' should use HTTPS (starts with 'https://')."
                .to_string(),
            "Insecure setting: 'debug_mode' should be 'false' in production.".to_string(),
            "Critical: 'admin_password' uses default password 'password123'. Change immediately!"
                .to_string(),
            "Logging level: 'log_level' is not 'INFO'. Consider 'INFO' for standard operation."
                .to_string(),
            "Weak setting: 'api_key_length' has length 6. Recommended minimum: 8.".to_string(),
            "Config key 'other' value 'abc' does not match schema rule 'xyz'.".to_string(),
            "Missing configuration key: 'absent' as defined in schema.".to_string(),
        ]
    );
}

#[test]
fn lint_validate_compliant_config_is_quiet() {
    let config = pairs(&[
        ("database_url", "https://db.internal"),
        ("debug_mode", "false"),
        ("admin_password", "s3cure-enough"),
        ("log_level", "INFO"),
        ("api_key_length", "32"),
        ("other", "xyz"),
    ]);
    let schema = pairs(&[
        ("database_url", "https://"),
        ("debug_mode", "false"),
        ("admin_password", "no_default_password"),
        ("log_level", "INFO"),
        ("api_key_length", "min_length_8"),
        ("other", "xyz"),
    ]);
    let warnings = validate_config(&config, &schema, false);
    assert!(warnings.is_empty());
}

#[test]
fn lint_validate_length_rule_rejects_non_integer() {
    let config = pairs(&[("api_key_length", "abc")]);
    let schema = pairs(&[("api_key_length", "min_length_8")]);
    let warnings = validate_config(&config, &schema, false);
    assert_eq!(
        warnings,
        vec![
            "Schema rule for 'api_key_length' expects an integer length, but config value 'abc' is not a valid integer."
                .to_string(),
        ]
    );
}

#[test]
fn lint_render_report_empty_and_filled() {
    let empty: Vec<String> = Vec::new();
    assert_eq!(
        render_report(&empty),
        "No security warnings or misconfigurations found.\n"
    );
    let warnings = vec!["first".to_string(), "second".to_string()];
    assert_eq!(
        render_report(&warnings),
        "Security Linter Report:\n- first\n- second\n"
    );
}
