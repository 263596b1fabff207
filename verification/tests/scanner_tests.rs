use devguard::scanner::{
    has_result_for_file, is_candidate_line_exec, is_excluded_dir, is_excluded_file,
    line_reason_exec, scan_file_lines, scan_line, secret_patterns, target_file_list, ScanResult,
};
use devguard::text::{chars_of, parse_bounded_exec, split_char_exec, trim_chars};

#[test]
fn secret_patterns_compile() {
    let patterns = secret_patterns();
    assert!(patterns.len() >= 13);
    assert_eq!(patterns[0].as_str(), "sk_live_");
}

#[test]
fn pattern_match_is_reported() {
    let patterns = secret_patterns();
    assert_eq!(
        scan_line("const K = \"sk_live_abc\";", &patterns),
        Some("contains secret pattern 'sk_live_'".to_string())
    );
    assert_eq!(
        scan_line("# key: AKIA1234", &patterns),
        Some("possible leak in comment - pattern 'AKIA'".to_string())
    );
    let key_line = format!("x = key-{}", "a".repeat(32));
    assert_eq!(
        scan_line(&key_line, &patterns),
        Some("contains secret pattern 'key-[0-9a-zA-Z]{32}'".to_string())
    );
    assert_eq!(
        scan_line("host = amznXmws.", &patterns),
        None
    );
}

#[test]
fn keyword_needs_a_quoted_value_or_a_comment() {
    let patterns = secret_patterns();
    assert_eq!(
        scan_line("let Password = \"hunter2\";;", &patterns),
        Some("contains keyword 'password' with hardcoded value".to_string())
    );
    assert_eq!(scan_line("let password = read_password();", &patterns), None);
    assert_eq!(
        scan_line("token: `abc`", &patterns),
        Some("contains keyword 'token' with hardcoded value".to_string())
    );
    assert_eq!(
        scan_line("// the API_KEY = x", &patterns),
        Some("possible leak in comment - keyword 'api_key'".to_string())
    );
}

#[test]
fn lines_without_assignment_or_definitions_are_skipped() {
    let patterns = secret_patterns();
    assert_eq!(scan_line("sk_live_abc", &patterns), None);
    assert_eq!(scan_line("pub fn token() -> String = \"x\"", &patterns), None);
    assert_eq!(scan_line("   ", &patterns), None);
    assert!(!is_candidate_line_exec("use secret::x;"));
    assert!(is_candidate_line_exec("a: b"));
    assert_eq!(line_reason_exec("x = 1", "x = 1", Some("P")), Some("contains secret pattern 'P'".to_string()));
    assert_eq!(line_reason_exec("x 1", "x 1", Some("P")), None);
}

#[test]
fn file_lines_are_numbered_from_one() {
    let patterns = secret_patterns();
    let lines = vec![
        Some("nothing here".to_string()),
        None,
        Some("SECRET=\"abc\"".to_string()),
    ];
    let results = scan_file_lines(".env.local", &lines, &patterns);
    assert_eq!(
        results,
        vec![ScanResult {
            file: ".env.local".to_string(),
            line_number: 3,
            line: "SECRET=\"abc\"".to_string(),
            reason: "contains keyword 'secret' with hardcoded value".to_string(),
        }]
    );
    assert!(has_result_for_file(&results, ".env.local"));
    assert!(!has_result_for_file(&results, ".env.test"));
}

#[test]
fn exclusions() {
    assert!(is_excluded_file("README.md", "md"));
    assert!(is_excluded_file("notes", "txt"));
    assert!(is_excluded_file(".env", ""));
    assert!(!is_excluded_file("main.rs", "rs"));
    assert!(is_excluded_dir("node_modules"));
    assert!(!is_excluded_dir("src"));
    assert_eq!(target_file_list().len(), 6);
}

#[test]
fn text_helpers() {
    let t = trim_chars(&chars_of("\u{2003} a b \n"));
    assert_eq!(t, vec!['a', ' ', 'b']);
    assert_eq!(parse_bounded_exec(&chars_of("0042"), 100), Some(42));
    assert_eq!(parse_bounded_exec(&chars_of("101"), 100), None);
    assert_eq!(parse_bounded_exec(&chars_of("18446744073709551616"), u64::MAX), None);
    assert_eq!(parse_bounded_exec(&chars_of("18446744073709551615"), u64::MAX), Some(u64::MAX));
    assert_eq!(split_char_exec(&chars_of("a,,b"), ','), vec![vec!['a'], vec![], vec!['b']]);
    assert_eq!(split_char_exec(&chars_of(""), ','), vec![Vec::<char>::new()]);
}
