use devguard::env_map::EnvMap;
use devguard::missing::missing_keys;
use devguard::parser::{has_lone_quote_exec, parse_env_line, parse_env_lines, ParsedLine};

fn lines(v: &[&str]) -> Vec<String> {
    v.iter().map(|s| s.to_string()).collect()
}

#[test]
fn test_parser_env_basic() {
    let file = lines(&["KEY1=VALUE1", "KEY2=\"VALUE2\"", "KEY3='VALUE3'", "EMPTY_KEY=", "# COMMENT", ""]);
    let (map, warnings) = parse_env_lines(&file);
    assert_eq!(map.get("KEY1"), Some(&Some("VALUE1".to_string())));
    assert_eq!(map.get("KEY2"), Some(&Some("VALUE2".to_string())));
    assert_eq!(map.get("KEY3"), Some(&Some("VALUE3".to_string())));
    assert_eq!(map.get("EMPTY_KEY"), Some(&None));
    assert!(warnings.is_empty());
}

#[test]
fn test_parser_env_malformed() {
    let file = lines(&["MALFORMED_LINE"]);
    let (map, warnings) = parse_env_lines(&file);
    assert!(map.is_empty());
    assert_eq!(warnings.len(), 1);
    assert!(warnings[0].contains("malformed"));
}

#[test]
fn test_check_missing_keys() {
    let mut map = EnvMap::new();
    map.insert("KEY1".to_string(), Some("VAL1".to_string()));
    let example = lines(&["KEY1=VALUE1", "KEY2=VALUE2"]);
    let missing = missing_keys(&map, &example);
    assert_eq!(missing.len(), 1);
    assert_eq!(missing[0].key, "KEY2");
}

#[test]
fn malformed_warning_text() {
    let (_, warnings) = parse_env_lines(&lines(&["  TEST2  "]));
    assert_eq!(warnings, vec!["⚠️  'TEST2' is malformed - missing '='".to_string()]);
}

#[test]
fn last_assignment_wins_and_keys_are_trimmed() {
    let file = lines(&[" A = 1 ", "B=2", "A=3", "\tC\t=\u{3000}'x y'\u{a0}"]);
    let (map, warnings) = parse_env_lines(&file);
    assert!(warnings.is_empty());
    assert_eq!(map.len(), 3);
    assert_eq!(map.get("A"), Some(&Some("3".to_string())));
    assert_eq!(map.get("B"), Some(&Some("2".to_string())));
    assert_eq!(map.get("C"), Some(&Some("x y".to_string())));
    assert_eq!(map.entry_at(0), ("A", Some("3")));
    assert_eq!(map.get("D"), None);
    assert!(map.contains_key("B"));
    assert!(!map.contains_key("b"));
}

#[test]
fn only_matching_quotes_are_removed_and_first_equals_splits() {
    assert_eq!(
        parse_env_line("K=\"abc'"),
        ParsedLine::Assignment("K".to_string(), Some("\"abc'".to_string()))
    );
    assert_eq!(
        parse_env_line("K=a=b"),
        ParsedLine::Assignment("K".to_string(), Some("a=b".to_string()))
    );
    assert_eq!(parse_env_line("K=\"\""), ParsedLine::Assignment("K".to_string(), Some(String::new())));
    assert_eq!(parse_env_line("K=   "), ParsedLine::Assignment("K".to_string(), None));
    assert_eq!(parse_env_line("=v"), ParsedLine::Assignment(String::new(), Some("v".to_string())));
    assert_eq!(parse_env_line("   # x=1"), ParsedLine::Ignored);
    assert_eq!(parse_env_line("  \t "), ParsedLine::Ignored);
}

#[test]
fn lone_quote_values_are_detected() {
    assert!(has_lone_quote_exec("K=\""));
    assert!(has_lone_quote_exec("K = ' "));
    assert!(!has_lone_quote_exec("K=\"\""));
    assert!(!has_lone_quote_exec("# K=\""));
    assert!(!has_lone_quote_exec("K"));
}

#[test]
fn missing_keys_skip_comments_and_lines_without_equals() {
    let mut map = EnvMap::new();
    map.insert("A".to_string(), None);
    let example = lines(&["# B=1", "", "C", " A = x", " D = y", "D=z"]);
    let missing = missing_keys(&map, &example);
    assert_eq!(missing.len(), 2);
    assert_eq!(missing[0].key, "D");
    assert_eq!(missing[0].rule, "missing");
    assert_eq!(missing[0].message, "missing required variable");
    assert_eq!(missing[1].key, "D");
}

#[test]
fn insert_replaces_in_place() {
    let mut map = EnvMap::new();
    map.insert("X".to_string(), Some("1".to_string()));
    map.insert("Y".to_string(), None);
    map.insert("X".to_string(), None);
    assert_eq!(map.len(), 2);
    assert_eq!(map.entry_at(0), ("X", None));
    assert_eq!(map.entry_at(1), ("Y", None));
}

#[test]
fn more_keys_give_fewer_missing_findings() {
    let example = lines(&["A=1", "B=2", "C=3"]);
    let mut small = EnvMap::new();
    small.insert("A".to_string(), None);
    let mut big = small.clone();
    big.insert("C".to_string(), None);
    let few = missing_keys(&big, &example);
    let many = missing_keys(&small, &example);
    assert_eq!(many.iter().map(|e| e.key.as_str()).collect::<Vec<_>>(), vec!["B", "C"]);
    assert_eq!(few.iter().map(|e| e.key.as_str()).collect::<Vec<_>>(), vec!["B"]);
    big.insert("B".to_string(), None);
    assert!(missing_keys(&big, &example).is_empty());
}
