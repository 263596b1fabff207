use devguard::env_map::EnvMap;
use devguard::validator::{
    active_rule_list, insecure_config_finding, validate_env, ActiveRule, CustomRule,
    DummyValueRule, DynamicRule, GuardStackConfig, HostRule, IdRule, InsecureConfigRule, NodeRule,
    PortRule, Rule, SecretRule, UrlRule,
};

#[test]
fn test_node_rule() {
    let rule = NodeRule;
    assert!(rule.check("NODE_ENV", "production").is_none());
    assert!(rule.check("NODE_ENV", "invalid").is_some());
    assert!(rule.check("OTHER", "invalid").is_none());
}

#[test]
fn test_secret_rule() {
    let rule = SecretRule;
    let long_secret = "a".repeat(32);
    let short_secret = "a".repeat(31);
    assert!(rule.check("APP_SECRET", &long_secret).is_none());
    assert!(rule.check("APP_SECRET", &short_secret).is_some());
}

#[test]
fn test_port_rule() {
    let rule = PortRule;
    assert!(rule.check("PORT", "3000").is_none());
    assert!(rule.check("PORT", "abc").is_some());
    assert!(rule.check("PORT", "70000").is_some());
}

#[test]
fn node_rule_accepts_the_documented_environments_only() {
    let rule = NodeRule;
    assert!(rule.check("NODE_ENV", "development").is_none());
    assert!(rule.check("NODE_ENV", "test").is_none());
    let e = rule.check("NODE_ENV", "staging").unwrap();
    assert_eq!(e.rule, "format");
    assert_eq!(e.message, "must be one of: development, production, test");
    let e = rule.check("NODE_ENV", "").unwrap();
    assert_eq!(e.rule, "empty");
    assert_eq!(e.message, "must not be empty");
    assert!(rule.check("MY_NODE_ENV", "bogus").is_none());
}

#[test]
fn secret_rule_messages_and_keys() {
    let rule = SecretRule;
    let e = rule.check("JWT_SECRET", "123").unwrap();
    assert_eq!(e.key, "JWT_SECRET");
    assert_eq!(e.rule, "min_length");
    assert_eq!(e.message, "must be greater than or equal to 32");
    assert_eq!(rule.check("STRIPE_KEY", "").unwrap().rule, "empty");
    assert!(rule.check("API_TOKEN", "x").is_some());
    assert!(rule.check("PASSWORD", "x").is_none());
    // counted in characters, not bytes
    let accented = "é".repeat(32);
    assert!(rule.check("APP_SECRET", &accented).is_none());
}

#[test]
fn port_rule_parses_like_u16() {
    let rule = PortRule;
    assert!(rule.check("PORT", "0").is_none());
    assert!(rule.check("PORT", "65535").is_none());
    assert!(rule.check("PORT", "+80").is_none());
    assert!(rule.check("PORT", "65536").is_some());
    assert!(rule.check("PORT", "-1").is_some());
    assert!(rule.check("PORT", "+").is_some());
    assert!(rule.check("PORT", " 80").is_some());
    assert_eq!(rule.check("DB_PORT", "").unwrap().rule, "empty");
    assert_eq!(rule.check("DB_PORT", "abc").unwrap().message, "must be a number");
}

#[test]
fn url_rule_checks_the_scheme() {
    let rule = UrlRule;
    assert!(rule.check("DATABASE_URL", "postgres://localhost/db").is_none());
    assert!(rule.check("CACHE_URL", "rediss://x").is_none());
    assert!(rule.check("MONGO_URL", "mongodb+srv://x").is_none());
    let e = rule.check("DATABASE_URL", "localhost").unwrap();
    assert_eq!(e.rule, "format");
    assert!(e.message.starts_with("must start with http://, https://, postgres://"));
    assert_eq!(rule.check("DATABASE_URL", "").unwrap().rule, "empty");
    assert!(rule.check("DATABASE", "localhost").is_none());
}

#[test]
fn id_and_host_rules_reject_empty_values() {
    assert_eq!(IdRule.check("CLIENT_ID", "").unwrap().rule, "empty");
    assert!(IdRule.check("CLIENT_ID", "x").is_none());
    assert_eq!(HostRule.check("DB_HOST", "").unwrap().rule, "empty");
    assert!(HostRule.check("DB_HOST", "localhost").is_none());
    assert!(HostRule.check("DB", "").is_none());
}

#[test]
fn dummy_value_rule_ignores_case() {
    let rule = DummyValueRule;
    let e = rule.check("DB_PASS", "PASSWORD").unwrap();
    assert_eq!(e.rule, "insecure_value");
    assert_eq!(e.message, "contains a common dummy value: 'PASSWORD'");
    assert!(rule.check("X", "replace_me").is_some());
    assert!(rule.check("X", "ChangeMe").is_some());
    assert!(rule.check("X", "password1").is_none());
}

#[test]
fn insecure_config_rule_cases() {
    let rule = InsecureConfigRule;
    assert_eq!(rule.check("CORS_ORIGIN", "*").unwrap().rule, "insecure_cors");
    assert_eq!(rule.check("NODE_TLS_REJECT_UNAUTHORIZED", "0").unwrap().rule, "insecure_ssl");
    assert_eq!(rule.check("APP_DEBUG", "true").unwrap().rule, "insecure_debug");
    assert_eq!(rule.check("LOG_LEVEL", "DEBUG").unwrap().rule, "insecure_debug");
    assert!(rule.check("LOG_LEVEL", "info").is_none());
    assert!(rule.check("APP_DEBUG", "TRUE").is_none());
    assert!(insecure_config_finding("LOG_LEVEL", "x", "debug").is_some());
    assert!(insecure_config_finding("LOG_LEVEL", "x", "DEBUG").is_none());
}

#[test]
fn dynamic_rule_min_length_counts_bytes() {
    let rule = DynamicRule {
        pattern: "TOKEN".to_string(),
        rule_type: "min_length".to_string(),
        value: "4".to_string(),
        message: "too short".to_string(),
    };
    let e = rule.check("GH_TOKEN", "abc").unwrap();
    assert_eq!(e.rule, "min_length");
    assert_eq!(e.message, "too short");
    assert!(rule.check("GH_TOKEN", "abcd").is_none());
    assert!(rule.check("GH_TOKEN", "éé").is_none());
    assert!(rule.check("OTHER", "a").is_none());
    let default_min = DynamicRule { value: "many".to_string(), ..rule.clone() };
    assert!(default_min.check("GH_TOKEN", &"a".repeat(31)).is_some());
    assert!(default_min.check("GH_TOKEN", &"a".repeat(32)).is_none());
}

#[test]
fn dynamic_rule_one_of_and_unknown_types() {
    let rule = DynamicRule {
        pattern: "MODE".to_string(),
        rule_type: "one_of".to_string(),
        value: "fast,slow,".to_string(),
        message: "bad mode".to_string(),
    };
    assert!(rule.check("APP_MODE", "fast").is_none());
    assert!(rule.check("APP_MODE", "slow").is_none());
    assert!(rule.check("APP_MODE", "").is_none());
    assert_eq!(rule.check("APP_MODE", "medium").unwrap().rule, "one_of");
    assert!(rule.check("APP_MODE", "fast,slow").is_some());
    let other = DynamicRule { rule_type: "regex".to_string(), ..rule.clone() };
    assert!(other.check("APP_MODE", "medium").is_none());
    assert_eq!(rule.pattern(), "MODE");
}

fn map_of(pairs: &[(&str, Option<&str>)]) -> EnvMap {
    let mut map = EnvMap::new();
    for (k, v) in pairs {
        map.insert(k.to_string(), v.map(|s| s.to_string()));
    }
    map
}

#[test]
fn validate_env_reports_first_rule_per_variable() {
    let map = map_of(&[
        ("PORT", Some("abc")),
        ("JWT_SECRET", Some("123")),
        ("API_URL", None),
        ("NAME", Some("ok")),
        ("DATABASE_URL", Some("localhost")),
    ]);
    let errors = validate_env(&map, &None);
    assert_eq!(errors.len(), 4);
    assert_eq!(errors[0].key, "PORT");
    assert_eq!(errors[0].message, "must be a number");
    assert_eq!(errors[1].key, "JWT_SECRET");
    assert_eq!(errors[1].rule, "min_length");
    // API_URL contains API: the secret rule comes before the URL rule
    assert_eq!(errors[2].key, "API_URL");
    assert_eq!(errors[2].rule, "empty");
    assert_eq!(errors[3].key, "DATABASE_URL");
    assert_eq!(errors[3].rule, "format");
}

#[test]
fn custom_rules_replace_rules_with_their_pattern() {
    let config = GuardStackConfig {
        rules: Some(vec![CustomRule {
            pattern: "SECRET".to_string(),
            rule: "min_length".to_string(),
            value: "8".to_string(),
            message: "secret too short".to_string(),
        }]),
    };
    let rules = active_rule_list(&Some(config.clone()));
    assert_eq!(rules.len(), 8);
    assert!(!rules.contains(&ActiveRule::Secret(SecretRule)));
    assert_eq!(rules[7].pattern(), "SECRET");
    let map = map_of(&[("APP_SECRET", Some("12345678")), ("JWT_SECRET", Some("1234"))]);
    let errors = validate_env(&map, &Some(config));
    assert_eq!(errors.len(), 1);
    assert_eq!(errors[0].key, "JWT_SECRET");
    assert_eq!(errors[0].message, "secret too short");
    // the built-in secret rule would have reported both
    assert_eq!(validate_env(&map, &None).len(), 2);
}

#[test]
fn later_custom_rule_with_same_pattern_wins() {
    let config = GuardStackConfig {
        rules: Some(vec![
            CustomRule {
                pattern: "MODE".to_string(),
                rule: "one_of".to_string(),
                value: "a".to_string(),
                message: "first".to_string(),
            },
            CustomRule {
                pattern: "MODE".to_string(),
                rule: "one_of".to_string(),
                value: "b".to_string(),
                message: "second".to_string(),
            },
        ]),
    };
    let rules = active_rule_list(&Some(config.clone()));
    assert_eq!(rules.len(), 9);
    let map = map_of(&[("MODE", Some("a"))]);
    let errors = validate_env(&map, &Some(config));
    assert_eq!(errors.len(), 1);
    assert_eq!(errors[0].message, "second");
    assert_eq!(active_rule_list(&Some(GuardStackConfig { rules: None })).len(), 8);
}

#[test]
fn dummy_value_finding_takes_the_lowered_value() {
    assert!(devguard::validator::dummy_value_finding("K", "Dummy", "dummy").is_some());
    assert!(devguard::validator::dummy_value_finding("K", "Dummy", "Dummy").is_none());
    assert!(devguard::validator::dummy_value_finding("K", "X", "replace_me").is_some());
}

#[test]
fn error_new_keeps_its_fields() {
    let e = devguard::error::DevGuardError::new("K".to_string(), "r".to_string(), "m".to_string());
    assert_eq!(e.key, "K");
    assert_eq!(e.rule, "r");
    assert_eq!(e.message, "m");
}

#[test]
fn joined_maps_get_the_findings_of_each() {
    let a = map_of(&[("PORT", Some("x")), ("NAME", Some("ok"))]);
    let b = map_of(&[("JWT_SECRET", Some("1")), ("DB_HOST", None)]);
    let ab = map_of(&[
        ("PORT", Some("x")),
        ("NAME", Some("ok")),
        ("JWT_SECRET", Some("1")),
        ("DB_HOST", None),
    ]);
    let mut joined = validate_env(&a, &None);
    joined.extend(validate_env(&b, &None));
    assert_eq!(validate_env(&ab, &None), joined);
}

#[test]
fn merged_maps_in_any_order_get_the_same_findings() {
    let a = map_of(&[("PORT", Some("x")), ("NAME", Some("ok"))]);
    let b = map_of(&[("JWT_SECRET", Some("1")), ("DB_HOST", None)]);
    let mixed = map_of(&[
        ("DB_HOST", None),
        ("PORT", Some("x")),
        ("JWT_SECRET", Some("1")),
        ("NAME", Some("ok")),
    ]);
    let mut expected: Vec<String> =
        validate_env(&a, &None).into_iter().chain(validate_env(&b, &None)).map(|e| e.key).collect();
    let mut got: Vec<String> = validate_env(&mixed, &None).into_iter().map(|e| e.key).collect();
    expected.sort();
    got.sort();
    assert_eq!(got, expected);
}
