//! The rule engine that checks the variables of a `.env` file.
//!
//! Each rule looks at one variable and reports at most one finding. The
//! rules are tried in priority order, and the first that reports a finding
//! for a variable decides it. Custom rules from the configuration replace the
//! rules that have the same pattern.
use vstd::prelude::*;
use vstd::string::*;
use vstd::utf8::encode_utf8;

use crate::env_map::{has_key, keys_distinct, EntryView, EnvMap};
use crate::error::{error_view, finding_view, findings_view, make_error, DevGuardError, ErrorView};
use crate::text::{
    all_digits, chars_eq, chars_of, contains, contains_exec, digits_value, is_digit, occurs_at,
    starts_with_char, unsigned_digits, lowercase, parse_bounded, parse_bounded_exec,
    is_one_of, split_char, split_char_exec, starts_with, starts_with_any, str_eq, str_views,
    to_lowercase, utf8_len,
};

verus! {

// ---------------------------------------------------------------------------
// The rules
// ---------------------------------------------------------------------------

/// A check on one variable.
pub trait Rule {
    /// The pattern by which the rule is known; a custom rule with the same
    /// pattern replaces it.
    spec fn spec_pattern(&self) -> Seq<char>;

    /// The finding of the rule for `key` with value `value`, if any.
    spec fn spec_check(&self, key: Seq<char>, value: Seq<char>) -> Option<ErrorView>;

    fn pattern(&self) -> (p: &str)
        ensures
            p@ == self.spec_pattern(),
    ;

    fn check(&self, key: &str, value: &str) -> (r: Option<DevGuardError>)
        ensures
            finding_view(r) == self.spec_check(key@, value@),
    ;
}

/// Secrets, keys and API tokens must be at least 32 characters long.
#[derive(Debug, Clone, Copy, PartialEq, Eq)]
pub struct SecretRule;

/// Ports must be numbers that fit in 16 bits.
#[derive(Debug, Clone, Copy, PartialEq, Eq)]
pub struct PortRule;

/// URLs must start with a known scheme.
#[derive(Debug, Clone, Copy, PartialEq, Eq)]
pub struct UrlRule;

/// IDs must not be empty.
#[derive(Debug, Clone, Copy, PartialEq, Eq)]
pub struct IdRule;

/// Hosts must not be empty.
#[derive(Debug, Clone, Copy, PartialEq, Eq)]
pub struct HostRule;

/// `NODE_ENV` must name a known environment.
#[derive(Debug, Clone, Copy, PartialEq, Eq)]
pub struct NodeRule;

/// No variable may hold a well-known placeholder value.
#[derive(Debug, Clone, Copy, PartialEq, Eq)]
pub struct DummyValueRule;

/// Settings that weaken security are reported.
#[derive(Debug, Clone, Copy, PartialEq, Eq)]
pub struct InsecureConfigRule;

/// A rule from the configuration: for keys that contain `pattern`,
/// `rule_type` `min_length` asks for at least `value` bytes (32 where `value`
/// is not a number), and `one_of` asks for one of the comma-separated
/// options of `value`. Other rule types report nothing.
#[derive(Debug, Clone, PartialEq, Eq)]
pub struct DynamicRule {
    pub pattern: String,
    pub rule_type: String,
    pub value: String,
    pub message: String,
}

/// A custom rule as the configuration gives it.
#[derive(Debug, Clone, PartialEq, Eq)]
pub struct CustomRule {
    pub pattern: String,
    pub rule: String,
    pub value: String,
    pub message: String,
}

/// The configuration of the checks: custom rules, if any.
#[derive(Debug, Clone, PartialEq, Eq)]
pub struct GuardStackConfig {
    pub rules: Option<Vec<CustomRule>>,
}

// ---------------------------------------------------------------------------
// What each rule reports
// ---------------------------------------------------------------------------

/// The finding for an empty value.
pub open spec fn empty_error(key: Seq<char>) -> ErrorView {
    error_view(key, "empty"@, "must not be empty"@)
}

pub open spec fn secret_finding(key: Seq<char>, value: Seq<char>) -> Option<ErrorView> {
    if !(contains(key, "SECRET"@) || contains(key, "KEY"@) || contains(key, "API"@)) {
        None
    } else if value.len() == 0 {
        Some(empty_error(key))
    } else if value.len() < 32 {
        Some(error_view(key, "min_length"@, "must be greater than or equal to 32"@))
    } else {
        None
    }
}

pub open spec fn port_finding(key: Seq<char>, value: Seq<char>) -> Option<ErrorView> {
    if !contains(key, "PORT"@) {
        None
    } else if value.len() == 0 {
        Some(empty_error(key))
    } else if parse_bounded(value, 65535) is None {
        Some(error_view(key, "format"@, "must be a number"@))
    } else {
        None
    }
}

/// The schemes that a URL may start with.
pub open spec fn url_prefixes() -> Seq<Seq<char>> {
    seq![
        "http://"@,
        "https://"@,
        "postgres://"@,
        "postgresql://"@,
        "mysql://"@,
        "redis://"@,
        "rediss://"@,
        "mongodb://"@,
        "mongodb+srv://"@,
        "amqp://"@,
        "amqps://"@,
        "sqlite://"@,
    ]
}

/// The message for a URL without a known scheme.
pub open spec fn url_message() -> Seq<char> {
    "must start with http://, https://, postgres://, postgresql://, mysql://, redis://, rediss://, mongodb://, mongodb+srv://, amqp://, amqps://, sqlite://"@
}

pub open spec fn url_finding(key: Seq<char>, value: Seq<char>) -> Option<ErrorView> {
    if !contains(key, "URL"@) {
        None
    } else if value.len() == 0 {
        Some(empty_error(key))
    } else if !(exists|i: int| 0 <= i < url_prefixes().len() && starts_with(value, #[trigger] url_prefixes()[i])) {
        Some(error_view(key, "format"@, url_message()))
    } else {
        None
    }
}

pub open spec fn id_finding(key: Seq<char>, value: Seq<char>) -> Option<ErrorView> {
    if !contains(key, "ID"@) {
        None
    } else if value.len() == 0 {
        Some(empty_error(key))
    } else {
        None
    }
}

pub open spec fn host_finding(key: Seq<char>, value: Seq<char>) -> Option<ErrorView> {
    if !contains(key, "HOST"@) {
        None
    } else if value.len() == 0 {
        Some(empty_error(key))
    } else {
        None
    }
}

/// The environments that `NODE_ENV` may name.
pub open spec fn node_envs() -> Seq<Seq<char>> {
    seq!["development"@, "production"@, "test"@]
}

pub open spec fn node_finding(key: Seq<char>, value: Seq<char>) -> Option<ErrorView> {
    if key != "NODE_ENV"@ {
        None
    } else if value.len() == 0 {
        Some(empty_error(key))
    } else if !node_envs().contains(value) {
        Some(error_view(key, "format"@, "must be one of: development, production, test"@))
    } else {
        None
    }
}

/// Well-known placeholder values, in lower case (the values are compared
/// after lowercasing: `123456`, `password`, `password123`, `change_me`,
/// `changeme`, `REPLACE_ME`, `dummy`, `test`).
pub open spec fn dummy_values() -> Seq<Seq<char>> {
    seq![
        "123456"@,
        "password"@,
        "password123"@,
        "change_me"@,
        "changeme"@,
        "replace_me"@,
        "dummy"@,
        "test"@,
    ]
}

/// What `DummyValueRule` reports, given the lowercase form of the value.
pub open spec fn dummy_finding_lowered(key: Seq<char>, value: Seq<char>, lowered: Seq<char>) -> Option<ErrorView> {
    if dummy_values().contains(lowered) {
        Some(error_view(key, "insecure_value"@, "contains a common dummy value: '"@ + value + "'"@))
    } else {
        None
    }
}

pub open spec fn dummy_finding(key: Seq<char>, value: Seq<char>) -> Option<ErrorView> {
    dummy_finding_lowered(key, value, lowercase(value))
}

/// What `InsecureConfigRule` reports, given the lowercase form of the value.
pub open spec fn insecure_finding_lowered(key: Seq<char>, value: Seq<char>, lowered: Seq<char>) -> Option<ErrorView> {
    if contains(key, "CORS_ORIGIN"@) && value == "*"@ {
        Some(error_view(key, "insecure_cors"@, "CORS_ORIGIN set to '*' is insecure in production"@))
    } else if key == "NODE_TLS_REJECT_UNAUTHORIZED"@ && value == "0"@ {
        Some(error_view(key, "insecure_ssl"@, "SSL certificate validation is disabled (NODE_TLS_REJECT_UNAUTHORIZED=0)"@))
    } else if (contains(key, "DEBUG"@) || contains(key, "LOG_LEVEL"@)) && (value == "true"@ || lowered == "debug"@) {
        Some(error_view(key, "insecure_debug"@, "debug logging enabled - may leak sensitive information"@))
    } else {
        None
    }
}

pub open spec fn insecure_finding(key: Seq<char>, value: Seq<char>) -> Option<ErrorView> {
    insecure_finding_lowered(key, value, lowercase(value))
}

/// The smallest length that a `min_length` rule with setting `setting` asks for.
pub open spec fn min_length_of(setting: Seq<char>) -> int {
    match parse_bounded(setting, usize::MAX as int) {
        Some(m) => m,
        None => 32,
    }
}

pub open spec fn dynamic_finding(r: DynamicRule, key: Seq<char>, value: Seq<char>) -> Option<ErrorView> {
    if !contains(key, r.pattern@) {
        None
    } else if r.rule_type@ == "min_length"@ {
        if encode_utf8(value).len() < min_length_of(r.value@) {
            Some(error_view(key, "min_length"@, r.message@))
        } else {
            None
        }
    } else if r.rule_type@ == "one_of"@ {
        if !split_char(r.value@, ',').contains(value) {
            Some(error_view(key, "one_of"@, r.message@))
        } else {
            None
        }
    } else {
        None
    }
}

// ---------------------------------------------------------------------------
// Run-time lists
// ---------------------------------------------------------------------------


fn url_prefix_list() -> (v: Vec<&'static str>)
    ensures
        str_views(v@) == url_prefixes(),
{
    let v = vec![
        "http://",
        "https://",
        "postgres://",
        "postgresql://",
        "mysql://",
        "redis://",
        "rediss://",
        "mongodb://",
        "mongodb+srv://",
        "amqp://",
        "amqps://",
        "sqlite://",
    ];
    assert(str_views(v@) =~= url_prefixes());
    v
}

fn node_env_list() -> (v: Vec<&'static str>)
    ensures
        str_views(v@) == node_envs(),
{
    let v = vec!["development", "production", "test"];
    assert(str_views(v@) =~= node_envs());
    v
}

fn dummy_value_list() -> (v: Vec<&'static str>)
    ensures
        str_views(v@) == dummy_values(),
{
    let v = vec![
        "123456",
        "password",
        "password123",
        "change_me",
        "changeme",
        "replace_me",
        "dummy",
        "test",
    ];
    assert(str_views(v@) =~= dummy_values());
    v
}

/// `key` contains the literal `pattern`.
fn key_contains(key: &[char], pattern: &str) -> (r: bool)
    ensures
        r == contains(key@, pattern@),
{
    let p = chars_of(pattern);
    contains_exec(key, p.as_slice())
}

// ---------------------------------------------------------------------------
// The rules' checks
// ---------------------------------------------------------------------------

impl Rule for SecretRule {
    open spec fn spec_pattern(&self) -> Seq<char> {
        "SECRET"@
    }

    open spec fn spec_check(&self, key: Seq<char>, value: Seq<char>) -> Option<ErrorView> {
        secret_finding(key, value)
    }

    fn pattern(&self) -> (p: &str) {
        "SECRET"
    }

    fn check(&self, key: &str, value: &str) -> (r: Option<DevGuardError>) {
        let kc = chars_of(key);
        if !key_contains(kc.as_slice(), "SECRET") && !key_contains(kc.as_slice(), "KEY")
            && !key_contains(kc.as_slice(), "API") {
            return None;
        }
        let vc = chars_of(value);
        if vc.len() == 0 {
            return Some(make_error(key, "empty", "must not be empty"));
        }
        if vc.len() < 32 {
            return Some(make_error(key, "min_length", "must be greater than or equal to 32"));
        }
        None
    }
}

impl Rule for PortRule {
    open spec fn spec_pattern(&self) -> Seq<char> {
        "PORT"@
    }

    open spec fn spec_check(&self, key: Seq<char>, value: Seq<char>) -> Option<ErrorView> {
        port_finding(key, value)
    }

    fn pattern(&self) -> (p: &str) {
        "PORT"
    }

    fn check(&self, key: &str, value: &str) -> (r: Option<DevGuardError>) {
        let kc = chars_of(key);
        if !key_contains(kc.as_slice(), "PORT") {
            return None;
        }
        let vc = chars_of(value);
        if vc.len() == 0 {
            return Some(make_error(key, "empty", "must not be empty"));
        }
        if parse_bounded_exec(vc.as_slice(), 65535).is_none() {
            return Some(make_error(key, "format", "must be a number"));
        }
        None
    }
}

impl Rule for UrlRule {
    open spec fn spec_pattern(&self) -> Seq<char> {
        "URL"@
    }

    open spec fn spec_check(&self, key: Seq<char>, value: Seq<char>) -> Option<ErrorView> {
        url_finding(key, value)
    }

    fn pattern(&self) -> (p: &str) {
        "URL"
    }

    fn check(&self, key: &str, value: &str) -> (r: Option<DevGuardError>) {
        let kc = chars_of(key);
        if !key_contains(kc.as_slice(), "URL") {
            return None;
        }
        let vc = chars_of(value);
        if vc.len() == 0 {
            return Some(make_error(key, "empty", "must not be empty"));
        }
        let prefixes = url_prefix_list();
        if !starts_with_any(vc.as_slice(), &prefixes) {
            return Some(
                make_error(
                    key,
                    "format",
                    "must start with http://, https://, postgres://, postgresql://, mysql://, redis://, rediss://, mongodb://, mongodb+srv://, amqp://, amqps://, sqlite://",
                ),
            );
        }
        None
    }
}

impl Rule for IdRule {
    open spec fn spec_pattern(&self) -> Seq<char> {
        "ID"@
    }

    open spec fn spec_check(&self, key: Seq<char>, value: Seq<char>) -> Option<ErrorView> {
        id_finding(key, value)
    }

    fn pattern(&self) -> (p: &str) {
        "ID"
    }

    fn check(&self, key: &str, value: &str) -> (r: Option<DevGuardError>) {
        let kc = chars_of(key);
        if !key_contains(kc.as_slice(), "ID") {
            return None;
        }
        let vc = chars_of(value);
        if vc.len() == 0 {
            return Some(make_error(key, "empty", "must not be empty"));
        }
        None
    }
}

impl Rule for HostRule {
    open spec fn spec_pattern(&self) -> Seq<char> {
        "HOST"@
    }

    open spec fn spec_check(&self, key: Seq<char>, value: Seq<char>) -> Option<ErrorView> {
        host_finding(key, value)
    }

    fn pattern(&self) -> (p: &str) {
        "HOST"
    }

    fn check(&self, key: &str, value: &str) -> (r: Option<DevGuardError>) {
        let kc = chars_of(key);
        if !key_contains(kc.as_slice(), "HOST") {
            return None;
        }
        let vc = chars_of(value);
        if vc.len() == 0 {
            return Some(make_error(key, "empty", "must not be empty"));
        }
        None
    }
}

impl Rule for NodeRule {
    open spec fn spec_pattern(&self) -> Seq<char> {
        "NODE_ENV"@
    }

    open spec fn spec_check(&self, key: Seq<char>, value: Seq<char>) -> Option<ErrorView> {
        node_finding(key, value)
    }

    fn pattern(&self) -> (p: &str) {
        "NODE_ENV"
    }

    fn check(&self, key: &str, value: &str) -> (r: Option<DevGuardError>) {
        if !str_eq(key, "NODE_ENV") {
            return None;
        }
        let vc = chars_of(value);
        if vc.len() == 0 {
            return Some(make_error(key, "empty", "must not be empty"));
        }
        let envs = node_env_list();
        if !is_one_of(value, &envs) {
            return Some(make_error(key, "format", "must be one of: development, production, test"));
        }
        None
    }
}

impl Rule for DummyValueRule {
    open spec fn spec_pattern(&self) -> Seq<char> {
        "DUMMY_VALUE"@
    }

    open spec fn spec_check(&self, key: Seq<char>, value: Seq<char>) -> Option<ErrorView> {
        dummy_finding(key, value)
    }

    fn pattern(&self) -> (p: &str) {
        "DUMMY_VALUE"
    }

    fn check(&self, key: &str, value: &str) -> (r: Option<DevGuardError>) {
        let lowered = to_lowercase(value);
        dummy_value_finding(key, value, lowered.as_str())
    }
}

/// What `DummyValueRule` reports for `key` and `value`, given `lowered`,
/// the lowercase form of `value`.
pub fn dummy_value_finding(key: &str, value: &str, lowered: &str) -> (r: Option<DevGuardError>)
    ensures
        finding_view(r) == dummy_finding_lowered(key@, value@, lowered@),
{
    let dummies = dummy_value_list();
    if is_one_of(lowered, &dummies) {
        let mut message = "contains a common dummy value: '".to_owned();
        message.append(value);
        message.append("'");
        Some(make_error(key, "insecure_value", message.as_str()))
    } else {
        None
    }
}

/// What `InsecureConfigRule` reports for `key` and `value`, given
/// `lowered`, the lowercase form of `value`.
pub fn insecure_config_finding(key: &str, value: &str, lowered: &str) -> (r: Option<DevGuardError>)
    ensures
        finding_view(r) == insecure_finding_lowered(key@, value@, lowered@),
{
    let kc = chars_of(key);
    if key_contains(kc.as_slice(), "CORS_ORIGIN") && str_eq(value, "*") {
        return Some(
            make_error(key, "insecure_cors", "CORS_ORIGIN set to '*' is insecure in production"),
        );
    }
    if str_eq(key, "NODE_TLS_REJECT_UNAUTHORIZED") && str_eq(value, "0") {
        return Some(
            make_error(
                key,
                "insecure_ssl",
                "SSL certificate validation is disabled (NODE_TLS_REJECT_UNAUTHORIZED=0)",
            ),
        );
    }
    if (key_contains(kc.as_slice(), "DEBUG") || key_contains(kc.as_slice(), "LOG_LEVEL")) && (
    str_eq(value, "true") || str_eq(lowered, "debug")) {
        return Some(
            make_error(
                key,
                "insecure_debug",
                "debug logging enabled - may leak sensitive information",
            ),
        );
    }
    None
}

impl Rule for InsecureConfigRule {
    open spec fn spec_pattern(&self) -> Seq<char> {
        "INSECURE_CONFIG"@
    }

    open spec fn spec_check(&self, key: Seq<char>, value: Seq<char>) -> Option<ErrorView> {
        insecure_finding(key, value)
    }

    fn pattern(&self) -> (p: &str) {
        "INSECURE_CONFIG"
    }

    fn check(&self, key: &str, value: &str) -> (r: Option<DevGuardError>) {
        let lowered = to_lowercase(value);
        insecure_config_finding(key, value, lowered.as_str())
    }
}

impl Rule for DynamicRule {
    open spec fn spec_pattern(&self) -> Seq<char> {
        self.pattern@
    }

    open spec fn spec_check(&self, key: Seq<char>, value: Seq<char>) -> Option<ErrorView> {
        dynamic_finding(*self, key, value)
    }

    fn pattern(&self) -> (p: &str) {
        self.pattern.as_str()
    }

    fn check(&self, key: &str, value: &str) -> (r: Option<DevGuardError>) {
        let kc = chars_of(key);
        if !key_contains(kc.as_slice(), self.pattern.as_str()) {
            return None;
        }
        if str_eq(self.rule_type.as_str(), "min_length") {
            let setting = chars_of(self.value.as_str());
            let min: u64 = match parse_bounded_exec(setting.as_slice(), usize::MAX as u64) {
                Some(m) => m,
                None => 32,
            };
            let vc = chars_of(value);
            if utf8_len(vc.as_slice()) < min as u128 {
                return Some(make_error(key, "min_length", self.message.as_str()));
            }
        } else if str_eq(self.rule_type.as_str(), "one_of") {
            let setting = chars_of(self.value.as_str());
            let options = split_char_exec(setting.as_slice(), ',');
            let vc = chars_of(value);
            let n = options.len();
            let mut found = false;
            for i in 0..n
                invariant
                    n == options@.len() == split_char(self.value@, ',').len(),
                    forall|k: int| 0 <= k < options@.len() ==> #[trigger] options@[k]@ == split_char(self.value@, ',')[k],
                    vc@ == value@,
                    !found ==> forall|j: int| 0 <= j < i ==> #[trigger] split_char(self.value@, ',')[j] != value@,
                    found ==> split_char(self.value@, ',').contains(value@),
            {
                if !found && chars_eq(options[i].as_slice(), vc.as_slice()) {
                    assert(split_char(self.value@, ',')[i as int] == value@);
                    found = true;
                }
            }
            if !found {
                return Some(make_error(key, "one_of", self.message.as_str()));
            }
        }
        None
    }
}

// ---------------------------------------------------------------------------
// The rule engine
// ---------------------------------------------------------------------------

/// One rule of the engine: a built-in rule or a custom one.
#[derive(Debug, Clone, PartialEq, Eq)]
pub enum ActiveRule {
    Node(NodeRule),
    Secret(SecretRule),
    Url(UrlRule),
    Port(PortRule),
    Host(HostRule),
    Id(IdRule),
    DummyValue(DummyValueRule),
    InsecureConfig(InsecureConfigRule),
    Dynamic(DynamicRule),
}

impl Rule for ActiveRule {
    open spec fn spec_pattern(&self) -> Seq<char> {
        match self {
            ActiveRule::Node(r) => r.spec_pattern(),
            ActiveRule::Secret(r) => r.spec_pattern(),
            ActiveRule::Url(r) => r.spec_pattern(),
            ActiveRule::Port(r) => r.spec_pattern(),
            ActiveRule::Host(r) => r.spec_pattern(),
            ActiveRule::Id(r) => r.spec_pattern(),
            ActiveRule::DummyValue(r) => r.spec_pattern(),
            ActiveRule::InsecureConfig(r) => r.spec_pattern(),
            ActiveRule::Dynamic(r) => r.spec_pattern(),
        }
    }

    open spec fn spec_check(&self, key: Seq<char>, value: Seq<char>) -> Option<ErrorView> {
        match self {
            ActiveRule::Node(r) => r.spec_check(key, value),
            ActiveRule::Secret(r) => r.spec_check(key, value),
            ActiveRule::Url(r) => r.spec_check(key, value),
            ActiveRule::Port(r) => r.spec_check(key, value),
            ActiveRule::Host(r) => r.spec_check(key, value),
            ActiveRule::Id(r) => r.spec_check(key, value),
            ActiveRule::DummyValue(r) => r.spec_check(key, value),
            ActiveRule::InsecureConfig(r) => r.spec_check(key, value),
            ActiveRule::Dynamic(r) => r.spec_check(key, value),
        }
    }

    fn pattern(&self) -> (p: &str) {
        match self {
            ActiveRule::Node(r) => r.pattern(),
            ActiveRule::Secret(r) => r.pattern(),
            ActiveRule::Url(r) => r.pattern(),
            ActiveRule::Port(r) => r.pattern(),
            ActiveRule::Host(r) => r.pattern(),
            ActiveRule::Id(r) => r.pattern(),
            ActiveRule::DummyValue(r) => r.pattern(),
            ActiveRule::InsecureConfig(r) => r.pattern(),
            ActiveRule::Dynamic(r) => r.pattern(),
        }
    }

    fn check(&self, key: &str, value: &str) -> (r: Option<DevGuardError>) {
        match self {
            ActiveRule::Node(r) => r.check(key, value),
            ActiveRule::Secret(r) => r.check(key, value),
            ActiveRule::Url(r) => r.check(key, value),
            ActiveRule::Port(r) => r.check(key, value),
            ActiveRule::Host(r) => r.check(key, value),
            ActiveRule::Id(r) => r.check(key, value),
            ActiveRule::DummyValue(r) => r.check(key, value),
            ActiveRule::InsecureConfig(r) => r.check(key, value),
            ActiveRule::Dynamic(r) => r.check(key, value),
        }
    }
}

/// The built-in rules, highest priority first.
pub open spec fn builtin_rules() -> Seq<ActiveRule> {
    seq![
        ActiveRule::Node(NodeRule),
        ActiveRule::Secret(SecretRule),
        ActiveRule::Url(UrlRule),
        ActiveRule::Port(PortRule),
        ActiveRule::Host(HostRule),
        ActiveRule::Id(IdRule),
        ActiveRule::DummyValue(DummyValueRule),
        ActiveRule::InsecureConfig(InsecureConfigRule),
    ]
}

/// `rules` without the rules whose pattern is `p`, in the same order.
pub open spec fn without_pattern(rules: Seq<ActiveRule>, p: Seq<char>) -> Seq<ActiveRule>
    decreases rules.len(),
{
    if rules.len() == 0 {
        rules
    } else {
        let rest = without_pattern(rules.drop_first(), p);
        if rules[0].spec_pattern() == p {
            rest
        } else {
            seq![rules[0]] + rest
        }
    }
}

/// The rule that a custom rule of the configuration becomes.
pub open spec fn dynamic_of(c: CustomRule) -> ActiveRule {
    ActiveRule::Dynamic(
        DynamicRule { pattern: c.pattern, rule_type: c.rule, value: c.value, message: c.message },
    )
}

/// `rules` after adding the custom rules `customs` in order: each one first
/// removes the rules with its pattern, then joins at the lowest priority.
pub open spec fn merge_custom(rules: Seq<ActiveRule>, customs: Seq<CustomRule>) -> Seq<ActiveRule>
    decreases customs.len(),
{
    if customs.len() == 0 {
        rules
    } else {
        merge_custom(
            without_pattern(rules, customs[0].pattern@).push(dynamic_of(customs[0])),
            customs.drop_first(),
        )
    }
}

/// The rules that the engine applies under `config`, highest priority first.
pub open spec fn active_rules(config: Option<GuardStackConfig>) -> Seq<ActiveRule> {
    match config {
        Some(cfg) => match cfg.rules {
            Some(customs) => merge_custom(builtin_rules(), customs@),
            None => builtin_rules(),
        },
        None => builtin_rules(),
    }
}

/// The finding of the first rule of `rules` that reports one for `key`
/// with value `value`.
pub open spec fn first_finding(rules: Seq<ActiveRule>, key: Seq<char>, value: Seq<char>) -> Option<ErrorView>
    decreases rules.len(),
{
    if rules.len() == 0 {
        None
    } else {
        match rules[0].spec_check(key, value) {
            Some(e) => Some(e),
            None => first_finding(rules.drop_first(), key, value),
        }
    }
}

/// The value that the rules see for a variable: its value, or the empty
/// string where it has none.
pub open spec fn value_or_empty(v: Option<Seq<char>>) -> Seq<char> {
    match v {
        Some(s) => s,
        None => Seq::empty(),
    }
}

/// The findings for the variables `entries` under `rules`, in the order of
/// the variables: for each, the finding of the first rule that reports one.
pub open spec fn validation_findings(rules: Seq<ActiveRule>, entries: Seq<EntryView>) -> Seq<ErrorView>
    decreases entries.len(),
{
    if entries.len() == 0 {
        Seq::empty()
    } else {
        let prev = validation_findings(rules, entries.drop_last());
        let e = entries.last();
        match first_finding(rules, e.0, value_or_empty(e.1)) {
            Some(f) => prev.push(f),
            None => prev,
        }
    }
}

/// The built-in rules, highest priority first.
pub fn builtin_rule_list() -> (v: Vec<ActiveRule>)
    ensures
        v@ == builtin_rules(),
{
    let v = vec![
        ActiveRule::Node(NodeRule),
        ActiveRule::Secret(SecretRule),
        ActiveRule::Url(UrlRule),
        ActiveRule::Port(PortRule),
        ActiveRule::Host(HostRule),
        ActiveRule::Id(IdRule),
        ActiveRule::DummyValue(DummyValueRule),
        ActiveRule::InsecureConfig(InsecureConfigRule),
    ];
    assert(v@ =~= builtin_rules());
    v
}

/// Removes from `rules` the rules whose pattern is `p`.
pub fn remove_pattern(rules: &mut Vec<ActiveRule>, p: &str)
    ensures
        final(rules)@ == without_pattern(old(rules)@, p@),
{
    let ghost orig = rules@;
    let mut i: usize = 0;
    assert(orig.skip(0) =~= orig);
    assert(orig.take(0) + without_pattern(orig.skip(0), p@) =~= without_pattern(orig, p@));
    while i < rules.len()
        invariant
            i <= rules@.len(),
            without_pattern(orig, p@) == rules@.take(i as int) + without_pattern(
                rules@.skip(i as int),
                p@,
            ),
        decreases rules@.len() - i,
    {
        let ghost before = rules@;
        assert(before.skip(i as int).drop_first() =~= before.skip(i + 1));
        assert(before.skip(i as int)[0] == before[i as int]);
        if str_eq(rules[i].pattern(), p) {
            rules.remove(i);
            assert(rules@.take(i as int) =~= before.take(i as int));
            assert(rules@.skip(i as int) =~= before.skip(i + 1));
        } else {
            assert(before.take(i + 1) =~= before.take(i as int).push(before[i as int]));
            assert(before.take(i as int) + (seq![before[i as int]] + without_pattern(
                before.skip(i + 1),
                p@,
            )) =~= before.take(i + 1) + without_pattern(before.skip(i + 1), p@));
            i = i + 1;
        }
    }
    assert(rules@.skip(i as int) =~= Seq::<ActiveRule>::empty());
    assert(rules@.take(i as int) =~= rules@);
}

/// The rule that a custom rule of the configuration becomes.
pub fn dynamic_rule_from(c: &CustomRule) -> (r: ActiveRule)
    ensures
        r == dynamic_of(*c),
{
    ActiveRule::Dynamic(
        DynamicRule {
            pattern: c.pattern.clone(),
            rule_type: c.rule.clone(),
            value: c.value.clone(),
            message: c.message.clone(),
        },
    )
}

/// The rules that the engine applies under `config`, highest priority
/// first: the built-in rules, each custom rule replacing the rules with its
/// pattern and joining at the lowest priority.
pub fn active_rule_list(config: &Option<GuardStackConfig>) -> (v: Vec<ActiveRule>)
    ensures
        v@ == active_rules(*config),
{
    let mut rules = builtin_rule_list();
    if let Some(cfg) = config {
        if let Some(customs) = &cfg.rules {
            let n = customs.len();
            assert(customs@.skip(0) =~= customs@);
            for i in 0..n
                invariant
                    n == customs@.len(),
                    merge_custom(builtin_rules(), customs@) == merge_custom(
                        rules@,
                        customs@.skip(i as int),
                    ),
            {
                assert(customs@.skip(i as int).drop_first() =~= customs@.skip(i + 1));
                assert(customs@.skip(i as int)[0] == customs@[i as int]);
                remove_pattern(&mut rules, customs[i].pattern.as_str());
                rules.push(dynamic_rule_from(&customs[i]));
            }
            assert(customs@.skip(n as int) =~= Seq::<CustomRule>::empty());
        }
    }
    rules
}

/// The finding of the first rule of `rules` that reports one for `key`
/// with value `value`.
pub fn first_rule_finding(rules: &Vec<ActiveRule>, key: &str, value: &str) -> (r: Option<DevGuardError>)
    ensures
        finding_view(r) == first_finding(rules@, key@, value@),
{
    let n = rules.len();
    assert(rules@.skip(0) =~= rules@);
    for i in 0..n
        invariant
            n == rules@.len(),
            first_finding(rules@, key@, value@) == first_finding(rules@.skip(i as int), key@, value@),
    {
        assert(rules@.skip(i as int).drop_first() =~= rules@.skip(i + 1));
        assert(rules@.skip(i as int)[0] == rules@[i as int]);
        if let Some(e) = rules[i].check(key, value) {
            return Some(e);
        }
    }
    assert(rules@.skip(n as int) =~= Seq::<ActiveRule>::empty());
    None
}

/// Checks every variable of `map` under the rules of `config`: for each
/// variable, in the order of the map, the finding of the first rule that
/// reports one (a variable without a value is checked as the empty string).
pub fn validate_env(map: &EnvMap, config: &Option<GuardStackConfig>) -> (r: Vec<DevGuardError>)
    ensures
        findings_view(r@) == validation_findings(active_rules(*config), map@),
{
    let rules = active_rule_list(config);
    let mut out: Vec<DevGuardError> = Vec::new();
    let n = map.len();
    proof {
        reveal_strlit("");
    }
    for i in 0..n
        invariant
            n == map@.len(),
            rules@ == active_rules(*config),
            ""@ == Seq::<char>::empty(),
            findings_view(out@) == validation_findings(rules@, map@.take(i as int)),
    {
        assert(map@.take(i + 1).drop_last() =~= map@.take(i as int));
        assert(map@.take(i + 1).last() == map@[i as int]);
        let (k, v) = map.entry_at(i);
        let value: &str = match v {
            Some(s) => s,
            None => "",
        };
        assert(value@ == value_or_empty(map@[i as int].1));
        if let Some(e) = first_rule_finding(&rules, k, value) {
            let ghost old_out = out@;
            out.push(e);
            assert(findings_view(out@) =~= findings_view(old_out).push(e@));
        }
    }
    assert(map@.take(n as int) =~= map@);
    out
}

// ---------------------------------------------------------------------------
// Laws
// ---------------------------------------------------------------------------

/// No two rules of `rules` have the same pattern.
pub open spec fn patterns_distinct(rules: Seq<ActiveRule>) -> bool {
    forall|i: int, j: int|
        0 <= i < j < rules.len() ==> #[trigger] rules[i].spec_pattern() != #[trigger] rules[j].spec_pattern()
}

/// Every finding of a rule is about the variable that it checked.
pub proof fn lemma_finding_names_its_key(r: ActiveRule, key: Seq<char>, value: Seq<char>)
    ensures
        r.spec_check(key, value) matches Some(e) ==> e.key == key,
{
}

/// The first finding of a list of rules is about the variable checked.
pub proof fn lemma_first_finding_names_its_key(rules: Seq<ActiveRule>, key: Seq<char>, value: Seq<char>)
    ensures
        first_finding(rules, key, value) matches Some(e) ==> e.key == key,
    decreases rules.len(),
{
    if rules.len() > 0 {
        lemma_finding_names_its_key(rules[0], key, value);
        lemma_first_finding_names_its_key(rules.drop_first(), key, value);
    }
}

/// Each variable gets at most one finding, and only variables of the map
/// get findings; where the keys of the map are distinct, so are the keys of
/// the findings.
pub proof fn lemma_one_finding_per_variable(rules: Seq<ActiveRule>, entries: Seq<EntryView>)
    ensures
        validation_findings(rules, entries).len() <= entries.len(),
        forall|j: int|
            0 <= j < validation_findings(rules, entries).len() ==> has_key(
                entries,
                #[trigger] validation_findings(rules, entries)[j].key,
            ),
        keys_distinct(entries) ==> forall|i: int, j: int|
            0 <= i < j < validation_findings(rules, entries).len() ==> #[trigger] validation_findings(
                rules,
                entries,
            )[i].key != #[trigger] validation_findings(rules, entries)[j].key,
    decreases entries.len(),
{
    if entries.len() > 0 {
        let init = entries.drop_last();
        let e = entries.last();
        let prev = validation_findings(rules, init);
        let cur = validation_findings(rules, entries);
        lemma_one_finding_per_variable(rules, init);
        lemma_first_finding_names_its_key(rules, e.0, value_or_empty(e.1));
        assert forall|j: int| 0 <= j < cur.len() implies has_key(entries, #[trigger] cur[j].key) by {
            if j < prev.len() {
                assert(cur[j] == prev[j]);
                let w = choose|w: int| 0 <= w < init.len() && #[trigger] init[w].0 == prev[j].key;
                assert(entries[w] == init[w]);
            } else {
                assert(cur[j].key == entries[entries.len() - 1].0);
            }
        }
        if keys_distinct(entries) {
            assert(keys_distinct(init)) by {
                assert forall|a: int, b: int| 0 <= a < b < init.len() implies #[trigger] init[a].0
                    != #[trigger] init[b].0 by {
                    assert(entries[a] == init[a]);
                    assert(entries[b] == init[b]);
                }
            }
            assert forall|a: int, b: int| 0 <= a < b < cur.len() implies #[trigger] cur[a].key
                != #[trigger] cur[b].key by {
                if b < prev.len() {
                    assert(cur[a] == prev[a]);
                    assert(cur[b] == prev[b]);
                } else {
                    assert(cur[a] == prev[a]);
                    let w = choose|w: int| 0 <= w < init.len() && #[trigger] init[w].0 == prev[a].key;
                    assert(entries[w] == init[w]);
                    assert(entries[w].0 != entries[entries.len() - 1].0);
                }
            }
        }
    }
}

proof fn lemma_without_pattern(rules: Seq<ActiveRule>, p: Seq<char>)
    ensures
        forall|x: ActiveRule| #[trigger] without_pattern(rules, p).contains(x) <==> (rules.contains(x) && x.spec_pattern() != p),
        patterns_distinct(rules) ==> patterns_distinct(without_pattern(rules, p)),
    decreases rules.len(),
{
    if rules.len() > 0 {
        let tail = rules.drop_first();
        let rest = without_pattern(tail, p);
        lemma_without_pattern(tail, p);
        assert forall|x: ActiveRule| rules.contains(x) <==> (x == rules[0] || tail.contains(x)) by {
            if rules.contains(x) && x != rules[0] {
                let i = choose|i: int| 0 <= i < rules.len() && rules[i] == x;
                assert(tail[i - 1] == x);
            }
            if tail.contains(x) {
                let i = choose|i: int| 0 <= i < tail.len() && tail[i] == x;
                assert(rules[i + 1] == x);
            }
            if x == rules[0] {
                assert(rules[0] == x);
            }
        }
        if rules[0].spec_pattern() != p {
            let w = seq![rules[0]] + rest;
            assert forall|x: ActiveRule| w.contains(x) <==> (x == rules[0] || rest.contains(x)) by {
                if w.contains(x) && x != rules[0] {
                    let i = choose|i: int| 0 <= i < w.len() && w[i] == x;
                    assert(rest[i - 1] == x);
                }
                if rest.contains(x) {
                    let i = choose|i: int| 0 <= i < rest.len() && rest[i] == x;
                    assert(w[i + 1] == x);
                }
                if x == rules[0] {
                    assert(w[0] == x);
                }
            }
            if patterns_distinct(rules) {
                assert(patterns_distinct(tail)) by {
                    assert forall|i: int, j: int| 0 <= i < j < tail.len() implies #[trigger] tail[i].spec_pattern()
                        != #[trigger] tail[j].spec_pattern() by {
                        assert(tail[i] == rules[i + 1]);
                        assert(tail[j] == rules[j + 1]);
                    }
                }
                assert forall|i: int, j: int| 0 <= i < j < w.len() implies #[trigger] w[i].spec_pattern()
                    != #[trigger] w[j].spec_pattern() by {
                    if i == 0 {
                        assert(rest.contains(w[j])) by {
                            assert(rest[j - 1] == w[j]);
                        }
                        assert(tail.contains(w[j]));
                        let m = choose|m: int| 0 <= m < tail.len() && tail[m] == w[j];
                        assert(rules[m + 1] == w[j]);
                    } else {
                        assert(w[i] == rest[i - 1]);
                        assert(w[j] == rest[j - 1]);
                    }
                }
            }
        } else {
            if patterns_distinct(rules) {
                assert(patterns_distinct(tail)) by {
                    assert forall|i: int, j: int| 0 <= i < j < tail.len() implies #[trigger] tail[i].spec_pattern()
                        != #[trigger] tail[j].spec_pattern() by {
                        assert(tail[i] == rules[i + 1]);
                        assert(tail[j] == rules[j + 1]);
                    }
                }
            }
        }
    }
}

proof fn lemma_push_contains(s: Seq<ActiveRule>, y: ActiveRule)
    ensures
        forall|x: ActiveRule| #[trigger] s.push(y).contains(x) <==> (s.contains(x) || x == y),
{
    assert forall|x: ActiveRule| #[trigger] s.push(y).contains(x) <==> (s.contains(x) || x == y) by {
        if s.push(y).contains(x) && x != y {
            let i = choose|i: int| 0 <= i < s.push(y).len() && s.push(y)[i] == x;
            assert(s[i] == x);
        }
        if s.contains(x) {
            let i = choose|i: int| 0 <= i < s.len() && s[i] == x;
            assert(s.push(y)[i] == x);
        }
        if x == y {
            assert(s.push(y)[s.len() as int] == x);
        }
    }
}

proof fn lemma_merge_custom(rules: Seq<ActiveRule>, customs: Seq<CustomRule>)
    ensures
        patterns_distinct(rules) ==> patterns_distinct(merge_custom(rules, customs)),
        forall|x: ActiveRule|
            rules.contains(x) && (forall|k: int| 0 <= k < customs.len() ==> #[trigger] customs[k].pattern@ != x.spec_pattern())
                ==> #[trigger] merge_custom(rules, customs).contains(x),
        forall|x: ActiveRule|
            !(x is Dynamic) && #[trigger] merge_custom(rules, customs).contains(x) ==> rules.contains(x) && (
            forall|k: int| 0 <= k < customs.len() ==> #[trigger] customs[k].pattern@ != x.spec_pattern()),
        forall|k: int|
            0 <= k < customs.len() && (forall|m: int| k < m < customs.len() ==> #[trigger] customs[m].pattern@ != customs[k].pattern@)
                ==> merge_custom(rules, customs).contains(#[trigger] dynamic_of(customs[k])),
    decreases customs.len(),
{
    if customs.len() > 0 {
        let c0 = customs[0];
        let p0 = c0.pattern@;
        let d0 = dynamic_of(c0);
        let wp = without_pattern(rules, p0);
        let next = wp.push(d0);
        let rest = customs.drop_first();
        lemma_without_pattern(rules, p0);
        lemma_push_contains(wp, d0);
        lemma_merge_custom(next, rest);
        assert(d0.spec_pattern() == p0);
        if patterns_distinct(rules) {
            assert forall|i: int, j: int| 0 <= i < j < next.len() implies #[trigger] next[i].spec_pattern()
                != #[trigger] next[j].spec_pattern() by {
                if j == wp.len() {
                    assert(wp.contains(next[i])) by {
                        assert(wp[i] == next[i]);
                    }
                } else {
                    assert(next[i] == wp[i]);
                    assert(next[j] == wp[j]);
                }
            }
        }
        assert forall|x: ActiveRule|
            rules.contains(x) && (forall|k: int| 0 <= k < customs.len() ==> #[trigger] customs[k].pattern@ != x.spec_pattern())
                implies #[trigger] merge_custom(rules, customs).contains(x) by {
            assert(customs[0].pattern@ != x.spec_pattern());
            assert(next.contains(x));
            assert forall|k: int| 0 <= k < rest.len() implies #[trigger] rest[k].pattern@ != x.spec_pattern() by {
                assert(rest[k] == customs[k + 1]);
            }
        }
        assert forall|x: ActiveRule|
            !(x is Dynamic) && #[trigger] merge_custom(rules, customs).contains(x) implies rules.contains(x) && (
            forall|k: int| 0 <= k < customs.len() ==> #[trigger] customs[k].pattern@ != x.spec_pattern()) by {
            assert(next.contains(x));
            assert(x != d0);
            assert(wp.contains(x));
            assert forall|k: int| 0 <= k < customs.len() implies #[trigger] customs[k].pattern@ != x.spec_pattern() by {
                if k > 0 {
                    assert(rest[k - 1] == customs[k]);
                }
            }
        }
        assert forall|k: int|
            0 <= k < customs.len() && (forall|m: int| k < m < customs.len() ==> #[trigger] customs[m].pattern@ != customs[k].pattern@)
                implies merge_custom(rules, customs).contains(#[trigger] dynamic_of(customs[k])) by {
            if k == 0 {
                assert(next.contains(d0));
                assert forall|m: int| 0 <= m < rest.len() implies #[trigger] rest[m].pattern@ != d0.spec_pattern() by {
                    assert(rest[m] == customs[m + 1]);
                }
            } else {
                assert(rest[k - 1] == customs[k]);
                assert forall|m: int| k - 1 < m < rest.len() implies #[trigger] rest[m].pattern@ != rest[k - 1].pattern@ by {
                    assert(rest[m] == customs[m + 1]);
                }
            }
        }
    }
}

/// The patterns of the built-in rules are distinct.
pub proof fn lemma_builtin_patterns_distinct()
    ensures
        patterns_distinct(builtin_rules()),
{
    reveal_strlit("NODE_ENV");
    reveal_strlit("SECRET");
    reveal_strlit("URL");
    reveal_strlit("PORT");
    reveal_strlit("HOST");
    reveal_strlit("ID");
    reveal_strlit("DUMMY_VALUE");
    reveal_strlit("INSECURE_CONFIG");
    let b = builtin_rules();
    assert forall|i: int, j: int| 0 <= i < j < b.len() implies #[trigger] b[i].spec_pattern()
        != #[trigger] b[j].spec_pattern() by {
        if i == 3 && j == 4 {
            assert(b[i].spec_pattern()[0] != b[j].spec_pattern()[0]);
        } else {
            assert(b[i].spec_pattern().len() != b[j].spec_pattern().len());
        }
    }
}

/// Custom rules override the built-in ones: under any configuration no two
/// active rules share a pattern; a built-in rule stays exactly when no
/// custom rule has its pattern; and the last custom rule with each pattern
/// is active.
pub proof fn lemma_custom_rules_override(config: Option<GuardStackConfig>)
    ensures
        patterns_distinct(active_rules(config)),
        forall|b: ActiveRule|
            #[trigger] builtin_rules().contains(b) ==> (active_rules(config).contains(b) <==> match config {
                Some(cfg) => match cfg.rules {
                    Some(customs) => forall|k: int|
                        0 <= k < customs@.len() ==> #[trigger] customs@[k].pattern@ != b.spec_pattern(),
                    None => true,
                },
                None => true,
            }),
        config matches Some(cfg) ==> cfg.rules matches Some(customs) ==> forall|k: int|
            0 <= k < customs@.len() && (forall|m: int|
                k < m < customs@.len() ==> #[trigger] customs@[m].pattern@ != customs@[k].pattern@)
                ==> active_rules(config).contains(#[trigger] dynamic_of(customs@[k])),
{
    lemma_builtin_patterns_distinct();
    match config {
        Some(cfg) => match cfg.rules {
            Some(customs) => {
                lemma_merge_custom(builtin_rules(), customs@);
                assert forall|b: ActiveRule| #[trigger] builtin_rules().contains(b) implies !(b is Dynamic) by {
                    let i = choose|i: int| 0 <= i < builtin_rules().len() && builtin_rules()[i] == b;
                }
                assert forall|k: int|
                    0 <= k < customs@.len() && (forall|m: int|
                        k < m < customs@.len() ==> #[trigger] customs@[m].pattern@ != customs@[k].pattern@)
                        implies active_rules(config).contains(#[trigger] dynamic_of(customs@[k])) by {
                    assert(merge_custom(builtin_rules(), customs@).contains(dynamic_of(customs@[k])));
                }
            },
            None => {},
        },
        None => {},
    }
}

/// The findings for two lists of variables, one after the other, are the
/// findings for the first list followed by those for the second: each
/// variable is checked on its own, so a map made of two maps with disjoint
/// keys gets the findings of each map together.
pub proof fn lemma_findings_of_joined_variables(
    rules: Seq<ActiveRule>,
    a: Seq<EntryView>,
    b: Seq<EntryView>,
)
    ensures
        validation_findings(rules, a + b) == validation_findings(rules, a) + validation_findings(
            rules,
            b,
        ),
    decreases b.len(),
{
    if b.len() == 0 {
        assert(a + b =~= a);
        assert(validation_findings(rules, a) + validation_findings(rules, b) =~= validation_findings(
            rules,
            a,
        ));
    } else {
        lemma_findings_of_joined_variables(rules, a, b.drop_last());
        assert((a + b).drop_last() =~= a + b.drop_last());
        assert((a + b).last() == b.last());
        let e = b.last();
        match first_finding(rules, e.0, value_or_empty(e.1)) {
            Some(f) => {
                assert(validation_findings(rules, a) + validation_findings(rules, b.drop_last()).push(f)
                    =~= (validation_findings(rules, a) + validation_findings(rules, b.drop_last())).push(f));
            },
            None => {},
        }
    }
}

/// The findings for a list of variables do not depend, up to order, on the
/// order of the variables.
pub proof fn lemma_findings_ignore_variable_order(
    rules: Seq<ActiveRule>,
    m1: Seq<EntryView>,
    m2: Seq<EntryView>,
)
    requires
        m1.to_multiset() == m2.to_multiset(),
    ensures
        validation_findings(rules, m1).to_multiset() == validation_findings(rules, m2).to_multiset(),
    decreases m1.len(),
{
    broadcast use vstd::seq_lib::group_to_multiset_ensures;
    broadcast use vstd::seq_lib::lemma_multiset_commutative;

    if m1.len() == 0 {
        assert(m2.len() == m2.to_multiset().len());
        assert(m2 =~= m1);
    } else {
        let x = m1.last();
        let dl = m1.drop_last();
        assert(m1.contains(x)) by {
            assert(m1[m1.len() - 1] == x);
        }
        assert(m2.to_multiset().count(x) > 0);
        assert(m2.contains(x));
        let i = choose|i: int| 0 <= i < m2.len() && m2[i] == x;
        let r = m2.remove(i);
        assert(dl =~= m1.remove(m1.len() - 1));
        assert(dl.to_multiset() =~= r.to_multiset());
        lemma_findings_ignore_variable_order(rules, dl, r);
        let one = seq![x];
        assert(dl + one =~= m1);
        lemma_findings_of_joined_variables(rules, dl, one);
        let t = m2.take(i);
        let k = m2.skip(i + 1);
        assert(t + (one + k) =~= m2);
        assert(t + k =~= r);
        lemma_findings_of_joined_variables(rules, t, one + k);
        lemma_findings_of_joined_variables(rules, one, k);
        lemma_findings_of_joined_variables(rules, t, k);
        let vt = validation_findings(rules, t);
        let vo = validation_findings(rules, one);
        let vk = validation_findings(rules, k);
        assert(validation_findings(rules, m2) == vt + (vo + vk));
        assert(validation_findings(rules, r) == vt + vk);
        assert(validation_findings(rules, m1) == validation_findings(rules, dl) + vo);
        assert((vt + (vo + vk)).to_multiset() =~= (vt + vk).to_multiset().add(vo.to_multiset())) by {
            assert((vt + (vo + vk)).to_multiset() =~= vt.to_multiset().add((vo + vk).to_multiset()));
            assert((vo + vk).to_multiset() =~= vo.to_multiset().add(vk.to_multiset()));
            assert((vt + vk).to_multiset() =~= vt.to_multiset().add(vk.to_multiset()));
        }
        assert((validation_findings(rules, dl) + vo).to_multiset() =~= validation_findings(
            rules,
            dl,
        ).to_multiset().add(vo.to_multiset()));
    }
}

/// A map whose variables are those of two maps with disjoint keys, in any
/// order, gets the findings of each map together, up to order.
pub proof fn lemma_findings_of_merged_maps(
    rules: Seq<ActiveRule>,
    m: Seq<EntryView>,
    a: Seq<EntryView>,
    b: Seq<EntryView>,
)
    requires
        keys_distinct(m),
        keys_distinct(a),
        keys_distinct(b),
        forall|i: int, j: int| 0 <= i < a.len() && 0 <= j < b.len() ==> #[trigger] a[i].0 != #[trigger] b[j].0,
        forall|e: EntryView| #[trigger] m.contains(e) <==> (a.contains(e) || b.contains(e)),
    ensures
        validation_findings(rules, m).to_multiset() == (validation_findings(rules, a)
            + validation_findings(rules, b)).to_multiset(),
{
    broadcast use vstd::seq_lib::group_to_multiset_ensures;

    let ab = a + b;
    assert(m.no_duplicates()) by {
        assert forall|i: int, j: int| 0 <= i < m.len() && 0 <= j < m.len() && i != j implies m[i] != m[j] by {
            if i < j {
                assert(m[i].0 != m[j].0);
            } else {
                assert(m[j].0 != m[i].0);
            }
        }
    }
    assert(ab.no_duplicates()) by {
        assert forall|i: int, j: int| 0 <= i < ab.len() && 0 <= j < ab.len() && i != j implies ab[i] != ab[j] by {
            if i < a.len() && j < a.len() {
                if i < j {
                    assert(a[i].0 != a[j].0);
                } else {
                    assert(a[j].0 != a[i].0);
                }
            } else if i >= a.len() && j >= a.len() {
                if i < j {
                    assert(b[i - a.len()].0 != b[j - a.len()].0);
                } else {
                    assert(b[j - a.len()].0 != b[i - a.len()].0);
                }
            } else if i < a.len() {
                assert(a[i].0 != b[j - a.len()].0);
            } else {
                assert(a[j].0 != b[i - a.len()].0);
            }
        }
    }
    assert forall|e: EntryView| #[trigger] ab.contains(e) <==> m.contains(e) by {
        if ab.contains(e) {
            let i = choose|i: int| 0 <= i < ab.len() && ab[i] == e;
            if i < a.len() {
                assert(a[i] == e);
            } else {
                assert(b[i - a.len()] == e);
            }
        }
        if a.contains(e) {
            let i = choose|i: int| 0 <= i < a.len() && a[i] == e;
            assert(ab[i] == e);
        }
        if b.contains(e) {
            let i = choose|i: int| 0 <= i < b.len() && b[i] == e;
            assert(ab[i + a.len()] == e);
        }
    }
    m.lemma_multiset_has_no_duplicates();
    ab.lemma_multiset_has_no_duplicates();
    assert(m.to_multiset() =~= ab.to_multiset()) by {
        assert forall|e: EntryView| m.to_multiset().count(e) == ab.to_multiset().count(e) by {
            if m.contains(e) {
                assert(m.to_multiset().contains(e));
                assert(ab.to_multiset().contains(e));
            }
        }
    }
    lemma_findings_ignore_variable_order(rules, m, ab);
    lemma_findings_of_joined_variables(rules, a, b);
}

/// A value that starts with one of the accepted schemes gets no finding
/// from the URL rule; a non-empty value that starts with none of them gets
/// the `format` finding, for every key that contains `URL`.
pub proof fn lemma_url_schemes(key: Seq<char>, value: Seq<char>)
    requires
        contains(key, "URL"@),
    ensures
        starts_with(value, "http://"@) || starts_with(value, "https://"@) || starts_with(
            value,
            "postgres://"@,
        ) || starts_with(value, "postgresql://"@) || starts_with(value, "mysql://"@) || starts_with(
            value,
            "redis://"@,
        ) || starts_with(value, "rediss://"@) || starts_with(value, "mongodb://"@) || starts_with(
            value,
            "mongodb+srv://"@,
        ) || starts_with(value, "amqp://"@) || starts_with(value, "amqps://"@) || starts_with(
            value,
            "sqlite://"@,
        ) ==> url_finding(key, value) is None,
        value.len() > 0 && !(starts_with(value, "http://"@) || starts_with(value, "https://"@)
            || starts_with(value, "postgres://"@) || starts_with(value, "postgresql://"@)
            || starts_with(value, "mysql://"@) || starts_with(value, "redis://"@) || starts_with(
            value,
            "rediss://"@,
        ) || starts_with(value, "mongodb://"@) || starts_with(value, "mongodb+srv://"@)
            || starts_with(value, "amqp://"@) || starts_with(value, "amqps://"@) || starts_with(
            value,
            "sqlite://"@,
        )) ==> url_finding(key, value) == Some(error_view(key, "format"@, url_message())),
{
    reveal_strlit("http://");
    reveal_strlit("https://");
    reveal_strlit("postgres://");
    reveal_strlit("postgresql://");
    reveal_strlit("mysql://");
    reveal_strlit("redis://");
    reveal_strlit("rediss://");
    reveal_strlit("mongodb://");
    reveal_strlit("mongodb+srv://");
    reveal_strlit("amqp://");
    reveal_strlit("amqps://");
    reveal_strlit("sqlite://");
    let u = url_prefixes();
    assert forall|i: int| 0 <= i < u.len() implies #[trigger] u[i].len() > 0 by {}
    if exists|i: int| 0 <= i < u.len() && starts_with(value, #[trigger] u[i]) {
        let i = choose|i: int| 0 <= i < u.len() && starts_with(value, #[trigger] u[i]);
        assert(value.len() > 0);
    }
    if starts_with(value, "http://"@) { assert(starts_with(value, u[0])); }
    if starts_with(value, "https://"@) { assert(starts_with(value, u[1])); }
    if starts_with(value, "postgres://"@) { assert(starts_with(value, u[2])); }
    if starts_with(value, "postgresql://"@) { assert(starts_with(value, u[3])); }
    if starts_with(value, "mysql://"@) { assert(starts_with(value, u[4])); }
    if starts_with(value, "redis://"@) { assert(starts_with(value, u[5])); }
    if starts_with(value, "rediss://"@) { assert(starts_with(value, u[6])); }
    if starts_with(value, "mongodb://"@) { assert(starts_with(value, u[7])); }
    if starts_with(value, "mongodb+srv://"@) { assert(starts_with(value, u[8])); }
    if starts_with(value, "amqp://"@) { assert(starts_with(value, u[9])); }
    if starts_with(value, "amqps://"@) { assert(starts_with(value, u[10])); }
    if starts_with(value, "sqlite://"@) { assert(starts_with(value, u[11])); }
    assert(u[0] == "http://"@);
    assert(u[1] == "https://"@);
    assert(u[2] == "postgres://"@);
    assert(u[3] == "postgresql://"@);
    assert(u[4] == "mysql://"@);
    assert(u[5] == "redis://"@);
    assert(u[6] == "rediss://"@);
    assert(u[7] == "mongodb://"@);
    assert(u[8] == "mongodb+srv://"@);
    assert(u[9] == "amqp://"@);
    assert(u[10] == "amqps://"@);
    assert(u[11] == "sqlite://"@);
}

/// The placeholder values `123456`, `password`, `password123`,
/// `change_me`, `changeme`, `replace_me`, `dummy` and `test` are reported
/// (compared by their lowercase form), and no other value is.
pub proof fn lemma_placeholder_values(key: Seq<char>, value: Seq<char>, lowered: Seq<char>)
    ensures
        (lowered == "123456"@ || lowered == "password"@ || lowered == "password123"@ || lowered
            == "change_me"@ || lowered == "changeme"@ || lowered == "replace_me"@ || lowered
            == "dummy"@ || lowered == "test"@) <==> dummy_finding_lowered(key, value, lowered) is Some,
        dummy_finding_lowered(key, value, lowered) matches Some(e) ==> e == error_view(
            key,
            "insecure_value"@,
            "contains a common dummy value: '"@ + value + "'"@,
        ),
{
    let d = dummy_values();
    assert(d[0] == "123456"@);
    assert(d[1] == "password"@);
    assert(d[2] == "password123"@);
    assert(d[3] == "change_me"@);
    assert(d[4] == "changeme"@);
    assert(d[5] == "replace_me"@);
    assert(d[6] == "dummy"@);
    assert(d[7] == "test"@);
}

/// A custom rule applies to every key that holds its pattern anywhere (at
/// the start, in the middle or at the end), and to no other key. A
/// `min_length` rule reports a value with fewer UTF-8 bytes than its
/// setting (32 where the setting is no number); a `one_of` rule reports a
/// value that is none of the comma-separated options.
pub proof fn lemma_custom_rule_applies_where_pattern_occurs(
    r: DynamicRule,
    key: Seq<char>,
    value: Seq<char>,
    i: int,
)
    requires
        0 <= i && i + r.pattern@.len() <= key.len(),
        key.subrange(i, i + r.pattern@.len()) == r.pattern@,
    ensures
        r.rule_type@ == "min_length"@ && encode_utf8(value).len() < (match parse_bounded(
            r.value@,
            usize::MAX as int,
        ) {
            Some(m) => m,
            None => 32,
        }) ==> dynamic_finding(r, key, value) == Some(error_view(key, "min_length"@, r.message@)),
        r.rule_type@ == "min_length"@ && encode_utf8(value).len() >= (match parse_bounded(
            r.value@,
            usize::MAX as int,
        ) {
            Some(m) => m,
            None => 32,
        }) ==> dynamic_finding(r, key, value) is None,
        r.rule_type@ == "one_of"@ ==> (dynamic_finding(r, key, value) == if split_char(
            r.value@,
            ',',
        ).contains(value) {
            None
        } else {
            Some(error_view(key, "one_of"@, r.message@))
        }),
{
    reveal_strlit("one_of");
    reveal_strlit("min_length");
    assert(occurs_at(key, r.pattern@, i));
    assert("one_of"@ != "min_length"@) by {
        assert("one_of"@[0] != "min_length"@[0]);
    }
}

/// A custom rule reports nothing for a key that does not hold its pattern.
pub proof fn lemma_custom_rule_ignores_other_keys(r: DynamicRule, key: Seq<char>, value: Seq<char>)
    requires
        forall|j: int|
            0 <= j && j + r.pattern@.len() <= key.len() ==> #[trigger] key.subrange(j, j + r.pattern@.len())
                != r.pattern@,
    ensures
        dynamic_finding(r, key, value) is None,
{
    if contains(key, r.pattern@) {
        let j = choose|j: int| #[trigger] occurs_at(key, r.pattern@, j);
        assert(key.subrange(j, j + r.pattern@.len()) == r.pattern@);
    }
}

/// The secret rule applies to keys that hold `SECRET`, `KEY` or `API`
/// anywhere: an empty value is reported as empty, a value of 1 to 31
/// characters as too short, and a value of 32 characters or more passes.
/// Keys without those words are never reported.
pub proof fn lemma_secret_rule(key: Seq<char>, value: Seq<char>)
    ensures
        (contains(key, "SECRET"@) || contains(key, "KEY"@) || contains(key, "API"@)) ==> {
            &&& value.len() == 0 ==> secret_finding(key, value) == Some(
                error_view(key, "empty"@, "must not be empty"@),
            )
            &&& 0 < value.len() < 32 ==> secret_finding(key, value) == Some(
                error_view(key, "min_length"@, "must be greater than or equal to 32"@),
            )
            &&& value.len() >= 32 ==> secret_finding(key, value) is None
        },
        !(contains(key, "SECRET"@) || contains(key, "KEY"@) || contains(key, "API"@))
            ==> secret_finding(key, value) is None,
{
}

/// The port rule applies to keys that hold `PORT`: a value spelled by
/// decimal digits alone passes exactly when its number is at most 65535,
/// a non-empty value with a character other than a digit (or one leading
/// `+`) is reported as no number, and an empty value as empty.
pub proof fn lemma_port_rule(key: Seq<char>, value: Seq<char>)
    requires
        contains(key, "PORT"@),
    ensures
        value.len() == 0 ==> port_finding(key, value) == Some(error_view(key, "empty"@, "must not be empty"@)),
        value.len() > 0 && all_digits(value) && digits_value(value) <= 65535 ==> port_finding(key, value) is None,
        value.len() > 0 && all_digits(value) && digits_value(value) > 65535 ==> port_finding(key, value)
            == Some(error_view(key, "format"@, "must be a number"@)),
        forall|i: int|
            0 <= i < value.len() && !is_digit(#[trigger] value[i]) && !(i == 0 && value[0] == '+')
                ==> port_finding(key, value) == Some(error_view(key, "format"@, "must be a number"@)),
{
    if value.len() > 0 && all_digits(value) {
        assert(!starts_with_char(value, '+')) by {
            assert(is_digit(value[0]));
        }
        assert(unsigned_digits(value) == value);
    }
    assert forall|i: int|
        0 <= i < value.len() && !is_digit(#[trigger] value[i]) && !(i == 0 && value[0] == '+')
            implies port_finding(key, value) == Some(error_view(key, "format"@, "must be a number"@)) by {
        let d = unsigned_digits(value);
        if starts_with_char(value, '+') {
            assert(d[i - 1] == value[i]);
            assert(!is_digit(d[i - 1]));
        } else {
            assert(d[i] == value[i]);
        }
        assert(!all_digits(d));
    }
}

/// `NODE_ENV` passes with `development`, `production` or `test`; any other
/// non-empty value is reported, an empty one as empty; other keys are
/// never reported by this rule.
pub proof fn lemma_node_rule(key: Seq<char>, value: Seq<char>)
    ensures
        key != "NODE_ENV"@ ==> node_finding(key, value) is None,
        key == "NODE_ENV"@ ==> {
            &&& (value == "development"@ || value == "production"@ || value == "test"@)
                ==> node_finding(key, value) is None
            &&& value.len() == 0 ==> node_finding(key, value) == Some(
                error_view(key, "empty"@, "must not be empty"@),
            )
            &&& value.len() > 0 && !(value == "development"@ || value == "production"@ || value
                == "test"@) ==> node_finding(key, value) == Some(
                error_view(key, "format"@, "must be one of: development, production, test"@),
            )
        },
{
    let e = node_envs();
    assert(e[0] == "development"@);
    assert(e[1] == "production"@);
    assert(e[2] == "test"@);
    reveal_strlit("development");
    reveal_strlit("production");
    reveal_strlit("test");
}

/// The host and ID rules report an empty value, and only that, for keys
/// that hold `HOST` and `ID` respectively.
pub proof fn lemma_host_and_id_rules(key: Seq<char>, value: Seq<char>)
    ensures
        contains(key, "HOST"@) ==> (host_finding(key, value) is Some <==> value.len() == 0),
        contains(key, "HOST"@) && value.len() == 0 ==> host_finding(key, value) == Some(
            error_view(key, "empty"@, "must not be empty"@),
        ),
        !contains(key, "HOST"@) ==> host_finding(key, value) is None,
        contains(key, "ID"@) ==> (id_finding(key, value) is Some <==> value.len() == 0),
        contains(key, "ID"@) && value.len() == 0 ==> id_finding(key, value) == Some(
            error_view(key, "empty"@, "must not be empty"@),
        ),
        !contains(key, "ID"@) ==> id_finding(key, value) is None,
{
}

/// The insecure-settings rule: `*` for a key holding `CORS_ORIGIN`, `0` for
/// `NODE_TLS_REJECT_UNAUTHORIZED`, and `true` or (in any case) `debug` for
/// a key holding `DEBUG` or `LOG_LEVEL` are reported, in that order of
/// precedence; nothing else is.
pub proof fn lemma_insecure_settings(key: Seq<char>, value: Seq<char>, lowered: Seq<char>)
    ensures
        contains(key, "CORS_ORIGIN"@) && value == "*"@ ==> insecure_finding_lowered(key, value, lowered)
            == Some(error_view(key, "insecure_cors"@, "CORS_ORIGIN set to '*' is insecure in production"@)),
        !(contains(key, "CORS_ORIGIN"@) && value == "*"@) && key == "NODE_TLS_REJECT_UNAUTHORIZED"@
            && value == "0"@ ==> insecure_finding_lowered(key, value, lowered) == Some(
            error_view(
                key,
                "insecure_ssl"@,
                "SSL certificate validation is disabled (NODE_TLS_REJECT_UNAUTHORIZED=0)"@,
            ),
        ),
        !(contains(key, "CORS_ORIGIN"@) && value == "*"@) && !(key == "NODE_TLS_REJECT_UNAUTHORIZED"@
            && value == "0"@) && (contains(key, "DEBUG"@) || contains(key, "LOG_LEVEL"@)) && (value
            == "true"@ || lowered == "debug"@) ==> insecure_finding_lowered(key, value, lowered) == Some(
            error_view(key, "insecure_debug"@, "debug logging enabled - may leak sensitive information"@),
        ),
        !(contains(key, "CORS_ORIGIN"@) && value == "*"@) && !(key == "NODE_TLS_REJECT_UNAUTHORIZED"@
            && value == "0"@) && !((contains(key, "DEBUG"@) || contains(key, "LOG_LEVEL"@)) && (value
            == "true"@ || lowered == "debug"@)) ==> insecure_finding_lowered(key, value, lowered) is None,
{
}

/// Without custom rules the built-in rules are tried in this order:
/// `NODE_ENV`, secrets, URLs, ports, hosts, IDs, placeholder values,
/// insecure settings; the first that reports decides.
pub proof fn lemma_builtin_priority(key: Seq<char>, value: Seq<char>)
    ensures
        first_finding(active_rules(None), key, value) == (if node_finding(key, value) is Some {
            node_finding(key, value)
        } else if secret_finding(key, value) is Some {
            secret_finding(key, value)
        } else if url_finding(key, value) is Some {
            url_finding(key, value)
        } else if port_finding(key, value) is Some {
            port_finding(key, value)
        } else if host_finding(key, value) is Some {
            host_finding(key, value)
        } else if id_finding(key, value) is Some {
            id_finding(key, value)
        } else if dummy_finding(key, value) is Some {
            dummy_finding(key, value)
        } else {
            insecure_finding(key, value)
        }),
{
    let b = builtin_rules();
    reveal_with_fuel(first_finding, 9);
    assert(b.drop_first() =~= seq![b[1], b[2], b[3], b[4], b[5], b[6], b[7]]);
    assert(first_finding(b, key, value) == (match b[0].spec_check(key, value) {
        Some(e) => Some(e),
        None => first_finding(b.drop_first(), key, value),
    }));
    let s1 = b.drop_first();
    let s2 = s1.drop_first();
    let s3 = s2.drop_first();
    let s4 = s3.drop_first();
    let s5 = s4.drop_first();
    let s6 = s5.drop_first();
    let s7 = s6.drop_first();
    let s8 = s7.drop_first();
    assert(s8.len() == 0);
    assert(s1[0] == b[1]);
    assert(s2[0] == b[2]);
    assert(s3[0] == b[3]);
    assert(s4[0] == b[4]);
    assert(s5[0] == b[5]);
    assert(s6[0] == b[6]);
    assert(s7[0] == b[7]);
}

} // verus!
