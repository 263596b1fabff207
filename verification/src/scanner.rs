//! Looking through the lines of source and configuration files for secrets
//! that were written into them.
//!
//! A line is looked at when it holds an assignment (`=` or `:`) and is not a
//! Rust definition. It is reported when it matches one of the secret
//! patterns (regular expressions for well-known token formats), or when it
//! names a secret keyword and assigns a quoted value, or is a comment.
use vstd::prelude::*;
use vstd::string::*;

use crate::text::{
    chars_of, contains, contains_exec, find_char, find_char_exec, lemma_find_char, lowercase,
    split_once,
    split_once_exec, starts_with, starts_with_char, starts_with_char_exec, starts_with_exec,
    ends_with_char, ends_with_char_exec, str_eq, to_lowercase, trim, trim_chars, trim_end_char,
    trim_end_matches_char, is_one_of, starts_with_any, str_views,
};

verus! {

// ---------------------------------------------------------------------------
// Regular expressions
// ---------------------------------------------------------------------------

#[verifier::external_type_specification]
#[verifier::external_body]
pub struct ExRegex(regex::Regex);

/// Whether `regex::Regex::new` accepts `pattern` (with the default size
/// limits).
pub uninterp spec fn regex_compiles(pattern: Seq<char>) -> bool;

/// Whether the regular expression `pattern` matches somewhere in `haystack`
/// (`regex::Regex::is_match`).
pub uninterp spec fn regex_is_match(pattern: Seq<char>, haystack: Seq<char>) -> bool;

/// A compiled secret pattern together with its source text. Only
/// `compile_pattern` builds one, so `regex` is always compiled from `source`.
pub struct SecretPattern {
    source: String,
    regex: regex::Regex,
}

impl View for SecretPattern {
    type V = Seq<char>;

    /// The source text of the regular expression.
    closed spec fn view(&self) -> Seq<char> {
        self.source@
    }
}

/// Compiles the regular expression `source`.
///
/// Trusted: calls `regex::Regex::new`, which returns `Ok` exactly when the
/// pattern is valid and within the size limits (named `regex_compiles`).
/// The source text is kept beside the compiled expression.
#[verifier::external_body]
fn compile_pattern(source: &str) -> (r: Option<SecretPattern>)
    ensures
        r is Some <==> regex_compiles(source@),
        r matches Some(p) ==> p@ == source@,
{
    match regex::Regex::new(source) {
        Ok(regex) => Some(SecretPattern { source: source.to_owned(), regex }),
        Err(_) => None,
    }
}

/// The pattern `p` matches somewhere in `haystack`.
///
/// Trusted: calls `regex::Regex::is_match` on the expression compiled from
/// the source text of `p`; the result is named `regex_is_match`.
#[verifier::external_body]
fn pattern_matches(p: &SecretPattern, haystack: &str) -> (b: bool)
    ensures
        b == regex_is_match(p@, haystack@),
{
    p.regex.is_match(haystack)
}

impl SecretPattern {
    /// The source text of the regular expression.
    pub fn as_str(&self) -> (s: &str)
        ensures
            s@ == self@,
    {
        self.source.as_str()
    }
}

// ---------------------------------------------------------------------------
// Fixed lists
// ---------------------------------------------------------------------------

/// Words that name a secret, in lower case.
pub open spec fn secret_keywords() -> Seq<Seq<char>> {
    seq![
        "secret"@,
        "password"@,
        "passwd"@,
        "token"@,
        "apikey"@,
        "api_key"@,
        "credential"@,
        "private_key"@,
        "access_token"@,
        "auth_token"@,
    ]
}

/// Regular expressions for values that look like real secrets.
pub open spec fn secret_pattern_sources() -> Seq<Seq<char>> {
    seq![
        "sk_live_"@,
        "pk_live_"@,
        "ghp_"@,
        "gho_"@,
        "xoxb-"@,
        "xoxp-"@,
        "AKIA"@,
        "sq0csp-"@,
        "access_key_id"@,
        "secret_access_key"@,
        "amzn\\.mws\\."@,
        "SG\\."@,
        "key-[0-9a-zA-Z]{32}"@,
        "AIza[0-9A-Za-z-_]{35}"@,
    ]
}

/// Files that are scanned even where a walk of the directory missed them.
pub open spec fn target_files() -> Seq<Seq<char>> {
    seq![
        ".env.local"@,
        ".env.production"@,
        ".env.staging"@,
        ".env.development"@,
        ".env.test"@,
        ".env.backup"@,
    ]
}

/// File names that are never scanned.
pub open spec fn excluded_files() -> Seq<Seq<char>> {
    seq![
        "README.md"@,
        "readme.md"@,
        ".env"@,
        ".env.example"@,
        "guardstack.config.toml"@,
        "package.json"@,
        "package-lock.json"@,
        "Cargo.toml"@,
        "Cargo.lock"@,
        ".gitignore"@,
    ]
}

/// Extensions, with their dot, of files that are never scanned.
pub open spec fn excluded_extensions() -> Seq<Seq<char>> {
    seq![".md"@, ".toml"@, ".lock"@, ".txt"@, ".yaml"@, ".yml"@]
}

/// Directories that are never entered.
pub open spec fn excluded_dirs() -> Seq<Seq<char>> {
    seq![
        "node_modules"@,
        ".git"@,
        "dist"@,
        "build"@,
        "target"@,
        ".next"@,
        "coverage"@,
        ".cache"@,
    ]
}

/// The beginnings of Rust definitions, which are not looked at.
pub open spec fn definition_prefixes() -> Seq<Seq<char>> {
    seq!["pub struct"@, "struct "@, "pub fn"@, "fn "@, "impl "@, "use "@]
}


fn secret_keyword_list() -> (v: Vec<&'static str>)
    ensures
        str_views(v@) == secret_keywords(),
{
    let v = vec![
        "secret",
        "password",
        "passwd",
        "token",
        "apikey",
        "api_key",
        "credential",
        "private_key",
        "access_token",
        "auth_token",
    ];
    assert(str_views(v@) =~= secret_keywords());
    v
}

fn secret_pattern_source_list() -> (v: Vec<&'static str>)
    ensures
        str_views(v@) == secret_pattern_sources(),
{
    let v = vec![
        "sk_live_",
        "pk_live_",
        "ghp_",
        "gho_",
        "xoxb-",
        "xoxp-",
        "AKIA",
        "sq0csp-",
        "access_key_id",
        "secret_access_key",
        "amzn\\.mws\\.",
        "SG\\.",
        "key-[0-9a-zA-Z]{32}",
        "AIza[0-9A-Za-z-_]{35}",
    ];
    assert(str_views(v@) =~= secret_pattern_sources());
    v
}

/// The files that are scanned even where a walk of the directory missed them.
pub fn target_file_list() -> (v: Vec<&'static str>)
    ensures
        str_views(v@) == target_files(),
{
    let v = vec![
        ".env.local",
        ".env.production",
        ".env.staging",
        ".env.development",
        ".env.test",
        ".env.backup",
    ];
    assert(str_views(v@) =~= target_files());
    v
}

fn excluded_file_list() -> (v: Vec<&'static str>)
    ensures
        str_views(v@) == excluded_files(),
{
    let v = vec![
        "README.md",
        "readme.md",
        ".env",
        ".env.example",
        "guardstack.config.toml",
        "package.json",
        "package-lock.json",
        "Cargo.toml",
        "Cargo.lock",
        ".gitignore",
    ];
    assert(str_views(v@) =~= excluded_files());
    v
}

fn excluded_extension_list() -> (v: Vec<&'static str>)
    ensures
        str_views(v@) == excluded_extensions(),
{
    let v = vec![".md", ".toml", ".lock", ".txt", ".yaml", ".yml"];
    assert(str_views(v@) =~= excluded_extensions());
    v
}

fn excluded_dir_list() -> (v: Vec<&'static str>)
    ensures
        str_views(v@) == excluded_dirs(),
{
    let v = vec![
        "node_modules",
        ".git",
        "dist",
        "build",
        "target",
        ".next",
        "coverage",
        ".cache",
    ];
    assert(str_views(v@) =~= excluded_dirs());
    v
}

fn definition_prefix_list() -> (v: Vec<&'static str>)
    ensures
        str_views(v@) == definition_prefixes(),
{
    let v = vec!["pub struct", "struct ", "pub fn", "fn ", "impl ", "use "];
    assert(str_views(v@) =~= definition_prefixes());
    v
}

// ---------------------------------------------------------------------------
// Which files and directories are scanned
// ---------------------------------------------------------------------------

/// A file with name `file_name` and extension `extension` (without its
/// dot) is passed over: its name or its extension is excluded.
pub open spec fn file_excluded(file_name: Seq<char>, extension: Seq<char>) -> bool {
    excluded_files().contains(file_name) || excluded_extensions().contains("."@ + extension)
}

/// Whether a file with name `file_name` and extension `extension` (without
/// its dot) is passed over.
pub fn is_excluded_file(file_name: &str, extension: &str) -> (b: bool)
    ensures
        b == file_excluded(file_name@, extension@),
{
    let names = excluded_file_list();
    if is_one_of(file_name, &names) {
        return true;
    }
    let mut dotted = ".".to_owned();
    dotted.append(extension);
    let exts = excluded_extension_list();
    is_one_of(dotted.as_str(), &exts)
}

/// Whether the directory `name` is passed over.
pub fn is_excluded_dir(name: &str) -> (b: bool)
    ensures
        b == excluded_dirs().contains(name@),
{
    let dirs = excluded_dir_list();
    is_one_of(name, &dirs)
}

// ---------------------------------------------------------------------------
// What one line reports
// ---------------------------------------------------------------------------

/// The trimmed line begins a Rust definition.
pub open spec fn is_code_definition(t: Seq<char>) -> bool {
    exists|i: int| 0 <= i < definition_prefixes().len() && starts_with(t, #[trigger] definition_prefixes()[i])
}

/// The line is looked at: not blank, not a Rust definition, and holding
/// `=` or `:`.
pub open spec fn is_candidate_line(line: Seq<char>) -> bool {
    let t = trim(line);
    &&& t.len() > 0
    &&& !is_code_definition(t)
    &&& (find_char(t, '=') < t.len() || find_char(t, ':') < t.len())
}

/// The trimmed line is a comment.
pub open spec fn is_comment_line(t: Seq<char>) -> bool {
    starts_with(t, "//"@) || starts_with_char(t, '#') || starts_with_char(t, '*')
}

/// The first of `patterns` that matches `line`.
pub open spec fn first_matching_pattern(patterns: Seq<Seq<char>>, line: Seq<char>) -> Option<Seq<char>>
    decreases patterns.len(),
{
    if patterns.len() == 0 {
        None
    } else if regex_is_match(patterns[0], line) {
        Some(patterns[0])
    } else {
        first_matching_pattern(patterns.drop_first(), line)
    }
}

/// The first secret keyword that the lowercase line `lowered` contains.
pub open spec fn first_keyword_in(keywords: Seq<Seq<char>>, lowered: Seq<char>) -> Option<Seq<char>>
    decreases keywords.len(),
{
    if keywords.len() == 0 {
        None
    } else if contains(lowered, keywords[0]) {
        Some(keywords[0])
    } else {
        first_keyword_in(keywords.drop_first(), lowered)
    }
}

/// The text after a separator is a quoted value: trimmed and without its
/// trailing semicolons, it is wrapped in double quotes, single quotes or
/// backticks.
pub open spec fn is_quoted_value(raw: Seq<char>) -> bool {
    let v = trim_end_char(trim(raw), ';');
    ||| starts_with_char(v, '"') && ends_with_char(v, '"')
    ||| starts_with_char(v, '\'') && ends_with_char(v, '\'')
    ||| starts_with_char(v, '`') && ends_with_char(v, '`')
}

/// A line with a secret keyword holds a secret: it is a comment, or it
/// assigns a quoted value (after the first `=`, or else after the first `:`).
pub open spec fn holds_likely_secret(t: Seq<char>, comment: bool) -> bool {
    if comment {
        true
    } else {
        match split_once(t, '=') {
            Some((_k, v)) => is_quoted_value(v),
            None => match split_once(t, ':') {
                Some((_k, v)) => is_quoted_value(v),
                None => false,
            },
        }
    }
}

/// Why `line` is reported, given `lowered`, its lowercase form, and
/// `matched`, the first secret pattern that matches it.
pub open spec fn line_reason(line: Seq<char>, lowered: Seq<char>, matched: Option<Seq<char>>) -> Option<Seq<char>> {
    if !is_candidate_line(line) {
        None
    } else {
        let t = trim(line);
        let comment = is_comment_line(t);
        match matched {
            Some(p) => Some(
                if comment {
                    "possible leak in comment - pattern '"@ + p + "'"@
                } else {
                    "contains secret pattern '"@ + p + "'"@
                },
            ),
            None => match first_keyword_in(secret_keywords(), lowered) {
                Some(k) => if holds_likely_secret(t, comment) {
                    Some(
                        if comment {
                            "possible leak in comment - keyword '"@ + k + "'"@
                        } else {
                            "contains keyword '"@ + k + "' with hardcoded value"@
                        },
                    )
                } else {
                    None
                },
                None => None,
            },
        }
    }
}

/// Why `line` is reported under the secret patterns `patterns`, if it is.
pub open spec fn scan_line_reason(patterns: Seq<Seq<char>>, line: Seq<char>) -> Option<Seq<char>> {
    line_reason(line, lowercase(line), first_matching_pattern(patterns, line))
}

/// The views of a sequence of compiled patterns.
pub open spec fn pattern_views(v: Seq<SecretPattern>) -> Seq<Seq<char>> {
    v.map_values(|p: SecretPattern| p@)
}

/// The sources of `sources` that compile, in order.
pub open spec fn compiled_sources(sources: Seq<Seq<char>>) -> Seq<Seq<char>>
    decreases sources.len(),
{
    if sources.len() == 0 {
        Seq::empty()
    } else {
        let prev = compiled_sources(sources.drop_last());
        if regex_compiles(sources.last()) {
            prev.push(sources.last())
        } else {
            prev
        }
    }
}

/// The secret patterns, compiled; those that do not compile are left out.
pub fn secret_patterns() -> (v: Vec<SecretPattern>)
    ensures
        pattern_views(v@) == compiled_sources(secret_pattern_sources()),
{
    let sources = secret_pattern_source_list();
    let ghost srcs = str_views(sources@);
    let mut out: Vec<SecretPattern> = Vec::new();
    let n = sources.len();
    for i in 0..n
        invariant
            n == sources@.len(),
            srcs == str_views(sources@),
            srcs == secret_pattern_sources(),
            pattern_views(out@) == compiled_sources(srcs.take(i as int)),
    {
        assert(srcs.take(i + 1).drop_last() =~= srcs.take(i as int));
        assert(srcs.take(i + 1).last() == sources@[i as int]@);
        if let Some(p) = compile_pattern(sources[i]) {
            let ghost old_out = out@;
            out.push(p);
            assert(pattern_views(out@) =~= pattern_views(old_out).push(p@));
        }
    }
    assert(srcs.take(n as int) =~= srcs);
    out
}

/// The line is looked at: not blank, not a Rust definition, and holding
/// `=` or `:`.
pub fn is_candidate_line_exec(line: &str) -> (b: bool)
    ensures
        b == is_candidate_line(line@),
{
    let lc = chars_of(line);
    let t = trim_chars(lc.as_slice());
    if t.len() == 0 {
        return false;
    }
    let defs = definition_prefix_list();
    if starts_with_any(t.as_slice(), &defs) {
        return false;
    }
    find_char_exec(t.as_slice(), '=') < t.len() || find_char_exec(t.as_slice(), ':') < t.len()
}

/// The first of `patterns` that matches `line`.
pub fn first_matching<'a>(patterns: &'a Vec<SecretPattern>, line: &str) -> (r: Option<&'a SecretPattern>)
    ensures
        match (r, first_matching_pattern(pattern_views(patterns@), line@)) {
            (Some(p), Some(q)) => p@ == q,
            (None, None) => true,
            _ => false,
        },
{
    let ghost ps = pattern_views(patterns@);
    let n = patterns.len();
    assert(ps.skip(0) =~= ps);
    for i in 0..n
        invariant
            n == patterns@.len(),
            ps == pattern_views(patterns@),
            first_matching_pattern(ps, line@) == first_matching_pattern(ps.skip(i as int), line@),
    {
        assert(ps.skip(i as int).drop_first() =~= ps.skip(i + 1));
        assert(ps.skip(i as int)[0] == patterns@[i as int]@);
        if pattern_matches(&patterns[i], line) {
            return Some(&patterns[i]);
        }
    }
    assert(ps.skip(n as int) =~= Seq::<Seq<char>>::empty());
    None
}

/// The first secret keyword that `lowered` contains.
fn first_keyword(lowered: &str) -> (r: Option<&'static str>)
    ensures
        match (r, first_keyword_in(secret_keywords(), lowered@)) {
            (Some(k), Some(q)) => k@ == q,
            (None, None) => true,
            _ => false,
        },
{
    let kws = secret_keyword_list();
    let ghost ks = str_views(kws@);
    let lc = chars_of(lowered);
    let n = kws.len();
    assert(ks.skip(0) =~= ks);
    for i in 0..n
        invariant
            n == kws@.len(),
            ks == str_views(kws@),
            ks == secret_keywords(),
            lc@ == lowered@,
            first_keyword_in(ks, lowered@) == first_keyword_in(ks.skip(i as int), lowered@),
    {
        assert(ks.skip(i as int).drop_first() =~= ks.skip(i + 1));
        assert(ks.skip(i as int)[0] == kws@[i as int]@);
        let kc = chars_of(kws[i]);
        if contains_exec(lc.as_slice(), kc.as_slice()) {
            return Some(kws[i]);
        }
    }
    assert(ks.skip(n as int) =~= Seq::<Seq<char>>::empty());
    None
}

/// The text after a separator is a quoted value.
fn is_quoted_value_exec(raw: &[char]) -> (b: bool)
    ensures
        b == is_quoted_value(raw@),
{
    let t = trim_chars(raw);
    let v = trim_end_matches_char(t.as_slice(), ';');
    let s = v.as_slice();
    (starts_with_char_exec(s, '"') && ends_with_char_exec(s, '"')) || (starts_with_char_exec(
        s,
        '\'',
    ) && ends_with_char_exec(s, '\'')) || (starts_with_char_exec(s, '`') && ends_with_char_exec(
        s,
        '`',
    ))
}

/// Why `line` is reported, given `lowered`, its lowercase form, and
/// `matched`, the source of the first secret pattern that matches it.
pub fn line_reason_exec(line: &str, lowered: &str, matched: Option<&str>) -> (r: Option<String>)
    ensures
        match (
            r,
            line_reason(
                line@,
                lowered@,
                match matched {
                    Some(m) => Some(m@),
                    None => None,
                },
            ),
        ) {
            (Some(a), Some(b)) => a@ == b,
            (None, None) => true,
            _ => false,
        },
{
    if !is_candidate_line_exec(line) {
        return None;
    }
    let lc = chars_of(line);
    let t = trim_chars(lc.as_slice());
    let ts = t.as_slice();
    let slashes = chars_of("//");
    let comment = starts_with_exec(ts, slashes.as_slice()) || starts_with_char_exec(ts, '#')
        || starts_with_char_exec(ts, '*');
    match matched {
        Some(p) => {
            let mut reason = if comment {
                "possible leak in comment - pattern '".to_owned()
            } else {
                "contains secret pattern '".to_owned()
            };
            reason.append(p);
            reason.append("'");
            Some(reason)
        },
        None => {
            match first_keyword(lowered) {
                Some(k) => {
                    let likely = if comment {
                        true
                    } else {
                        match split_once_exec(ts, '=') {
                            Some((_k, v)) => is_quoted_value_exec(v.as_slice()),
                            None => match split_once_exec(ts, ':') {
                                Some((_k, v)) => is_quoted_value_exec(v.as_slice()),
                                None => false,
                            },
                        }
                    };
                    if !likely {
                        return None;
                    }
                    if comment {
                        let mut reason = "possible leak in comment - keyword '".to_owned();
                        reason.append(k);
                        reason.append("'");
                        Some(reason)
                    } else {
                        let mut reason = "contains keyword '".to_owned();
                        reason.append(k);
                        reason.append("' with hardcoded value");
                        Some(reason)
                    }
                },
                None => None,
            }
        },
    }
}

/// Why `line` is reported under the secret patterns `patterns`, if it is.
pub fn scan_line(line: &str, patterns: &Vec<SecretPattern>) -> (r: Option<String>)
    ensures
        match (r, scan_line_reason(pattern_views(patterns@), line@)) {
            (Some(a), Some(b)) => a@ == b,
            (None, None) => true,
            _ => false,
        },
{
    if !is_candidate_line_exec(line) {
        return None;
    }
    let lowered = to_lowercase(line);
    match first_matching(patterns, line) {
        Some(p) => line_reason_exec(line, lowered.as_str(), Some(p.as_str())),
        None => line_reason_exec(line, lowered.as_str(), None),
    }
}

// ---------------------------------------------------------------------------
// Whole files
// ---------------------------------------------------------------------------

/// A line of a file that seems to hold a secret.
#[derive(Debug, Clone, PartialEq, Eq)]
pub struct ScanResult {
    pub file: String,
    /// The number of the line, counted from 1.
    pub line_number: usize,
    pub line: String,
    pub reason: String,
}

/// What a `ScanResult` holds, as character sequences.
pub ghost struct ScanView {
    pub file: Seq<char>,
    pub line_number: int,
    pub line: Seq<char>,
    pub reason: Seq<char>,
}

impl View for ScanResult {
    type V = ScanView;

    open spec fn view(&self) -> ScanView {
        ScanView {
            file: self.file@,
            line_number: self.line_number as int,
            line: self.line@,
            reason: self.reason@,
        }
    }
}

/// The views of a sequence of scan results.
pub open spec fn scan_views(s: Seq<ScanResult>) -> Seq<ScanView> {
    s.map_values(|r: ScanResult| r@)
}

/// The lines of a file as read: `None` for a line that could not be read.
pub open spec fn line_views(lines: Seq<Option<String>>) -> Seq<Option<Seq<char>>> {
    lines.map_values(
        |l: Option<String>|
            match l {
                Some(s) => Some(s@),
                None => None,
            },
    )
}

/// The results for the lines `lines` of the file `file`, in order.
pub open spec fn file_findings(file: Seq<char>, patterns: Seq<Seq<char>>, lines: Seq<Option<Seq<char>>>) -> Seq<ScanView>
    decreases lines.len(),
{
    if lines.len() == 0 {
        Seq::empty()
    } else {
        let prev = file_findings(file, patterns, lines.drop_last());
        match lines.last() {
            Some(l) => match scan_line_reason(patterns, l) {
                Some(reason) => prev.push(
                    ScanView { file, line_number: lines.len() as int, line: l, reason },
                ),
                None => prev,
            },
            None => prev,
        }
    }
}

/// Scans the lines of the file `file` (a line that could not be read is
/// `None` and is passed over, but still counted): one result for each line
/// that seems to hold a secret, with its number counted from 1.
pub fn scan_file_lines(file: &str, lines: &Vec<Option<String>>, patterns: &Vec<SecretPattern>) -> (r: Vec<ScanResult>)
    ensures
        scan_views(r@) == file_findings(file@, pattern_views(patterns@), line_views(lines@)),
{
    let ghost ls = line_views(lines@);
    let mut out: Vec<ScanResult> = Vec::new();
    let n = lines.len();
    for i in 0..n
        invariant
            n == lines@.len(),
            ls == line_views(lines@),
            scan_views(out@) == file_findings(file@, pattern_views(patterns@), ls.take(i as int)),
    {
        assert(ls.take(i + 1).drop_last() =~= ls.take(i as int));
        assert(ls.take(i + 1).last() == ls[i as int]);
        assert(ls.take(i + 1).len() == i + 1);
        match &lines[i] {
            Some(l) => {
                if let Some(reason) = scan_line(l.as_str(), patterns) {
                    let res = ScanResult {
                        file: file.to_owned(),
                        line_number: i + 1,
                        line: l.clone(),
                        reason,
                    };
                    let ghost old_out = out@;
                    out.push(res);
                    assert(scan_views(out@) =~= scan_views(old_out).push(res@));
                }
            },
            None => {},
        }
    }
    assert(ls.take(n as int) =~= ls);
    out
}

/// Some result of `results` is for the file `file`.
pub fn has_result_for_file(results: &Vec<ScanResult>, file: &str) -> (b: bool)
    ensures
        b == exists|i: int| 0 <= i < results@.len() && #[trigger] results@[i].file@ == file@,
{
    let n = results.len();
    for i in 0..n
        invariant
            n == results@.len(),
            forall|j: int| 0 <= j < i ==> #[trigger] results@[j].file@ != file@,
    {
        if str_eq(results[i].file.as_str(), file) {
            return true;
        }
    }
    false
}

// ---------------------------------------------------------------------------
// Laws
// ---------------------------------------------------------------------------

/// Every result of a scanned file is for that file and points at a line
/// that was read: its number counts from 1, its text is that line, and its
/// reason is what the line reports. The results follow the order of the
/// lines, one result per line at most.
pub proof fn lemma_results_point_at_their_lines(
    file: Seq<char>,
    patterns: Seq<Seq<char>>,
    lines: Seq<Option<Seq<char>>>,
)
    ensures
        forall|j: int|
            #![trigger file_findings(file, patterns, lines)[j]]
            0 <= j < file_findings(file, patterns, lines).len() ==> {
                let r = file_findings(file, patterns, lines)[j];
                &&& r.file == file
                &&& 1 <= r.line_number <= lines.len()
                &&& lines[r.line_number - 1] == Some(r.line)
                &&& scan_line_reason(patterns, r.line) == Some(r.reason)
            },
        forall|i: int, j: int|
            0 <= i < j < file_findings(file, patterns, lines).len() ==> (#[trigger] file_findings(
                file,
                patterns,
                lines,
            )[i]).line_number < (#[trigger] file_findings(file, patterns, lines)[j]).line_number,
    decreases lines.len(),
{
    if lines.len() > 0 {
        let init = lines.drop_last();
        let prev = file_findings(file, patterns, init);
        let cur = file_findings(file, patterns, lines);
        lemma_results_point_at_their_lines(file, patterns, init);
        assert forall|j: int| #![trigger cur[j]] 0 <= j < cur.len() implies {
            let r = cur[j];
            &&& r.file == file
            &&& 1 <= r.line_number <= lines.len()
            &&& lines[r.line_number - 1] == Some(r.line)
            &&& scan_line_reason(patterns, r.line) == Some(r.reason)
        } by {
            if j < prev.len() {
                assert(cur[j] == prev[j]);
                assert(lines[prev[j].line_number - 1] == init[prev[j].line_number - 1]);
            }
        }
        assert forall|i: int, j: int| 0 <= i < j < cur.len() implies (#[trigger] cur[i]).line_number
            < (#[trigger] cur[j]).line_number by {
            assert(cur[i] == prev[i]);
            if j < prev.len() {
                assert(cur[j] == prev[j]);
            }
        }
    }
}

/// A value in quotes counts as hardcoded, whichever of the three quote
/// characters (double quote, single quote, backtick) wraps it: a line that
/// is looked at, is no comment, matches no secret pattern and names a secret
/// keyword `k` is reported as holding that keyword with a hardcoded value
/// whenever the text after its first `=`, trimmed and without trailing
/// semicolons, starts and ends with the same quote character.
pub proof fn lemma_quoted_keyword_value_is_reported(
    patterns: Seq<Seq<char>>,
    line: Seq<char>,
    k: Seq<char>,
    q: char,
)
    requires
        q == '"' || q == '\'' || q == '`',
        is_candidate_line(line),
        !is_comment_line(trim(line)),
        first_matching_pattern(patterns, line) is None,
        first_keyword_in(secret_keywords(), lowercase(line)) == Some(k),
        split_once(trim(line), '=') matches Some((_before, after)) && {
            let w = trim_end_char(trim(after), ';');
            w.len() >= 1 && w[0] == q && w[w.len() - 1] == q
        },
    ensures
        scan_line_reason(patterns, line) == Some("contains keyword '"@ + k + "' with hardcoded value"@),
{
}

/// A line that holds a secret keyword and whose value after the first `=`
/// is not wrapped in matching quotes is not reported, unless it is a
/// comment or matches a secret pattern.
pub proof fn lemma_unquoted_keyword_value_is_not_reported(
    patterns: Seq<Seq<char>>,
    line: Seq<char>,
)
    requires
        !is_comment_line(trim(line)),
        first_matching_pattern(patterns, line) is None,
        split_once(trim(line), '=') matches Some((_before, after)) && {
            let w = trim_end_char(trim(after), ';');
            !(w.len() >= 1 && w[0] == w[w.len() - 1] && (w[0] == '"' || w[0] == '\'' || w[0] == '`'))
        },
    ensures
        scan_line_reason(patterns, line) is None,
{
}

/// Lines that are never reported: blank lines, lines that begin (once
/// trimmed) a Rust definition (`pub struct`, `struct `, `pub fn`, `fn `,
/// `impl `, `use `), and lines with neither `=` nor `:`.
pub proof fn lemma_lines_not_looked_at(patterns: Seq<Seq<char>>, line: Seq<char>)
    ensures
        trim(line).len() == 0 ==> scan_line_reason(patterns, line) is None,
        starts_with(trim(line), "pub struct"@) || starts_with(trim(line), "struct "@) || starts_with(
            trim(line),
            "pub fn"@,
        ) || starts_with(trim(line), "fn "@) || starts_with(trim(line), "impl "@) || starts_with(
            trim(line),
            "use "@,
        ) ==> scan_line_reason(patterns, line) is None,
        (forall|j: int| 0 <= j < trim(line).len() ==> #[trigger] trim(line)[j] != '=' && trim(line)[j]
            != ':') ==> scan_line_reason(patterns, line) is None,
{
    let t = trim(line);
    let d = definition_prefixes();
    if starts_with(t, "pub struct"@) { assert(starts_with(t, d[0])); }
    if starts_with(t, "struct "@) { assert(starts_with(t, d[1])); }
    if starts_with(t, "pub fn"@) { assert(starts_with(t, d[2])); }
    if starts_with(t, "fn "@) { assert(starts_with(t, d[3])); }
    if starts_with(t, "impl "@) { assert(starts_with(t, d[4])); }
    if starts_with(t, "use "@) { assert(starts_with(t, d[5])); }
    lemma_find_char(t, '=');
    lemma_find_char(t, ':');
}

/// A looked-at line that a secret pattern `p` matches is reported with
/// that pattern, as a possible leak when the line is a comment (it starts,
/// once trimmed, with `//`, `#` or `*`).
pub proof fn lemma_pattern_match_is_reported(patterns: Seq<Seq<char>>, line: Seq<char>, p: Seq<char>)
    requires
        is_candidate_line(line),
        first_matching_pattern(patterns, line) == Some(p),
    ensures
        (starts_with(trim(line), "//"@) || trim(line)[0] == '#' || trim(line)[0] == '*')
            ==> scan_line_reason(patterns, line) == Some("possible leak in comment - pattern '"@ + p + "'"@),
        !(starts_with(trim(line), "//"@) || trim(line)[0] == '#' || trim(line)[0] == '*')
            ==> scan_line_reason(patterns, line) == Some("contains secret pattern '"@ + p + "'"@),
{
}

/// The first of `patterns` that matches is one of them and matches; no
/// earlier one matches; none is found only when none matches.
pub proof fn lemma_first_matching_pattern(patterns: Seq<Seq<char>>, line: Seq<char>)
    ensures
        first_matching_pattern(patterns, line) matches Some(p) ==> patterns.contains(p) && regex_is_match(p, line),
        first_matching_pattern(patterns, line) is None <==> forall|i: int|
            0 <= i < patterns.len() ==> !regex_is_match(#[trigger] patterns[i], line),
    decreases patterns.len(),
{
    if patterns.len() > 0 {
        let rest = patterns.drop_first();
        lemma_first_matching_pattern(rest, line);
        if let Some(p) = first_matching_pattern(rest, line) {
            let i = choose|i: int| 0 <= i < rest.len() && rest[i] == p;
            assert(patterns[i + 1] == p);
        }
        assert forall|i: int| 0 <= i < rest.len() implies rest[i] == patterns[i + 1] by {}
        if !regex_is_match(patterns[0], line) && first_matching_pattern(rest, line) is Some {
            let p = first_matching_pattern(rest, line)->0;
            let i = choose|i: int| 0 <= i < rest.len() && rest[i] == p;
            assert(regex_is_match(patterns[i + 1], line));
        }
        if first_matching_pattern(patterns, line) is None {
            assert forall|i: int| 0 <= i < patterns.len() implies !regex_is_match(#[trigger] patterns[i], line) by {
                if i > 0 {
                    assert(rest[i - 1] == patterns[i]);
                }
            }
        } else {
            let p = first_matching_pattern(patterns, line)->0;
            assert(patterns.contains(p) && regex_is_match(p, line));
            let i = choose|i: int| 0 <= i < patterns.len() && patterns[i] == p;
            assert(regex_is_match(patterns[i], line));
        }
    }
}

/// A looked-at comment line that matches no secret pattern and names a
/// secret keyword `k` is reported as a possible leak of that keyword,
/// whatever follows the separator.
pub proof fn lemma_comment_with_keyword_is_reported(patterns: Seq<Seq<char>>, line: Seq<char>, k: Seq<char>)
    requires
        is_candidate_line(line),
        starts_with(trim(line), "//"@) || trim(line)[0] == '#' || trim(line)[0] == '*',
        first_matching_pattern(patterns, line) is None,
        first_keyword_in(secret_keywords(), lowercase(line)) == Some(k),
    ensures
        scan_line_reason(patterns, line) == Some("possible leak in comment - keyword '"@ + k + "'"@),
{
}

/// The secret keywords are `secret`, `password`, `passwd`, `token`,
/// `apikey`, `api_key`, `credential`, `private_key`, `access_token` and
/// `auth_token`: a lowercase line that holds one of them names a keyword,
/// and the keyword found is one of them and occurs in the line.
pub proof fn lemma_secret_keywords(lowered: Seq<char>)
    ensures
        contains(lowered, "secret"@) || contains(lowered, "password"@) || contains(lowered, "passwd"@)
            || contains(lowered, "token"@) || contains(lowered, "apikey"@) || contains(
            lowered,
            "api_key"@,
        ) || contains(lowered, "credential"@) || contains(lowered, "private_key"@) || contains(
            lowered,
            "access_token"@,
        ) || contains(lowered, "auth_token"@) ==> first_keyword_in(secret_keywords(), lowered) is Some,
        first_keyword_in(secret_keywords(), lowered) matches Some(k) ==> contains(lowered, k) && (k
            == "secret"@ || k == "password"@ || k == "passwd"@ || k == "token"@ || k == "apikey"@
            || k == "api_key"@ || k == "credential"@ || k == "private_key"@ || k == "access_token"@
            || k == "auth_token"@),
{
    let ks = secret_keywords();
    reveal_with_fuel(first_keyword_in, 11);
    let s1 = ks.drop_first();
    let s2 = s1.drop_first();
    let s3 = s2.drop_first();
    let s4 = s3.drop_first();
    let s5 = s4.drop_first();
    let s6 = s5.drop_first();
    let s7 = s6.drop_first();
    let s8 = s7.drop_first();
    let s9 = s8.drop_first();
    let s10 = s9.drop_first();
    assert(s10.len() == 0);
    assert(ks[0] == "secret"@);
    assert(s1[0] == "password"@);
    assert(s2[0] == "passwd"@);
    assert(s3[0] == "token"@);
    assert(s4[0] == "apikey"@);
    assert(s5[0] == "api_key"@);
    assert(s6[0] == "credential"@);
    assert(s7[0] == "private_key"@);
    assert(s8[0] == "access_token"@);
    assert(s9[0] == "auth_token"@);
}

proof fn lemma_dot_prefix(a: Seq<char>, b: Seq<char>)
    ensures
        ("."@ + a == "."@ + b) <==> a == b,
{
    reveal_strlit(".");
    if "."@ + a == "."@ + b {
        assert(a =~= ("."@ + a).subrange(1, ("."@ + a).len() as int));
        assert(b =~= ("."@ + b).subrange(1, ("."@ + b).len() as int));
    }
}

/// Files passed over by the scan: those named `README.md`, `readme.md`,
/// `.env`, `.env.example`, `guardstack.config.toml`, `package.json`,
/// `package-lock.json`, `Cargo.toml`, `Cargo.lock` or `.gitignore`, and
/// those with extension `md`, `toml`, `lock`, `txt`, `yaml` or `yml`;
/// directories passed over: `node_modules`, `.git`, `dist`, `build`,
/// `target`, `.next`, `coverage`, `.cache`.
pub proof fn lemma_exclusions(name: Seq<char>, extension: Seq<char>)
    ensures
        file_excluded(name, extension) <==> (name == "README.md"@ || name == "readme.md"@ || name
            == ".env"@ || name == ".env.example"@ || name == "guardstack.config.toml"@ || name
            == "package.json"@ || name == "package-lock.json"@ || name == "Cargo.toml"@ || name
            == "Cargo.lock"@ || name == ".gitignore"@ || extension == "md"@ || extension == "toml"@
            || extension == "lock"@ || extension == "txt"@ || extension == "yaml"@ || extension
            == "yml"@),
        excluded_dirs().contains(name) <==> (name == "node_modules"@ || name == ".git"@ || name
            == "dist"@ || name == "build"@ || name == "target"@ || name == ".next"@ || name
            == "coverage"@ || name == ".cache"@),
{
    let f = excluded_files();
    let x = excluded_extensions();
    let d = excluded_dirs();
    reveal_strlit(".");
    reveal_strlit(".md");
    reveal_strlit("md");
    reveal_strlit(".toml");
    reveal_strlit("toml");
    reveal_strlit(".lock");
    reveal_strlit("lock");
    reveal_strlit(".txt");
    reveal_strlit("txt");
    reveal_strlit(".yaml");
    reveal_strlit("yaml");
    reveal_strlit(".yml");
    reveal_strlit("yml");
    assert(".md"@ =~= "."@ + "md"@);
    assert(".toml"@ =~= "."@ + "toml"@);
    assert(".lock"@ =~= "."@ + "lock"@);
    assert(".txt"@ =~= "."@ + "txt"@);
    assert(".yaml"@ =~= "."@ + "yaml"@);
    assert(".yml"@ =~= "."@ + "yml"@);
    lemma_dot_prefix(extension, "md"@);
    lemma_dot_prefix(extension, "toml"@);
    lemma_dot_prefix(extension, "lock"@);
    lemma_dot_prefix(extension, "txt"@);
    lemma_dot_prefix(extension, "yaml"@);
    lemma_dot_prefix(extension, "yml"@);
    assert(x[0] == ".md"@ && x[1] == ".toml"@ && x[2] == ".lock"@ && x[3] == ".txt"@ && x[4]
        == ".yaml"@ && x[5] == ".yml"@);
    assert(f[0] == "README.md"@ && f[1] == "readme.md"@ && f[2] == ".env"@ && f[3]
        == ".env.example"@ && f[4] == "guardstack.config.toml"@ && f[5] == "package.json"@ && f[6]
        == "package-lock.json"@ && f[7] == "Cargo.toml"@ && f[8] == "Cargo.lock"@ && f[9]
        == ".gitignore"@);
    assert(d[0] == "node_modules"@ && d[1] == ".git"@ && d[2] == "dist"@ && d[3] == "build"@ && d[4]
        == "target"@ && d[5] == ".next"@ && d[6] == "coverage"@ && d[7] == ".cache"@);
}

/// Each secret pattern that compiles is among the compiled patterns.
pub proof fn lemma_compiled_sources(sources: Seq<Seq<char>>)
    ensures
        forall|i: int|
            0 <= i < sources.len() && regex_compiles(#[trigger] sources[i]) ==> compiled_sources(
                sources,
            ).contains(sources[i]),
        forall|p: Seq<char>| #[trigger] compiled_sources(sources).contains(p) ==> sources.contains(p)
            && regex_compiles(p),
    decreases sources.len(),
{
    if sources.len() > 0 {
        let init = sources.drop_last();
        lemma_compiled_sources(init);
        let prev = compiled_sources(init);
        let cur = compiled_sources(sources);
        assert forall|i: int|
            0 <= i < sources.len() && regex_compiles(#[trigger] sources[i]) implies cur.contains(sources[i]) by {
            if i < init.len() {
                assert(init[i] == sources[i]);
                let j = choose|j: int| 0 <= j < prev.len() && prev[j] == init[i];
                assert(cur[j] == prev[j]);
            } else {
                assert(cur[cur.len() - 1] == sources[i]);
            }
        }
        assert forall|p: Seq<char>| #[trigger] cur.contains(p) implies sources.contains(p) && regex_compiles(p) by {
            let j = choose|j: int| 0 <= j < cur.len() && cur[j] == p;
            if j < prev.len() {
                assert(prev[j] == p);
                assert(prev.contains(p));
                assert(init.contains(p));
                let i = choose|i: int| 0 <= i < init.len() && init[i] == p;
                assert(sources[i] == p);
            } else {
                assert(sources[sources.len() - 1] == p);
            }
        }
    }
}

/// The secret patterns are the regular expressions for the token formats
/// `sk_live_`, `pk_live_`, `ghp_`, `gho_`, `xoxb-`, `xoxp-`, `AKIA`,
/// `sq0csp-`, `access_key_id`, `secret_access_key`, `amzn\.mws\.`, `SG\.`,
/// `key-[0-9a-zA-Z]{32}` and `AIza[0-9A-Za-z-_]{35}`, in that order.
pub proof fn lemma_secret_pattern_sources()
    ensures
        secret_pattern_sources() == seq![
            "sk_live_"@,
            "pk_live_"@,
            "ghp_"@,
            "gho_"@,
            "xoxb-"@,
            "xoxp-"@,
            "AKIA"@,
            "sq0csp-"@,
            "access_key_id"@,
            "secret_access_key"@,
            "amzn\\.mws\\."@,
            "SG\\."@,
            "key-[0-9a-zA-Z]{32}"@,
            "AIza[0-9A-Za-z-_]{35}"@,
        ],
{
}

} // verus!
