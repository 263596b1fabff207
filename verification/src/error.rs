//! The finding that every check of the library reports.
use vstd::prelude::*;

verus! {

/// A problem found with one variable: its key, the name of the rule that
/// it breaks, and a message for the user.
#[derive(Debug, Clone, PartialEq, Eq)]
pub struct DevGuardError {
    pub key: String,
    pub rule: String,
    pub message: String,
}

/// What a `DevGuardError` holds, as character sequences.
pub ghost struct ErrorView {
    pub key: Seq<char>,
    pub rule: Seq<char>,
    pub message: Seq<char>,
}

impl View for DevGuardError {
    type V = ErrorView;

    open spec fn view(&self) -> ErrorView {
        ErrorView { key: self.key@, rule: self.rule@, message: self.message@ }
    }
}

/// The view of an optional finding.
pub open spec fn finding_view(o: Option<DevGuardError>) -> Option<ErrorView> {
    match o {
        Some(e) => Some(e@),
        None => None,
    }
}

/// The views of a sequence of findings.
pub open spec fn findings_view(s: Seq<DevGuardError>) -> Seq<ErrorView> {
    s.map_values(|e: DevGuardError| e@)
}

/// The finding with the given key, rule and message.
pub open spec fn error_view(key: Seq<char>, rule: Seq<char>, message: Seq<char>) -> ErrorView {
    ErrorView { key, rule, message }
}

impl DevGuardError {
    pub fn new(key: String, rule: String, message: String) -> (e: Self)
        ensures
            e.key == key,
            e.rule == rule,
            e.message == message,
    {
        DevGuardError { key, rule, message }
    }
}

/// The finding for `key` with the given rule name and message.
pub fn make_error(key: &str, rule: &str, message: &str) -> (e: DevGuardError)
    ensures
        e@ == error_view(key@, rule@, message@),
{
    DevGuardError::new(key.to_owned(), rule.to_owned(), message.to_owned())
}

} // verus!
