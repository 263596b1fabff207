//! Reading the lines of a `.env` file into variables and warnings.
use vstd::prelude::*;
use vstd::string::*;

use crate::env_map::{has_key, keys_distinct, lemma_find_key, lemma_store, lookup, opt_str_view, store, EntryView, EnvMap};
use crate::text::{
    chars_of, copy_range, ends_with_char, ends_with_char_exec, find_char, lemma_find_char,
    lemma_find_char_first, split_once, split_once_exec,
    starts_with_char, starts_with_char_exec, string_from_chars, trim, trim_chars,
};

verus! {

/// A line that the parser passes over: blank once trimmed, or a comment.
pub open spec fn is_ignored(t: Seq<char>) -> bool {
    t.len() == 0 || t[0] == '#'
}

/// A value wrapped in a matching pair of double or single quotes.
pub open spec fn is_quoted(v: Seq<char>) -> bool {
    (starts_with_char(v, '"') && ends_with_char(v, '"')) || (starts_with_char(v, '\'')
        && ends_with_char(v, '\''))
}

/// A trimmed, non-empty value without its surrounding quotes, if it has them.
pub open spec fn unquote(v: Seq<char>) -> Seq<char> {
    if is_quoted(v) {
        v.subrange(1, v.len() - 1)
    } else {
        v
    }
}

/// The value that the text after `=` gives: none when it is blank.
pub open spec fn assigned_value(raw: Seq<char>) -> Option<Seq<char>> {
    let v = trim(raw);
    if v.len() == 0 {
        None
    } else {
        Some(unquote(v))
    }
}

/// The warning for a trimmed line that has no `=`.
pub open spec fn malformed_warning(t: Seq<char>) -> Seq<char> {
    "⚠️  '"@ + t + "' is malformed - missing '='"@
}

/// What one line of a `.env` file is.
pub ghost enum LineView {
    Ignored,
    Malformed(Seq<char>),
    Assignment(Seq<char>, Option<Seq<char>>),
}

/// What the parser makes of one line.
pub open spec fn classify_line(line: Seq<char>) -> LineView {
    let t = trim(line);
    if is_ignored(t) {
        LineView::Ignored
    } else {
        match split_once(t, '=') {
            None => LineView::Malformed(malformed_warning(t)),
            Some((k, v)) => LineView::Assignment(trim(k), assigned_value(v)),
        }
    }
}

/// A line whose value is one lone quote character: cutting the quotes off
/// such a value slices out of bounds, so no line of a parsed file may be one.
pub open spec fn has_lone_quote(line: Seq<char>) -> bool {
    let t = trim(line);
    &&& !is_ignored(t)
    &&& split_once(t, '=') matches Some((k, v))
    &&& trim(v).len() == 1
    &&& (trim(v)[0] == '"' || trim(v)[0] == '\'')
}

/// The variables and warnings after the lines `lines`, read in order.
pub open spec fn parse_lines(lines: Seq<Seq<char>>) -> (Seq<EntryView>, Seq<Seq<char>>)
    decreases lines.len(),
{
    if lines.len() == 0 {
        (Seq::empty(), Seq::empty())
    } else {
        let prev = parse_lines(lines.drop_last());
        match classify_line(lines.last()) {
            LineView::Ignored => prev,
            LineView::Malformed(w) => (prev.0, prev.1.push(w)),
            LineView::Assignment(k, v) => (store(prev.0, k, v), prev.1),
        }
    }
}

/// One line of a `.env` file, read.
#[derive(Debug, Clone, PartialEq, Eq)]
pub enum ParsedLine {
    /// A blank line or a comment.
    Ignored,
    /// A line without `=`, with the warning to show for it.
    Malformed(String),
    /// `KEY=VALUE`, with the key and the value trimmed and the value unquoted;
    /// no value where the text after `=` is blank.
    Assignment(String, Option<String>),
}

impl View for ParsedLine {
    type V = LineView;

    open spec fn view(&self) -> LineView {
        match self {
            ParsedLine::Ignored => LineView::Ignored,
            ParsedLine::Malformed(w) => LineView::Malformed(w@),
            ParsedLine::Assignment(k, v) => LineView::Assignment(k@, opt_str_view(*v)),
        }
    }
}

/// The line `line` holds a value that is one lone quote character.
pub fn has_lone_quote_exec(line: &str) -> (b: bool)
    ensures
        b == has_lone_quote(line@),
{
    let lc = chars_of(line);
    let t = trim_chars(lc.as_slice());
    if t.len() == 0 || t[0] == '#' {
        return false;
    }
    match split_once_exec(t.as_slice(), '=') {
        None => false,
        Some((_k, v)) => {
            let tv = trim_chars(v.as_slice());
            tv.len() == 1 && (tv[0] == '"' || tv[0] == '\'')
        },
    }
}

/// Reads one line of a `.env` file.
pub fn parse_env_line(line: &str) -> (r: ParsedLine)
    requires
        !has_lone_quote(line@),
    ensures
        r@ == classify_line(line@),
{
    let lc = chars_of(line);
    let t = trim_chars(lc.as_slice());
    if t.len() == 0 || t[0] == '#' {
        return ParsedLine::Ignored;
    }
    match split_once_exec(t.as_slice(), '=') {
        None => {
            let ts = string_from_chars(t.as_slice());
            let mut w = "⚠️  '".to_owned();
            w.append(ts.as_str());
            w.append("' is malformed - missing '='");
            ParsedLine::Malformed(w)
        },
        Some((k, v)) => {
            let key = string_from_chars(trim_chars(k.as_slice()).as_slice());
            let tv = trim_chars(v.as_slice());
            if tv.len() == 0 {
                return ParsedLine::Assignment(key, None);
            }
            let quoted = (starts_with_char_exec(tv.as_slice(), '"') && ends_with_char_exec(
                tv.as_slice(),
                '"',
            )) || (starts_with_char_exec(tv.as_slice(), '\'') && ends_with_char_exec(
                tv.as_slice(),
                '\'',
            ));
            let value = if quoted {
                string_from_chars(copy_range(tv.as_slice(), 1, tv.len() - 1).as_slice())
            } else {
                string_from_chars(tv.as_slice())
            };
            ParsedLine::Assignment(key, Some(value))
        },
    }
}

/// Reads the lines of a `.env` file: each `KEY=VALUE` line stores its value
/// under its key (a later line replaces an earlier one), each line without
/// `=` gives a warning, and blank lines and comments are passed over.
pub fn parse_env_lines(lines: &Vec<String>) -> (r: (EnvMap, Vec<String>))
    requires
        forall|i: int| 0 <= i < lines@.len() ==> !has_lone_quote(#[trigger] lines@[i]@),
    ensures
        r.0.wf(),
        r.0@ == parse_lines(lines@.map_values(|l: String| l@)).0,
        r.1@.map_values(|w: String| w@) == parse_lines(lines@.map_values(|l: String| l@)).1,
{
    let ghost ls = lines@.map_values(|l: String| l@);
    let mut map = EnvMap::new();
    let mut warnings: Vec<String> = Vec::new();
    let n = lines.len();
    for i in 0..n
        invariant
            n == lines@.len(),
            ls == lines@.map_values(|l: String| l@),
            forall|j: int| 0 <= j < lines@.len() ==> !has_lone_quote(#[trigger] lines@[j]@),
            map.wf(),
            map@ == parse_lines(ls.take(i as int)).0,
            warnings@.map_values(|w: String| w@) == parse_lines(ls.take(i as int)).1,
    {
        assert(ls.take(i + 1).drop_last() =~= ls.take(i as int));
        assert(ls.take(i + 1).last() == lines@[i as int]@);
        let parsed = parse_env_line(lines[i].as_str());
        match parsed {
            ParsedLine::Ignored => {},
            ParsedLine::Malformed(w) => {
                let ghost old_w = warnings@;
                warnings.push(w);
                assert(warnings@.map_values(|w: String| w@) =~= old_w.map_values(|w: String| w@).push(w@));
            },
            ParsedLine::Assignment(k, v) => {
                map.insert(k, v);
            },
        }
    }
    assert(ls.take(n as int) =~= ls);
    (map, warnings)
}

// ---------------------------------------------------------------------------
// Laws
// ---------------------------------------------------------------------------

/// The value that the last line of `lines` that assigns `k` gives it:
/// `None` when no line assigns `k`.
pub open spec fn last_assignment(lines: Seq<Seq<char>>, k: Seq<char>) -> Option<Option<Seq<char>>>
    decreases lines.len(),
{
    if lines.len() == 0 {
        None
    } else {
        match classify_line(lines.last()) {
            LineView::Assignment(k2, v) => if k2 == k {
                Some(v)
            } else {
                last_assignment(lines.drop_last(), k)
            },
            _ => last_assignment(lines.drop_last(), k),
        }
    }
}

/// Each key of a parsed file is stored once and holds the value of the last
/// line that assigns it; a key that no line assigns is absent.
pub proof fn lemma_last_assignment_wins(lines: Seq<Seq<char>>, k: Seq<char>)
    ensures
        keys_distinct(parse_lines(lines).0),
        lookup(parse_lines(lines).0, k) == last_assignment(lines, k),
    decreases lines.len(),
{
    if lines.len() > 0 {
        let prev = parse_lines(lines.drop_last());
        lemma_last_assignment_wins(lines.drop_last(), k);
        match classify_line(lines.last()) {
            LineView::Assignment(k2, v) => {
                lemma_store(prev.0, k2, v);
            },
            _ => {},
        }
    }
}

/// Every line without `=` gives one warning, its own, and every warning
/// comes from such a line.
pub proof fn lemma_warnings_come_from_malformed_lines(lines: Seq<Seq<char>>)
    ensures
        parse_lines(lines).1.len() <= lines.len(),
        forall|i: int|
            0 <= i < lines.len() && #[trigger] classify_line(lines[i]) is Malformed
                ==> parse_lines(lines).1.contains(classify_line(lines[i])->Malformed_0),
        forall|j: int|
            #![trigger parse_lines(lines).1[j]]
            0 <= j < parse_lines(lines).1.len() ==> exists|i: int|
                0 <= i < lines.len() && #[trigger] classify_line(lines[i]) == LineView::Malformed(
                    parse_lines(lines).1[j],
                ),
    decreases lines.len(),
{
    if lines.len() > 0 {
        let init = lines.drop_last();
        let prev = parse_lines(init);
        let cur = parse_lines(lines);
        lemma_warnings_come_from_malformed_lines(init);
        assert forall|i: int|
            0 <= i < lines.len() && #[trigger] classify_line(lines[i]) is Malformed implies cur.1.contains(
            classify_line(lines[i])->Malformed_0) by {
            if i < lines.len() - 1 {
                assert(lines[i] == init[i]);
                assert(classify_line(init[i]) is Malformed);
                let j = choose|j: int| 0 <= j < prev.1.len() && prev.1[j] == classify_line(init[i])->Malformed_0;
                assert(cur.1[j] == prev.1[j]);
            } else {
                assert(cur.1[cur.1.len() - 1] == classify_line(lines[i])->Malformed_0);
            }
        }
        assert forall|j: int| #![trigger cur.1[j]] 0 <= j < cur.1.len() implies exists|i: int|
            0 <= i < lines.len() && #[trigger] classify_line(lines[i]) == LineView::Malformed(
                cur.1[j],
            ) by {
            if j < prev.1.len() {
                assert(cur.1[j] == prev.1[j]);
                let i = choose|i: int|
                    0 <= i < init.len() && #[trigger] classify_line(init[i]) == LineView::Malformed(
                        prev.1[j],
                    );
                assert(lines[i] == init[i]);
            } else {
                let i = lines.len() - 1;
                assert(classify_line(lines[i]) == LineView::Malformed(cur.1[j]));
            }
        }
    }
}

/// A blank line or a comment changes nothing, wherever it stands.
pub proof fn lemma_ignored_line_changes_nothing(
    before: Seq<Seq<char>>,
    line: Seq<char>,
    after: Seq<Seq<char>>,
)
    requires
        classify_line(line) == LineView::Ignored,
    ensures
        parse_lines(before + seq![line] + after) == parse_lines(before + after),
    decreases after.len(),
{
    if after.len() == 0 {
        assert(before + seq![line] + after =~= before.push(line));
        assert(before.push(line).drop_last() =~= before);
        assert(before + after =~= before);
    } else {
        let with = before + seq![line] + after;
        let without = before + after;
        lemma_ignored_line_changes_nothing(before, line, after.drop_last());
        assert(with.drop_last() =~= before + seq![line] + after.drop_last());
        assert(without.drop_last() =~= before + after.drop_last());
        assert(with.last() == after.last());
        assert(without.last() == after.last());
    }
}

/// `line` assigns a value to the key `k`.
pub open spec fn assigns_key(line: Seq<char>, k: Seq<char>) -> bool {
    classify_line(line) matches LineView::Assignment(k2, _v) && k2 == k
}

/// A key that some line assigns is stored after parsing.
pub proof fn lemma_assigned_key_is_stored(lines: Seq<Seq<char>>, k: Seq<char>, i: int)
    requires
        0 <= i < lines.len(),
        assigns_key(lines[i], k),
    ensures
        has_key(parse_lines(lines).0, k),
    decreases lines.len(),
{
    lemma_last_assignment_wins(lines, k);
    lemma_find_key(parse_lines(lines).0, k);
    lemma_last_assignment_some(lines, k, i);
}

proof fn lemma_last_assignment_some(lines: Seq<Seq<char>>, k: Seq<char>, i: int)
    requires
        0 <= i < lines.len(),
        assigns_key(lines[i], k),
    ensures
        last_assignment(lines, k) is Some,
    decreases lines.len(),
{
    if i < lines.len() - 1 {
        match classify_line(lines.last()) {
            LineView::Assignment(k2, v) => {
                if k2 != k {
                    assert(lines.drop_last()[i] == lines[i]);
                    lemma_last_assignment_some(lines.drop_last(), k, i);
                }
            },
            _ => {
                assert(lines.drop_last()[i] == lines[i]);
                lemma_last_assignment_some(lines.drop_last(), k, i);
            },
        }
    }
}

/// What a line of a `.env` file is, in terms of its trimmed text `t`:
/// blank lines and lines starting with `#` are passed over; a line without
/// `=` is malformed, with a warning that quotes it; otherwise the key is the
/// trimmed text before the first `=`, and the value the trimmed text after
/// it: none when that is blank, without its outer quotes when it is wrapped
/// in a pair of double or single quotes, and as it is otherwise.
pub proof fn lemma_line_kinds(line: Seq<char>)
    ensures
        trim(line).len() == 0 || trim(line)[0] == '#' ==> classify_line(line) == LineView::Ignored,
        trim(line).len() > 0 && trim(line)[0] != '#' && (forall|j: int|
            0 <= j < trim(line).len() ==> #[trigger] trim(line)[j] != '=') ==> classify_line(line)
            == LineView::Malformed("⚠️  '"@ + trim(line) + "' is malformed - missing '='"@),
        forall|i: int|
            #![trigger trim(line)[i]]
            0 <= i < trim(line).len() && trim(line)[0] != '#' && trim(line)[i] == '=' && (forall|j: int|
                0 <= j < i ==> trim(line)[j] != '=') ==> {
                let t = trim(line);
                let key = trim(t.subrange(0, i));
                let w = trim(t.subrange(i + 1, t.len() as int));
                &&& w.len() == 0 ==> classify_line(line) == LineView::Assignment(key, None)
                &&& w.len() >= 2 && w[0] == w[w.len() - 1] && (w[0] == '"' || w[0] == '\'')
                    ==> classify_line(line) == LineView::Assignment(
                    key,
                    Some(w.subrange(1, w.len() - 1)),
                )
                &&& w.len() > 0 && !(w[0] == w[w.len() - 1] && (w[0] == '"' || w[0] == '\''))
                    ==> classify_line(line) == LineView::Assignment(key, Some(w))
            },
{
    let t = trim(line);
    if t.len() > 0 && t[0] != '#' && (forall|j: int| 0 <= j < t.len() ==> #[trigger] t[j] != '=') {
        if find_char(t, '=') < t.len() {
            lemma_find_char(t, '=');
        }
    }
    assert forall|i: int|
        #![trigger trim(line)[i]]
        0 <= i < t.len() && t[0] != '#' && t[i] == '=' && (forall|j: int| 0 <= j < i ==> t[j] != '=') implies {
            let key = trim(t.subrange(0, i));
            let w = trim(t.subrange(i + 1, t.len() as int));
            &&& w.len() == 0 ==> classify_line(line) == LineView::Assignment(key, None)
            &&& w.len() >= 2 && w[0] == w[w.len() - 1] && (w[0] == '"' || w[0] == '\'')
                ==> classify_line(line) == LineView::Assignment(key, Some(w.subrange(1, w.len() - 1)))
            &&& w.len() > 0 && !(w[0] == w[w.len() - 1] && (w[0] == '"' || w[0] == '\''))
                ==> classify_line(line) == LineView::Assignment(key, Some(w))
        } by {
        lemma_find_char_first(t, '=', i);
    }
}

} // verus!
