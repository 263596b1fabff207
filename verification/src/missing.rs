//! Comparing a `.env` file with its `.env.example`.
use vstd::prelude::*;

use crate::env_map::{has_key, EntryView, EnvMap};
use crate::error::{error_view, findings_view, make_error, DevGuardError, ErrorView};
use crate::parser::{assigns_key, is_ignored, lemma_assigned_key_is_stored, parse_lines};
use crate::text::{chars_of, lemma_find_char_first, split_once, split_once_exec, string_from_chars, trim, trim_chars};

verus! {

/// The key that a line of `.env.example` declares: the trimmed text before
/// its first `=`; none for blank lines, comments and lines without `=`.
pub open spec fn declared_key(line: Seq<char>) -> Option<Seq<char>> {
    let t = trim(line);
    if is_ignored(t) {
        None
    } else {
        match split_once(t, '=') {
            Some((k, _v)) => Some(trim(k)),
            None => None,
        }
    }
}

/// The finding for a key of `.env.example` that the `.env` file lacks.
pub open spec fn missing_error(key: Seq<char>) -> ErrorView {
    error_view(key, "missing"@, "missing required variable"@)
}

/// The findings for the lines `lines` of `.env.example`, in order: one for
/// each declared key that `vars` lacks.
pub open spec fn missing_findings(vars: Seq<EntryView>, lines: Seq<Seq<char>>) -> Seq<ErrorView>
    decreases lines.len(),
{
    if lines.len() == 0 {
        Seq::empty()
    } else {
        let prev = missing_findings(vars, lines.drop_last());
        match declared_key(lines.last()) {
            Some(k) => if has_key(vars, k) {
                prev
            } else {
                prev.push(missing_error(k))
            },
            None => prev,
        }
    }
}

/// The key that one line of `.env.example` declares, if any.
pub fn declared_key_exec(line: &str) -> (r: Option<String>)
    ensures
        match (r, declared_key(line@)) {
            (Some(a), Some(b)) => a@ == b,
            (None, None) => true,
            _ => false,
        },
{
    let lc = chars_of(line);
    let t = trim_chars(lc.as_slice());
    if t.len() == 0 || t[0] == '#' {
        return None;
    }
    match split_once_exec(t.as_slice(), '=') {
        Some((k, _v)) => Some(string_from_chars(trim_chars(k.as_slice()).as_slice())),
        None => None,
    }
}

/// The keys that the lines of `.env.example` declare and that `map` lacks,
/// each as a `missing` finding, in the order of the lines.
pub fn missing_keys(map: &EnvMap, example_lines: &Vec<String>) -> (r: Vec<DevGuardError>)
    ensures
        findings_view(r@) == missing_findings(map@, example_lines@.map_values(|l: String| l@)),
{
    let ghost ls = example_lines@.map_values(|l: String| l@);
    let mut out: Vec<DevGuardError> = Vec::new();
    let n = example_lines.len();
    for i in 0..n
        invariant
            n == example_lines@.len(),
            ls == example_lines@.map_values(|l: String| l@),
            findings_view(out@) == missing_findings(map@, ls.take(i as int)),
    {
        assert(ls.take(i + 1).drop_last() =~= ls.take(i as int));
        assert(ls.take(i + 1).last() == example_lines@[i as int]@);
        match declared_key_exec(example_lines[i].as_str()) {
            Some(k) => {
                if !map.contains_key(k.as_str()) {
                    let e = make_error(k.as_str(), "missing", "missing required variable");
                    let ghost old_out = out@;
                    out.push(e);
                    assert(findings_view(out@) =~= findings_view(old_out).push(e@));
                }
            },
            None => {},
        }
    }
    assert(ls.take(n as int) =~= ls);
    out
}

// ---------------------------------------------------------------------------
// Laws
// ---------------------------------------------------------------------------

/// Every finding is the `missing` finding of a key that some line of
/// `.env.example` declares and that the variables lack; and every declared
/// key that the variables lack gets a finding.
pub proof fn lemma_missing_is_exactly_absent_keys(vars: Seq<EntryView>, lines: Seq<Seq<char>>)
    ensures
        forall|j: int|
            #![trigger missing_findings(vars, lines)[j]]
            0 <= j < missing_findings(vars, lines).len() ==> {
                let f = missing_findings(vars, lines)[j];
                &&& f == missing_error(f.key)
                &&& !has_key(vars, f.key)
                &&& exists|i: int| 0 <= i < lines.len() && #[trigger] declared_key(lines[i]) == Some(f.key)
            },
        forall|i: int|
            0 <= i < lines.len() && #[trigger] declared_key(lines[i]) is Some && !has_key(
                vars,
                declared_key(lines[i])->0,
            ) ==> exists|j: int|
                0 <= j < missing_findings(vars, lines).len() && #[trigger] missing_findings(
                    vars,
                    lines,
                )[j].key == declared_key(lines[i])->0,
    decreases lines.len(),
{
    if lines.len() > 0 {
        let init = lines.drop_last();
        let prev = missing_findings(vars, init);
        let cur = missing_findings(vars, lines);
        lemma_missing_is_exactly_absent_keys(vars, init);
        assert(prev.len() <= cur.len());
        assert forall|j: int| 0 <= j < prev.len() implies cur[j] == prev[j] by {}
        assert forall|j: int| #![trigger cur[j]] 0 <= j < cur.len() implies {
            let f = cur[j];
            &&& f == missing_error(f.key)
            &&& !has_key(vars, f.key)
            &&& exists|i: int| 0 <= i < lines.len() && #[trigger] declared_key(lines[i]) == Some(f.key)
        } by {
            if j < prev.len() {
                let f = prev[j];
                let i = choose|i: int| 0 <= i < init.len() && #[trigger] declared_key(init[i]) == Some(f.key);
                assert(lines[i] == init[i]);
            } else {
                assert(declared_key(lines[lines.len() - 1]) == Some(cur[j].key));
            }
        }
        assert forall|i: int|
            0 <= i < lines.len() && #[trigger] declared_key(lines[i]) is Some && !has_key(
                vars,
                declared_key(lines[i])->0,
            ) implies exists|j: int|
                0 <= j < cur.len() && #[trigger] cur[j].key == declared_key(lines[i])->0 by {
            if i < lines.len() - 1 {
                assert(lines[i] == init[i]);
                let j = choose|j: int| 0 <= j < prev.len() && #[trigger] prev[j].key == declared_key(init[i])->0;
                assert(cur[j] == prev[j]);
            } else {
                assert(cur[cur.len() - 1].key == declared_key(lines[i])->0);
            }
        }
    }
}

/// A key that some line of the `.env` file assigns is never reported
/// missing, whatever `.env.example` declares.
pub proof fn lemma_assigned_key_never_missing(
    env_lines: Seq<Seq<char>>,
    example_lines: Seq<Seq<char>>,
    k: Seq<char>,
    i: int,
)
    requires
        0 <= i < env_lines.len(),
        assigns_key(env_lines[i], k),
    ensures
        forall|j: int|
            0 <= j < missing_findings(parse_lines(env_lines).0, example_lines).len()
                ==> #[trigger] missing_findings(parse_lines(env_lines).0, example_lines)[j].key != k,
{
    lemma_assigned_key_is_stored(env_lines, k, i);
    lemma_missing_is_exactly_absent_keys(parse_lines(env_lines).0, example_lines);
}

/// `small` is `big` with some elements left out: its elements stand in
/// `big` at increasing positions.
pub open spec fn is_subsequence(small: Seq<ErrorView>, big: Seq<ErrorView>) -> bool {
    exists|idx: Seq<int>| #[trigger] embeds(small, big, idx)
}

/// `idx` gives, for each element of `small`, its position in `big`; the
/// positions increase.
pub open spec fn embeds(small: Seq<ErrorView>, big: Seq<ErrorView>, idx: Seq<int>) -> bool {
    &&& idx.len() == small.len()
    &&& forall|j: int| 0 <= j < idx.len() ==> 0 <= #[trigger] idx[j] < big.len() && small[j] == big[idx[j]]
    &&& forall|i: int, j: int| 0 <= i < j < idx.len() ==> #[trigger] idx[i] < #[trigger] idx[j]
}

/// Every key of `vars1` is a key of `vars2`.
pub open spec fn keys_within(vars1: Seq<EntryView>, vars2: Seq<EntryView>) -> bool {
    forall|k: Seq<char>| #[trigger] has_key(vars1, k) ==> has_key(vars2, k)
}

proof fn lemma_missing_embeds(vars1: Seq<EntryView>, vars2: Seq<EntryView>, lines: Seq<Seq<char>>) -> (idx: Seq<int>)
    requires
        keys_within(vars1, vars2),
    ensures
        embeds(missing_findings(vars2, lines), missing_findings(vars1, lines), idx),
    decreases lines.len(),
{
    if lines.len() == 0 {
        Seq::empty()
    } else {
        let init = lines.drop_last();
        let prev = lemma_missing_embeds(vars1, vars2, init);
        let small0 = missing_findings(vars2, init);
        let big0 = missing_findings(vars1, init);
        let small = missing_findings(vars2, lines);
        let big = missing_findings(vars1, lines);
        match declared_key(lines.last()) {
            Some(k) => {
                if has_key(vars2, k) {
                    assert(small == small0);
                    assert forall|j: int| 0 <= j < prev.len() implies 0 <= #[trigger] prev[j] < big.len()
                        && small[j] == big[prev[j]] by {
                        assert(big[prev[j]] == big0[prev[j]]);
                    }
                    prev
                } else {
                    assert(!has_key(vars1, k));
                    let idx = prev.push(big0.len() as int);
                    assert forall|j: int| 0 <= j < idx.len() implies 0 <= #[trigger] idx[j] < big.len()
                        && small[j] == big[idx[j]] by {
                        if j < prev.len() {
                            assert(idx[j] == prev[j]);
                            assert(big[prev[j]] == big0[prev[j]]);
                        }
                    }
                    assert forall|i: int, j: int| 0 <= i < j < idx.len() implies #[trigger] idx[i]
                        < #[trigger] idx[j] by {
                        if j < prev.len() {
                            assert(idx[i] == prev[i] && idx[j] == prev[j]);
                        } else {
                            assert(idx[i] == prev[i]);
                        }
                    }
                    idx
                }
            },
            None => prev,
        }
    }
}

/// A `.env` with more keys gets fewer missing findings: where every key of
/// `vars1` is also a key of `vars2`, the findings for `vars2` are those for
/// `vars1` with some left out; and where `vars2` holds every key that
/// `.env.example` declares, there are none.
pub proof fn lemma_more_keys_fewer_missing(vars1: Seq<EntryView>, vars2: Seq<EntryView>, lines: Seq<Seq<char>>)
    requires
        keys_within(vars1, vars2),
    ensures
        is_subsequence(missing_findings(vars2, lines), missing_findings(vars1, lines)),
        (forall|i: int| 0 <= i < lines.len() && #[trigger] declared_key(lines[i]) is Some ==> has_key(
            vars2,
            declared_key(lines[i])->0,
        )) ==> missing_findings(vars2, lines).len() == 0,
{
    let idx = lemma_missing_embeds(vars1, vars2, lines);
    assert(embeds(missing_findings(vars2, lines), missing_findings(vars1, lines), idx));
    lemma_missing_is_exactly_absent_keys(vars2, lines);
    if (forall|i: int| 0 <= i < lines.len() && #[trigger] declared_key(lines[i]) is Some ==> has_key(
        vars2,
        declared_key(lines[i])->0,
    )) && missing_findings(vars2, lines).len() > 0 {
        let f = missing_findings(vars2, lines)[0];
        let i = choose|i: int| 0 <= i < lines.len() && #[trigger] declared_key(lines[i]) == Some(f.key);
        assert(has_key(vars2, f.key));
    }
}

/// Every line of `.env.example` that is not blank, not a comment and holds
/// `=` declares the trimmed text before its first `=`, whatever follows
/// the `=` (an empty value too).
pub proof fn lemma_assignment_line_declares_its_key(line: Seq<char>, i: int)
    requires
        trim(line).len() > 0,
        trim(line)[0] != '#',
        0 <= i < trim(line).len(),
        trim(line)[i] == '=',
        forall|j: int| 0 <= j < i ==> trim(line)[j] != '=',
    ensures
        declared_key(line) == Some(trim(trim(line).subrange(0, i))),
{
    let t = trim(line);
    lemma_find_char_first(t, '=', i);
}

/// A key that a line of `.env.example` assigns, with any value or none,
/// and that the variables lack, is reported missing.
pub proof fn lemma_declared_key_without_value_is_reported(
    vars: Seq<EntryView>,
    lines: Seq<Seq<char>>,
    n: int,
    i: int,
)
    requires
        0 <= n < lines.len(),
        trim(lines[n]).len() > 0,
        trim(lines[n])[0] != '#',
        0 <= i < trim(lines[n]).len(),
        trim(lines[n])[i] == '=',
        forall|j: int| 0 <= j < i ==> trim(lines[n])[j] != '=',
        !has_key(vars, trim(trim(lines[n]).subrange(0, i))),
    ensures
        exists|j: int|
            0 <= j < missing_findings(vars, lines).len() && #[trigger] missing_findings(vars, lines)[j]
                == error_view(trim(trim(lines[n]).subrange(0, i)), "missing"@, "missing required variable"@),
{
    lemma_assignment_line_declares_its_key(lines[n], i);
    lemma_missing_is_exactly_absent_keys(vars, lines);
    let j = choose|j: int|
        0 <= j < missing_findings(vars, lines).len() && #[trigger] missing_findings(vars, lines)[j].key
            == declared_key(lines[n])->0;
    assert(missing_findings(vars, lines)[j] == missing_error(trim(trim(lines[n]).subrange(0, i))));
}

} // verus!
