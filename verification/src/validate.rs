use vstd::prelude::*;

use crate::json::{entries_view, json_eq, json_equals, opt_view, Json, JsonValue};
use crate::path::{get_nested_value, nested_value};
use crate::pattern::{compile_pattern, pattern_matches, regex_compile_error, regex_is_match};
use crate::render::{compact, push_compact};
use crate::text::{push_str, strings_view};

verus! {

broadcast use vstd::string::group_string_axioms;

/// The model of an optional string.
pub open spec fn opt_text(o: Option<String>) -> Option<Seq<char>> {
    match o {
        Some(s) => Some(s@),
        None => None,
    }
}

/// The lines `ms` joined with line feeds.
pub open spec fn join_lines(ms: Seq<Seq<char>>) -> Seq<char>
    decreases ms.len(),
{
    if ms.len() == 0 {
        Seq::empty()
    } else if ms.len() == 1 {
        ms[0]
    } else {
        join_lines(ms.drop_last()) + seq!['\n'] + ms.last()
    }
}

/// A validation outcome: `true` and no feedback when nothing mismatched,
/// else `false` and the mismatch messages, one per line.
pub open spec fn outcome_of(ms: Seq<Seq<char>>) -> (bool, Option<Seq<char>>) {
    if ms.len() == 0 {
        (true, None)
    } else {
        (false, Some(join_lines(ms)))
    }
}

/// The strings of `ms` joined with line feeds.
pub fn join_with_newlines(ms: &Vec<String>) -> (r: String)
    ensures
        r@ == join_lines(strings_view(ms@)),
{
    let ghost sv = strings_view(ms@);
    let mut out = String::new();
    let mut i: usize = 0;
    while i < ms.len()
        invariant
            sv == strings_view(ms@),
            0 <= i <= ms@.len(),
            out@ == join_lines(sv.take(i as int)),
        decreases ms.len() - i,
    {
        if i > 0 {
            push_str(&mut out, "\n");
            proof {
                reveal_strlit("\n");
            }
        }
        push_str(&mut out, ms[i].as_str());
        proof {
            assert(sv.take(i + 1).drop_last() =~= sv.take(i as int));
            assert(sv.take(i + 1).last() == ms@[i as int]@);
            assert(out@ =~= join_lines(sv.take(i + 1)));
        }
        i = i + 1;
    }
    assert(sv.take(i as int) =~= sv);
    out
}

/// The outcome for the mismatch messages `ms`.
fn report(ms: &Vec<String>) -> (r: (bool, Option<String>))
    ensures
        (r.0, opt_text(r.1)) == outcome_of(strings_view(ms@)),
{
    if ms.len() == 0 {
        (true, None)
    } else {
        (false, Some(join_with_newlines(ms)))
    }
}

/// The message for one literal expectation, or `None` when it holds: the
/// value at `key` (dot notation) must equal `expected`.
pub open spec fn literal_mismatch(response: Json, key: Seq<char>, expected: Json) -> Option<Seq<char>> {
    match nested_value(response, key) {
        Some(actual) => if json_eq(actual, expected) {
            None
        } else {
            Some("Key '"@ + key + "': expected '"@ + compact(expected) + "', got '"@ + compact(actual) + "'"@)
        },
        None => Some("Key '"@ + key + "': expected '"@ + compact(expected)
            + "', but key not found in response"@),
    }
}

/// The messages of the literal expectations that do not hold, in order.
pub open spec fn literal_mismatches(response: Json, expected: Seq<(Seq<char>, Json)>) -> Seq<Seq<char>>
    decreases expected.len(),
{
    if expected.len() == 0 {
        Seq::empty()
    } else {
        let prev = literal_mismatches(response, expected.drop_last());
        match literal_mismatch(response, expected.last().0, expected.last().1) {
            Some(m) => prev.push(m),
            None => prev,
        }
    }
}

/// Validates response against literal expected values.
/// Returns (true, None) if all expectations match, (false, feedback) if any mismatch.
pub fn validate_response_literal(response: &JsonValue, expected: &Vec<(String, JsonValue)>) -> (r: (
    bool,
    Option<String>,
))
    ensures
        (r.0, opt_text(r.1)) == outcome_of(literal_mismatches(response@, entries_view(expected@))),
{
    let ghost ev = entries_view(expected@);
    let mut mismatches: Vec<String> = Vec::new();
    let mut i: usize = 0;
    while i < expected.len()
        invariant
            ev == entries_view(expected@),
            0 <= i <= expected@.len(),
            strings_view(mismatches@) == literal_mismatches(response@, ev.take(i as int)),
        decreases expected.len() - i,
    {
        let key = &expected[i].0;
        let expected_value = &expected[i].1;
        let ghost before = mismatches@;
        proof {
            assert(ev.take(i + 1).drop_last() =~= ev.take(i as int));
            assert(ev.take(i + 1).last() == ev[i as int]);
        }
        match get_nested_value(response, key.as_str()) {
            Some(actual) => {
                if !json_equals(actual, expected_value) {
                    let mut m = String::new();
                    push_str(&mut m, "Key '");
                    push_str(&mut m, key.as_str());
                    push_str(&mut m, "': expected '");
                    push_compact(&mut m, expected_value);
                    push_str(&mut m, "', got '");
                    push_compact(&mut m, actual);
                    push_str(&mut m, "'");
                    mismatches.push(m);
                    proof {
                        assert(m@ =~= literal_mismatch(response@, ev[i as int].0, ev[i as int].1)->0);
                        assert(strings_view(mismatches@) =~= strings_view(before).push(m@));
                    }
                }
            },
            None => {
                let mut m = String::new();
                push_str(&mut m, "Key '");
                push_str(&mut m, key.as_str());
                push_str(&mut m, "': expected '");
                push_compact(&mut m, expected_value);
                push_str(&mut m, "', but key not found in response");
                mismatches.push(m);
                proof {
                    assert(m@ =~= literal_mismatch(response@, ev[i as int].0, ev[i as int].1)->0);
                    assert(strings_view(mismatches@) =~= strings_view(before).push(m@));
                }
            },
        }
        i = i + 1;
    }
    assert(ev.take(i as int) =~= ev);
    report(&mismatches)
}

/// The text a regex is matched against: a string as it is, any other value
/// as its compact JSON text.
pub open spec fn match_text(actual: Json) -> Seq<char> {
    match actual {
        Json::Str(s) => s,
        _ => compact(actual),
    }
}

/// The message for a string pattern `p` at `key`, given what compiling it
/// reported (`build_error`), the value found at `key` (`actual`), and
/// whether the pattern matched that value's text (`matched`); `None` when
/// the expectation holds.
pub open spec fn pattern_verdict(
    key: Seq<char>,
    p: Seq<char>,
    build_error: Option<Seq<char>>,
    actual: Option<Json>,
    matched: bool,
) -> Option<Seq<char>> {
    match build_error {
        Some(err) => Some("Invalid regex pattern for key '"@ + key + "': "@ + err),
        None => match actual {
            Some(a) => if matched {
                None
            } else {
                Some("Key '"@ + key + "': value '"@ + match_text(a) + "' does not match pattern '"@ + p + "'"@)
            },
            None => Some("Key '"@ + key + "': expected to match pattern '"@ + p
                + "', but key not found in response"@),
        },
    }
}

/// The message for one regex expectation, or `None` when it holds: the
/// pattern must be a string that compiles, and it must match the text of the
/// value at `key` (dot notation).
pub open spec fn regex_mismatch(response: Json, key: Seq<char>, pattern: Json) -> Option<Seq<char>> {
    match pattern {
        Json::Str(p) => {
            let actual = nested_value(response, key);
            let matched = match actual {
                Some(a) => regex_is_match(p, match_text(a)),
                None => false,
            };
            pattern_verdict(key, p, regex_compile_error(p), actual, matched)
        },
        _ => Some("Regex pattern for key '"@ + key + "' must be a string"@),
    }
}

/// The messages of the regex expectations that do not hold, in order.
pub open spec fn regex_mismatches(response: Json, patterns: Seq<(Seq<char>, Json)>) -> Seq<Seq<char>>
    decreases patterns.len(),
{
    if patterns.len() == 0 {
        Seq::empty()
    } else {
        let prev = regex_mismatches(response, patterns.drop_last());
        match regex_mismatch(response, patterns.last().0, patterns.last().1) {
            Some(m) => prev.push(m),
            None => prev,
        }
    }
}

/// The text a regex is matched against.
fn text_for_match(actual: &JsonValue) -> (r: String)
    ensures
        r@ == match_text(actual@),
{
    match actual {
        JsonValue::String(s) => s.clone(),
        _ => {
            let mut t = String::new();
            push_compact(&mut t, actual);
            assert(t@ =~= compact(actual@));
            t
        },
    }
}

/// The message for the string pattern `pattern` at `key`, given what
/// compiling it reported, the value found at `key`, and whether the pattern
/// matched that value's text; `None` when the expectation holds.
pub fn regex_verdict(
    key: &str,
    pattern: &str,
    build_error: Option<String>,
    actual: Option<&JsonValue>,
    matched: bool,
) -> (r: Option<String>)
    ensures
        opt_text(r) == pattern_verdict(key@, pattern@, opt_text(build_error), opt_view(actual), matched),
{
    match build_error {
        Some(e) => {
            let mut m = String::new();
            push_str(&mut m, "Invalid regex pattern for key '");
            push_str(&mut m, key);
            push_str(&mut m, "': ");
            push_str(&mut m, e.as_str());
            assert(m@ =~= pattern_verdict(key@, pattern@, opt_text(build_error), opt_view(actual), matched)->0);
            Some(m)
        },
        None => match actual {
            Some(a) => {
                if matched {
                    None
                } else {
                    let actual_str = text_for_match(a);
                    let mut m = String::new();
                    push_str(&mut m, "Key '");
                    push_str(&mut m, key);
                    push_str(&mut m, "': value '");
                    push_str(&mut m, actual_str.as_str());
                    push_str(&mut m, "' does not match pattern '");
                    push_str(&mut m, pattern);
                    push_str(&mut m, "'");
                    assert(m@ =~= pattern_verdict(key@, pattern@, opt_text(build_error), opt_view(actual), matched)->0);
                    Some(m)
                }
            },
            None => {
                let mut m = String::new();
                push_str(&mut m, "Key '");
                push_str(&mut m, key);
                push_str(&mut m, "': expected to match pattern '");
                push_str(&mut m, pattern);
                push_str(&mut m, "', but key not found in response");
                assert(m@ =~= pattern_verdict(key@, pattern@, opt_text(build_error), opt_view(actual), matched)->0);
                Some(m)
            },
        },
    }
}

/// The message for one regex expectation, or `None` when it holds.
fn check_pattern(response: &JsonValue, key: &String, pattern_value: &JsonValue) -> (r: Option<String>)
    ensures
        opt_text(r) == regex_mismatch(response@, key@, pattern_value@),
{
    let pattern_str = match pattern_value {
        JsonValue::String(p) => p,
        _ => {
            let mut m = String::new();
            push_str(&mut m, "Regex pattern for key '");
            push_str(&mut m, key.as_str());
            push_str(&mut m, "' must be a string");
            assert(m@ =~= regex_mismatch(response@, key@, pattern_value@)->0);
            return Some(m);
        },
    };
    let actual = get_nested_value(response, key.as_str());
    match compile_pattern(pattern_str.as_str()) {
        Err(e) => regex_verdict(key.as_str(), pattern_str.as_str(), Some(e), actual, false),
        Ok(regex) => {
            let matched = match actual {
                Some(a) => {
                    let actual_str = text_for_match(a);
                    pattern_matches(&regex, actual_str.as_str())
                },
                None => false,
            };
            regex_verdict(key.as_str(), pattern_str.as_str(), None, actual, matched)
        },
    }
}

/// Validates response against regex patterns.
/// Returns (true, None) if all patterns match, (false, feedback) if any mismatch.
pub fn validate_response_regex(response: &JsonValue, patterns: &Vec<(String, JsonValue)>) -> (r: (
    bool,
    Option<String>,
))
    ensures
        (r.0, opt_text(r.1)) == outcome_of(regex_mismatches(response@, entries_view(patterns@))),
{
    let ghost pv = entries_view(patterns@);
    let mut mismatches: Vec<String> = Vec::new();
    let mut i: usize = 0;
    while i < patterns.len()
        invariant
            pv == entries_view(patterns@),
            0 <= i <= patterns@.len(),
            strings_view(mismatches@) == regex_mismatches(response@, pv.take(i as int)),
        decreases patterns.len() - i,
    {
        let ghost before = mismatches@;
        proof {
            assert(pv.take(i + 1).drop_last() =~= pv.take(i as int));
            assert(pv.take(i + 1).last() == pv[i as int]);
        }
        match check_pattern(response, &patterns[i].0, &patterns[i].1) {
            Some(m) => {
                mismatches.push(m);
                assert(strings_view(mismatches@) =~= strings_view(before).push(m@));
            },
            None => {},
        }
        i = i + 1;
    }
    assert(pv.take(i as int) =~= pv);
    report(&mismatches)
}

/// The literal mismatches of two lists of expectations, one after the
/// other, are those of the first list followed by those of the second.
pub proof fn lemma_literal_mismatches_concat(response: Json, a: Seq<(Seq<char>, Json)>, b: Seq<(Seq<char>, Json)>)
    ensures
        literal_mismatches(response, a + b) == literal_mismatches(response, a) + literal_mismatches(response, b),
    decreases b.len(),
{
    if b.len() == 0 {
        assert(a + b =~= a);
        assert(literal_mismatches(response, a) + literal_mismatches(response, b) =~= literal_mismatches(response, a));
    } else {
        lemma_literal_mismatches_concat(response, a, b.drop_last());
        assert((a + b).drop_last() =~= a + b.drop_last());
        assert((a + b).last() == b.last());
        let x = literal_mismatches(response, a);
        let y = literal_mismatches(response, b.drop_last());
        match literal_mismatch(response, b.last().0, b.last().1) {
            Some(m) => assert((x + y).push(m) =~= x + y.push(m)),
            None => {},
        }
    }
}

/// The regex mismatches of two lists of patterns, one after the other, are
/// those of the first list followed by those of the second.
pub proof fn lemma_regex_mismatches_concat(response: Json, a: Seq<(Seq<char>, Json)>, b: Seq<(Seq<char>, Json)>)
    ensures
        regex_mismatches(response, a + b) == regex_mismatches(response, a) + regex_mismatches(response, b),
    decreases b.len(),
{
    if b.len() == 0 {
        assert(a + b =~= a);
        assert(regex_mismatches(response, a) + regex_mismatches(response, b) =~= regex_mismatches(response, a));
    } else {
        lemma_regex_mismatches_concat(response, a, b.drop_last());
        assert((a + b).drop_last() =~= a + b.drop_last());
        assert((a + b).last() == b.last());
        let x = regex_mismatches(response, a);
        let y = regex_mismatches(response, b.drop_last());
        match regex_mismatch(response, b.last().0, b.last().1) {
            Some(m) => assert((x + y).push(m) =~= x + y.push(m)),
            None => {},
        }
    }
}

/// No literal mismatch is reported exactly when every expectation holds.
pub proof fn lemma_literal_none_iff(response: Json, e: Seq<(Seq<char>, Json)>)
    ensures
        literal_mismatches(response, e).len() == 0 <==> forall|i: int|
            0 <= i < e.len() ==> #[trigger] literal_mismatch(response, e[i].0, e[i].1) is None,
    decreases e.len(),
{
    if e.len() > 0 {
        let p = e.drop_last();
        lemma_literal_none_iff(response, p);
        if forall|i: int| 0 <= i < e.len() ==> #[trigger] literal_mismatch(response, e[i].0, e[i].1) is None {
            assert forall|i: int| 0 <= i < p.len() implies #[trigger] literal_mismatch(response, p[i].0, p[i].1) is None by {
                assert(p[i] == e[i]);
            }
            assert(literal_mismatch(response, e[e.len() - 1].0, e[e.len() - 1].1) is None);
        }
        if literal_mismatches(response, e).len() == 0 {
            assert forall|i: int| 0 <= i < e.len() implies #[trigger] literal_mismatch(response, e[i].0, e[i].1) is None by {
                if i < e.len() - 1 {
                    assert(p[i] == e[i]);
                    assert(literal_mismatch(response, p[i].0, p[i].1) is None);
                }
            }
        }
    }
}

/// No regex mismatch is reported exactly when every pattern holds.
pub proof fn lemma_regex_none_iff(response: Json, e: Seq<(Seq<char>, Json)>)
    ensures
        regex_mismatches(response, e).len() == 0 <==> forall|i: int|
            0 <= i < e.len() ==> #[trigger] regex_mismatch(response, e[i].0, e[i].1) is None,
    decreases e.len(),
{
    if e.len() > 0 {
        let p = e.drop_last();
        lemma_regex_none_iff(response, p);
        if forall|i: int| 0 <= i < e.len() ==> #[trigger] regex_mismatch(response, e[i].0, e[i].1) is None {
            assert forall|i: int| 0 <= i < p.len() implies #[trigger] regex_mismatch(response, p[i].0, p[i].1) is None by {
                assert(p[i] == e[i]);
            }
            assert(regex_mismatch(response, e[e.len() - 1].0, e[e.len() - 1].1) is None);
        }
        if regex_mismatches(response, e).len() == 0 {
            assert forall|i: int| 0 <= i < e.len() implies #[trigger] regex_mismatch(response, e[i].0, e[i].1) is None by {
                if i < e.len() - 1 {
                    assert(p[i] == e[i]);
                    assert(regex_mismatch(response, p[i].0, p[i].1) is None);
                }
            }
        }
    }
}

/// Law of literal matching: a response passes the literal expectations
/// exactly when, for every expected key, the value at that key (dot
/// notation) exists and equals the expected value; and it then has no
/// feedback.
pub proof fn law_literal_passes_iff_all_keys_match(response: Json, expected: Seq<(Seq<char>, Json)>)
    ensures
        outcome_of(literal_mismatches(response, expected)).0 <==> forall|i: int|
            0 <= i < expected.len() ==> (#[trigger] nested_value(response, expected[i].0) matches Some(
                actual,
            ) && json_eq(actual, expected[i].1)),
        outcome_of(literal_mismatches(response, expected)).0 <==> outcome_of(
            literal_mismatches(response, expected),
        ).1 is None,
{
    lemma_literal_none_iff(response, expected);
    if outcome_of(literal_mismatches(response, expected)).0 {
        assert forall|i: int| 0 <= i < expected.len() implies (#[trigger] nested_value(response, expected[i].0) matches Some(
            actual,
        ) && json_eq(actual, expected[i].1)) by {
            assert(literal_mismatch(response, expected[i].0, expected[i].1) is None);
        }
    }
    if forall|i: int| 0 <= i < expected.len() ==> (#[trigger] nested_value(response, expected[i].0) matches Some(
        actual,
    ) && json_eq(actual, expected[i].1)) {
        assert forall|i: int| 0 <= i < expected.len() implies #[trigger] literal_mismatch(response, expected[i].0, expected[i].1) is None by {
            assert(nested_value(response, expected[i].0) is Some);
        }
    }
}

/// Law of literal matching: expectations combine by conjunction; a response
/// passes two lists together exactly when it passes each.
pub proof fn law_literal_conjunction(response: Json, a: Seq<(Seq<char>, Json)>, b: Seq<(Seq<char>, Json)>)
    ensures
        outcome_of(literal_mismatches(response, a + b)).0 == (outcome_of(literal_mismatches(response, a)).0
            && outcome_of(literal_mismatches(response, b)).0),
{
    lemma_literal_mismatches_concat(response, a, b);
}

/// Whether one regex expectation holds: the pattern is a string that
/// compiles and matches the text of the value at `key`.
pub open spec fn pattern_holds(response: Json, key: Seq<char>, pattern: Json) -> bool {
    match pattern {
        Json::Str(p) => regex_compile_error(p) is None && match nested_value(response, key) {
            Some(actual) => regex_is_match(p, match_text(actual)),
            None => false,
        },
        _ => false,
    }
}

/// Law of regex matching: a response passes the regex expectations exactly
/// when every pattern is a string that compiles and matches the text of the
/// value at its key; and it then has no feedback.
pub proof fn law_regex_passes_iff_all_patterns_match(response: Json, patterns: Seq<(Seq<char>, Json)>)
    ensures
        outcome_of(regex_mismatches(response, patterns)).0 <==> forall|i: int|
            0 <= i < patterns.len() ==> #[trigger] pattern_holds(response, patterns[i].0, patterns[i].1),
        outcome_of(regex_mismatches(response, patterns)).0 <==> outcome_of(
            regex_mismatches(response, patterns),
        ).1 is None,
{
    lemma_regex_none_iff(response, patterns);
    if outcome_of(regex_mismatches(response, patterns)).0 {
        assert forall|i: int| 0 <= i < patterns.len() implies #[trigger] pattern_holds(response, patterns[i].0, patterns[i].1) by {
            assert(regex_mismatch(response, patterns[i].0, patterns[i].1) is None);
        }
    }
    if forall|i: int| 0 <= i < patterns.len() ==> #[trigger] pattern_holds(response, patterns[i].0, patterns[i].1) {
        assert forall|i: int| 0 <= i < patterns.len() implies #[trigger] regex_mismatch(response, patterns[i].0, patterns[i].1) is None by {
            assert(pattern_holds(response, patterns[i].0, patterns[i].1));
        }
    }
}

/// Law of regex matching: pattern lists combine by conjunction.
pub proof fn law_regex_conjunction(response: Json, a: Seq<(Seq<char>, Json)>, b: Seq<(Seq<char>, Json)>)
    ensures
        outcome_of(regex_mismatches(response, a + b)).0 == (outcome_of(regex_mismatches(response, a)).0
            && outcome_of(regex_mismatches(response, b)).0),
{
    lemma_regex_mismatches_concat(response, a, b);
}

} // verus!
