use vstd::prelude::*;
use vstd::string::StringExecFns;

use core::time::Duration;

use crate::json::{entries_view, Json, JsonValue};
use crate::reference::{ref_error_text, resolve_refs, resolve_value, RefError};
use crate::store::ResponseStore;
use crate::text::{
    chars_of, decimal, lines_chars, lines_of, push_decimal, push_str,
    string_of, strings_view, trim_end_char, trim_end_char_bound,
};
use crate::json::json_eq;
use crate::path::nested_value;
use crate::validate::{
    join_lines, join_with_newlines, law_literal_passes_iff_all_keys_match,
    law_regex_passes_iff_all_patterns_match, literal_mismatches, opt_text, outcome_of, pattern_holds,
    regex_mismatches, validate_response_literal, validate_response_regex,
};

verus! {

broadcast use vstd::string::group_string_axioms;

/// Configuration for test expectations
#[derive(Debug)]
pub struct ExpectConfig {
    /// The HTTP status code expected for a passing test
    pub http_status: u16,
    /// Properties expected in the response object (literal matching)
    pub response: Option<Vec<(String, JsonValue)>>,
    /// Properties expected in the response object (regex matching)
    pub response_regex: Option<Vec<(String, JsonValue)>>,
    /// Properties expected in response headers (future use)
    pub headers: Option<Vec<(String, JsonValue)>>,
}

/// One test of a test file: a request to send and what its response must be.
#[derive(Debug)]
pub struct TestCase {
    /// The name of the test, set from the toml table key value if not explicitly provided
    pub name: String,
    /// The HTTP method used in this test
    pub method: String,
    /// The route (e.g., `{base_url}/{route}`) to send the request
    pub route: String,
    /// The data payload to send as part of the request.
    /// It will be in `application/json` format.
    pub payload: JsonValue,
    /// Test expectations configuration
    pub expect: ExpectConfig,
    /// `None` The test hasn't run yet
    /// `true` The test passed
    /// `false` The test failed
    outcome: Option<bool>,
    /// The time it took for the test to complete its run
    duration: Option<Duration>,
    /// The same time in whole milliseconds
    duration_ms: Option<u128>,
    /// Information related to why this test failed
    feedback: Option<String>,
}

/// The model of an optional table of expectations.
pub open spec fn opt_table(t: Option<Vec<(String, JsonValue)>>) -> Option<Seq<(Seq<char>, Json)>> {
    match t {
        Some(v) => Some(entries_view(v@)),
        None => None,
    }
}

/// Model of [`ExpectConfig`].
pub struct ExpectModel {
    pub http_status: u16,
    pub response: Option<Seq<(Seq<char>, Json)>>,
    pub response_regex: Option<Seq<(Seq<char>, Json)>>,
    pub headers: Option<Seq<(Seq<char>, Json)>>,
}

impl View for ExpectConfig {
    type V = ExpectModel;

    open spec fn view(&self) -> ExpectModel {
        ExpectModel {
            http_status: self.http_status,
            response: opt_table(self.response),
            response_regex: opt_table(self.response_regex),
            headers: opt_table(self.headers),
        }
    }
}

/// Model of [`TestCase`]: its definition and its run state.
pub struct CaseModel {
    pub name: Seq<char>,
    pub method: Seq<char>,
    pub route: Seq<char>,
    pub payload: Json,
    pub expect: ExpectModel,
    pub outcome: Option<bool>,
    pub duration: Option<Duration>,
    pub duration_ms: Option<u128>,
    pub feedback: Option<Seq<char>>,
}

impl View for TestCase {
    type V = CaseModel;

    closed spec fn view(&self) -> CaseModel {
        CaseModel {
            name: self.name@,
            method: self.method@,
            route: self.route@,
            payload: self.payload@,
            expect: self.expect@,
            outcome: self.outcome,
            duration: self.duration,
            duration_ms: self.duration_ms,
            feedback: opt_text(self.feedback),
        }
    }
}

impl TestCase {
    /// A test that has not run yet.
    pub fn new(name: String, method: String, route: String, payload: JsonValue, expect: ExpectConfig) -> (r:
        TestCase)
        ensures
            r@ == (CaseModel {
                name: name@,
                method: method@,
                route: route@,
                payload: payload@,
                expect: expect@,
                outcome: None,
                duration: None,
                duration_ms: None,
                feedback: None,
            }),
    {
        TestCase { name, method, route, payload, expect, outcome: None, duration: None, duration_ms: None, feedback: None }
    }

    /// `None` before the test has run; then whether it passed.
    pub fn outcome(&self) -> (r: Option<bool>)
        ensures
            r == self@.outcome,
    {
        self.outcome
    }

    /// The time the test took, once it has a response.
    pub fn duration(&self) -> (r: Option<Duration>)
        ensures
            r == self@.duration,
    {
        self.duration
    }

    /// The time the test took in whole milliseconds, once it has a response.
    pub fn duration_ms(&self) -> (r: Option<u128>)
        ensures
            r == self@.duration_ms,
    {
        self.duration_ms
    }

    /// Why the test failed, once it has.
    pub fn feedback(&self) -> (r: Option<&String>)
        ensures
            match r {
                Some(f) => self@.feedback == Some(f@),
                None => self@.feedback is None,
            },
    {
        match &self.feedback {
            Some(f) => Some(f),
            None => None,
        }
    }

    /// The name of the test.
    pub fn name(&self) -> (r: &String)
        ensures
            r@ == self@.name,
    {
        &self.name
    }
}

/// The definition of a test (all but its run state) is the same in both.
pub open spec fn same_definition(a: CaseModel, b: CaseModel) -> bool {
    &&& a.name == b.name
    &&& a.method == b.method
    &&& a.route == b.route
    &&& a.payload == b.payload
    &&& a.expect == b.expect
}

/// The HTTP methods a test may name.
pub open spec fn listed_methods() -> Seq<Seq<char>> {
    seq![
        seq!['P', 'O', 'S', 'T'],
        seq!['G', 'E', 'T'],
        seq!['P', 'U', 'T'],
        seq!['P', 'A', 'T', 'C', 'H'],
        seq!['D', 'E', 'L', 'E', 'T', 'E'],
    ]
}

/// A method passes the method check when it is one of the listed methods.
pub open spec fn method_listed(method: Seq<char>) -> bool {
    exists|i: int| 0 <= i < listed_methods().len() && method == #[trigger] listed_methods()[i]
}

/// The URL a request goes to: the base URL without its trailing slashes, a
/// slash, then the route.
pub open spec fn request_url(base_url: Seq<char>, route: Seq<char>) -> Seq<char> {
    trim_end_char(base_url, '/') + seq!['/'] + route
}

/// Leaving off the trailing `/` of `p` followed by slashes gives `p`.
proof fn lemma_trim_slashes(p: Seq<char>, slashes: Seq<char>)
    requires
        !(p.len() > 0 && p.last() == '/'),
        forall|i: int| 0 <= i < slashes.len() ==> #[trigger] slashes[i] == '/',
    ensures
        trim_end_char(p + slashes, '/') == p,
    decreases slashes.len(),
{
    if slashes.len() == 0 {
        assert(p + slashes =~= p);
    } else {
        let s2 = slashes.drop_last();
        assert((p + slashes).drop_last() =~= p + s2);
        assert((p + slashes).last() == slashes.last());
        lemma_trim_slashes(p, s2);
    }
}

/// Law of request URLs: for a base URL made of `p`, which does not end in
/// `/`, followed by any number of slashes, the request goes to `p`, exactly
/// one `/`, then the route.
pub proof fn law_request_url_has_one_slash(p: Seq<char>, slashes: Seq<char>, route: Seq<char>)
    requires
        !(p.len() > 0 && p.last() == '/'),
        forall|i: int| 0 <= i < slashes.len() ==> #[trigger] slashes[i] == '/',
    ensures
        request_url(p + slashes, route) == p + seq!['/'] + route,
{
    lemma_trim_slashes(p, slashes);
}

/// A request ready to be sent.
#[derive(Debug)]
pub struct RequestPlan {
    /// The HTTP method, as the test names it.
    pub method: String,
    /// The full URL.
    pub url: String,
    /// The JSON body, with its references resolved.
    pub payload: JsonValue,
}

/// Why a test could not be run at all.
#[derive(Debug)]
pub enum RunError {
    /// The request could not be sent; the message says why.
    RequestFailed(String),
}

impl RunError {
    /// The message that reports this error.
    pub fn message(&self) -> (r: &String)
        ensures
            r == match self {
                RunError::RequestFailed(m) => m,
            },
    {
        match self {
            RunError::RequestFailed(m) => m,
        }
    }
}

/// What comes of the first stage of running a test.
#[derive(Debug)]
pub enum CaseStep {
    /// The test is decided without a request (its outcome is set).
    Decided,
    /// This request is to be sent.
    Send(RequestPlan),
}

/// What came back from sending a test's request.
#[derive(Debug)]
pub enum Reply {
    /// The request could not be sent; `error` says why.
    SendFailed { error: String },
    /// A response came, but its body is not JSON; `status` is the status line
    /// (code and reason), `error` what the body reader reported.
    BodyUnreadable { status: String, error: String },
    /// A JSON response came.
    Received {
        /// The HTTP status code.
        status_code: u16,
        /// The JSON body.
        body: JsonValue,
        /// The JSON body, pretty-printed.
        body_pretty: String,
        /// The time from the start of the test until the response was read.
        elapsed: Duration,
        /// That time in whole milliseconds.
        elapsed_ms: u128,
    },
}

/// The message of a test whose method is not one of the listed methods.
pub open spec fn invalid_method_feedback(method: Seq<char>) -> Seq<char> {
    "Invalid HTTP method: "@ + method
}

/// The message of a test whose payload references cannot be resolved.
pub open spec fn resolution_feedback(e: RefError) -> Seq<char> {
    "    Reference resolution failed:\n    "@ + ref_error_text(e)
}

/// Whether `method@` passes the method check.
fn method_is_listed(method: &String) -> (r: bool)
    ensures
        r == method_listed(method@),
{
    let names: [&str; 5] = ["POST", "GET", "PUT", "PATCH", "DELETE"];
    proof {
        reveal_strlit("POST");
        reveal_strlit("GET");
        reveal_strlit("PUT");
        reveal_strlit("PATCH");
        reveal_strlit("DELETE");
        assert("POST"@ =~= listed_methods()[0]);
        assert("GET"@ =~= listed_methods()[1]);
        assert("PUT"@ =~= listed_methods()[2]);
        assert("PATCH"@ =~= listed_methods()[3]);
        assert("DELETE"@ =~= listed_methods()[4]);
    }
    let mut i: usize = 0;
    while i < 5
        invariant
            0 <= i <= 5,
            forall|k: int| 0 <= k < 5 ==> (#[trigger] names@[k])@ == listed_methods()[k],
            forall|k: int| 0 <= k < i ==> method@ != #[trigger] listed_methods()[k],
        decreases 5 - i,
    {
        let candidate = String::from_str(names[i]);
        if *method == candidate {
            assert(method@ == listed_methods()[i as int]);
            return true;
        }
        i = i + 1;
    }
    false
}

/// The base URL of the API: the given one, else `http://127.0.0.1:3030`.
pub fn base_url_or_default(given: Option<String>) -> (r: String)
    ensures
        r@ == match given {
            Some(g) => g@,
            None => "http://127.0.0.1:3030"@,
        },
{
    match given {
        Some(g) => g,
        None => {
            let mut s = String::new();
            push_str(&mut s, "http://127.0.0.1:3030");
            s
        },
    }
}

/// The URL for the request of a test.
pub fn build_request_url(base_url: &str, route: &str) -> (r: String)
    ensures
        r@ == request_url(base_url@, route@),
{
    let cs = chars_of(base_url);
    let end = trim_end_char_bound(&cs, '/');
    let mut url = string_of(&cs, 0, end);
    push_str(&mut url, "/");
    push_str(&mut url, route);
    proof {
        reveal_strlit("/");
    }
    assert(url@ =~= request_url(base_url@, route@));
    url
}

/// The first stage of running a test: checks the method, resolves the
/// payload's references against the responses of earlier tests, and plans
/// the request. A test whose method is not one of the listed methods, or
/// whose references do not resolve, fails here without a request.
pub fn begin_test_case(test: &mut TestCase, base_url: &str, responses: &ResponseStore) -> (r: CaseStep)
    ensures
        same_definition(final(test)@, old(test)@),
        final(test)@.duration == old(test)@.duration,
        final(test)@.duration_ms == old(test)@.duration_ms,
        !method_listed(old(test)@.method) ==> {
            &&& r is Decided
            &&& final(test)@.outcome == Some(false)
            &&& final(test)@.feedback == Some(invalid_method_feedback(old(test)@.method))
        },
        method_listed(old(test)@.method) ==> match resolve_refs(old(test)@.payload, responses@) {
            Err(e) => {
                &&& r is Decided
                &&& final(test)@.outcome == Some(false)
                &&& final(test)@.feedback == Some(resolution_feedback(e))
            },
            Ok(resolved) => {
                &&& final(test)@ == old(test)@
                &&& r matches CaseStep::Send(plan)
                &&& plan.method@ == old(test)@.method
                &&& plan.url@ == request_url(base_url@, old(test)@.route)
                &&& plan.payload@ == resolved
            },
        },
{
    let url = build_request_url(base_url, test.route.as_str());
    if !method_is_listed(&test.method) {
        let mut f = String::new();
        push_str(&mut f, "Invalid HTTP method: ");
        push_str(&mut f, test.method.as_str());
        test.outcome = Some(false);
        test.feedback = Some(f);
        return CaseStep::Decided;
    }
    let payload = match resolve_value(&test.payload, responses) {
        Ok(p) => p,
        Err(e) => {
            let mut f = String::new();
            push_str(&mut f, "    Reference resolution failed:\n    ");
            let m = e.message();
            push_str(&mut f, m.as_str());
            test.outcome = Some(false);
            test.feedback = Some(f);
            return CaseStep::Decided;
        },
    };
    CaseStep::Send(RequestPlan { method: test.method.clone(), url, payload })
}

/// Every literal expectation holds of `body`: the value at each expected key
/// (dot notation) exists and equals the expected value.
pub open spec fn literals_hold(body: Json, expected: Option<Seq<(Seq<char>, Json)>>) -> bool {
    expected matches Some(e) ==> forall|i: int|
        0 <= i < e.len() ==> (#[trigger] nested_value(body, e[i].0) matches Some(actual) && json_eq(
            actual,
            e[i].1,
        ))
}

/// Every regex expectation holds of `body`: each pattern is a string that
/// compiles and matches the text of the value at its key.
pub open spec fn patterns_hold(body: Json, patterns: Option<Seq<(Seq<char>, Json)>>) -> bool {
    patterns matches Some(p) ==> forall|i: int| 0 <= i < p.len() ==> #[trigger] pattern_holds(body, p[i].0, p[i].1)
}

/// Law of judging a received reply: it passes exactly when its status is the
/// expected one, every literal expectation holds and every regex expectation
/// holds.
pub proof fn law_reply_passes_iff_all_expectations_hold(
    expected_status: u16,
    status: u16,
    body: Json,
    literal: Option<Seq<(Seq<char>, Json)>>,
    regex: Option<Seq<(Seq<char>, Json)>>,
)
    ensures
        (status == expected_status && literal_check(body, literal).0 && regex_check(body, regex).0) <==> {
            &&& status == expected_status
            &&& literal matches Some(e) ==> forall|i: int|
                0 <= i < e.len() ==> (#[trigger] nested_value(body, e[i].0) matches Some(actual) && json_eq(
                    actual,
                    e[i].1,
                ))
            &&& regex matches Some(p) ==> forall|i: int|
                0 <= i < p.len() ==> #[trigger] pattern_holds(body, p[i].0, p[i].1)
        },
{
    if let Some(e) = literal {
        law_literal_passes_iff_all_keys_match(body, e);
    }
    if let Some(p) = regex {
        law_regex_passes_iff_all_patterns_match(body, p);
    }
}

/// The outcome of the literal expectations, if any: (passed, feedback).
pub open spec fn literal_check(body: Json, expected: Option<Seq<(Seq<char>, Json)>>) -> (bool, Option<Seq<char>>) {
    match expected {
        Some(e) => outcome_of(literal_mismatches(body, e)),
        None => (true, None),
    }
}

/// The outcome of the regex expectations, if any: (passed, feedback).
pub open spec fn regex_check(body: Json, patterns: Option<Seq<(Seq<char>, Json)>>) -> (bool, Option<Seq<char>>) {
    match patterns {
        Some(p) => outcome_of(regex_mismatches(body, p)),
        None => (true, None),
    }
}

/// `text` with each of its lines indented by six spaces.
pub open spec fn indent_block(text: Seq<char>) -> Seq<char> {
    join_lines(lines_of(text).map_values(|l: Seq<char>| "      "@ + l))
}

/// The text of an optional feedback, empty when there is none.
pub open spec fn text_or_empty(t: Option<Seq<char>>) -> Seq<char> {
    match t {
        Some(x) => x,
        None => Seq::empty(),
    }
}

/// The report of a test whose response does not meet its expectations: a
/// block for a status mismatch, one for literal and one for regex
/// mismatches (each only where there is one), and the response itself.
pub open spec fn failure_feedback(
    expected_status: u16,
    status: u16,
    literal: (bool, Option<Seq<char>>),
    regex: (bool, Option<Seq<char>>),
    body_pretty: Seq<char>,
) -> Seq<char> {
    let status_part: Seq<Seq<char>> = if expected_status == status {
        Seq::empty()
    } else {
        seq![
            "    Status code mismatch:\n    Expected: "@ + decimal(expected_status as nat)
                + "\n    Returned: "@ + decimal(status as nat),
        ]
    };
    let literal_part: Seq<Seq<char>> = if literal.0 {
        Seq::empty()
    } else {
        seq!["    Literal expectation mismatch:\n"@ + indent_block(text_or_empty(literal.1))]
    };
    let regex_part: Seq<Seq<char>> = if regex.0 {
        Seq::empty()
    } else {
        seq!["    Regex expectation mismatch:\n"@ + indent_block(text_or_empty(regex.1))]
    };
    join_lines(status_part + literal_part + regex_part + seq!["    Actual response:\n"@ + indent_block(body_pretty)])
}

/// Appends `text` with each of its lines indented by six spaces.
fn push_indented(out: &mut String, text: &str)
    ensures
        final(out)@ == old(out)@ + indent_block(text@),
{
    let lines = lines_chars(&chars_of(text));
    let ghost lv = lines_of(text@);
    let ghost f = |l: Seq<char>| "      "@ + l;
    let mut indented: Vec<String> = Vec::new();
    let mut i: usize = 0;
    while i < lines.len()
        invariant
            strings_view(lines@) == lv,
            f == |l: Seq<char>| "      "@ + l,
            0 <= i <= lines@.len(),
            strings_view(indented@) == lv.take(i as int).map_values(f),
        decreases lines.len() - i,
    {
        let mut line = String::new();
        push_str(&mut line, "      ");
        push_str(&mut line, lines[i].as_str());
        let ghost before = indented@;
        indented.push(line);
        proof {
            assert(lv[i as int] == lines@[i as int]@);
            assert(strings_view(indented@) =~= strings_view(before).push(line@));
            assert(lv.take(i + 1).map_values(f) =~= lv.take(i as int).map_values(f).push(f(lv[i as int])));
        }
        i = i + 1;
    }
    assert(lv.take(i as int) =~= lv);
    let joined = join_with_newlines(&indented);
    push_str(out, joined.as_str());
}

/// The block that reports the mismatches of one kind of expectation.
fn mismatch_block(title: &str, feedback: Option<String>) -> (r: String)
    ensures
        r@ == title@ + indent_block(text_or_empty(opt_text(feedback))),
{
    let mut b = String::new();
    push_str(&mut b, title);
    match feedback {
        Some(f) => push_indented(&mut b, f.as_str()),
        None => {
            let empty = String::new();
            push_indented(&mut b, empty.as_str());
        },
    }
    b
}

/// The second stage of running a test: records what its request brought.
/// A request that could not be sent fails the test and stops it with an
/// error; a response whose body is not JSON fails the test; a JSON response
/// passes the test when its status is the expected one and it meets the
/// literal and regex expectations, and is handed back for later tests to
/// reference.
pub fn finish_test_case(test: &mut TestCase, reply: Reply) -> (r: Result<Option<JsonValue>, RunError>)
    ensures
        same_definition(final(test)@, old(test)@),
        match reply {
            Reply::SendFailed { error } => {
                &&& final(test)@.outcome == Some(false)
                &&& final(test)@.feedback == Some("Request failed: "@ + error@)
                &&& final(test)@.duration == old(test)@.duration
                &&& final(test)@.duration_ms == old(test)@.duration_ms
                &&& r matches Err(RunError::RequestFailed(m)) && m@ == error@
            },
            Reply::BodyUnreadable { status, error } => {
                &&& final(test)@.outcome == Some(false)
                &&& final(test)@.feedback == Some(
                    "    HTTP Response: "@ + status@ + "\n      Error: "@ + error@,
                )
                &&& final(test)@.duration == old(test)@.duration
                &&& final(test)@.duration_ms == old(test)@.duration_ms
                &&& r matches Ok(None)
            },
            Reply::Received { status_code, body, body_pretty, elapsed, elapsed_ms } => {
                let literal = literal_check(body@, old(test)@.expect.response);
                let regex = regex_check(body@, old(test)@.expect.response_regex);
                let passed = status_code == old(test)@.expect.http_status && literal.0 && regex.0;
                &&& final(test)@.outcome == Some(passed)
                &&& (final(test)@.outcome == Some(true) <==> (status_code == old(test)@.expect.http_status
                    && literals_hold(body@, old(test)@.expect.response) && patterns_hold(
                    body@,
                    old(test)@.expect.response_regex,
                )))
                &&& final(test)@.duration == Some(elapsed)
                &&& final(test)@.duration_ms == Some(elapsed_ms)
                &&& final(test)@.feedback == if passed {
                    old(test)@.feedback
                } else {
                    Some(
                        failure_feedback(
                            old(test)@.expect.http_status,
                            status_code,
                            literal,
                            regex,
                            body_pretty@,
                        ),
                    )
                }
                &&& r matches Ok(Some(b)) && b@ == body@
            },
        },
{
    match reply {
        Reply::SendFailed { error } => {
            let mut f = String::new();
            push_str(&mut f, "Request failed: ");
            push_str(&mut f, error.as_str());
            test.outcome = Some(false);
            test.feedback = Some(f);
            Err(RunError::RequestFailed(error))
        },
        Reply::BodyUnreadable { status, error } => {
            let mut f = String::new();
            push_str(&mut f, "    HTTP Response: ");
            push_str(&mut f, status.as_str());
            push_str(&mut f, "\n      Error: ");
            push_str(&mut f, error.as_str());
            test.outcome = Some(false);
            test.feedback = Some(f);
            Ok(None)
        },
        Reply::Received { status_code, body, body_pretty, elapsed, elapsed_ms } => {
            let status_matches = status_code == test.expect.http_status;
            let (literal_matches, literal_feedback) = match &test.expect.response {
                Some(expected) => validate_response_literal(&body, expected),
                None => (true, None),
            };
            let (regex_matches, regex_feedback) = match &test.expect.response_regex {
                Some(patterns) => validate_response_regex(&body, patterns),
                None => (true, None),
            };
            let ghost literal = (literal_matches, opt_text(literal_feedback));
            let ghost regex = (regex_matches, opt_text(regex_feedback));
            let passed = status_matches && literal_matches && regex_matches;
            proof {
                law_reply_passes_iff_all_expectations_hold(
                    test.expect.http_status,
                    status_code,
                    body@,
                    test.expect@.response,
                    test.expect@.response_regex,
                );
            }
            test.duration = Some(elapsed);
            test.duration_ms = Some(elapsed_ms);
            test.outcome = Some(passed);
            if !passed {
                let mut parts: Vec<String> = Vec::new();
                if !status_matches {
                    let mut p = String::new();
                    push_str(&mut p, "    Status code mismatch:\n    Expected: ");
                    push_decimal(&mut p, test.expect.http_status as u64);
                    push_str(&mut p, "\n    Returned: ");
                    push_decimal(&mut p, status_code as u64);
                    parts.push(p);
                }
                if !literal_matches {
                    parts.push(mismatch_block("    Literal expectation mismatch:\n", literal_feedback));
                }
                if !regex_matches {
                    parts.push(mismatch_block("    Regex expectation mismatch:\n", regex_feedback));
                }
                parts.push(mismatch_block("    Actual response:\n", Some(body_pretty)));
                let f = join_with_newlines(&parts);
                assert(strings_view(parts@) =~= {
                    let status_part: Seq<Seq<char>> = if status_matches {
                        Seq::empty()
                    } else {
                        seq![
                            "    Status code mismatch:\n    Expected: "@ + decimal(test.expect.http_status as nat)
                                + "\n    Returned: "@ + decimal(status_code as nat),
                        ]
                    };
                    let literal_part: Seq<Seq<char>> = if literal.0 {
                        Seq::empty()
                    } else {
                        seq!["    Literal expectation mismatch:\n"@ + indent_block(text_or_empty(literal.1))]
                    };
                    let regex_part: Seq<Seq<char>> = if regex.0 {
                        Seq::empty()
                    } else {
                        seq!["    Regex expectation mismatch:\n"@ + indent_block(text_or_empty(regex.1))]
                    };
                    status_part + literal_part + regex_part + seq!["    Actual response:\n"@ + indent_block(body_pretty@)]
                });
                test.feedback = Some(f);
            }
            Ok(Some(body))
        },
    }
}

impl TestCase {
    /// Names the test `key` if it has no name.
    pub(crate) fn set_name_if_empty(&mut self, key: String)
        ensures
            final(self)@ == (CaseModel {
                name: if old(self)@.name.len() == 0 {
                    key@
                } else {
                    old(self)@.name
                },
                ..old(self)@
            }),
    {
        if self.name.as_str().is_empty() {
            self.name = key;
        }
    }

    /// Takes the feedback out of the test.
    pub(crate) fn take_feedback(&mut self) -> (r: Option<String>)
        ensures
            opt_text(r) == old(self)@.feedback,
            final(self)@.name == old(self)@.name,
    {
        self.feedback.take()
    }
}

} // verus!
