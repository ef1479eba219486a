use std::time::Duration;

use tasty::files::{is_absolute_folder, is_toml_file, tests_folder, toml_file_name};
use tasty::header::{parse_header, HeaderError};
use tasty::reference::ResolveError;
use tasty::suite::no_test_files_result;
use tasty::validate::regex_verdict;
use tasty::{
    base_url_or_default, begin_test_case, extract_table_keys_order, finish_test_case, get_nested_value,
    is_value_reference, json_equals, resolve_payload_references, to_compact,
    validate_response_literal, validate_response_regex, CaseStep, ExpectConfig, JsonNumber,
    JsonValue, Reply, ResponseStore, SuiteRun, TestCase, TestStats, TestStatus,
};

fn text(s: &str) -> JsonValue {
    JsonValue::String(s.to_string())
}

fn integer(n: i64) -> JsonValue {
    if n >= 0 {
        JsonValue::Number(JsonNumber::PosInt(n as u64))
    } else {
        JsonValue::Number(JsonNumber::NegInt(n))
    }
}

fn float(f: f64, shown: &str) -> JsonValue {
    JsonValue::Number(JsonNumber::Float { bits: f.to_bits(), text: shown.to_string() })
}

fn obj(entries: Vec<(&str, JsonValue)>) -> JsonValue {
    let mut entries: Vec<(String, JsonValue)> =
        entries.into_iter().map(|(k, v)| (k.to_string(), v)).collect();
    entries.sort_by(|a, b| a.0.cmp(&b.0));
    JsonValue::Object(entries)
}

fn table(entries: Vec<(&str, JsonValue)>) -> Vec<(String, JsonValue)> {
    match obj(entries) {
        JsonValue::Object(e) => e,
        _ => unreachable!(),
    }
}

fn reference(from: &str, property: &str) -> JsonValue {
    obj(vec![("from", text(from)), ("property", text(property))])
}

fn is(found: Option<&JsonValue>, expected: &JsonValue) -> bool {
    found.map_or(false, |v| json_equals(v, expected))
}

fn expect(status: u16) -> ExpectConfig {
    ExpectConfig { http_status: status, response: None, response_regex: None, headers: None }
}

fn case(method: &str, route: &str, payload: JsonValue, expect: ExpectConfig) -> TestCase {
    TestCase::new(String::new(), method.to_string(), route.to_string(), payload, expect)
}

#[test]
fn compact_text_matches_serde_json_layout() {
    let v = obj(vec![
        ("a", JsonValue::Array(vec![integer(1), integer(-2), text("x\"\n\u{1}\\")])),
        ("b", JsonValue::Null),
        ("c", JsonValue::Bool(true)),
        ("d", float(1.5, "1.5")),
        ("e", JsonValue::Object(vec![])),
        ("f", JsonValue::Array(vec![])),
    ]);
    assert_eq!(
        to_compact(&v),
        "{\"a\":[1,-2,\"x\\\"\\n\\u0001\\\\\"],\"b\":null,\"c\":true,\"d\":1.5,\"e\":{},\"f\":[]}"
    );
    assert_eq!(to_compact(&integer(i64::MIN)), "-9223372036854775808");
    assert_eq!(to_compact(&JsonValue::Number(JsonNumber::PosInt(u64::MAX))), "18446744073709551615");
    assert_eq!(to_compact(&text("tab\there\u{8}\u{c}\r")), "\"tab\\there\\b\\f\\r\"");
}

#[test]
fn number_equality_follows_serde_json() {
    assert!(json_equals(&float(0.0, "0.0"), &float(-0.0, "-0.0")));
    assert!(!json_equals(&float(1.0, "1.0"), &integer(1)));
    assert!(json_equals(&integer(-3), &integer(-3)));
    assert!(!json_equals(&obj(vec![("a", integer(1))]), &obj(vec![("a", integer(2))])));
    assert!(json_equals(
        &obj(vec![("a", JsonValue::Array(vec![text("x")]))]),
        &obj(vec![("a", JsonValue::Array(vec![text("x")]))])
    ));
}

#[test]
fn nested_lookup_composes_over_dots() {
    let json = obj(vec![("user", obj(vec![("profile", obj(vec![("name", text("John"))]))]))]);
    let inner = get_nested_value(&json, "user.profile").unwrap();
    assert!(is(get_nested_value(inner, "name"), &text("John")));
    assert!(is(get_nested_value(&json, "user.profile.name"), &text("John")));
    assert!(get_nested_value(&json, "user.profile.name.first").is_none());
    assert!(get_nested_value(&json, "user.").is_none());
    let with_empty_key = obj(vec![("", integer(7))]);
    assert!(is(get_nested_value(&with_empty_key, ""), &integer(7)));
    let arr = JsonValue::Array(vec![integer(1)]);
    assert!(get_nested_value(&arr, "0").is_none());
}

#[test]
fn store_reads_back_what_was_written() {
    let mut store = ResponseStore::new();
    assert!(store.get("a").is_none());
    store.insert("a".to_string(), integer(1));
    store.insert("b".to_string(), integer(2));
    store.insert("a".to_string(), integer(3));
    assert!(is(store.get("a"), &integer(3)));
    assert!(is(store.get("b"), &integer(2)));
    assert!(store.get("c").is_none());
}

#[test]
fn literal_feedback_texts() {
    let response = obj(vec![("status", text("ok")), ("data", obj(vec![("id", integer(1))]))]);
    let expected = table(vec![("status", text("error")), ("missing", integer(1)), ("data.id", integer(1))]);
    let (matches, feedback) = validate_response_literal(&response, &expected);
    assert!(!matches);
    assert_eq!(
        feedback.unwrap(),
        "Key 'missing': expected '1', but key not found in response\nKey 'status': expected '\"error\"', got '\"ok\"'"
    );
    let (matches, feedback) = validate_response_literal(&response, &vec![]);
    assert!(matches);
    assert!(feedback.is_none());
}

#[test]
fn literal_expectations_combine_by_conjunction() {
    let response = obj(vec![("a", integer(1)), ("b", integer(2))]);
    let good = table(vec![("a", integer(1))]);
    let bad = table(vec![("b", integer(3))]);
    let both: Vec<(String, JsonValue)> = good.iter().chain(bad.iter()).map(|(k, v)| (k.clone(), v.deep_copy())).collect();
    assert!(validate_response_literal(&response, &good).0);
    assert!(!validate_response_literal(&response, &bad).0);
    assert!(!validate_response_literal(&response, &both).0);
}

#[test]
fn regex_feedback_texts() {
    let response = obj(vec![
        ("token", text("abc")),
        ("id", integer(12345)),
        ("obj", obj(vec![("a", integer(1))])),
        ("flag", JsonValue::Bool(false)),
        ("nothing", JsonValue::Null),
    ]);
    assert!(validate_response_regex(&response, &table(vec![("id", text("^12345$"))])).0);
    assert!(validate_response_regex(&response, &table(vec![("obj", text("^\\{\"a\":1\\}$"))])).0);
    assert!(validate_response_regex(&response, &table(vec![("flag", text("^false$"))])).0);
    assert!(validate_response_regex(&response, &table(vec![("nothing", text("^null$"))])).0);

    let (ok, feedback) = validate_response_regex(&response, &table(vec![("token", integer(5))]));
    assert!(!ok);
    assert_eq!(feedback.unwrap(), "Regex pattern for key 'token' must be a string");

    let (ok, feedback) = validate_response_regex(&response, &table(vec![("token", text("("))]));
    assert!(!ok);
    assert!(feedback.unwrap().starts_with("Invalid regex pattern for key 'token': "));

    let (ok, feedback) = validate_response_regex(&response, &table(vec![("token", text("^x$"))]));
    assert!(!ok);
    assert_eq!(feedback.unwrap(), "Key 'token': value 'abc' does not match pattern '^x$'");

    let (ok, feedback) = validate_response_regex(&response, &table(vec![("gone", text("a"))]));
    assert!(!ok);
    assert_eq!(
        feedback.unwrap(),
        "Key 'gone': expected to match pattern 'a', but key not found in response"
    );
}

#[test]
fn resolution_walks_arrays_and_keeps_other_values() {
    let mut store = ResponseStore::new();
    store.insert("login".to_string(), obj(vec![("token", text("t0k"))]));
    let mut payload = obj(vec![
        ("list", JsonValue::Array(vec![obj(vec![("auth", reference("login", "token"))]), integer(5)])),
        ("plain", text("x")),
    ]);
    resolve_payload_references(&mut payload, &store).unwrap();
    let expected = obj(vec![
        ("list", JsonValue::Array(vec![obj(vec![("auth", text("t0k"))]), integer(5)])),
        ("plain", text("x")),
    ]);
    assert!(json_equals(&payload, &expected));

    let untouched = obj(vec![("a", JsonValue::Array(vec![integer(1), obj(vec![("b", JsonValue::Null)])]))]);
    let mut copy = untouched.deep_copy();
    resolve_payload_references(&mut copy, &ResponseStore::new()).unwrap();
    assert!(json_equals(&copy, &untouched));
}

#[test]
fn resolution_errors_keep_what_was_resolved_before() {
    let mut store = ResponseStore::new();
    store.insert("login".to_string(), obj(vec![("token", text("t0k"))]));

    let original = obj(vec![
        ("a", reference("login", "token")),
        ("b", reference("login", "user.id")),
        ("c", reference("login", "token")),
    ]);
    let mut payload = original.deep_copy();
    let err = resolve_payload_references(&mut payload, &store).unwrap_err();
    assert_eq!(err.message(), "Property path 'user.id' not found in response from test 'login'");
    let partial = obj(vec![
        ("a", text("t0k")),
        ("b", reference("login", "user.id")),
        ("c", reference("login", "token")),
    ]);
    assert!(json_equals(&payload, &partial));

    let mut payload = obj(vec![(
        "n",
        JsonValue::Array(vec![reference("login", "token"), obj(vec![("x", reference("gone", "p"))]), reference("login", "token")]),
    )]);
    assert!(resolve_payload_references(&mut payload, &store).is_err());
    let partial = obj(vec![(
        "n",
        JsonValue::Array(vec![text("t0k"), obj(vec![("x", reference("gone", "p"))]), reference("login", "token")]),
    )]);
    assert!(json_equals(&payload, &partial));

    let mut payload = obj(vec![("a", obj(vec![("from", integer(1)), ("property", text("p"))]))]);
    let err = resolve_payload_references(&mut payload, &store).unwrap_err();
    assert!(matches!(err, ResolveError::InvalidFrom));
    assert_eq!(err.message(), "Invalid 'from' field in reference");

    let mut payload = obj(vec![("a", obj(vec![("from", text("login")), ("property", JsonValue::Null)]))]);
    let err = resolve_payload_references(&mut payload, &store).unwrap_err();
    assert_eq!(err.message(), "Invalid 'property' field in reference");

    let mut payload = obj(vec![("a", reference("nope", "x"))]);
    let err = resolve_payload_references(&mut payload, &store).unwrap_err();
    assert_eq!(
        err.message(),
        "Referenced test 'nope' not found. Make sure the test exists and ran successfully before this test."
    );
    assert!(is_value_reference(&reference("nope", "x")));
}

#[test]
fn table_keys_come_in_file_order() {
    let content = "[b_first]\nmethod = \"GET\"\n  [a_second]  \r\n[[array]]\n[c.d]\n[x]y\n[]\n[q]";
    assert_eq!(extract_table_keys_order(content), vec!["b_first", "a_second", "c.d", "", "q"]);
    assert!(extract_table_keys_order("").is_empty());
}

#[test]
fn headers_split_at_the_first_colon() {
    assert_eq!(
        parse_header("Authorization: Bearer mytoken").ok(),
        Some(("Authorization".to_string(), "Bearer mytoken".to_string()))
    );
    assert_eq!(parse_header(" X-Api-Key :a:b ").ok(), Some(("X-Api-Key".to_string(), "a:b".to_string())));
    assert!(matches!(parse_header("novalue"), Err(HeaderError::MissingColon)));
    assert!(matches!(parse_header("  : v"), Err(HeaderError::EmptyName)));
}

#[test]
fn test_file_names() {
    assert_eq!(tests_folder(None), "api_tests");
    assert_eq!(tests_folder(Some("examples".to_string())), "examples");
    assert_eq!(tests_folder(Some("/abs/tests".to_string())), "/abs/tests");
    assert!(is_absolute_folder("/abs/tests"));
    assert!(!is_absolute_folder("examples"));
    assert!(!is_absolute_folder(""));
    assert!(is_toml_file("login.toml"));
    assert!(is_toml_file("a.b.toml"));
    assert!(!is_toml_file(".toml"));
    assert!(!is_toml_file("login.tomlx"));
    assert!(!is_toml_file("toml"));
    assert_eq!(toml_file_name("user_auth"), "user_auth.toml");
}

#[test]
fn begin_checks_method_and_references() {
    let store = ResponseStore::new();

    let mut t = case("FOO", "api", JsonValue::Null, expect(200));
    assert!(matches!(begin_test_case(&mut t, "http://h", &store), CaseStep::Decided));
    assert_eq!(t.outcome(), Some(false));
    assert_eq!(t.feedback().unwrap(), "Invalid HTTP method: FOO");

    let mut t = case("GET", "api/x", obj(vec![("a", integer(1))]), expect(200));
    match begin_test_case(&mut t, "http://h//", &store) {
        CaseStep::Send(plan) => {
            assert_eq!(plan.url, "http://h/api/x");
            assert_eq!(plan.method, "GET");
            assert!(json_equals(&plan.payload, &obj(vec![("a", integer(1))])));
        }
        _ => panic!("expected a request"),
    }
    assert_eq!(t.outcome(), None);

    for method in ["GET X", "GETX", "get", "OPTIONS", "XPOST"] {
        let mut t = case(method, "api", JsonValue::Null, expect(200));
        assert!(matches!(begin_test_case(&mut t, "http://h", &store), CaseStep::Decided));
        assert_eq!(t.outcome(), Some(false));
        assert_eq!(t.feedback().unwrap(), &format!("Invalid HTTP method: {}", method));
    }
    for method in ["POST", "GET", "PUT", "PATCH", "DELETE"] {
        let mut t = case(method, "api", JsonValue::Null, expect(200));
        assert!(matches!(begin_test_case(&mut t, "http://h", &store), CaseStep::Send(_)));
        assert_eq!(t.outcome(), None);
    }

    let mut t = case("POST", "api", obj(vec![("token", reference("nope", "token"))]), expect(200));
    assert!(matches!(begin_test_case(&mut t, "http://h", &store), CaseStep::Decided));
    assert_eq!(t.outcome(), Some(false));
    assert_eq!(
        t.feedback().unwrap(),
        "    Reference resolution failed:\n    Referenced test 'nope' not found. Make sure the test exists and ran successfully before this test."
    );
}

#[test]
fn finish_records_the_reply() {
    let body = obj(vec![("a", integer(1))]);
    let pretty = "{\n  \"a\": 1\n}".to_string();

    let mut t = case("GET", "api", JsonValue::Null, expect(200));
    let reply = Reply::Received {
        status_code: 200,
        body: body.deep_copy(),
        body_pretty: pretty.clone(),
        elapsed: Duration::from_millis(12),
        elapsed_ms: 12,
    };
    let got = finish_test_case(&mut t, reply).ok().unwrap().unwrap();
    assert!(json_equals(&got, &body));
    assert_eq!(t.outcome(), Some(true));
    assert_eq!(t.duration(), Some(Duration::from_millis(12)));
    assert_eq!(t.duration_ms(), Some(12));
    assert!(t.feedback().is_none());

    let mut t = case(
        "GET",
        "api",
        JsonValue::Null,
        ExpectConfig {
            http_status: 200,
            response: Some(table(vec![("a", integer(2))])),
            response_regex: Some(table(vec![("a", text("^1$"))])),
            headers: None,
        },
    );
    let reply = Reply::Received {
        status_code: 404,
        body: body.deep_copy(),
        body_pretty: pretty.clone(),
        elapsed: Duration::from_millis(3),
        elapsed_ms: 3,
    };
    assert!(finish_test_case(&mut t, reply).is_ok());
    assert_eq!(t.outcome(), Some(false));
    assert_eq!(
        t.feedback().unwrap(),
        "    Status code mismatch:\n    Expected: 200\n    Returned: 404\n    Literal expectation mismatch:\n      Key 'a': expected '2', got '1'\n    Actual response:\n      {\n        \"a\": 1\n      }"
    );

    let mut t = case("GET", "api", JsonValue::Null, expect(200));
    let err = finish_test_case(&mut t, Reply::SendFailed { error: "boom".to_string() }).err().unwrap();
    assert_eq!(err.message(), "boom");
    assert_eq!(t.outcome(), Some(false));
    assert_eq!(t.feedback().unwrap(), "Request failed: boom");

    let mut t = case("GET", "api", JsonValue::Null, expect(200));
    let reply = Reply::BodyUnreadable { status: "200 OK".to_string(), error: "bad json".to_string() };
    assert!(finish_test_case(&mut t, reply).ok().unwrap().is_none());
    assert_eq!(t.outcome(), Some(false));
    assert_eq!(t.feedback().unwrap(), "    HTTP Response: 200 OK\n      Error: bad json");
}

#[test]
fn a_run_counts_and_keeps_passed_responses() {
    let mut run = SuiteRun::new();

    let t = run.start_case("first".to_string(), case("GET", "a", JsonValue::Null, expect(200)));
    assert_eq!(t.name(), "first");
    let mut t = t;
    let reply = Reply::Received {
        status_code: 200,
        body: obj(vec![("token", text("x"))]),
        body_pretty: String::new(),
        elapsed: Duration::from_millis(1500),
        elapsed_ms: 1500,
    };
    let outcome = finish_test_case(&mut t, reply);
    assert_eq!(run.record_case(t, outcome, 3), TestStatus::Passed);

    let mut named = case("GET", "b", JsonValue::Null, expect(201));
    named.name = "given".to_string();
    let mut t = run.start_case("key".to_string(), named);
    assert_eq!(t.name(), "given");
    let reply = Reply::Received {
        status_code: 200,
        body: obj(vec![("token", text("y"))]),
        body_pretty: String::new(),
        elapsed: Duration::from_millis(1),
        elapsed_ms: 1,
    };
    let outcome = finish_test_case(&mut t, reply);
    assert_eq!(run.record_case(t, outcome, 3), TestStatus::Failed);

    let t = run.start_case("third".to_string(), case("GET", "c", JsonValue::Null, expect(200)));
    assert_eq!(run.record_case(t, Ok(None), 3), TestStatus::Skipped);

    assert!(is(run.responses().get("first"), &obj(vec![("token", text("x"))])));
    assert!(run.responses().get("given").is_none());

    let stats = run.stats();
    assert_eq!((stats.total, stats.passed, stats.failed, stats.skipped), (3, 1, 1, 1));
    let results = run.results();
    assert_eq!(results.len(), 3);
    assert_eq!(results[0].duration_ms, Some(1500));
    assert_eq!(results[1].status, TestStatus::Failed);
    assert!(results[1].feedback.as_ref().unwrap().starts_with("    Status code mismatch:"));
    assert_eq!(results[2].status, TestStatus::Skipped);

    let summary = run.finish(Duration::from_millis(7));
    assert!(!summary.success);
    assert_eq!(summary.results.len(), summary.stats.total);
    assert_eq!(summary.stats.total, summary.stats.passed + summary.stats.failed + summary.stats.skipped);
    assert_eq!(summary.stats.total_duration, Duration::from_millis(7));
}

#[test]
fn an_error_stops_the_file_and_skips_the_rest() {
    let mut run = SuiteRun::new();
    let mut t = run.start_case("one".to_string(), case("GET", "a", JsonValue::Null, expect(200)));
    let outcome = finish_test_case(&mut t, Reply::SendFailed { error: "refused".to_string() });
    assert!(!run.stopped());
    assert_eq!(run.record_case(t, outcome, 4), TestStatus::Error);
    assert!(run.stopped());
    let stats = run.stats();
    assert_eq!((stats.total, stats.failed, stats.skipped), (1, 1, 3));
    assert!(run.results().is_empty());
    assert!(!run.finish(Duration::ZERO).success);
}

#[test]
fn a_run_without_failures_succeeds() {
    let mut run = SuiteRun::new();
    let t = run.start_case("only".to_string(), case("GET", "a", JsonValue::Null, expect(200)));
    assert_eq!(run.record_case(t, Ok(None), 1), TestStatus::Skipped);
    assert!(!run.stopped());
    assert!(run.finish(Duration::ZERO).success);
    assert!(!no_test_files_result().success);
    let stats = TestStats::default();
    assert_eq!(stats.total_duration, Duration::ZERO);
    assert_eq!((stats.total, stats.passed, stats.failed, stats.skipped), (0, 0, 0, 0));
}

#[test]
fn regex_verdict_reports_each_outcome() {
    let v = JsonValue::Bool(true);
    assert_eq!(
        regex_verdict("k", "^x$", None, Some(&v), false).unwrap(),
        "Key 'k': value 'true' does not match pattern '^x$'"
    );
    assert!(regex_verdict("k", "^x$", None, Some(&v), true).is_none());
    assert_eq!(
        regex_verdict("k", "(", Some("bad group".to_string()), Some(&v), false).unwrap(),
        "Invalid regex pattern for key 'k': bad group"
    );
    assert_eq!(
        regex_verdict("k", "a", None, None, false).unwrap(),
        "Key 'k': expected to match pattern 'a', but key not found in response"
    );
    let nested = obj(vec![("a", JsonValue::Array(vec![integer(1), text("x")]))]);
    assert_eq!(
        regex_verdict("n", "^y$", None, Some(&nested), false).unwrap(),
        "Key 'n': value '{\"a\":[1,\"x\"]}' does not match pattern '^y$'"
    );
}

#[test]
fn a_reference_reads_the_stored_response() {
    let mut store = ResponseStore::new();
    store.insert("login".to_string(), obj(vec![("user", obj(vec![("id", integer(42))]))]));
    let mut payload = obj(vec![("uid", reference("login", "user.id"))]);
    resolve_payload_references(&mut payload, &store).unwrap();
    assert!(json_equals(&payload, &obj(vec![("uid", integer(42))])));
    store.insert("login".to_string(), obj(vec![("user", obj(vec![("id", integer(7))]))]));
    let mut payload = obj(vec![("uid", reference("login", "user.id"))]);
    resolve_payload_references(&mut payload, &store).unwrap();
    assert!(json_equals(&payload, &obj(vec![("uid", integer(7))])));
}

#[test]
fn base_url_defaults_to_localhost() {
    assert_eq!(base_url_or_default(None), "http://127.0.0.1:3030");
    assert_eq!(base_url_or_default(Some("https://api.example.com".to_string())), "https://api.example.com");
}

#[test]
fn references_inside_arrays_are_resolved() {
    let mut store = ResponseStore::new();
    store.insert(
        "test_login".to_string(),
        obj(vec![("access_token", text("secret_token_123")), ("user", obj(vec![("id", integer(42))]))]),
    );
    let mut payload = obj(vec![(
        "ids",
        JsonValue::Array(vec![reference("test_login", "user.id"), integer(1), JsonValue::Array(vec![reference("test_login", "access_token")])]),
    )]);
    resolve_payload_references(&mut payload, &store).unwrap();
    let expected = obj(vec![(
        "ids",
        JsonValue::Array(vec![integer(42), integer(1), JsonValue::Array(vec![text("secret_token_123")])]),
    )]);
    assert!(json_equals(&payload, &expected));

    let mut payload = obj(vec![("ids", JsonValue::Array(vec![reference("nope", "x")]))]);
    let err = resolve_payload_references(&mut payload, &store).unwrap_err();
    assert!(matches!(err, ResolveError::TestNotFound { .. }));
}

#[test]
fn a_comment_after_a_table_header_is_left_off() {
    assert_eq!(extract_table_keys_order("[t1] # login test\nx = 1\n"), vec!["t1"]);
    assert_eq!(extract_table_keys_order("[a]# c [x]\n# [b]\n  [c]   #\n"), vec!["a", "c"]);
}

#[test]
fn objects_compare_as_maps() {
    let ab = JsonValue::Object(vec![("a".to_string(), integer(1)), ("b".to_string(), text("x"))]);
    let ba = JsonValue::Object(vec![("b".to_string(), text("x")), ("a".to_string(), integer(1))]);
    assert!(json_equals(&ab, &ba));
    let a = JsonValue::Object(vec![("a".to_string(), integer(1))]);
    assert!(!json_equals(&ab, &a));
    assert!(!json_equals(&a, &ab));
    let ac = JsonValue::Object(vec![("a".to_string(), integer(1)), ("c".to_string(), text("x"))]);
    assert!(!json_equals(&ab, &ac));
}
