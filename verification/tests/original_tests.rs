use tasty::json::object_get;
use tasty::{
    get_nested_value, is_value_reference, json_equals, resolve_payload_references,
    validate_response_literal, validate_response_regex, JsonNumber, JsonValue, ResponseStore,
};

fn text(s: &str) -> JsonValue {
    JsonValue::String(s.to_string())
}

fn integer(n: i64) -> JsonValue {
    if n >= 0 {
        JsonValue::Number(JsonNumber::PosInt(n as u64))
    } else {
        JsonValue::Number(JsonNumber::NegInt(n))
    }
}

/// An object with its keys in order, as serde_json keeps them.
fn obj(entries: Vec<(&str, JsonValue)>) -> JsonValue {
    let mut entries: Vec<(String, JsonValue)> =
        entries.into_iter().map(|(k, v)| (k.to_string(), v)).collect();
    entries.sort_by(|a, b| a.0.cmp(&b.0));
    JsonValue::Object(entries)
}

fn table(entries: Vec<(&str, JsonValue)>) -> Vec<(String, JsonValue)> {
    match obj(entries) {
        JsonValue::Object(e) => e,
        _ => unreachable!(),
    }
}

fn is(found: Option<&JsonValue>, expected: &JsonValue) -> bool {
    found.map_or(false, |v| json_equals(v, expected))
}

#[test]
fn test_get_nested_value() {
    let json = obj(vec![
        (
            "user",
            obj(vec![
                ("profile", obj(vec![("name", text("John")), ("age", integer(30))])),
                ("id", integer(123)),
            ]),
        ),
        ("token", text("abc123")),
    ]);

    // Test simple key access
    assert!(is(get_nested_value(&json, "token"), &text("abc123")));

    // Test nested key access
    assert!(is(get_nested_value(&json, "user.id"), &integer(123)));
    assert!(is(get_nested_value(&json, "user.profile.name"), &text("John")));
    assert!(is(get_nested_value(&json, "user.profile.age"), &integer(30)));

    // Test non-existent key
    assert!(get_nested_value(&json, "nonexistent").is_none());
    assert!(get_nested_value(&json, "user.nonexistent").is_none());
}

#[test]
fn test_validate_response_literal() {
    let response = obj(vec![
        ("status", text("ok")),
        ("code", integer(200)),
        ("data", obj(vec![("id", integer(1)), ("name", text("Test"))])),
    ]);

    // Test matching values
    let expected = table(vec![("status", text("ok"))]);
    let (matches, feedback) = validate_response_literal(&response, &expected);
    assert!(matches, "Should match: {:?}", feedback);

    // Test non-matching values
    let expected = table(vec![("status", text("error"))]);
    let (matches, feedback) = validate_response_literal(&response, &expected);
    assert!(!matches, "Should not match");
    assert!(feedback.is_some());

    // Test nested access with dot notation
    let expected = table(vec![("data.id", integer(1))]);
    let (matches, feedback) = validate_response_literal(&response, &expected);
    assert!(matches, "Should match nested: {:?}", feedback);
}

#[test]
fn test_validate_response_regex() {
    let response = obj(vec![
        ("token", text("eyJhbGciOiJIUzI1NiIsInR5cCI6IkpXVCJ9")),
        ("user_id", integer(12345)),
        ("email", text("test@example.com")),
    ]);

    // Test matching regex patterns
    let patterns = table(vec![("token", text("[a-zA-Z0-9]+"))]);
    let (matches, feedback) = validate_response_regex(&response, &patterns);
    assert!(matches, "Should match regex: {:?}", feedback);

    // Test email regex
    let patterns = table(vec![("email", text(r".*@.*\..*"))]);
    let (matches, feedback) = validate_response_regex(&response, &patterns);
    assert!(matches, "Should match email regex: {:?}", feedback);

    // Test numeric regex
    let patterns = table(vec![("user_id", text(r"\d+"))]);
    let (matches, feedback) = validate_response_regex(&response, &patterns);
    assert!(matches, "Should match numeric regex: {:?}", feedback);

    // Test non-matching regex
    let patterns = table(vec![("token", text("^[0-9]+$"))]);
    let (matches, feedback) = validate_response_regex(&response, &patterns);
    assert!(!matches, "Should not match numeric-only regex");
    assert!(feedback.is_some());
}

#[test]
fn test_is_value_reference() {
    // Valid reference
    let valid_ref = obj(vec![("from", text("test_login")), ("property", text("response.token"))]);
    assert!(is_value_reference(&valid_ref));

    // Invalid - missing "from"
    let invalid1 = obj(vec![("property", text("response.token"))]);
    assert!(!is_value_reference(&invalid1));

    // Invalid - missing "property"
    let invalid2 = obj(vec![("from", text("test_login"))]);
    assert!(!is_value_reference(&invalid2));

    // Invalid - extra field
    let invalid3 = obj(vec![
        ("from", text("test_login")),
        ("property", text("response.token")),
        ("extra", text("field")),
    ]);
    assert!(!is_value_reference(&invalid3));

    // Invalid - not an object
    let invalid4 = text("just a string");
    assert!(!is_value_reference(&invalid4));
}

#[test]
fn test_resolve_payload_references() -> Result<(), String> {
    let mut responses = ResponseStore::new();
    responses.insert(
        "test_login".to_string(),
        obj(vec![("access_token", text("secret_token_123")), ("user", obj(vec![("id", integer(42))]))]),
    );

    // Test simple reference
    let mut payload = obj(vec![(
        "auth_token",
        obj(vec![("from", text("test_login")), ("property", text("access_token"))]),
    )]);
    resolve_payload_references(&mut payload, &responses).map_err(|e| e.message())?;
    let entries = match &payload {
        JsonValue::Object(e) => e,
        _ => panic!("payload is not an object"),
    };
    assert!(is(object_get(entries, "auth_token"), &text("secret_token_123")));

    // Test nested reference
    let mut payload = obj(vec![(
        "user_id",
        obj(vec![("from", text("test_login")), ("property", text("user.id"))]),
    )]);
    resolve_payload_references(&mut payload, &responses).map_err(|e| e.message())?;
    assert!(is(payload.get("user_id"), &integer(42)));

    // Test missing reference
    let mut payload = obj(vec![(
        "token",
        obj(vec![("from", text("nonexistent")), ("property", text("token"))]),
    )]);
    let result = resolve_payload_references(&mut payload, &responses);
    assert!(result.is_err());

    Ok(())
}
