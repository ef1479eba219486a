//! Tasty runs API tests written as TOML tables: each test sends a JSON
//! request to a route and checks the status and the JSON body of the
//! response, literally or by regular expression. Tests can reference values
//! from the responses of earlier tests.
//!
//! This library holds the logic of a run: JSON values and their compact
//! text, dot-notation lookup, reference resolution, expectation checks, the
//! order of the tests in a file, and the bookkeeping of a run. The program
//! around it reads the files and sends the requests.

pub mod case;
pub mod files;
pub mod header;
pub mod json;
pub mod keys;
pub mod path;
pub mod pattern;
pub mod reference;
pub mod render;
pub mod store;
pub mod suite;
pub mod text;
pub mod validate;

pub use case::{
    base_url_or_default, begin_test_case, finish_test_case, CaseStep, ExpectConfig, Reply, RequestPlan, RunError,
    TestCase,
};
pub use json::{json_equals, JsonNumber, JsonValue};
pub use keys::extract_table_keys_order;
pub use path::get_nested_value;
pub use reference::{
    is_value_reference, resolve_payload_references, ResolveError, ValueReference,
};
pub use render::to_compact;
pub use store::ResponseStore;
pub use suite::{SuiteRun, TestResult, TestStats, TestStatus, TestSuiteResult};
pub use validate::{validate_response_literal, validate_response_regex};
