use vstd::prelude::*;

use crate::json::{
    entries_view, entry_lookup, items_view, json_get, json_wf, key_lt, lemma_entries_wf, lemma_entry_lookup_found,
    lemma_items_wf, object_get,
    Json, JsonValue,
};
use crate::path::{get_nested_value, lemma_nested_value_wf, lookup_keys, nested_value};
use crate::store::{lemma_lookup_none, ResponseStore};
use crate::text::{lemma_split_nonempty, push_str, split_on};

verus! {

broadcast use vstd::string::group_string_axioms;

/// The key that names the test a reference reads from.
pub open spec fn from_key() -> Seq<char> {
    seq!['f', 'r', 'o', 'm']
}

/// The key that holds the property path of a reference.
pub open spec fn property_key() -> Seq<char> {
    seq!['p', 'r', 'o', 'p', 'e', 'r', 't', 'y']
}

/// A reference object: an object with exactly two entries, `from` and
/// `property`.
pub open spec fn is_reference(v: Json) -> bool {
    match v {
        Json::Object(e) => {
            &&& entry_lookup(e, from_key()) is Some
            &&& entry_lookup(e, property_key()) is Some
            &&& e.len() == 2
        },
        _ => false,
    }
}

/// Represents a reference to a value from a previous test's response
#[derive(Debug)]
pub struct ValueReference {
    /// The name of the test to reference
    pub from: String,
    /// The property path to extract (e.g., "response.access_token")
    pub property: String,
}

/// Why a reference in a payload could not be resolved.
#[derive(Debug)]
pub enum ResolveError {
    /// The `from` entry of a reference is not a string.
    InvalidFrom,
    /// The `property` entry of a reference is not a string.
    InvalidProperty,
    /// No response is stored under the referenced test name.
    TestNotFound { from: String },
    /// The property path does not lead to a value in the referenced response.
    PropertyNotFound { property: String, from: String },
}

/// Model of [`ResolveError`].
pub enum RefError {
    InvalidFrom,
    InvalidProperty,
    TestNotFound(Seq<char>),
    PropertyNotFound(Seq<char>, Seq<char>),
}

impl View for ResolveError {
    type V = RefError;

    open spec fn view(&self) -> RefError {
        match self {
            ResolveError::InvalidFrom => RefError::InvalidFrom,
            ResolveError::InvalidProperty => RefError::InvalidProperty,
            ResolveError::TestNotFound { from } => RefError::TestNotFound(from@),
            ResolveError::PropertyNotFound { property, from } => RefError::PropertyNotFound(
                property@,
                from@,
            ),
        }
    }
}

/// The message that reports a resolution error.
pub open spec fn ref_error_text(e: RefError) -> Seq<char> {
    match e {
        RefError::InvalidFrom => "Invalid 'from' field in reference"@,
        RefError::InvalidProperty => "Invalid 'property' field in reference"@,
        RefError::TestNotFound(from) => "Referenced test '"@ + from
            + "' not found. Make sure the test exists and ran successfully before this test."@,
        RefError::PropertyNotFound(property, from) => "Property path '"@ + property
            + "' not found in response from test '"@ + from + "'"@,
    }
}

impl ResolveError {
    /// The message that reports this error.
    pub fn message(&self) -> (r: String)
        ensures
            r@ == ref_error_text(self@),
    {
        let mut s = String::new();
        match self {
            ResolveError::InvalidFrom => push_str(&mut s, "Invalid 'from' field in reference"),
            ResolveError::InvalidProperty => push_str(
                &mut s,
                "Invalid 'property' field in reference",
            ),
            ResolveError::TestNotFound { from } => {
                push_str(&mut s, "Referenced test '");
                push_str(&mut s, from.as_str());
                push_str(
                    &mut s,
                    "' not found. Make sure the test exists and ran successfully before this test.",
                );
            },
            ResolveError::PropertyNotFound { property, from } => {
                push_str(&mut s, "Property path '");
                push_str(&mut s, property.as_str());
                push_str(&mut s, "' not found in response from test '");
                push_str(&mut s, from.as_str());
                push_str(&mut s, "'");
            },
        }
        assert(s@ =~= ref_error_text(self@));
        s
    }
}

/// The `from` and `property` strings of a reference object.
pub open spec fn reference_parts(r: Json) -> Result<(Seq<char>, Seq<char>), RefError> {
    match json_get(r, from_key()) {
        Some(Json::Str(from)) => match json_get(r, property_key()) {
            Some(Json::Str(property)) => Ok((from, property)),
            _ => Err(RefError::InvalidProperty),
        },
        _ => Err(RefError::InvalidFrom),
    }
}

/// The value a reference object stands for, given the stored responses.
pub open spec fn resolve_reference(r: Json, responses: Map<Seq<char>, Json>) -> Result<Json, RefError> {
    match reference_parts(r) {
        Err(e) => Err(e),
        Ok((from, property)) => if !responses.contains_key(from) {
            Err(RefError::TestNotFound(from))
        } else {
            match nested_value(responses[from], property) {
                Some(x) => Ok(x),
                None => Err(RefError::PropertyNotFound(property, from)),
            }
        },
    }
}

/// A payload with every reference object that stands as the value of an
/// entry of an object, or as an element of an array, replaced by the value
/// it refers to. Entries and elements are resolved in order; the first
/// failure is the result. Other values stay as they are. A resolved value is
/// not resolved again.
pub open spec fn resolve_refs(v: Json, responses: Map<Seq<char>, Json>) -> Result<Json, RefError>
    decreases v, 0nat,
{
    match v {
        Json::Object(e) => match resolve_entries(e, responses) {
            Ok(e2) => Ok(Json::Object(e2)),
            Err(x) => Err(x),
        },
        Json::Array(items) => match resolve_items(items, responses) {
            Ok(items2) => Ok(Json::Array(items2)),
            Err(x) => Err(x),
        },
        _ => Ok(v),
    }
}

/// The entries of an object, each value resolved: a reference by what it
/// refers to, any other value by [`resolve_refs`].
pub open spec fn resolve_entries(e: Seq<(Seq<char>, Json)>, responses: Map<Seq<char>, Json>) -> Result<
    Seq<(Seq<char>, Json)>,
    RefError,
>
    decreases e, 1nat,
{
    if e.len() == 0 {
        Ok(Seq::empty())
    } else {
        let first = if is_reference(e[0].1) {
            resolve_reference(e[0].1, responses)
        } else {
            resolve_refs(e[0].1, responses)
        };
        match first {
            Err(x) => Err(x),
            Ok(y) => match resolve_entries(e.subrange(1, e.len() as int), responses) {
                Ok(rest) => Ok(seq![(e[0].0, y)] + rest),
                Err(x) => Err(x),
            },
        }
    }
}

/// The elements of an array, each resolved: a reference by what it refers
/// to, any other value by [`resolve_refs`].
pub open spec fn resolve_items(items: Seq<Json>, responses: Map<Seq<char>, Json>) -> Result<
    Seq<Json>,
    RefError,
>
    decreases items, 1nat,
{
    if items.len() == 0 {
        Ok(Seq::empty())
    } else {
        let first = if is_reference(items[0]) {
            resolve_reference(items[0], responses)
        } else {
            resolve_refs(items[0], responses)
        };
        match first {
            Err(x) => Err(x),
            Ok(y) => match resolve_items(items.subrange(1, items.len() as int), responses) {
                Ok(rest) => Ok(seq![y] + rest),
                Err(x) => Err(x),
            },
        }
    }
}

/// The first failure, as its model.
pub open spec fn err_view(e: Option<ResolveError>) -> Option<RefError> {
    match e {
        Some(x) => Some(x@),
        None => None,
    }
}

/// One value resolved in place: a reference by what it refers to (left as
/// it is when that fails), any other value by [`resolve_in_place`].
pub open spec fn place_one(x: Json, responses: Map<Seq<char>, Json>) -> (Json, Option<RefError>)
    decreases x, 1nat,
{
    if is_reference(x) {
        match resolve_reference(x, responses) {
            Ok(y) => (y, None),
            Err(e) => (x, Some(e)),
        }
    } else {
        resolve_in_place(x, responses)
    }
}

/// What resolving a payload in place leaves of it, and the first failure if
/// any. Entries and elements are resolved in order, each reference replaced
/// by what it refers to; the walk stops at the first failure, with what was
/// resolved before it replaced and what comes after it as it was.
pub open spec fn resolve_in_place(v: Json, responses: Map<Seq<char>, Json>) -> (Json, Option<RefError>)
    decreases v, 0nat,
{
    match v {
        Json::Object(e) => {
            let p = place_entries(e, responses);
            (Json::Object(p.0), p.1)
        },
        Json::Array(items) => {
            let p = place_items(items, responses);
            (Json::Array(p.0), p.1)
        },
        _ => (v, None),
    }
}

/// [`resolve_in_place`] on the entries of an object.
pub open spec fn place_entries(e: Seq<(Seq<char>, Json)>, responses: Map<Seq<char>, Json>) -> (
    Seq<(Seq<char>, Json)>,
    Option<RefError>,
)
    decreases e, 2nat,
{
    if e.len() == 0 {
        (Seq::empty(), None)
    } else {
        let first = place_one(e[0].1, responses);
        let rest = e.subrange(1, e.len() as int);
        match first.1 {
            Some(x) => (seq![(e[0].0, first.0)] + rest, Some(x)),
            None => {
                let p = place_entries(rest, responses);
                (seq![(e[0].0, first.0)] + p.0, p.1)
            },
        }
    }
}

/// [`resolve_in_place`] on the elements of an array.
pub open spec fn place_items(items: Seq<Json>, responses: Map<Seq<char>, Json>) -> (
    Seq<Json>,
    Option<RefError>,
)
    decreases items, 2nat,
{
    if items.len() == 0 {
        (Seq::empty(), None)
    } else {
        let first = place_one(items[0], responses);
        let rest = items.subrange(1, items.len() as int);
        match first.1 {
            Some(x) => (seq![first.0] + rest, Some(x)),
            None => {
                let p = place_items(rest, responses);
                (seq![first.0] + p.0, p.1)
            },
        }
    }
}

/// Resolving in place fails exactly where [`resolve_refs`] fails, with the
/// same error, and otherwise leaves what [`resolve_refs`] gives.
pub proof fn lemma_in_place_agrees(v: Json, responses: Map<Seq<char>, Json>)
    ensures
        match resolve_refs(v, responses) {
            Ok(w) => resolve_in_place(v, responses) == (w, None::<RefError>),
            Err(x) => resolve_in_place(v, responses).1 == Some(x),
        },
    decreases v, 0nat,
{
    match v {
        Json::Object(e) => lemma_place_entries_agrees(e, responses),
        Json::Array(items) => lemma_place_items_agrees(items, responses),
        _ => {},
    }
}

proof fn lemma_place_entries_agrees(e: Seq<(Seq<char>, Json)>, responses: Map<Seq<char>, Json>)
    ensures
        match resolve_entries(e, responses) {
            Ok(r) => place_entries(e, responses) == (r, None::<RefError>),
            Err(x) => place_entries(e, responses).1 == Some(x),
        },
    decreases e, 1nat,
{
    if e.len() > 0 {
        let rest = e.subrange(1, e.len() as int);
        if !is_reference(e[0].1) {
            lemma_in_place_agrees(e[0].1, responses);
        }
        lemma_place_entries_agrees(rest, responses);
        let first = place_one(e[0].1, responses);
        assert(place_entries(e, responses) == match first.1 {
            Some(x) => (seq![(e[0].0, first.0)] + rest, Some(x)),
            None => (seq![(e[0].0, first.0)] + place_entries(rest, responses).0, place_entries(rest, responses).1),
        });
    } else {
        assert(place_entries(e, responses) == (Seq::<(Seq<char>, Json)>::empty(), None::<RefError>));
    }
}

proof fn lemma_place_items_agrees(items: Seq<Json>, responses: Map<Seq<char>, Json>)
    ensures
        match resolve_items(items, responses) {
            Ok(r) => place_items(items, responses) == (r, None::<RefError>),
            Err(x) => place_items(items, responses).1 == Some(x),
        },
    decreases items, 1nat,
{
    if items.len() > 0 {
        let rest = items.subrange(1, items.len() as int);
        if !is_reference(items[0]) {
            lemma_in_place_agrees(items[0], responses);
        }
        lemma_place_items_agrees(rest, responses);
        let first = place_one(items[0], responses);
        assert(place_items(items, responses) == match first.1 {
            Some(x) => (seq![first.0] + rest, Some(x)),
            None => (seq![first.0] + place_items(rest, responses).0, place_items(rest, responses).1),
        });
    } else {
        assert(place_items(items, responses) == (Seq::<Json>::empty(), None::<RefError>));
    }
}

/// Checks if a value is a reference object (has "from" and "property" fields)
pub fn is_value_reference(value: &JsonValue) -> (r: bool)
    ensures
        r == is_reference(value@),
{
    proof {
        reveal_strlit("from");
        reveal_strlit("property");
        assert("from"@ =~= from_key());
        assert("property"@ =~= property_key());
    }
    match value {
        JsonValue::Object(e) => object_get(e, "from").is_some() && object_get(e, "property").is_some()
            && e.len() == 2,
        _ => false,
    }
}

/// The `from` and `property` strings of a reference object.
pub fn value_reference(value: &JsonValue) -> (r: Result<ValueReference, ResolveError>)
    ensures
        match r {
            Ok(v) => reference_parts(value@) == Ok::<(Seq<char>, Seq<char>), RefError>((v.from@, v.property@)),
            Err(e) => reference_parts(value@) == Err::<(Seq<char>, Seq<char>), RefError>(e@),
        },
{
    proof {
        reveal_strlit("from");
        reveal_strlit("property");
        assert("from"@ =~= from_key());
        assert("property"@ =~= property_key());
    }
    let from = match value.get("from") {
        Some(JsonValue::String(f)) => f.clone(),
        _ => {
            return Err(ResolveError::InvalidFrom);
        },
    };
    let property = match value.get("property") {
        Some(JsonValue::String(p)) => p.clone(),
        _ => {
            return Err(ResolveError::InvalidProperty);
        },
    };
    Ok(ValueReference { from, property })
}

/// The value that a reference object refers to, copied out of the stored
/// response.
pub fn resolve_value_reference(value: &JsonValue, responses: &ResponseStore) -> (r: Result<
    JsonValue,
    ResolveError,
>)
    ensures
        match r {
            Ok(v) => resolve_reference(value@, responses@) == Ok::<Json, RefError>(v@),
            Err(e) => resolve_reference(value@, responses@) == Err::<Json, RefError>(e@),
        },
{
    let reference = value_reference(value)?;
    let referenced = match responses.get(reference.from.as_str()) {
        Some(resp) => resp,
        None => {
            return Err(ResolveError::TestNotFound { from: reference.from });
        },
    };
    match get_nested_value(referenced, reference.property.as_str()) {
        Some(x) => Ok(x.deep_copy()),
        None => Err(ResolveError::PropertyNotFound { property: reference.property, from: reference.from }),
    }
}

/// One value resolved in place, as [`place_one`] gives it.
fn place_one_value(x: &JsonValue, responses: &ResponseStore) -> (r: (JsonValue, Option<ResolveError>))
    ensures
        (r.0@, err_view(r.1)) == place_one(x@, responses@),
    decreases x, 1nat,
{
    if is_value_reference(x) {
        match resolve_value_reference(x, responses) {
            Ok(y) => (y, None),
            Err(e) => (x.deep_copy(), Some(e)),
        }
    } else {
        resolve_in_place_value(x, responses)
    }
}

/// The payload `value` resolved in place, as [`resolve_in_place`] gives it,
/// with the first failure if any.
pub fn resolve_in_place_value(value: &JsonValue, responses: &ResponseStore) -> (r: (JsonValue, Option<ResolveError>))
    ensures
        (r.0@, err_view(r.1)) == resolve_in_place(value@, responses@),
    decreases value, 0nat,
{
    match value {
        JsonValue::Object(xs) => {
            let ghost xv = entries_view(xs@);
            let ghost m = responses@;
            let mut out: Vec<(String, JsonValue)> = Vec::new();
            let mut i: usize = 0;
            assert(xv.subrange(0, xv.len() as int) =~= xv);
            assert(entries_view(out@) + place_entries(xv, m).0 =~= place_entries(xv, m).0);
            while i < xs.len()
                invariant
                    *value == JsonValue::Object(*xs),
                    xv == entries_view(xs@),
                    m == responses@,
                    0 <= i <= xs.len(),
                    place_entries(xv, m) == (
                        entries_view(out@) + place_entries(xv.subrange(i as int, xv.len() as int), m).0,
                        place_entries(xv.subrange(i as int, xv.len() as int), m).1,
                    ),
                decreases xs.len() - i,
            {
                proof {
                    vstd::std_specs::vec::axiom_vec_index_decreases(*xs, i as int);
                    assert(decreases_to!(*value => (*value)->Object_0));
                    assert(decreases_to!(xs@[i as int] => xs@[i as int].1));
                    assert(decreases_to!(*value => xs@[i as int].1));
                }
                let ghost rest = xv.subrange(i as int, xv.len() as int);
                let ghost tail = xv.subrange(i + 1, xv.len() as int);
                assert(rest[0] == xv[i as int]);
                assert(rest.subrange(1, rest.len() as int) =~= tail);
                let (y, err) = place_one_value(&xs[i].1, responses);
                let ghost yv = y@;
                let ghost before = entries_view(out@);
                out.push((xs[i].0.clone(), y));
                assert(entries_view(out@) =~= before + seq![(xv[i as int].0, yv)]);
                match err {
                    Some(e) => {
                        let mut j: usize = i + 1;
                        while j < xs.len()
                            invariant
                                *value == JsonValue::Object(*xs),
                                xv == entries_view(xs@),
                                i < j <= xs.len(),
                                entries_view(out@) == before + seq![(xv[i as int].0, yv)] + xv.subrange(
                                    i + 1,
                                    j as int,
                                ),
                            decreases xs.len() - j,
                        {
                            let ghost o = entries_view(out@);
                            out.push((xs[j].0.clone(), xs[j].1.deep_copy()));
                            assert(entries_view(out@) =~= o.push(xv[j as int]));
                            assert(xv.subrange(i + 1, j + 1) =~= xv.subrange(i + 1, j as int).push(xv[j as int]));
                            j = j + 1;
                        }
                        assert(xv.subrange(i + 1, j as int) =~= tail);
                        assert(entries_view(out@) =~= before + (seq![(xv[i as int].0, yv)] + tail));
                        return (JsonValue::Object(out), Some(e));
                    },
                    None => {
                        assert(before + place_entries(rest, m).0 =~= entries_view(out@) + place_entries(tail, m).0);
                    },
                }
                i = i + 1;
            }
            assert(xv.subrange(i as int, xv.len() as int) =~= Seq::<(Seq<char>, Json)>::empty());
            assert(entries_view(out@) + Seq::<(Seq<char>, Json)>::empty() =~= entries_view(out@));
            (JsonValue::Object(out), None)
        },
        JsonValue::Array(xs) => {
            let ghost xv = items_view(xs@);
            let ghost m = responses@;
            let mut out: Vec<JsonValue> = Vec::new();
            let mut i: usize = 0;
            assert(xv.subrange(0, xv.len() as int) =~= xv);
            assert(items_view(out@) + place_items(xv, m).0 =~= place_items(xv, m).0);
            while i < xs.len()
                invariant
                    *value == JsonValue::Array(*xs),
                    xv == items_view(xs@),
                    m == responses@,
                    0 <= i <= xs.len(),
                    place_items(xv, m) == (
                        items_view(out@) + place_items(xv.subrange(i as int, xv.len() as int), m).0,
                        place_items(xv.subrange(i as int, xv.len() as int), m).1,
                    ),
                decreases xs.len() - i,
            {
                proof {
                    vstd::std_specs::vec::axiom_vec_index_decreases(*xs, i as int);
                    assert(decreases_to!(*value => (*value)->Array_0));
                    assert(decreases_to!(*value => xs@[i as int]));
                }
                let ghost rest = xv.subrange(i as int, xv.len() as int);
                let ghost tail = xv.subrange(i + 1, xv.len() as int);
                assert(rest[0] == xv[i as int]);
                assert(rest.subrange(1, rest.len() as int) =~= tail);
                let (y, err) = place_one_value(&xs[i], responses);
                let ghost yv = y@;
                let ghost before = items_view(out@);
                out.push(y);
                assert(items_view(out@) =~= before + seq![yv]);
                match err {
                    Some(e) => {
                        let mut j: usize = i + 1;
                        while j < xs.len()
                            invariant
                                *value == JsonValue::Array(*xs),
                                xv == items_view(xs@),
                                i < j <= xs.len(),
                                items_view(out@) == before + seq![yv] + xv.subrange(i + 1, j as int),
                            decreases xs.len() - j,
                        {
                            let ghost o = items_view(out@);
                            out.push(xs[j].deep_copy());
                            assert(items_view(out@) =~= o.push(xv[j as int]));
                            assert(xv.subrange(i + 1, j + 1) =~= xv.subrange(i + 1, j as int).push(xv[j as int]));
                            j = j + 1;
                        }
                        assert(xv.subrange(i + 1, j as int) =~= tail);
                        assert(items_view(out@) =~= before + (seq![yv] + tail));
                        return (JsonValue::Array(out), Some(e));
                    },
                    None => {
                        assert(before + place_items(rest, m).0 =~= items_view(out@) + place_items(tail, m).0);
                    },
                }
                i = i + 1;
            }
            assert(xv.subrange(i as int, xv.len() as int) =~= Seq::<Json>::empty());
            assert(items_view(out@) + Seq::<Json>::empty() =~= items_view(out@));
            (JsonValue::Array(out), None)
        },
        _ => (value.deep_copy(), None),
    }
}

/// The payload `value` with its references resolved.
pub fn resolve_value(value: &JsonValue, responses: &ResponseStore) -> (r: Result<JsonValue, ResolveError>)
    ensures
        match r {
            Ok(v) => resolve_refs(value@, responses@) == Ok::<Json, RefError>(v@),
            Err(e) => resolve_refs(value@, responses@) == Err::<Json, RefError>(e@),
        },
{
    let (w, err) = resolve_in_place_value(value, responses);
    proof {
        lemma_in_place_agrees(value@, responses@);
    }
    match err {
        None => Ok(w),
        Some(e) => Err(e),
    }
}

/// Resolves all value references in a payload using stored responses from previous tests.
/// Returns an error if a referenced test doesn't exist or the property path is invalid;
/// the references resolved before the failing one are then replaced, and the
/// rest of the payload is as it was.
pub fn resolve_payload_references(payload: &mut JsonValue, responses: &ResponseStore) -> (r: Result<
    (),
    ResolveError,
>)
    ensures
        final(payload)@ == resolve_in_place(old(payload)@, responses@).0,
        match resolve_refs(old(payload)@, responses@) {
            Ok(v) => r is Ok && final(payload)@ == v,
            Err(e) => r matches Err(x) && x@ == e,
        },
        r is Ok && (forall|k: Seq<char>| #[trigger] responses@.contains_key(k) ==> !has_reference(responses@[k]))
            ==> !has_reference(final(payload)@),
{
    let (w, err) = resolve_in_place_value(payload, responses);
    proof {
        lemma_in_place_agrees(old(payload)@, responses@);
        if forall|k: Seq<char>| #[trigger] responses@.contains_key(k) ==> !has_reference(responses@[k]) {
            law_resolution_removes_references(old(payload)@, responses@);
        }
    }
    *payload = w;
    match err {
        None => Ok(()),
        Some(e) => Err(e),
    }
}

/// Whether a payload holds a reference object as the value of some entry
/// or as an element of some array, at any depth.
pub open spec fn has_reference(v: Json) -> bool
    decreases v, 0nat,
{
    match v {
        Json::Object(e) => entries_have_reference(e),
        Json::Array(items) => items_have_reference(items),
        _ => false,
    }
}

/// Whether some entry value is a reference object or holds one.
pub open spec fn entries_have_reference(e: Seq<(Seq<char>, Json)>) -> bool
    decreases e, 1nat,
{
    if e.len() == 0 {
        false
    } else {
        is_reference(e[0].1) || has_reference(e[0].1) || entries_have_reference(
            e.subrange(1, e.len() as int),
        )
    }
}

/// Whether some element is a reference object or holds one.
pub open spec fn items_have_reference(items: Seq<Json>) -> bool
    decreases items, 1nat,
{
    if items.len() == 0 {
        false
    } else {
        is_reference(items[0]) || has_reference(items[0]) || items_have_reference(
            items.subrange(1, items.len() as int),
        )
    }
}

/// Law of resolution: a payload without reference objects resolves to
/// itself, whatever responses are stored.
pub proof fn law_resolve_without_references(v: Json, responses: Map<Seq<char>, Json>)
    requires
        !has_reference(v),
    ensures
        resolve_refs(v, responses) == Ok::<Json, RefError>(v),
    decreases v, 0nat,
{
    match v {
        Json::Object(e) => lemma_entries_without_references(e, responses),
        Json::Array(items) => lemma_items_without_references(items, responses),
        _ => {},
    }
}

/// Entries without reference objects resolve to themselves.
pub proof fn lemma_entries_without_references(e: Seq<(Seq<char>, Json)>, responses: Map<Seq<char>, Json>)
    requires
        !entries_have_reference(e),
    ensures
        resolve_entries(e, responses) == Ok::<Seq<(Seq<char>, Json)>, RefError>(e),
    decreases e, 1nat,
{
    if e.len() > 0 {
        law_resolve_without_references(e[0].1, responses);
        let rest = e.subrange(1, e.len() as int);
        lemma_entries_without_references(rest, responses);
        assert(seq![(e[0].0, e[0].1)] + rest =~= e);
    } else {
        assert(e =~= Seq::<(Seq<char>, Json)>::empty());
    }
}

/// Elements without reference objects resolve to themselves.
pub proof fn lemma_items_without_references(items: Seq<Json>, responses: Map<Seq<char>, Json>)
    requires
        !items_have_reference(items),
    ensures
        resolve_items(items, responses) == Ok::<Seq<Json>, RefError>(items),
    decreases items, 1nat,
{
    if items.len() > 0 {
        law_resolve_without_references(items[0], responses);
        let rest = items.subrange(1, items.len() as int);
        lemma_items_without_references(rest, responses);
        assert(seq![items[0]] + rest =~= items);
    } else {
        assert(items =~= Seq::<Json>::empty());
    }
}

/// Law of resolution: a reference to a test that has no stored response
/// fails the resolution with that test's name, once the entries before it
/// have resolved.
pub proof fn law_reference_to_missing_test_fails(
    e: Seq<(Seq<char>, Json)>,
    i: int,
    from: Seq<char>,
    property: Seq<char>,
    responses: Map<Seq<char>, Json>,
)
    requires
        0 <= i < e.len(),
        resolve_entries(e.subrange(0, i), responses) is Ok,
        is_reference(e[i].1),
        json_get(e[i].1, from_key()) == Some(Json::Str(from)),
        json_get(e[i].1, property_key()) == Some(Json::Str(property)),
        !responses.contains_key(from),
    ensures
        resolve_refs(Json::Object(e), responses) == Err::<Json, RefError>(RefError::TestNotFound(from)),
    decreases i,
{
    lemma_resolve_entries_err_at(e, i, responses, RefError::TestNotFound(from));
}

/// When the entries before `i` resolve and entry `i` fails with `err`, the
/// whole list fails with `err`.
pub proof fn lemma_resolve_entries_err_at(
    e: Seq<(Seq<char>, Json)>,
    i: int,
    responses: Map<Seq<char>, Json>,
    err: RefError,
)
    requires
        0 <= i < e.len(),
        resolve_entries(e.subrange(0, i), responses) is Ok,
        (if is_reference(e[i].1) {
            resolve_reference(e[i].1, responses)
        } else {
            resolve_refs(e[i].1, responses)
        }) == Err::<Json, RefError>(err),
    ensures
        resolve_entries(e, responses) == Err::<Seq<(Seq<char>, Json)>, RefError>(err),
    decreases i,
{
    if i > 0 {
        let rest = e.subrange(1, e.len() as int);
        let pre = e.subrange(0, i);
        assert(pre[0] == e[0]);
        assert(pre.subrange(1, pre.len() as int) =~= rest.subrange(0, i - 1));
        assert(rest[i - 1] == e[i]);
        lemma_resolve_entries_err_at(rest, i - 1, responses, err);
    }
}

/// The reference object that names test `from` and path `property`.
pub open spec fn reference_object(from: Seq<char>, property: Seq<char>) -> Json {
    Json::Object(seq![(from_key(), Json::Str(from)), (property_key(), Json::Str(property))])
}

/// Law of references: a reference reads the response last stored under the
/// test it names; it stands for the value at its property path there, and
/// fails with the path and the test's name where the path leads nowhere.
pub proof fn law_reference_reads_stored_response(
    responses: Map<Seq<char>, Json>,
    from: Seq<char>,
    property: Seq<char>,
    response: Json,
)
    ensures
        is_reference(reference_object(from, property)),
        resolve_reference(reference_object(from, property), responses.insert(from, response)) == match nested_value(
            response,
            property,
        ) {
            Some(x) => Ok::<Json, RefError>(x),
            None => Err(RefError::PropertyNotFound(property, from)),
        },
{
    let e = seq![(from_key(), Json::Str(from)), (property_key(), Json::Str(property))];
    assert(from_key() != property_key()) by {
        assert(from_key().len() != property_key().len());
    }
    assert(e.drop_first() =~= seq![(property_key(), Json::Str(property))]);
    assert(entry_lookup(e, from_key()) == Some(Json::Str(from)));
    assert(entry_lookup(e.drop_first(), property_key()) == Some(Json::Str(property)));
    assert(entry_lookup(e, property_key()) == Some(Json::Str(property)));
    assert(responses.insert(from, response).contains_key(from));
}

/// A reference resolved against well-formed responses is well formed.
proof fn lemma_reference_wf(x: Json, responses: Map<Seq<char>, Json>)
    requires
        forall|k: Seq<char>| responses.contains_key(k) ==> #[trigger] json_wf(responses[k]),
    ensures
        resolve_reference(x, responses) matches Ok(y) ==> json_wf(y),
{
    if let Ok((from, property)) = reference_parts(x) {
        if responses.contains_key(from) {
            assert(json_wf(responses[from]));
            lemma_nested_value_wf(responses[from], property);
        }
    }
}

/// Entries with well-formed values resolve, if they do, to entries with
/// well-formed values, as many as there were.
proof fn lemma_resolve_entries_wf(e: Seq<(Seq<char>, Json)>, responses: Map<Seq<char>, Json>)
    requires
        forall|i: int| 0 <= i < e.len() ==> #[trigger] json_wf(e[i].1),
        forall|k: Seq<char>| responses.contains_key(k) ==> #[trigger] json_wf(responses[k]),
    ensures
        resolve_entries(e, responses) matches Ok(r) ==> r.len() == e.len() && forall|i: int|
            0 <= i < r.len() ==> #[trigger] json_wf(r[i].1),
    decreases e, 1nat,
{
    if e.len() > 0 {
        let rest = e.subrange(1, e.len() as int);
        assert(json_wf(e[0].1));
        lemma_reference_wf(e[0].1, responses);
        law_resolution_keeps_well_formed(e[0].1, responses);
        assert forall|i: int| 0 <= i < rest.len() implies #[trigger] json_wf(rest[i].1) by {
            assert(rest[i] == e[i + 1]);
        }
        lemma_resolve_entries_wf(rest, responses);
        if let Ok(r) = resolve_entries(e, responses) {
            let rr = resolve_entries(rest, responses)->Ok_0;
            let first = if is_reference(e[0].1) {
                resolve_reference(e[0].1, responses)
            } else {
                resolve_refs(e[0].1, responses)
            };
            assert(r == seq![(e[0].0, first->Ok_0)] + rr);
            assert(json_wf(first->Ok_0));
            assert forall|i: int| 0 <= i < r.len() implies #[trigger] json_wf(r[i].1) by {
                if i > 0 {
                    assert(r[i] == rr[i - 1]);
                    assert(json_wf(rr[i - 1].1));
                } else {
                    assert(r[0].1 == first->Ok_0);
                }
            }
        }
    } else {
        assert(resolve_entries(e, responses) == Ok::<Seq<(Seq<char>, Json)>, RefError>(Seq::empty()));
    }
}

/// Well-formed elements resolve, if they do, to well-formed elements, as
/// many as there were.
proof fn lemma_resolve_items_wf(items: Seq<Json>, responses: Map<Seq<char>, Json>)
    requires
        forall|i: int| 0 <= i < items.len() ==> #[trigger] json_wf(items[i]),
        forall|k: Seq<char>| responses.contains_key(k) ==> #[trigger] json_wf(responses[k]),
    ensures
        resolve_items(items, responses) matches Ok(r) ==> r.len() == items.len() && forall|i: int|
            0 <= i < r.len() ==> #[trigger] json_wf(r[i]),
    decreases items, 1nat,
{
    if items.len() > 0 {
        let rest = items.subrange(1, items.len() as int);
        assert(json_wf(items[0]));
        lemma_reference_wf(items[0], responses);
        law_resolution_keeps_well_formed(items[0], responses);
        assert forall|i: int| 0 <= i < rest.len() implies #[trigger] json_wf(rest[i]) by {
            assert(rest[i] == items[i + 1]);
        }
        lemma_resolve_items_wf(rest, responses);
        if let Ok(r) = resolve_items(items, responses) {
            let rr = resolve_items(rest, responses)->Ok_0;
            assert forall|i: int| 0 <= i < r.len() implies #[trigger] json_wf(r[i]) by {
                if i > 0 {
                    assert(r[i] == rr[i - 1]);
                }
            }
        }
    } else {
        assert(resolve_items(items, responses) == Ok::<Seq<Json>, RefError>(Seq::empty()));
    }
}

/// Law of resolution: a well-formed payload, resolved against well-formed
/// responses, stays well formed: each object keeps its keys, once each and
/// in order.
pub proof fn law_resolution_keeps_well_formed(v: Json, responses: Map<Seq<char>, Json>)
    requires
        json_wf(v),
        forall|k: Seq<char>| responses.contains_key(k) ==> #[trigger] json_wf(responses[k]),
    ensures
        resolve_refs(v, responses) matches Ok(w) ==> json_wf(w),
    decreases v, 0nat,
{
    match v {
        Json::Object(e) => {
            lemma_entries_wf(e);
            lemma_resolve_entries_wf(e, responses);
            if let Ok(r) = resolve_entries(e, responses) {
                law_resolution_keeps_keys(e, responses, r);
                assert forall|i: int, j: int| 0 <= i < j < r.len() implies #[trigger] key_lt(r[i].0, r[j].0) by {
                    assert(r[i].0 == e[i].0 && r[j].0 == e[j].0);
                    assert(key_lt(e[i].0, e[j].0));
                }
                lemma_entries_wf(r);
            }
        },
        Json::Array(items) => {
            lemma_items_wf(items);
            lemma_resolve_items_wf(items, responses);
            if let Ok(r) = resolve_items(items, responses) {
                lemma_items_wf(r);
            }
        },
        _ => {},
    }
}

/// No entry value is a reference object or holds one, exactly when
/// [`entries_have_reference`] is false.
pub proof fn lemma_entries_no_reference(e: Seq<(Seq<char>, Json)>)
    ensures
        !entries_have_reference(e) <==> forall|i: int|
            0 <= i < e.len() ==> !is_reference(#[trigger] e[i].1) && !has_reference(e[i].1),
    decreases e.len(),
{
    if e.len() > 0 {
        let rest = e.subrange(1, e.len() as int);
        lemma_entries_no_reference(rest);
        assert forall|i: int| 0 <= i < rest.len() implies #[trigger] rest[i] == e[i + 1] by {}
        if forall|i: int| 0 <= i < e.len() ==> !is_reference(#[trigger] e[i].1) && !has_reference(e[i].1) {
            assert forall|i: int| 0 <= i < rest.len() implies !is_reference(#[trigger] rest[i].1) && !has_reference(
                rest[i].1,
            ) by {
                assert(rest[i] == e[i + 1]);
            }
            assert(!is_reference(e[0].1) && !has_reference(e[0].1));
        }
        if !entries_have_reference(e) {
            assert forall|i: int| 0 <= i < e.len() implies !is_reference(#[trigger] e[i].1) && !has_reference(
                e[i].1,
            ) by {
                if i > 0 {
                    assert(rest[i - 1] == e[i]);
                    assert(!is_reference(rest[i - 1].1) && !has_reference(rest[i - 1].1));
                }
            }
        }
    }
}

/// No element is a reference object or holds one, exactly when
/// [`items_have_reference`] is false.
pub proof fn lemma_items_no_reference(items: Seq<Json>)
    ensures
        !items_have_reference(items) <==> forall|i: int|
            0 <= i < items.len() ==> !is_reference(#[trigger] items[i]) && !has_reference(items[i]),
    decreases items.len(),
{
    if items.len() > 0 {
        let rest = items.subrange(1, items.len() as int);
        lemma_items_no_reference(rest);
        if forall|i: int| 0 <= i < items.len() ==> !is_reference(#[trigger] items[i]) && !has_reference(items[i]) {
            assert forall|i: int| 0 <= i < rest.len() implies !is_reference(#[trigger] rest[i]) && !has_reference(
                rest[i],
            ) by {
                assert(rest[i] == items[i + 1]);
            }
            assert(!is_reference(items[0]) && !has_reference(items[0]));
        }
        if !items_have_reference(items) {
            assert forall|i: int| 0 <= i < items.len() implies !is_reference(#[trigger] items[i]) && !has_reference(
                items[i],
            ) by {
                if i > 0 {
                    assert(rest[i - 1] == items[i]);
                    assert(!is_reference(rest[i - 1]) && !has_reference(rest[i - 1]));
                }
            }
        }
    }
}

/// What a lookup of one key or more reaches inside a value without reference
/// objects is neither a reference object nor holds one.
proof fn lemma_lookup_no_reference(v: Json, keys: Seq<Seq<char>>)
    requires
        !has_reference(v),
        keys.len() > 0,
    ensures
        lookup_keys(v, keys) matches Some(x) ==> !is_reference(x) && !has_reference(x),
    decreases keys.len(),
{
    if let Json::Object(e) = v {
        lemma_entry_lookup_found(e, keys[0]);
        if let Some(x) = entry_lookup(e, keys[0]) {
            let i = choose|i: int| 0 <= i < e.len() && e[i].1 == x;
            lemma_entries_no_reference(e);
            assert(!is_reference(e[i].1) && !has_reference(e[i].1));
            if keys.len() > 1 {
                lemma_lookup_no_reference(x, keys.drop_first());
            }
        }
    }
}

/// A reference resolved against responses without reference objects is
/// neither a reference object nor holds one.
proof fn lemma_reference_no_reference(x: Json, responses: Map<Seq<char>, Json>)
    requires
        forall|k: Seq<char>| responses.contains_key(k) ==> !has_reference(#[trigger] responses[k]),
    ensures
        resolve_reference(x, responses) matches Ok(y) ==> !is_reference(y) && !has_reference(y),
{
    if let Ok((from, property)) = reference_parts(x) {
        if responses.contains_key(from) {
            assert(!has_reference(responses[from]));
            lemma_split_nonempty(property, '.');
            lemma_lookup_no_reference(responses[from], split_on(property, '.'));
        }
    }
}

/// Objects with the same keys in the same places are reference objects alike.
proof fn lemma_same_keys_same_reference(e: Seq<(Seq<char>, Json)>, r: Seq<(Seq<char>, Json)>)
    requires
        r.len() == e.len(),
        forall|i: int| 0 <= i < e.len() ==> #[trigger] r[i].0 == e[i].0,
    ensures
        is_reference(Json::Object(r)) == is_reference(Json::Object(e)),
{
    lemma_lookup_none(e, from_key());
    lemma_lookup_none(r, from_key());
    lemma_lookup_none(e, property_key());
    lemma_lookup_none(r, property_key());
    assert((forall|j: int| 0 <= j < e.len() ==> #[trigger] e[j].0 != from_key()) == (forall|j: int|
        0 <= j < r.len() ==> #[trigger] r[j].0 != from_key())) by {
        if forall|j: int| 0 <= j < e.len() ==> #[trigger] e[j].0 != from_key() {
            assert forall|j: int| 0 <= j < r.len() implies #[trigger] r[j].0 != from_key() by {
                assert(r[j].0 == e[j].0);
            }
        }
        if forall|j: int| 0 <= j < r.len() ==> #[trigger] r[j].0 != from_key() {
            assert forall|j: int| 0 <= j < e.len() implies #[trigger] e[j].0 != from_key() by {
                assert(r[j].0 == e[j].0);
            }
        }
    }
    assert((forall|j: int| 0 <= j < e.len() ==> #[trigger] e[j].0 != property_key()) == (forall|j: int|
        0 <= j < r.len() ==> #[trigger] r[j].0 != property_key())) by {
        if forall|j: int| 0 <= j < e.len() ==> #[trigger] e[j].0 != property_key() {
            assert forall|j: int| 0 <= j < r.len() implies #[trigger] r[j].0 != property_key() by {
                assert(r[j].0 == e[j].0);
            }
        }
        if forall|j: int| 0 <= j < r.len() ==> #[trigger] r[j].0 != property_key() {
            assert forall|j: int| 0 <= j < e.len() implies #[trigger] e[j].0 != property_key() by {
                assert(r[j].0 == e[j].0);
            }
        }
    }
}

/// Resolved entries keep their keys, and no resolved value is a reference
/// object or holds one.
proof fn lemma_entries_resolve_all(e: Seq<(Seq<char>, Json)>, responses: Map<Seq<char>, Json>)
    requires
        forall|k: Seq<char>| responses.contains_key(k) ==> !has_reference(#[trigger] responses[k]),
    ensures
        resolve_entries(e, responses) matches Ok(r) ==> {
            &&& r.len() == e.len()
            &&& forall|i: int| 0 <= i < e.len() ==> #[trigger] r[i].0 == e[i].0
            &&& forall|i: int| 0 <= i < r.len() ==> !is_reference(#[trigger] r[i].1) && !has_reference(r[i].1)
        },
    decreases e, 1nat,
{
    if e.len() > 0 {
        let rest = e.subrange(1, e.len() as int);
        lemma_reference_no_reference(e[0].1, responses);
        law_resolution_removes_references(e[0].1, responses);
        lemma_entries_resolve_all(rest, responses);
        if let Ok(r) = resolve_entries(e, responses) {
            let rr = resolve_entries(rest, responses)->Ok_0;
            let first = if is_reference(e[0].1) {
                resolve_reference(e[0].1, responses)
            } else {
                resolve_refs(e[0].1, responses)
            };
            assert(r == seq![(e[0].0, first->Ok_0)] + rr);
            assert(!is_reference(first->Ok_0) && !has_reference(first->Ok_0));
            assert forall|i: int| 0 <= i < e.len() implies #[trigger] r[i].0 == e[i].0 by {
                if i > 0 {
                    assert(r[i] == rr[i - 1]);
                    assert(rest[i - 1] == e[i]);
                    assert(rr[i - 1].0 == rest[i - 1].0);
                }
            }
            assert forall|i: int| 0 <= i < r.len() implies !is_reference(#[trigger] r[i].1) && !has_reference(
                r[i].1,
            ) by {
                if i > 0 {
                    assert(r[i] == rr[i - 1]);
                    assert(!is_reference(rr[i - 1].1) && !has_reference(rr[i - 1].1));
                }
            }
        }
    } else {
        assert(resolve_entries(e, responses) == Ok::<Seq<(Seq<char>, Json)>, RefError>(Seq::empty()));
    }
}

/// No resolved element is a reference object or holds one, and there are as
/// many as before.
proof fn lemma_items_resolve_all(items: Seq<Json>, responses: Map<Seq<char>, Json>)
    requires
        forall|k: Seq<char>| responses.contains_key(k) ==> !has_reference(#[trigger] responses[k]),
    ensures
        resolve_items(items, responses) matches Ok(r) ==> r.len() == items.len() && forall|i: int|
            0 <= i < r.len() ==> !is_reference(#[trigger] r[i]) && !has_reference(r[i]),
    decreases items, 1nat,
{
    if items.len() > 0 {
        let rest = items.subrange(1, items.len() as int);
        lemma_reference_no_reference(items[0], responses);
        law_resolution_removes_references(items[0], responses);
        lemma_items_resolve_all(rest, responses);
        if let Ok(r) = resolve_items(items, responses) {
            let rr = resolve_items(rest, responses)->Ok_0;
            let first = if is_reference(items[0]) {
                resolve_reference(items[0], responses)
            } else {
                resolve_refs(items[0], responses)
            };
            assert(r == seq![first->Ok_0] + rr);
            assert(!is_reference(first->Ok_0) && !has_reference(first->Ok_0));
            assert forall|i: int| 0 <= i < r.len() implies !is_reference(#[trigger] r[i]) && !has_reference(r[i]) by {
                if i > 0 {
                    assert(r[i] == rr[i - 1]);
                    assert(!is_reference(rr[i - 1]) && !has_reference(rr[i - 1]));
                }
            }
        }
    } else {
        assert(resolve_items(items, responses) == Ok::<Seq<Json>, RefError>(Seq::empty()));
    }
}

/// Law of resolution: references are replaced at every depth. When no
/// stored response holds a reference object, a payload that resolves holds
/// none either; and resolving a value that is not itself a reference object
/// does not make it one.
pub proof fn law_resolution_removes_references(v: Json, responses: Map<Seq<char>, Json>)
    requires
        forall|k: Seq<char>| responses.contains_key(k) ==> !has_reference(#[trigger] responses[k]),
    ensures
        resolve_refs(v, responses) matches Ok(w) ==> !has_reference(w) && (is_reference(w) == is_reference(v)),
    decreases v, 0nat,
{
    match v {
        Json::Object(e) => {
            lemma_entries_resolve_all(e, responses);
            if let Ok(r) = resolve_entries(e, responses) {
                lemma_entries_no_reference(r);
                lemma_same_keys_same_reference(e, r);
            }
        },
        Json::Array(items) => {
            lemma_items_resolve_all(items, responses);
            if let Ok(r) = resolve_items(items, responses) {
                lemma_items_no_reference(r);
            }
        },
        _ => {},
    }
}

/// Law of resolution: a resolved object keeps its keys, in order, and
/// replaces each reference object with the value it refers to.
pub proof fn law_resolution_keeps_keys(
    e: Seq<(Seq<char>, Json)>,
    responses: Map<Seq<char>, Json>,
    resolved: Seq<(Seq<char>, Json)>,
)
    requires
        resolve_entries(e, responses) == Ok::<Seq<(Seq<char>, Json)>, RefError>(resolved),
    ensures
        resolved.len() == e.len(),
        forall|i: int| 0 <= i < e.len() ==> #[trigger] resolved[i].0 == e[i].0,
        forall|i: int| 0 <= i < e.len() && is_reference(#[trigger] e[i].1) ==> resolve_reference(e[i].1, responses)
            == Ok::<Json, RefError>(resolved[i].1),
    decreases e.len(),
{
    if e.len() > 0 {
        let rest = e.subrange(1, e.len() as int);
        let first = if is_reference(e[0].1) {
            resolve_reference(e[0].1, responses)
        } else {
            resolve_refs(e[0].1, responses)
        };
        let rr = resolve_entries(rest, responses)->Ok_0;
        law_resolution_keeps_keys(rest, responses, rr);
        assert forall|i: int| 0 <= i < e.len() implies #[trigger] resolved[i].0 == e[i].0 by {
            if i > 0 {
                assert(rest[i - 1] == e[i]);
                assert(rr[i - 1].0 == rest[i - 1].0);
            }
        }
        assert forall|i: int| 0 <= i < e.len() && is_reference(#[trigger] e[i].1) implies resolve_reference(
            e[i].1,
            responses,
        ) == Ok::<Json, RefError>(resolved[i].1) by {
            if i > 0 {
                assert(rest[i - 1] == e[i]);
                assert(is_reference(rest[i - 1].1));
            }
        }
    }
}

} // verus!
