use vstd::prelude::*;
use vstd::string::StringExecFns;

verus! {

/// A JSON number as serde_json holds it: a non-negative integer, a negative
/// integer, or a finite float given by its IEEE-754 bits and its shortest text.
#[derive(Debug)]
pub enum JsonNumber {
    PosInt(u64),
    NegInt(i64),
    Float { bits: u64, text: String },
}

/// A JSON value. Objects keep their entries in the order given; a value that
/// serde_json read has each object's keys once and sorted, which [`json_wf`]
/// states of its model. [`json_eq`] compares objects as maps.
#[derive(Debug)]
pub enum JsonValue {
    Null,
    Bool(bool),
    Number(JsonNumber),
    String(String),
    Array(Vec<JsonValue>),
    Object(Vec<(String, JsonValue)>),
}

/// Mathematical model of a JSON number.
pub enum Num {
    PosInt(u64),
    NegInt(i64),
    Float { bits: u64, text: Seq<char> },
}

/// Mathematical model of a JSON value.
pub enum Json {
    Null,
    Bool(bool),
    Number(Num),
    Str(Seq<char>),
    Array(Seq<Json>),
    Object(Seq<(Seq<char>, Json)>),
}

impl View for JsonNumber {
    type V = Num;

    open spec fn view(&self) -> Num {
        match self {
            JsonNumber::PosInt(n) => Num::PosInt(*n),
            JsonNumber::NegInt(n) => Num::NegInt(*n),
            JsonNumber::Float { bits, text } => Num::Float { bits: *bits, text: text@ },
        }
    }
}

/// The models of the elements of an array.
pub open spec fn items_view(items: Seq<JsonValue>) -> Seq<Json>
    decreases items, 1nat,
{
    Seq::new(items.len(), |i: int| if 0 <= i < items.len() { json_view(items[i]) } else { Json::Null })
}

/// The models of the entries of an object: each key's text and value's model.
pub open spec fn entries_view(entries: Seq<(String, JsonValue)>) -> Seq<(Seq<char>, Json)>
    decreases entries, 1nat,
{
    Seq::new(entries.len(), |i: int| if 0 <= i < entries.len() { (entries[i].0@, json_view(entries[i].1)) } else { (Seq::empty(), Json::Null) })
}

/// The model of a JSON value.
pub open spec fn json_view(v: JsonValue) -> Json
    decreases v, 0nat,
{
    match v {
        JsonValue::Null => Json::Null,
        JsonValue::Bool(b) => Json::Bool(b),
        JsonValue::Number(n) => Json::Number(n@),
        JsonValue::String(s) => Json::Str(s@),
        JsonValue::Array(items) => Json::Array(items_view(items@)),
        JsonValue::Object(entries) => Json::Object(entries_view(entries@)),
    }
}


impl View for JsonValue {
    type V = Json;

    open spec fn view(&self) -> Json {
        json_view(*self)
    }
}

/// serde_json's equality of numbers: integers of the same sign class compare
/// by value; floats compare as `f64` values, so the two zeros are equal.
pub open spec fn num_eq(a: Num, b: Num) -> bool {
    match a {
        Num::PosInt(x) => b matches Num::PosInt(y) && x == y,
        Num::NegInt(x) => b matches Num::NegInt(y) && x == y,
        Num::Float { bits: x, .. } => b matches Num::Float { bits: y, .. } && (x == y || (
        is_zero_bits(x) && is_zero_bits(y))),
    }
}

/// The bits of `+0.0` or `-0.0`.
pub open spec fn is_zero_bits(bits: u64) -> bool {
    bits == 0 || bits == 0x8000_0000_0000_0000u64
}

/// serde_json's equality of values: same kind, and equal parts; arrays
/// element by element; objects as maps, with as many entries each and every
/// key of one mapped in the other to an equal value.
pub open spec fn json_eq(a: Json, b: Json) -> bool
    decreases a, 0nat,
{
    match a {
        Json::Null => b is Null,
        Json::Bool(x) => b matches Json::Bool(y) && x == y,
        Json::Number(x) => b matches Json::Number(y) && num_eq(x, y),
        Json::Str(x) => b matches Json::Str(y) && x == y,
        Json::Array(xs) => match b {
            Json::Array(ys) => items_eq(xs, ys),
            _ => false,
        },
        Json::Object(xs) => match b {
            Json::Object(ys) => xs.len() == ys.len() && entries_in(xs, ys),
            _ => false,
        },
    }
}

/// Element-wise [`json_eq`] of two sequences of the same length.
pub open spec fn items_eq(xs: Seq<Json>, ys: Seq<Json>) -> bool
    decreases xs, 1nat,
{
    if xs.len() == 0 {
        ys.len() == 0
    } else {
        &&& ys.len() == xs.len()
        &&& items_eq(xs.subrange(0, xs.len() - 1), ys.subrange(0, ys.len() - 1))
        &&& json_eq(xs[xs.len() - 1], ys[ys.len() - 1])
    }
}

/// Every entry of `xs` finds in `ys`, under its key, a value equal to its own.
pub open spec fn entries_in(xs: Seq<(Seq<char>, Json)>, ys: Seq<(Seq<char>, Json)>) -> bool
    decreases xs, 1nat,
{
    if xs.len() == 0 {
        true
    } else {
        entries_in(xs.subrange(0, xs.len() - 1), ys) && entry_found(xs[xs.len() - 1], ys)
    }
}

/// The entry `x` finds in `ys`, under its key, a value equal to its own.
pub open spec fn entry_found(x: (Seq<char>, Json), ys: Seq<(Seq<char>, Json)>) -> bool
    decreases x, 2nat,
{
    match entry_lookup(ys, x.0) {
        Some(w) => json_eq(x.1, w),
        None => false,
    }
}

/// [`items_eq`] holds exactly when the lengths agree and every pair of
/// elements is equal.
pub proof fn lemma_items_eq(xs: Seq<Json>, ys: Seq<Json>)
    ensures
        items_eq(xs, ys) <==> (xs.len() == ys.len() && forall|i: int|
            0 <= i < xs.len() ==> #[trigger] json_eq(xs[i], ys[i])),
    decreases xs.len(),
{
    if xs.len() > 0 && ys.len() == xs.len() {
        let l = xs.len() - 1;
        let xp = xs.subrange(0, l);
        let yp = ys.subrange(0, l);
        lemma_items_eq(xp, yp);
        assert(items_eq(xs, ys) == (items_eq(xp, yp) && json_eq(xs[l], ys[l])));
        if items_eq(xs, ys) {
            assert forall|i: int| 0 <= i < xs.len() implies #[trigger] json_eq(xs[i], ys[i]) by {
                if i < l {
                    assert(xp[i] == xs[i] && yp[i] == ys[i]);
                    assert(json_eq(xp[i], yp[i]));
                }
            }
        }
        if forall|i: int| 0 <= i < xs.len() ==> #[trigger] json_eq(xs[i], ys[i]) {
            assert forall|i: int| 0 <= i < xp.len() implies #[trigger] json_eq(xp[i], yp[i]) by {
                assert(xp[i] == xs[i] && yp[i] == ys[i]);
                assert(json_eq(xs[i], ys[i]));
            }
            assert(json_eq(xs[l], ys[l]));
        }
    }
}

/// [`entries_in`] holds exactly when every entry of `xs` is found in `ys`.
pub proof fn lemma_entries_in(xs: Seq<(Seq<char>, Json)>, ys: Seq<(Seq<char>, Json)>)
    ensures
        entries_in(xs, ys) <==> forall|i: int| 0 <= i < xs.len() ==> #[trigger] entry_found(xs[i], ys),
    decreases xs.len(),
{
    if xs.len() > 0 {
        let l = xs.len() - 1;
        let xp = xs.subrange(0, l);
        lemma_entries_in(xp, ys);
        assert(entries_in(xs, ys) == (entries_in(xp, ys) && entry_found(xs[l], ys)));
        if entries_in(xs, ys) {
            assert forall|i: int| 0 <= i < xs.len() implies #[trigger] entry_found(xs[i], ys) by {
                if i < l {
                    assert(xp[i] == xs[i]);
                    assert(entry_found(xp[i], ys));
                }
            }
        }
        if forall|i: int| 0 <= i < xs.len() ==> #[trigger] entry_found(xs[i], ys) {
            assert forall|i: int| 0 <= i < xp.len() implies #[trigger] entry_found(xp[i], ys) by {
                assert(xp[i] == xs[i]);
                assert(entry_found(xs[i], ys));
            }
            assert(entry_found(xs[l], ys));
        }
    }
}

/// The value of the first entry whose key is `key`.
pub open spec fn entry_lookup(entries: Seq<(Seq<char>, Json)>, key: Seq<char>) -> Option<Json>
    decreases entries.len(),
{
    if entries.len() == 0 {
        None
    } else if entries[0].0 == key {
        Some(entries[0].1)
    } else {
        entry_lookup(entries.drop_first(), key)
    }
}

/// Law of JSON equality on arrays: two arrays are equal exactly when they
/// have the same length and are equal element by element.
pub proof fn law_array_equality(xs: Seq<Json>, ys: Seq<Json>)
    ensures
        json_eq(Json::Array(xs), Json::Array(ys)) <==> (xs.len() == ys.len() && forall|i: int|
            0 <= i < xs.len() ==> #[trigger] json_eq(xs[i], ys[i])),
{
    lemma_items_eq(xs, ys);
}

/// Law of JSON equality on objects: two objects are equal exactly when they
/// have as many entries and each entry of the first finds, under its key in
/// the second, an equal value.
pub proof fn law_object_equality(xs: Seq<(Seq<char>, Json)>, ys: Seq<(Seq<char>, Json)>)
    ensures
        json_eq(Json::Object(xs), Json::Object(ys)) <==> (xs.len() == ys.len() && forall|i: int|
            0 <= i < xs.len() ==> (#[trigger] entry_lookup(ys, xs[i].0) matches Some(w) && json_eq(
                xs[i].1,
                w,
            ))),
{
    lemma_entries_in(xs, ys);
    assert forall|i: int| 0 <= i < xs.len() implies entry_found(xs[i], ys) == (#[trigger] entry_lookup(
        ys,
        xs[i].0,
    ) matches Some(w) && json_eq(xs[i].1, w)) by {}
}

/// Law of JSON equality on scalars: null equals only null, booleans and
/// strings are equal when their contents are, and values of different kinds
/// are never equal.
pub proof fn law_scalar_equality(a: Json, b: Json)
    ensures
        a is Null ==> (json_eq(a, b) <==> b is Null),
        a matches Json::Bool(x) ==> (json_eq(a, b) <==> b == Json::Bool(x)),
        a matches Json::Str(x) ==> (json_eq(a, b) <==> b == Json::Str(x)),
        a is Array ==> (json_eq(a, b) ==> b is Array),
        a is Object ==> (json_eq(a, b) ==> b is Object),
        a is Number ==> (json_eq(a, b) ==> b is Number),
{
}

/// Whether key `a` comes before key `b` in the order of serde_json's maps
/// (a `BTreeMap` of strings): the first differing character decides, by
/// code point, and a proper prefix comes first.
pub open spec fn key_lt(a: Seq<char>, b: Seq<char>) -> bool
    decreases a.len(),
{
    if b.len() == 0 {
        false
    } else if a.len() == 0 {
        true
    } else if a[0] != b[0] {
        (a[0] as int) < (b[0] as int)
    } else {
        key_lt(a.drop_first(), b.drop_first())
    }
}

/// The keys of the entries are in strictly increasing order, so each occurs
/// once.
pub open spec fn keys_sorted(e: Seq<(Seq<char>, Json)>) -> bool {
    forall|i: int, j: int| 0 <= i < j < e.len() ==> #[trigger] key_lt(e[i].0, e[j].0)
}

/// A JSON value as serde_json holds it: every object, at any depth, has
/// its keys once each and in the order of serde_json's maps.
pub open spec fn json_wf(v: Json) -> bool
    decreases v, 0nat,
{
    match v {
        Json::Array(items) => items_wf(items),
        Json::Object(e) => keys_sorted(e) && entries_wf(e),
        _ => true,
    }
}

/// Every element is well formed ([`json_wf`]).
pub open spec fn items_wf(xs: Seq<Json>) -> bool
    decreases xs, 1nat,
{
    if xs.len() == 0 {
        true
    } else {
        items_wf(xs.subrange(0, xs.len() - 1)) && json_wf(xs[xs.len() - 1])
    }
}

/// Every entry's value is well formed ([`json_wf`]).
pub open spec fn entries_wf(e: Seq<(Seq<char>, Json)>) -> bool
    decreases e, 1nat,
{
    if e.len() == 0 {
        true
    } else {
        entries_wf(e.subrange(0, e.len() - 1)) && json_wf(e[e.len() - 1].1)
    }
}

/// [`items_wf`] holds exactly when each element is well formed.
pub proof fn lemma_items_wf(xs: Seq<Json>)
    ensures
        items_wf(xs) <==> forall|i: int| 0 <= i < xs.len() ==> #[trigger] json_wf(xs[i]),
    decreases xs.len(),
{
    if xs.len() > 0 {
        let l = xs.len() - 1;
        let p = xs.subrange(0, l);
        lemma_items_wf(p);
        assert(items_wf(xs) == (items_wf(p) && json_wf(xs[l])));
        if items_wf(xs) {
            assert forall|i: int| 0 <= i < xs.len() implies #[trigger] json_wf(xs[i]) by {
                if i < l {
                    assert(p[i] == xs[i]);
                    assert(json_wf(p[i]));
                }
            }
        }
        if forall|i: int| 0 <= i < xs.len() ==> #[trigger] json_wf(xs[i]) {
            assert forall|i: int| 0 <= i < p.len() implies #[trigger] json_wf(p[i]) by {
                assert(p[i] == xs[i]);
                assert(json_wf(xs[i]));
            }
            assert(json_wf(xs[l]));
        }
    }
}

/// [`entries_wf`] holds exactly when each entry's value is well formed.
pub proof fn lemma_entries_wf(e: Seq<(Seq<char>, Json)>)
    ensures
        entries_wf(e) <==> forall|i: int| 0 <= i < e.len() ==> #[trigger] json_wf(e[i].1),
    decreases e.len(),
{
    if e.len() > 0 {
        let l = e.len() - 1;
        let p = e.subrange(0, l);
        lemma_entries_wf(p);
        assert(entries_wf(e) == (entries_wf(p) && json_wf(e[l].1)));
        if entries_wf(e) {
            assert forall|i: int| 0 <= i < e.len() implies #[trigger] json_wf(e[i].1) by {
                if i < l {
                    assert(p[i] == e[i]);
                    assert(json_wf(p[i].1));
                }
            }
        }
        if forall|i: int| 0 <= i < e.len() ==> #[trigger] json_wf(e[i].1) {
            assert forall|i: int| 0 <= i < p.len() implies #[trigger] json_wf(p[i].1) by {
                assert(p[i] == e[i]);
                assert(json_wf(e[i].1));
            }
            assert(json_wf(e[l].1));
        }
    }
}

/// The value that a lookup finds is the value of one of the entries.
pub proof fn lemma_entry_lookup_found(entries: Seq<(Seq<char>, Json)>, key: Seq<char>)
    ensures
        entry_lookup(entries, key) matches Some(x) ==> exists|i: int|
            0 <= i < entries.len() && entries[i].1 == x,
    decreases entries.len(),
{
    if entries.len() > 0 && entries[0].0 != key {
        let t = entries.drop_first();
        lemma_entry_lookup_found(t, key);
        if entry_lookup(t, key) is Some {
            let i = choose|i: int| 0 <= i < t.len() && t[i].1 == entry_lookup(t, key)->0;
            assert(entries[i + 1] == t[i]);
        }
    }
}

/// `v[key]` as serde_json's `Value::get` gives it: the entry of an object.
pub open spec fn json_get(v: Json, key: Seq<char>) -> Option<Json> {
    match v {
        Json::Object(entries) => entry_lookup(entries, key),
        _ => None,
    }
}

/// The model of an optional reference to a value.
pub open spec fn opt_view(r: Option<&JsonValue>) -> Option<Json> {
    match r {
        Some(x) => Some(x@),
        None => None,
    }
}

/// Whether two numbers are equal as serde_json compares them.
pub fn number_equals(a: &JsonNumber, b: &JsonNumber) -> (r: bool)
    ensures
        r == num_eq(a@, b@),
{
    match a {
        JsonNumber::PosInt(x) => match b {
            JsonNumber::PosInt(y) => *x == *y,
            _ => false,
        },
        JsonNumber::NegInt(x) => match b {
            JsonNumber::NegInt(y) => *x == *y,
            _ => false,
        },
        JsonNumber::Float { bits: x, .. } => match b {
            JsonNumber::Float { bits: y, .. } => *x == *y || ((*x == 0 || *x == 0x8000_0000_0000_0000u64)
                && (*y == 0 || *y == 0x8000_0000_0000_0000u64)),
            _ => false,
        },
    }
}

/// Whether two values are equal as serde_json compares them.
pub fn json_equals(a: &JsonValue, b: &JsonValue) -> (r: bool)
    ensures
        r == json_eq(a@, b@),
    decreases a,
{
    match a {
        JsonValue::Null => match b {
            JsonValue::Null => true,
            _ => false,
        },
        JsonValue::Bool(x) => match b {
            JsonValue::Bool(y) => *x == *y,
            _ => false,
        },
        JsonValue::Number(x) => match b {
            JsonValue::Number(y) => number_equals(x, y),
            _ => false,
        },
        JsonValue::String(x) => match b {
            JsonValue::String(y) => *x == *y,
            _ => false,
        },
        JsonValue::Array(xs) => match b {
            JsonValue::Array(ys) => {
                if xs.len() != ys.len() {
                    return false;
                }
                let ghost xv = items_view(xs@);
                let ghost yv = items_view(ys@);
                let mut i: usize = 0;
                while i < xs.len()
                    invariant
                        xs.len() == ys.len(),
                        0 <= i <= xs.len(),
                        xv == items_view(xs@),
                        yv == items_view(ys@),
                        *a == JsonValue::Array(*xs),
                        a@ == Json::Array(xv),
                        b@ == Json::Array(yv),
                        items_eq(xv.take(i as int), yv.take(i as int)),
                    decreases xs.len() - i,
                {
                    proof {
                        vstd::std_specs::vec::axiom_vec_index_decreases(*xs, i as int);
                    }
                    if !json_equals(&xs[i], &ys[i]) {
                        proof {
                            assert(!json_eq(xv[i as int], yv[i as int]));
                            lemma_items_eq(xv, yv);
                        }
                        return false;
                    }
                    assert(xv.take(i + 1).subrange(0, i as int) =~= xv.take(i as int));
                    assert(yv.take(i + 1).subrange(0, i as int) =~= yv.take(i as int));
                    i = i + 1;
                }
                assert(xv.take(i as int) =~= xv);
                assert(yv.take(i as int) =~= yv);
                true
            },
            _ => false,
        },
        JsonValue::Object(xs) => match b {
            JsonValue::Object(ys) => {
                if xs.len() != ys.len() {
                    return false;
                }
                let ghost xv = entries_view(xs@);
                let ghost yv = entries_view(ys@);
                let mut i: usize = 0;
                while i < xs.len()
                    invariant
                        xs.len() == ys.len(),
                        0 <= i <= xs.len(),
                        xv == entries_view(xs@),
                        yv == entries_view(ys@),
                        *a == JsonValue::Object(*xs),
                        a@ == Json::Object(xv),
                        b@ == Json::Object(yv),
                        entries_in(xv.take(i as int), yv),
                    decreases xs.len() - i,
                {
                    proof {
                        vstd::std_specs::vec::axiom_vec_index_decreases(*xs, i as int);
                        assert(decreases_to!(*a => (*a)->Object_0));
                        assert(decreases_to!(xs@[i as int] => xs@[i as int].1));
                        assert(decreases_to!(*a => xs@[i as int].1));
                    }
                    let same = match object_get(ys, xs[i].0.as_str()) {
                        Some(w) => json_equals(&xs[i].1, w),
                        None => false,
                    };
                    if !same {
                        proof {
                            assert(!entry_found(xv[i as int], yv));
                            lemma_entries_in(xv, yv);
                        }
                        return false;
                    }
                    assert(entry_found(xv[i as int], yv));
                    assert(xv.take(i + 1).subrange(0, i as int) =~= xv.take(i as int));
                    i = i + 1;
                }
                assert(xv.take(i as int) =~= xv);
                true
            },
            _ => false,
        },
    }
}


impl JsonNumber {
    /// A copy of this number.
    pub fn copy(&self) -> (r: JsonNumber)
        ensures
            r@ == self@,
    {
        match self {
            JsonNumber::PosInt(n) => JsonNumber::PosInt(*n),
            JsonNumber::NegInt(n) => JsonNumber::NegInt(*n),
            JsonNumber::Float { bits, text } => JsonNumber::Float { bits: *bits, text: text.clone() },
        }
    }
}

impl JsonValue {
    /// A copy of this value, as `Clone` gives it for serde_json's values.
    pub fn deep_copy(&self) -> (r: JsonValue)
        ensures
            r@ == self@,
    {
        copy_value(self)
    }

    /// The value under `key` when this is an object, as `Value::get` gives it.
    pub fn get(&self, key: &str) -> (r: Option<&JsonValue>)
        ensures
            opt_view(r) == json_get(self@, key@),
    {
        match self {
            JsonValue::Object(entries) => object_get(entries, key),
            _ => None,
        }
    }
}

/// The value of the first entry of `entries` whose key is `key`.
pub fn object_get<'a>(entries: &'a Vec<(String, JsonValue)>, key: &str) -> (r: Option<&'a JsonValue>)
    ensures
        opt_view(r) == entry_lookup(entries_view(entries@), key@),
{
    let k = String::from_str(key);
    let ghost ev = entries_view(entries@);
    let mut i: usize = 0;
    assert(ev.subrange(0, ev.len() as int) =~= ev);
    while i < entries.len()
        invariant
            0 <= i <= entries.len(),
            ev == entries_view(entries@),
            k@ == key@,
            entry_lookup(ev, key@) == entry_lookup(ev.subrange(i as int, ev.len() as int), key@),
        decreases entries.len() - i,
    {
        let ghost rest = ev.subrange(i as int, ev.len() as int);
        if entries[i].0 == k {
            assert(rest[0] == ev[i as int]);
            return Some(&entries[i].1);
        }
        assert(rest.drop_first() =~= ev.subrange(i + 1, ev.len() as int));
        i = i + 1;
    }
    None
}


/// A copy of `v` that has the same model.
fn copy_value(v: &JsonValue) -> (r: JsonValue)
    ensures
        r@ == v@,
    decreases v,
{
    match v {
        JsonValue::Null => JsonValue::Null,
        JsonValue::Bool(b) => JsonValue::Bool(*b),
        JsonValue::Number(n) => JsonValue::Number(n.copy()),
        JsonValue::String(s) => JsonValue::String(s.clone()),
        JsonValue::Array(xs) => {
            let mut out: Vec<JsonValue> = Vec::new();
            let mut i: usize = 0;
            while i < xs.len()
                invariant
                    *v == JsonValue::Array(*xs),
                    0 <= i <= xs.len(),
                    out@.len() == i,
                    forall|j: int| 0 <= j < i ==> #[trigger] out@[j]@ == xs@[j]@,
                decreases xs.len() - i,
            {
                proof {
                    vstd::std_specs::vec::axiom_vec_index_decreases(*xs, i as int);
                    assert(decreases_to!(*v => (*v)->Array_0));
                    assert(decreases_to!(*v => xs@[i as int]));
                }
                let c = copy_value(&xs[i]);
                out.push(c);
                i = i + 1;
            }
            assert forall|j: int| 0 <= j < out@.len() implies #[trigger] items_view(out@)[j]
                == items_view(xs@)[j] by {
                assert(out@[j]@ == xs@[j]@);
            }
            assert(items_view(out@) =~= items_view(xs@));
            JsonValue::Array(out)
        },
        JsonValue::Object(xs) => {
            let mut out: Vec<(String, JsonValue)> = Vec::new();
            let mut i: usize = 0;
            while i < xs.len()
                invariant
                    *v == JsonValue::Object(*xs),
                    0 <= i <= xs.len(),
                    out@.len() == i,
                    forall|j: int| #![trigger out@[j]]
                        0 <= j < i ==> out@[j].0@ == xs@[j].0@ && out@[j].1@ == xs@[j].1@,
                decreases xs.len() - i,
            {
                proof {
                    vstd::std_specs::vec::axiom_vec_index_decreases(*xs, i as int);
                    assert(decreases_to!(*v => (*v)->Object_0));
                    assert(decreases_to!(xs@[i as int] => xs@[i as int].1));
                    assert(decreases_to!(*v => xs@[i as int].1));
                }
                let c = copy_value(&xs[i].1);
                out.push((xs[i].0.clone(), c));
                i = i + 1;
            }
            assert forall|j: int| 0 <= j < out@.len() implies #[trigger] entries_view(out@)[j]
                == entries_view(xs@)[j] by {
                assert(out@[j].0@ == xs@[j].0@ && out@[j].1@ == xs@[j].1@);
            }
            assert(entries_view(out@) =~= entries_view(xs@));
            JsonValue::Object(out)
        },
    }
}

} // verus!
