use vstd::prelude::*;

use crate::json::{
    entry_lookup, json_get, json_wf, lemma_entries_wf, lemma_entry_lookup_found, opt_view, Json, JsonValue,
};
use crate::text::{chars_of, lemma_split_nonempty, split_chars, split_on, strings_view};

verus! {

/// The value reached from `v` by looking up each key of `keys` in turn.
pub open spec fn lookup_keys(v: Json, keys: Seq<Seq<char>>) -> Option<Json>
    decreases keys.len(),
{
    if keys.len() == 0 {
        Some(v)
    } else {
        match json_get(v, keys[0]) {
            Some(x) => lookup_keys(x, keys.drop_first()),
            None => None,
        }
    }
}

/// The value at a dot-separated `path` in `v`: `"user.profile.id"` looks up
/// `user`, then `profile`, then `id`, each in the object reached so far.
pub open spec fn nested_value(v: Json, path: Seq<char>) -> Option<Json> {
    lookup_keys(v, split_on(path, '.'))
}

/// Extracts a nested value from a JSON value using dot notation.
/// For example, "response.user.id" would traverse response -> user -> id.
pub fn get_nested_value<'a>(value: &'a JsonValue, path: &str) -> (r: Option<&'a JsonValue>)
    ensures
        opt_view(r) == nested_value(value@, path@),
{
    let parts = split_chars(&chars_of(path), '.');
    let ghost keys = split_on(path@, '.');
    let mut current = value;
    let mut i: usize = 0;
    assert(keys.skip(0) =~= keys);
    while i < parts.len()
        invariant
            strings_view(parts@) == keys,
            keys == split_on(path@, '.'),
            0 <= i <= parts@.len(),
            lookup_keys(value@, keys) == lookup_keys(current@, keys.skip(i as int)),
        decreases parts.len() - i,
    {
        assert(keys.skip(i as int)[0] == parts@[i as int]@);
        assert(keys.skip(i as int).drop_first() =~= keys.skip(i + 1));
        match current.get(parts[i].as_str()) {
            Some(next) => {
                current = next;
            },
            None => {
                return None;
            },
        }
        i = i + 1;
    }
    assert(keys.skip(i as int) =~= Seq::<Seq<char>>::empty());
    Some(current)
}

/// Splitting `a`, a separator and `b` gives the pieces of `a` followed by the
/// pieces of `b`.
pub proof fn lemma_split_concat(a: Seq<char>, b: Seq<char>, sep: char)
    ensures
        split_on(a + seq![sep] + b, sep) == split_on(a, sep) + split_on(b, sep),
    decreases b.len(),
{
    lemma_split_nonempty(a, sep);
    lemma_split_nonempty(b, sep);
    let s = a + seq![sep] + b;
    if b.len() == 0 {
        assert(s.drop_last() =~= a);
        assert(split_on(s, sep) =~= split_on(a, sep) + split_on(b, sep));
    } else {
        let b1 = b.drop_last();
        lemma_split_concat(a, b1, sep);
        lemma_split_nonempty(b1, sep);
        assert(s.drop_last() =~= a + seq![sep] + b1);
        assert(s.last() == b.last());
        let pa = split_on(a, sep);
        assert(split_on(s, sep) =~= pa + split_on(b, sep));
    }
}

/// Looking up `k1` then `k2` is looking up `k1` followed by `k2`.
pub proof fn lemma_lookup_keys_concat(v: Json, k1: Seq<Seq<char>>, k2: Seq<Seq<char>>)
    ensures
        lookup_keys(v, k1 + k2) == match lookup_keys(v, k1) {
            Some(x) => lookup_keys(x, k2),
            None => None,
        },
    decreases k1.len(),
{
    if k1.len() > 0 {
        assert((k1 + k2)[0] == k1[0]);
        assert((k1 + k2).drop_first() =~= k1.drop_first() + k2);
        match json_get(v, k1[0]) {
            Some(x) => lemma_lookup_keys_concat(x, k1.drop_first(), k2),
            None => {},
        }
    } else {
        assert(k1 + k2 =~= k2);
    }
}

/// Law of dot notation: the value at `p.q` is the value at `q` within the
/// value at `p`.
pub proof fn law_nested_path_composes(v: Json, p: Seq<char>, q: Seq<char>)
    ensures
        nested_value(v, p + seq!['.'] + q) == match nested_value(v, p) {
            Some(x) => nested_value(x, q),
            None => None,
        },
{
    lemma_split_concat(p, q, '.');
    lemma_lookup_keys_concat(v, split_on(p, '.'), split_on(q, '.'));
}

/// What a lookup reaches inside a well-formed value is well formed.
pub proof fn lemma_lookup_keys_wf(v: Json, keys: Seq<Seq<char>>)
    requires
        json_wf(v),
    ensures
        lookup_keys(v, keys) matches Some(x) ==> json_wf(x),
    decreases keys.len(),
{
    if keys.len() > 0 {
        if let Json::Object(e) = v {
            lemma_entry_lookup_found(e, keys[0]);
            if let Some(x) = entry_lookup(e, keys[0]) {
                let i = choose|i: int| 0 <= i < e.len() && e[i].1 == x;
                lemma_entries_wf(e);
                assert(json_wf(e[i].1));
                lemma_lookup_keys_wf(x, keys.drop_first());
            }
        }
    }
}

/// The value at a path in a well-formed value is well formed.
pub proof fn lemma_nested_value_wf(v: Json, path: Seq<char>)
    requires
        json_wf(v),
    ensures
        nested_value(v, path) matches Some(x) ==> json_wf(x),
{
    lemma_lookup_keys_wf(v, split_on(path, '.'));
}

/// A string without the separator is one piece.
proof fn lemma_split_without_sep(s: Seq<char>, sep: char)
    requires
        !s.contains(sep),
    ensures
        split_on(s, sep) == seq![s],
    decreases s.len(),
{
    if s.len() > 0 {
        assert(!s.drop_last().contains(sep)) by {
            if s.drop_last().contains(sep) {
                let i = choose|i: int| 0 <= i < s.drop_last().len() && s.drop_last()[i] == sep;
                assert(s[i] == sep);
            }
        }
        lemma_split_without_sep(s.drop_last(), sep);
        assert(s.last() != sep) by {
            assert(s[s.len() - 1] == s.last());
        }
        assert(s.drop_last().push(s.last()) =~= s);
    } else {
        assert(s =~= Seq::<char>::empty());
    }
}

/// Law of dot notation: a path without a dot is a single key, looked up in
/// the object itself; a value that is not an object has nothing at any path.
pub proof fn law_single_key_path(v: Json, key: Seq<char>)
    ensures
        !key.contains('.') ==> nested_value(v, key) == json_get(v, key),
        !(v is Object) ==> nested_value(v, key) is None,
{
    lemma_split_nonempty(key, '.');
    if !key.contains('.') {
        lemma_split_without_sep(key, '.');
        assert(seq![key].drop_first() =~= Seq::<Seq<char>>::empty());
        reveal_with_fuel(lookup_keys, 2);
    }
}

} // verus!
