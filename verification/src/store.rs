use vstd::prelude::*;

use crate::json::{entries_view, entry_lookup, object_get, opt_view, Json, JsonValue};

verus! {

/// The responses of the tests run so far, by test name; a later response
/// under a name replaces the earlier one.
pub struct ResponseStore {
    entries: Vec<(String, JsonValue)>,
}

/// The map that a sequence of entries stands for: each key maps to the value
/// of its first entry.
pub open spec fn entries_map(e: Seq<(Seq<char>, Json)>) -> Map<Seq<char>, Json> {
    Map::new(|k: Seq<char>| entry_lookup(e, k) is Some, |k: Seq<char>| entry_lookup(e, k).unwrap())
}

impl View for ResponseStore {
    type V = Map<Seq<char>, Json>;

    closed spec fn view(&self) -> Map<Seq<char>, Json> {
        entries_map(entries_view(self.entries@))
    }
}

/// The lookup finds nothing exactly when no entry has key `k`.
pub proof fn lemma_lookup_none(e: Seq<(Seq<char>, Json)>, k: Seq<char>)
    ensures
        (entry_lookup(e, k) is None) <==> (forall|j: int| 0 <= j < e.len() ==> #[trigger] e[j].0 != k),
    decreases e.len(),
{
    if e.len() > 0 {
        let t = e.drop_first();
        lemma_lookup_none(t, k);
        if forall|j: int| 0 <= j < e.len() ==> #[trigger] e[j].0 != k {
            assert forall|j: int| 0 <= j < t.len() implies #[trigger] t[j].0 != k by {
                assert(t[j] == e[j + 1]);
            }
        }
        if entry_lookup(e, k) is None {
            assert forall|j: int| 0 <= j < e.len() implies #[trigger] e[j].0 != k by {
                if j > 0 {
                    assert(t[j - 1] == e[j]);
                }
            }
        }
    }
}

/// Replacing the value of the first entry with key `k` changes the lookup of
/// `k` only.
proof fn lemma_lookup_replace(e: Seq<(Seq<char>, Json)>, k: Seq<char>, i: int, x: Json, k2: Seq<char>)
    requires
        0 <= i < e.len(),
        e[i].0 == k,
        forall|j: int| 0 <= j < i ==> #[trigger] e[j].0 != k,
    ensures
        entry_lookup(e.update(i, (k, x)), k2) == if k2 == k {
            Some(x)
        } else {
            entry_lookup(e, k2)
        },
    decreases i,
{
    let u = e.update(i, (k, x));
    if i == 0 {
        if k2 != k {
            assert(u.drop_first() =~= e.drop_first());
        }
    } else {
        assert(u[0] == e[0]);
        let t = e.drop_first();
        assert forall|j: int| 0 <= j < i - 1 implies #[trigger] t[j].0 != k by {
            assert(t[j] == e[j + 1]);
        }
        lemma_lookup_replace(t, k, i - 1, x, k2);
        assert(u.drop_first() =~= t.update(i - 1, (k, x)));
    }
}

/// Appending an entry for a key that has none adds that key only.
proof fn lemma_lookup_append(e: Seq<(Seq<char>, Json)>, k: Seq<char>, x: Json, k2: Seq<char>)
    requires
        entry_lookup(e, k) is None,
    ensures
        entry_lookup(e.push((k, x)), k2) == if k2 == k {
            Some(x)
        } else {
            entry_lookup(e, k2)
        },
    decreases e.len(),
{
    let u = e.push((k, x));
    if e.len() == 0 {
        if k2 != k {
            assert(u.drop_first() =~= Seq::<(Seq<char>, Json)>::empty());
        }
    } else {
        assert(u[0] == e[0]);
        assert(u.drop_first() =~= e.drop_first().push((k, x)));
        lemma_lookup_append(e.drop_first(), k, x, k2);
    }
}

impl ResponseStore {
    /// A store with no responses.
    pub fn new() -> (r: ResponseStore)
        ensures
            r@ == Map::<Seq<char>, Json>::empty(),
    {
        let r = ResponseStore { entries: Vec::new() };
        assert(r@ =~= Map::<Seq<char>, Json>::empty());
        r
    }

    /// The response stored under `name`.
    pub fn get(&self, name: &str) -> (r: Option<&JsonValue>)
        ensures
            opt_view(r) == if self@.contains_key(name@) {
                Some(self@[name@])
            } else {
                None::<Json>
            },
    {
        object_get(&self.entries, name)
    }

    /// Stores `response` under `name`, in place of any earlier one.
    pub fn insert(&mut self, name: String, response: JsonValue)
        ensures
            final(self)@ == old(self)@.insert(name@, response@),
    {
        let ghost ev = entries_view(self.entries@);
        let mut i: usize = 0;
        while i < self.entries.len()
            invariant
                0 <= i <= self.entries@.len(),
                ev == entries_view(self.entries@),
                *self == *old(self),
                forall|j: int| 0 <= j < i ==> #[trigger] ev[j].0 != name@,
            decreases self.entries.len() - i,
        {
            if self.entries[i].0 == name {
                let ghost nv = response@;
                self.entries.set(i, (name, response));
                proof {
                    assert(entries_view(self.entries@) =~= ev.update(i as int, (ev[i as int].0, nv)));
                    assert forall|k: Seq<char>| true implies entry_lookup(entries_view(self.entries@), k)
                        == (if k == ev[i as int].0 { Some(nv) } else { entry_lookup(ev, k) }) by {
                        lemma_lookup_replace(ev, ev[i as int].0, i as int, nv, k);
                    }
                    assert(self@ =~= old(self)@.insert(ev[i as int].0, nv));
                }
                return;
            }
            i = i + 1;
        }
        proof {
            lemma_lookup_none(ev, name@);
        }
        let ghost nk = name@;
        let ghost nv = response@;
        self.entries.push((name, response));
        proof {
            assert(entries_view(self.entries@) =~= ev.push((nk, nv)));
            assert forall|k: Seq<char>| true implies entry_lookup(entries_view(self.entries@), k)
                == (if k == nk { Some(nv) } else { entry_lookup(ev, k) }) by {
                lemma_lookup_append(ev, nk, nv, k);
            }
            assert(self@ =~= old(self)@.insert(nk, nv));
        }
    }
}

/// Law of the response store: a read after a write under the same name gives
/// the written response, and a write leaves the other names as they were.
pub proof fn law_store_read_after_write(
    before: Map<Seq<char>, Json>,
    after: Map<Seq<char>, Json>,
    name: Seq<char>,
    response: Json,
    other: Seq<char>,
)
    requires
        after == before.insert(name, response),
    ensures
        after.contains_key(name) && after[name] == response,
        other != name ==> (after.contains_key(other) == before.contains_key(other) && (
        before.contains_key(other) ==> after[other] == before[other])),
{
}

} // verus!
