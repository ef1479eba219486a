use vstd::prelude::*;

use crate::text::{chars_of, first_index, string_of, trim, trim_bounds};

verus! {

/// Why a header given on the command line cannot be used.
#[derive(Debug)]
pub enum HeaderError {
    /// There is no `:` between the name and the value.
    MissingColon,
    /// The name before the `:` is empty.
    EmptyName,
}

/// A header written `Name: value`: the name is what stands before the first
/// `:`, the value what follows it, each trimmed; the name must not be empty.
pub open spec fn header_parts(h: Seq<char>) -> Result<(Seq<char>, Seq<char>), HeaderError> {
    match first_index(h, ':') {
        None => Err(HeaderError::MissingColon),
        Some(i) => {
            let name = trim(h.subrange(0, i));
            if name.len() == 0 {
                Err(HeaderError::EmptyName)
            } else {
                Ok((name, trim(h.subrange(i + 1, h.len() as int))))
            }
        },
    }
}

/// The first `c` of `a + [c] + b`, where `a` has none, is right after `a`.
proof fn lemma_first_index_after(a: Seq<char>, c: char, b: Seq<char>)
    requires
        !a.contains(c),
    ensures
        first_index(a + seq![c] + b, c) == Some(a.len() as int),
    decreases a.len(),
{
    let s = a + seq![c] + b;
    if a.len() == 0 {
        assert(s[0] == c);
    } else {
        assert(s[0] == a[0]);
        assert(a[0] != c) by {
            if a[0] == c {
                assert(a.contains(c));
            }
        }
        assert(!a.drop_first().contains(c)) by {
            if a.drop_first().contains(c) {
                let i = choose|i: int| 0 <= i < a.drop_first().len() && a.drop_first()[i] == c;
                assert(a[i + 1] == c);
            }
        }
        assert(s.drop_first() =~= a.drop_first() + seq![c] + b);
        lemma_first_index_after(a.drop_first(), c, b);
    }
}

/// Law of headers: a header splits at its first `:`; the name before it and
/// the value after it are trimmed, and any later `:` stays in the value.
pub proof fn law_header_splits_at_first_colon(name: Seq<char>, value: Seq<char>)
    requires
        !name.contains(':'),
    ensures
        header_parts(name + seq![':'] + value) == if trim(name).len() == 0 {
            Err::<(Seq<char>, Seq<char>), HeaderError>(HeaderError::EmptyName)
        } else {
            Ok((trim(name), trim(value)))
        },
{
    let h = name + seq![':'] + value;
    lemma_first_index_after(name, ':', value);
    assert(h.subrange(0, name.len() as int) =~= name);
    assert(h.subrange(name.len() as int + 1, h.len() as int) =~= value);
}

/// Splits a header given as `Name: value` into its name and value.
pub fn parse_header(header: &str) -> (r: Result<(String, String), HeaderError>)
    ensures
        match r {
            Ok((name, value)) => header_parts(header@) == Ok::<(Seq<char>, Seq<char>), HeaderError>((name@, value@)),
            Err(e) => header_parts(header@) == Err::<(Seq<char>, Seq<char>), HeaderError>(e),
        },
{
    let cs = chars_of(header);
    let mut i: usize = 0;
    assert(cs@.subrange(0, cs@.len() as int) =~= cs@);
    while i < cs.len() && cs[i] != ':'
        invariant
            0 <= i <= cs@.len(),
            first_index(cs@, ':') == match first_index(cs@.subrange(i as int, cs@.len() as int), ':') {
                Some(j) => Some(j + i),
                None => None,
            },
        decreases cs.len() - i,
    {
        assert(cs@.subrange(i as int, cs@.len() as int).drop_first() =~= cs@.subrange(i + 1, cs@.len() as int));
        i = i + 1;
    }
    if i == cs.len() {
        assert(cs@.subrange(i as int, cs@.len() as int) =~= Seq::<char>::empty());
        return Err(HeaderError::MissingColon);
    }
    assert(cs@.subrange(i as int, cs@.len() as int)[0] == ':');
    let name_part = string_of(&cs, 0, i);
    let value_part = string_of(&cs, i + 1, cs.len());
    let name_chars = chars_of(name_part.as_str());
    let value_chars = chars_of(value_part.as_str());
    let (a, b) = trim_bounds(&name_chars);
    if a == b {
        return Err(HeaderError::EmptyName);
    }
    let (c, d) = trim_bounds(&value_chars);
    Ok((string_of(&name_chars, a, b), string_of(&value_chars, c, d)))
}

} // verus!
