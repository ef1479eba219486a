use vstd::prelude::*;

use crate::json::{entries_view, items_view, Json, JsonNumber, JsonValue, Num};
use crate::text::{
    chars_of, decimal, digit, push_char, push_decimal, push_signed, push_str, signed_decimal,
};

verus! {

broadcast use vstd::string::group_string_axioms;

/// The lowercase hexadecimal digit for `d` (below 16).
pub open spec fn hex_digit(d: int) -> char {
    if d < 10 {
        digit(d)
    } else if d == 10 {
        'a'
    } else if d == 11 {
        'b'
    } else if d == 12 {
        'c'
    } else if d == 13 {
        'd'
    } else if d == 14 {
        'e'
    } else {
        'f'
    }
}

/// How serde_json writes one character inside a JSON string: quote and
/// backslash escaped, the named control characters by their short escapes,
/// the other control characters below U+0020 as `\u00XX`, all else as is.
pub open spec fn escape_char(c: char) -> Seq<char> {
    if c == '"' {
        seq!['\\', '"']
    } else if c == '\\' {
        seq!['\\', '\\']
    } else if c == '\u{8}' {
        seq!['\\', 'b']
    } else if c == '\t' {
        seq!['\\', 't']
    } else if c == '\n' {
        seq!['\\', 'n']
    } else if c == '\u{c}' {
        seq!['\\', 'f']
    } else if c == '\r' {
        seq!['\\', 'r']
    } else if (c as int) < 0x20 {
        seq!['\\', 'u', '0', '0', hex_digit((c as int) / 16), hex_digit((c as int) % 16)]
    } else {
        seq![c]
    }
}

/// The escaped contents of a JSON string.
pub open spec fn escape_str(s: Seq<char>) -> Seq<char>
    decreases s.len(),
{
    if s.len() == 0 {
        Seq::empty()
    } else {
        escape_str(s.drop_last()) + escape_char(s.last())
    }
}

/// A JSON string literal for `s`.
pub open spec fn quoted(s: Seq<char>) -> Seq<char> {
    seq!['"'] + escape_str(s) + seq!['"']
}

/// The text of a number as serde_json writes it.
pub open spec fn num_text(n: Num) -> Seq<char> {
    match n {
        Num::PosInt(x) => decimal(x as nat),
        Num::NegInt(x) => signed_decimal(x as int),
        Num::Float { text, .. } => text,
    }
}

/// The compact JSON text of a value, as serde_json's `to_string` and `{}`
/// write it: no white space, `,` between elements, `:` after keys.
pub open spec fn compact(j: Json) -> Seq<char>
    decreases j, 0nat,
{
    match j {
        Json::Null => seq!['n', 'u', 'l', 'l'],
        Json::Bool(b) => if b {
            seq!['t', 'r', 'u', 'e']
        } else {
            seq!['f', 'a', 'l', 's', 'e']
        },
        Json::Number(n) => num_text(n),
        Json::Str(s) => quoted(s),
        Json::Array(items) => seq!['['] + compact_items(items) + seq![']'],
        Json::Object(entries) => seq!['{'] + compact_entries(entries) + seq!['}'],
    }
}

/// The compact texts of `items`, separated by commas.
pub open spec fn compact_items(items: Seq<Json>) -> Seq<char>
    decreases items, 1nat,
{
    if items.len() == 0 {
        Seq::empty()
    } else {
        let prefix = items.subrange(0, items.len() - 1);
        let sep = if prefix.len() == 0 { Seq::empty() } else { seq![','] };
        compact_items(prefix) + sep + compact(items[items.len() - 1])
    }
}

/// The compact texts of the entries, `"key":value`, separated by commas.
pub open spec fn compact_entries(entries: Seq<(Seq<char>, Json)>) -> Seq<char>
    decreases entries, 1nat,
{
    if entries.len() == 0 {
        Seq::empty()
    } else {
        let prefix = entries.subrange(0, entries.len() - 1);
        let sep = if prefix.len() == 0 { Seq::empty() } else { seq![','] };
        let last = entries[entries.len() - 1];
        compact_entries(prefix) + sep + quoted(last.0) + seq![':'] + compact(last.1)
    }
}

fn hex_char(d: u32) -> (r: char)
    requires
        d < 16,
    ensures
        r == hex_digit(d as int),
{
    if d < 10 {
        digit_for(d)
    } else if d == 10 {
        'a'
    } else if d == 11 {
        'b'
    } else if d == 12 {
        'c'
    } else if d == 13 {
        'd'
    } else if d == 14 {
        'e'
    } else {
        'f'
    }
}

fn digit_for(d: u32) -> (r: char)
    requires
        d < 10,
    ensures
        r == digit(d as int),
{
    if d == 0 { '0' } else if d == 1 { '1' } else if d == 2 { '2' } else if d == 3 { '3' }
    else if d == 4 { '4' } else if d == 5 { '5' } else if d == 6 { '6' } else if d == 7 { '7' }
    else if d == 8 { '8' } else { '9' }
}

/// Appends the escaped form of one character.
pub fn push_escaped_char(out: &mut String, c: char)
    ensures
        final(out)@ == old(out)@ + escape_char(c),
{
    let code = c as u32;
    if c == '"' {
        push_char(out, '\\');
        push_char(out, '"');
    } else if c == '\\' {
        push_char(out, '\\');
        push_char(out, '\\');
    } else if c == '\u{8}' {
        push_char(out, '\\');
        push_char(out, 'b');
    } else if c == '\t' {
        push_char(out, '\\');
        push_char(out, 't');
    } else if c == '\n' {
        push_char(out, '\\');
        push_char(out, 'n');
    } else if c == '\u{c}' {
        push_char(out, '\\');
        push_char(out, 'f');
    } else if c == '\r' {
        push_char(out, '\\');
        push_char(out, 'r');
    } else if code < 0x20 {
        push_char(out, '\\');
        push_char(out, 'u');
        push_char(out, '0');
        push_char(out, '0');
        push_char(out, hex_char(code / 16));
        push_char(out, hex_char(code % 16));
    } else {
        push_char(out, c);
    }
    assert(final(out)@ =~= old(out)@ + escape_char(c));
}

/// Appends a JSON string literal for `s`.
pub fn push_quoted(out: &mut String, s: &str)
    ensures
        final(out)@ == old(out)@ + quoted(s@),
{
    let cs = chars_of(s);
    push_char(out, '"');
    let ghost start = out@;
    let mut i: usize = 0;
    assert(cs@.take(0) =~= Seq::<char>::empty());
    while i < cs.len()
        invariant
            0 <= i <= cs@.len(),
            out@ == start + escape_str(cs@.take(i as int)),
        decreases cs.len() - i,
    {
        push_escaped_char(out, cs[i]);
        assert(cs@.take(i + 1).drop_last() =~= cs@.take(i as int));
        i = i + 1;
    }
    assert(cs@.take(i as int) =~= cs@);
    push_char(out, '"');
    assert(final(out)@ =~= old(out)@ + quoted(s@));
}

/// Appends the text of a number.
pub fn push_number(out: &mut String, n: &JsonNumber)
    ensures
        final(out)@ == old(out)@ + num_text(n@),
{
    match n {
        JsonNumber::PosInt(x) => push_decimal(out, *x),
        JsonNumber::NegInt(x) => push_signed(out, *x),
        JsonNumber::Float { text, .. } => push_str(out, text.as_str()),
    }
}

/// Appends the compact JSON text of `v`.
pub fn push_compact(out: &mut String, v: &JsonValue)
    ensures
        final(out)@ == old(out)@ + compact(v@),
    decreases v,
{
    match v {
        JsonValue::Null => {
            push_char(out, 'n');
            push_char(out, 'u');
            push_char(out, 'l');
            push_char(out, 'l');
        },
        JsonValue::Bool(b) => {
            if *b {
                push_char(out, 't');
                push_char(out, 'r');
                push_char(out, 'u');
                push_char(out, 'e');
            } else {
                push_char(out, 'f');
                push_char(out, 'a');
                push_char(out, 'l');
                push_char(out, 's');
                push_char(out, 'e');
            }
        },
        JsonValue::Number(n) => push_number(out, n),
        JsonValue::String(s) => push_quoted(out, s.as_str()),
        JsonValue::Array(xs) => {
            push_char(out, '[');
            let ghost start = out@;
            let ghost xv = items_view(xs@);
            let mut i: usize = 0;
            assert(xv.subrange(0, 0) =~= Seq::<Json>::empty());
            while i < xs.len()
                invariant
                    *v == JsonValue::Array(*xs),
                    xv == items_view(xs@),
                    0 <= i <= xs.len(),
                    out@ == start + compact_items(xv.subrange(0, i as int)),
                decreases xs.len() - i,
            {
                proof {
                    vstd::std_specs::vec::axiom_vec_index_decreases(*xs, i as int);
                    assert(decreases_to!(*v => (*v)->Array_0));
                    assert(decreases_to!(*v => xs@[i as int]));
                }
                if i > 0 {
                    push_char(out, ',');
                }
                push_compact(out, &xs[i]);
                assert(xv.subrange(0, i + 1).subrange(0, i as int) =~= xv.subrange(0, i as int));
                i = i + 1;
            }
            assert(xv.subrange(0, i as int) =~= xv);
            push_char(out, ']');
            assert(final(out)@ =~= old(out)@ + compact(v@));
        },
        JsonValue::Object(xs) => {
            push_char(out, '{');
            let ghost start = out@;
            let ghost xv = entries_view(xs@);
            let mut i: usize = 0;
            assert(xv.subrange(0, 0) =~= Seq::<(Seq<char>, Json)>::empty());
            while i < xs.len()
                invariant
                    *v == JsonValue::Object(*xs),
                    xv == entries_view(xs@),
                    0 <= i <= xs.len(),
                    out@ == start + compact_entries(xv.subrange(0, i as int)),
                decreases xs.len() - i,
            {
                proof {
                    vstd::std_specs::vec::axiom_vec_index_decreases(*xs, i as int);
                    assert(decreases_to!(*v => (*v)->Object_0));
                    assert(decreases_to!(xs@[i as int] => xs@[i as int].1));
                    assert(decreases_to!(*v => xs@[i as int].1));
                }
                if i > 0 {
                    push_char(out, ',');
                }
                push_quoted(out, xs[i].0.as_str());
                push_char(out, ':');
                push_compact(out, &xs[i].1);
                assert(xv.subrange(0, i + 1).subrange(0, i as int) =~= xv.subrange(0, i as int));
                i = i + 1;
            }
            assert(xv.subrange(0, i as int) =~= xv);
            push_char(out, '}');
            assert(final(out)@ =~= old(out)@ + compact(v@));
        },
    }
}

/// The compact JSON text of `v`, as serde_json's `to_string` gives it.
pub fn to_compact(v: &JsonValue) -> (r: String)
    ensures
        r@ == compact(v@),
{
    let mut out = String::new();
    push_compact(&mut out, v);
    assert(out@ =~= compact(v@));
    out
}

} // verus!
