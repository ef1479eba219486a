use vstd::prelude::*;

use crate::text::{
    chars_of, first_index, first_index_of, is_white_space, lines_chars, lines_of, string_of, strings_view, trim,
    trim_bounds, trim_end, trim_start,
};

verus! {

/// A line without its comment: what stands before its first `#`.
pub open spec fn without_comment(line: Seq<char>) -> Seq<char> {
    match first_index(line, '#') {
        Some(i) => line.subrange(0, i),
        None => line,
    }
}

/// The table name of a line that is a table header `[name]` once its
/// comment is left off and it is trimmed: it starts with `[`, ends with `]`,
/// and has no other `[`.
pub open spec fn table_header_key(line: Seq<char>) -> Option<Seq<char>> {
    let t = trim(without_comment(line));
    if t.len() > 0 && t[0] == '[' && t.last() == ']' && !t.subrange(1, t.len() as int).contains('[') {
        Some(t.subrange(1, t.len() - 1))
    } else {
        None
    }
}

/// A string with no `c` has no first `c`.
proof fn lemma_first_index_none(s: Seq<char>, c: char)
    requires
        forall|i: int| 0 <= i < s.len() ==> #[trigger] s[i] != c,
    ensures
        first_index(s, c) is None,
    decreases s.len(),
{
    if s.len() > 0 {
        assert forall|i: int| 0 <= i < s.drop_first().len() implies #[trigger] s.drop_first()[i] != c by {
            assert(s.drop_first()[i] == s[i + 1]);
        }
        lemma_first_index_none(s.drop_first(), c);
    }
}

/// Leading white space is left off up to the first other character.
proof fn lemma_trim_start_prefix(w: Seq<char>, rest: Seq<char>)
    requires
        forall|i: int| 0 <= i < w.len() ==> #[trigger] is_white_space(w[i]),
        rest.len() > 0,
        !is_white_space(rest[0]),
    ensures
        trim_start(w + rest) == rest,
    decreases w.len(),
{
    if w.len() == 0 {
        assert(w + rest =~= rest);
    } else {
        assert((w + rest)[0] == w[0]);
        assert((w + rest).drop_first() =~= w.drop_first() + rest);
        assert forall|i: int| 0 <= i < w.drop_first().len() implies #[trigger] is_white_space(w.drop_first()[i]) by {
            assert(w.drop_first()[i] == w[i + 1]);
        }
        lemma_trim_start_prefix(w.drop_first(), rest);
    }
}

/// Trailing white space is left off back to the last other character.
proof fn lemma_trim_end_suffix(x: Seq<char>, w: Seq<char>)
    requires
        forall|i: int| 0 <= i < w.len() ==> #[trigger] is_white_space(w[i]),
        x.len() > 0,
        !is_white_space(x.last()),
    ensures
        trim_end(x + w) == x,
    decreases w.len(),
{
    if w.len() == 0 {
        assert(x + w =~= x);
    } else {
        assert((x + w).last() == w.last());
        assert((x + w).drop_last() =~= x + w.drop_last());
        assert forall|i: int| 0 <= i < w.drop_last().len() implies #[trigger] is_white_space(w.drop_last()[i]) by {
            assert(w.drop_last()[i] == w[i]);
        }
        lemma_trim_end_suffix(x, w.drop_last());
    }
}

/// Law of table headers: a line made of white space, `[`, a name with no
/// `[` and no `#`, `]`, and white space gives that name. White space is
/// every character that `char::is_whitespace` accepts: tab, line feed,
/// vertical tab, form feed, carriage return, space, U+0085, U+00A0, U+1680,
/// U+2000 to U+200A, U+2028, U+2029, U+202F, U+205F and U+3000.
pub proof fn law_header_line_gives_its_name(w1: Seq<char>, name: Seq<char>, w2: Seq<char>)
    requires
        forall|i: int| 0 <= i < w1.len() ==> {
            let c = #[trigger] w1[i];
            ||| '\t' <= c <= '\r'
            ||| c == ' ' || c == '\u{85}' || c == '\u{a0}' || c == '\u{1680}'
            ||| '\u{2000}' <= c <= '\u{200a}'
            ||| c == '\u{2028}' || c == '\u{2029}' || c == '\u{202f}' || c == '\u{205f}' || c == '\u{3000}'
        },
        forall|i: int| 0 <= i < w2.len() ==> {
            let c = #[trigger] w2[i];
            ||| '\t' <= c <= '\r'
            ||| c == ' ' || c == '\u{85}' || c == '\u{a0}' || c == '\u{1680}'
            ||| '\u{2000}' <= c <= '\u{200a}'
            ||| c == '\u{2028}' || c == '\u{2029}' || c == '\u{202f}' || c == '\u{205f}' || c == '\u{3000}'
        },
        !name.contains('['),
        !name.contains('#'),
    ensures
        table_header_key(w1 + seq!['['] + name + seq![']'] + w2) == Some(name),
{
    let core = seq!['['] + name + seq![']'];
    let line = w1 + seq!['['] + name + seq![']'] + w2;
    assert(line =~= w1 + (core + w2));
    assert forall|i: int| 0 <= i < w1.len() implies #[trigger] is_white_space(w1[i]) by {}
    assert forall|i: int| 0 <= i < w2.len() implies #[trigger] is_white_space(w2[i]) by {}
    assert forall|i: int| 0 <= i < line.len() implies #[trigger] line[i] != '#' by {
        if w1.len() <= i < w1.len() + core.len() {
            let j = i - w1.len();
            if 1 <= j < core.len() - 1 {
                assert(core[j] == name[j - 1]);
            }
        }
    }
    lemma_first_index_none(line, '#');
    assert(without_comment(line) == line);
    assert((core + w2)[0] == '[');
    lemma_trim_start_prefix(w1, core + w2);
    assert(core.last() == ']');
    lemma_trim_end_suffix(core, w2);
    assert(trim(line) == core);
    assert(core.subrange(1, core.len() as int) =~= name + seq![']']);
    assert(!core.subrange(1, core.len() as int).contains('[')) by {
        if core.subrange(1, core.len() as int).contains('[') {
            let m = choose|m: int| 0 <= m < name.len() + 1 && (name + seq![']'])[m] == '[';
            if m < name.len() {
                assert(name[m] == '[');
            }
        }
    }
    assert(core.subrange(1, core.len() - 1) =~= name);
}

/// The table names of the header lines among `lines`, in order.
pub open spec fn header_keys(lines: Seq<Seq<char>>) -> Seq<Seq<char>>
    decreases lines.len(),
{
    if lines.len() == 0 {
        Seq::empty()
    } else {
        let prev = header_keys(lines.drop_last());
        match table_header_key(lines.last()) {
            Some(k) => prev.push(k),
            None => prev,
        }
    }
}

/// The table name of one line, if it is a table header.
fn header_key_of(line: &String) -> (r: Option<String>)
    ensures
        match r {
            Some(k) => table_header_key(line@) == Some(k@),
            None => table_header_key(line@) is None,
        },
{
    let all = chars_of(line.as_str());
    let n = first_index_of(&all, '#');
    let cs = chars_of(string_of(&all, 0, n).as_str());
    assert(cs@ =~= without_comment(line@));
    let (a, b) = trim_bounds(&cs);
    let ghost t = cs@.subrange(a as int, b as int);
    if b > a && cs[a] == '[' && cs[b - 1] == ']' {
        let mut j: usize = a + 1;
        while j < b
            invariant
                a < j <= b <= cs@.len(),
                t == cs@.subrange(a as int, b as int),
                t == trim(without_comment(line@)),
                t.len() > 0 && t[0] == '[' && t.last() == ']',
                forall|m: int| a + 1 <= m < j ==> cs@[m] != '[',
            decreases b - j,
        {
            if cs[j] == '[' {
                assert(t.subrange(1, t.len() as int)[j - a - 1] == '[');
                return None;
            }
            j = j + 1;
        }
        assert(!t.subrange(1, t.len() as int).contains('[')) by {
            if t.subrange(1, t.len() as int).contains('[') {
                let m = choose|m: int| 0 <= m < t.len() - 1 && t.subrange(1, t.len() as int)[m] == '[';
                assert(cs@[a + 1 + m] == '[');
            }
        }
        let k = string_of(&cs, a + 1, b - 1);
        assert(k@ =~= t.subrange(1, t.len() - 1));
        Some(k)
    } else {
        None
    }
}

/// Scans the raw TOML content to extract table keys in the order they appear,
/// providing a vec ready to be iterated through by the test runner. A
/// comment after a table header is left off.
pub fn extract_table_keys_order(content: &str) -> (r: Vec<String>)
    ensures
        strings_view(r@) == header_keys(lines_of(content@)),
{
    let lines = lines_chars(&chars_of(content));
    let ghost lv = lines_of(content@);
    let mut keys: Vec<String> = Vec::new();
    let mut i: usize = 0;
    while i < lines.len()
        invariant
            strings_view(lines@) == lv,
            0 <= i <= lines@.len(),
            strings_view(keys@) == header_keys(lv.take(i as int)),
        decreases lines.len() - i,
    {
        proof {
            assert(lv.take(i + 1).drop_last() =~= lv.take(i as int));
            assert(lv.take(i + 1).last() == lines@[i as int]@);
        }
        let ghost before = keys@;
        match header_key_of(&lines[i]) {
            Some(k) => {
                keys.push(k);
                assert(strings_view(keys@) =~= strings_view(before).push(k@));
            },
            None => {},
        }
        i = i + 1;
    }
    assert(lv.take(i as int) =~= lv);
    keys
}

} // verus!
