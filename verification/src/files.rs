use vstd::prelude::*;

use crate::text::{chars_of, push_str};

verus! {

broadcast use vstd::string::group_string_axioms;

/// Whether a path is absolute, as `Path::is_absolute` decides on Unix: it
/// starts at the root `/`.
pub open spec fn is_absolute_path(p: Seq<char>) -> bool {
    p.len() > 0 && p[0] == '/'
}

/// The folder that holds the test files: the given one, else `api_tests`.
pub fn tests_folder(folder: Option<String>) -> (r: String)
    ensures
        r@ == match folder {
            Some(given) => given@,
            None => "api_tests"@,
        },
{
    match folder {
        Some(given) => given,
        None => {
            let mut s = String::new();
            push_str(&mut s, "api_tests");
            s
        },
    }
}

/// Whether a tests folder is used as given (it is absolute) rather than
/// taken relative to the working directory.
pub fn is_absolute_folder(folder: &str) -> (r: bool)
    ensures
        r == is_absolute_path(folder@),
{
    let cs = chars_of(folder);
    cs.len() > 0 && cs[0] == '/'
}

/// Whether a file name has the extension `toml`, as `Path::extension` reads
/// it: the part after the last `.`, where a `.` that starts the name does not
/// begin an extension. Since `toml` has no `.`, this is: the name ends with
/// `.toml` and has at least one character before it.
pub open spec fn has_toml_extension(name: Seq<char>) -> bool {
    name.len() > 5 && name.subrange(name.len() - 5, name.len() as int) == seq!['.', 't', 'o', 'm', 'l']
}

/// Whether `name` is the name of a test file.
pub fn is_toml_file(name: &str) -> (r: bool)
    ensures
        r == has_toml_extension(name@),
{
    let cs = chars_of(name);
    let n = cs.len();
    if n > 5 && cs[n - 5] == '.' && cs[n - 4] == 't' && cs[n - 3] == 'o' && cs[n - 2] == 'm' && cs[n - 1] == 'l' {
        assert(cs@.subrange(n - 5, n as int) =~= seq!['.', 't', 'o', 'm', 'l']);
        true
    } else {
        assert(n > 5 ==> cs@.subrange(n - 5, n as int)[0] == cs@[n - 5]);
        assert(n > 5 ==> cs@.subrange(n - 5, n as int)[1] == cs@[n - 4]);
        assert(n > 5 ==> cs@.subrange(n - 5, n as int)[2] == cs@[n - 3]);
        assert(n > 5 ==> cs@.subrange(n - 5, n as int)[3] == cs@[n - 2]);
        assert(n > 5 ==> cs@.subrange(n - 5, n as int)[4] == cs@[n - 1]);
        false
    }
}

/// The file name of the named test file: the name followed by `.toml`.
pub fn toml_file_name(test_name: &str) -> (r: String)
    ensures
        r@ == test_name@ + seq!['.', 't', 'o', 'm', 'l'],
{
    let mut s = String::new();
    push_str(&mut s, test_name);
    push_str(&mut s, ".toml");
    proof {
        reveal_strlit(".toml");
        assert(".toml"@ =~= seq!['.', 't', 'o', 'm', 'l']);
    }
    assert(s@ =~= test_name@ + seq!['.', 't', 'o', 'm', 'l']);
    s
}

} // verus!
