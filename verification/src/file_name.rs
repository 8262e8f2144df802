//! Resolving MIT-style `TYPE:residual` store names to file paths.

use vstd::prelude::*;

use crate::text::{
    eq_ignore_ascii_case, spec_eq_ignore_ascii_case, spec_find, str_chars, string_from_chars,
};

verus! {

/// Why a store name could not be resolved to a file path.
#[derive(Clone, Debug, Eq, PartialEq)]
pub enum Error {
    /// The name, or the path after its type prefix, is empty.
    Empty,
    /// The name's type prefix is not one of the allowed file types.
    UnsupportedType {
        /// The prefix before the first colon.
        name_type: String,
    },
}

/// ASCII letters.
pub open spec fn spec_is_ascii_alpha(c: char) -> bool {
    ('a' <= c && c <= 'z') || ('A' <= c && c <= 'Z')
}

/// A one-letter prefix followed by a slash: a Windows drive path such as
/// `C:\cache`, which has no type prefix.
pub open spec fn spec_is_windows_drive_path(prefix: Seq<char>, path: Seq<char>) -> bool {
    prefix.len() == 1 && spec_is_ascii_alpha(prefix[0]) && path.len() > 0 && (path[0] == '\\'
        || path[0] == '/')
}

/// Resolution of a store name:
/// - an empty name is `Empty`;
/// - a name without a colon, or a Windows drive path, is the path itself;
/// - `TYPE:path` with `TYPE` allowed (ignoring ASCII case) is `path`, or
///   `Empty` when `path` is empty;
/// - any other `TYPE:...` is `UnsupportedType` naming `TYPE`.
/// The error side is `None` for `Empty` and `Some(prefix)` for
/// `UnsupportedType`.
pub open spec fn spec_file_path_from_name(name: Seq<char>, allowed: Seq<Seq<char>>) -> Result<
    Seq<char>,
    Option<Seq<char>>,
> {
    if name.len() == 0 {
        Err(None)
    } else {
        match spec_find(name, ':') {
            None => Ok(name),
            Some(i) => {
                let prefix = name.subrange(0, i);
                let path = name.subrange(i + 1, name.len() as int);
                if spec_is_windows_drive_path(prefix, path) {
                    Ok(name)
                } else if exists|k: int|
                    0 <= k < allowed.len() && spec_eq_ignore_ascii_case(prefix, #[trigger] allowed[k]) {
                    if path.len() == 0 {
                        Err(None)
                    } else {
                        Ok(path)
                    }
                } else {
                    Err(Some(prefix))
                }
            },
        }
    }
}

/// The error value that a spec outcome stands for.
pub open spec fn spec_error_matches(e: Error, payload: Option<Seq<char>>) -> bool {
    match e {
        Error::Empty => payload is None,
        Error::UnsupportedType { name_type } => payload == Some(name_type@),
    }
}

/// The result of `file_path_from_name` in terms of its spec.
pub open spec fn spec_result_matches(
    r: Result<String, Error>,
    name: Seq<char>,
    allowed: Seq<Seq<char>>,
) -> bool {
    match (r, spec_file_path_from_name(name, allowed)) {
        (Ok(p), Ok(q)) => p@ == q,
        (Err(e), Err(q)) => spec_error_matches(e, q),
        _ => false,
    }
}

/// Resolve `name` to a file path, accepting the type prefixes in
/// `allowed_types` (compared ignoring ASCII case).
#[verifier::loop_isolation(false)]
pub fn file_path_from_name(name: &str, allowed_types: &[&str]) -> (r: Result<String, Error>)
    ensures
        spec_result_matches(r, name@, allowed_types@.map_values(|t: &str| t@)),
{
    let ghost allowed = allowed_types@.map_values(|t: &str| t@);
    let chars = str_chars(name);
    if chars.len() == 0 {
        return Err(Error::Empty);
    }
    let mut i: usize = 0;
    while i < chars.len() && chars[i] != ':'
        invariant
            chars@ == name@,
            i <= chars@.len(),
            forall|j: int| 0 <= j < i ==> chars@[j] != ':',
        decreases chars@.len() - i,
    {
        i = i + 1;
    }
    if i == chars.len() {
        assert(spec_find(name@, ':') is None);
        return Ok(name.to_owned());
    }
    assert(spec_find(name@, ':') == Some(i as int)) by {
        let k = choose|k: int| 0 <= k < name@.len() && name@[k] == ':' && forall|j: int|
            0 <= j < k ==> name@[j] != ':';
        assert(name@[i as int] == ':');
        if k < i {
            assert(name@[k] != ':');
        }
        if k > i {
            assert(name@[i as int] != ':');
        }
    }
    let prefix = vstd::slice::slice_subrange(chars.as_slice(), 0, i);
    let path = vstd::slice::slice_subrange(chars.as_slice(), i + 1, chars.len());
    assert(prefix@ == name@.subrange(0, i as int));
    assert(path@ == name@.subrange(i + 1, name@.len() as int));
    if prefix.len() == 1 && (('a' <= prefix[0] && prefix[0] <= 'z') || ('A' <= prefix[0]
        && prefix[0] <= 'Z')) && path.len() > 0 && (path[0] == '\\' || path[0] == '/') {
        return Ok(name.to_owned());
    }
    let mut k: usize = 0;
    while k < allowed_types.len()
        invariant
            k <= allowed_types@.len(),
            allowed == allowed_types@.map_values(|t: &str| t@),
            forall|j: int| 0 <= j < k ==> !spec_eq_ignore_ascii_case(prefix@, #[trigger] allowed[j]),
        decreases allowed_types@.len() - k,
    {
        let allowed_chars = str_chars(allowed_types[k]);
        if eq_ignore_ascii_case(prefix, allowed_chars.as_slice()) {
            assert(spec_eq_ignore_ascii_case(prefix@, allowed[k as int]));
            if path.len() == 0 {
                return Err(Error::Empty);
            }
            return Ok(string_from_chars(path));
        }
        k = k + 1;
    }
    Err(Error::UnsupportedType { name_type: string_from_chars(prefix) })
}

} // verus!
