//! Path validation for subtitle files: the checks on the path string itself.
//! Whether the file exists on disk is the caller's concern; the
//! `FileNotFound` variant is produced by the code that touches the file
//! system.

use crate::text::{subrange_vec, to_chars, trim_vec};
use vstd::prelude::*;
use vstd::string::StringExecFns;

verus! {

/// Everything that can be wrong with a subtitle file path: empty (or
/// whitespace only), a character outside the whitelist, a missing `.srt`
/// extension, or — for the caller that touches the disk — a file that does
/// not exist.
#[derive(Debug, Clone, Copy, PartialEq, Eq, Structural)]
pub enum PathError {
    EmptyPath,
    FileNotFound,
    IllegalCharacters,
    IncorrectExtension,
}

impl PathError {
    /// A human-readable description of the error.
    pub fn message(&self) -> (r: String)
        ensures
            match *self {
                PathError::EmptyPath => r@ == "File path is empty"@,
                PathError::FileNotFound => r@ == "File not found"@,
                PathError::IllegalCharacters => r@
                    == "Characters must be:\n ABCDEFGHIJKLMNOPQRSTUVWXYZabcdefghijklmnopqrstuvwxyz01234567890-./"@,
                PathError::IncorrectExtension => r@ == "File extension is not .srt"@,
            },
    {
        match self {
            PathError::EmptyPath => String::from_str("File path is empty"),
            PathError::FileNotFound => String::from_str("File not found"),
            PathError::IllegalCharacters => String::from_str(
                "Characters must be:\n ABCDEFGHIJKLMNOPQRSTUVWXYZabcdefghijklmnopqrstuvwxyz01234567890-./",
            ),
            PathError::IncorrectExtension => String::from_str("File extension is not .srt"),
        }
    }
}

/// The characters a subtitle file path may contain: ASCII letters, digits,
/// `-`, `.` and `/`.
pub open spec fn path_char_ok(c: char) -> bool {
    ('A' <= c && c <= 'Z') || ('a' <= c && c <= 'z') || ('0' <= c && c <= '9') || c == '-' || c
        == '.' || c == '/'
}

/// Whether every character of `t` is allowed in a path.
pub open spec fn all_path_chars(t: Seq<char>) -> bool {
    forall|i: int| 0 <= i < t.len() ==> path_char_ok(#[trigger] t[i])
}

/// The final path component: the longest suffix without a `/`.
pub open spec fn file_component(t: Seq<char>) -> Seq<char>
    decreases t.len(),
{
    if t.len() == 0 || t.last() == '/' {
        Seq::empty()
    } else {
        file_component(t.drop_last()).push(t.last())
    }
}

/// Whether the final component ends in `.srt` with a non-empty stem before
/// the dot.
pub open spec fn has_srt_extension(t: Seq<char>) -> bool {
    let comp = file_component(t);
    let n = comp.len() as int;
    n >= 5 && comp[n - 4] == '.' && comp[n - 3] == 's' && comp[n - 2] == 'r' && comp[n - 1] == 't'
}

/// The validation of a path string: either the first check that fails, in
/// the order they are applied, or `Valid`.
pub enum PathClass {
    Empty,
    Illegal,
    BadExtension,
    Valid,
}

pub open spec fn path_class(t: Seq<char>) -> PathClass {
    if crate::text::trim_spec(t).len() == 0 {
        PathClass::Empty
    } else if !all_path_chars(t) {
        PathClass::Illegal
    } else if !has_srt_extension(t) {
        PathClass::BadExtension
    } else {
        PathClass::Valid
    }
}

/// A subtitle file path that passed validation: non-blank, whitelisted
/// characters only, `.srt` extension.
#[derive(Debug, Clone)]
pub struct SafeFilePath {
    path: String,
}

impl View for SafeFilePath {
    type V = Seq<char>;

    closed spec fn view(&self) -> Seq<char> {
        self.path@
    }
}

/// The suffix after the last `/` is the final component.
proof fn lemma_file_component_at(t: Seq<char>, k: int)
    requires
        0 <= k <= t.len(),
        forall|j: int| k <= j < t.len() ==> t[j] != '/',
        k > 0 ==> t[k - 1] == '/',
    ensures
        file_component(t) == t.skip(k),
    decreases t.len(),
{
    if k == t.len() {
        assert(t.skip(k) =~= Seq::<char>::empty());
    } else {
        assert(t.last() != '/');
        assert forall|j: int| k <= j < t.drop_last().len() implies t.drop_last()[j] != '/' by {
            assert(t.drop_last()[j] == t[j]);
        }
        if k > 0 {
            assert(t.drop_last()[k - 1] == t[k - 1]);
        }
        lemma_file_component_at(t.drop_last(), k);
        assert(t.drop_last().skip(k).push(t.last()) =~= t.skip(k));
    }
}

/// Checks one character against the path whitelist.
fn path_char_allowed(c: char) -> (r: bool)
    ensures
        r == path_char_ok(c),
{
    ('A' <= c && c <= 'Z') || ('a' <= c && c <= 'z') || ('0' <= c && c <= '9') || c == '-' || c
        == '.' || c == '/'
}

impl SafeFilePath {
    /// Validates a path string: rejects a blank path, a character outside
    /// the whitelist, and a missing `.srt` extension, in that order. Whether
    /// the file exists is checked by the caller that opens it.
    pub fn from_checked(value: &str) -> (r: Result<SafeFilePath, PathError>)
        ensures
            match path_class(value@) {
                PathClass::Valid => r matches Ok(p) && p@ == value@,
                PathClass::Empty => r == Result::<SafeFilePath, PathError>::Err(
                    PathError::EmptyPath,
                ),
                PathClass::Illegal => r == Result::<SafeFilePath, PathError>::Err(
                    PathError::IllegalCharacters,
                ),
                PathClass::BadExtension => r == Result::<SafeFilePath, PathError>::Err(
                    PathError::IncorrectExtension,
                ),
            },
    {
        let ghost t = value@;
        let v = to_chars(value);
        let trimmed = trim_vec(&v);
        if trimmed.len() == 0 {
            return Err(PathError::EmptyPath);
        }
        let mut i: usize = 0;
        while i < v.len()
            invariant
                t == value@,
                t == v@,
                crate::text::trim_spec(t).len() != 0,
                0 <= i <= t.len(),
                forall|j: int| 0 <= j < i ==> path_char_ok(#[trigger] t[j]),
            decreases t.len() - i,
        {
            if !path_char_allowed(v[i]) {
                proof {
                    assert(!path_char_ok(t[i as int]));
                    assert(!all_path_chars(t));
                    assert(path_class(t) is Illegal);
                }
                return Err(PathError::IllegalCharacters);
            }
            i = i + 1;
        }
        // Locate the final component: everything after the last slash.
        let mut k: usize = v.len();
        while k > 0 && v[k - 1] != '/'
            invariant
                t == v@,
                0 <= k <= t.len(),
                forall|j: int| k <= j < t.len() ==> t[j] != '/',
            decreases k,
        {
            k = k - 1;
        }
        proof {
            lemma_file_component_at(t, k as int);
        }
        let comp = subrange_vec(&v, k, v.len());
        proof {
            assert(comp@ =~= t.skip(k as int));
        }
        let n = comp.len();
        if n < 5 || comp[n - 4] != '.' || comp[n - 3] != 's' || comp[n - 2] != 'r' || comp[n - 1]
            != 't' {
            return Err(PathError::IncorrectExtension);
        }
        Ok(SafeFilePath { path: value.to_owned() })
    }

    /// The validated path string.
    pub fn as_str(&self) -> (r: &str)
        ensures
            r@ == self@,
    {
        self.path.as_str()
    }
}

} // verus!
