//! The embedded front end: which file a request names, and its type.
use vstd::prelude::*;
use crate::text::{chars_of, contains_chars, contains_seq, push_str, string_of, trim_start_char, trim_start_chars};

verus! {

/// The file that a request for `path` names in the embedded front end: the
/// path without leading slashes; none for an empty path or one holding `..`.
pub open spec fn embedded_file_of(path: Seq<char>) -> Option<Seq<char>> {
    let normalized = trim_start_char(path, '/');
    if normalized.len() == 0 || contains_seq(normalized, ".."@) {
        None
    } else {
        Some(normalized)
    }
}

pub fn embedded_file(path: &str) -> (r: Option<String>)
    ensures
        match r {
            Some(f) => embedded_file_of(path@) == Some(f@),
            None => embedded_file_of(path@) is None,
        },
{
    let normalized = trim_start_chars(&chars_of(path), '/');
    if normalized.len() == 0 || contains_chars(&normalized, &chars_of("..")) {
        None
    } else {
        Some(string_of(&normalized))
    }
}

/// The front-end file for an asset request.
pub fn asset_file(path: &str) -> (s: String)
    ensures
        s@ == "assets/"@ + path@,
{
    let mut v = chars_of("assets/");
    push_str(&mut v, path);
    string_of(&v)
}

/// The type that `mime_guess` gives a path by its extension.
pub uninterp spec fn guessed_mime(path: Seq<char>) -> Seq<char>;

/// `mime_guess::from_path(path).first_or_octet_stream()`, as text. Its
/// result is named `guessed_mime`. Stated beside the name: a path with no
/// `.` has no extension and gets `application/octet-stream`, and
/// `index.html` gets `text/html` (the table maps `html` to it).
#[verifier::external_body]
fn mime_of(path: &str) -> (m: String)
    ensures
        m@ == guessed_mime(path@),
        !path@.contains('.') ==> m@ == "application/octet-stream"@,
        path@ == "index.html"@ ==> m@ == "text/html"@,
{
    mime_guess::from_path(path).first_or_octet_stream().as_ref().to_string()
}

/// The content type to serve an embedded file with.
pub fn content_type(file: &str) -> (m: String)
    ensures
        m@ == guessed_mime(file@),
        !file@.contains('.') ==> m@ == "application/octet-stream"@,
        file@ == "index.html"@ ==> m@ == "text/html"@,
{
    mime_of(file)
}

} // verus!
