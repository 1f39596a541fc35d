//! Including the `ed` xkb types in the types file, in case the file was
//! overwritten during an update.

use vstd::prelude::*;
use vstd::string::*;
use crate::text::{char_at, find_from, slice_of};

verus! {

/// The error type of the `regex` crate.
#[verifier::external_type_specification]
#[verifier::external_body]
pub struct ExRegexError(regex::Error);

/// Whether the regular expression `pattern` matches somewhere in
/// `haystack`, by the `regex` crate. It is what `Regex::is_match` returns
/// for a `Regex` made from `pattern` by `Regex::new`.
pub uninterp spec fn regex_matches(pattern: Seq<char>, haystack: Seq<char>) -> bool;

/// Why the types file was not patched.
#[derive(Debug, PartialEq, Eq)]
pub enum XkbError {
    /// The regular expression that describes the file could not be built.
    Pattern,
    /// The contents of the file are not what a types file looks like.
    Unrecognized,
}

/// The regular expression that the contents of the types file must match:
/// a block named `complete` that holds nothing but lines that include
/// types.
pub open spec fn xkb_types_regex() -> Seq<char> {
    "^default xkb_types \"complete\" \\{\\n(?:    include \"[[:alnum:]]+\"\\n)*\\};\\n$"@
}

/// The regular expression that the contents of the types file must match.
pub fn xkb_types_pattern() -> (r: &'static str)
    ensures
        r@ == xkb_types_regex(),
{
    "^default xkb_types \"complete\" \\{\\n(?:    include \"[[:alnum:]]+\"\\n)*\\};\\n$"
}

/// The line that includes the `ed` types.
pub fn include_line() -> (r: &'static str)
    ensures
        r@ == "    include \"ed\"\n"@,
{
    "    include \"ed\"\n"
}

/// What marks a file that includes the `ed` types already.
pub fn include_mark() -> (r: &'static str)
    ensures
        r@ == "include \"ed\""@,
{
    "include \"ed\""
}

/// Builds a regular expression from `pattern` with `regex::Regex::new` and
/// asks it with `Regex::is_match` whether it matches somewhere in
/// `haystack`.
///
/// Taken on trust: where the expression can be built, the answer depends
/// on the pattern and the haystack alone. Nothing is said on which
/// patterns can be built.
#[verifier::external_body]
fn regex_is_match(pattern: &str, haystack: &str) -> (r: Result<bool, regex::Error>)
    ensures
        r is Ok ==> r.unwrap() == regex_matches(pattern@, haystack@),
{
    match regex::Regex::new(pattern) {
        Ok(re) => Ok(re.is_match(haystack)),
        Err(e) => Err(e),
    }
}

/// `pat` stands in `text` at place `i`.
pub open spec fn occurs_at(text: Seq<char>, pat: Seq<char>, i: int) -> bool {
    &&& 0 <= i
    &&& i + pat.len() <= text.len()
    &&& text.subrange(i, i + pat.len()) == pat
}

/// `pat` stands somewhere in `text`.
pub open spec fn contains_text(text: Seq<char>, pat: Seq<char>) -> bool {
    exists|i: int| occurs_at(text, pat, i)
}

/// `k` is the place of the first `c` in `text`.
pub open spec fn first_at(text: Seq<char>, c: char, k: int) -> bool {
    &&& 0 <= k < text.len()
    &&& text[k] == c
    &&& forall|j: int| 0 <= j < k ==> text[j] != c
}

/// What patching makes of the contents of a types file, given whether the
/// contents were recognized as those of a types file.
///
/// Contents that were not recognized, or that hold no closing brace, are
/// an error. Contents that include the `ed` types already need no patch.
/// Otherwise the patched contents have the line that includes them just
/// before the first closing brace.
pub open spec fn patched(contents: Seq<char>, recognized: bool, r: Result<Option<String>, XkbError>) -> bool {
    if !recognized {
        r == Err::<Option<String>, XkbError>(XkbError::Unrecognized)
    } else if contains_text(contents, "include \"ed\""@) {
        r == Ok::<Option<String>, XkbError>(None)
    } else if !contents.contains('}') {
        r == Err::<Option<String>, XkbError>(XkbError::Unrecognized)
    } else {
        &&& r is Ok
        &&& r.unwrap() is Some
        &&& exists|k: int|
            first_at(contents, '}', k) && r.unwrap().unwrap()@ == contents.subrange(0, k)
                + "    include \"ed\"\n"@ + contents.subrange(k, contents.len() as int)
    }
}

/// Whether `pat` stands somewhere in `text`.
pub fn find_text(text: &str, pat: &str) -> (r: bool)
    ensures
        r == contains_text(text@, pat@),
{
    let ascii = text.is_ascii();
    let pat_ascii = pat.is_ascii();
    let n = text.unicode_len();
    let m = pat.unicode_len();
    if m > n {
        return false;
    }
    let mut i: usize = 0;
    while i <= n - m
        invariant
            m <= n,
            n == text@.len(),
            m == pat@.len(),
            ascii ==> is_ascii(text),
            pat_ascii ==> is_ascii(pat),
            i <= n - m + 1,
            forall|j: int| 0 <= j < i ==> !occurs_at(text@, pat@, j),
        decreases n - m + 1 - i,
    {
        let mut k: usize = 0;
        while k < m && char_at(text, ascii, i + k) == char_at(pat, pat_ascii, k)
            invariant
                i + m <= n,
                n == text@.len(),
                m == pat@.len(),
                ascii ==> is_ascii(text),
                pat_ascii ==> is_ascii(pat),
                k <= m,
                forall|j: int| 0 <= j < k ==> text@[i + j] == pat@[j],
            decreases m - k,
        {
            k += 1;
        }
        if k == m {
            assert(text@.subrange(i as int, i + m) =~= pat@);
            assert(occurs_at(text@, pat@, i as int));
            return true;
        }
        assert(text@.subrange(i as int, i + m)[k as int] != pat@[k as int]);
        i += 1;
    }
    false
}

/// The place of the first `c` in `text`, if there is one.
pub fn find_char(text: &str, c: char) -> (r: Option<usize>)
    ensures
        match r {
            Some(k) => first_at(text@, c, k as int),
            None => !text@.contains(c),
        },
{
    let k = find_from(text, text.is_ascii(), 0, c);
    if k < text.unicode_len() {
        Some(k)
    } else {
        None
    }
}

/// Patches the contents of a types file that were or were not recognized
/// as such.
pub fn patch_recognized(contents: &str, recognized: bool) -> (r: Result<Option<String>, XkbError>)
    ensures
        patched(contents@, recognized, r),
{
    if !recognized {
        return Err(XkbError::Unrecognized);
    }
    if find_text(contents, include_mark()) {
        return Ok(None);
    }
    match find_char(contents, '}') {
        None => Err(XkbError::Unrecognized),
        Some(k) => {
            let ascii = contents.is_ascii();
            let n = contents.unicode_len();
            let mut patched = slice_of(contents, ascii, 0, k).to_owned();
            patched.append(include_line());
            patched.append(slice_of(contents, ascii, k, n));
            assert(contents@[k as int] == '}');
            assert(first_at(contents@, '}', k as int));
            Ok(Some(patched))
        },
    }
}

/// Includes the `ed` xkb types in the contents of the types file.
///
/// Gives the new contents, or nothing if the file includes them already.
/// The contents must look like a types file: a block named `complete`
/// that holds nothing but lines that include types.
pub fn patch_xkb_types(contents: &str) -> (r: Result<Option<String>, XkbError>)
    ensures
        r == Err::<Option<String>, XkbError>(XkbError::Pattern) || patched(
            contents@,
            regex_matches(xkb_types_regex(), contents@),
            r,
        ),
{
    match regex_is_match(xkb_types_pattern(), contents) {
        Ok(recognized) => patch_recognized(contents, recognized),
        Err(_) => Err(XkbError::Pattern),
    }
}

} // verus!
