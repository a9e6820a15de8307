//! Text helpers: the few operations on strings that the standard library
//! performs for us, and the splitting of a comment into key and value.

use vstd::prelude::*;
use vstd::string::*;

verus! {

/// The text that lossy UTF-8 decoding gives for a byte sequence.
pub uninterp spec fn utf8_lossy(bytes: Seq<u8>) -> Seq<char>;

/// A text without its leading and trailing whitespace.
pub uninterp spec fn trimmed(text: Seq<char>) -> Seq<char>;

/// The lowercase form of a text.
pub uninterp spec fn lowercased(text: Seq<char>) -> Seq<char>;

/// Calls `String::from_utf8_lossy` and takes ownership of what it gives.
/// Trusted: the result is the lossy decoding of exactly these bytes, a
/// function of the bytes alone.
#[verifier::external_body]
pub(crate) fn decode_lossy(bytes: &[u8]) -> (text: String)
    ensures
        text@ == utf8_lossy(bytes@),
{
    String::from_utf8_lossy(bytes).into_owned()
}

/// Calls `str::trim`. Trusted: the result is the trimmed form of the
/// argument, a function of the text alone.
#[verifier::external_body]
pub(crate) fn trim_text(text: &str) -> (out: String)
    ensures
        out@ == trimmed(text@),
{
    text.trim().to_string()
}

/// Calls `str::to_lowercase`. Trusted: the result is the lowercase form
/// of the argument, a function of the text alone.
#[verifier::external_body]
pub(crate) fn lowercase_text(text: &str) -> (out: String)
    ensures
        out@ == lowercased(text@),
{
    text.to_lowercase()
}

/// Index of the first `=` at or after `from`, or the length of the text
/// where there is none.
pub open spec fn separator_from(text: Seq<char>, from: int) -> int
    decreases text.len() - from,
{
    if from < 0 || from >= text.len() {
        text.len() as int
    } else if text[from] == '=' {
        from
    } else {
        separator_from(text, from + 1)
    }
}

/// Key and value of a comment text: split at the first `=`, both sides
/// trimmed; without a `=` the whole text is the key and the value is empty.
pub open spec fn comment_pair(text: Seq<char>) -> (Seq<char>, Seq<char>) {
    let at = separator_from(text, 0);
    if at < text.len() {
        (trimmed(text.subrange(0, at)), trimmed(text.subrange(at + 1, text.len() as int)))
    } else {
        (trimmed(text), Seq::<char>::empty())
    }
}

/// What `separator_from` finds: the first `=` from `from` on.
pub proof fn lemma_separator_from(text: Seq<char>, from: int)
    requires
        0 <= from <= text.len(),
    ensures
        from <= separator_from(text, from) <= text.len(),
        separator_from(text, from) < text.len() ==> text[separator_from(text, from)] == '=',
        forall|j: int| from <= j < separator_from(text, from) ==> text[j] != '=',
    decreases text.len() - from,
{
    if from < text.len() && text[from] != '=' {
        lemma_separator_from(text, from + 1);
    }
}

/// Position of the first `=` in a text, if it has one.
pub fn find_separator(text: &str) -> (at: Option<usize>)
    ensures
        match at {
            Some(i) => i < text@.len() && i == separator_from(text@, 0) && text@[i as int] == '='
                && forall|j: int| 0 <= j < i ==> text@[j] != '=',
            None => separator_from(text@, 0) == text@.len() && forall|j: int|
                0 <= j < text@.len() ==> text@[j] != '=',
        },
{
    let n: usize = text.unicode_len();
    let mut i: usize = 0;
    while i < n
        invariant
            n == text@.len(),
            i <= n,
            separator_from(text@, 0) == separator_from(text@, i as int),
        decreases n - i,
    {
        if text.get_char(i) == '=' {
            proof {
                lemma_separator_from(text@, 0);
            }
            return Some(i);
        }
        i = i + 1;
    }
    proof {
        lemma_separator_from(text@, 0);
    }
    None
}

/// Splits a comment text into its trimmed key and value.
pub fn split_comment(text: &str) -> (pair: (String, String))
    ensures
        (pair.0@, pair.1@) == comment_pair(text@),
{
    match find_separator(text) {
        Some(at) => {
            let n: usize = text.unicode_len();
            let key = trim_text(text.substring_char(0, at));
            let value = trim_text(text.substring_char(at + 1, n));
            (key, value)
        },
        None => (trim_text(text), String::new()),
    }
}

} // verus!
