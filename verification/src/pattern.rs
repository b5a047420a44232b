//! Regular expressions: the `regex` crate compiles and searches, and this
//! module says what the rest of the library may rely on.

use crate::text::{chars_of, string_of};
use regex::Regex;
use vstd::prelude::*;

verus! {

/// `regex::Regex`, a compiled regular expression. Nothing is known of what
/// it holds.
#[verifier::external_type_specification]
#[verifier::external_body]
pub struct ExRegex(regex::Regex);

/// A regular expression compiled by `Regex::new`, kept with the text it was
/// compiled from. `compile_regex` is the only place that makes one, so
/// `regex` is always what `Regex::new` gave for `source`.
pub struct Pattern {
    source: String,
    regex: Regex,
}

impl View for Pattern {
    type V = Seq<char>;

    /// The text of the regular expression.
    closed spec fn view(&self) -> Seq<char> {
        self.source@
    }
}

/// What `Regex::find` reports for the regular expression written `pattern`,
/// compiled by `Regex::new`, on the haystack `text`: `None` where nothing
/// matches, else the leftmost match, as the text before it, the matched text
/// and the text after it.
pub uninterp spec fn first_match(pattern: Seq<char>, text: Seq<char>) -> Option<
    (Seq<char>, Seq<char>, Seq<char>),
>;

/// What `Regex::new` makes of the regular expression written `source`:
/// `None` where it compiles it, else the message that the `regex::Error` it
/// returns prints.
pub uninterp spec fn compile_failure(source: Seq<char>) -> Option<Seq<char>>;

/// Whether the pattern matches anywhere in `text`.
pub open spec fn has_match(pattern: Seq<char>, text: Seq<char>) -> bool {
    first_match(pattern, text) is Some
}

/// `text` without the leftmost match of the pattern; `text` itself where
/// nothing matches.
pub open spec fn without_first_match(pattern: Seq<char>, text: Seq<char>) -> Seq<char> {
    match first_match(pattern, text) {
        Some(parts) => parts.0 + parts.2,
        None => text,
    }
}

/// Calls `Regex::new`. The outcome is the one named by `compile_failure`:
/// on success the pattern carries the text it was given, and an error is
/// handed back as the message that `regex::Error` prints.
#[verifier::external_body]
fn compile_regex(source: &str) -> (r: Result<Pattern, String>)
    ensures
        match r {
            Ok(pattern) => pattern@ == source@ && compile_failure(source@) is None,
            Err(reason) => compile_failure(source@) == Some(reason@),
        },
{
    match Regex::new(source) {
        Ok(regex) => Ok(Pattern { source: source.to_string(), regex }),
        Err(error) => Err(error.to_string()),
    }
}

/// Calls `Regex::find` and cuts the haystack at the two offsets of the match.
/// The result is the one named by `first_match`. The `regex` crate gives
/// offsets that lie on character boundaries, with the start not after the
/// end, so the three parts make up the haystack.
#[verifier::external_body]
fn regex_find(pattern: &Pattern, text: &str) -> (r: Option<(String, String, String)>)
    ensures
        r is Some <==> first_match(pattern@, text@) is Some,
        r matches Some(parts) ==> first_match(pattern@, text@) == Some(
            (parts.0@, parts.1@, parts.2@),
        ),
        r matches Some(parts) ==> parts.0@ + parts.1@ + parts.2@ == text@,
{
    match pattern.regex.find(text) {
        Some(found) => Some(
            (
                text[..found.start()].to_string(),
                found.as_str().to_string(),
                text[found.end()..].to_string(),
            ),
        ),
        None => None,
    }
}

impl Pattern {
    /// Compiles `source`. Where the `regex` crate refuses it, the message of
    /// its error is returned.
    pub fn new(source: &str) -> (r: Result<Pattern, String>)
        ensures
            match r {
                Ok(pattern) => pattern@ == source@ && compile_failure(source@) is None,
                Err(reason) => compile_failure(source@) == Some(reason@),
            },
    {
        compile_regex(source)
    }

    /// The text before the leftmost match in `text`, the match, and the text
    /// after it; `None` where the pattern matches nowhere.
    pub fn split_at_match(&self, text: &Vec<char>) -> (r: Option<(Vec<char>, Vec<char>, Vec<char>)>)
        ensures
            r is Some <==> has_match(self@, text@),
            r matches Some(parts) ==> first_match(self@, text@) == Some(
                (parts.0@, parts.1@, parts.2@),
            ),
            r matches Some(parts) ==> parts.0@ + parts.1@ + parts.2@ == text@,
    {
        let haystack = string_of(text);
        match regex_find(self, haystack.as_str()) {
            Some(parts) => Some(
                (chars_of(parts.0.as_str()), chars_of(parts.1.as_str()), chars_of(parts.2.as_str())),
            ),
            None => None,
        }
    }

    /// Whether the pattern matches anywhere in `text`.
    pub fn is_match(&self, text: &Vec<char>) -> (r: bool)
        ensures
            r == has_match(self@, text@),
    {
        self.split_at_match(text).is_some()
    }

    /// `text` without the leftmost match of the pattern.
    pub fn remove_match(&self, text: &Vec<char>) -> (r: Vec<char>)
        ensures
            r@ == without_first_match(self@, text@),
    {
        match self.split_at_match(text) {
            Some(parts) => crate::text::append(&parts.0, &parts.2),
            None => crate::text::subrange(text, 0, text.len()),
        }
    }
}

} // verus!
