//! The name of a subscriber.

use unicode_segmentation::UnicodeSegmentation;
use vstd::prelude::*;

verus! {

/// The text without its leading and trailing white space, as `str::trim`
/// gives it.
pub uninterp spec fn trimmed(text: Seq<char>) -> Seq<char>;

/// The number of extended grapheme clusters of the text, as the crate
/// unicode-segmentation counts them.
pub uninterp spec fn extended_grapheme_count(text: Seq<char>) -> nat;

/// Calls `str::trim`, which returns the text without its leading and
/// trailing white space.
#[verifier::external_body]
fn trim(text: &str) -> (result: &str)
    ensures
        result@ == trimmed(text@),
{
    text.trim()
}

/// Calls `UnicodeSegmentation::graphemes` for the extended grapheme clusters
/// of the text and counts them.
#[verifier::external_body]
fn count_graphemes(text: &str) -> (count: usize)
    ensures
        count == extended_grapheme_count(text@),
{
    text.graphemes(true).count()
}

/// The most grapheme clusters that a name may have.
pub const MAX_GRAPHEMES: usize = 256;

/// Whether a character may not occur in a name.
pub open spec fn is_forbidden(c: char) -> bool {
    c == '/' || c == '(' || c == ')' || c == '"' || c == '<' || c == '>' || c == '\\' || c == '{'
        || c == '}'
}

/// Whether a text holds a character that may not occur in a name.
pub open spec fn has_forbidden_characters(text: Seq<char>) -> bool {
    exists|i: int| 0 <= i < text.len() && is_forbidden(#[trigger] text[i])
}

/// Whether a text is acceptable as a name, given what is left of it once it
/// is trimmed and how many grapheme clusters it has.
pub open spec fn is_acceptable(text: Seq<char>, trimmed_text: Seq<char>, graphemes: nat) -> bool {
    &&& trimmed_text.len() > 0
    &&& graphemes <= MAX_GRAPHEMES
    &&& !has_forbidden_characters(text)
}

/// Whether a text is acceptable as a name.
pub open spec fn is_valid_name(text: Seq<char>) -> bool {
    is_acceptable(text, trimmed(text), extended_grapheme_count(text))
}

/// The name of a subscriber: not blank, at most 256 grapheme clusters, and
/// free of the characters `/ ( ) " < > \ { }`.
#[derive(Debug, PartialEq, Eq)]
pub struct SubscriberName(String);

/// A text was refused as a name.
#[derive(Debug, PartialEq, Eq, Clone, Copy, Structural)]
pub struct SubscriberNameParseError;

impl View for SubscriberName {
    type V = Seq<char>;

    closed spec fn view(&self) -> Seq<char> {
        self.0@
    }
}

/// Whether a character may not occur in a name.
fn forbidden(c: char) -> (refused: bool)
    ensures
        refused == is_forbidden(c),
{
    c == '/' || c == '(' || c == ')' || c == '"' || c == '<' || c == '>' || c == '\\' || c == '{'
        || c == '}'
}

/// Whether a text holds a character that may not occur in a name.
pub fn contains_forbidden_characters(text: &str) -> (found: bool)
    ensures
        found == has_forbidden_characters(text@),
{
    let length = text.unicode_len();
    let mut i: usize = 0;
    while i < length
        invariant
            i <= length,
            length == text@.len(),
            forall|j: int| 0 <= j < i ==> !is_forbidden(#[trigger] text@[j]),
        decreases length - i,
    {
        if forbidden(text.get_char(i)) {
            return true;
        }
        i += 1;
    }
    false
}

impl SubscriberName {
    /// Decides on a name from the text, from whether anything is left of it
    /// once it is trimmed, and from the number of its grapheme clusters.
    pub fn check(name: String, is_empty_or_whitespace: bool, graphemes: usize) -> (result: Result<
        SubscriberName,
        SubscriberNameParseError,
    >)
        ensures
            result is Ok <==> !is_empty_or_whitespace && graphemes <= MAX_GRAPHEMES
                && !has_forbidden_characters(name@),
            result matches Ok(parsed) ==> parsed@ == name@,
    {
        let is_too_long = graphemes > MAX_GRAPHEMES;
        let has_forbidden_characters = contains_forbidden_characters(name.as_str());
        if is_empty_or_whitespace || is_too_long || has_forbidden_characters {
            Err(SubscriberNameParseError)
        } else {
            Ok(SubscriberName(name))
        }
    }

    /// Takes a text as a name, if it is acceptable as one.
    pub fn parse(name: String) -> (result: Result<SubscriberName, SubscriberNameParseError>)
        ensures
            result is Ok <==> is_valid_name(name@),
            result matches Ok(parsed) ==> parsed@ == name@,
    {
        let is_empty_or_whitespace = trim(name.as_str()).is_empty();
        let graphemes = count_graphemes(name.as_str());
        SubscriberName::check(name, is_empty_or_whitespace, graphemes)
    }

    /// The text of the name.
    pub fn as_ref(&self) -> (text: &str)
        ensures
            text@ == self@,
    {
        self.0.as_str()
    }
}

impl SubscriberNameParseError {
    /// The sentence that describes the error.
    pub fn message(&self) -> (text: String)
        ensures
            text@ == "Failed to parse provided String as a SubscriberName"@,
    {
        String::from_str("Failed to parse provided String as a SubscriberName")
    }
}

} // verus!
