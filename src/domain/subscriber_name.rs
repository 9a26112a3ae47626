//! A subscriber's display name.
use crate::text::{all_whitespace, is_blank};
use unicode_segmentation::UnicodeSegmentation;
use vstd::prelude::*;
use vstd::string::*;

verus! {

/// Names with more grapheme clusters than this are refused.
pub const MAX_NAME_GRAPHEMES: usize = 256;

pub uninterp spec fn grapheme_count(s: Seq<char>) -> usize;

/// Relies on unicode-segmentation's `graphemes(true)`: the number of
/// extended grapheme clusters depends on the characters alone.
#[verifier::external_body]
fn count_graphemes(s: &str) -> (r: usize)
    ensures
        r == grapheme_count(s@),
{
    s.graphemes(true).count()
}

/// Characters that a name may not hold.
pub open spec fn forbidden(c: char) -> bool {
    c == '/' || c == '(' || c == ')' || c == '"' || c == '<' || c == '>' || c == '\\' || c == '{'
        || c == '}'
}

pub open spec fn has_forbidden(s: Seq<char>) -> bool {
    exists|i: int| 0 <= i < s.len() && forbidden(#[trigger] s[i])
}

/// The names accepted as subscriber names.
pub open spec fn name_accepted(s: Seq<char>) -> bool {
    !all_whitespace(s) && grapheme_count(s) <= MAX_NAME_GRAPHEMES && !has_forbidden(s)
}

fn contains_forbidden(s: &str) -> (r: bool)
    ensures
        r == has_forbidden(s@),
{
    let n = s.unicode_len();
    let mut i: usize = 0;
    while i < n
        invariant
            n == s@.len(),
            i <= n,
            forall|j: int| 0 <= j < i ==> !forbidden(#[trigger] s@[j]),
        decreases n - i,
    {
        let c = s.get_char(i);
        if c == '/' || c == '(' || c == ')' || c == '"' || c == '<' || c == '>' || c == '\\' || c
            == '{' || c == '}' {
            assert(forbidden(s@[i as int]));
            return true;
        }
        i += 1;
    }
    false
}

/// Why a name is refused.
pub open spec fn name_refusal(s: Seq<char>) -> Seq<char> {
    if all_whitespace(s) {
        "Subscriber name can't be empty."@
    } else {
        s + " is not a valid subscriber name."@
    }
}

/// A validated subscriber name.
#[derive(Debug)]
pub struct SubscriberName(String);

impl View for SubscriberName {
    type V = Seq<char>;

    closed spec fn view(&self) -> Seq<char> {
        self.0@
    }
}

impl SubscriberName {
    /// Accepts `s` unless it is blank, longer than `MAX_NAME_GRAPHEMES`
    /// grapheme clusters, or holds a forbidden character.
    pub fn from_str(s: &str) -> (r: Result<SubscriberName, String>)
        ensures
            r is Ok <==> name_accepted(s@),
            r matches Ok(n) ==> n@ == s@,
            r matches Err(m) ==> m@ == name_refusal(s@),
            all_whitespace(s@) ==> (r matches Err(m) && m@ == "Subscriber name can't be empty."@),
            !all_whitespace(s@) && !name_accepted(s@) ==> (r matches Err(m) && m@ == s@
                + " is not a valid subscriber name."@),
    {
        if is_blank(s) {
            return Err(String::from_str("Subscriber name can't be empty."));
        }
        let is_too_long = count_graphemes(s) > MAX_NAME_GRAPHEMES;
        if is_too_long || contains_forbidden(s) {
            let mut message = String::from_str(s);
            message.append(" is not a valid subscriber name.");
            Err(message)
        } else {
            Ok(SubscriberName(String::from_str(s)))
        }
    }

    pub fn as_ref(&self) -> (r: &str)
        ensures
            r@ == self@,
    {
        self.0.as_str()
    }
}

} // verus!
