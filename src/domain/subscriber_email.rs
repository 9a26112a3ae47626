//! A subscriber's e-mail address.
use crate::text::{all_whitespace, is_blank};
use vstd::prelude::*;
use vstd::string::*;

verus! {

pub uninterp spec fn valid_email(s: Seq<char>) -> bool;

/// Relies on validator's `validate_email`: its verdict depends on the
/// characters alone, and it refuses an empty string and one without `@`.
#[verifier::external_body]
fn validate_email(s: &str) -> (r: bool)
    ensures
        r == valid_email(s@),
        r ==> s@.len() > 0 && s@.contains('@'),
{
    validator::validate_email(s)
}

/// The addresses accepted as subscriber e-mails.
pub open spec fn email_accepted(s: Seq<char>) -> bool {
    !all_whitespace(s) && valid_email(s)
}

/// Why an address is refused.
pub open spec fn email_refusal(s: Seq<char>) -> Seq<char> {
    if all_whitespace(s) {
        "Subscriber email can't be empty."@
    } else {
        s + " is not a valid subscriber email."@
    }
}

/// A validated subscriber e-mail address.
#[derive(Debug)]
pub struct SubscriberEmail(String);

impl View for SubscriberEmail {
    type V = Seq<char>;

    closed spec fn view(&self) -> Seq<char> {
        self.0@
    }
}

impl SubscriberEmail {
    /// Accepts `s` unless it is blank or not a valid address.
    pub fn from_str(s: &str) -> (r: Result<SubscriberEmail, String>)
        ensures
            r is Ok <==> email_accepted(s@),
            r matches Ok(e) ==> e@ == s@,
            r matches Err(m) ==> m@ == email_refusal(s@),
            all_whitespace(s@) ==> (r matches Err(m) && m@ == "Subscriber email can't be empty."@),
            !all_whitespace(s@) && !valid_email(s@) ==> (r matches Err(m) && m@ == s@
                + " is not a valid subscriber email."@),
    {
        if is_blank(s) {
            return Err(String::from_str("Subscriber email can't be empty."));
        }
        if validate_email(s) {
            Ok(SubscriberEmail(String::from_str(s)))
        } else {
            let mut message = String::from_str(s);
            message.append(" is not a valid subscriber email.");
            Err(message)
        }
    }

    pub fn as_ref(&self) -> (r: &str)
        ensures
            r@ == self@,
    {
        self.0.as_str()
    }
}

} // verus!
