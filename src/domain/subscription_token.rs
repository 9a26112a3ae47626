//! The token that confirms a subscription.
use rand::distributions::Alphanumeric;
use rand::Rng;
use vstd::prelude::*;
use vstd::string::*;
use vstd::utf8::encode_utf8;

verus! {

/// Characters in a token.
pub const TOKEN_LEN: usize = 25;

pub open spec fn is_ascii_alphanumeric(c: char) -> bool {
    ('0' <= c && c <= '9') || ('A' <= c && c <= 'Z') || ('a' <= c && c <= 'z')
}

/// Relies on rand's `Alphanumeric` distribution over the thread-local
/// generator: an ASCII letter or digit.
#[verifier::external_body]
fn random_alphanumeric() -> (r: char)
    ensures
        is_ascii_alphanumeric(r),
{
    char::from(rand::thread_rng().sample(Alphanumeric))
}

/// Relies on `String::push`: appends one character.
pub assume_specification[ std::string::String::push ](s: &mut String, ch: char)
    ensures
        final(s)@ == old(s)@.push(ch),
;

pub uninterp spec fn debug_text(s: Seq<char>) -> Seq<char>;

/// Relies on the `Debug` format of `str`: the text quoted and escaped,
/// which depends on the characters alone.
#[verifier::external_body]
fn debug_quoted(s: &str) -> (r: String)
    ensures
        r@ == debug_text(s@),
{
    format!("{:?}", s)
}

/// A case-sensitive subscription token.
pub struct SubscriptionToken(String);

impl View for SubscriptionToken {
    type V = Seq<char>;

    closed spec fn view(&self) -> Seq<char> {
        self.0@
    }
}

impl SubscriptionToken {
    /// A fresh random token of `TOKEN_LEN` ASCII letters and digits.
    pub fn new() -> (r: SubscriptionToken)
        ensures
            r@.len() == TOKEN_LEN,
            forall|i: int| 0 <= i < TOKEN_LEN ==> is_ascii_alphanumeric(#[trigger] r@[i]),
    {
        let mut token = String::new();
        let mut i: usize = 0;
        while i < TOKEN_LEN
            invariant
                i <= TOKEN_LEN,
                token@.len() == i,
                forall|j: int| 0 <= j < i ==> is_ascii_alphanumeric(#[trigger] token@[j]),
            decreases TOKEN_LEN - i,
        {
            token.push(random_alphanumeric());
            i += 1;
        }
        SubscriptionToken(token)
    }

    /// Accepts a token of exactly `TOKEN_LEN` bytes of UTF-8.
    pub fn from_str(s: &str) -> (r: Result<SubscriptionToken, String>)
        ensures
            r is Ok <==> encode_utf8(s@).len() == TOKEN_LEN,
            r matches Ok(t) ==> t@ == s@,
            encode_utf8(s@).len() != TOKEN_LEN ==> (r matches Err(m) && m@ == "Token "@
                + debug_text(s@) + " is not in a valid format."@),
    {
        let bytes = s.as_bytes();
        if bytes.len() == TOKEN_LEN {
            Ok(SubscriptionToken(String::from_str(s)))
        } else {
            let mut message = String::from_str("Token ");
            let quoted = debug_quoted(s);
            message.append(quoted.as_str());
            message.append(" is not in a valid format.");
            Err(message)
        }
    }

    pub fn as_ref(&self) -> (r: &str)
        ensures
            r@ == self@,
    {
        self.0.as_str()
    }
}

} // verus!
