//! A new subscriber, and the confirmation mail that it is sent.
use crate::domain::subscriber_email::{email_accepted, email_refusal, SubscriberEmail};
use crate::domain::subscriber_name::{name_accepted, name_refusal, SubscriberName};
use crate::domain::subscription_token::SubscriptionToken;
use vstd::prelude::*;
use vstd::string::*;

verus! {

/// A validated subscription request.
pub struct NewSubscriber {
    pub email: SubscriberEmail,
    pub name: SubscriberName,
}

impl NewSubscriber {
    /// Validates the name, then the e-mail, and reports the first failure.
    pub fn try_from(email: &str, name: &str) -> (r: Result<NewSubscriber, String>)
        ensures
            r is Ok <==> name_accepted(name@) && email_accepted(email@),
            r matches Ok(s) ==> s.email@ == email@ && s.name@ == name@,
            !name_accepted(name@) ==> (r matches Err(m) && m@ == name_refusal(name@)),
            name_accepted(name@) && !email_accepted(email@) ==> (r matches Err(m) && m@
                == email_refusal(email@)),
    {
        let name = match SubscriberName::from_str(name) {
            Ok(n) => n,
            Err(e) => return Err(e),
        };
        let email = match SubscriberEmail::from_str(email) {
            Ok(e) => e,
            Err(e) => return Err(e),
        };
        Ok(NewSubscriber { email, name })
    }
}

/// The link that confirms a subscription.
pub open spec fn confirmation_link_text(base_url: Seq<char>, token: Seq<char>) -> Seq<char> {
    base_url + "/subscriptions/confirm?subscription_token="@ + token
}

pub fn confirmation_link(base_url: &str, token: &SubscriptionToken) -> (r: String)
    ensures
        r@ == confirmation_link_text(base_url@, token@),
{
    let mut link = String::from_str(base_url);
    link.append("/subscriptions/confirm?subscription_token=");
    link.append(token.as_ref());
    link
}

/// The plain-text body of the confirmation mail.
pub fn confirmation_plain_body(link: &str) -> (r: String)
    ensures
        r@ == "Welcome to our newsletter!\nVisit "@ + link@ + " to confirm your subscription."@,
{
    let mut body = String::from_str("Welcome to our newsletter!\nVisit ");
    body.append(link);
    body.append(" to confirm your subscription.");
    body
}

} // verus!
