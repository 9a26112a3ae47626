//! Settings consumed by the library, and the runtime environment.
use crate::domain::subscriber_email::{email_accepted, SubscriberEmail};
use crate::text::same_text;
use core::time::Duration;
use vstd::prelude::*;
use vstd::string::*;

verus! {

/// Relies on `Duration::from_millis`: a duration of `millis` milliseconds.
pub assume_specification[ core::time::Duration::from_millis ](millis: u64) -> Duration;

/// How to reach the e-mail service.
pub struct EmailClientSettings {
    pub base_url: String,
    pub sender_email: String,
    pub authorization_token: String,
    pub timeout_milliseconds: u64,
}

impl EmailClientSettings {
    /// The configured sender, parsed as a subscriber e-mail.
    pub fn sender(&self) -> (r: Result<SubscriberEmail, String>)
        ensures
            r is Ok <==> email_accepted(self.sender_email@),
            r matches Ok(e) ==> e@ == self.sender_email@,
    {
        SubscriberEmail::from_str(self.sender_email.as_str())
    }

    /// The request timeout.
    pub fn timeout(&self) -> Duration {
        Duration::from_millis(self.timeout_milliseconds)
    }
}

/// Retry policy of the delivery worker.
pub struct IssueDeliverySettings {
    pub backoff_base_secs: i64,
    pub backoff_cap_secs: i64,
    pub max_retries: i16,
}

impl IssueDeliverySettings {
    /// Non-negative durations whose millisecond counts fit in an `i64`.
    pub open spec fn wf(&self) -> bool {
        0 <= self.backoff_base_secs && self.backoff_base_secs * 1000 <= i64::MAX && 0
            <= self.backoff_cap_secs && self.backoff_cap_secs * 1000 <= i64::MAX
    }

    pub fn is_valid(&self) -> (r: bool)
        ensures
            r == self.wf(),
    {
        0 <= self.backoff_base_secs && self.backoff_base_secs <= i64::MAX / 1000 && 0
            <= self.backoff_cap_secs && self.backoff_cap_secs <= i64::MAX / 1000
    }

    pub fn backoff_base_ms(&self) -> (r: i64)
        requires
            self.wf(),
        ensures
            r == self.backoff_base_secs * 1000,
    {
        self.backoff_base_secs * 1000
    }

    pub fn backoff_cap_ms(&self) -> (r: i64)
        requires
            self.wf(),
        ensures
            r == self.backoff_cap_secs * 1000,
    {
        self.backoff_cap_secs * 1000
    }
}

/// Lifetime and sweep period of idempotency records.
pub struct IdempotencySettings {
    pub expiration_secs: u64,
    pub expiration_frequency_secs: u64,
}

/// The possible runtime environment of the application.
#[derive(PartialEq, Eq, Structural, Clone, Copy, Debug)]
pub enum Environment {
    Local,
    Production,
}

pub uninterp spec fn lowercase_of(s: Seq<char>) -> Seq<char>;

/// Relies on `str::to_lowercase`: the result depends on the characters alone.
#[verifier::external_body]
fn lowercase(s: &str) -> (r: String)
    ensures
        r@ == lowercase_of(s@),
{
    s.to_lowercase()
}

impl Environment {
    pub open spec fn spec_name(&self) -> Seq<char> {
        match self {
            Environment::Local => "local"@,
            Environment::Production => "production"@,
        }
    }

    pub fn as_str(&self) -> (r: &'static str)
        ensures
            r@ == self.spec_name(),
    {
        match self {
            Environment::Local => "local",
            Environment::Production => "production",
        }
    }

    /// Reads an environment name, in any letter case.
    pub fn try_from(value: String) -> (r: Result<Environment, String>)
        ensures
            lowercase_of(value@) == "local"@ ==> r == Ok::<Environment, String>(Environment::Local),
            lowercase_of(value@) == "production"@ ==> r == Ok::<Environment, String>(
                Environment::Production,
            ),
            lowercase_of(value@) != "local"@ && lowercase_of(value@) != "production"@ ==> (r matches Err(
                m,
            ) && m@ == lowercase_of(value@)
                + " is not a supported environment. Use either `local` or `production`."@),
    {
        proof {
            reveal_strlit("local");
            reveal_strlit("production");
            assert("local"@.len() != "production"@.len());
        }
        let lower = lowercase(value.as_str());
        if same_text(lower.as_str(), "local") {
            Ok(Environment::Local)
        } else if same_text(lower.as_str(), "production") {
            Ok(Environment::Production)
        } else {
            let mut message = lower;
            message.append(" is not a supported environment. Use either `local` or `production`.");
            Err(message)
        }
    }
}

} // verus!
