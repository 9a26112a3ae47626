//! How the pending deliveries are shown to an administrator.
use core::time::Duration;
use vstd::prelude::*;
use vstd::string::*;

verus! {

pub uninterp spec fn duration_text(ms: u64) -> Seq<char>;

/// Relies on humantime's `format_duration`: the text depends on the
/// duration alone.
#[verifier::external_body]
fn format_duration_ms(ms: u64) -> (r: String)
    ensures
        r@ == duration_text(ms),
{
    humantime::format_duration(Duration::from_millis(ms)).to_string()
}

/// When a task is next tried, seen at `now`: the time left until
/// `execute_after`, or that it is due.
pub open spec fn next_retry_text(execute_after: i64, now: i64) -> Seq<char> {
    if execute_after < now {
        "ready for retry"@
    } else {
        duration_text((execute_after - now) as u64)
    }
}

pub fn next_retry_label(execute_after: i64, now: i64) -> (r: String)
    ensures
        r@ == next_retry_text(execute_after, now),
{
    if execute_after < now {
        String::from_str("ready for retry")
    } else {
        let left = ((execute_after as i128) - (now as i128)) as u64;
        format_duration_ms(left)
    }
}

} // verus!
