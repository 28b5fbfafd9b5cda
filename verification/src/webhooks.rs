//! How the outcome of a webhook delivery is judged.

use vstd::prelude::*;

verus! {

/// Whether an HTTP status reports success (2xx).
pub open spec fn is_success_status(status: u16) -> bool {
    200 <= status <= 299
}

/// The result of a delivery, given the response status, or `None` where
/// the endpoint could not be reached.
pub fn dispatch_outcome(status: Option<u16>) -> (r: Result<(), &'static str>)
    ensures
        match status {
            None => r is Err && r->Err_0@ == "Network Request Failed"@,
            Some(s) => if is_success_status(s) {
                r is Ok
            } else {
                r is Err && r->Err_0@ == "Webhook HTTP Error"@
            },
        },
{
    match status {
        None => Err("Network Request Failed"),
        Some(s) => if 200 <= s && s <= 299 {
            Ok(())
        } else {
            Err("Webhook HTTP Error")
        },
    }
}

} // verus!
