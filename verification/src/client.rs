//! The request and response bodies of the public API, and its endpoint
//! addresses.

use vstd::prelude::*;
use vstd::string::StringExecFns;

verus! {

/// A request to compile source code.
pub struct CompileRequest {
    pub filename: String,
    pub source: String,
}

/// A request to execute a compiled program.
pub struct ExecuteRequest {
    pub program_id: String,
}

/// A request to prove an execution session.
pub struct ProveRequest {
    pub session_id: String,
}

/// The answer to a verification request.
pub struct VerifyResponse {
    pub valid: bool,
}

/// The address of an endpoint under the API's base URL.
pub fn endpoint_url(base_url: &str, endpoint: &str) -> (u: String)
    ensures
        u@ == base_url@ + "/"@ + endpoint@,
{
    let mut u = String::from_str(base_url);
    u.append("/");
    u.append(endpoint);
    u
}

} // verus!
