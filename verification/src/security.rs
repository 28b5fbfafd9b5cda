//! The verifier API's security helpers: result signing, audit log lines and
//! tenant token validation.

use vstd::prelude::*;
use vstd::string::StringExecFns;
use crate::text::{bool_text, decimal, json_escape, push_bool, push_decimal, push_json_escaped, starts_with};

verus! {

/// Signs verification results with a managed key.
pub struct KmsSigner {
    key_id: String,
}

/// The signature of a verification result.
pub open spec fn signature_text(proof_id: Seq<char>, is_valid: bool) -> Seq<char> {
    "mock_kms_sig_"@ + proof_id + "_"@ + bool_text(is_valid)
}

impl KmsSigner {
    /// The key the signer uses.
    pub closed spec fn key(&self) -> Seq<char> {
        self.key_id@
    }

    /// A signer for the given key.
    pub fn new(key_id: &str) -> (s: Self)
        ensures
            s.key() == key_id@,
    {
        KmsSigner { key_id: String::from_str(key_id) }
    }

    /// Signs the result of verifying a proof.
    pub fn sign_verification_result(&self, proof_id: &str, is_valid: bool) -> (sig: String)
        ensures
            sig@ == signature_text(proof_id@, is_valid),
    {
        let mut sig = String::from_str("mock_kms_sig_");
        sig.append(proof_id);
        sig.append("_");
        push_bool(&mut sig, is_valid);
        sig
    }
}

/// Records API accesses per tenant.
pub struct AuditLogger {}

/// The structured line recorded for an API access: a JSON object whose
/// tenant and endpoint are escaped string literals.
pub open spec fn audit_line(tenant_id: Seq<char>, endpoint: Seq<char>, status: u16) -> Seq<char> {
    "{\"event\": \"api_access\", \"tenant\": \""@ + json_escape(tenant_id) + "\", \"endpoint\": \""@
        + json_escape(endpoint)
        + "\", \"status\": "@ + decimal(status as nat) + "}"@
}

impl AuditLogger {
    /// A logger.
    pub fn new() -> Self {
        AuditLogger {}
    }

    /// The structured line that records an access; the caller writes it to
    /// the audit log.
    pub fn log_access(&self, tenant_id: &str, endpoint: &str, status: u16) -> (line: String)
        ensures
            line@ == audit_line(tenant_id@, endpoint@, status),
    {
        let mut line = String::from_str("{\"event\": \"api_access\", \"tenant\": \"");
        push_json_escaped(&mut line, tenant_id);
        line.append("\", \"endpoint\": \"");
        push_json_escaped(&mut line, endpoint);
        line.append("\", \"status\": ");
        push_decimal(&mut line, status as u64);
        line.append("}");
        line
    }
}

/// The prefix of tokens this service accepts.
pub open spec fn accepted_token_prefix() -> Seq<char> {
    "Bearer mock_"@
}

/// Validates a tenant token: tokens that begin with `Bearer mock_` belong
/// to the tenant `tenant_12345`; every other token is unauthorized.
pub fn validate_tenant_jwt(token: &str) -> (r: Result<String, &'static str>)
    ensures
        ({
            let p = accepted_token_prefix();
            let accepted = p.len() <= token@.len() && token@.subrange(0, p.len() as int) == p;
            &&& accepted ==> r is Ok && r->Ok_0@ == "tenant_12345"@
            &&& !accepted ==> r is Err && r->Err_0@ == "Unauthorized"@
        }),
{
    if starts_with(token, "Bearer mock_") {
        Ok(String::from_str("tenant_12345"))
    } else {
        Err("Unauthorized")
    }
}

} // verus!
