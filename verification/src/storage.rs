//! Where traces and proofs are stored: object keys and the content
//! delivery URL of a proof.

use vstd::prelude::*;
use vstd::string::StringExecFns;

verus! {

/// The object key of a trace.
pub open spec fn trace_key_text(trace_id: Seq<char>) -> Seq<char> {
    "traces/"@ + trace_id + ".json"@
}

/// The object key of a proof.
pub open spec fn proof_key_text(proof_id: Seq<char>) -> Seq<char> {
    "proofs/"@ + proof_id + ".bin"@
}

/// The URL under which the delivery network serves an object.
pub open spec fn cdn_url_text(cdn_domain: Seq<char>, key: Seq<char>) -> Seq<char> {
    "https://"@ + cdn_domain + "/"@ + key
}

/// The object key under which a trace is stored.
pub fn trace_object_key(trace_id: &str) -> (k: String)
    ensures
        k@ == trace_key_text(trace_id@),
{
    let mut k = String::from_str("traces/");
    k.append(trace_id);
    k.append(".json");
    k
}

/// The object key under which a proof is stored.
pub fn proof_object_key(proof_id: &str) -> (k: String)
    ensures
        k@ == proof_key_text(proof_id@),
{
    let mut k = String::from_str("proofs/");
    k.append(proof_id);
    k.append(".bin");
    k
}

/// The delivery URL of an object: the one an upload reports.
pub fn cdn_url(cdn_domain: &str, key: &str) -> (u: String)
    ensures
        u@ == cdn_url_text(cdn_domain@, key@),
{
    let mut u = String::from_str("https://");
    u.append(cdn_domain);
    u.append("/");
    u.append(key);
    u
}

/// The delivery URL of a proof, without downloading it.
pub fn proof_cdn_url(cdn_domain: &str, proof_id: &str) -> (u: String)
    ensures
        u@ == "https://"@ + cdn_domain@ + "/proofs/"@ + proof_id@ + ".bin"@,
{
    let mut u = String::from_str("https://");
    u.append(cdn_domain);
    u.append("/proofs/");
    u.append(proof_id);
    u.append(".bin");
    u
}

/// The URL an upload of a proof reports is the URL the proof's delivery
/// lookup gives.
pub proof fn law_upload_url_is_cdn_url(cdn_domain: Seq<char>, proof_id: Seq<char>)
    ensures
        cdn_url_text(cdn_domain, proof_key_text(proof_id)) == "https://"@ + cdn_domain + "/proofs/"@
            + proof_id + ".bin"@,
{
    reveal_strlit("/");
    reveal_strlit("proofs/");
    reveal_strlit("/proofs/");
    assert(cdn_url_text(cdn_domain, proof_key_text(proof_id)) =~= "https://"@ + cdn_domain
        + "/proofs/"@ + proof_id + ".bin"@);
}

} // verus!
