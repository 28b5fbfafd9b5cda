use zkvm::client::{endpoint_url, CompileRequest, ExecuteRequest, ProveRequest, VerifyResponse};
use zkvm::jobs::{job_status_key, plan_delivery, resolve_job_status, status_after, Delivery, JobEvent, JobStatus, ProofJob};
use zkvm::security::{validate_tenant_jwt, AuditLogger, KmsSigner};
use zkvm::storage::{cdn_url, proof_cdn_url, proof_object_key, trace_object_key};
use zkvm::text::{push_bool, push_decimal, push_hex_prefixed, push_json_escaped, starts_with};
use zkvm::webhooks::dispatch_outcome;

#[test]
fn tenant_tokens() {
    assert_eq!(validate_tenant_jwt("Bearer mock_abc"), Ok("tenant_12345".to_string()));
    assert_eq!(validate_tenant_jwt("Bearer mock_"), Ok("tenant_12345".to_string()));
    assert_eq!(validate_tenant_jwt("Bearer real"), Err("Unauthorized"));
    assert_eq!(validate_tenant_jwt(""), Err("Unauthorized"));
}

#[test]
fn signer_formats_result() {
    let signer = KmsSigner::new("key-1");
    assert_eq!(signer.sign_verification_result("p9", true), "mock_kms_sig_p9_true");
    assert_eq!(signer.sign_verification_result("p9", false), "mock_kms_sig_p9_false");
}

#[test]
fn audit_line_is_structured() {
    let logger = AuditLogger::new();
    assert_eq!(
        logger.log_access("t1", "/verify", 200),
        "{\"event\": \"api_access\", \"tenant\": \"t1\", \"endpoint\": \"/verify\", \"status\": 200}"
    );
    assert!(logger.log_access("t", "/x", 0).ends_with("\"status\": 0}"));
}

#[test]
fn audit_line_escapes_tenant_and_endpoint() {
    let logger = AuditLogger::new();
    assert_eq!(
        logger.log_access("a\"b\\c", "/p\n\u{1}é", 404),
        "{\"event\": \"api_access\", \"tenant\": \"a\\\"b\\\\c\", \"endpoint\": \"/p\\n\\u0001é\", \"status\": 404}"
    );
    let line = logger.log_access("x\", \"admin\": true, \"y", "/\t\r\u{8}\u{c}\u{1f}", 1);
    let parsed: serde_json::Value = serde_json::from_str(&line).unwrap();
    assert_eq!(parsed["tenant"], "x\", \"admin\": true, \"y");
    assert_eq!(parsed["endpoint"], "/\t\r\u{8}\u{c}\u{1f}");
    assert_eq!(parsed["status"], 1);
    assert!(parsed.get("admin").is_none());
}

#[test]
fn escaping_plain_text_keeps_it() {
    let mut out = String::from(">");
    push_json_escaped(&mut out, "tenant_12345 /v1/verify");
    assert_eq!(out, ">tenant_12345 /v1/verify");
}

#[test]
fn storage_keys_and_urls() {
    assert_eq!(trace_object_key("abc"), "traces/abc.json");
    assert_eq!(proof_object_key("p1"), "proofs/p1.bin");
    assert_eq!(cdn_url("cdn.example", &proof_object_key("p1")), "https://cdn.example/proofs/p1.bin");
    assert_eq!(proof_cdn_url("cdn.example", "p1"), "https://cdn.example/proofs/p1.bin");
}

#[test]
fn job_status_records() {
    assert_eq!(job_status_key("j-1"), "job_status:j-1");
    assert_eq!(resolve_job_status(None), "NOT_FOUND");
    assert_eq!(resolve_job_status(Some("QUEUED".to_string())), "QUEUED");
    let job = ProofJob { job_id: "j".to_string(), trace_id: "t".to_string(), timestamp: 3 };
    assert_eq!(job.timestamp, 3);
}

#[test]
fn webhook_outcomes() {
    assert_eq!(dispatch_outcome(Some(200)), Ok(()));
    assert_eq!(dispatch_outcome(Some(299)), Ok(()));
    assert_eq!(dispatch_outcome(Some(300)), Err("Webhook HTTP Error"));
    assert_eq!(dispatch_outcome(Some(199)), Err("Webhook HTTP Error"));
    assert_eq!(dispatch_outcome(None), Err("Network Request Failed"));
}

#[test]
fn client_bodies_and_endpoints() {
    assert_eq!(endpoint_url("https://api.local/v1", "compile"), "https://api.local/v1/compile");
    let c = CompileRequest { filename: "a.zk".to_string(), source: "x = 1".to_string() };
    let e = ExecuteRequest { program_id: "p".to_string() };
    let p = ProveRequest { session_id: "s".to_string() };
    let v = VerifyResponse { valid: true };
    assert_eq!((c.filename.as_str(), e.program_id.as_str(), p.session_id.as_str(), v.valid), ("a.zk", "p", "s", true));
}

#[test]
fn numerals_and_prefixes() {
    let mut s = String::new();
    push_decimal(&mut s, 0);
    s.push(' ');
    push_decimal(&mut s, 1234567890);
    s.push(' ');
    push_hex_prefixed(&mut s, 0);
    s.push(' ');
    push_hex_prefixed(&mut s, 0xdeadBEEF);
    s.push(' ');
    push_bool(&mut s, false);
    assert_eq!(s, "0 1234567890 0x0 0xdeadbeef false");
    assert!(starts_with("abc", "ab"));
    assert!(starts_with("abc", ""));
    assert!(!starts_with("ab", "abc"));
    assert!(!starts_with("abc", "b"));
}

#[test]
fn worker_plans_only_proof_jobs() {
    assert!(plan_delivery(Delivery::Empty).is_none());
    assert!(plan_delivery(Delivery::Unreadable).is_none());
    assert!(plan_delivery(Delivery::Malformed).is_none());
    let job = ProofJob { job_id: "j7".to_string(), trace_id: "t".to_string(), timestamp: 0 };
    let plan = plan_delivery(Delivery::Job(job)).unwrap();
    assert_eq!(plan.status_key, "job_status:j7");
    assert!(plan.trace.steps.is_empty());
    assert_eq!(plan.trace.public_inputs, vec![42]);
    assert!(plan.trace.private_inputs.is_empty());
}

#[test]
fn job_status_texts() {
    assert_eq!(JobStatus::Queued.as_str(), "QUEUED");
    assert_eq!(JobStatus::Processing.as_str(), "PROCESSING");
    assert_eq!(JobStatus::Completed.as_str(), "COMPLETED");
    assert_eq!(JobStatus::Failed.as_str(), "FAILED");
}

#[test]
fn job_events_set_statuses() {
    assert_eq!(status_after(JobEvent::Submitted).as_str(), "QUEUED");
    assert_eq!(status_after(JobEvent::QueueRefused).as_str(), "FAILED");
    assert_eq!(status_after(JobEvent::Started).as_str(), "PROCESSING");
    assert_eq!(status_after(JobEvent::Proved).as_str(), "COMPLETED");
}
