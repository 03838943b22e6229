use rserver::audit::{
    consults_ai, response_from_ai_reply, start_audit, AiReply, AuditRequest, AuditResponse, AuditStep,
};
use rserver::create_fallback_response;

fn request(text: &str, depth: &str) -> AuditRequest {
    AuditRequest { document_text: text.to_string(), analysis_depth: depth.to_string() }
}

fn assert_missing_document(r: &AuditResponse) {
    assert_eq!(r.status, "error");
    assert_eq!(r.risk_score, 0);
    assert_eq!(r.findings, vec!["No document provided".to_string()]);
    assert_eq!(r.ai_suggestion, "Please insert contract text for analysis.");
}

#[test]
fn empty_document_is_an_error() {
    assert_missing_document(&create_fallback_response("", "deep"));
    assert_missing_document(&create_fallback_response("Empty document", "fast"));
}

#[test]
fn placeholder_must_match_exactly() {
    let r = create_fallback_response("Empty document ", "fast");
    assert_eq!(r.status, "success");
    let r = create_fallback_response("empty document", "fast");
    assert_eq!(r.status, "success");
}

#[test]
fn deep_fallback_report() {
    let r = create_fallback_response("Contract text", "deep");
    assert_eq!(r.status, "success");
    assert_eq!(r.risk_score, 35);
    assert_eq!(
        r.findings,
        vec![
            "Standard payment terms detected".to_string(),
            "Execution period: 30 days (within norm)".to_string(),
            "Missing confidentiality clause".to_string(),
            "Penalty sanctions not detailed".to_string(),
        ]
    );
    assert_eq!(
        r.ai_suggestion,
        "🤖 AI recommends: add a force majeure clause considering 2026 sanctions, detail liability of parties, and include confidentiality provisions. For precise analysis, connect Grok API (set GROK_API_KEY)."
    );
}

#[test]
fn fast_fallback_report() {
    let r = create_fallback_response("Contract text", "fast");
    assert_eq!(r.status, "success");
    assert_eq!(r.risk_score, 20);
    assert_eq!(
        r.findings,
        vec![
            "Basic analysis: no obvious violations found".to_string(),
            "Deep analysis recommended".to_string(),
        ]
    );
    assert_eq!(
        r.ai_suggestion,
        "🤖 Quick analysis completed. For detailed review use 'deep' mode. Connect Grok API for full AI analysis."
    );
}

#[test]
fn unknown_depth_is_fast() {
    let a = create_fallback_response("Contract text", "DEEP");
    let b = create_fallback_response("Contract text", "fast");
    assert_eq!(a.risk_score, 20);
    assert_eq!(a.findings, b.findings);
    assert_eq!(a.ai_suggestion, b.ai_suggestion);
}

#[test]
fn built_in_scores_are_in_range() {
    for text in ["", "Empty document", "x"] {
        for depth in ["fast", "deep", ""] {
            assert!(create_fallback_response(text, depth).risk_score <= 100);
        }
    }
}

#[test]
fn unparsable_body_becomes_empty_fast_request() {
    let r = AuditRequest::from_parsed(None);
    assert_eq!(r.document_text, "");
    assert_eq!(r.analysis_depth, "fast");
    let r = AuditRequest::from_parsed(Some(request("abc", "deep")));
    assert_eq!(r.document_text, "abc");
    assert_eq!(r.analysis_depth, "deep");
}

#[test]
fn ai_needs_key_and_document() {
    assert!(consults_ai("key", &request("text", "fast")));
    assert!(!consults_ai("", &request("text", "fast")));
    assert!(!consults_ai("key", &request("", "fast")));
    assert!(consults_ai("key", &request("Empty document", "fast")));
}

#[test]
fn ai_report_is_passed_through() {
    let report = AuditResponse {
        status: "success".to_string(),
        risk_score: 77,
        findings: vec!["a".to_string()],
        ai_suggestion: "b".to_string(),
    };
    let r = response_from_ai_reply(AiReply::Report(report), &request("t", "deep"));
    assert_eq!(r.risk_score, 77);
    assert_eq!(r.findings, vec!["a".to_string()]);
    assert_eq!(r.ai_suggestion, "b");
}

#[test]
fn ai_free_text_becomes_suggestion() {
    let r = response_from_ai_reply(AiReply::FreeText("Looks fine.".to_string()), &request("t", "deep"));
    assert_eq!(r.status, "success");
    assert_eq!(r.risk_score, 50);
    assert_eq!(r.findings, vec!["AI analysis completed".to_string()]);
    assert_eq!(r.ai_suggestion, "Looks fine.");
}

#[test]
fn failed_ai_call_falls_back() {
    let r = response_from_ai_reply(AiReply::Failed, &request("Contract", "deep"));
    assert_eq!(r.risk_score, 35);
    let r = response_from_ai_reply(AiReply::Failed, &request("Contract", "fast"));
    assert_eq!(r.risk_score, 20);
}

#[test]
fn audit_starts_with_ai_only_when_possible() {
    assert!(matches!(start_audit("key", &request("text", "deep")), AuditStep::AskAi));
    match start_audit("", &request("text", "deep")) {
        AuditStep::Respond(r) => assert_eq!(r.risk_score, 35),
        AuditStep::AskAi => panic!("no key: the built-in report is expected"),
    }
    match start_audit("key", &request("", "deep")) {
        AuditStep::Respond(r) => assert_eq!(r.status, "error"),
        AuditStep::AskAi => panic!("no document: the error report is expected"),
    }
}
