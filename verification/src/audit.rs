//! Audit requests and reports: the built-in report used when no AI analysis
//! is available, and the report made from what the AI service answered.

use vstd::prelude::*;
use vstd::string::*;
use crate::text::str_equals;

verus! {

broadcast use vstd::string::group_string_axioms;

/// A request to audit a document.
pub struct AuditRequest {
    pub document_text: String,
    /// `"fast"` or `"deep"`.
    pub analysis_depth: String,
}

/// The risk report answered to an audit request.
pub struct AuditResponse {
    pub status: String,
    pub risk_score: u8,
    pub findings: Vec<String>,
    pub ai_suggestion: String,
}

/// The content of a risk report.
pub struct AuditReport {
    pub status: Seq<char>,
    pub risk_score: u8,
    pub findings: Seq<Seq<char>>,
    pub ai_suggestion: Seq<char>,
}

impl View for AuditResponse {
    type V = AuditReport;

    open spec fn view(&self) -> AuditReport {
        AuditReport {
            status: self.status@,
            risk_score: self.risk_score,
            findings: self.findings@.map_values(|f: String| f@),
            ai_suggestion: self.ai_suggestion@,
        }
    }
}

/// Whether a document counts as missing: it is empty or the placeholder `Empty document`.
pub open spec fn is_missing_document(text: Seq<char>) -> bool {
    text.len() == 0 || text == "Empty document"@
}

/// The report for a missing document.
pub open spec fn missing_document_report() -> AuditReport {
    AuditReport {
        status: "error"@,
        risk_score: 0,
        findings: seq!["No document provided"@],
        ai_suggestion: "Please insert contract text for analysis."@,
    }
}

/// The built-in report of a deep analysis.
pub open spec fn deep_fallback_report() -> AuditReport {
    AuditReport {
        status: "success"@,
        risk_score: 35,
        findings: seq![
            "Standard payment terms detected"@,
            "Execution period: 30 days (within norm)"@,
            "Missing confidentiality clause"@,
            "Penalty sanctions not detailed"@,
        ],
        ai_suggestion: "🤖 AI recommends: add a force majeure clause considering 2026 sanctions, detail liability of parties, and include confidentiality provisions. For precise analysis, connect Grok API (set GROK_API_KEY)."@,
    }
}

/// The built-in report of a fast analysis.
pub open spec fn fast_fallback_report() -> AuditReport {
    AuditReport {
        status: "success"@,
        risk_score: 20,
        findings: seq![
            "Basic analysis: no obvious violations found"@,
            "Deep analysis recommended"@,
        ],
        ai_suggestion: "🤖 Quick analysis completed. For detailed review use 'deep' mode. Connect Grok API for full AI analysis."@,
    }
}

/// The built-in report for a document and an analysis depth: an error report
/// when the document is missing, the deep report for depth `deep`, and the
/// fast report for any other depth.
pub open spec fn fallback_report(text: Seq<char>, depth: Seq<char>) -> AuditReport {
    if is_missing_document(text) {
        missing_document_report()
    } else if depth == "deep"@ {
        deep_fallback_report()
    } else {
        fast_fallback_report()
    }
}

/// The report made from an answer of the AI service that is not a report
/// itself: a success with a middle risk score, carrying the answer as the suggestion.
pub open spec fn free_text_report(answer: Seq<char>) -> AuditReport {
    AuditReport {
        status: "success"@,
        risk_score: 50,
        findings: seq!["AI analysis completed"@],
        ai_suggestion: answer,
    }
}

/// Builds the built-in report for `text` analysed at depth `depth`.
pub fn create_fallback_response(text: &str, depth: &str) -> (r: AuditResponse)
    ensures
        r@ == fallback_report(text@, depth@),
        text@.len() > 0 && text@ != "Empty document"@ ==> r@ == (if depth@ == "deep"@ {
            deep_fallback_report()
        } else {
            fast_fallback_report()
        }),
{
    if text.is_empty() || str_equals(text, "Empty document") {
        let r = AuditResponse {
            status: String::from_str("error"),
            risk_score: 0,
            findings: vec![String::from_str("No document provided")],
            ai_suggestion: String::from_str("Please insert contract text for analysis."),
        };
        assert(r@.findings =~= missing_document_report().findings);
        return r;
    }
    let deep_analysis = str_equals(depth, "deep");
    if deep_analysis {
        let r = AuditResponse {
            status: String::from_str("success"),
            risk_score: 35,
            findings: vec![
                String::from_str("Standard payment terms detected"),
                String::from_str("Execution period: 30 days (within norm)"),
                String::from_str("Missing confidentiality clause"),
                String::from_str("Penalty sanctions not detailed"),
            ],
            ai_suggestion: String::from_str(
                "🤖 AI recommends: add a force majeure clause considering 2026 sanctions, detail liability of parties, and include confidentiality provisions. For precise analysis, connect Grok API (set GROK_API_KEY).",
            ),
        };
        assert(r@.findings =~= deep_fallback_report().findings);
        r
    } else {
        let r = AuditResponse {
            status: String::from_str("success"),
            risk_score: 20,
            findings: vec![
                String::from_str("Basic analysis: no obvious violations found"),
                String::from_str("Deep analysis recommended"),
            ],
            ai_suggestion: String::from_str(
                "🤖 Quick analysis completed. For detailed review use 'deep' mode. Connect Grok API for full AI analysis.",
            ),
        };
        assert(r@.findings =~= fast_fallback_report().findings);
        r
    }
}

impl AuditRequest {
    /// The request a body stands for: the request parsed from it, or, when it
    /// could not be parsed, an empty document at depth `fast`.
    pub fn from_parsed(parsed: Option<AuditRequest>) -> (r: AuditRequest)
        ensures
            parsed matches Some(p) ==> r == p,
            parsed is None ==> r.document_text@ == Seq::<char>::empty() && r.analysis_depth@
                == "fast"@,
    {
        match parsed {
            Some(p) => p,
            None => {
                proof {
                    reveal_strlit("");
                }
                AuditRequest {
                    document_text: String::from_str(""),
                    analysis_depth: String::from_str("fast"),
                }
            },
        }
    }
}

/// Whether an audit is handed to the AI service: only with an API key and a
/// non-empty document.
pub fn consults_ai(api_key: &str, request: &AuditRequest) -> (r: bool)
    ensures
        r == (api_key@.len() > 0 && request.document_text@.len() > 0),
{
    !api_key.is_empty() && !request.document_text.as_str().is_empty()
}

/// The first step of an audit: hand the request to the AI service, or
/// answer at once with the built-in report.
pub enum AuditStep {
    /// Ask the AI service, then finish with `response_from_ai_reply`.
    AskAi,
    /// Answer with this report.
    Respond(AuditResponse),
}

/// Starts the audit of `request`: with an API key and a non-empty document the
/// AI service is asked; otherwise the answer is the built-in report.
pub fn start_audit(api_key: &str, request: &AuditRequest) -> (step: AuditStep)
    ensures
        api_key@.len() > 0 && request.document_text@.len() > 0 ==> step is AskAi,
        !(api_key@.len() > 0 && request.document_text@.len() > 0) ==> (step matches AuditStep::Respond(r)
            && r@ == fallback_report(request.document_text@, request.analysis_depth@)),
{
    if consults_ai(api_key, request) {
        AuditStep::AskAi
    } else {
        AuditStep::Respond(
            create_fallback_response(request.document_text.as_str(), request.analysis_depth.as_str()),
        )
    }
}

/// What came back from the AI service.
pub enum AiReply {
    /// An answer that is itself a report.
    Report(AuditResponse),
    /// An answer that is not a report.
    FreeText(String),
    /// No answer: the call failed.
    Failed,
}

/// The report for a request that was handed to the AI service: its report,
/// a report made from its free-text answer, or the built-in report when the
/// call failed.
pub fn response_from_ai_reply(reply: AiReply, request: &AuditRequest) -> (r: AuditResponse)
    ensures
        match reply {
            AiReply::Report(report) => r == report,
            AiReply::FreeText(answer) => r@ == free_text_report(answer@) && r.ai_suggestion@
                == answer@,
            AiReply::Failed => r@ == fallback_report(
                request.document_text@,
                request.analysis_depth@,
            ),
        },
{
    match reply {
        AiReply::Report(report) => report,
        AiReply::FreeText(answer) => {
            let r = AuditResponse {
                status: String::from_str("success"),
                risk_score: 50,
                findings: vec![String::from_str("AI analysis completed")],
                ai_suggestion: answer,
            };
            assert(r@.findings =~= free_text_report(r.ai_suggestion@).findings);
            r
        },
        AiReply::Failed => create_fallback_response(
            request.document_text.as_str(),
            request.analysis_depth.as_str(),
        ),
    }
}

/// Every report the server makes itself has a risk score between 0 and 100.
pub proof fn law_built_in_risk_scores_in_range(text: Seq<char>, depth: Seq<char>, answer: Seq<char>)
    ensures
        fallback_report(text, depth).risk_score <= 100,
        free_text_report(answer).risk_score <= 100,
{
}

/// The built-in report is an error exactly when the document is missing,
/// and a success with at least one finding otherwise.
pub proof fn law_error_only_for_missing_document(text: Seq<char>, depth: Seq<char>)
    ensures
        (fallback_report(text, depth).status == "error"@) <==> is_missing_document(text),
        !is_missing_document(text) ==> fallback_report(text, depth).status == "success"@
            && fallback_report(text, depth).findings.len() > 0,
{
    reveal_strlit("error");
    reveal_strlit("success");
    assert("success"@ != "error"@) by {
        assert("success"@[0] != "error"@[0]);
    }
}

/// Every depth other than `deep` gets the fast analysis.
pub proof fn law_unknown_depth_is_fast(text: Seq<char>, depth: Seq<char>)
    requires
        depth != "deep"@,
    ensures
        fallback_report(text, depth) == fallback_report(text, "fast"@),
{
    reveal_strlit("deep");
    reveal_strlit("fast");
    assert("fast"@ != "deep"@) by {
        assert("fast"@[0] != "deep"@[0]);
    }
}

/// Only an empty text and the placeholder `Empty document` count as a missing
/// document: any other text, whatever its length or content, gets the deep
/// report at depth `deep` and the fast report at any other depth.
pub proof fn law_any_other_text_is_analysed(text: Seq<char>, depth: Seq<char>)
    ensures
        text.len() == 0 || text == "Empty document"@ ==> fallback_report(text, depth)
            == missing_document_report(),
        text.len() > 0 && text != "Empty document"@ && depth == "deep"@ ==> fallback_report(
            text,
            depth,
        ) == deep_fallback_report(),
        text.len() > 0 && text != "Empty document"@ && depth != "deep"@ ==> fallback_report(
            text,
            depth,
        ) == fast_fallback_report(),
{
}

/// The report made from a free-text answer of the AI service carries the whole
/// answer, unchanged, as its suggestion, whatever the answer.
pub proof fn law_free_text_answer_kept_whole(answer: Seq<char>)
    ensures
        free_text_report(answer).ai_suggestion == answer,
        free_text_report(answer).status == "success"@,
        free_text_report(answer).risk_score == 50,
{
}

} // verus!
