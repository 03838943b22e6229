//! The request sent to the AI service: its messages and sampling settings,
//! and the reading of its answer.

use vstd::prelude::*;
use vstd::string::*;
use crate::text::str_equals;

verus! {

broadcast use vstd::string::group_string_axioms;

/// A chat message of the AI service's API.
#[derive(Clone, Debug)]
pub struct Message {
    pub role: String,
    pub content: String,
}

/// The instructions that open every conversation with the AI service.
pub open spec fn legal_system_prompt() -> Seq<char> {
    "You are a qualified legal AI assistant for contract analysis.\nYour task is to find risks in the document and provide recommendations.\n\nResponse format (strictly JSON):\n{\n    \"status\": \"success\" or \"error\",\n    \"risk_score\": number from 0 to 100,\n    \"findings\": [\"finding 1\", \"finding 2\", ...],\n    \"ai_suggestion\": \"detailed recommendation in Russian\"\n}\n\nCommon risks to look for:\n- Missing essential contract terms\n- Unfavorable payment terms (over 30 days)\n- Lack of liability clauses\n- Incorrect company details\n- VAT/tax risks\n- Missing force majeure clause (especially relevant for 2026 sanctions)\n- Vague wording\n- Unfavorable jurisdiction for the client\n- Currency risks\n- Missing confidentiality clause\n\nReply ONLY with valid JSON without markdown formatting."@
}

/// The text of the user message asking to analyse `document` at depth `depth`.
pub open spec fn analysis_request_text(document: Seq<char>, depth: Seq<char>) -> Seq<char> {
    "Analyze this contract (depth: "@ + depth + "):\n\n"@ + document
}

/// Builds the conversation sent to the AI service: the system prompt, then
/// the request to analyse `document_text` at depth `depth`.
pub fn analysis_messages(document_text: &str, depth: &str) -> (m: Vec<Message>)
    ensures
        m@.len() == 2,
        m@[0].role@ == "system"@,
        m@[0].content@ == legal_system_prompt(),
        m@[1].role@ == "user"@,
        m@[1].content@ == analysis_request_text(document_text@, depth@),
        m@[1].content@.subrange(
            m@[1].content@.len() - document_text@.len(),
            m@[1].content@.len() as int,
        ) == document_text@,
{
    let mut content = String::from_str("Analyze this contract (depth: ");
    content.append(depth);
    content.append("):\n\n");
    content.append(document_text);
    let system = Message {
        role: String::from_str("system"),
        content: String::from_str(
            "You are a qualified legal AI assistant for contract analysis.\nYour task is to find risks in the document and provide recommendations.\n\nResponse format (strictly JSON):\n{\n    \"status\": \"success\" or \"error\",\n    \"risk_score\": number from 0 to 100,\n    \"findings\": [\"finding 1\", \"finding 2\", ...],\n    \"ai_suggestion\": \"detailed recommendation in Russian\"\n}\n\nCommon risks to look for:\n- Missing essential contract terms\n- Unfavorable payment terms (over 30 days)\n- Lack of liability clauses\n- Incorrect company details\n- VAT/tax risks\n- Missing force majeure clause (especially relevant for 2026 sanctions)\n- Vague wording\n- Unfavorable jurisdiction for the client\n- Currency risks\n- Missing confidentiality clause\n\nReply ONLY with valid JSON without markdown formatting.",
        ),
    };
    proof {
        law_request_carries_whole_document(document_text@, depth@);
    }
    let user = Message { role: String::from_str("user"), content };
    vec![system, user]
}

/// The most tokens the AI service may answer with: 2000 for depth `deep`, 1000 otherwise.
pub fn max_tokens_for(depth: &str) -> (n: u32)
    ensures
        n == (if depth@ == "deep"@ {
            2000u32
        } else {
            1000u32
        }),
{
    if str_equals(depth, "deep") {
        2000
    } else {
        1000
    }
}

/// The sampling temperature for the AI service, in tenths: 4 (that is 0.4)
/// for depth `deep`, 2 (0.2) otherwise.
pub fn temperature_tenths_for(depth: &str) -> (t: u32)
    ensures
        t == (if depth@ == "deep"@ {
            4u32
        } else {
            2u32
        }),
{
    if str_equals(depth, "deep") {
        4
    } else {
        2
    }
}

/// The value of the `Authorization` header for the API key `api_key`.
pub fn authorization_value(api_key: &str) -> (v: String)
    ensures
        v@ == "Bearer "@ + api_key@,
{
    let mut v = String::from_str("Bearer ");
    v.append(api_key);
    v
}

/// The analysis in an answer of the AI service, given the contents of its
/// choices in order: the first one, or an error when there is none.
pub fn first_choice_content(contents: Vec<String>) -> (r: Result<String, String>)
    ensures
        contents@.len() > 0 ==> r == Ok::<String, String>(contents@[0]),
        contents@.len() == 0 ==> (r matches Err(e) && e@ == "Empty response from Grok"@),
{
    if contents.len() > 0 {
        Ok(contents[0].clone())
    } else {
        Err(String::from_str("Empty response from Grok"))
    }
}

/// The request sent to the AI service carries the whole document, at every
/// depth: it is the fixed opening `Analyze this contract (depth: `, the depth,
/// `):` and a blank line, and then the document text to its last character.
pub proof fn law_request_carries_whole_document(document: Seq<char>, depth: Seq<char>)
    ensures
        ({
            let t = analysis_request_text(document, depth);
            &&& t.len() == 34 + depth.len() + document.len()
            &&& t.subrange(0, 30) == "Analyze this contract (depth: "@
            &&& t.subrange(30, 30 + depth.len() as int) == depth
            &&& t.subrange(30 + depth.len() as int, 34 + depth.len() as int) == seq![')', ':', '\n', '\n']
            &&& t.subrange(t.len() - document.len(), t.len() as int) == document
        }),
{
    reveal_strlit("Analyze this contract (depth: ");
    reveal_strlit("):\n\n");
    let opening = "Analyze this contract (depth: "@;
    let close = "):\n\n"@;
    let t = analysis_request_text(document, depth);
    assert(t == opening + depth + close + document);
    assert(t.subrange(0, 30) =~= opening);
    assert(t.subrange(30, 30 + depth.len() as int) =~= depth);
    assert(t.subrange(30 + depth.len() as int, 34 + depth.len() as int) =~= seq![')', ':', '\n', '\n']);
    assert(t.subrange(t.len() - document.len(), t.len() as int) =~= document);
}

} // verus!
