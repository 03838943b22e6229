use rserver::grok::{
    analysis_messages, authorization_value, first_choice_content, max_tokens_for,
    temperature_tenths_for,
};

#[test]
fn token_limits() {
    assert_eq!(max_tokens_for("deep"), 2000);
    assert_eq!(max_tokens_for("fast"), 1000);
    assert_eq!(max_tokens_for("Deep"), 1000);
}

#[test]
fn temperatures() {
    assert_eq!(temperature_tenths_for("deep"), 4);
    assert_eq!(temperature_tenths_for("fast"), 2);
    assert_eq!(temperature_tenths_for(""), 2);
}

#[test]
fn messages_carry_prompt_and_document() {
    let m = analysis_messages("The contract.", "deep");
    assert_eq!(m.len(), 2);
    assert_eq!(m[0].role, "system");
    assert!(m[0].content.starts_with("You are a qualified legal AI assistant for contract analysis.\n"));
    assert!(m[0].content.ends_with("Reply ONLY with valid JSON without markdown formatting."));
    assert!(m[0].content.contains("- Missing force majeure clause (especially relevant for 2026 sanctions)\n"));
    assert_eq!(m[1].role, "user");
    assert_eq!(m[1].content, "Analyze this contract (depth: deep):\n\nThe contract.");
}

#[test]
fn authorization_header() {
    assert_eq!(authorization_value("xai-123"), "Bearer xai-123");
    assert_eq!(authorization_value(""), "Bearer ");
}

#[test]
fn first_choice() {
    assert_eq!(
        first_choice_content(vec!["one".to_string(), "two".to_string()]),
        Ok("one".to_string())
    );
    assert_eq!(first_choice_content(vec![]), Err("Empty response from Grok".to_string()));
}
