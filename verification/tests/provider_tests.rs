use ai_chat_gateway::provider::AIProvider;

#[test]
fn test_provider_conversion() {
    assert!(matches!(
        AIProvider::from_string("openai").unwrap(),
        AIProvider::OpenAI
    ));
    assert!(matches!(
        AIProvider::from_string("anthropic").unwrap(),
        AIProvider::Anthropic
    ));
}

#[test]
fn provider_parsing_is_case_insensitive() {
    assert!(matches!(
        AIProvider::from_string("OpenAI").unwrap(),
        AIProvider::OpenAI
    ));
    assert!(matches!(
        AIProvider::from_string("ANTHROPIC").unwrap(),
        AIProvider::Anthropic
    ));
    assert!(matches!(
        AIProvider::from_string("GrOq").unwrap(),
        AIProvider::Groq
    ));
    assert!(matches!(
        AIProvider::from_string("DEEPSEEK").unwrap(),
        AIProvider::DeepSeek
    ));
}

#[test]
fn google_and_gemini_are_equivalent() {
    assert!(matches!(
        AIProvider::from_string("google").unwrap(),
        AIProvider::Gemini
    ));
    assert!(matches!(
        AIProvider::from_string("gemini").unwrap(),
        AIProvider::Gemini
    ));
    assert!(matches!(
        AIProvider::from_string("Google").unwrap(),
        AIProvider::Gemini
    ));
}

#[test]
fn unknown_provider_fails_with_message() {
    let err = AIProvider::from_string("mistral").unwrap_err();
    assert_eq!(err, "Unknown provider: mistral");
    assert!(AIProvider::from_string("").is_err());
    assert!(AIProvider::from_string("openai ").is_err());
}

#[test]
fn provider_names_round_trip() {
    let all = [
        AIProvider::OpenAI,
        AIProvider::Anthropic,
        AIProvider::Gemini,
        AIProvider::Bedrock,
        AIProvider::Groq,
        AIProvider::DeepSeek,
        AIProvider::Ollama,
        AIProvider::Cohere,
    ];
    for p in all {
        let name = p.to_genai_name();
        let back = AIProvider::from_string(name).unwrap();
        assert_eq!(back.to_genai_name(), name);
    }
}
