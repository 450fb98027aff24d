use ai_chat_gateway::config::{get_config, parse_u32_or_default, AIConfig, EnvMap};
use ai_chat_gateway::provider::AIProvider;

fn env(pairs: &[(&str, &str)]) -> EnvMap {
    EnvMap {
        vars: pairs
            .iter()
            .map(|(k, v)| (k.to_string(), v.to_string()))
            .collect(),
    }
}

#[test]
fn overrides_win_over_environment_for_every_field() {
    let e = env(&[
        ("AI_PROVIDER", "openai"),
        ("AI_MODEL", "gpt-4o"),
        ("OPENAI_API_KEY", "env-key"),
        ("OPENAI_BASE_URL", "https://env.example"),
    ]);
    let c = AIConfig::from_env_and_overrides(
        Some("anthropic".to_string()),
        Some("model-x".to_string()),
        Some("ovr-key".to_string()),
        Some("https://ovr.example".to_string()),
        &e,
    )
    .unwrap();
    assert!(matches!(c.provider, AIProvider::Anthropic));
    assert_eq!(c.model_id, "model-x");
    assert_eq!(c.api_key.as_deref(), Some("ovr-key"));
    assert_eq!(c.base_url.as_deref(), Some("https://ovr.example"));
}

#[test]
fn each_override_wins_independently() {
    let e = env(&[
        ("AI_PROVIDER", "openai"),
        ("AI_MODEL", "gpt-4o"),
        ("OPENAI_API_KEY", "env-key"),
        ("OPENAI_BASE_URL", "https://env.example"),
    ]);
    let c = AIConfig::from_env_and_overrides(
        None,
        None,
        Some("only-key".to_string()),
        None,
        &e,
    )
    .unwrap();
    assert!(matches!(c.provider, AIProvider::OpenAI));
    assert_eq!(c.model_id, "gpt-4o");
    assert_eq!(c.api_key.as_deref(), Some("only-key"));
    assert_eq!(c.base_url.as_deref(), Some("https://env.example"));

    let c2 = AIConfig::from_env_and_overrides(
        None,
        Some("gpt-mini".to_string()),
        None,
        None,
        &e,
    )
    .unwrap();
    assert_eq!(c2.model_id, "gpt-mini");
    assert_eq!(c2.api_key.as_deref(), Some("env-key"));
}

#[test]
fn missing_provider_and_model_are_fatal() {
    let err = AIConfig::from_env_and_overrides(None, None, None, None, &env(&[])).unwrap_err();
    assert_eq!(err, "AI_PROVIDER not configured");
    let err2 = AIConfig::from_env_and_overrides(
        Some("openai".to_string()),
        None,
        None,
        None,
        &env(&[]),
    )
    .unwrap_err();
    assert_eq!(err2, "AI_MODEL not configured");
    let err3 = AIConfig::from_env_and_overrides(
        Some("nope".to_string()),
        None,
        None,
        None,
        &env(&[]),
    )
    .unwrap_err();
    assert_eq!(err3, "Unknown provider: nope");
}

#[test]
fn gemini_credential_falls_back_to_google_variable() {
    let e = env(&[
        ("AI_PROVIDER", "gemini"),
        ("AI_MODEL", "gemini-pro"),
        ("GOOGLE_GENERATIVE_AI_API_KEY", "gk"),
    ]);
    let c = AIConfig::from_env_and_overrides(None, None, None, None, &e).unwrap();
    assert_eq!(c.api_key.as_deref(), Some("gk"));
}

#[test]
fn bedrock_and_ollama_need_no_credential() {
    for p in ["bedrock", "ollama"] {
        let e = env(&[("AI_PROVIDER", p), ("AI_MODEL", "m")]);
        let c = AIConfig::from_env_and_overrides(None, None, None, None, &e).unwrap();
        assert_eq!(c.api_key, None);
    }
}

#[test]
fn numeric_settings_parse_with_zero_default() {
    assert_eq!(parse_u32_or_default("100"), 100);
    assert_eq!(parse_u32_or_default("+42"), 42);
    assert_eq!(parse_u32_or_default("0"), 0);
    assert_eq!(parse_u32_or_default(""), 0);
    assert_eq!(parse_u32_or_default("abc"), 0);
    assert_eq!(parse_u32_or_default("-5"), 0);
    assert_eq!(parse_u32_or_default("4294967295"), u32::MAX);
    assert_eq!(parse_u32_or_default("4294967296"), 0);
    assert_eq!(parse_u32_or_default("99999999999999999999999"), 0);
    assert_eq!(parse_u32_or_default("0000000000001"), 1);
    assert_eq!(parse_u32_or_default("1 "), 0);
}

#[test]
fn config_surface_reports_limits() {
    let e = env(&[
        ("ACCESS_CODE_LIST", "a,b"),
        ("DAILY_REQUEST_LIMIT", "100"),
        ("DAILY_TOKEN_LIMIT", "bad"),
    ]);
    let c = get_config(&e).unwrap();
    assert!(c.access_code_required);
    assert_eq!(c.daily_request_limit, 100);
    assert_eq!(c.daily_token_limit, 0);
    assert_eq!(c.tpm_limit, 0);

    let c2 = get_config(&env(&[])).unwrap();
    assert!(!c2.access_code_required);
}
