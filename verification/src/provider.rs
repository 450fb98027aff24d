//! The enumerated chat providers, with name parsing and rendering.

use vstd::prelude::*;
use vstd::string::*;
use crate::text::{ci_seq_eq, str_ci_eq, lemma_ci_seq_eq_trans};

verus! {

#[derive(Debug, Clone, Copy, PartialEq, Eq, Structural)]
pub enum AIProvider {
    OpenAI,
    Anthropic,
    Gemini,
    Bedrock,
    Groq,
    DeepSeek,
    Ollama,
    Cohere,
}

/// The provider a name denotes: matching is ASCII-case-insensitive, and
/// "google" is a synonym of "gemini".
pub open spec fn parse_provider(s: Seq<char>) -> Option<AIProvider> {
    if ci_seq_eq(s, "openai"@) {
        Some(AIProvider::OpenAI)
    } else if ci_seq_eq(s, "anthropic"@) {
        Some(AIProvider::Anthropic)
    } else if ci_seq_eq(s, "gemini"@) || ci_seq_eq(s, "google"@) {
        Some(AIProvider::Gemini)
    } else if ci_seq_eq(s, "bedrock"@) {
        Some(AIProvider::Bedrock)
    } else if ci_seq_eq(s, "groq"@) {
        Some(AIProvider::Groq)
    } else if ci_seq_eq(s, "deepseek"@) {
        Some(AIProvider::DeepSeek)
    } else if ci_seq_eq(s, "ollama"@) {
        Some(AIProvider::Ollama)
    } else if ci_seq_eq(s, "cohere"@) {
        Some(AIProvider::Cohere)
    } else {
        None
    }
}

/// The canonical lower-case name of a provider.
pub open spec fn provider_name(p: AIProvider) -> Seq<char> {
    match p {
        AIProvider::OpenAI => "openai"@,
        AIProvider::Anthropic => "anthropic"@,
        AIProvider::Gemini => "gemini"@,
        AIProvider::Bedrock => "bedrock"@,
        AIProvider::Groq => "groq"@,
        AIProvider::DeepSeek => "deepseek"@,
        AIProvider::Ollama => "ollama"@,
        AIProvider::Cohere => "cohere"@,
    }
}

impl AIProvider {
    /// Parse a provider name; any string naming no provider is rejected
    /// with an unknown-provider error.
    pub fn from_string(s: &str) -> (r: Result<Self, String>)
        ensures
            match r {
                Ok(p) => parse_provider(s@) == Some(p),
                Err(e) => parse_provider(s@) is None && e@ == "Unknown provider: "@ + s@,
            },
    {
        if str_ci_eq(s, "openai") {
            Ok(Self::OpenAI)
        } else if str_ci_eq(s, "anthropic") {
            Ok(Self::Anthropic)
        } else if str_ci_eq(s, "gemini") || str_ci_eq(s, "google") {
            Ok(Self::Gemini)
        } else if str_ci_eq(s, "bedrock") {
            Ok(Self::Bedrock)
        } else if str_ci_eq(s, "groq") {
            Ok(Self::Groq)
        } else if str_ci_eq(s, "deepseek") {
            Ok(Self::DeepSeek)
        } else if str_ci_eq(s, "ollama") {
            Ok(Self::Ollama)
        } else if str_ci_eq(s, "cohere") {
            Ok(Self::Cohere)
        } else {
            Err("Unknown provider: ".to_owned().concat(s))
        }
    }

    /// The canonical lower-case name of this provider.
    pub fn to_genai_name(&self) -> (r: &'static str)
        ensures
            r@ == provider_name(*self),
    {
        match self {
            Self::OpenAI => "openai",
            Self::Anthropic => "anthropic",
            Self::Gemini => "gemini",
            Self::Bedrock => "bedrock",
            Self::Groq => "groq",
            Self::DeepSeek => "deepseek",
            Self::Ollama => "ollama",
            Self::Cohere => "cohere",
        }
    }
}

/// Provider-name parsing is case-insensitive: two names that agree up to
/// ASCII case denote the same provider, or both denote none.
pub proof fn lemma_parse_provider_case_insensitive(s: Seq<char>, t: Seq<char>)
    requires
        ci_seq_eq(s, t),
    ensures
        parse_provider(s) == parse_provider(t),
{
    lemma_ci_seq_eq_trans(s, t, "openai"@);
    lemma_ci_seq_eq_trans(s, t, "anthropic"@);
    lemma_ci_seq_eq_trans(s, t, "gemini"@);
    lemma_ci_seq_eq_trans(s, t, "google"@);
    lemma_ci_seq_eq_trans(s, t, "bedrock"@);
    lemma_ci_seq_eq_trans(s, t, "groq"@);
    lemma_ci_seq_eq_trans(s, t, "deepseek"@);
    lemma_ci_seq_eq_trans(s, t, "ollama"@);
    lemma_ci_seq_eq_trans(s, t, "cohere"@);
}

/// "google" and "gemini" are equivalent provider names.
pub proof fn lemma_google_gemini_equivalent()
    ensures
        parse_provider("google"@) == Some(AIProvider::Gemini),
        parse_provider("gemini"@) == Some(AIProvider::Gemini),
{
    reveal_strlit("openai");
    reveal_strlit("anthropic");
    reveal_strlit("gemini");
    reveal_strlit("google");
    assert(ci_seq_eq("gemini"@, "gemini"@));
    assert(ci_seq_eq("google"@, "google"@));
    assert(!ci_seq_eq("google"@, "openai"@)) by {
        assert(!crate::text::ci_char_eq("google"@[0], "openai"@[0]));
    }
    assert(!ci_seq_eq("gemini"@, "openai"@)) by {
        assert(!crate::text::ci_char_eq("gemini"@[0], "openai"@[0]));
    }
    assert(!ci_seq_eq("google"@, "anthropic"@));
    assert(!ci_seq_eq("gemini"@, "anthropic"@));
}

} // verus!
