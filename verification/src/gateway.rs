//! The pre-network core of one chat request: the access gate, the resolved
//! configuration, and the fully assembled outbound request.

use vstd::prelude::*;
use vstd::string::*;
use crate::access::{spec_access_allowed, check_access};
use crate::config::{AIConfig, EnvMap, env_lookup, spec_resolve};
use crate::json::Json;
use crate::message::UIMessage;
use crate::prompt::{build_xml_context, get_system_prompt, spec_system_prompt, spec_xml_context};
use crate::provider::AIProvider;
use crate::request::{build_request_body, request_body_ok};

verus! {

/// The inbound request payload, already parsed from JSON at the edge.
#[derive(Debug)]
pub struct ChatRequestPayload {
    pub messages: Vec<UIMessage>,
    pub xml: Option<String>,
    pub previous_xml: Option<String>,
    pub session_id: Option<String>,
    pub access_code: Option<String>,
}

/// Everything the transport needs to send one chat-completions request.
#[derive(Debug)]
pub struct PreparedRequest {
    pub url: String,
    pub api_key: String,
    pub body: Json,
}

/// The name a provider shows in diagnostic messages.
pub open spec fn provider_debug_name(p: AIProvider) -> Seq<char> {
    match p {
        AIProvider::OpenAI => "OpenAI"@,
        AIProvider::Anthropic => "Anthropic"@,
        AIProvider::Gemini => "Gemini"@,
        AIProvider::Bedrock => "Bedrock"@,
        AIProvider::Groq => "Groq"@,
        AIProvider::DeepSeek => "DeepSeek"@,
        AIProvider::Ollama => "Ollama"@,
        AIProvider::Cohere => "Cohere"@,
    }
}

fn provider_debug_name_exec(p: AIProvider) -> (r: &'static str)
    ensures
        r@ == provider_debug_name(p),
{
    match p {
        AIProvider::OpenAI => "OpenAI",
        AIProvider::Anthropic => "Anthropic",
        AIProvider::Gemini => "Gemini",
        AIProvider::Bedrock => "Bedrock",
        AIProvider::Groq => "Groq",
        AIProvider::DeepSeek => "DeepSeek",
        AIProvider::Ollama => "Ollama",
        AIProvider::Cohere => "Cohere",
    }
}

/// The base URL used where none is configured; providers without a
/// dedicated endpoint get the OpenAI-compatible default.
pub open spec fn default_base_url(p: AIProvider) -> Seq<char> {
    match p {
        AIProvider::Anthropic => "https://api.anthropic.com/v1"@,
        AIProvider::DeepSeek => "https://api.deepseek.com/v1"@,
        _ => "https://api.openai.com/v1"@,
    }
}

fn default_base_url_exec(p: AIProvider) -> (r: &'static str)
    ensures
        r@ == default_base_url(p),
{
    match p {
        AIProvider::Anthropic => "https://api.anthropic.com/v1",
        AIProvider::DeepSeek => "https://api.deepseek.com/v1",
        _ => "https://api.openai.com/v1",
    }
}

pub open spec fn opt_view(o: Option<String>) -> Option<Seq<char>> {
    match o {
        Some(s) => Some(s@),
        None => None,
    }
}

/// Run the pre-network part of one chat request: the access gate first
/// (before any Start event can exist), then configuration resolution, the
/// mandatory credential, the endpoint, and the request body.
pub fn prepare_chat_request(
    payload: &ChatRequestPayload,
    provider_override: Option<String>,
    model_override: Option<String>,
    api_key_override: Option<String>,
    base_url_override: Option<String>,
    minimal_style: Option<bool>,
    env: &EnvMap,
) -> (r: Result<PreparedRequest, String>)
    ensures
        ({
            let allowed = spec_access_allowed(
                opt_view(env_lookup(env.vars@, "ACCESS_CODE_LIST"@)),
                opt_view(payload.access_code),
            );
            let res = spec_resolve(
                provider_override,
                model_override,
                api_key_override,
                base_url_override,
                env.vars@,
            );
            &&& r is Err <==> (!allowed || res is Err || (res matches Ok(c) && c.api_key is None))
            &&& match r {
                Err(e) => if !allowed {
                    e@ == "Invalid or missing access code"@
                } else {
                    match res {
                        Err(m) => e@ == m,
                        Ok(c) => c.api_key is None && e@ == provider_debug_name(c.provider)
                            + " API key not configured"@,
                    }
                },
                Ok(p) => {
                    &&& allowed
                    &&& res matches Ok(c) && {
                        &&& c.api_key == Some(p.api_key)
                        &&& p.url@ == (match c.base_url {
                            Some(b) => b@,
                            None => default_base_url(c.provider),
                        }) + "/chat/completions"@
                        &&& request_body_ok(
                            p.body,
                            c.model_id@,
                            spec_system_prompt(
                                match minimal_style {
                                    Some(m) => m,
                                    None => false,
                                },
                            ),
                            spec_xml_context(
                                opt_view(payload.xml),
                                opt_view(payload.previous_xml),
                            ),
                            payload.messages@,
                        )
                    }
                },
            }
        }),
{
    let list_var = env.get("ACCESS_CODE_LIST");
    let gate = check_access(
        match &list_var {
            Some(l) => Some(l),
            None => None,
        },
        match &payload.access_code {
            Some(c) => Some(c),
            None => None,
        },
    );
    match gate {
        Err(e) => {
            return Err(e);
        },
        Ok(()) => {},
    }
    let config = match AIConfig::from_env_and_overrides(
        provider_override,
        model_override,
        api_key_override,
        base_url_override,
        env,
    ) {
        Ok(c) => c,
        Err(e) => {
            return Err(e);
        },
    };
    let api_key = match config.api_key {
        Some(k) => k,
        None => {
            let mut msg = provider_debug_name_exec(config.provider).to_owned();
            msg.append(" API key not configured");
            return Err(msg);
        },
    };
    let mut url = match config.base_url {
        Some(b) => b,
        None => default_base_url_exec(config.provider).to_owned(),
    };
    url.append("/chat/completions");
    let system_prompt = get_system_prompt(
        config.model_id.as_str(),
        match minimal_style {
            Some(m) => m,
            None => false,
        },
    );
    let xml_context = build_xml_context(
        match &payload.xml {
            Some(x) => Some(x),
            None => None,
        },
        match &payload.previous_xml {
            Some(p) => Some(p),
            None => None,
        },
    );
    let body = build_request_body(&config.model_id, system_prompt, &xml_context, &payload.messages);
    Ok(PreparedRequest { url, api_key, body })
}

} // verus!
