//! Resolution of the per-request configuration from explicit overrides and
//! a snapshot of the process environment, and the small numeric settings
//! surface.

use vstd::prelude::*;
use vstd::string::*;
use crate::provider::{AIProvider, parse_provider};
use crate::text::str_eq;

verus! {

/// A snapshot of the process environment: name/value pairs, first match
/// wins. The gateway itself never reads or writes the real environment.
pub struct EnvMap {
    pub vars: Vec<(String, String)>,
}

/// First value bound to `name`, if any.
pub open spec fn env_lookup(vars: Seq<(String, String)>, name: Seq<char>) -> Option<String>
    decreases vars.len(),
{
    if vars.len() == 0 {
        None
    } else if vars[0].0@ == name {
        Some(vars[0].1)
    } else {
        env_lookup(vars.drop_first(), name)
    }
}

impl EnvMap {
    #[verifier::loop_isolation(false)]
    pub fn get(&self, name: &str) -> (r: Option<String>)
        ensures
            r == env_lookup(self.vars@, name@),
    {
        let n = self.vars.len();
        let mut i: usize = 0;
        proof {
            assert(self.vars@.skip(0) =~= self.vars@);
        }
        while i < n
            invariant
                i <= n,
                env_lookup(self.vars@, name@) == env_lookup(self.vars@.skip(i as int), name@),
            decreases n - i,
        {
            proof {
                assert(self.vars@.skip(i as int)[0] == self.vars@[i as int]);
                assert(self.vars@.skip(i as int).drop_first() =~= self.vars@.skip(i + 1));
            }
            if str_eq(self.vars[i].0.as_str(), name) {
                return Some(self.vars[i].1.clone());
            }
            i += 1;
        }
        proof {
            assert(self.vars@.skip(n as int) =~= Seq::<(String, String)>::empty());
        }
        None
    }
}

/// The configuration one request runs with.
#[derive(Debug)]
pub struct AIConfig {
    pub provider: AIProvider,
    pub model_id: String,
    pub api_key: Option<String>,
    pub base_url: Option<String>,
}

/// An override wins over the environment.
pub open spec fn resolved_field(o: Option<String>, env_val: Option<String>) -> Option<String> {
    if o is Some {
        o
    } else {
        env_val
    }
}

/// The credential for a provider: the override, else the provider's own
/// environment variable; Gemini falls back to a second variable, and
/// Bedrock and Ollama need none.
pub open spec fn spec_api_key(p: AIProvider, k_o: Option<String>, vars: Seq<(String, String)>) -> Option<String> {
    if k_o is Some {
        k_o
    } else {
        match p {
            AIProvider::OpenAI => env_lookup(vars, "OPENAI_API_KEY"@),
            AIProvider::Anthropic => env_lookup(vars, "ANTHROPIC_API_KEY"@),
            AIProvider::Gemini => match env_lookup(vars, "GEMINI_API_KEY"@) {
                Some(v) => Some(v),
                None => env_lookup(vars, "GOOGLE_GENERATIVE_AI_API_KEY"@),
            },
            AIProvider::Groq => env_lookup(vars, "GROQ_API_KEY"@),
            AIProvider::DeepSeek => env_lookup(vars, "DEEPSEEK_API_KEY"@),
            AIProvider::Cohere => env_lookup(vars, "COHERE_API_KEY"@),
            AIProvider::Bedrock => None,
            AIProvider::Ollama => None,
        }
    }
}

/// The base URL for a provider: the override, else the provider's own
/// environment variable where one is defined.
pub open spec fn spec_base_url(p: AIProvider, b_o: Option<String>, vars: Seq<(String, String)>) -> Option<String> {
    if b_o is Some {
        b_o
    } else {
        match p {
            AIProvider::OpenAI => env_lookup(vars, "OPENAI_BASE_URL"@),
            AIProvider::Anthropic => env_lookup(vars, "ANTHROPIC_BASE_URL"@),
            AIProvider::DeepSeek => env_lookup(vars, "DEEPSEEK_BASE_URL"@),
            AIProvider::Ollama => env_lookup(vars, "OLLAMA_BASE_URL"@),
            _ => None,
        }
    }
}

/// Full resolution: provider and model are mandatory, each taken from the
/// override first and the environment second; failures carry their message.
pub open spec fn spec_resolve(
    p_o: Option<String>,
    m_o: Option<String>,
    k_o: Option<String>,
    b_o: Option<String>,
    vars: Seq<(String, String)>,
) -> Result<AIConfig, Seq<char>> {
    match resolved_field(p_o, env_lookup(vars, "AI_PROVIDER"@)) {
        None => Err("AI_PROVIDER not configured"@),
        Some(ps) => match parse_provider(ps@) {
            None => Err("Unknown provider: "@ + ps@),
            Some(p) => match resolved_field(m_o, env_lookup(vars, "AI_MODEL"@)) {
                None => Err("AI_MODEL not configured"@),
                Some(m) => Ok(
                    AIConfig {
                        provider: p,
                        model_id: m,
                        api_key: spec_api_key(p, k_o, vars),
                        base_url: spec_base_url(p, b_o, vars),
                    },
                ),
            },
        },
    }
}

impl AIConfig {
    /// Resolve the request configuration from overrides and environment.
    pub fn from_env_and_overrides(
        provider_override: Option<String>,
        model_override: Option<String>,
        api_key_override: Option<String>,
        base_url_override: Option<String>,
        env: &EnvMap,
    ) -> (r: Result<AIConfig, String>)
        ensures
            match r {
                Ok(c) => spec_resolve(
                    provider_override,
                    model_override,
                    api_key_override,
                    base_url_override,
                    env.vars@,
                ) == Ok::<AIConfig, Seq<char>>(c),
                Err(e) => spec_resolve(
                    provider_override,
                    model_override,
                    api_key_override,
                    base_url_override,
                    env.vars@,
                ) matches Err(m) && e@ == m,
            },
    {
        let provider_str = match provider_override {
            Some(x) => x,
            None => match env.get("AI_PROVIDER") {
                Some(x) => x,
                None => {
                    return Err("AI_PROVIDER not configured".to_owned());
                },
            },
        };
        let provider = match AIProvider::from_string(provider_str.as_str()) {
            Ok(p) => p,
            Err(e) => {
                return Err(e);
            },
        };
        let model_id = match model_override {
            Some(x) => x,
            None => match env.get("AI_MODEL") {
                Some(x) => x,
                None => {
                    return Err("AI_MODEL not configured".to_owned());
                },
            },
        };
        let api_key = match api_key_override {
            Some(x) => Some(x),
            None => match provider {
                AIProvider::OpenAI => env.get("OPENAI_API_KEY"),
                AIProvider::Anthropic => env.get("ANTHROPIC_API_KEY"),
                AIProvider::Gemini => match env.get("GEMINI_API_KEY") {
                    Some(v) => Some(v),
                    None => env.get("GOOGLE_GENERATIVE_AI_API_KEY"),
                },
                AIProvider::Groq => env.get("GROQ_API_KEY"),
                AIProvider::DeepSeek => env.get("DEEPSEEK_API_KEY"),
                AIProvider::Cohere => env.get("COHERE_API_KEY"),
                AIProvider::Bedrock => None,
                AIProvider::Ollama => None,
            },
        };
        let base_url = match base_url_override {
            Some(x) => Some(x),
            None => match provider {
                AIProvider::OpenAI => env.get("OPENAI_BASE_URL"),
                AIProvider::Anthropic => env.get("ANTHROPIC_BASE_URL"),
                AIProvider::DeepSeek => env.get("DEEPSEEK_BASE_URL"),
                AIProvider::Ollama => env.get("OLLAMA_BASE_URL"),
                _ => None,
            },
        };
        Ok(AIConfig { provider, model_id, api_key, base_url })
    }
}

// ---------------------------------------------------------------------------
// The numeric settings surface.
// ---------------------------------------------------------------------------

pub open spec fn is_digit_char(c: char) -> bool {
    48 <= c as int && c as int <= 57
}

pub open spec fn all_digits(s: Seq<char>) -> bool {
    forall|i: int| 0 <= i < s.len() ==> is_digit_char(s[i])
}

/// The value of a digit string, most significant digit first.
pub open spec fn digits_val(s: Seq<char>) -> int
    decreases s.len(),
{
    if s.len() == 0 {
        0
    } else {
        digits_val(s.drop_last()) * 10 + (s.last() as int - 48)
    }
}

/// What `str::parse::<u32>` accepts: an optional leading plus sign, then
/// at least one digit, with the value within range.
pub open spec fn spec_parse_u32(s: Seq<char>) -> Option<u32> {
    let body = if s.len() > 0 && s[0] == '+' {
        s.drop_first()
    } else {
        s
    };
    if body.len() > 0 && all_digits(body) && digits_val(body) <= u32::MAX {
        Some(digits_val(body) as u32)
    } else {
        None
    }
}

pub open spec fn parse_u32_or_zero(s: Seq<char>) -> u32 {
    match spec_parse_u32(s) {
        Some(v) => v,
        None => 0,
    }
}

proof fn lemma_digits_val_nonneg(s: Seq<char>)
    requires
        all_digits(s),
    ensures
        digits_val(s) >= 0,
    decreases s.len(),
{
    if s.len() > 0 {
        assert forall|i: int| 0 <= i < s.drop_last().len() implies is_digit_char(
            s.drop_last()[i],
        ) by {
            assert(s.drop_last()[i] == s[i]);
        }
        lemma_digits_val_nonneg(s.drop_last());
    }
}

proof fn lemma_digits_prefix_le(s: Seq<char>, k: int)
    requires
        0 <= k <= s.len(),
        all_digits(s),
    ensures
        digits_val(s.take(k)) <= digits_val(s),
    decreases s.len(),
{
    if k == s.len() {
        assert(s.take(k) =~= s);
    } else {
        assert forall|i: int| 0 <= i < s.drop_last().len() implies is_digit_char(
            s.drop_last()[i],
        ) by {
            assert(s.drop_last()[i] == s[i]);
        }
        lemma_digits_val_nonneg(s.drop_last());
        assert(s.take(k) =~= s.drop_last().take(k));
        lemma_digits_prefix_le(s.drop_last(), k);
        assert(digits_val(s) == digits_val(s.drop_last()) * 10 + (s.last() as int - 48));
        assert(digits_val(s.drop_last()) * 10 >= digits_val(s.drop_last()));
        assert(s.last() as int - 48 >= 0);
    }
}

/// Parse a decimal setting as the original does with `parse().unwrap_or(0)`:
/// anything `str::parse::<u32>` rejects counts as zero.
#[verifier::loop_isolation(false)]
pub fn parse_u32_or_default(s: &str) -> (r: u32)
    ensures
        r == parse_u32_or_zero(s@),
{
    let n = s.unicode_len();
    let start: usize = if n > 0 && s.get_char(0) == '+' {
        1
    } else {
        0
    };
    let ghost body = if s@.len() > 0 && s@[0] == '+' {
        s@.drop_first()
    } else {
        s@
    };
    proof {
        assert(body =~= s@.skip(start as int));
    }
    if start == n {
        return 0;
    }
    let mut acc: u64 = 0;
    let mut i: usize = start;
    proof {
        assert(body.take(0) =~= Seq::<char>::empty());
    }
    while i < n
        invariant
            start <= i <= n,
            n == s@.len(),
            body == s@.skip(start as int),
            all_digits(body.take(i - start)),
            acc as int == digits_val(body.take(i - start)),
            acc <= u32::MAX,
        decreases n - i,
    {
        let c = s.get_char(i);
        let x = c as u32;
        proof {
            assert(body[i - start] == s@[i as int]);
        }
        if !(48 <= x && x <= 57) {
            proof {
                assert(!is_digit_char(body[i - start]));
                assert(!all_digits(body));
            }
            return 0;
        }
        let d = (x - 48) as u64;
        let na = acc * 10 + d;
        proof {
            assert(body.take(i - start + 1).drop_last() =~= body.take(i - start));
            assert(body.take(i - start + 1).last() == body[i - start]);
            assert(digits_val(body.take(i - start + 1)) == digits_val(body.take(i - start)) * 10
                + (body[i - start] as int - 48));
        }
        if na > 0xFFFF_FFFF {
            proof {
                if all_digits(body) && digits_val(body) <= u32::MAX {
                    lemma_digits_prefix_le(body, i - start + 1);
                }
            }
            return 0;
        }
        acc = na;
        i += 1;
    }
    proof {
        assert(body.take(n - start) =~= body);
    }
    acc as u32
}

/// The configuration the UI asks about before chatting.
#[derive(Debug, Clone, PartialEq)]
pub struct ConfigResponse {
    pub access_code_required: bool,
    pub daily_request_limit: u32,
    pub daily_token_limit: u32,
    pub tpm_limit: u32,
}

/// Build the settings surface from the environment snapshot: whether an
/// access list is configured, and three numeric limits that default to
/// zero wherever unset or unreadable.
pub fn get_config(env: &EnvMap) -> (r: Result<ConfigResponse, String>)
    ensures
        r matches Ok(c) && {
            &&& c.access_code_required == (env_lookup(env.vars@, "ACCESS_CODE_LIST"@) is Some)
            &&& c.daily_request_limit == (match env_lookup(env.vars@, "DAILY_REQUEST_LIMIT"@) {
                Some(v) => parse_u32_or_zero(v@),
                None => 0u32,
            })
            &&& c.daily_token_limit == (match env_lookup(env.vars@, "DAILY_TOKEN_LIMIT"@) {
                Some(v) => parse_u32_or_zero(v@),
                None => 0u32,
            })
            &&& c.tpm_limit == (match env_lookup(env.vars@, "TPM_LIMIT"@) {
                Some(v) => parse_u32_or_zero(v@),
                None => 0u32,
            })
        },
{
    let access_code_required = match env.get("ACCESS_CODE_LIST") {
        Some(_) => true,
        None => false,
    };
    let daily_request_limit = match env.get("DAILY_REQUEST_LIMIT") {
        Some(v) => parse_u32_or_default(v.as_str()),
        None => 0,
    };
    let daily_token_limit = match env.get("DAILY_TOKEN_LIMIT") {
        Some(v) => parse_u32_or_default(v.as_str()),
        None => 0,
    };
    let tpm_limit = match env.get("TPM_LIMIT") {
        Some(v) => parse_u32_or_default(v.as_str()),
        None => 0,
    };
    Ok(ConfigResponse { access_code_required, daily_request_limit, daily_token_limit, tpm_limit })
}

/// Every explicit override wins over its environment variable, for every
/// provider and every environment.
pub proof fn lemma_override_precedence(
    p_o: Option<String>,
    m_o: Option<String>,
    k_o: Option<String>,
    b_o: Option<String>,
    vars: Seq<(String, String)>,
)
    ensures
        spec_resolve(p_o, m_o, k_o, b_o, vars) matches Ok(c) ==> {
            &&& p_o matches Some(ps) ==> parse_provider(ps@) == Some(c.provider)
            &&& m_o matches Some(m) ==> c.model_id == m
            &&& k_o matches Some(k) ==> c.api_key == Some(k)
            &&& b_o matches Some(b) ==> c.base_url == Some(b)
        },
{
}

} // verus!
