//! The configuration of the program, given what its environment holds.
use vstd::prelude::*;
use crate::auth::{chosen_key, no_key_text, opencode_auth_key, opt_text, resolve_api_key, stored_key, AnthropicAuthConfig};
use crate::error::AiError;
use crate::message::Text;
use crate::text::owned;

verus! {

/// How many tokens a response may have.
pub const DEFAULT_MAX_TOKENS: u64 = 8192;

pub const DEFAULT_MODEL: &'static str = "deepseek-v4-flash";

pub const DEFAULT_BASE_URL: &'static str = "https://api.deepseek.com/anthropic";

/// The entry of the store of keys, which is also the provider's name.
pub const DEFAULT_AUTH_ENTRY: &'static str = "deepseek";

pub const DEFAULT_SYSTEM_PROMPT: &'static str =
    "You are omp-headless, a headless coding agent. You have file and shell tools (read, write, edit, bash, grep, glob) scoped to the session working directory. Use them to complete the user's task, then give a short confirmation. Prefer concrete actions over asking questions.";

/// A variable of the environment, or a default where it is not set or empty.
pub open spec fn set_or(value: Option<Text>, default: Text) -> Text {
    match value {
        Some(v) => if v.len() > 0 {
            v
        } else {
            default
        },
        None => default,
    }
}

pub fn env_or(value: Option<&str>, default: &str) -> (r: String)
    ensures
        r@ == set_or(opt_text(value), default@),
{
    match value {
        Some(v) => if v.is_empty() {
            owned(default)
        } else {
            owned(v)
        },
        None => owned(default),
    }
}

/// How to reach the model.
#[derive(Debug, PartialEq, Eq)]
pub struct LlmConfig {
    pub model: String,
    pub base_url: String,
    pub auth_entry: String,
    pub api_key: String,
    pub max_tokens: u64,
}

/// What the environment says of the model, as far as it says anything.
#[derive(Debug, PartialEq, Eq)]
pub struct LlmEnv {
    pub model: Option<String>,
    pub base_url: Option<String>,
    pub auth_entry: Option<String>,
    pub api_key: Option<String>,
    /// The text of the store of keys.
    pub auth_store: Option<String>,
}

pub open spec fn env_entry(env: LlmEnv) -> Text {
    set_or(env.auth_entry.deep_view(), DEFAULT_AUTH_ENTRY@)
}

pub open spec fn env_key(env: LlmEnv) -> Option<Text> {
    chosen_key(
        None,
        env.api_key.deep_view(),
        match env.auth_store {
            Some(s) => stored_key(s@, env_entry(env)),
            None => None,
        },
    )
}

fn given(value: &Option<String>) -> (r: Option<&str>)
    ensures
        opt_text(r) == value.deep_view(),
{
    match value {
        Some(v) => Some(v.as_str()),
        None => None,
    }
}

impl LlmConfig {
    /// The configuration that the environment gives; without a key there is none.
    pub fn resolve(env: &LlmEnv) -> (r: Result<Self, AiError>)
        ensures
            match env_key(*env) {
                Some(key) => r is Ok && r->Ok_0.api_key@ == key && r->Ok_0.model@ == set_or(
                    env.model.deep_view(),
                    DEFAULT_MODEL@,
                ) && r->Ok_0.base_url@ == set_or(env.base_url.deep_view(), DEFAULT_BASE_URL@)
                    && r->Ok_0.auth_entry@ == env_entry(*env) && r->Ok_0.max_tokens == DEFAULT_MAX_TOKENS,
                None => r is Err && r->Err_0 is Auth && r->Err_0->Auth_0@ == no_key_text(
                    Some(env_entry(*env)),
                ),
            },
    {
        let model = env_or(given(&env.model), DEFAULT_MODEL);
        let base_url = env_or(given(&env.base_url), DEFAULT_BASE_URL);
        let auth_entry = env_or(given(&env.auth_entry), DEFAULT_AUTH_ENTRY);
        let stored = match &env.auth_store {
            Some(s) => opencode_auth_key(s.as_str(), auth_entry.as_str()),
            None => None,
        };
        match resolve_api_key(None, given(&env.api_key), Some(auth_entry.as_str()), stored) {
            Ok(api_key) => Ok(
                LlmConfig { model, base_url, auth_entry, api_key, max_tokens: DEFAULT_MAX_TOKENS },
            ),
            Err(e) => Err(e),
        }
    }

    /// How to authenticate to the model.
    pub fn auth(&self) -> (r: AnthropicAuthConfig)
        ensures
            r.api_key == self.api_key,
            r.base_url@ == crate::auth::chosen_base_url(Some(self.base_url@), None),
            r.is_oauth == crate::auth::oauth_token(self.api_key@),
    {
        AnthropicAuthConfig::new(self.api_key.clone(), Some(self.base_url.as_str()), None)
    }
}

/// Where the system prompt comes from.
#[derive(Debug, PartialEq, Eq)]
pub enum PromptSource {
    /// A value that was given: the path of a file that holds it, or else itself.
    Given(String),
    /// The prompt that is built in.
    Default(String),
}

/// Where the system prompt comes from: a flag beats the environment, which beats
/// what is built in.
pub fn choose_system_prompt(flag: Option<&str>, env: Option<&str>) -> (r: PromptSource)
    ensures
        match flag {
            Some(f) => r is Given && r->Given_0@ == f@,
            None => if env is Some && env->0@.len() > 0 {
                r is Given && r->Given_0@ == env->0@
            } else {
                r is Default && r->Default_0@ == DEFAULT_SYSTEM_PROMPT@
            },
        },
{
    if let Some(f) = flag {
        return PromptSource::Given(owned(f));
    }
    if let Some(e) = env {
        if !e.is_empty() {
            return PromptSource::Given(owned(e));
        }
    }
    PromptSource::Default(owned(DEFAULT_SYSTEM_PROMPT))
}

/// The system prompt of a value that was given: what the file it names holds,
/// where it names one, else the value.
pub fn resolve_system_prompt(source: PromptSource, file: Option<String>) -> (r: String)
    ensures
        match source {
            PromptSource::Given(v) => match file {
                Some(f) => r == f,
                None => r == v,
            },
            PromptSource::Default(v) => r == v,
        },
{
    match source {
        PromptSource::Given(v) => match file {
            Some(f) => f,
            None => v,
        },
        PromptSource::Default(v) => v,
    }
}

/// A variable that is set and not empty counts; else the default does.
pub proof fn law_variables_override_defaults(value: Option<Text>, default: Text)
    ensures
        value is Some && value->0.len() > 0 ==> set_or(value, default) == value->0,
        value is None || value->0.len() == 0 ==> set_or(value, default) == default,
{
}

/// The key is that of the environment, else the stored one of the entry that is set, or
/// of the entry that there is without a setting.
pub proof fn law_configured_key(env: LlmEnv)
    ensures
        ({
            let given = env.api_key is Some && crate::text::trimmed(env.api_key->0@).len() > 0;
            let entry = if env.auth_entry is Some && env.auth_entry->0@.len() > 0 {
                env.auth_entry->0@
            } else {
                DEFAULT_AUTH_ENTRY@
            };
            &&& env_entry(env) == entry
            &&& given ==> env_key(env) == Some(crate::text::trimmed(env.api_key->0@))
            &&& !given && env.auth_store is None ==> env_key(env) is None
            &&& !given && env.auth_store is Some && stored_key(env.auth_store->0@, entry) is Some && stored_key(
                env.auth_store->0@,
                entry,
            )->0.len() > 0 ==> env_key(env) == stored_key(env.auth_store->0@, entry)
        }),
{
}

} // verus!
