//! Keys, addresses and the configuration that is made of them.
use omp_headless::auth::{
    auth_store_path, entry_key, is_oauth_token, normalize_base_url, opencode_auth_key, resolve_api_key,
    AnthropicAuthConfig,
};
use omp_headless::config::{choose_system_prompt, env_or, resolve_system_prompt, LlmConfig, LlmEnv, PromptSource};
use omp_headless::error::AiError;
use omp_headless::json_repair::parse_json_with_repair;

#[test]
fn base_url_normalization() {
    assert_eq!(normalize_base_url("https://api.anthropic.com/"), "https://api.anthropic.com");
    assert_eq!(normalize_base_url("https://api.anthropic.com/v1"), "https://api.anthropic.com");
    assert_eq!(
        normalize_base_url("https://api.deepseek.com/anthropic"),
        "https://api.deepseek.com/anthropic"
    );
    assert_eq!(
        normalize_base_url("https://api.deepseek.com/anthropic/v1/"),
        "https://api.deepseek.com/anthropic"
    );
}

#[test]
fn messages_url_shapes() {
    let auth =
        AnthropicAuthConfig::new("sk-test".into(), Some("https://api.deepseek.com/anthropic"), None);
    assert!(!auth.is_oauth);
    assert_eq!(auth.messages_url(false), "https://api.deepseek.com/anthropic/v1/messages");
    assert_eq!(
        auth.messages_url(true),
        "https://api.deepseek.com/anthropic/v1/messages?beta=true"
    );
}

#[test]
fn oauth_detection() {
    assert!(is_oauth_token("sk-ant-oat01-abc"));
    assert!(!is_oauth_token("sk-ant-api03-abc"));
}

#[test]
fn normalized_address_is_a_prefix() {
    for url in ["https://a.b/v1/", "https://a.b///", "https://a.b/v1/v1", "https://a.b/v1x", ""] {
        assert!(url.trim().starts_with(&normalize_base_url(url)));
    }
}

#[test]
fn address_comes_from_the_argument_then_the_environment() {
    let a = AnthropicAuthConfig::new("k".into(), Some("https://a/v1"), Some("https://b"));
    assert_eq!(a.base_url, "https://a");
    let b = AnthropicAuthConfig::new("k".into(), None, Some("https://b/"));
    assert_eq!(b.base_url, "https://b");
    let c = AnthropicAuthConfig::new("k".into(), None, None);
    assert_eq!(c.base_url, "https://api.anthropic.com");
    let d = AnthropicAuthConfig::new("k".into(), Some("   "), Some("https://b"));
    assert_eq!(d.base_url, "https://api.anthropic.com");
}

#[test]
fn key_header_depends_on_the_kind_of_key() {
    let plain = AnthropicAuthConfig::new("sk-ant-api03-abc".into(), None, None);
    assert_eq!(plain.auth_header(), ("x-api-key".to_string(), "sk-ant-api03-abc".to_string()));
    let oauth = AnthropicAuthConfig::new("sk-ant-oat01-abc".into(), None, None);
    assert_eq!(oauth.auth_header(), ("authorization".to_string(), "Bearer sk-ant-oat01-abc".to_string()));
}

#[test]
fn store_lies_in_the_data_directory_or_under_home() {
    assert_eq!(auth_store_path(Some("/data"), Some("/home/u")).as_deref(), Some("/data/opencode/auth.json"));
    assert_eq!(auth_store_path(None, Some("/home/u")).as_deref(), Some("/home/u/.local/share/opencode/auth.json"));
    assert_eq!(auth_store_path(None, None), None);
}

#[test]
fn store_is_read_by_entry() {
    let store = r#"{"deepseek":{"type":"api","key":"secret"},"other":{"type":"api"}}"#;
    assert_eq!(opencode_auth_key(store, "deepseek").as_deref(), Some("secret"));
    assert_eq!(opencode_auth_key(store, "other"), None);
    assert_eq!(opencode_auth_key(store, "absent"), None);
    assert_eq!(opencode_auth_key("no json", "deepseek"), None);
    let value = parse_json_with_repair(store).unwrap();
    assert_eq!(entry_key(&value, "deepseek").as_deref(), Some("secret"));
}

#[test]
fn empty_keys_count_as_missing() {
    let empty = || Some(String::new());
    match resolve_api_key(Some(" "), Some(""), Some("deepseek"), empty()) {
        Err(AiError::Auth(text)) => assert!(text.contains("Some(\"deepseek\")"), "{text}"),
        other => panic!("{other:?}"),
    }
    assert_eq!(resolve_api_key(None, Some(" env "), None, empty()).unwrap(), "env");
    let env = LlmEnv {
        auth_entry: Some("deepseek".into()),
        auth_store: Some(r#"{"deepseek":{"type":"api","key":""}}"#.into()),
        ..no_env()
    };
    assert!(matches!(LlmConfig::resolve(&env), Err(AiError::Auth(_))));
}

#[test]
fn key_comes_from_the_argument_then_the_environment_then_the_store() {
    let stored = || Some("stored".to_string());
    assert_eq!(resolve_api_key(Some("given"), Some("env"), Some("e"), stored()).unwrap(), "given");
    assert_eq!(resolve_api_key(None, Some("env"), Some("e"), stored()).unwrap(), "env");
    assert_eq!(resolve_api_key(None, None, Some("e"), stored()).unwrap(), "stored");
    match resolve_api_key(None, None, Some("deepseek"), None) {
        Err(AiError::Auth(text)) => assert!(text.contains("Some(\"deepseek\")"), "{text}"),
        other => panic!("{other:?}"),
    }
    match resolve_api_key(None, None, None, None) {
        Err(AiError::Auth(text)) => assert!(text.contains("None"), "{text}"),
        other => panic!("{other:?}"),
    }
}

// configuration

fn no_env() -> LlmEnv {
    LlmEnv { model: None, base_url: None, auth_entry: None, api_key: None, auth_store: None }
}

#[test]
fn empty_variables_count_as_unset() {
    assert_eq!(env_or(Some(""), "d"), "d");
    assert_eq!(env_or(None, "d"), "d");
    assert_eq!(env_or(Some("v"), "d"), "v");
}

#[test]
fn configuration_has_defaults() {
    let env = LlmEnv { api_key: Some("k".into()), ..no_env() };
    let config = LlmConfig::resolve(&env).unwrap();
    assert_eq!(config.model, "deepseek-v4-flash");
    assert_eq!(config.base_url, "https://api.deepseek.com/anthropic");
    assert_eq!(config.auth_entry, "deepseek");
    assert_eq!(config.api_key, "k");
    assert_eq!(config.max_tokens, 8192);
    assert_eq!(config.auth().messages_url(false), "https://api.deepseek.com/anthropic/v1/messages");
}

#[test]
fn configuration_reads_the_store() {
    let env = LlmEnv {
        auth_entry: Some("mine".into()),
        auth_store: Some(r#"{"mine":{"key":"from store"}}"#.into()),
        ..no_env()
    };
    assert_eq!(LlmConfig::resolve(&env).unwrap().api_key, "from store");
    assert!(matches!(LlmConfig::resolve(&no_env()), Err(AiError::Auth(_))));
}

#[test]
fn prompt_comes_from_the_flag_then_the_environment() {
    assert_eq!(choose_system_prompt(Some("f"), Some("e")), PromptSource::Given("f".into()));
    assert_eq!(choose_system_prompt(None, Some("e")), PromptSource::Given("e".into()));
    assert!(matches!(choose_system_prompt(None, Some("")), PromptSource::Default(_)));
    assert_eq!(resolve_system_prompt(PromptSource::Given("path".into()), Some("text".into())), "text");
    assert_eq!(resolve_system_prompt(PromptSource::Given("itself".into()), None), "itself");
}
