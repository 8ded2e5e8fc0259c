use cromulent::auth::{
    accept_credential_cache, default_credentials_path, default_model_info, is_expired, is_expired_at,
    refresh_credentials, AppConfig, AppConfigFile, CodexAuthError, CodexCredentials, CredentialCache, ProviderAuthConfig,
};
use cromulent::auth::conventional_key_var;
use cromulent::protocol::ThinkingLevel;

fn sample_credentials() -> CodexCredentials {
    CodexCredentials {
        access_token: "at_sample_token".to_string(),
        refresh_token: "rt_sample_refresh".to_string(),
        expires_at: "2099-12-31T23:59:59Z".to_string(),
        token_type: Some("Bearer".to_string()),
        scope: Some("read write".to_string()),
    }
}

#[test]
fn test_credential_cache_new() {
    let creds = sample_credentials();
    let cache = CredentialCache::new("codex".to_string(), creds);
    assert_eq!(cache.provider, "codex");
    assert_eq!(cache.schema_version, 1);
    assert_eq!(cache.credentials.access_token, "at_sample_token");
}

#[test]
fn test_is_expired_false() {
    let creds = sample_credentials();
    assert!(!is_expired(&creds).unwrap());
}

#[test]
fn test_is_expired_true() {
    let creds = CodexCredentials { expires_at: "2020-01-01T00:00:00Z".to_string(), ..sample_credentials() };
    assert!(is_expired(&creds).unwrap());
}

#[test]
fn expiry_compares_instants() {
    let creds = CodexCredentials { expires_at: "2020-01-01T00:00:00Z".to_string(), ..sample_credentials() };
    assert!(!is_expired_at(&creds, (1577836800, 0)).unwrap());
    assert!(is_expired_at(&creds, (1577836800, 1)).unwrap());
    let bad = CodexCredentials { expires_at: "soon".to_string(), ..sample_credentials() };
    match is_expired_at(&bad, (0, 0)) {
        Err(CodexAuthError::Expired { expires_at }) => assert_eq!(expires_at, "soon"),
        other => panic!("unexpected {:?}", other),
    }
}

#[test]
fn auth_error_messages() {
    assert_eq!(
        CodexAuthError::RefreshNotImplemented.message(),
        "Codex credential refresh is not yet implemented. Provide a fresh API key or token manually."
    );
    assert_eq!(
        CodexAuthError::Expired { expires_at: "x".to_string() }.message(),
        "credentials expired at x and refresh is not implemented"
    );
}

#[test]
fn credentials_path_ends_in_auth_codex() {
    assert!(default_credentials_path().ends_with(".cromulent/auth/codex.json"));
}

#[test]
fn config_defaults_and_cli_overrides() {
    let file = AppConfigFile { providers: Vec::new(), default_model: None, thinking_level: None, max_turns: None };
    let cfg = file.to_app_config();
    assert_eq!(cfg.max_turns, 40);
    assert_eq!(cfg.default_thinking, ThinkingLevel::Medium);
    assert_eq!(cfg.default_model.provider, "openai");
    assert_eq!(cfg.default_model.id, "gpt-5.5");
    assert_eq!(cfg.default_model.context_window, 200_000);
    assert!(cfg.sessions_dir.ends_with(".cromulent/sessions"));
    let merged = file.merge_with_cli(Some("deepseek"), Some("deepseek-chat"), Some(ThinkingLevel::High), Some(7));
    assert_eq!(merged.default_model.provider, "deepseek");
    assert_eq!(merged.default_model.id, "deepseek-chat");
    assert_eq!(merged.default_model.display_name, "GPT-5.5");
    assert_eq!(merged.default_thinking, ThinkingLevel::High);
    assert_eq!(merged.max_turns, 7);
    let kept = file.merge_with_cli(None, None, None, None);
    assert_eq!(kept.max_turns, 40);
    assert_eq!(kept.default_model.provider, "openai");
}

#[test]
fn default_app_config() {
    let cfg = AppConfig::default();
    assert_eq!(cfg.max_turns, 40);
    assert_eq!(cfg.default_thinking, ThinkingLevel::Medium);
    assert_eq!(cfg.default_model.id, "gpt-5.5");
    assert_eq!(cfg.default_model.provider, "openai");
    assert!(cfg.sessions_dir.ends_with(".cromulent/sessions"));
}

#[test]
fn default_config_file() {
    let d = AppConfigFile::default();
    assert_eq!(d.providers.len(), 2);
    assert_eq!(d.providers[0].0, "openai");
    assert_eq!(d.providers[0].1.api_key_env.as_deref(), Some("OPENAI_API_KEY"));
    assert_eq!(d.providers[1].0, "opencode");
    assert_eq!(d.max_turns, Some(40));
    assert_eq!(d.default_model.unwrap().id, default_model_info().id);
}

#[test]
fn api_key_priority() {
    let cfg = ProviderAuthConfig { api_key: Some("file".to_string()), api_key_env: None, base_url: None, default_model: None };
    assert_eq!(cfg.resolve_api_key_with(Some("named".to_string()), Some("conv".to_string())).as_deref(), Some("file"));
    let cfg2 = ProviderAuthConfig { api_key: Some(String::new()), api_key_env: None, base_url: None, default_model: None };
    assert_eq!(cfg2.resolve_api_key_with(Some("named".to_string()), Some("conv".to_string())).as_deref(), Some("named"));
    assert_eq!(cfg2.resolve_api_key_with(Some(String::new()), Some("conv".to_string())).as_deref(), Some("conv"));
    assert_eq!(cfg2.resolve_api_key_with(None, Some(String::new())), None);
    let file = AppConfigFile { providers: Vec::new(), default_model: None, thinking_level: None, max_turns: None };
    assert_eq!(file.resolve_api_key_with("x", None, Some("k".to_string())).as_deref(), Some("k"));
}

#[test]
fn conventional_variable_names() {
    assert_eq!(conventional_key_var("open-ai"), "OPEN_AI_API_KEY");
    assert_eq!(conventional_key_var("deepseek"), "DEEPSEEK_API_KEY");
}

#[test]
fn test_refresh_placeholder_returns_error() {
    let creds = sample_credentials();
    let result = refresh_credentials(&creds);
    assert!(result.is_err());
    match result {
        Err(CodexAuthError::RefreshNotImplemented) => {}
        _ => panic!("expected RefreshNotImplemented"),
    }
}

#[test]
fn credential_cache_schema_is_checked() {
    let ok = accept_credential_cache(CredentialCache::new("codex".to_string(), sample_credentials())).unwrap();
    assert_eq!(ok.schema_version, 1);
    let mut old = CredentialCache::new("codex".to_string(), sample_credentials());
    old.schema_version = 7;
    assert_eq!(accept_credential_cache(old).unwrap_err(), "Unsupported credential schema version: 7");
}
