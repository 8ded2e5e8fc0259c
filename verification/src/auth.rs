//! Provider credentials and the application configuration file.
use vstd::prelude::*;
use crate::protocol::{copy_model, copy_string, ModelInfo, ModelView, ThinkingLevel};
use crate::text::{chars_of, decimal, extend_str, string_of};
use crate::util::{cromulent_dir_in, default_config_dir, default_sessions_dir, join_path, path_join};

verus! {

// ---------------------------------------------------------------------------
// Provider keys
// ---------------------------------------------------------------------------

/// How a provider is authenticated and reached.
#[derive(Debug)]
pub struct ProviderAuthConfig {
    pub api_key: Option<String>,
    pub api_key_env: Option<String>,
    pub base_url: Option<String>,
    pub default_model: Option<String>,
}

pub open spec fn opt_view(o: Option<String>) -> Option<Seq<char>> {
    match o {
        Some(s) => Some(s@),
        None => None,
    }
}

/// A non-empty value, or nothing.
pub open spec fn non_empty(o: Option<Seq<char>>) -> Option<Seq<char>> {
    match o {
        Some(k) => if k.len() > 0 { Some(k) } else { None },
        None => None,
    }
}

/// The key of a provider, in order of priority: the key in the file, the
/// value of the variable the file names, the value of the conventional
/// variable; empty values do not count.
pub open spec fn key_of(cfg_key: Option<Seq<char>>, named_env: Option<Seq<char>>, conventional_env: Option<Seq<char>>) -> Option<Seq<char>> {
    if non_empty(cfg_key) is Some {
        cfg_key
    } else if non_empty(named_env) is Some {
        named_env
    } else {
        non_empty(conventional_env)
    }
}

/// `str::to_uppercase`: the full Unicode upper-case mapping.
pub uninterp spec fn upper_case(s: Seq<char>) -> Seq<char>;

/// Upper-cases text with `str::to_uppercase`, whose Unicode mapping is not
/// written out here: the result is named by `upper_case`.
#[verifier::external_body]
fn to_upper(s: &str) -> (r: String)
    ensures
        r@ == upper_case(s@),
{
    s.to_uppercase()
}

/// The conventional variable of a provider: its name upper-cased, `-`
/// replaced by `_`, and `_API_KEY` after it.
pub open spec fn conventional_var(provider: Seq<char>) -> Seq<char> {
    upper_case(provider).map_values(|c: char| if c == '-' { '_' } else { c }) + "_API_KEY"@
}

/// The name of the conventional key variable of a provider.
pub fn conventional_key_var(provider: &str) -> (r: String)
    ensures
        r@ == conventional_var(provider@),
{
    let u = chars_of(to_upper(provider).as_str());
    let mut out: Vec<char> = Vec::new();
    let mut i: usize = 0;
    while i < u.len()
        invariant
            i <= u.len(),
            out@ == u@.take(i as int).map_values(|c: char| if c == '-' { '_' } else { c }),
        decreases u.len() - i,
    {
        let c = u[i];
        out.push(if c == '-' { '_' } else { c });
        assert(out@ =~= u@.take(i + 1).map_values(|c: char| if c == '-' { '_' } else { c }));
        i += 1;
    }
    assert(u@.take(u.len() as int) =~= u@);
    extend_str(&mut out, "_API_KEY");
    string_of(&out)
}

fn take_non_empty(o: Option<String>) -> (r: Option<String>)
    ensures
        opt_view(r) == non_empty(opt_view(o)),
{
    match o {
        Some(k) => if k.as_str().unicode_len() > 0 { Some(k) } else { None },
        None => None,
    }
}

impl ProviderAuthConfig {
    /// The key of this provider, given the value of the variable the file
    /// names (when it names one) and of the conventional variable.
    pub fn resolve_api_key_with(&self, named_env: Option<String>, conventional_env: Option<String>) -> (r: Option<String>)
        ensures
            opt_view(r) == key_of(opt_view(self.api_key), opt_view(named_env), opt_view(conventional_env)),
    {
        match &self.api_key {
            Some(k) => {
                if k.as_str().unicode_len() > 0 {
                    return Some(copy_string(k));
                }
            },
            None => {},
        }
        match named_env {
            Some(k) => {
                if k.as_str().unicode_len() > 0 {
                    return Some(k);
                }
            },
            None => {},
        }
        take_non_empty(conventional_env)
    }
}

// ---------------------------------------------------------------------------
// The configuration file
// ---------------------------------------------------------------------------

/// The configuration file (`~/.cromulent/config.json`): provider settings
/// by name (names unique), and optional defaults.
#[derive(Debug)]
pub struct AppConfigFile {
    pub providers: Vec<(String, ProviderAuthConfig)>,
    pub default_model: Option<ModelInfo>,
    pub thinking_level: Option<ThinkingLevel>,
    pub max_turns: Option<u32>,
}

/// The settings of the first entry with the given name.
pub open spec fn settings_of(ps: Seq<(String, ProviderAuthConfig)>, name: Seq<char>) -> Option<ProviderAuthConfig>
    decreases ps.len(),
{
    if ps.len() == 0 {
        None
    } else if ps[0].0@ == name {
        Some(ps[0].1)
    } else {
        settings_of(ps.drop_first(), name)
    }
}

/// The configuration in use.
#[derive(Debug)]
pub struct AppConfig {
    pub max_turns: u32,
    pub sessions_dir: String,
    pub default_model: ModelInfo,
    pub default_thinking: ThinkingLevel,
}

/// The model used when none is configured.
pub open spec fn default_model_view() -> ModelView {
    ("openai"@, "gpt-5.5"@, "GPT-5.5"@, 200_000u32, true, true)
}

/// The model used when none is configured.
pub fn default_model_info() -> (r: ModelInfo)
    ensures
        r@ == default_model_view(),
{
    ModelInfo {
        provider: "openai".to_string(),
        id: "gpt-5.5".to_string(),
        display_name: "GPT-5.5".to_string(),
        context_window: 200_000,
        supports_reasoning: true,
        supports_tools: true,
    }
}

fn copy_opt(o: &Option<String>) -> (r: Option<String>)
    ensures
        opt_view(r) == opt_view(*o),
{
    match o {
        Some(s) => Some(copy_string(s)),
        None => None,
    }
}

/// The sessions directory under a home directory.
pub open spec fn sessions_dir_in(h: Option<Seq<char>>) -> Seq<char> {
    join_path(cromulent_dir_in(h), "sessions"@)
}

impl AppConfigFile {
    /// The configuration in use: the file's values, and defaults where it
    /// has none (the built-in model, medium thinking, forty turns).
    pub fn to_app_config(&self) -> (r: AppConfig)
        ensures
            r.default_model@ == (match self.default_model {
                Some(m) => m@,
                None => default_model_view(),
            }),
            r.default_thinking == (match self.thinking_level {
                Some(t) => t,
                None => ThinkingLevel::Medium,
            }),
            r.max_turns == (match self.max_turns {
                Some(m) => m,
                None => 40,
            }),
            exists|h: Option<Seq<char>>| r.sessions_dir@ == sessions_dir_in(h),
    {
        let default_model = match &self.default_model {
            Some(m) => copy_model(m),
            None => default_model_info(),
        };
        let default_thinking = match self.thinking_level {
            Some(t) => t,
            None => ThinkingLevel::Medium,
        };
        let max_turns = match self.max_turns {
            Some(m) => m,
            None => 40,
        };
        let sessions_dir = default_sessions_dir();
        let ghost h = choose|h: Option<Seq<char>>| sessions_dir@ == join_path(cromulent_dir_in(h), "sessions"@);
        assert(sessions_dir@ == sessions_dir_in(h));
        AppConfig { max_turns, sessions_dir, default_model, default_thinking }
    }

    /// The configuration in use, with the command line's values in place of
    /// the file's where given.
    pub fn merge_with_cli(
        &self,
        cli_provider: Option<&str>,
        cli_model: Option<&str>,
        cli_thinking: Option<ThinkingLevel>,
        cli_max_turns: Option<u32>,
    ) -> (r: AppConfig)
        ensures
            ({
                let base: ModelView = match self.default_model {
                    Some(m) => m@,
                    None => default_model_view(),
                };
                &&& r.default_model@.0 == (match cli_provider {
                    Some(p) => p@,
                    None => base.0,
                })
                &&& r.default_model@.1 == (match cli_model {
                    Some(m) => m@,
                    None => base.1,
                })
                &&& r.default_model@.2 == base.2
                &&& r.default_model@.3 == base.3
                &&& r.default_model@.4 == base.4
                &&& r.default_model@.5 == base.5
            }),
            r.default_thinking == (match cli_thinking {
                Some(t) => t,
                None => match self.thinking_level {
                    Some(t) => t,
                    None => ThinkingLevel::Medium,
                },
            }),
            r.max_turns == (match cli_max_turns {
                Some(m) => m,
                None => match self.max_turns {
                    Some(m) => m,
                    None => 40,
                },
            }),
            exists|h: Option<Seq<char>>| r.sessions_dir@ == sessions_dir_in(h),
    {
        let mut cfg = self.to_app_config();
        match cli_provider {
            Some(p) => {
                cfg.default_model.provider = crate::text::string_of(&chars_of(p));
            },
            None => {},
        }
        match cli_model {
            Some(m) => {
                cfg.default_model.id = crate::text::string_of(&chars_of(m));
            },
            None => {},
        }
        match cli_thinking {
            Some(t) => {
                cfg.default_thinking = t;
            },
            None => {},
        }
        match cli_max_turns {
            Some(m) => {
                cfg.max_turns = m;
            },
            None => {},
        }
        cfg
    }

    /// The settings of a provider, by name.
    pub fn provider(&self, name: &str) -> (r: Option<&ProviderAuthConfig>)
        ensures
            match r {
                Some(c) => settings_of(self.providers@, name@) == Some(*c),
                None => settings_of(self.providers@, name@) is None,
            },
    {
        let mut i: usize = 0;
        assert(self.providers@.skip(0) =~= self.providers@);
        while i < self.providers.len()
            invariant
                i <= self.providers.len(),
                settings_of(self.providers@.skip(i as int), name@) == settings_of(self.providers@, name@),
            decreases self.providers.len() - i,
        {
            assert(self.providers@.skip(i as int)[0] == self.providers@[i as int]);
            if crate::json::str_eq(self.providers[i].0.as_str(), name) {
                return Some(&self.providers[i].1);
            }
            assert(self.providers@.skip(i as int).drop_first() =~= self.providers@.skip(i + 1));
            i += 1;
        }
        None
    }

    /// The key of a provider, given the value of the variable its settings
    /// name and of its conventional variable: the settings' key first, then
    /// the variables; a provider without settings has only the conventional
    /// variable.
    pub fn resolve_api_key_with(&self, provider_name: &str, named_env: Option<String>, conventional_env: Option<String>) -> (r: Option<String>)
        ensures
            opt_view(r) == (match settings_of(self.providers@, provider_name@) {
                Some(c) => key_of(opt_view(c.api_key), opt_view(named_env), opt_view(conventional_env)),
                None => non_empty(opt_view(conventional_env)),
            }),
    {
        match self.provider(provider_name) {
            Some(cfg) => {
                let c2 = copy_opt(&conventional_env);
                match cfg.resolve_api_key_with(named_env, conventional_env) {
                    Some(k) => Some(k),
                    None => take_non_empty(c2),
                }
            },
            None => take_non_empty(conventional_env),
        }
    }
}

impl Default for AppConfig {
    /// The configuration without a file: forty turns, the sessions directory
    /// under the user's home, the built-in model and medium thinking.
    fn default() -> (r: AppConfig)
        ensures
            r.max_turns == 40,
            exists|h: Option<Seq<char>>| r.sessions_dir@ == sessions_dir_in(h),
            r.default_model@ == default_model_view(),
            r.default_thinking == ThinkingLevel::Medium,
    {
        let sessions_dir = default_sessions_dir();
        let ghost h = choose|h: Option<Seq<char>>| sessions_dir@ == join_path(cromulent_dir_in(h), "sessions"@);
        assert(sessions_dir@ == sessions_dir_in(h));
        AppConfig { max_turns: 40, sessions_dir, default_model: default_model_info(), default_thinking: ThinkingLevel::Medium }
    }
}

impl Default for AppConfigFile {
    /// The built-in configuration: the OpenAI and OpenCode providers keyed
    /// by their usual variables, the built-in model, medium thinking and
    /// forty turns.
    fn default() -> (r: AppConfigFile)
        ensures
            r.providers@.len() == 2,
            r.providers@[0].0@ == "openai"@,
            opt_view(r.providers@[0].1.api_key_env) == Some("OPENAI_API_KEY"@),
            opt_view(r.providers@[0].1.default_model) == Some("gpt-5.5"@),
            r.providers@[0].1.api_key is None,
            r.providers@[0].1.base_url is None,
            r.providers@[1].0@ == "opencode"@,
            opt_view(r.providers@[1].1.api_key_env) == Some("OPENCODE_API_KEY"@),
            r.providers@[1].1.default_model is None,
            r.providers@[1].1.api_key is None,
            r.providers@[1].1.base_url is None,
            r.default_model matches Some(m) && m@ == default_model_view(),
            r.thinking_level == Some(ThinkingLevel::Medium),
            r.max_turns == Some(40u32),
    {
        let mut providers: Vec<(String, ProviderAuthConfig)> = Vec::new();
        providers.push((
            "openai".to_string(),
            ProviderAuthConfig {
                api_key: None,
                api_key_env: Some("OPENAI_API_KEY".to_string()),
                base_url: None,
                default_model: Some("gpt-5.5".to_string()),
            },
        ));
        providers.push((
            "opencode".to_string(),
            ProviderAuthConfig {
                api_key: None,
                api_key_env: Some("OPENCODE_API_KEY".to_string()),
                base_url: None,
                default_model: None,
            },
        ));
        AppConfigFile {
            providers,
            default_model: Some(default_model_info()),
            thinking_level: Some(ThinkingLevel::Medium),
            max_turns: Some(40),
        }
    }
}

/// The custom providers file (`~/.cromulent/providers.json`): settings by
/// provider name, names unique.
#[derive(Debug)]
pub struct ProvidersConfigFile {
    pub providers: Vec<(String, ProviderAuthConfig)>,
}

impl Default for ProvidersConfigFile {
    fn default() -> (r: ProvidersConfigFile)
        ensures
            r.providers@.len() == 0,
    {
        ProvidersConfigFile { providers: Vec::new() }
    }
}

/// The custom providers file (`~/.cromulent/providers.json`).
pub fn default_providers_config_path() -> (r: String)
    ensures
        exists|h: Option<Seq<char>>| r@ == join_path(cromulent_dir_in(h), "providers.json"@),
{
    let d = crate::util::default_cromulent_dir();
    path_join(d.as_str(), "providers.json")
}

// ---------------------------------------------------------------------------
// Cached Codex credentials
// ---------------------------------------------------------------------------

/// Tokens of a Codex login.
#[derive(Debug)]
pub struct CodexCredentials {
    pub access_token: String,
    pub refresh_token: String,
    pub expires_at: String,
    pub token_type: Option<String>,
    pub scope: Option<String>,
}

/// The credentials cache file.
#[derive(Debug)]
pub struct CredentialCache {
    pub provider: String,
    pub credentials: CodexCredentials,
    pub schema_version: u32,
}

impl CredentialCache {
    /// A cache of the given credentials in the current schema.
    pub fn new(provider: String, credentials: CodexCredentials) -> (r: CredentialCache)
        ensures
            r.provider == provider,
            r.credentials == credentials,
            r.schema_version == 1,
    {
        CredentialCache { provider, credentials, schema_version: 1 }
    }
}

/// Where the credentials cache lives (`~/.cromulent/auth/codex.json`).
pub fn default_credentials_path() -> (r: String)
    ensures
        exists|h: Option<Seq<char>>| r@ == join_path(join_path(cromulent_dir_in(h), "auth"@), "codex.json"@),
{
    let d = default_config_dir();
    let a = path_join(d.as_str(), "auth");
    path_join(a.as_str(), "codex.json")
}

/// Errors of Codex authentication.
#[derive(Debug)]
pub enum CodexAuthError {
    RefreshNotImplemented,
    Io(String),
    Expired { expires_at: String },
}

impl CodexAuthError {
    /// The text that describes the error.
    pub fn message(&self) -> (r: String)
        ensures
            match self {
                CodexAuthError::RefreshNotImplemented => r@ == "Codex credential refresh is not yet implemented. Provide a fresh API key or token manually."@,
                CodexAuthError::Io(m) => r@ == "credential I/O error: "@ + m@,
                CodexAuthError::Expired { expires_at } => r@ == "credentials expired at "@ + expires_at@ + " and refresh is not implemented"@,
            },
    {
        match self {
            CodexAuthError::RefreshNotImplemented => "Codex credential refresh is not yet implemented. Provide a fresh API key or token manually.".to_string(),
            CodexAuthError::Io(m) => {
                let mut v: Vec<char> = Vec::new();
                extend_str(&mut v, "credential I/O error: ");
                extend_str(&mut v, m.as_str());
                string_of(&v)
            },
            CodexAuthError::Expired { expires_at } => {
                let mut v: Vec<char> = Vec::new();
                extend_str(&mut v, "credentials expired at ");
                extend_str(&mut v, expires_at.as_str());
                extend_str(&mut v, " and refresh is not implemented");
                string_of(&v)
            },
        }
    }
}

/// An instant: seconds since the Unix epoch and nanoseconds within the second.
pub type Instant = (i64, u32);

/// The instant that RFC 3339 text denotes, as `DateTime::parse_from_rfc3339`
/// reads it; `None` where it does not parse.
pub uninterp spec fn rfc3339_instant(s: Seq<char>) -> Option<Instant>;

/// Parses RFC 3339 text with chrono (`DateTime::parse_from_rfc3339`) and
/// gives the instant as seconds and nanoseconds since the epoch. The parse
/// is chrono's and is named, not written out.
#[verifier::external_body]
fn parse_rfc3339(s: &str) -> (r: Option<Instant>)
    ensures
        r == rfc3339_instant(s@),
{
    match chrono::DateTime::parse_from_rfc3339(s) {
        Ok(t) => Some((t.timestamp(), t.timestamp_subsec_nanos())),
        Err(_) => None,
    }
}

/// The current instant (`Utc::now()`), seconds and nanoseconds since the
/// epoch. It is the clock's reading, so nothing is stated of it.
#[verifier::external_body]
fn now_instant() -> (r: Instant) {
    let t = chrono::Utc::now();
    (t.timestamp(), t.timestamp_subsec_nanos())
}

/// Whether instant `a` comes after instant `b`.
pub open spec fn later(a: Instant, b: Instant) -> bool {
    a.0 > b.0 || (a.0 == b.0 && a.1 > b.1)
}

/// Whether the credentials have expired at instant `now`: an error when
/// their expiry does not parse.
pub fn is_expired_at(credentials: &CodexCredentials, now: Instant) -> (r: Result<bool, CodexAuthError>)
    ensures
        match rfc3339_instant(credentials.expires_at@) {
            None => r matches Err(CodexAuthError::Expired { expires_at }) && expires_at@ == credentials.expires_at@,
            Some(t) => r == Ok::<bool, CodexAuthError>(later(now, t)),
        },
{
    match parse_rfc3339(credentials.expires_at.as_str()) {
        None => Err(CodexAuthError::Expired { expires_at: copy_string(&credentials.expires_at) }),
        Some(t) => Ok(now.0 > t.0 || (now.0 == t.0 && now.1 > t.1)),
    }
}

/// Whether the credentials have expired now.
pub fn is_expired(credentials: &CodexCredentials) -> (r: Result<bool, CodexAuthError>)
    ensures
        match rfc3339_instant(credentials.expires_at@) {
            None => r matches Err(CodexAuthError::Expired { expires_at }) && expires_at@ == credentials.expires_at@,
            Some(t) => r is Ok,
        },
{
    let now = now_instant();
    is_expired_at(credentials, now)
}

/// Refreshing Codex credentials is not supported: the answer is always
/// that it is not implemented.
pub fn refresh_credentials(_credentials: &CodexCredentials) -> (r: Result<CodexCredentials, CodexAuthError>)
    ensures
        r matches Err(CodexAuthError::RefreshNotImplemented),
{
    Err(CodexAuthError::RefreshNotImplemented)
}

/// The schema of credentials caches that can be read.
pub const CREDENTIAL_SCHEMA_VERSION: u32 = 1;

/// Accepts a credentials cache read from disk only in the current schema;
/// otherwise the message that refuses it.
pub fn accept_credential_cache(cache: CredentialCache) -> (r: Result<CredentialCache, String>)
    ensures
        cache.schema_version == CREDENTIAL_SCHEMA_VERSION ==> r == Ok::<CredentialCache, String>(cache),
        cache.schema_version != CREDENTIAL_SCHEMA_VERSION ==> (r matches Err(m)
            && m@ == "Unsupported credential schema version: "@ + decimal(cache.schema_version as nat)),
{
    if cache.schema_version == CREDENTIAL_SCHEMA_VERSION {
        Ok(cache)
    } else {
        let mut v: Vec<char> = Vec::new();
        extend_str(&mut v, "Unsupported credential schema version: ");
        crate::text::push_decimal_u64(&mut v, cache.schema_version as u64);
        Err(string_of(&v))
    }
}

} // verus!
