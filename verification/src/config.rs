//! Runtime configuration, resolved from command-line overrides, the project
//! env file, the process environment and built-in defaults, in that order.
use vstd::prelude::*;

use crate::numbers::{parse_int, parse_int_in, IntErrorKind};
use crate::strmap::StrMap;
use crate::text::{is_blank, push_decimal, push_str, str_equal, str_is_blank};

verus! {

/// Environment-style variables: names mapped to values.
pub type EnvVars = StrMap<String>;

pub const DEFAULT_HOST: &'static str = "127.0.0.1";

pub const DEFAULT_PORT: u16 = 4010;

pub const DEFAULT_UPSTREAM_BASE: &'static str = "https://token-plan-cn.xiaomimimo.com/v1";

pub const DEFAULT_STATE_DB: &'static str = ".codex-mimo/state.sqlite";

pub const DEFAULT_STATE_TTL_SECONDS: i64 = 21_600;

pub const DEFAULT_TIMEOUT_SECONDS: u64 = 300;

pub const DEFAULT_STREAM_IDLE_TIMEOUT_MS: i64 = 360_000;

pub const DEFAULT_MAX_REQUEST_BYTES: usize = 8 * 1024 * 1024;

pub const DEFAULT_MAX_CONCURRENCY: usize = 8;

pub const PROJECT_ENV_API_KEY_SOURCE: &'static str = "CODEX_MIMO_API_KEY_SOURCE";

pub const PROCESS_ENV_API_KEY_SOURCE: &'static str = "process";

/// The variables that configuration reads.
#[derive(Debug, Clone, Copy, PartialEq, Eq, Structural)]
pub enum ConfigKey {
    Host,
    Port,
    UpstreamBase,
    ApiKey,
    ApiKeySource,
    LocalToken,
    StateDb,
    StateTtlSeconds,
    TimeoutSeconds,
    MaxRequestBytes,
    MaxConcurrency,
}

impl ConfigKey {
    /// The variable's name.
    pub open spec fn spec_name(self) -> Seq<char> {
        match self {
            ConfigKey::Host => "CODEX_MIMO_HOST"@,
            ConfigKey::Port => "CODEX_MIMO_PORT"@,
            ConfigKey::UpstreamBase => "MIMO_API_BASE_URL"@,
            ConfigKey::ApiKey => "MIMO_API_KEY"@,
            ConfigKey::ApiKeySource => "CODEX_MIMO_API_KEY_SOURCE"@,
            ConfigKey::LocalToken => "CODEX_MIMO_LOCAL_TOKEN"@,
            ConfigKey::StateDb => "CODEX_MIMO_STATE_DB"@,
            ConfigKey::StateTtlSeconds => "CODEX_MIMO_STATE_TTL_SECONDS"@,
            ConfigKey::TimeoutSeconds => "CODEX_MIMO_TIMEOUT_SECONDS"@,
            ConfigKey::MaxRequestBytes => "CODEX_MIMO_MAX_REQUEST_BYTES"@,
            ConfigKey::MaxConcurrency => "CODEX_MIMO_MAX_CONCURRENCY"@,
        }
    }

    /// The variable's name.
    pub fn name(&self) -> (n: &'static str)
        ensures
            n@ == self.spec_name(),
    {
        match self {
            ConfigKey::Host => "CODEX_MIMO_HOST",
            ConfigKey::Port => "CODEX_MIMO_PORT",
            ConfigKey::UpstreamBase => "MIMO_API_BASE_URL",
            ConfigKey::ApiKey => "MIMO_API_KEY",
            ConfigKey::ApiKeySource => "CODEX_MIMO_API_KEY_SOURCE",
            ConfigKey::LocalToken => "CODEX_MIMO_LOCAL_TOKEN",
            ConfigKey::StateDb => "CODEX_MIMO_STATE_DB",
            ConfigKey::StateTtlSeconds => "CODEX_MIMO_STATE_TTL_SECONDS",
            ConfigKey::TimeoutSeconds => "CODEX_MIMO_TIMEOUT_SECONDS",
            ConfigKey::MaxRequestBytes => "CODEX_MIMO_MAX_REQUEST_BYTES",
            ConfigKey::MaxConcurrency => "CODEX_MIMO_MAX_CONCURRENCY",
        }
    }
}

/// Where a value that failed to parse came from.
#[derive(Debug, Clone, Copy, PartialEq, Eq, Structural)]
pub enum ValueOrigin {
    ProjectConfig,
    Environment,
}

/// Why configuration could not be resolved.
#[derive(Debug, Clone, Copy, PartialEq, Eq, Structural)]
pub enum ConfigError {
    /// The local token equals the upstream API key.
    LocalTokenMatchesApiKey,
    /// The concurrency limit is zero.
    MaxConcurrencyZero,
    /// No non-blank value was found for a required setting.
    Required(ConfigKey),
    /// The project defers the API key to the process environment, which lacks it.
    InheritedApiKeyRequired,
    /// A numeric variable holds text that is not a number of its type.
    InvalidValue { key: ConfigKey, origin: ValueOrigin, reason: IntErrorKind },
}

impl ConfigError {
    /// The error's message.
    pub open spec fn spec_message(self) -> Seq<char> {
        match self {
            ConfigError::LocalTokenMatchesApiKey => "CODEX_MIMO_LOCAL_TOKEN must differ from MIMO_API_KEY"@,
            ConfigError::MaxConcurrencyZero => "CODEX_MIMO_MAX_CONCURRENCY must be greater than zero"@,
            ConfigError::Required(key) => key.spec_name() + " is required"@,
            ConfigError::InheritedApiKeyRequired => "MIMO_API_KEY is required in the inherited process environment because project config uses CODEX_MIMO_API_KEY_SOURCE=process"@,
            ConfigError::InvalidValue { key, origin, reason } => "invalid "@ + key.spec_name() + (
            match origin {
                ValueOrigin::ProjectConfig => " value in project config: "@,
                ValueOrigin::Environment => " value in environment: "@,
            }) + reason.spec_text(),
        }
    }

    /// The error's message.
    pub fn message(&self) -> (m: String)
        ensures
            m@ == self.spec_message(),
    {
        let mut m = String::new();
        match self {
            ConfigError::LocalTokenMatchesApiKey => {
                push_str(&mut m, "CODEX_MIMO_LOCAL_TOKEN must differ from MIMO_API_KEY");
            },
            ConfigError::MaxConcurrencyZero => {
                push_str(&mut m, "CODEX_MIMO_MAX_CONCURRENCY must be greater than zero");
            },
            ConfigError::Required(key) => {
                push_str(&mut m, key.name());
                push_str(&mut m, " is required");
            },
            ConfigError::InheritedApiKeyRequired => {
                push_str(
                    &mut m,
                    "MIMO_API_KEY is required in the inherited process environment because project config uses CODEX_MIMO_API_KEY_SOURCE=process",
                );
            },
            ConfigError::InvalidValue { key, origin, reason } => {
                push_str(&mut m, "invalid ");
                push_str(&mut m, key.name());
                match origin {
                    ValueOrigin::ProjectConfig => push_str(&mut m, " value in project config: "),
                    ValueOrigin::Environment => push_str(&mut m, " value in environment: "),
                }
                push_str(&mut m, reason.text());
            },
        }
        assert(m@ =~= self.spec_message());
        m
    }
}

/// The adapter's runtime settings.
#[derive(Debug, Clone)]
pub struct Config {
    pub host: String,
    pub port: u16,
    pub upstream_base: String,
    pub upstream_key: String,
    pub local_token: Option<String>,
    pub state_db: String,
    pub state_ttl_seconds: i64,
    pub timeout_seconds: u64,
    pub max_request_bytes: usize,
    pub max_concurrency: usize,
}

/// Settings given on the command line; each one present wins over every other source.
#[derive(Debug, Clone)]
pub struct ConfigOverrides {
    pub host: Option<String>,
    pub port: Option<u16>,
    pub upstream_base: Option<String>,
    pub upstream_key: Option<String>,
    pub local_token: Option<String>,
    pub state_db: Option<String>,
    pub state_ttl_seconds: Option<i64>,
    pub timeout_seconds: Option<u64>,
    pub max_request_bytes: Option<usize>,
    pub max_concurrency: Option<usize>,
}

/// The contents of a [`Config`].
pub struct ConfigView {
    pub host: Seq<char>,
    pub port: u16,
    pub upstream_base: Seq<char>,
    pub upstream_key: Seq<char>,
    pub local_token: Option<Seq<char>>,
    pub state_db: Seq<char>,
    pub state_ttl_seconds: i64,
    pub timeout_seconds: u64,
    pub max_request_bytes: usize,
    pub max_concurrency: usize,
}

/// The contents of a [`ConfigOverrides`].
pub struct OverridesView {
    pub host: Option<Seq<char>>,
    pub port: Option<u16>,
    pub upstream_base: Option<Seq<char>>,
    pub upstream_key: Option<Seq<char>>,
    pub local_token: Option<Seq<char>>,
    pub state_db: Option<Seq<char>>,
    pub state_ttl_seconds: Option<i64>,
    pub timeout_seconds: Option<u64>,
    pub max_request_bytes: Option<usize>,
    pub max_concurrency: Option<usize>,
}

pub open spec fn opt_view(o: Option<String>) -> Option<Seq<char>> {
    match o {
        Some(s) => Some(s@),
        None => None,
    }
}

impl View for Config {
    type V = ConfigView;

    open spec fn view(&self) -> ConfigView {
        ConfigView {
            host: self.host@,
            port: self.port,
            upstream_base: self.upstream_base@,
            upstream_key: self.upstream_key@,
            local_token: opt_view(self.local_token),
            state_db: self.state_db@,
            state_ttl_seconds: self.state_ttl_seconds,
            timeout_seconds: self.timeout_seconds,
            max_request_bytes: self.max_request_bytes,
            max_concurrency: self.max_concurrency,
        }
    }
}

impl View for ConfigOverrides {
    type V = OverridesView;

    open spec fn view(&self) -> OverridesView {
        OverridesView {
            host: opt_view(self.host),
            port: self.port,
            upstream_base: opt_view(self.upstream_base),
            upstream_key: opt_view(self.upstream_key),
            local_token: opt_view(self.local_token),
            state_db: opt_view(self.state_db),
            state_ttl_seconds: self.state_ttl_seconds,
            timeout_seconds: self.timeout_seconds,
            max_request_bytes: self.max_request_bytes,
            max_concurrency: self.max_concurrency,
        }
    }
}

impl Default for ConfigOverrides {
    fn default() -> (o: Self)
        ensures
            o.host is None && o.port is None && o.upstream_base is None && o.upstream_key is None
                && o.local_token is None && o.state_db is None && o.state_ttl_seconds is None
                && o.timeout_seconds is None && o.max_request_bytes is None
                && o.max_concurrency is None,
    {
        ConfigOverrides {
            host: None,
            port: None,
            upstream_base: None,
            upstream_key: None,
            local_token: None,
            state_db: None,
            state_ttl_seconds: None,
            timeout_seconds: None,
            max_request_bytes: None,
            max_concurrency: None,
        }
    }
}

/// The first of: the command-line value, the project value, the process value.
pub open spec fn layered(
    cli: Option<Seq<char>>,
    project: Map<Seq<char>, Seq<char>>,
    env: Map<Seq<char>, Seq<char>>,
    key: Seq<char>,
) -> Option<Seq<char>> {
    match cli {
        Some(v) => Some(v),
        None => if project.contains_key(key) {
            Some(project[key])
        } else if env.contains_key(key) {
            Some(env[key])
        } else {
            None
        },
    }
}

/// A numeric setting: the command-line value, else the project value read as
/// a number in `lo..=hi`, else the process value read so, else `default`.
pub open spec fn layered_number(
    cli: Option<int>,
    project: Map<Seq<char>, Seq<char>>,
    env: Map<Seq<char>, Seq<char>>,
    key: ConfigKey,
    lo: int,
    hi: int,
    default: int,
) -> Result<int, ConfigError> {
    match cli {
        Some(v) => Ok(v),
        None => if project.contains_key(key.spec_name()) {
            match parse_int(project[key.spec_name()], lo, hi) {
                Ok(v) => Ok(v),
                Err(e) => Err(
                    ConfigError::InvalidValue { key, origin: ValueOrigin::ProjectConfig, reason: e },
                ),
            }
        } else if env.contains_key(key.spec_name()) {
            match parse_int(env[key.spec_name()], lo, hi) {
                Ok(v) => Ok(v),
                Err(e) => Err(
                    ConfigError::InvalidValue { key, origin: ValueOrigin::Environment, reason: e },
                ),
            }
        } else {
            Ok(default)
        },
    }
}

/// The upstream API key: a non-blank command-line key, else a non-blank
/// project key, else (when the project defers to the process environment)
/// the process key, else the first present of project and process key, which
/// must not be blank.
pub open spec fn resolved_api_key(
    cli: Option<Seq<char>>,
    project: Map<Seq<char>, Seq<char>>,
    env: Map<Seq<char>, Seq<char>>,
) -> Result<Seq<char>, ConfigError> {
    let key = ConfigKey::ApiKey.spec_name();
    if cli is Some && !is_blank(cli->0) {
        Ok(cli->0)
    } else if project.contains_key(key) && !is_blank(project[key]) {
        Ok(project[key])
    } else if project.contains_key(ConfigKey::ApiKeySource.spec_name())
        && project[ConfigKey::ApiKeySource.spec_name()] == "process"@ {
        if env.contains_key(key) && !is_blank(env[key]) {
            Ok(env[key])
        } else {
            Err(ConfigError::InheritedApiKeyRequired)
        }
    } else {
        required_setting(None, project, env, ConfigKey::ApiKey)
    }
}

/// A required text setting: the first present of the command-line, project
/// and process values, which must not be blank (a blank value is an error,
/// not a reason to look further).
pub open spec fn required_setting(
    cli: Option<Seq<char>>,
    project: Map<Seq<char>, Seq<char>>,
    env: Map<Seq<char>, Seq<char>>,
    key: ConfigKey,
) -> Result<Seq<char>, ConfigError> {
    match layered(cli, project, env, key.spec_name()) {
        Some(v) => if !is_blank(v) {
            Ok(v)
        } else {
            Err(ConfigError::Required(key))
        },
        None => Err(ConfigError::Required(key)),
    }
}

/// A required setting comes from the first source that has it, is never
/// blank, and is an error naming the key when that first value is blank or
/// no source has one; a later source never stands in for a blank one.
pub proof fn law_required_setting(
    cli: Option<Seq<char>>,
    project: Map<Seq<char>, Seq<char>>,
    env: Map<Seq<char>, Seq<char>>,
    key: ConfigKey,
)
    ensures
        required_setting(cli, project, env, key) is Ok ==> !is_blank(
            required_setting(cli, project, env, key)->Ok_0,
        ),
        required_setting(cli, project, env, key) is Err ==> required_setting(cli, project, env, key)
            == Err::<Seq<char>, ConfigError>(ConfigError::Required(key)),
        cli is Some ==> required_setting(cli, project, env, key) == if is_blank(cli->0) {
            Err::<Seq<char>, ConfigError>(ConfigError::Required(key))
        } else {
            Ok(cli->0)
        },
        cli is None && project.contains_key(key.spec_name()) ==> required_setting(
            cli,
            project,
            env,
            key,
        ) == if is_blank(project[key.spec_name()]) {
            Err::<Seq<char>, ConfigError>(ConfigError::Required(key))
        } else {
            Ok(project[key.spec_name()])
        },
        cli is None && !project.contains_key(key.spec_name()) && env.contains_key(key.spec_name())
            ==> required_setting(cli, project, env, key) == if is_blank(env[key.spec_name()]) {
            Err::<Seq<char>, ConfigError>(ConfigError::Required(key))
        } else {
            Ok(env[key.spec_name()])
        },
        cli is None && !project.contains_key(key.spec_name()) && !env.contains_key(key.spec_name())
            ==> required_setting(cli, project, env, key) == Err::<Seq<char>, ConfigError>(
            ConfigError::Required(key),
        ),
{
}

/// The upstream API key: a non-blank command-line key, else a non-blank
/// project key, else, when the project defers to the process environment,
/// the non-blank process key (an error naming the inherited environment
/// otherwise), else the required `MIMO_API_KEY` setting. A resolved key is
/// never blank.
pub proof fn law_api_key_resolution(
    cli: Option<Seq<char>>,
    project: Map<Seq<char>, Seq<char>>,
    env: Map<Seq<char>, Seq<char>>,
)
    ensures
        ({
            let r = resolved_api_key(cli, project, env);
            let k = ConfigKey::ApiKey.spec_name();
            let source = ConfigKey::ApiKeySource.spec_name();
            &&& r is Ok ==> !is_blank(r->Ok_0)
            &&& cli is Some && !is_blank(cli->0) ==> r == Ok::<Seq<char>, ConfigError>(cli->0)
            &&& !(cli is Some && !is_blank(cli->0)) && project.contains_key(k) && !is_blank(
                project[k],
            ) ==> r == Ok::<Seq<char>, ConfigError>(project[k])
            &&& !(cli is Some && !is_blank(cli->0)) && !(project.contains_key(k) && !is_blank(
                project[k],
            )) && project.contains_key(source) && project[source] == "process"@ ==> r == (if env.contains_key(k)
                && !is_blank(env[k]) {
                Ok::<Seq<char>, ConfigError>(env[k])
            } else {
                Err(ConfigError::InheritedApiKeyRequired)
            })
            &&& !(cli is Some && !is_blank(cli->0)) && !(project.contains_key(k) && !is_blank(
                project[k],
            )) && !(project.contains_key(source) && project[source] == "process"@) ==> r
                == required_setting(None, project, env, ConfigKey::ApiKey)
        }),
{
}

/// The check that a resolved configuration passes.
pub open spec fn check_config(c: ConfigView) -> Result<(), ConfigError> {
    if c.local_token == Some(c.upstream_key) {
        Err(ConfigError::LocalTokenMatchesApiKey)
    } else if c.max_concurrency == 0 {
        Err(ConfigError::MaxConcurrencyZero)
    } else {
        Ok(())
    }
}

pub open spec fn opt_int_u16(o: Option<u16>) -> Option<int> {
    match o {
        Some(v) => Some(v as int),
        None => None,
    }
}

pub open spec fn opt_int_i64(o: Option<i64>) -> Option<int> {
    match o {
        Some(v) => Some(v as int),
        None => None,
    }
}

pub open spec fn opt_int_u64(o: Option<u64>) -> Option<int> {
    match o {
        Some(v) => Some(v as int),
        None => None,
    }
}

pub open spec fn opt_int_usize(o: Option<usize>) -> Option<int> {
    match o {
        Some(v) => Some(v as int),
        None => None,
    }
}

/// The configuration resolved from the overrides, the project variables and
/// the process variables, or the first error met while resolving it.
pub open spec fn resolved_config(
    project: Map<Seq<char>, Seq<char>>,
    env: Map<Seq<char>, Seq<char>>,
    o: OverridesView,
) -> Result<ConfigView, ConfigError> {
    let host = match layered(o.host, project, env, ConfigKey::Host.spec_name()) {
        Some(v) => v,
        None => DEFAULT_HOST@,
    };
    let upstream_base = match layered(
        o.upstream_base,
        project,
        env,
        ConfigKey::UpstreamBase.spec_name(),
    ) {
        Some(v) => v,
        None => DEFAULT_UPSTREAM_BASE@,
    };
    let local_token = layered(o.local_token, project, env, ConfigKey::LocalToken.spec_name());
    let state_db = match layered(o.state_db, project, env, ConfigKey::StateDb.spec_name()) {
        Some(v) => v,
        None => DEFAULT_STATE_DB@,
    };
    match layered_number(
        opt_int_u16(o.port),
        project,
        env,
        ConfigKey::Port,
        0,
        u16::MAX as int,
        DEFAULT_PORT as int,
    ) {
        Err(e) => Err(e),
        Ok(port) => match resolved_api_key(o.upstream_key, project, env) {
            Err(e) => Err(e),
            Ok(upstream_key) => match layered_number(
                opt_int_i64(o.state_ttl_seconds),
                project,
                env,
                ConfigKey::StateTtlSeconds,
                i64::MIN as int,
                i64::MAX as int,
                DEFAULT_STATE_TTL_SECONDS as int,
            ) {
                Err(e) => Err(e),
                Ok(ttl) => match layered_number(
                    opt_int_u64(o.timeout_seconds),
                    project,
                    env,
                    ConfigKey::TimeoutSeconds,
                    0,
                    u64::MAX as int,
                    DEFAULT_TIMEOUT_SECONDS as int,
                ) {
                    Err(e) => Err(e),
                    Ok(timeout) => match layered_number(
                        opt_int_usize(o.max_request_bytes),
                        project,
                        env,
                        ConfigKey::MaxRequestBytes,
                        0,
                        usize::MAX as int,
                        DEFAULT_MAX_REQUEST_BYTES as int,
                    ) {
                        Err(e) => Err(e),
                        Ok(bytes) => match layered_number(
                            opt_int_usize(o.max_concurrency),
                            project,
                            env,
                            ConfigKey::MaxConcurrency,
                            0,
                            usize::MAX as int,
                            DEFAULT_MAX_CONCURRENCY as int,
                        ) {
                            Err(e) => Err(e),
                            Ok(concurrency) => {
                                let c = ConfigView {
                                    host,
                                    port: port as u16,
                                    upstream_base,
                                    upstream_key,
                                    local_token,
                                    state_db,
                                    state_ttl_seconds: ttl as i64,
                                    timeout_seconds: timeout as u64,
                                    max_request_bytes: bytes as usize,
                                    max_concurrency: concurrency as usize,
                                };
                                match check_config(c) {
                                    Ok(_) => Ok(c),
                                    Err(e) => Err(e),
                                }
                            },
                        },
                    },
                },
            },
        },
    }
}

/// A copy of the value stored under `key`, if any.
fn lookup(vars: &EnvVars, key: &str) -> (r: Option<String>)
    ensures
        r is Some <==> vars@.contains_key(key@),
        r is Some ==> r->0@ == vars@[key@],
{
    match vars.get(key) {
        Some(v) => Some(v.clone()),
        None => None,
    }
}

pub(crate) fn choose_string(
    cli: Option<String>,
    project_env: &EnvVars,
    env: &EnvVars,
    key: ConfigKey,
    default: &str,
) -> (s: String)
    ensures
        s@ == match layered(opt_view(cli), project_env@, env@, key.spec_name()) {
            Some(v) => v,
            None => default@,
        },
{
    match choose_optional_string(cli, project_env, env, key) {
        Some(v) => v,
        None => {
            let mut s = String::new();
            push_str(&mut s, default);
            assert(s@ =~= default@);
            s
        },
    }
}

fn choose_optional_string(
    cli: Option<String>,
    project_env: &EnvVars,
    env: &EnvVars,
    key: ConfigKey,
) -> (s: Option<String>)
    ensures
        opt_view(s) == layered(opt_view(cli), project_env@, env@, key.spec_name()),
{
    match cli {
        Some(v) => Some(v),
        None => match lookup(project_env, key.name()) {
            Some(v) => Some(v),
            None => lookup(env, key.name()),
        },
    }
}

fn choose_required_string(
    cli: Option<String>,
    project_env: &EnvVars,
    env: &EnvVars,
    key: ConfigKey,
) -> (r: Result<String, ConfigError>)
    ensures
        match (r, required_setting(opt_view(cli), project_env@, env@, key)) {
            (Ok(v), Ok(w)) => v@ == w,
            (Err(e), Err(f)) => e == f,
            _ => false,
        },
{
    match choose_optional_string(cli, project_env, env, key) {
        Some(v) => if !str_is_blank(v.as_str()) {
            Ok(v)
        } else {
            Err(ConfigError::Required(key))
        },
        None => Err(ConfigError::Required(key)),
    }
}

fn choose_mimo_api_key(cli: Option<String>, project_env: &EnvVars, env: &EnvVars) -> (r: Result<
    String,
    ConfigError,
>)
    ensures
        match (r, resolved_api_key(opt_view(cli), project_env@, env@)) {
            (Ok(v), Ok(w)) => v@ == w,
            (Err(e), Err(f)) => e == f,
            _ => false,
        },
{
    if let Some(value) = cli {
        if !str_is_blank(value.as_str()) {
            return Ok(value);
        }
    }
    if let Some(value) = lookup(project_env, "MIMO_API_KEY") {
        if !str_is_blank(value.as_str()) {
            return Ok(value);
        }
    }
    let source = project_env.get(PROJECT_ENV_API_KEY_SOURCE);
    if let Some(source) = source {
        if str_equal(source.as_str(), PROCESS_ENV_API_KEY_SOURCE) {
            return match lookup(env, "MIMO_API_KEY") {
                Some(value) => if !str_is_blank(value.as_str()) {
                    Ok(value)
                } else {
                    Err(ConfigError::InheritedApiKeyRequired)
                },
                None => Err(ConfigError::InheritedApiKeyRequired),
            };
        }
    }
    choose_required_string(None, project_env, env, ConfigKey::ApiKey)
}

/// Reads the numeric setting `key` in `lo..=hi` from the layered sources.
pub(crate) fn choose_parse(
    cli: Option<i128>,
    project_env: &EnvVars,
    env: &EnvVars,
    key: ConfigKey,
    lo: i128,
    hi: i128,
    default: i128,
) -> (r: Result<i128, ConfigError>)
    requires
        -0x1_0000_0000_0000_0000_0000_0000 <= lo <= 0 <= hi <= 0x1_0000_0000_0000_0000_0000_0000,
    ensures
        match (r, layered_number(
            match cli {
                Some(v) => Some(v as int),
                None => None,
            },
            project_env@,
            env@,
            key,
            lo as int,
            hi as int,
            default as int,
        )) {
            (Ok(v), Ok(w)) => v == w,
            (Err(e), Err(f)) => e == f,
            _ => false,
        },
{
    if let Some(value) = cli {
        return Ok(value);
    }
    if let Some(value) = project_env.get(key.name()) {
        return match parse_int_in(value.as_str(), lo, hi) {
            Ok(v) => Ok(v),
            Err(e) => Err(
                ConfigError::InvalidValue { key, origin: ValueOrigin::ProjectConfig, reason: e },
            ),
        };
    }
    if let Some(value) = env.get(key.name()) {
        return match parse_int_in(value.as_str(), lo, hi) {
            Ok(v) => Ok(v),
            Err(e) => Err(
                ConfigError::InvalidValue { key, origin: ValueOrigin::Environment, reason: e },
            ),
        };
    }
    Ok(default)
}

fn same_text(a: &Option<String>, b: &String) -> (r: bool)
    ensures
        r == (opt_view(*a) == Some(b@)),
{
    match a {
        Some(a) => str_equal(a.as_str(), b.as_str()),
        None => false,
    }
}

impl Config {
    /// Rejects a configuration whose local token equals the API key or whose
    /// concurrency limit is zero.
    pub fn validate(&self) -> (r: Result<(), ConfigError>)
        ensures
            r == check_config(self@),
    {
        if same_text(&self.local_token, &self.upstream_key) {
            return Err(ConfigError::LocalTokenMatchesApiKey);
        }
        if self.max_concurrency == 0 {
            return Err(ConfigError::MaxConcurrencyZero);
        }
        Ok(())
    }

    /// Resolves every setting from `overrides`, then `project_env`, then
    /// `env`, then the default, and validates the result.
    pub fn from_sources(project_env: &EnvVars, env: &EnvVars, overrides: ConfigOverrides) -> (r:
        Result<Self, ConfigError>)
        ensures
            match (r, resolved_config(project_env@, env@, overrides@)) {
                (Ok(c), Ok(w)) => c@ == w,
                (Err(e), Err(f)) => e == f,
                _ => false,
            },
    {
        let ghost o = overrides@;
        let host = choose_string(overrides.host, project_env, env, ConfigKey::Host, DEFAULT_HOST);
        let port = choose_parse(
            match overrides.port {
                Some(v) => Some(v as i128),
                None => None,
            },
            project_env,
            env,
            ConfigKey::Port,
            0,
            65535,
            DEFAULT_PORT as i128,
        );
        let port = match port {
            Ok(v) => v as u16,
            Err(e) => return Err(e),
        };
        let upstream_base = choose_string(
            overrides.upstream_base,
            project_env,
            env,
            ConfigKey::UpstreamBase,
            DEFAULT_UPSTREAM_BASE,
        );
        let upstream_key = match choose_mimo_api_key(overrides.upstream_key, project_env, env) {
            Ok(v) => v,
            Err(e) => return Err(e),
        };
        let local_token = choose_optional_string(
            overrides.local_token,
            project_env,
            env,
            ConfigKey::LocalToken,
        );
        let state_db = choose_string(
            overrides.state_db,
            project_env,
            env,
            ConfigKey::StateDb,
            DEFAULT_STATE_DB,
        );
        let state_ttl_seconds = match choose_parse(
            match overrides.state_ttl_seconds {
                Some(v) => Some(v as i128),
                None => None,
            },
            project_env,
            env,
            ConfigKey::StateTtlSeconds,
            i64::MIN as i128,
            i64::MAX as i128,
            DEFAULT_STATE_TTL_SECONDS as i128,
        ) {
            Ok(v) => v as i64,
            Err(e) => return Err(e),
        };
        let timeout_seconds = match choose_parse(
            match overrides.timeout_seconds {
                Some(v) => Some(v as i128),
                None => None,
            },
            project_env,
            env,
            ConfigKey::TimeoutSeconds,
            0,
            u64::MAX as i128,
            DEFAULT_TIMEOUT_SECONDS as i128,
        ) {
            Ok(v) => v as u64,
            Err(e) => return Err(e),
        };
        let max_request_bytes = match choose_parse(
            match overrides.max_request_bytes {
                Some(v) => Some(v as i128),
                None => None,
            },
            project_env,
            env,
            ConfigKey::MaxRequestBytes,
            0,
            usize::MAX as i128,
            DEFAULT_MAX_REQUEST_BYTES as i128,
        ) {
            Ok(v) => v as usize,
            Err(e) => return Err(e),
        };
        let max_concurrency = match choose_parse(
            match overrides.max_concurrency {
                Some(v) => Some(v as i128),
                None => None,
            },
            project_env,
            env,
            ConfigKey::MaxConcurrency,
            0,
            usize::MAX as i128,
            DEFAULT_MAX_CONCURRENCY as i128,
        ) {
            Ok(v) => v as usize,
            Err(e) => return Err(e),
        };
        let config = Config {
            host,
            port,
            upstream_base,
            upstream_key,
            local_token,
            state_db,
            state_ttl_seconds,
            timeout_seconds,
            max_request_bytes,
            max_concurrency,
        };
        match config.validate() {
            Ok(()) => Ok(config),
            Err(e) => Err(e),
        }
    }

    /// Resolves the settings of a project as [`Config::from_sources`] does,
    /// but with `CODEX_MIMO_LOCAL_TOKEN` taken out of the process variables,
    /// so that the local token comes only from `overrides` or `project_env`.
    pub fn project_scoped(project_env: &EnvVars, env: EnvVars, overrides: ConfigOverrides) -> (r:
        Result<Self, ConfigError>)
        ensures
            match (
                r,
                resolved_config(
                    project_env@,
                    env@.remove(ConfigKey::LocalToken.spec_name()),
                    overrides@,
                ),
            ) {
                (Ok(c), Ok(w)) => c@ == w,
                (Err(e), Err(f)) => e == f,
                _ => false,
            },
    {
        let mut env = env;
        let _ = env.remove(ConfigKey::LocalToken.name());
        Config::from_sources(project_env, &env, overrides)
    }
}

/// Each setting comes from the first source that has it: the command line,
/// then the project env file, then the process environment, then the default.
pub proof fn law_source_precedence(
    project: Map<Seq<char>, Seq<char>>,
    env: Map<Seq<char>, Seq<char>>,
    o: OverridesView,
)
    requires
        resolved_config(project, env, o) is Ok,
    ensures
        ({
            let c = resolved_config(project, env, o)->Ok_0;
            let k = ConfigKey::Host.spec_name();
            &&& o.host is Some ==> c.host == o.host->0
            &&& o.host is None && project.contains_key(k) ==> c.host == project[k]
            &&& o.host is None && !project.contains_key(k) && env.contains_key(k) ==> c.host
                == env[k]
            &&& o.host is None && !project.contains_key(k) && !env.contains_key(k) ==> c.host
                == DEFAULT_HOST@
        }),
        ({
            let c = resolved_config(project, env, o)->Ok_0;
            let k = ConfigKey::StateDb.spec_name();
            &&& o.state_db is Some ==> c.state_db == o.state_db->0
            &&& o.state_db is None && project.contains_key(k) ==> c.state_db == project[k]
            &&& o.state_db is None && !project.contains_key(k) && env.contains_key(k)
                ==> c.state_db == env[k]
            &&& o.state_db is None && !project.contains_key(k) && !env.contains_key(k)
                ==> c.state_db == DEFAULT_STATE_DB@
        }),
        ({
            let c = resolved_config(project, env, o)->Ok_0;
            let k = ConfigKey::UpstreamBase.spec_name();
            &&& o.upstream_base is Some ==> c.upstream_base == o.upstream_base->0
            &&& o.upstream_base is None && project.contains_key(k) ==> c.upstream_base
                == project[k]
            &&& o.upstream_base is None && !project.contains_key(k) && env.contains_key(k)
                ==> c.upstream_base == env[k]
            &&& o.upstream_base is None && !project.contains_key(k) && !env.contains_key(k)
                ==> c.upstream_base == DEFAULT_UPSTREAM_BASE@
        }),
        ({
            let c = resolved_config(project, env, o)->Ok_0;
            let k = ConfigKey::LocalToken.spec_name();
            &&& o.local_token is Some ==> c.local_token == o.local_token
            &&& o.local_token is None && project.contains_key(k) ==> c.local_token == Some(
                project[k],
            )
            &&& o.local_token is None && !project.contains_key(k) && env.contains_key(k)
                ==> c.local_token == Some(env[k])
            &&& o.local_token is None && !project.contains_key(k) && !env.contains_key(k)
                ==> c.local_token is None
        }),
        ({
            let c = resolved_config(project, env, o)->Ok_0;
            let k = ConfigKey::Port.spec_name();
            &&& o.port is Some ==> c.port == o.port->0
            &&& o.port is None && project.contains_key(k) ==> parse_int(
                project[k],
                0,
                u16::MAX as int,
            ) == Ok::<int, IntErrorKind>(c.port as int)
            &&& o.port is None && !project.contains_key(k) && env.contains_key(k) ==> parse_int(
                env[k],
                0,
                u16::MAX as int,
            ) == Ok::<int, IntErrorKind>(c.port as int)
            &&& o.port is None && !project.contains_key(k) && !env.contains_key(k) ==> c.port
                == DEFAULT_PORT
        }),
        ({
            let c = resolved_config(project, env, o)->Ok_0;
            let k = ConfigKey::MaxConcurrency.spec_name();
            &&& o.max_concurrency is Some ==> c.max_concurrency == o.max_concurrency->0
            &&& o.max_concurrency is None && !project.contains_key(k) && !env.contains_key(k)
                ==> c.max_concurrency == DEFAULT_MAX_CONCURRENCY
        }),
{
    let k = ConfigKey::Port.spec_name();
    crate::numbers::lemma_parse_int_range(project[k], 0, u16::MAX as int);
    crate::numbers::lemma_parse_int_range(env[k], 0, u16::MAX as int);
}

/// A resolved configuration always passes validation: its local token differs
/// from the upstream API key, its concurrency limit is positive, and its API
/// key is not blank.
pub proof fn law_resolved_config_is_valid(
    project: Map<Seq<char>, Seq<char>>,
    env: Map<Seq<char>, Seq<char>>,
    o: OverridesView,
)
    requires
        resolved_config(project, env, o) is Ok,
    ensures
        check_config(resolved_config(project, env, o)->Ok_0) == Ok::<(), ConfigError>(()),
        resolved_config(project, env, o)->Ok_0.local_token != Some(
            resolved_config(project, env, o)->Ok_0.upstream_key,
        ),
        resolved_config(project, env, o)->Ok_0.max_concurrency > 0,
        !is_blank(resolved_config(project, env, o)->Ok_0.upstream_key),
{
    let key = ConfigKey::ApiKey.spec_name();
    let r = resolved_api_key(o.upstream_key, project, env);
    assert(r is Ok ==> !is_blank(r->Ok_0));
}

/// With the local token removed from the process variables (as
/// [`Config::project_scoped`] does), the local token can only come from the
/// command line or the project env file.
pub proof fn law_local_token_is_project_scoped(
    project: Map<Seq<char>, Seq<char>>,
    env: Map<Seq<char>, Seq<char>>,
    o: OverridesView,
)
    requires
        resolved_config(project, env.remove(ConfigKey::LocalToken.spec_name()), o) is Ok,
    ensures
        ({
            let c = resolved_config(project, env.remove(ConfigKey::LocalToken.spec_name()), o)->Ok_0;
            let k = ConfigKey::LocalToken.spec_name();
            c.local_token == if o.local_token is Some {
                o.local_token
            } else if project.contains_key(k) {
                Some(project[k])
            } else {
                None
            }
        }),
{
}

/// Every numeric setting comes from the first source that has it: the
/// command line, else the project env file's value read as a number of the
/// setting's type, else the process environment's value read so, else the
/// default (21600 s state lifetime, 300 s timeout, 8 MiB request size, 8
/// concurrent requests, port 4010).
pub proof fn law_numeric_settings_precedence(
    project: Map<Seq<char>, Seq<char>>,
    env: Map<Seq<char>, Seq<char>>,
    o: OverridesView,
)
    requires
        resolved_config(project, env, o) is Ok,
    ensures
        ({
            let c = resolved_config(project, env, o)->Ok_0;
            let k = "CODEX_MIMO_STATE_TTL_SECONDS"@;
            &&& o.state_ttl_seconds is Some ==> c.state_ttl_seconds == o.state_ttl_seconds->0
            &&& o.state_ttl_seconds is None && project.contains_key(k) ==> parse_int(project[k], -0x8000_0000_0000_0000, 0x7fff_ffff_ffff_ffff)
                == Ok::<int, IntErrorKind>(c.state_ttl_seconds as int)
            &&& o.state_ttl_seconds is None && !project.contains_key(k) && env.contains_key(k) ==> parse_int(
                env[k],
                -0x8000_0000_0000_0000,
                0x7fff_ffff_ffff_ffff,
            ) == Ok::<int, IntErrorKind>(c.state_ttl_seconds as int)
            &&& o.state_ttl_seconds is None && !project.contains_key(k) && !env.contains_key(k) ==> c.state_ttl_seconds
                == 21600
        }),
        ({
            let c = resolved_config(project, env, o)->Ok_0;
            let k = "CODEX_MIMO_TIMEOUT_SECONDS"@;
            &&& o.timeout_seconds is Some ==> c.timeout_seconds == o.timeout_seconds->0
            &&& o.timeout_seconds is None && project.contains_key(k) ==> parse_int(project[k], 0, 0xffff_ffff_ffff_ffff)
                == Ok::<int, IntErrorKind>(c.timeout_seconds as int)
            &&& o.timeout_seconds is None && !project.contains_key(k) && env.contains_key(k) ==> parse_int(
                env[k],
                0,
                0xffff_ffff_ffff_ffff,
            ) == Ok::<int, IntErrorKind>(c.timeout_seconds as int)
            &&& o.timeout_seconds is None && !project.contains_key(k) && !env.contains_key(k) ==> c.timeout_seconds
                == 300
        }),
        ({
            let c = resolved_config(project, env, o)->Ok_0;
            let k = "CODEX_MIMO_MAX_REQUEST_BYTES"@;
            &&& o.max_request_bytes is Some ==> c.max_request_bytes == o.max_request_bytes->0
            &&& o.max_request_bytes is None && project.contains_key(k) ==> parse_int(project[k], 0, usize::MAX as int)
                == Ok::<int, IntErrorKind>(c.max_request_bytes as int)
            &&& o.max_request_bytes is None && !project.contains_key(k) && env.contains_key(k) ==> parse_int(
                env[k],
                0,
                usize::MAX as int,
            ) == Ok::<int, IntErrorKind>(c.max_request_bytes as int)
            &&& o.max_request_bytes is None && !project.contains_key(k) && !env.contains_key(k) ==> c.max_request_bytes
                == 8388608
        }),
        ({
            let c = resolved_config(project, env, o)->Ok_0;
            let k = "CODEX_MIMO_MAX_CONCURRENCY"@;
            &&& o.max_concurrency is Some ==> c.max_concurrency == o.max_concurrency->0
            &&& o.max_concurrency is None && project.contains_key(k) ==> parse_int(project[k], 0, usize::MAX as int)
                == Ok::<int, IntErrorKind>(c.max_concurrency as int)
            &&& o.max_concurrency is None && !project.contains_key(k) && env.contains_key(k) ==> parse_int(
                env[k],
                0,
                usize::MAX as int,
            ) == Ok::<int, IntErrorKind>(c.max_concurrency as int)
            &&& o.max_concurrency is None && !project.contains_key(k) && !env.contains_key(k) ==> c.max_concurrency
                == 8
        }),
        ({
            let c = resolved_config(project, env, o)->Ok_0;
            let k = "CODEX_MIMO_PORT"@;
            &&& o.port is Some ==> c.port == o.port->0
            &&& o.port is None && project.contains_key(k) ==> parse_int(project[k], 0, 65535)
                == Ok::<int, IntErrorKind>(c.port as int)
            &&& o.port is None && !project.contains_key(k) && env.contains_key(k) ==> parse_int(
                env[k],
                0,
                65535,
            ) == Ok::<int, IntErrorKind>(c.port as int)
            &&& o.port is None && !project.contains_key(k) && !env.contains_key(k) ==> c.port
                == 4010
        }),
{
    crate::numbers::lemma_parse_int_range(project["CODEX_MIMO_STATE_TTL_SECONDS"@], -0x8000_0000_0000_0000, 0x7fff_ffff_ffff_ffff);
    crate::numbers::lemma_parse_int_range(env["CODEX_MIMO_STATE_TTL_SECONDS"@], -0x8000_0000_0000_0000, 0x7fff_ffff_ffff_ffff);
    crate::numbers::lemma_parse_int_range(project["CODEX_MIMO_TIMEOUT_SECONDS"@], 0, 0xffff_ffff_ffff_ffff);
    crate::numbers::lemma_parse_int_range(env["CODEX_MIMO_TIMEOUT_SECONDS"@], 0, 0xffff_ffff_ffff_ffff);
    crate::numbers::lemma_parse_int_range(project["CODEX_MIMO_MAX_REQUEST_BYTES"@], 0, usize::MAX as int);
    crate::numbers::lemma_parse_int_range(env["CODEX_MIMO_MAX_REQUEST_BYTES"@], 0, usize::MAX as int);
    crate::numbers::lemma_parse_int_range(project["CODEX_MIMO_MAX_CONCURRENCY"@], 0, usize::MAX as int);
    crate::numbers::lemma_parse_int_range(env["CODEX_MIMO_MAX_CONCURRENCY"@], 0, usize::MAX as int);
    crate::numbers::lemma_parse_int_range(project["CODEX_MIMO_PORT"@], 0, 65535);
    crate::numbers::lemma_parse_int_range(env["CODEX_MIMO_PORT"@], 0, 65535);
}

/// The variables the settings are read from.
pub proof fn law_setting_variable_names()
    ensures
        ConfigKey::Host.spec_name() == "CODEX_MIMO_HOST"@,
        ConfigKey::Port.spec_name() == "CODEX_MIMO_PORT"@,
        ConfigKey::UpstreamBase.spec_name() == "MIMO_API_BASE_URL"@,
        ConfigKey::ApiKey.spec_name() == "MIMO_API_KEY"@,
        ConfigKey::ApiKeySource.spec_name() == "CODEX_MIMO_API_KEY_SOURCE"@,
        ConfigKey::LocalToken.spec_name() == "CODEX_MIMO_LOCAL_TOKEN"@,
        ConfigKey::StateDb.spec_name() == "CODEX_MIMO_STATE_DB"@,
        ConfigKey::StateTtlSeconds.spec_name() == "CODEX_MIMO_STATE_TTL_SECONDS"@,
        ConfigKey::TimeoutSeconds.spec_name() == "CODEX_MIMO_TIMEOUT_SECONDS"@,
        ConfigKey::MaxRequestBytes.spec_name() == "CODEX_MIMO_MAX_REQUEST_BYTES"@,
        ConfigKey::MaxConcurrency.spec_name() == "CODEX_MIMO_MAX_CONCURRENCY"@,
{
}

} // verus!
