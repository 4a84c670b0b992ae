use codex_mimo_adapter::cli::{
    adapter_token_secret, project_local_token, registered_local_token, InitArgs, RegisteredEnv,
    RunArgs,
};
use codex_mimo_adapter::config::{
    Config, ConfigError, ConfigKey, ConfigOverrides, EnvVars, ValueOrigin,
};
use codex_mimo_adapter::numbers::{parse_int_in, IntErrorKind};

fn vars(pairs: &[(&str, &str)]) -> EnvVars {
    let mut m = EnvVars::new();
    for (k, v) in pairs {
        m.insert(k.to_string(), v.to_string());
    }
    m
}

#[test]
fn defaults_apply_when_no_source_sets_a_value() {
    let project = vars(&[("MIMO_API_KEY", "key")]);
    let c = Config::from_sources(&project, &EnvVars::new(), ConfigOverrides::default()).unwrap();
    assert_eq!(c.host, "127.0.0.1");
    assert_eq!(c.port, 4010);
    assert_eq!(c.upstream_base, "https://token-plan-cn.xiaomimimo.com/v1");
    assert_eq!(c.upstream_key, "key");
    assert_eq!(c.local_token, None);
    assert_eq!(c.state_db, ".codex-mimo/state.sqlite");
    assert_eq!(c.state_ttl_seconds, 21_600);
    assert_eq!(c.timeout_seconds, 300);
    assert_eq!(c.max_request_bytes, 8 * 1024 * 1024);
    assert_eq!(c.max_concurrency, 8);
}

#[test]
fn cli_beats_project_env_beats_process_env() {
    let project = vars(&[
        ("MIMO_API_KEY", "key"),
        ("CODEX_MIMO_HOST", "project-host"),
        ("CODEX_MIMO_PORT", "5000"),
    ]);
    let env = vars(&[
        ("CODEX_MIMO_HOST", "env-host"),
        ("CODEX_MIMO_PORT", "6000"),
        ("CODEX_MIMO_STATE_DB", "env.sqlite"),
        ("CODEX_MIMO_MAX_CONCURRENCY", "3"),
    ]);
    let c = Config::from_sources(&project, &env, ConfigOverrides::default()).unwrap();
    assert_eq!(c.host, "project-host");
    assert_eq!(c.port, 5000);
    assert_eq!(c.state_db, "env.sqlite");
    assert_eq!(c.max_concurrency, 3);

    let mut o = ConfigOverrides::default();
    o.host = Some("cli-host".to_string());
    o.port = Some(7000);
    let c = Config::from_sources(&project, &env, o).unwrap();
    assert_eq!(c.host, "cli-host");
    assert_eq!(c.port, 7000);
}

#[test]
fn api_key_resolution_follows_its_rules() {
    let mut o = ConfigOverrides::default();
    o.upstream_key = Some("cli-key".to_string());
    let c = Config::from_sources(&vars(&[("MIMO_API_KEY", "p")]), &EnvVars::new(), o).unwrap();
    assert_eq!(c.upstream_key, "cli-key");

    // A blank command-line key falls through to the project key.
    let mut o = ConfigOverrides::default();
    o.upstream_key = Some("  ".to_string());
    let c = Config::from_sources(&vars(&[("MIMO_API_KEY", "p")]), &EnvVars::new(), o).unwrap();
    assert_eq!(c.upstream_key, "p");

    // The process key is used when the project has none.
    let c = Config::from_sources(
        &EnvVars::new(),
        &vars(&[("MIMO_API_KEY", "env-key")]),
        ConfigOverrides::default(),
    )
    .unwrap();
    assert_eq!(c.upstream_key, "env-key");

    // A blank project key hides the process key.
    let e = Config::from_sources(
        &vars(&[("MIMO_API_KEY", " ")]),
        &vars(&[("MIMO_API_KEY", "env-key")]),
        ConfigOverrides::default(),
    )
    .unwrap_err();
    assert_eq!(e, ConfigError::Required(ConfigKey::ApiKey));
    assert_eq!(e.message(), "MIMO_API_KEY is required");

    // A project that defers to the process environment needs the key there.
    let project = vars(&[("CODEX_MIMO_API_KEY_SOURCE", "process")]);
    let c = Config::from_sources(
        &project,
        &vars(&[("MIMO_API_KEY", "inherited")]),
        ConfigOverrides::default(),
    )
    .unwrap();
    assert_eq!(c.upstream_key, "inherited");
    let e = Config::from_sources(&project, &EnvVars::new(), ConfigOverrides::default())
        .unwrap_err();
    assert_eq!(e, ConfigError::InheritedApiKeyRequired);
    assert!(e.message().contains("inherited process environment"));
    assert_eq!(
        e.message(),
        "MIMO_API_KEY is required in the inherited process environment because project config uses CODEX_MIMO_API_KEY_SOURCE=process"
    );

    let e = Config::from_sources(&EnvVars::new(), &EnvVars::new(), ConfigOverrides::default())
        .unwrap_err();
    assert_eq!(e, ConfigError::Required(ConfigKey::ApiKey));
}

#[test]
fn invalid_numbers_are_reported_with_their_source() {
    let project = vars(&[("MIMO_API_KEY", "key"), ("CODEX_MIMO_PORT", "80x")]);
    let e = Config::from_sources(&project, &EnvVars::new(), ConfigOverrides::default())
        .unwrap_err();
    assert_eq!(
        e,
        ConfigError::InvalidValue {
            key: ConfigKey::Port,
            origin: ValueOrigin::ProjectConfig,
            reason: IntErrorKind::InvalidDigit
        }
    );
    assert_eq!(
        e.message(),
        "invalid CODEX_MIMO_PORT value in project config: invalid digit found in string"
    );

    let project = vars(&[("MIMO_API_KEY", "key")]);
    let env = vars(&[("CODEX_MIMO_PORT", "70000")]);
    let e = Config::from_sources(&project, &env, ConfigOverrides::default()).unwrap_err();
    assert_eq!(
        e.message(),
        "invalid CODEX_MIMO_PORT value in environment: number too large to fit in target type"
    );

    let env = vars(&[("CODEX_MIMO_TIMEOUT_SECONDS", "")]);
    let e = Config::from_sources(&project, &env, ConfigOverrides::default()).unwrap_err();
    assert_eq!(
        e.message(),
        "invalid CODEX_MIMO_TIMEOUT_SECONDS value in environment: cannot parse integer from empty string"
    );

    let env = vars(&[("CODEX_MIMO_STATE_TTL_SECONDS", "-5")]);
    let c = Config::from_sources(&project, &env, ConfigOverrides::default()).unwrap();
    assert_eq!(c.state_ttl_seconds, -5);
}

#[test]
fn validation_rejects_shared_token_and_zero_concurrency() {
    let project = vars(&[("MIMO_API_KEY", "same"), ("CODEX_MIMO_LOCAL_TOKEN", "same")]);
    let e = Config::from_sources(&project, &EnvVars::new(), ConfigOverrides::default())
        .unwrap_err();
    assert_eq!(e, ConfigError::LocalTokenMatchesApiKey);
    assert_eq!(e.message(), "CODEX_MIMO_LOCAL_TOKEN must differ from MIMO_API_KEY");

    let project = vars(&[("MIMO_API_KEY", "key"), ("CODEX_MIMO_MAX_CONCURRENCY", "0")]);
    let e = Config::from_sources(&project, &EnvVars::new(), ConfigOverrides::default())
        .unwrap_err();
    assert_eq!(e, ConfigError::MaxConcurrencyZero);
    assert_eq!(e.message(), "CODEX_MIMO_MAX_CONCURRENCY must be greater than zero");

    let c = Config::from_sources(
        &vars(&[("MIMO_API_KEY", "key"), ("CODEX_MIMO_LOCAL_TOKEN", "tok")]),
        &EnvVars::new(),
        ConfigOverrides::default(),
    )
    .unwrap();
    assert_eq!(c.validate(), Ok(()));
}

#[test]
fn local_token_stays_project_scoped_once_removed_from_process_env() {
    let project = vars(&[("MIMO_API_KEY", "key")]);
    let mut env = vars(&[("CODEX_MIMO_LOCAL_TOKEN", "from-process")]);
    let c = Config::from_sources(&project, &env, ConfigOverrides::default()).unwrap();
    assert_eq!(c.local_token.as_deref(), Some("from-process"));
    env.remove("CODEX_MIMO_LOCAL_TOKEN");
    let c = Config::from_sources(&project, &env, ConfigOverrides::default()).unwrap();
    assert_eq!(c.local_token, None);
}

#[test]
fn project_scoped_config_ignores_the_process_local_token() {
    let env = || vars(&[("CODEX_MIMO_LOCAL_TOKEN", "from-process"), ("CODEX_MIMO_PORT", "4100")]);
    let bare = vars(&[("MIMO_API_KEY", "key")]);
    let c = Config::project_scoped(&bare, env(), ConfigOverrides::default()).unwrap();
    assert_eq!(c.local_token, None);
    assert_eq!(c.port, 4100);
    let with_token = vars(&[("MIMO_API_KEY", "key"), ("CODEX_MIMO_LOCAL_TOKEN", "from-project")]);
    let c = Config::project_scoped(&with_token, env(), ConfigOverrides::default()).unwrap();
    assert_eq!(c.local_token.as_deref(), Some("from-project"));
    let overrides = ConfigOverrides { local_token: Some("from-cli".to_string()), ..ConfigOverrides::default() };
    let c = Config::project_scoped(&with_token, env(), overrides).unwrap();
    assert_eq!(c.local_token.as_deref(), Some("from-cli"));
}

#[test]
fn integers_parse_like_std() {
    for (text, lo, hi) in [
        ("0", 0i128, 65535i128),
        ("+12", 0, 65535),
        ("65535", 0, 65535),
        ("65536", 0, 65535),
        ("-1", 0, 65535),
        ("-", -128, 127),
        ("+", 0, 255),
        ("", 0, 255),
        ("-128", -128, 127),
        ("-129", -128, 127),
        ("12a", 0, 255),
        ("99999x", 0, 255),
        (" 1", 0, 255),
    ] {
        let ours = parse_int_in(text, lo, hi);
        let std_result: Result<i128, IntErrorKind> = if lo < 0 {
            text.parse::<i8>().map(i128::from).map_err(|e| kind(e.kind()))
        } else if hi == 255 {
            text.parse::<u8>().map(i128::from).map_err(|e| kind(e.kind()))
        } else {
            text.parse::<u16>().map(i128::from).map_err(|e| kind(e.kind()))
        };
        assert_eq!(ours, std_result, "text {text:?}");
    }
    assert_eq!(IntErrorKind::PosOverflow.text(), "number too large to fit in target type");
}

fn kind(k: &std::num::IntErrorKind) -> IntErrorKind {
    match k {
        std::num::IntErrorKind::Empty => IntErrorKind::Empty,
        std::num::IntErrorKind::InvalidDigit => IntErrorKind::InvalidDigit,
        std::num::IntErrorKind::PosOverflow => IntErrorKind::PosOverflow,
        std::num::IntErrorKind::NegOverflow => IntErrorKind::NegOverflow,
        _ => unreachable!(),
    }
}

#[test]
fn run_arguments_become_overrides_and_listen_settings() {
    let mut args = RunArgs::default();
    let none = EnvVars::new();
    assert_eq!(args.listen_settings(&none, &none), Ok(("127.0.0.1".to_string(), 4010, 8)));
    let project = vars(&[
        ("CODEX_MIMO_HOST", "127.0.0.2"),
        ("CODEX_MIMO_PORT", "5000"),
        ("CODEX_MIMO_MAX_CONCURRENCY", "2"),
    ]);
    let process = vars(&[("CODEX_MIMO_PORT", "6000"), ("CODEX_MIMO_MAX_CONCURRENCY", "3")]);
    assert_eq!(args.listen_settings(&project, &process), Ok(("127.0.0.2".to_string(), 5000, 2)));
    assert_eq!(args.listen_settings(&none, &process), Ok(("127.0.0.1".to_string(), 6000, 3)));
    let bad = vars(&[("CODEX_MIMO_PORT", "70000")]);
    assert_eq!(
        args.listen_settings(&bad, &none).unwrap_err().message(),
        "invalid CODEX_MIMO_PORT value in project config: number too large to fit in target type"
    );
    args.host = Some("0.0.0.0".to_string());
    args.port = Some(9000);
    args.max_concurrency = Some(2);
    args.state_ttl_seconds = Some(60);
    assert_eq!(args.listen_settings(&project, &process), Ok(("0.0.0.0".to_string(), 9000, 2)));
    let o = args.to_overrides();
    assert_eq!(o.host.as_deref(), Some("0.0.0.0"));
    assert_eq!(o.port, Some(9000));
    assert_eq!(o.max_concurrency, Some(2));
    assert_eq!(o.state_ttl_seconds, Some(60));
    assert_eq!(o.upstream_key, None);
}

#[test]
fn init_arguments_have_command_line_defaults() {
    let a = InitArgs::with_defaults(Some("k".to_string()), false);
    assert_eq!(a.host, "127.0.0.1");
    assert_eq!(a.port, 4010);
    assert_eq!(a.upstream_base, "https://token-plan-cn.xiaomimimo.com/v1");
    assert_eq!(a.api_key.as_deref(), Some("k"));
}

#[test]
fn local_token_must_be_non_empty() {
    assert_eq!(
        project_local_token(&vars(&[("CODEX_MIMO_LOCAL_TOKEN", "codex-mimo-x")])),
        Some("codex-mimo-x".to_string())
    );
    assert_eq!(project_local_token(&vars(&[("CODEX_MIMO_LOCAL_TOKEN", "")])), None);
    assert_eq!(project_local_token(&EnvVars::new()), None);
}

#[test]
fn registered_token_comes_from_the_first_project_by_identifier() {
    let token = |t: &str| RegisteredEnv::Loaded(vars(&[("CODEX_MIMO_LOCAL_TOKEN", t)]));
    let entries = vec![
        ("mimo_adapter_c".to_string(), token("token-c")),
        ("mimo_adapter_a".to_string(), RegisteredEnv::NoEnvFile),
        ("mimo_adapter_b".to_string(), token("token-b")),
        ("mimo_adapter_0".to_string(), RegisteredEnv::Unresolved),
        ("mimo_adapter_1".to_string(), token("")),
    ];
    assert_eq!(registered_local_token(&entries), Ok(Some("token-b".to_string())));
    let entries = vec![
        ("mimo_adapter_b".to_string(), token("token-b")),
        ("mimo_adapter_a".to_string(), RegisteredEnv::Unreadable("bad line".to_string())),
    ];
    assert_eq!(registered_local_token(&entries), Err("bad line".to_string()));
    let entries = vec![
        ("mimo_adapter_a".to_string(), token("token-a")),
        ("mimo_adapter_b".to_string(), RegisteredEnv::Unreadable("bad line".to_string())),
    ];
    assert_eq!(registered_local_token(&entries), Ok(Some("token-a".to_string())));
    let entries = vec![("mimo_adapter_a".to_string(), RegisteredEnv::NoEnvFile)];
    assert_eq!(registered_local_token(&entries), Ok(None));
    assert_eq!(registered_local_token(&Vec::new()), Ok(None));
}

#[test]
fn a_required_setting_names_its_key() {
    assert_eq!(ConfigError::Required(ConfigKey::ApiKey).message(), "MIMO_API_KEY is required");
    assert_eq!(ConfigError::Required(ConfigKey::Host).message(), "CODEX_MIMO_HOST is required");
}

#[test]
fn token_lookup_tries_the_nearest_project_then_the_registry() {
    let token = |t: &str| RegisteredEnv::Loaded(vars(&[("CODEX_MIMO_LOCAL_TOKEN", t)]));
    let registry = || vec![("mimo_adapter_b".to_string(), token("token-b"))];
    assert_eq!(adapter_token_secret(token("token-local"), &registry()), Ok("token-local".to_string()));
    assert_eq!(adapter_token_secret(token(""), &registry()), Ok("token-b".to_string()));
    assert_eq!(adapter_token_secret(RegisteredEnv::NoEnvFile, &registry()), Ok("token-b".to_string()));
    assert_eq!(
        adapter_token_secret(RegisteredEnv::Unreadable("bad".to_string()), &registry()),
        Err("bad".to_string())
    );
    assert_eq!(
        adapter_token_secret(RegisteredEnv::NoEnvFile, &Vec::new()),
        Err("CODEX_MIMO_LOCAL_TOKEN is missing. Run 'codex-mimo-adapter init' from a project root first.".to_string())
    );
}
