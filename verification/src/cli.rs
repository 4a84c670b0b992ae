//! The command line: subcommands and their arguments, and the settings that
//! the `run` and `check` commands take from them.
use vstd::prelude::*;

use crate::config::{
    choose_parse, choose_string, layered, layered_number, opt_int_u16, opt_int_usize, opt_view,
    ConfigError, ConfigKey, ConfigOverrides, EnvVars, DEFAULT_HOST, DEFAULT_MAX_CONCURRENCY, DEFAULT_PORT,
    DEFAULT_UPSTREAM_BASE,
};
use crate::project::{
    lemma_text_less_irreflexive, lemma_text_less_total, lemma_text_less_transitive, string_less,
    text_less,
};
use crate::text::push_str;

verus! {

/// The parsed command line.
#[derive(Debug)]
pub struct Cli {
    pub command: Commands,
}

/// The subcommands.
#[derive(Debug)]
pub enum Commands {
    /// Writes the project files and registers the project.
    Init(InitArgs),
    /// Serves every registered project.
    Run(RunArgs),
    /// Same as `Run`.
    Start(RunArgs),
    /// Checks that a running adapter answers.
    Check,
    /// Token commands.
    Auth(AuthArgs),
}

/// Arguments of `init`.
#[derive(Debug, Clone)]
pub struct InitArgs {
    pub api_key: Option<String>,
    /// Read the MiMo API key from standard input instead of a command-line argument.
    pub api_key_stdin: bool,
    pub host: String,
    pub port: u16,
    pub upstream_base: String,
}

impl InitArgs {
    /// `init` arguments with the command line's defaults and the given key.
    pub fn with_defaults(api_key: Option<String>, api_key_stdin: bool) -> (a: Self)
        ensures
            opt_view(a.api_key) == opt_view(api_key),
            a.api_key_stdin == api_key_stdin,
            a.host@ == DEFAULT_HOST@,
            a.port == DEFAULT_PORT,
            a.upstream_base@ == DEFAULT_UPSTREAM_BASE@,
    {
        let mut host = String::new();
        push_str(&mut host, DEFAULT_HOST);
        let mut upstream_base = String::new();
        push_str(&mut upstream_base, DEFAULT_UPSTREAM_BASE);
        InitArgs { api_key, api_key_stdin, host, port: DEFAULT_PORT, upstream_base }
    }
}

/// Arguments of `run` and `start`: optional overrides of every setting.
#[derive(Debug, Clone)]
pub struct RunArgs {
    pub host: Option<String>,
    pub port: Option<u16>,
    pub upstream_base: Option<String>,
    pub upstream_key: Option<String>,
    pub local_token: Option<String>,
    pub state_db: Option<String>,
    pub state_ttl_seconds: Option<i64>,
    pub timeout_seconds: Option<u64>,
    pub max_request_bytes: Option<usize>,
    pub max_concurrency: Option<usize>,
}

impl Default for RunArgs {
    fn default() -> (a: Self)
        ensures
            a.host is None && a.port is None && a.upstream_base is None && a.upstream_key is None
                && a.local_token is None && a.state_db is None && a.state_ttl_seconds is None
                && a.timeout_seconds is None && a.max_request_bytes is None
                && a.max_concurrency is None,
    {
        RunArgs {
            host: None,
            port: None,
            upstream_base: None,
            upstream_key: None,
            local_token: None,
            state_db: None,
            state_ttl_seconds: None,
            timeout_seconds: None,
            max_request_bytes: None,
            max_concurrency: None,
        }
    }
}

impl RunArgs {
    /// The configuration overrides these arguments give, field for field.
    pub fn to_overrides(self) -> (o: ConfigOverrides)
        ensures
            o.host == self.host,
            o.port == self.port,
            o.upstream_base == self.upstream_base,
            o.upstream_key == self.upstream_key,
            o.local_token == self.local_token,
            o.state_db == self.state_db,
            o.state_ttl_seconds == self.state_ttl_seconds,
            o.timeout_seconds == self.timeout_seconds,
            o.max_request_bytes == self.max_request_bytes,
            o.max_concurrency == self.max_concurrency,
    {
        ConfigOverrides {
            host: self.host,
            port: self.port,
            upstream_base: self.upstream_base,
            upstream_key: self.upstream_key,
            local_token: self.local_token,
            state_db: self.state_db,
            state_ttl_seconds: self.state_ttl_seconds,
            timeout_seconds: self.timeout_seconds,
            max_request_bytes: self.max_request_bytes,
            max_concurrency: self.max_concurrency,
        }
    }

    /// Where the server listens and how many requests it serves at once,
    /// each resolved like the other settings: the command line, then the
    /// project env file, then the process environment, then the default.
    pub fn listen_settings(&self, project_env: &EnvVars, env: &EnvVars) -> (r: Result<
        (String, u16, usize),
        ConfigError,
    >)
        ensures
            match (
                layered_number(
                    opt_int_u16(self.port),
                    project_env@,
                    env@,
                    ConfigKey::Port,
                    0,
                    u16::MAX as int,
                    DEFAULT_PORT as int,
                ),
                layered_number(
                    opt_int_usize(self.max_concurrency),
                    project_env@,
                    env@,
                    ConfigKey::MaxConcurrency,
                    0,
                    usize::MAX as int,
                    DEFAULT_MAX_CONCURRENCY as int,
                ),
            ) {
                (Err(e), _) => r == Err::<(String, u16, usize), ConfigError>(e),
                (Ok(_), Err(e)) => r == Err::<(String, u16, usize), ConfigError>(e),
                (Ok(port), Ok(limit)) => r is Ok && r->Ok_0.0@ == match layered(
                    opt_view(self.host),
                    project_env@,
                    env@,
                    ConfigKey::Host.spec_name(),
                ) {
                    Some(h) => h,
                    None => DEFAULT_HOST@,
                } && r->Ok_0.1 as int == port && r->Ok_0.2 as int == limit,
            },
    {
        proof {
            let pk = ConfigKey::Port.spec_name();
            let mk = ConfigKey::MaxConcurrency.spec_name();
            crate::numbers::lemma_parse_int_range(project_env@[pk], 0, u16::MAX as int);
            crate::numbers::lemma_parse_int_range(env@[pk], 0, u16::MAX as int);
            crate::numbers::lemma_parse_int_range(project_env@[mk], 0, usize::MAX as int);
            crate::numbers::lemma_parse_int_range(env@[mk], 0, usize::MAX as int);
        }
        let host = choose_string(self.host.clone(), project_env, env, ConfigKey::Host, DEFAULT_HOST);
        let port = match choose_parse(
            match self.port {
                Some(v) => Some(v as i128),
                None => None,
            },
            project_env,
            env,
            ConfigKey::Port,
            0,
            65535,
            DEFAULT_PORT as i128,
        ) {
            Ok(v) => v as u16,
            Err(e) => return Err(e),
        };
        let limit = match choose_parse(
            match self.max_concurrency {
                Some(v) => Some(v as i128),
                None => None,
            },
            project_env,
            env,
            ConfigKey::MaxConcurrency,
            0,
            usize::MAX as i128,
            DEFAULT_MAX_CONCURRENCY as i128,
        ) {
            Ok(v) => v as usize,
            Err(e) => return Err(e),
        };
        Ok((host, port, limit))
    }
}

/// Arguments of `auth`.
#[derive(Debug)]
pub struct AuthArgs {
    pub command: AuthCommands,
}

/// The `auth` subcommands.
#[derive(Debug, Clone, Copy, PartialEq, Eq, Structural)]
pub enum AuthCommands {
    /// Prints the signed adapter token.
    PrintLocalToken,
}

/// The local token that the variables `vars` hold, when it is set and not empty.
pub open spec fn local_token_in(vars: Map<Seq<char>, Seq<char>>) -> Option<Seq<char>> {
    if vars.contains_key("CODEX_MIMO_LOCAL_TOKEN"@) && vars["CODEX_MIMO_LOCAL_TOKEN"@].len() > 0 {
        Some(vars["CODEX_MIMO_LOCAL_TOKEN"@])
    } else {
        None
    }
}

/// The local token that a project's variables hold, when it is set and not empty.
pub fn project_local_token(project_env: &EnvVars) -> (t: Option<String>)
    ensures
        opt_view(t) == local_token_in(project_env@),
{
    match project_env.get("CODEX_MIMO_LOCAL_TOKEN") {
        Some(t) => if t.as_str().unicode_len() > 0 {
            Some(t.clone())
        } else {
            None
        },
        None => None,
    }
}

/// What was found for a registered project when looking for a local token.
#[derive(Debug)]
pub enum RegisteredEnv {
    /// The registry names no root for the project.
    Unresolved,
    /// The project root holds no env file.
    NoEnvFile,
    /// The env file could not be read or parsed; the reader's message.
    Unreadable(String),
    /// The project's variables.
    Loaded(EnvVars),
}

/// Whether what was found for a project settles the search: an unreadable
/// env file fails it, and a non-empty local token ends it.
pub open spec fn settles(e: RegisteredEnv) -> bool {
    match e {
        RegisteredEnv::Unreadable(_) => true,
        RegisteredEnv::Loaded(v) => local_token_in(v@) is Some,
        _ => false,
    }
}

/// `i` is the entry that settles the search when the projects are visited in
/// the order of their identifiers: the first of those with the least
/// identifier among the entries that settle it.
pub open spec fn settling_entry(entries: Seq<(String, RegisteredEnv)>, i: int) -> bool {
    &&& 0 <= i < entries.len()
    &&& settles(entries[i].1)
    &&& forall|j: int|
        0 <= j < entries.len() && settles(#[trigger] entries[j].1) ==> !text_less(
            entries[j].0@,
            entries[i].0@,
        )
    &&& forall|j: int|
        0 <= j < i && settles(#[trigger] entries[j].1) ==> text_less(entries[i].0@, entries[j].0@)
}

fn settles_search(e: &RegisteredEnv) -> (b: bool)
    ensures
        b == settles(*e),
{
    match e {
        RegisteredEnv::Unreadable(_) => true,
        RegisteredEnv::Loaded(v) => project_local_token(v).is_some(),
        _ => false,
    }
}

/// The local token of the registered projects, visited in the order of
/// their identifiers (`entries` pairs each identifier with what was found
/// for it): the first non-empty token, an error when an env file before it
/// could not be read, and `None` when no project has a token.
pub fn registered_local_token(entries: &Vec<(String, RegisteredEnv)>) -> (r: Result<
    Option<String>,
    String,
>)
    ensures
        match r {
            Ok(None) => forall|j: int| 0 <= j < entries@.len() ==> !settles(#[trigger] entries@[j].1),
            Ok(Some(t)) => exists|i: int|
                #![trigger entries@[i]]
                settling_entry(entries@, i) && (entries@[i].1 matches RegisteredEnv::Loaded(v)
                    && local_token_in(v@) == Some(t@)),
            Err(m) => exists|i: int|
                #![trigger entries@[i]]
                settling_entry(entries@, i) && (entries@[i].1 matches RegisteredEnv::Unreadable(x)
                    && x@ == m@),
        },
{
    let mut best: Option<usize> = None;
    let mut i: usize = 0;
    while i < entries.len()
        invariant
            i <= entries.len(),
            match best {
                None => forall|j: int| 0 <= j < i ==> !settles(#[trigger] entries@[j].1),
                Some(b) => {
                    &&& b < i
                    &&& settles(entries@[b as int].1)
                    &&& forall|j: int|
                        0 <= j < i && settles(#[trigger] entries@[j].1) ==> !text_less(
                            entries@[j].0@,
                            entries@[b as int].0@,
                        )
                    &&& forall|j: int|
                        0 <= j < b && settles(#[trigger] entries@[j].1) ==> text_less(
                            entries@[b as int].0@,
                            entries@[j].0@,
                        )
                },
            },
        decreases entries.len() - i,
    {
        if settles_search(&entries[i].1) {
            let ghost id_i = entries@[i as int].0@;
            match best {
                None => {
                    proof {
                        lemma_text_less_irreflexive(id_i);
                    }
                    best = Some(i);
                },
                Some(b) => {
                    if string_less(entries[i].0.as_str(), entries[b].0.as_str()) {
                        proof {
                            let id_b = entries@[b as int].0@;
                            lemma_text_less_irreflexive(id_i);
                            assert forall|j: int|
                                0 <= j < i + 1 && settles(#[trigger] entries@[j].1) implies !text_less(
                                entries@[j].0@,
                                id_i,
                            ) by {
                                if j < i && text_less(entries@[j].0@, id_i) {
                                    lemma_text_less_transitive(entries@[j].0@, id_i, id_b);
                                }
                            }
                            assert forall|j: int|
                                0 <= j < i && settles(#[trigger] entries@[j].1) implies text_less(
                                id_i,
                                entries@[j].0@,
                            ) by {
                                lemma_text_less_total(id_b, entries@[j].0@);
                                if text_less(id_b, entries@[j].0@) {
                                    lemma_text_less_transitive(id_i, id_b, entries@[j].0@);
                                }
                            }
                        }
                        best = Some(i);
                    }
                },
            }
        }
        i = i + 1;
    }
    match best {
        None => Ok(None),
        Some(b) => {
            assert(settling_entry(entries@, b as int));
            match &entries[b].1 {
                RegisteredEnv::Unreadable(m) => Err(m.clone()),
                RegisteredEnv::Loaded(v) => Ok(project_local_token(v)),
                _ => Ok(None),
            }
        },
    }
}

/// The message when no local token is found anywhere.
pub open spec fn token_missing_message() -> Seq<char> {
    "CODEX_MIMO_LOCAL_TOKEN is missing. Run 'codex-mimo-adapter init' from a project root first."@
}

/// The raw local token that signs adapter tokens: the nearest project's own
/// (`local`: what was found for it) when it has a non-empty one, else the
/// first one of the registered projects in the order of their identifiers;
/// an env file that cannot be read on the way is an error, and so is finding
/// no token at all.
pub fn adapter_token_secret(local: RegisteredEnv, registered: &Vec<(String, RegisteredEnv)>) -> (r:
    Result<String, String>)
    ensures
        match local {
            RegisteredEnv::Unreadable(m) => r is Err && r->Err_0@ == m@,
            RegisteredEnv::Loaded(v) if local_token_in(v@) is Some => r is Ok && r->Ok_0@
                == local_token_in(v@)->0,
            _ => match r {
                Ok(t) => exists|i: int|
                    #![trigger registered@[i]]
                    settling_entry(registered@, i) && (registered@[i].1 matches RegisteredEnv::Loaded(
                        v,
                    ) && local_token_in(v@) == Some(t@)),
                Err(m) => (forall|j: int|
                    0 <= j < registered@.len() ==> !settles(#[trigger] registered@[j].1)) && m@
                    == token_missing_message() || exists|i: int|
                    #![trigger registered@[i]]
                    settling_entry(registered@, i) && (registered@[i].1 matches RegisteredEnv::Unreadable(
                        x,
                    ) && x@ == m@),
            },
        },
{
    match local {
        RegisteredEnv::Unreadable(m) => return Err(m),
        RegisteredEnv::Loaded(v) => {
            match project_local_token(&v) {
                Some(t) => return Ok(t),
                None => {},
            }
        },
        _ => {},
    }
    match registered_local_token(registered) {
        Ok(Some(t)) => Ok(t),
        Ok(None) => {
            let mut m = String::new();
            push_str(
                &mut m,
                "CODEX_MIMO_LOCAL_TOKEN is missing. Run 'codex-mimo-adapter init' from a project root first.",
            );
            Err(m)
        },
        Err(m) => Err(m),
    }
}

} // verus!
