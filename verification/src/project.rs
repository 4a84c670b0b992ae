//! Project layout and discovery: where a project's files live, which
//! directory is the project root, and which Codex session points at one.
use vstd::prelude::*;

use crate::config::{opt_view, EnvVars};
use crate::text::{chars_of, opt_str_view, str_equal};

pub use crate::envfile::{parse_env_text, EnvParseError};

verus! {

/// The project env file, in the project root.
pub const PROJECT_ENV_FILENAME: &'static str = ".codex-mimo-adapter.env";

/// The Codex directory, in the project root and in the home directory.
pub const CODEX_DIR_NAME: &'static str = ".codex";

/// The agent templates directory, inside the Codex directory.
pub const AGENTS_DIR_NAME: &'static str = "agents";

/// The adapter's state directory, in the project root.
pub const STATE_DIR_NAME: &'static str = ".codex-mimo";

/// A single relative path component: not empty, no separator, no drive colon.
pub open spec fn plain_name(name: Seq<char>) -> bool {
    name.len() > 0 && !name.contains('/') && !name.contains('\\') && !name.contains(':')
}

/// `joined` is `base` with the plain name `name` appended as `Path::join`
/// appends it: an empty base gives the name alone; a base ending in `/` gets
/// no separator; a base ending in anything but `/`, a backslash or `:` gets
/// the platform's separator (`/`, or a backslash on Windows); a base ending
/// in a backslash or `:` gets either, or none, by platform.
pub open spec fn joined(base: Seq<char>, name: Seq<char>, joined: Seq<char>) -> bool {
    if base.len() == 0 {
        joined == name
    } else if base.last() == '/' {
        joined == base + name
    } else if base.last() == '\\' || base.last() == ':' {
        ||| joined == base + name
        ||| joined == base + seq!['/'] + name
        ||| joined == base + seq!['\\'] + name
    } else {
        ||| joined == base + seq!['/'] + name
        ||| joined == base + seq!['\\'] + name
    }
}

/// Joining a name without `?` to a path that does not start like a
/// verbatim path gives a path that does not either.
proof fn lemma_joined_keeps_plain(base: Seq<char>, name: Seq<char>, j: Seq<char>)
    requires
        joined(base, name, j),
        !verbatim(base),
        !name.contains('?'),
    ensures
        !verbatim(j),
{
    if j.len() >= 3 {
        if base.len() >= 3 {
            assert(j[0] == base[0] && j[1] == base[1] && j[2] == base[2]);
        } else if j == name {
            assert(j[2] == name[2]);
        } else if j == base + name {
            assert(j[2] == name[2 - base.len()]);
        } else if base.len() == 2 {
            assert(j[2] == '/' || j[2] == '\\');
        } else {
            assert(j[2] == name[2 - base.len() - 1]);
        }
    }
}

/// A path that starts like a Windows verbatim path (`\\?\...`): with two
/// backslashes and a `?`. `Path::join` follows other rules for verbatim
/// paths, and a base of just `\\?` becomes one once a backslash is added.
pub open spec fn verbatim(path: Seq<char>) -> bool {
    path.len() >= 3 && path[0] == '\\' && path[1] == '\\' && path[2] == '?'
}

/// Appends a plain relative name to a directory path (`Path::join`). What
/// comes of a base that starts like a verbatim path is not stated: on
/// Windows such a path is joined by its own rules (`/` is no separator
/// there, and `.` and `..` are normalized away).
#[verifier::external_body]
fn path_join(base: &str, name: &str) -> (path: String)
    requires
        plain_name(name@),
    ensures
        !verbatim(base@) ==> joined(base@, name@, path@),
{
    std::path::Path::new(base).join(name).to_string_lossy().into_owned()
}

/// The ancestors of a path as `Path::ancestors` lists them: the path
/// itself, then its parent, and so on.
pub uninterp spec fn path_ancestors(start: Seq<char>) -> Seq<Seq<char>>;

/// `chain` starts with `start` and each later entry is a strictly shorter
/// prefix of the one before it.
pub open spec fn prefix_chain(start: Seq<char>, chain: Seq<Seq<char>>) -> bool {
    &&& chain.len() >= 1
    &&& chain[0] == start
    &&& forall|i: int|
        0 < i < chain.len() ==> (#[trigger] chain[i]).len() < chain[i - 1].len() && chain[i]
            == chain[i - 1].subrange(0, chain[i].len() as int)
}

/// The ancestors of `start` (`Path::ancestors`), each as a string. Every
/// parent that `Path::parent` gives is a slice of the path from its start
/// with at least its last component cut off.
#[verifier::external_body]
fn ancestors_of(start: &str) -> (r: Vec<String>)
    ensures
        r@.map_values(|a: String| a@) == path_ancestors(start@),
        prefix_chain(start@, r@.map_values(|a: String| a@)),
{
    std::path::Path::new(start).ancestors().map(|a| a.to_string_lossy().into_owned()).collect()
}

/// A prefix of a prefix of `s` is a prefix of `s`.
proof fn lemma_chain_prefixes(start: Seq<char>, chain: Seq<Seq<char>>, i: int)
    requires
        prefix_chain(start, chain),
        0 <= i < chain.len(),
    ensures
        chain[i].len() <= start.len(),
        chain[i] == start.subrange(0, chain[i].len() as int),
    decreases i,
{
    if i > 0 {
        lemma_chain_prefixes(start, chain, i - 1);
        assert(chain[i] =~= start.subrange(0, chain[i].len() as int));
    } else {
        assert(start.subrange(0, start.len() as int) =~= start);
    }
}

/// The ancestors of `start`, nearest first: `start` itself, then each
/// parent, each a prefix of `start`.
pub fn project_ancestors(start: &str) -> (r: Vec<String>)
    ensures
        r@.map_values(|a: String| a@) == path_ancestors(start@),
        prefix_chain(start@, path_ancestors(start@)),
{
    ancestors_of(start)
}

/// The files and directories of a project.
#[derive(Debug, Clone)]
pub struct ProjectPaths {
    pub root: String,
    pub env_file: String,
    pub agents_dir: String,
    pub state_dir: String,
}

/// `p` holds the layout of the project rooted at `root` (for a root that starts
/// like a Windows verbatim path, only the root itself is stated).
pub open spec fn layout_of(p: ProjectPaths, root: Seq<char>) -> bool {
    &&& p.root@ == root
    &&& !verbatim(root) ==> layout_within(p, root)
}

/// The project's files sit in `root`.
pub open spec fn layout_within(p: ProjectPaths, root: Seq<char>) -> bool {
    &&& joined(root, PROJECT_ENV_FILENAME@, p.env_file@)
    &&& exists|codex: Seq<char>|
        joined(root, CODEX_DIR_NAME@, codex) && joined(codex, AGENTS_DIR_NAME@, p.agents_dir@)
    &&& joined(root, STATE_DIR_NAME@, p.state_dir@)
}

impl ProjectPaths {
    /// The layout of the project rooted at `root`.
    pub fn from_root(root: String) -> (p: Self)
        ensures
            layout_of(p, root@),
    {
        proof {
            reveal_strlit(".codex-mimo-adapter.env");
            reveal_strlit(".codex");
            reveal_strlit("agents");
            reveal_strlit(".codex-mimo");
        }
        let env_file = path_join(root.as_str(), PROJECT_ENV_FILENAME);
        let codex = path_join(root.as_str(), CODEX_DIR_NAME);
        proof {
            if !verbatim(root@) {
                assert(!CODEX_DIR_NAME@.contains('?')) by {
                    assert forall|i: int| 0 <= i < CODEX_DIR_NAME@.len() implies CODEX_DIR_NAME@[i]
                        != '?' by {}
                }
                lemma_joined_keeps_plain(root@, CODEX_DIR_NAME@, codex@);
            }
        }
        let agents_dir = path_join(codex.as_str(), AGENTS_DIR_NAME);
        let state_dir = path_join(root.as_str(), STATE_DIR_NAME);
        ProjectPaths { root, env_file, agents_dir, state_dir }
    }

    /// The project found from `start`: the nearest of its ancestors
    /// (`Path::ancestors`: `start` and then its parents) whose env file
    /// exists (`env_file_exists[i]` tells for the `i`-th ancestor; a missing
    /// entry counts as absent), or the layout rooted at `start` itself when
    /// none has one. Either way the root is a prefix of `start`.
    pub fn discover_from(start: &str, env_file_exists: &Vec<bool>) -> (p: Self)
        ensures
            match first_with_env(found_for(env_file_exists@, path_ancestors(start@).len())) {
                Some(i) => layout_of(p, path_ancestors(start@)[i]),
                None => layout_of(p, start@),
            },
            p.root@.len() <= start@.len(),
            p.root@ == start@.subrange(0, p.root@.len() as int),
    {
        let ancestors = ancestors_of(start);
        let ghost chain = path_ancestors(start@);
        let ghost found = found_for(env_file_exists@, chain.len());
        let mut i: usize = 0;
        while i < ancestors.len()
            invariant
                chain == path_ancestors(start@),
                ancestors@.map_values(|a: String| a@) == chain,
                prefix_chain(start@, chain),
                found == found_for(env_file_exists@, chain.len()),
                i <= ancestors.len(),
                forall|j: int| 0 <= j < i ==> !found[j],
            decreases ancestors.len() - i,
        {
            let present = i < env_file_exists.len() && env_file_exists[i];
            assert(present == found[i as int]);
            if present {
                proof {
                    lemma_first_with_env(found, i as int);
                    lemma_chain_prefixes(start@, chain, i as int);
                    assert(ancestors@[i as int]@ == chain[i as int]);
                }
                let root = ancestors[i].clone();
                assert(root@ == chain[i as int]);
                let p = Self::from_root(root);
                assert(first_with_env(found) == Some(i as int));
                return p;
            }
            i = i + 1;
        }
        proof {
            lemma_no_env(found);
            assert(start@.subrange(0, start@.len() as int) =~= start@);
        }
        let mut root = String::new();
        crate::text::push_str(&mut root, start);
        Self::from_root(root)
    }

    /// The project found locally when its env file exists, else the project
    /// found from a Codex session's working directory when its env file
    /// exists, else the local layout.
    pub fn discover(local: Self, local_env_exists: bool, from_session: Option<(Self, bool)>) -> (p:
        Self)
        ensures
            p == (if local_env_exists {
                local
            } else {
                match from_session {
                    Some((s, true)) => s,
                    _ => local,
                }
            }),
    {
        if local_env_exists {
            return local;
        }
        match from_session {
            Some((s, found)) => if found {
                s
            } else {
                local
            },
            None => local,
        }
    }
}

/// Whether the env file exists for each of `n` ancestors, `false` past the
/// end of `exists`.
pub open spec fn found_for(exists: Seq<bool>, n: nat) -> Seq<bool> {
    Seq::new(n, |i: int| i < exists.len() && exists[i])
}

/// The position of the first `true`.
pub open spec fn first_with_env(found: Seq<bool>) -> Option<int> {
    if exists|i: int| 0 <= i < found.len() && found[i] {
        Some(choose|i: int| 0 <= i < found.len() && found[i] && forall|j: int| 0 <= j < i ==> !found[j])
    } else {
        None
    }
}

proof fn lemma_first_with_env(found: Seq<bool>, i: int)
    requires
        0 <= i < found.len(),
        found[i],
        forall|j: int| 0 <= j < i ==> !found[j],
    ensures
        first_with_env(found) == Some(i),
{
    let k = choose|k: int| 0 <= k < found.len() && found[k] && forall|j: int| 0 <= j < k ==> !found[j];
    if k < i {
        assert(!found[k]);
    } else if k > i {
        assert(!found[i]);
    }
}

proof fn lemma_no_env(found: Seq<bool>)
    requires
        forall|j: int| 0 <= j < found.len() ==> !found[j],
    ensures
        first_with_env(found) is None,
{
}

/// The user's Codex directory: `.codex` in `USERPROFILE`, else in `HOME`.
pub open spec fn codex_home(env: Map<Seq<char>, Seq<char>>, dir: Option<Seq<char>>) -> bool {
    let home = if env.contains_key("USERPROFILE"@) {
        Some(env["USERPROFILE"@])
    } else if env.contains_key("HOME"@) {
        Some(env["HOME"@])
    } else {
        None
    };
    match (home, dir) {
        (None, None) => true,
        (Some(h), Some(d)) => !verbatim(h) ==> joined(h, CODEX_DIR_NAME@, d),
        _ => false,
    }
}

/// The user's Codex directory: `.codex` in `USERPROFILE`, else in `HOME`.
pub fn codex_home_dir(env: &EnvVars) -> (dir: Option<String>)
    ensures
        codex_home(env@, opt_view(dir)),
{
    proof {
        reveal_strlit(".codex");
    }
    let home = match env.get("USERPROFILE") {
        Some(h) => Some(h),
        None => env.get("HOME"),
    };
    match home {
        Some(h) => Some(path_join(h.as_str(), CODEX_DIR_NAME)),
        None => None,
    }
}

/// The Codex thread that launched this process, if any (`CODEX_THREAD_ID`).
pub fn codex_thread_id(env: &EnvVars) -> (id: Option<String>)
    ensures
        opt_view(id) == (if env@.contains_key("CODEX_THREAD_ID"@) {
            Some(env@["CODEX_THREAD_ID"@])
        } else {
            None
        }),
{
    match env.get("CODEX_THREAD_ID") {
        Some(t) => Some(t.clone()),
        None => None,
    }
}

/// The project directory recovered from Codex's records: when a thread id is
/// known, the process-manager match for it, else the session match for it;
/// failing that, the latest process-manager entry, else the latest session.
pub fn discover_root_from_codex_thread(
    has_thread_id: bool,
    thread_in_processes: Option<String>,
    thread_in_sessions: Option<String>,
    any_in_processes: Option<String>,
    any_in_sessions: Option<String>,
) -> (root: Option<String>)
    ensures
        root == (if has_thread_id && (thread_in_processes is Some || thread_in_sessions is Some) {
            if thread_in_processes is Some {
                thread_in_processes
            } else {
                thread_in_sessions
            }
        } else if any_in_processes is Some {
            any_in_processes
        } else {
            any_in_sessions
        }),
{
    if has_thread_id {
        if let Some(p) = thread_in_processes {
            return Some(p);
        }
        if let Some(p) = thread_in_sessions {
            return Some(p);
        }
    }
    match any_in_processes {
        Some(p) => Some(p),
        None => any_in_sessions,
    }
}

/// One entry of Codex's process-manager list, as read from its JSON.
#[derive(Debug, Clone)]
pub struct ProcessEntry {
    /// The `cwd` field when it is a string.
    pub cwd: Option<String>,
    /// The `updatedAtMs` field when it is an integer that fits `i64`.
    pub updated_at_ms: Option<i64>,
    /// The `conversationId` field when it is a string.
    pub conversation_id: Option<String>,
}

/// The fields of a process-list entry, by their values.
pub open spec fn process_entry_fields(e: ProcessEntry) -> (Option<Seq<char>>, Option<i64>, Option<
    Seq<char>,
>) {
    (opt_view(e.cwd), e.updated_at_ms, opt_view(e.conversation_id))
}

/// What `serde_json` reads from the text of Codex's process list: for each
/// element of the top-level JSON array, its `cwd` and `conversationId` when
/// they are strings and its `updatedAtMs` when it is an `i64`; `None` when
/// the text is not a JSON array.
pub uninterp spec fn process_list_json(text: Seq<char>) -> Option<
    Seq<(Option<Seq<char>>, Option<i64>, Option<Seq<char>>)>,
>;

/// Reads Codex's process list with `serde_json::from_str` and picks each
/// element's fields (`Value::get`, `Value::as_str`, `Value::as_i64`).
#[verifier::external_body]
fn json_process_list(text: &str) -> (r: Option<Vec<ProcessEntry>>)
    ensures
        match (r, process_list_json(text@)) {
            (Some(v), Some(w)) => v@.map_values(|e: ProcessEntry| process_entry_fields(e)) == w,
            (None, None) => true,
            _ => false,
        },
{
    let items: Vec<serde_json::Value> = serde_json::from_str(text).ok()?;
    Some(items.iter().map(|item| ProcessEntry {
        cwd: item.get("cwd").and_then(serde_json::Value::as_str).map(String::from),
        updated_at_ms: item.get("updatedAtMs").and_then(serde_json::Value::as_i64),
        conversation_id: item.get("conversationId").and_then(serde_json::Value::as_str).map(String::from),
    }).collect())
}

/// The entries of Codex's process list (`process_manager/chat_processes.json`),
/// or `None` when the text is not a JSON array.
pub fn parse_process_list(text: &str) -> (r: Option<Vec<ProcessEntry>>)
    ensures
        match (r, process_list_json(text@)) {
            (Some(v), Some(w)) => v@.map_values(|e: ProcessEntry| process_entry_fields(e)) == w,
            (None, None) => true,
            _ => false,
        },
{
    json_process_list(text)
}

/// The entry names a directory that leads to a project and, when a thread
/// is given, that thread.
pub open spec fn process_eligible(e: ProcessEntry, has_env: bool, thread: Option<Seq<char>>) -> bool {
    &&& e.cwd is Some
    &&& has_env
    &&& match thread {
        Some(t) => opt_view(e.conversation_id) == Some(t),
        None => true,
    }
}

/// An entry's update time, 0 when it has none.
pub open spec fn updated_at(e: ProcessEntry) -> i64 {
    match e.updated_at_ms {
        Some(t) => t,
        None => 0,
    }
}

/// `i` is the chosen entry: eligible, most recently updated, and the last of
/// those that tie.
pub open spec fn latest_process(
    entries: Seq<ProcessEntry>,
    has_env: Seq<bool>,
    thread: Option<Seq<char>>,
    i: int,
) -> bool {
    &&& 0 <= i < entries.len()
    &&& process_eligible(entries[i], has_env[i], thread)
    &&& forall|j: int|
        0 <= j < entries.len() && process_eligible(#[trigger] entries[j], has_env[j], thread)
            ==> updated_at(entries[j]) <= updated_at(entries[i])
    &&& forall|j: int|
        i < j < entries.len() && process_eligible(#[trigger] entries[j], has_env[j], thread)
            ==> updated_at(entries[j]) < updated_at(entries[i])
}

/// The working directory of the most recently updated eligible entry (the
/// last one among ties), if any entry is eligible; `has_project_env[i]`
/// tells whether a project env file is found from entry `i`'s directory.
pub fn find_cwd_in_process_manager(
    entries: &Vec<ProcessEntry>,
    has_project_env: &Vec<bool>,
    thread_id: Option<&str>,
) -> (cwd: Option<String>)
    requires
        entries.len() == has_project_env.len(),
    ensures
        match cwd {
            Some(c) => exists|i: int|
                latest_process(entries@, has_project_env@, opt_str_view(thread_id), i)
                    && entries@[i].cwd is Some && entries@[i].cwd->0@ == c@,
            None => forall|j: int|
                0 <= j < entries@.len() ==> !process_eligible(
                    #[trigger] entries@[j],
                    has_project_env@[j],
                    opt_str_view(thread_id),
                ),
        },
{
    let ghost t = opt_str_view(thread_id);
    let mut best: Option<usize> = None;
    let mut i: usize = 0;
    while i < entries.len()
        invariant
            entries.len() == has_project_env.len(),
            i <= entries.len(),
            t == opt_str_view(thread_id),
            match best {
                Some(b) => b < i && process_eligible(entries@[b as int], has_project_env@[b as int], t)
                    && (forall|j: int|
                    0 <= j < i && process_eligible(#[trigger] entries@[j], has_project_env@[j], t)
                        ==> updated_at(entries@[j]) <= updated_at(entries@[b as int])) && (forall|
                    j: int,
                |
                    b < j < i && process_eligible(#[trigger] entries@[j], has_project_env@[j], t)
                        ==> updated_at(entries@[j]) < updated_at(entries@[b as int])),
                None => forall|j: int|
                    0 <= j < i ==> !process_eligible(#[trigger] entries@[j], has_project_env@[j], t),
            },
        decreases entries.len() - i,
    {
        let e = &entries[i];
        let matches = match thread_id {
            Some(id) => match &e.conversation_id {
                Some(c) => str_equal(c.as_str(), id),
                None => false,
            },
            None => true,
        };
        let updated = match e.updated_at_ms {
            Some(u) => u,
            None => 0,
        };
        if e.cwd.is_some() && has_project_env[i] && matches {
            assert(process_eligible(entries@[i as int], has_project_env@[i as int], t));
            match best {
                Some(b) => {
                    let best_updated = match entries[b].updated_at_ms {
                        Some(u) => u,
                        None => 0,
                    };
                    if best_updated <= updated {
                        best = Some(i);
                    }
                },
                None => {
                    best = Some(i);
                },
            }
        } else {
            assert(!process_eligible(entries@[i as int], has_project_env@[i as int], t));
        }
        i = i + 1;
    }
    match best {
        Some(b) => {
            assert(latest_process(entries@, has_project_env@, t, b as int));
            match &entries[b].cwd {
                Some(c) => Some(c.clone()),
                None => None,
            }
        },
        None => None,
    }
}

/// The first line of a Codex session file, as read from its JSON.
#[derive(Debug, Clone)]
pub struct SessionHead {
    /// The `timestamp` field when it is a string.
    pub timestamp: Option<String>,
    /// The payload's `cwd` field when it is a string.
    pub cwd: Option<String>,
    /// The payload's `session_id` field when it is a string.
    pub session_id: Option<String>,
    /// The payload's `id` field when it is a string.
    pub id: Option<String>,
}

/// The fields of a session head, by their values.
pub open spec fn session_head_fields(h: SessionHead) -> (
    Option<Seq<char>>,
    Option<Seq<char>>,
    Option<Seq<char>>,
    Option<Seq<char>>,
) {
    (opt_view(h.timestamp), opt_view(h.cwd), opt_view(h.session_id), opt_view(h.id))
}

/// What `serde_json` reads from the first line of a session file: its
/// `timestamp`, and its `payload` object's `cwd`, `session_id` and `id`, each
/// when it is a string; `None` when the line is not JSON or has no `payload`.
pub uninterp spec fn session_head_json(line: Seq<char>) -> Option<
    (Option<Seq<char>>, Option<Seq<char>>, Option<Seq<char>>, Option<Seq<char>>),
>;

/// Reads a session file's first line with `serde_json::from_str` and picks
/// its fields (`Value::get`, `Value::as_str`).
#[verifier::external_body]
fn json_session_head(line: &str) -> (r: Option<SessionHead>)
    ensures
        match (r, session_head_json(line@)) {
            (Some(h), Some(w)) => session_head_fields(h) == w,
            (None, None) => true,
            _ => false,
        },
{
    let record: serde_json::Value = serde_json::from_str(line).ok()?;
    let payload = record.get("payload")?;
    let text = |v: &serde_json::Value, key: &str| v.get(key).and_then(serde_json::Value::as_str).map(String::from);
    Some(SessionHead {
        timestamp: text(&record, "timestamp"),
        cwd: text(payload, "cwd"),
        session_id: text(payload, "session_id"),
        id: text(payload, "id"),
    })
}

/// The head of a session file, read from its first line, or `None` when the
/// line is not JSON or has no `payload`.
pub fn parse_session_head(line: &str) -> (r: Option<SessionHead>)
    ensures
        match (r, session_head_json(line@)) {
            (Some(h), Some(w)) => session_head_fields(h) == w,
            (None, None) => true,
            _ => false,
        },
{
    json_session_head(line)
}

/// The session's timestamp and working directory, when it has both, its
/// working directory leads to a project, and (when a thread is given) its
/// session id or id is that thread.
pub open spec fn session_candidate_spec(h: SessionHead, has_env: bool, thread: Option<Seq<char>>) -> Option<
    (Seq<char>, Seq<char>),
> {
    if h.timestamp is Some && h.cwd is Some && has_env && match thread {
        Some(t) => opt_view(h.session_id) == Some(t) || opt_view(h.id) == Some(t),
        None => true,
    } {
        Some((h.timestamp->0@, h.cwd->0@))
    } else {
        None
    }
}

fn same_id(a: &Option<String>, b: &str) -> (r: bool)
    ensures
        r == (opt_view(*a) == Some(b@)),
{
    match a {
        Some(a) => str_equal(a.as_str(), b),
        None => false,
    }
}

/// The session's timestamp and working directory, if the session qualifies;
/// `has_project_env` tells whether a project env file is found from its directory.
pub fn find_cwd_in_session_file(head: &SessionHead, has_project_env: bool, thread_id: Option<&str>) -> (r:
    Option<(String, String)>)
    ensures
        match (r, session_candidate_spec(*head, has_project_env, opt_str_view(thread_id))) {
            (Some((ts, cwd)), Some((sts, scwd))) => ts@ == sts && cwd@ == scwd,
            (None, None) => true,
            _ => false,
        },
{
    let timestamp = match &head.timestamp {
        Some(t) => t,
        None => return None,
    };
    let cwd = match &head.cwd {
        Some(c) => c,
        None => return None,
    };
    if !has_project_env {
        return None;
    }
    let matches = match thread_id {
        Some(t) => same_id(&head.session_id, t) || same_id(&head.id, t),
        None => true,
    };
    if matches {
        Some((timestamp.clone(), cwd.clone()))
    } else {
        None
    }
}

/// Lexicographic order on characters, which is the byte order of UTF-8 text.
pub open spec fn text_less(a: Seq<char>, b: Seq<char>) -> bool
    decreases a.len(),
{
    if b.len() == 0 {
        false
    } else if a.len() == 0 {
        true
    } else if a[0] != b[0] {
        a[0] < b[0]
    } else {
        text_less(a.drop_first(), b.drop_first())
    }
}

/// The order of text is lexicographic from the first character: a common
/// beginning does not matter, the first differing character decides, and
/// the empty text comes before any other.
pub proof fn law_text_order(s: Seq<char>, t: Seq<char>, u: Seq<char>, x: char, y: char)
    ensures
        text_less(s + t, s + u) == text_less(t, u),
        x != y ==> text_less(seq![x] + t, seq![y] + u) == (x < y),
        text_less(Seq::empty(), seq![x] + t),
        !text_less(t, Seq::empty()),
    decreases s.len(),
{
    if s.len() == 0 {
        assert(s + t =~= t);
        assert(s + u =~= u);
    } else {
        law_text_order(s.drop_first(), t, u, x, y);
        assert((s + t).drop_first() =~= s.drop_first() + t);
        assert((s + u).drop_first() =~= s.drop_first() + u);
        assert((s + t)[0] == s[0] && (s + u)[0] == s[0]);
    }
    assert((seq![x] + t)[0] == x);
    assert((seq![y] + u)[0] == y);
}

pub proof fn lemma_text_less_irreflexive(a: Seq<char>)
    ensures
        !text_less(a, a),
    decreases a.len(),
{
    if a.len() > 0 {
        lemma_text_less_irreflexive(a.drop_first());
    }
}

pub proof fn lemma_text_less_transitive(a: Seq<char>, b: Seq<char>, c: Seq<char>)
    requires
        text_less(a, b),
        text_less(b, c),
    ensures
        text_less(a, c),
    decreases a.len(),
{
    if a.len() > 0 && b.len() > 0 && c.len() > 0 && a[0] == b[0] && b[0] == c[0] {
        lemma_text_less_transitive(a.drop_first(), b.drop_first(), c.drop_first());
    }
}

pub proof fn lemma_text_less_total(a: Seq<char>, b: Seq<char>)
    ensures
        a == b || text_less(a, b) || text_less(b, a),
    decreases a.len(),
{
    if a.len() > 0 && b.len() > 0 && a[0] == b[0] {
        lemma_text_less_total(a.drop_first(), b.drop_first());
        if a.drop_first() == b.drop_first() {
            assert(a =~= seq![a[0]] + a.drop_first());
            assert(b =~= seq![b[0]] + b.drop_first());
        }
    } else if a.len() == 0 && b.len() == 0 {
        assert(a =~= b);
    }
}

/// Compares two strings by their characters.
pub fn string_less(a: &str, b: &str) -> (r: bool)
    ensures
        r == text_less(a@, b@),
{
    let x = chars_of(a);
    let y = chars_of(b);
    let mut i: usize = 0;
    assert(x@.subrange(0, x@.len() as int) =~= x@);
    assert(y@.subrange(0, y@.len() as int) =~= y@);
    while i < x.len() && i < y.len() && x[i] == y[i]
        invariant
            i <= x.len(),
            i <= y.len(),
            x@ == a@,
            y@ == b@,
            text_less(a@, b@) == text_less(x@.subrange(i as int, x@.len() as int), y@.subrange(
                i as int,
                y@.len() as int,
            )),
        decreases x.len() - i,
    {
        assert(x@.subrange(i as int, x@.len() as int).drop_first() =~= x@.subrange(
            i + 1,
            x@.len() as int,
        ));
        assert(y@.subrange(i as int, y@.len() as int).drop_first() =~= y@.subrange(
            i + 1,
            y@.len() as int,
        ));
        i = i + 1;
    }
    if i == y.len() {
        false
    } else if i == x.len() {
        true
    } else {
        x[i] < y[i]
    }
}

/// `i` is the chosen session: the earliest of those with the greatest timestamp.
pub open spec fn best_session(c: Seq<(String, String)>, i: int) -> bool {
    &&& 0 <= i < c.len()
    &&& forall|j: int| 0 <= j < c.len() ==> !text_less(c[i].0@, #[trigger] c[j].0@)
    &&& forall|j: int| 0 <= j < i ==> text_less(#[trigger] c[j].0@, c[i].0@)
}

/// The working directory of the session with the greatest timestamp among
/// `candidates` (listed in directory order; the first one wins a tie).
pub fn find_cwd_in_sessions(candidates: &Vec<(String, String)>) -> (cwd: Option<String>)
    ensures
        match cwd {
            Some(c) => exists|i: int| best_session(candidates@, i) && candidates@[i].1@ == c@,
            None => candidates@.len() == 0,
        },
{
    if candidates.len() == 0 {
        return None;
    }
    proof {
        lemma_text_less_irreflexive(candidates@[0].0@);
    }
    let mut b: usize = 0;
    let mut i: usize = 1;
    while i < candidates.len()
        invariant
            b < i <= candidates.len(),
            forall|j: int| 0 <= j < i ==> !text_less(candidates@[b as int].0@, #[trigger] candidates@[j].0@),
            forall|j: int| 0 <= j < b ==> text_less(#[trigger] candidates@[j].0@, candidates@[b as int].0@),
        decreases candidates.len() - i,
    {
        if string_less(candidates[b].0.as_str(), candidates[i].0.as_str()) {
            proof {
                assert forall|j: int| 0 <= j < i + 1 implies !text_less(
                    candidates@[i as int].0@,
                    #[trigger] candidates@[j].0@,
                ) by {
                    if j < i {
                        if text_less(candidates@[i as int].0@, candidates@[j].0@) {
                            lemma_text_less_transitive(
                                candidates@[b as int].0@,
                                candidates@[i as int].0@,
                                candidates@[j].0@,
                            );
                        }
                    } else {
                        lemma_text_less_irreflexive(candidates@[i as int].0@);
                    }
                }
                assert forall|j: int| 0 <= j < i implies text_less(
                    #[trigger] candidates@[j].0@,
                    candidates@[i as int].0@,
                ) by {
                    lemma_text_less_total(candidates@[b as int].0@, candidates@[j].0@);
                    if candidates@[b as int].0@ != candidates@[j].0@ && !text_less(
                        candidates@[j].0@,
                        candidates@[b as int].0@,
                    ) {
                    } else if candidates@[b as int].0@ == candidates@[j].0@ {
                    } else {
                        lemma_text_less_transitive(
                            candidates@[j].0@,
                            candidates@[b as int].0@,
                            candidates@[i as int].0@,
                        );
                    }
                }
            }
            b = i;
        }
        i = i + 1;
    }
    assert(best_session(candidates@, b as int));
    Some(candidates[b].1.clone())
}

/// The chosen session has the latest timestamp (timestamps compared as
/// text, from the first character): every other candidate's timestamp is
/// earlier or equal, and every candidate before it is strictly earlier.
pub proof fn law_latest_session_wins(c: Seq<(String, String)>, i: int, j: int)
    requires
        best_session(c, i),
        0 <= j < c.len(),
    ensures
        c[j].0@ == c[i].0@ || text_less(c[j].0@, c[i].0@),
        j < i ==> text_less(c[j].0@, c[i].0@),
        !text_less(c[i].0@, c[j].0@),
{
    lemma_text_less_total(c[i].0@, c[j].0@);
}

/// The chosen process-manager entry has a working directory, a project env
/// file, and the requested thread (when one is given); its `updatedAtMs`
/// (0 when absent) is the greatest among such entries, and no later such
/// entry has the same value.
pub proof fn law_latest_process_wins(
    entries: Seq<ProcessEntry>,
    has_env: Seq<bool>,
    thread: Option<Seq<char>>,
    i: int,
    j: int,
)
    requires
        latest_process(entries, has_env, thread, i),
        0 <= j < entries.len(),
        has_env[j],
        entries[j].cwd is Some,
        thread matches Some(t) ==> opt_view(entries[j].conversation_id) == Some(t),
    ensures
        entries[i].cwd is Some,
        has_env[i],
        thread matches Some(t) ==> opt_view(entries[i].conversation_id) == Some(t),
        (match entries[j].updated_at_ms {
            Some(x) => x as int,
            None => 0,
        }) <= (match entries[i].updated_at_ms {
            Some(x) => x as int,
            None => 0,
        }),
        i < j ==> (match entries[j].updated_at_ms {
            Some(x) => x as int,
            None => 0,
        }) < (match entries[i].updated_at_ms {
            Some(x) => x as int,
            None => 0,
        }),
{
    assert(process_eligible(entries[j], has_env[j], thread));
}

} // verus!
