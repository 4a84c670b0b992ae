//! The loaded projects: finding the one a route names, and deciding whether
//! a bearer token is accepted by any of them.
use vstd::prelude::*;

use crate::config::{opt_view, Config};
use crate::responses::{rejection, rejects, ErrorReply};
use crate::routing::{
    id_of_route_key, key_of_id, law_key_of_built_id, law_listed_model_routes_back,
    law_project_key_round_trip, project_id_from_key, project_key_from_id, routed_model,
    routed_name, starts_with, GLOBAL_PROJECT_ID, PROJECT_ID_PREFIX,
};
use crate::strmap::StrMap;
use crate::text::{chars_of, has_prefix_at, opt_str_view, push_str, str_equal};

verus! {

/// A loaded project: its settings, its upstream client and its response store.
pub struct ProjectRuntime<C, S> {
    pub config: Config,
    pub client: C,
    pub state: S,
}

impl<C, S> View for ProjectRuntime<C, S> {
    type V = ProjectRuntime<C, S>;

    open spec fn view(&self) -> ProjectRuntime<C, S> {
        *self
    }
}

/// The loaded projects by project identifier.
pub type ProjectTable<C, S> = StrMap<ProjectRuntime<C, S>>;

/// The key under which `project_id` is found: the identifier itself, else its
/// project key, else the identifier it names when read as a project key.
pub open spec fn runtime_key<V>(projects: Map<Seq<char>, V>, project_id: Seq<char>) -> Option<
    Seq<char>,
> {
    if projects.contains_key(project_id) {
        Some(project_id)
    } else if projects.contains_key(key_of_id(project_id)) {
        Some(key_of_id(project_id))
    } else if projects.contains_key(PROJECT_ID_PREFIX@ + project_id) {
        Some(PROJECT_ID_PREFIX@ + project_id)
    } else {
        None
    }
}

/// The project loaded under `project_id`, under its project key, or under the
/// identifier that `project_id` names as a key, in that order.
pub fn project_runtime<'a, C, S>(projects: &'a ProjectTable<C, S>, project_id: &str) -> (r: Option<
    &'a ProjectRuntime<C, S>,
>)
    ensures
        match runtime_key(projects@, project_id@) {
            Some(k) => r is Some && *r->0 == projects@[k],
            None => r is None,
        },
{
    if let Some(r) = projects.get(project_id) {
        return Some(r);
    }
    let key = project_key_from_id(project_id);
    if let Some(r) = projects.get(key.as_str()) {
        return Some(r);
    }
    let canonical = project_id_from_key(project_id);
    projects.get(canonical.as_str())
}

/// A model listed for a loaded project can be requested under its listed
/// name and reaches that same project: the name routes to the upstream model
/// and to an identifier under which the lookup finds the listing project.
/// Left out are the tables in which another project would be found first:
/// `mimo_adapter_global` beside a loaded `global`, and an identifier without
/// the `mimo_adapter_` prefix beside its prefixed form.
pub proof fn law_listed_model_reaches_its_project<V>(
    projects: Map<Seq<char>, V>,
    project_id: Seq<char>,
    model: Seq<char>,
)
    requires
        projects.contains_key(project_id),
        key_of_id(project_id).len() > 0,
        !key_of_id(project_id).contains('/'),
        model.len() > 0,
        key_of_id(project_id) == GLOBAL_PROJECT_ID@ && project_id != GLOBAL_PROJECT_ID@
            ==> !projects.contains_key(GLOBAL_PROJECT_ID@),
        !starts_with(project_id, PROJECT_ID_PREFIX@) && project_id != GLOBAL_PROJECT_ID@
            ==> !projects.contains_key(PROJECT_ID_PREFIX@ + project_id),
    ensures
        ({
            let routed = routed_model(routed_name(project_id, model));
            &&& routed is Ok
            &&& routed->Ok_0.1 == model
            &&& runtime_key(projects, routed->Ok_0.0) == Some(project_id)
        }),
{
    law_listed_model_routes_back(project_id, model);
    reveal_strlit("global");
    reveal_strlit("mimo_adapter_");
    let key = key_of_id(project_id);
    let target = id_of_route_key(key);
    if project_id == GLOBAL_PROJECT_ID@ {
        assert(!starts_with(project_id, PROJECT_ID_PREFIX@));
        assert(target == project_id);
    } else if starts_with(project_id, PROJECT_ID_PREFIX@) {
        if key != GLOBAL_PROJECT_ID@ {
            law_project_key_round_trip(project_id);
        } else {
            assert(target == GLOBAL_PROJECT_ID@);
            assert(!starts_with(GLOBAL_PROJECT_ID@, PROJECT_ID_PREFIX@));
            assert(PROJECT_ID_PREFIX@ + GLOBAL_PROJECT_ID@ =~= project_id);
        }
    } else {
        assert(key == project_id);
        assert(target == PROJECT_ID_PREFIX@ + project_id);
        law_key_of_built_id(project_id);
    }
}

/// The local token of `r` when it is set and not empty.
pub open spec fn usable_local_token<C, S>(r: ProjectRuntime<C, S>) -> Option<Seq<char>> {
    match opt_view(r.config.local_token) {
        Some(t) => if t.len() > 0 {
            Some(t)
        } else {
            None
        },
        None => None,
    }
}

/// `accepted` is an answer that `runtime` may give for `raw_token` with the
/// token check `check`: `false` without a usable local token, and otherwise
/// an answer that `check` may give for the raw token and the local token.
pub open spec fn may_answer<C, S, F: Fn(&str, &str) -> bool>(
    runtime: ProjectRuntime<C, S>,
    raw_token: &str,
    check: F,
    accepted: bool,
) -> bool {
    match usable_local_token(runtime) {
        Some(t) => exists|local: &str| local@ == t && call_ensures(check, (raw_token, local), accepted),
        None => !accepted,
    }
}

/// Whether `runtime` accepts `raw_token`: it needs a non-empty local token,
/// against which `check` (given the raw token and the local token) decides.
pub fn runtime_accepts_token<C, S, F: Fn(&str, &str) -> bool>(
    runtime: &ProjectRuntime<C, S>,
    raw_token: &str,
    check: &F,
) -> (accepted: bool)
    requires
        forall|a: &str, b: &str| #[trigger] check.requires((a, b)),
    ensures
        may_answer(*runtime, raw_token, *check, accepted),
{
    match &runtime.config.local_token {
        Some(local) => {
            let t = local.as_str();
            if t.unicode_len() == 0 {
                false
            } else {
                let accepted = check(raw_token, t);
                assert(call_ensures(*check, (raw_token, t), accepted));
                accepted
            }
        },
        None => false,
    }
}

/// Why a request was refused.
#[derive(Debug, Clone, Copy, PartialEq, Eq, Structural)]
pub enum AuthError {
    /// No readable `Authorization` header.
    MissingHeader,
    /// The header does not start with `Bearer `.
    NotBearer,
    /// No loaded project accepts the token.
    InvalidToken,
}

impl AuthError {
    pub open spec fn spec_message(self) -> Seq<char> {
        match self {
            AuthError::MissingHeader => "Missing Authorization header. Provide a valid Bearer token."@,
            AuthError::NotBearer => "Invalid Authorization format. Expected 'Bearer <token>'."@,
            AuthError::InvalidToken => "Invalid or expired adapter token. Run 'codex-mimo-adapter auth print-local-token' again."@,
        }
    }

    /// The message sent with the refusal.
    pub fn message(&self) -> (m: &'static str)
        ensures
            m@ == self.spec_message(),
    {
        match self {
            AuthError::MissingHeader => "Missing Authorization header. Provide a valid Bearer token.",
            AuthError::NotBearer => "Invalid Authorization format. Expected 'Bearer <token>'.",
            AuthError::InvalidToken => "Invalid or expired adapter token. Run 'codex-mimo-adapter auth print-local-token' again.",
        }
    }
}

pub open spec fn bearer_prefix() -> Seq<char> {
    "Bearer "@
}

/// The token of an `Authorization` header value (`Bearer <token>`).
pub open spec fn bearer_of(header: Option<Seq<char>>) -> Result<Seq<char>, AuthError> {
    match header {
        None => Err(AuthError::MissingHeader),
        Some(h) => if bearer_prefix().len() <= h.len() && h.subrange(0, bearer_prefix().len() as int)
            == bearer_prefix() {
            Ok(h.subrange(bearer_prefix().len() as int, h.len() as int))
        } else {
            Err(AuthError::NotBearer)
        },
    }
}

/// The bearer token in an `Authorization` header value, if it is one.
pub fn adapter_bearer_token(header: Option<&str>) -> (r: Result<&str, AuthError>)
    ensures
        match (r, bearer_of(opt_str_view(header))) {
            (Ok(t), Ok(u)) => t@ == u,
            (Err(e), Err(f)) => e == f,
            _ => false,
        },
{
    match header {
        None => Err(AuthError::MissingHeader),
        Some(h) => {
            let v = chars_of(h);
            let p = chars_of("Bearer ");
            if has_prefix_at(&v, 0, &p) {
                Ok(h.substring_char(p.len(), v.len()))
            } else {
                Err(AuthError::NotBearer)
            }
        },
    }
}

/// Some loaded project accepts `token`: for one of them the token check,
/// given the token and that project's local token, may answer `true`.
pub open spec fn accepted_by_some<C, S, F: Fn(&str, &str) -> bool>(
    projects: Map<Seq<char>, ProjectRuntime<C, S>>,
    token: Seq<char>,
    check: F,
) -> bool {
    exists|k: Seq<char>, raw: &str|
        #![trigger projects.contains_key(k), raw@]
        projects.contains_key(k) && raw@ == token && may_answer(projects[k], raw, check, true)
}

/// Every loaded project refuses `token`: for each of them the token check may
/// answer `false` (or the project has no usable local token).
pub open spec fn refused_by_all<C, S, F: Fn(&str, &str) -> bool>(
    projects: Map<Seq<char>, ProjectRuntime<C, S>>,
    token: Seq<char>,
    check: F,
) -> bool {
    exists|raw: &str|
        raw@ == token && forall|k: Seq<char>| #[trigger]
            projects.contains_key(k) ==> may_answer(projects[k], raw, check, false)
}

/// No loaded project has a usable (set and non-empty) local token, so
/// authentication is skipped.
pub open spec fn auth_skipped<C, S>(projects: Map<Seq<char>, ProjectRuntime<C, S>>) -> bool {
    forall|k: Seq<char>| #[trigger]
        projects.contains_key(k) ==> usable_local_token(projects[k]) is None
}

/// Whether some loaded project has a usable local token.
pub fn any_local_token<C, S>(projects: &ProjectTable<C, S>) -> (b: bool)
    ensures
        b == !auth_skipped(projects@),
{
    let n = projects.len();
    let mut i: usize = 0;
    while i < n
        invariant
            n == projects.key_seq().len(),
            i <= n,
            forall|j: int|
                0 <= j < i ==> usable_local_token(projects@[#[trigger] projects.key_seq()[j]])
                    is None,
        decreases n - i,
    {
        let runtime = projects.value_at(i);
        match &runtime.config.local_token {
            Some(t) => {
                if t.as_str().unicode_len() > 0 {
                    proof {
                        let k = projects.key_seq()[i as int];
                        assert(projects@.contains_key(k) && usable_local_token(projects@[k])
                            is Some);
                    }
                    return true;
                }
            },
            None => {},
        }
        i = i + 1;
    }
    proof {
        assert forall|k: Seq<char>| #[trigger] projects@.contains_key(k) implies usable_local_token(
            projects@[k],
        ) is None by {
            let j = choose|j: int| 0 <= j < n && projects.key_seq()[j] == k;
        }
    }
    false
}

/// Accepts every request when no loaded project has a usable local token
/// (an empty token skips authentication); otherwise accepts a request whose
/// bearer token some loaded project accepts.
pub fn authorize_adapter<C, S, F: Fn(&str, &str) -> bool>(
    projects: &ProjectTable<C, S>,
    header: Option<&str>,
    check: &F,
) -> (r: Result<(), AuthError>)
    requires
        forall|a: &str, b: &str| #[trigger] check.requires((a, b)),
    ensures
        auth_skipped(projects@) ==> r == Ok::<(), AuthError>(()),
        !auth_skipped(projects@) ==> ({
            match bearer_of(opt_str_view(header)) {
                Err(e) => r == Err::<(), AuthError>(e),
                Ok(token) => match r {
                    Ok(()) => accepted_by_some(projects@, token, *check),
                    Err(e) => e == AuthError::InvalidToken && refused_by_all(
                        projects@,
                        token,
                        *check,
                    ),
                },
            }
        }),
{
    if !any_local_token(projects) {
        return Ok(());
    }
    let raw_token = match adapter_bearer_token(header) {
        Ok(t) => t,
        Err(e) => return Err(e),
    };
    assert(bearer_of(opt_str_view(header)) == Ok::<Seq<char>, AuthError>(raw_token@));
    let n = projects.len();
    let mut i: usize = 0;
    while i < n
        invariant
            n == projects.key_seq().len(),
            i <= n,
            forall|a: &str, b: &str| #[trigger] check.requires((a, b)),
            bearer_of(opt_str_view(header)) == Ok::<Seq<char>, AuthError>(raw_token@),
            forall|j: int|
                0 <= j < i ==> may_answer(
                    projects@[#[trigger] projects.key_seq()[j]],
                    raw_token,
                    *check,
                    false,
                ),
        decreases n - i,
    {
        let runtime = projects.value_at(i);
        if runtime_accepts_token(runtime, raw_token, check) {
            let ghost k = projects.key_seq()[i as int];
            assert(projects@.contains_key(k) && raw_token@ == raw_token@ && may_answer(
                projects@[k],
                raw_token,
                *check,
                true,
            ));
            return Ok(());
        }
        i = i + 1;
    }
    assert forall|k: Seq<char>| #[trigger] projects@.contains_key(k) implies may_answer(
        projects@[k],
        raw_token,
        *check,
        false,
    ) by {
        let j = choose|j: int| 0 <= j < n && projects.key_seq()[j] == k;
    }
    Err(AuthError::InvalidToken)
}

/// The identifiers in `ids`, by their characters.
pub open spec fn id_views(ids: Seq<String>) -> Seq<Seq<char>> {
    ids.map_values(|s: String| s@)
}

/// Whether a loaded project stays after a registry reload: the global project
/// always stays, any other only while it is registered.
pub open spec fn stays_loaded(id: Seq<char>, registered: Seq<Seq<char>>) -> bool {
    id == GLOBAL_PROJECT_ID@ || registered.contains(id)
}

/// True when `id` is one of `ids`.
pub fn contains_id(ids: &Vec<String>, id: &str) -> (b: bool)
    ensures
        b == id_views(ids@).contains(id@),
{
    let mut i: usize = 0;
    while i < ids.len()
        invariant
            i <= ids.len(),
            forall|j: int| 0 <= j < i ==> ids@[j]@ != id@,
        decreases ids.len() - i,
    {
        if str_equal(ids[i].as_str(), id) {
            assert(id_views(ids@)[i as int] == id@);
            return true;
        }
        i = i + 1;
    }
    assert forall|j: int| 0 <= j < id_views(ids@).len() implies id_views(ids@)[j] != id@ by {
        assert(id_views(ids@)[j] == ids@[j]@);
    }
    false
}

/// Drops every loaded project that is neither the global project nor in
/// `registered`, keeping the others as they were, and returns the dropped
/// identifiers, each once.
pub fn remove_unregistered<C, S>(
    projects: &mut ProjectTable<C, S>,
    registered: &Vec<String>,
) -> (removed: Vec<String>)
    ensures
        forall|k: Seq<char>|
            #[trigger] final(projects)@.contains_key(k) <==> old(projects)@.contains_key(k)
                && stays_loaded(k, id_views(registered@)),
        forall|k: Seq<char>|
            #[trigger] final(projects)@.contains_key(k) ==> final(projects)@[k] == old(
                projects,
            )@[k],
        forall|k: Seq<char>|
            #[trigger] id_views(removed@).contains(k) <==> old(projects)@.contains_key(k)
                && !stays_loaded(k, id_views(registered@)),
        forall|i: int, j: int|
            0 <= i < removed@.len() && 0 <= j < removed@.len() && i != j ==> #[trigger] removed@[i]@
                != #[trigger] removed@[j]@,
{
    let ghost reg = id_views(registered@);
    let ghost before = projects@;
    let n = projects.len();
    let mut doomed: Vec<String> = Vec::new();
    let mut i: usize = 0;
    while i < n
        invariant
            n == projects.key_seq().len(),
            i <= n,
            projects@ == before,
            reg == id_views(registered@),
            forall|j: int| 0 <= j < n ==> projects@.contains_key(#[trigger] projects.key_seq()[j]),
            forall|a: int, b: int|
                0 <= a < n && 0 <= b < n && a != b ==> #[trigger] projects.key_seq()[a]
                    != #[trigger] projects.key_seq()[b],
            forall|k: Seq<char>|
                #[trigger] id_views(doomed@).contains(k) <==> exists|j: int|
                    0 <= j < i && projects.key_seq()[j] == k && !stays_loaded(k, reg),
            forall|a: int, b: int|
                0 <= a < doomed@.len() && 0 <= b < doomed@.len() && a != b
                    ==> #[trigger] doomed@[a]@ != #[trigger] doomed@[b]@,
            forall|a: int|
                0 <= a < doomed@.len() ==> exists|j: int|
                    0 <= j < i && projects.key_seq()[j] == #[trigger] doomed@[a]@,
        decreases n - i,
    {
        let key = projects.key_at(i);
        let global = crate::text::str_equal(key.as_str(), GLOBAL_PROJECT_ID);
        let listed = contains_id(registered, key.as_str());
        let ghost before_push = doomed@;
        if !global && !listed {
            doomed.push(key.clone());
            proof {
                assert(id_views(doomed@) =~= id_views(before_push).push(key@));
                assert forall|a: int| 0 <= a < before_push.len() implies before_push[a]@ != key@ by {
                    let j = choose|j: int| 0 <= j < i && projects.key_seq()[j] == #[trigger] before_push[a]@;
                }
            }
        }
        proof {
            assert forall|k: Seq<char>| #[trigger] id_views(doomed@).contains(k) <==> exists|j: int|
                0 <= j < i + 1 && projects.key_seq()[j] == k && !stays_loaded(k, reg) by {
                if id_views(doomed@).contains(k) {
                    if !id_views(before_push).contains(k) {
                        let a = choose|a: int| 0 <= a < id_views(doomed@).len() && id_views(doomed@)[a] == k;
                        assert(a == before_push.len());
                        assert(projects.key_seq()[i as int] == k);
                    }
                }
                if exists|j: int| 0 <= j < i + 1 && projects.key_seq()[j] == k && !stays_loaded(k, reg) {
                    let j = choose|j: int| 0 <= j < i + 1 && projects.key_seq()[j] == k && !stays_loaded(k, reg);
                    if j == i {
                        assert(id_views(doomed@)[doomed@.len() - 1] == k);
                    } else {
                        assert(id_views(before_push).contains(k));
                        let a = choose|a: int| 0 <= a < id_views(before_push).len() && id_views(before_push)[a] == k;
                        assert(id_views(doomed@)[a] == k);
                    }
                }
            }
        }
        i = i + 1;
    }
    let m = doomed.len();
    let mut j: usize = 0;
    while j < m
        invariant
            m == doomed@.len(),
            j <= m,
            forall|k: Seq<char>|
                #[trigger] projects@.contains_key(k) <==> before.contains_key(k)
                    && !id_views(doomed@).subrange(0, j as int).contains(k),
            forall|k: Seq<char>| #[trigger] projects@.contains_key(k) ==> projects@[k] == before[k],
        decreases m - j,
    {
        let ghost prev = projects@;
        let _ = projects.remove(doomed[j].as_str());
        proof {
            assert(projects@ == prev.remove(doomed@[j as int]@));
            assert forall|k: Seq<char>| #[trigger] projects@.contains_key(k) <==> before.contains_key(k)
                && !id_views(doomed@).subrange(0, j + 1).contains(k) by {
                let old_prefix = id_views(doomed@).subrange(0, j as int);
                let new_prefix = id_views(doomed@).subrange(0, j + 1);
                assert(new_prefix =~= old_prefix.push(doomed@[j as int]@));
                assert(new_prefix.contains(k) <==> (old_prefix.contains(k) || k == doomed@[j as int]@)) by {
                    if new_prefix.contains(k) {
                        let a = choose|a: int| 0 <= a < new_prefix.len() && new_prefix[a] == k;
                        if a < j {
                            assert(old_prefix[a] == k);
                        }
                    }
                    if old_prefix.contains(k) {
                        let a = choose|a: int| 0 <= a < old_prefix.len() && old_prefix[a] == k;
                        assert(new_prefix[a] == k);
                    }
                    if k == doomed@[j as int]@ {
                        assert(new_prefix[j as int] == k);
                    }
                }
            }
            assert forall|k: Seq<char>| #[trigger] projects@.contains_key(k) implies projects@[k] == before[k] by {
                assert(prev.contains_key(k));
            }
        }
        j = j + 1;
    }
    proof {
        assert(id_views(doomed@).subrange(0, m as int) =~= id_views(doomed@));
        assert forall|k: Seq<char>| #[trigger] before.contains_key(k) && !stays_loaded(k, reg)
            implies id_views(doomed@).contains(k) by {
            let j = choose|j: int| 0 <= j < n && projects.key_seq()[j] == k;
        }
    }
    doomed
}

/// The registered identifiers, in registry order, that are loaded in
/// `projects` (`loaded`) or that are not (`!loaded`).
pub open spec fn registered_where<V>(
    projects: Map<Seq<char>, V>,
    registered: Seq<Seq<char>>,
    loaded: bool,
) -> Seq<Seq<char>> {
    registered.filter(|id: Seq<char>| projects.contains_key(id) == loaded)
}

/// Splits the registered projects, in registry order, into those already
/// loaded and those a refresh has to load.
pub fn refresh_plan<C, S>(projects: &ProjectTable<C, S>, registered: &Vec<String>) -> (r: (
    Vec<String>,
    Vec<String>,
))
    ensures
        id_views(r.0@) == registered_where(projects@, id_views(registered@), true),
        id_views(r.1@) == registered_where(projects@, id_views(registered@), false),
{
    let ghost ids = id_views(registered@);
    let ghost loaded_pred = |id: Seq<char>| projects@.contains_key(id) == true;
    let ghost missing_pred = |id: Seq<char>| projects@.contains_key(id) == false;
    let mut loaded: Vec<String> = Vec::new();
    let mut missing: Vec<String> = Vec::new();
    let mut i: usize = 0;
    proof {
        reveal(Seq::filter);
        assert(ids.subrange(0, 0).filter(loaded_pred) =~= Seq::<Seq<char>>::empty());
        assert(ids.subrange(0, 0).filter(missing_pred) =~= Seq::<Seq<char>>::empty());
    }
    while i < registered.len()
        invariant
            i <= registered.len(),
            ids == id_views(registered@),
            loaded_pred == (|id: Seq<char>| projects@.contains_key(id) == true),
            missing_pred == (|id: Seq<char>| projects@.contains_key(id) == false),
            id_views(loaded@) == ids.subrange(0, i as int).filter(loaded_pred),
            id_views(missing@) == ids.subrange(0, i as int).filter(missing_pred),
        decreases registered.len() - i,
    {
        let id = &registered[i];
        let ghost prefix = ids.subrange(0, i + 1);
        proof {
            reveal(Seq::filter);
            assert(prefix.drop_last() =~= ids.subrange(0, i as int));
            assert(prefix.last() == id@);
        }
        let ghost before_loaded = loaded@;
        let ghost before_missing = missing@;
        if projects.contains_key(id.as_str()) {
            loaded.push(id.clone());
            assert(id_views(loaded@) =~= id_views(before_loaded).push(id@));
        } else {
            missing.push(id.clone());
            assert(id_views(missing@) =~= id_views(before_missing).push(id@));
        }
        i = i + 1;
    }
    assert(ids.subrange(0, registered@.len() as int) =~= ids);
    (loaded, missing)
}

/// A refresh accounts for every registered project exactly once: each is
/// either already loaded or to be loaded, never both, and nothing else is in
/// either list.
pub proof fn law_refresh_plan_partitions<V>(
    projects: Map<Seq<char>, V>,
    registered: Seq<Seq<char>>,
    id: Seq<char>,
)
    ensures
        registered.contains(id) <==> (registered_where(projects, registered, true).contains(id)
            || registered_where(projects, registered, false).contains(id)),
        registered_where(projects, registered, true).contains(id) ==> projects.contains_key(id),
        registered_where(projects, registered, false).contains(id) ==> !projects.contains_key(id),
{
    let loaded_pred = |k: Seq<char>| projects.contains_key(k) == true;
    let missing_pred = |k: Seq<char>| projects.contains_key(k) == false;
    let loaded = registered.filter(loaded_pred);
    let missing = registered.filter(missing_pred);
    if registered.contains(id) {
        let i = choose|i: int| 0 <= i < registered.len() && registered[i] == id;
        if projects.contains_key(id) {
            registered.lemma_filter_contains(loaded_pred, i);
        } else {
            registered.lemma_filter_contains(missing_pred, i);
        }
    }
    if loaded.contains(id) {
        registered.lemma_filter_contains_rev(loaded_pred, id);
        let j = choose|j: int| 0 <= j < loaded.len() && loaded[j] == id;
        registered.lemma_filter_pred(loaded_pred, j);
    }
    if missing.contains(id) {
        registered.lemma_filter_contains_rev(missing_pred, id);
        let j = choose|j: int| 0 <= j < missing.len() && missing[j] == id;
        registered.lemma_filter_pred(missing_pred, j);
    }
}

/// Why a refresh could not load a registered project.
#[derive(Debug, Clone)]
pub enum RefreshFailure {
    /// The project root holds no env file.
    MissingEnvFile,
    /// The env file could not be read; the reader's message.
    ReadEnv(String),
    /// The settings do not resolve.
    BadConfig(crate::config::ConfigError),
    /// The response store could not be opened; its message.
    StateInit(String),
    /// The upstream client could not be built; its message.
    ClientInit(String),
}

impl RefreshFailure {
    pub open spec fn spec_reason(self) -> Seq<char> {
        match self {
            RefreshFailure::MissingEnvFile => "missing env file"@,
            RefreshFailure::ReadEnv(m) => "read env failed: "@ + m@,
            RefreshFailure::BadConfig(e) => "bad config: "@ + e.spec_message(),
            RefreshFailure::StateInit(m) => "state init failed: "@ + m@,
            RefreshFailure::ClientInit(m) => "client init failed: "@ + m@,
        }
    }

    /// The reason reported for the project in the refresh answer.
    pub fn reason(&self) -> (m: String)
        ensures
            m@ == self.spec_reason(),
    {
        let mut m = String::new();
        match self {
            RefreshFailure::MissingEnvFile => push_str(&mut m, "missing env file"),
            RefreshFailure::ReadEnv(e) => {
                push_str(&mut m, "read env failed: ");
                push_str(&mut m, e.as_str());
            },
            RefreshFailure::BadConfig(e) => {
                push_str(&mut m, "bad config: ");
                let t = e.message();
                push_str(&mut m, t.as_str());
            },
            RefreshFailure::StateInit(e) => {
                push_str(&mut m, "state init failed: ");
                push_str(&mut m, e.as_str());
            },
            RefreshFailure::ClientInit(e) => {
                push_str(&mut m, "client init failed: ");
                push_str(&mut m, e.as_str());
            },
        }
        m
    }
}

/// What a refresh got when it tried to load a project.
pub type LoadOutcome<C, S> = (String, Result<ProjectRuntime<C, S>, RefreshFailure>);

/// The loaded projects after the refresh stores every project it could
/// load, in order.
pub open spec fn after_loads<C, S>(
    projects: Map<Seq<char>, ProjectRuntime<C, S>>,
    outcomes: Seq<LoadOutcome<C, S>>,
) -> Map<Seq<char>, ProjectRuntime<C, S>>
    decreases outcomes.len(),
{
    if outcomes.len() == 0 {
        projects
    } else {
        let before = after_loads(projects, outcomes.drop_last());
        match outcomes.last().1 {
            Ok(runtime) => before.insert(outcomes.last().0@, runtime),
            Err(_) => before,
        }
    }
}

/// The identifiers of the projects that were loaded, in order.
pub open spec fn added_ids<C, S>(outcomes: Seq<LoadOutcome<C, S>>) -> Seq<Seq<char>>
    decreases outcomes.len(),
{
    if outcomes.len() == 0 {
        Seq::empty()
    } else {
        let before = added_ids(outcomes.drop_last());
        if outcomes.last().1 is Ok {
            before.push(outcomes.last().0@)
        } else {
            before
        }
    }
}

/// The projects that could not be loaded, with their reasons, in order.
pub open spec fn failed_reports<C, S>(outcomes: Seq<LoadOutcome<C, S>>) -> Seq<(Seq<char>, Seq<char>)>
    decreases outcomes.len(),
{
    if outcomes.len() == 0 {
        Seq::empty()
    } else {
        let before = failed_reports(outcomes.drop_last());
        match outcomes.last().1 {
            Err(f) => before.push((outcomes.last().0@, f.spec_reason())),
            Ok(_) => before,
        }
    }
}

/// The views of (identifier, reason) pairs.
pub open spec fn report_views(r: Seq<(String, String)>) -> Seq<(Seq<char>, Seq<char>)> {
    r.map_values(|p: (String, String)| (p.0@, p.1@))
}

/// Stores every project the refresh could load and reports the others:
/// returns the identifiers added and, for each project that failed, its
/// identifier and the reason.
pub fn load_refreshed<C, S>(
    projects: &mut ProjectTable<C, S>,
    outcomes: Vec<LoadOutcome<C, S>>,
) -> (r: (Vec<String>, Vec<(String, String)>))
    ensures
        final(projects)@ == after_loads(old(projects)@, outcomes@),
        r.0@.map_values(|a: String| a@) == added_ids(outcomes@),
        report_views(r.1@) == failed_reports(outcomes@),
{
    let ghost all = outcomes@;
    let ghost start = projects@;
    let mut rest = outcomes;
    let mut added: Vec<String> = Vec::new();
    let mut failed: Vec<(String, String)> = Vec::new();
    let n = rest.len();
    let mut i: usize = 0;
    while i < n
        invariant
            n == all.len(),
            i <= n,
            rest@ == all.subrange(i as int, n as int),
            projects@ == after_loads(start, all.subrange(0, i as int)),
            added@.map_values(|a: String| a@) == added_ids(all.subrange(0, i as int)),
            report_views(failed@) == failed_reports(all.subrange(0, i as int)),
        decreases n - i,
    {
        let (id, outcome) = rest.remove(0);
        let ghost pre = all.subrange(0, i + 1);
        assert(pre.drop_last() =~= all.subrange(0, i as int));
        assert(pre.last() == all[i as int]);
        assert(rest@ =~= all.subrange(i + 1, n as int));
        let ghost added_before = added@;
        let ghost failed_before = failed@;
        match outcome {
            Ok(runtime) => {
                added.push(id.clone());
                projects.insert(id, runtime);
                assert(added@.map_values(|a: String| a@) =~= added_before.map_values(
                    |a: String| a@,
                ).push(all[i as int].0@));
            },
            Err(f) => {
                let reason = f.reason();
                failed.push((id, reason));
                assert(report_views(failed@) =~= report_views(failed_before).push(
                    (all[i as int].0@, f.spec_reason()),
                ));
            },
        }
        i = i + 1;
    }
    assert(all.subrange(0, n as int) =~= all);
    (added, failed)
}

/// A project is loaded after the refresh stores its loads exactly when it
/// was loaded before or some load of it succeeded.
proof fn lemma_after_loads_keys<C, S>(
    projects: Map<Seq<char>, ProjectRuntime<C, S>>,
    outcomes: Seq<LoadOutcome<C, S>>,
    k: Seq<char>,
)
    ensures
        after_loads(projects, outcomes).contains_key(k) <==> (projects.contains_key(k) || exists|
            i: int,
        |
            0 <= i < outcomes.len() && (#[trigger] outcomes[i]).0@ == k && outcomes[i].1 is Ok),
    decreases outcomes.len(),
{
    if outcomes.len() > 0 {
        let pre = outcomes.drop_last();
        lemma_after_loads_keys(projects, pre, k);
        if exists|i: int| 0 <= i < pre.len() && (#[trigger] pre[i]).0@ == k && pre[i].1 is Ok {
            let i = choose|i: int| 0 <= i < pre.len() && (#[trigger] pre[i]).0@ == k && pre[i].1 is Ok;
            assert(outcomes[i] == pre[i]);
        }
        if exists|i: int|
            0 <= i < outcomes.len() && (#[trigger] outcomes[i]).0@ == k && outcomes[i].1 is Ok {
            let i = choose|i: int|
                0 <= i < outcomes.len() && (#[trigger] outcomes[i]).0@ == k && outcomes[i].1 is Ok;
            if i < pre.len() {
                assert(pre[i] == outcomes[i]);
            }
        }
    }
}

/// A refresh settles: when every registered project that was not loaded is
/// loaded by it, a second refresh right after finds nothing left to load.
pub proof fn law_refresh_settles<C, S>(
    projects: Map<Seq<char>, ProjectRuntime<C, S>>,
    registered: Seq<Seq<char>>,
    outcomes: Seq<LoadOutcome<C, S>>,
)
    requires
        forall|id: Seq<char>|
            #[trigger] registered_where(projects, registered, false).contains(id) ==> exists|
                i: int,
            |
                0 <= i < outcomes.len() && (#[trigger] outcomes[i]).0@ == id && outcomes[i].1 is Ok,
    ensures
        registered_where(after_loads(projects, outcomes), registered, false).len() == 0,
{
    let after = after_loads(projects, outcomes);
    let missing = registered_where(after, registered, false);
    if missing.len() > 0 {
        let id = missing[0];
        assert(missing.contains(id));
        law_refresh_plan_partitions(after, registered, id);
        assert(registered.contains(id));
        law_refresh_plan_partitions(projects, registered, id);
        lemma_after_loads_keys(projects, outcomes, id);
        if !projects.contains_key(id) {
            assert(registered_where(projects, registered, false).contains(id));
        }
        assert(after.contains_key(id));
        assert(false);
    }
}

/// The loaded projects that stay after a registry reload, unchanged.
pub open spec fn kept<C, S>(
    projects: Map<Seq<char>, ProjectRuntime<C, S>>,
    registered: Seq<Seq<char>>,
) -> Map<Seq<char>, ProjectRuntime<C, S>> {
    Map::new(|k: Seq<char>| projects.contains_key(k) && stays_loaded(k, registered), |k: Seq<char>| projects[k])
}

/// The identifiers of a refresh's loads, in order.
pub open spec fn load_ids<C, S>(loads: Seq<LoadOutcome<C, S>>) -> Seq<Seq<char>> {
    loads.map_values(|o: LoadOutcome<C, S>| o.0@)
}

/// What a refresh reports.
#[derive(Debug)]
pub struct RefreshReport {
    /// The projects loaded by this refresh.
    pub added: Vec<String>,
    /// The registered projects that were loaded already.
    pub already_loaded: Vec<String>,
    /// The loaded projects dropped because they are no longer registered.
    pub removed: Vec<String>,
    /// The projects that could not be loaded, with the reason.
    pub failed: Vec<(String, String)>,
}

/// A refresh of the loaded projects against the registered identifiers
/// `registered`: drops the loaded projects that are neither registered nor
/// the global project, keeps the registered ones already loaded as they
/// are, and stores those of `loads` that succeeded. `loads` are the load
/// attempts of the registered projects that were not loaded, in registry
/// order (as [`refresh_plan`] lists them).
pub fn refresh_projects<C, S>(
    projects: &mut ProjectTable<C, S>,
    registered: &Vec<String>,
    loads: Vec<LoadOutcome<C, S>>,
) -> (r: RefreshReport)
    requires
        load_ids(loads@) == registered_where(old(projects)@, id_views(registered@), false),
    ensures
        final(projects)@ == after_loads(kept(old(projects)@, id_views(registered@)), loads@),
        id_views(r.already_loaded@) == registered_where(old(projects)@, id_views(registered@), true),
        r.added@.map_values(|a: String| a@) == added_ids(loads@),
        report_views(r.failed@) == failed_reports(loads@),
        forall|k: Seq<char>|
            #[trigger] id_views(r.removed@).contains(k) <==> old(projects)@.contains_key(k)
                && !stays_loaded(k, id_views(registered@)),
        forall|i: int, j: int|
            0 <= i < r.removed@.len() && 0 <= j < r.removed@.len() && i != j
                ==> #[trigger] r.removed@[i]@ != #[trigger] r.removed@[j]@,
{
    let ghost before = projects@;
    let ghost reg = id_views(registered@);
    let (already_loaded, _) = refresh_plan(projects, registered);
    let removed = remove_unregistered(projects, registered);
    assert(projects@ =~= kept(before, reg));
    let (added, failed) = load_refreshed(projects, loads);
    RefreshReport { added, already_loaded, removed, failed }
}

proof fn lemma_added_ids_contains<C, S>(loads: Seq<LoadOutcome<C, S>>, k: Seq<char>)
    ensures
        added_ids(loads).contains(k) <==> exists|i: int|
            0 <= i < loads.len() && (#[trigger] loads[i]).0@ == k && loads[i].1 is Ok,
    decreases loads.len(),
{
    if loads.len() > 0 {
        let pre = loads.drop_last();
        lemma_added_ids_contains(pre, k);
        let a = added_ids(loads);
        let b = added_ids(pre);
        if a.contains(k) {
            let j = choose|j: int| 0 <= j < a.len() && a[j] == k;
            if j < b.len() {
                assert(b[j] == k);
                let i = choose|i: int| 0 <= i < pre.len() && (#[trigger] pre[i]).0@ == k && pre[i].1 is Ok;
                assert(loads[i] == pre[i]);
            } else {
                assert(loads[loads.len() - 1].0@ == k);
            }
        }
        if exists|i: int| 0 <= i < loads.len() && (#[trigger] loads[i]).0@ == k && loads[i].1 is Ok {
            let i = choose|i: int| 0 <= i < loads.len() && (#[trigger] loads[i]).0@ == k && loads[i].1 is Ok;
            if i < pre.len() {
                assert(pre[i] == loads[i]);
                assert(b.contains(k));
                let j = choose|j: int| 0 <= j < b.len() && b[j] == k;
                assert(a[j] == k);
            } else {
                assert(a[a.len() - 1] == k);
            }
        }
    }
}

proof fn lemma_failed_reports_contains<C, S>(loads: Seq<LoadOutcome<C, S>>, k: Seq<char>)
    ensures
        (exists|j: int| 0 <= j < failed_reports(loads).len() && (#[trigger] failed_reports(loads)[j]).0 == k)
            <==> exists|i: int| 0 <= i < loads.len() && (#[trigger] loads[i]).0@ == k && loads[i].1 is Err,
    decreases loads.len(),
{
    if loads.len() > 0 {
        let pre = loads.drop_last();
        lemma_failed_reports_contains(pre, k);
        let a = failed_reports(loads);
        let b = failed_reports(pre);
        if exists|j: int| 0 <= j < a.len() && (#[trigger] a[j]).0 == k {
            let j = choose|j: int| 0 <= j < a.len() && (#[trigger] a[j]).0 == k;
            if j < b.len() {
                assert(b[j] == a[j]);
                let i = choose|i: int| 0 <= i < pre.len() && (#[trigger] pre[i]).0@ == k && pre[i].1 is Err;
                assert(loads[i] == pre[i]);
            } else {
                assert(loads[loads.len() - 1].0@ == k);
            }
        }
        if exists|i: int| 0 <= i < loads.len() && (#[trigger] loads[i]).0@ == k && loads[i].1 is Err {
            let i = choose|i: int| 0 <= i < loads.len() && (#[trigger] loads[i]).0@ == k && loads[i].1 is Err;
            if i < pre.len() {
                assert(pre[i] == loads[i]);
                let j = choose|j: int| 0 <= j < b.len() && (#[trigger] b[j]).0 == k;
                assert(a[j] == b[j]);
            } else {
                assert(a[a.len() - 1].0 == k);
            }
        }
    }
}

proof fn lemma_after_loads_untouched<C, S>(
    projects: Map<Seq<char>, ProjectRuntime<C, S>>,
    loads: Seq<LoadOutcome<C, S>>,
    k: Seq<char>,
)
    requires
        forall|i: int| 0 <= i < loads.len() ==> (#[trigger] loads[i]).0@ != k,
    ensures
        after_loads(projects, loads).contains_key(k) == projects.contains_key(k),
        projects.contains_key(k) ==> after_loads(projects, loads)[k] == projects[k],
    decreases loads.len(),
{
    if loads.len() > 0 {
        let pre = loads.drop_last();
        assert forall|i: int| 0 <= i < pre.len() implies (#[trigger] pre[i]).0@ != k by {
            assert(pre[i] == loads[i]);
        }
        lemma_after_loads_untouched(projects, pre, k);
        assert(loads[loads.len() - 1].0@ != k);
    }
}

/// Every load of a refresh is of a registered project that was not loaded.
proof fn lemma_loads_are_missing<C, S>(
    projects: Map<Seq<char>, ProjectRuntime<C, S>>,
    registered: Seq<Seq<char>>,
    loads: Seq<LoadOutcome<C, S>>,
    i: int,
)
    requires
        load_ids(loads) == registered_where(projects, registered, false),
        0 <= i < loads.len(),
    ensures
        !projects.contains_key(loads[i].0@),
        registered.contains(loads[i].0@),
{
    let missing = registered_where(projects, registered, false);
    assert(load_ids(loads)[i] == loads[i].0@);
    assert(missing[i] == loads[i].0@);
    law_refresh_plan_partitions(projects, registered, loads[i].0@);
}

/// What a refresh does to the loaded projects: afterwards a project is
/// loaded exactly when it was loaded and is still registered (or is the
/// global project), or it was added; the added and the failed projects are
/// together exactly the registered projects that were not loaded; and the
/// registered projects that were loaded keep their runtimes, unreloaded.
pub proof fn law_refresh_outcome<C, S>(
    projects: Map<Seq<char>, ProjectRuntime<C, S>>,
    registered: Seq<Seq<char>>,
    loads: Seq<LoadOutcome<C, S>>,
    k: Seq<char>,
)
    requires
        load_ids(loads) == registered_where(projects, registered, false),
    ensures
        after_loads(kept(projects, registered), loads).contains_key(k) <==> (projects.contains_key(k)
            && stays_loaded(k, registered)) || added_ids(loads).contains(k),
        registered_where(projects, registered, false).contains(k) <==> (added_ids(loads).contains(k)
            || exists|j: int|
            0 <= j < failed_reports(loads).len() && (#[trigger] failed_reports(loads)[j]).0 == k),
        projects.contains_key(k) && registered.contains(k) ==> after_loads(
            kept(projects, registered),
            loads,
        ).contains_key(k) && after_loads(kept(projects, registered), loads)[k] == projects[k],
{
    let m = kept(projects, registered);
    lemma_after_loads_keys(m, loads, k);
    lemma_added_ids_contains(loads, k);
    lemma_failed_reports_contains(loads, k);
    let missing = registered_where(projects, registered, false);
    if missing.contains(k) {
        let j = choose|j: int| 0 <= j < missing.len() && missing[j] == k;
        assert(load_ids(loads)[j] == loads[j].0@);
        assert(loads[j].0@ == k);
    }
    if exists|i: int| 0 <= i < loads.len() && (#[trigger] loads[i]).0@ == k {
        let i = choose|i: int| 0 <= i < loads.len() && (#[trigger] loads[i]).0@ == k;
        assert(load_ids(loads)[i] == k);
        assert(missing[i] == k);
        assert(missing.contains(k));
        lemma_loads_are_missing(projects, registered, loads, i);
    }
    if projects.contains_key(k) && registered.contains(k) {
        assert forall|i: int| 0 <= i < loads.len() implies (#[trigger] loads[i]).0@ != k by {
            lemma_loads_are_missing(projects, registered, loads, i);
        }
        lemma_after_loads_untouched(m, loads, k);
    }
}

/// A second refresh right after one, with nothing changed, removes nothing,
/// finds loaded every registered project the first one kept or added, and
/// has only the first one's failures left to load; when those fail again it
/// leaves the loaded projects as they are.
pub proof fn law_second_refresh<C, S>(
    projects: Map<Seq<char>, ProjectRuntime<C, S>>,
    registered: Seq<Seq<char>>,
    loads: Seq<LoadOutcome<C, S>>,
    retries: Seq<LoadOutcome<C, S>>,
    k: Seq<char>,
)
    requires
        load_ids(loads) == registered_where(projects, registered, false),
        forall|i: int| 0 <= i < retries.len() ==> (#[trigger] retries[i]).1 is Err,
    ensures
        ({
            let after = after_loads(kept(projects, registered), loads);
            &&& after.contains_key(k) ==> stays_loaded(k, registered)
            &&& kept(after, registered) == after
            &&& registered.contains(k) && (projects.contains_key(k) || added_ids(loads).contains(k))
                ==> registered_where(after, registered, true).contains(k)
            &&& registered_where(after, registered, false).contains(k) ==> exists|j: int|
                0 <= j < failed_reports(loads).len() && (#[trigger] failed_reports(loads)[j]).0 == k
            &&& after_loads(kept(after, registered), retries) == after
        }),
{
    let after = after_loads(kept(projects, registered), loads);
    assert forall|x: Seq<char>| #[trigger] after.contains_key(x) implies stays_loaded(x, registered) by {
        law_refresh_outcome(projects, registered, loads, x);
        lemma_added_ids_contains(loads, x);
        if !(projects.contains_key(x) && stays_loaded(x, registered)) {
            let i = choose|i: int| 0 <= i < loads.len() && (#[trigger] loads[i]).0@ == x && loads[i].1 is Ok;
            lemma_loads_are_missing(projects, registered, loads, i);
        }
    }
    assert(kept(after, registered) =~= after);
    law_refresh_outcome(projects, registered, loads, k);
    law_refresh_plan_partitions(after, registered, k);
    law_refresh_plan_partitions(projects, registered, k);
    if registered_where(after, registered, false).contains(k) {
        lemma_added_ids_contains(loads, k);
        if !projects.contains_key(k) {
            assert(registered_where(projects, registered, false).contains(k));
        }
    }
    let again = after_loads(after, retries);
    assert forall|x: Seq<char>| #[trigger] again.contains_key(x) == after.contains_key(x) by {
        lemma_retries_change_nothing(after, retries, x);
    }
    assert forall|x: Seq<char>| after.contains_key(x) implies #[trigger] again[x] == after[x] by {
        lemma_retries_change_nothing(after, retries, x);
    }
    assert(again =~= after);
}

proof fn lemma_retries_change_nothing<C, S>(
    projects: Map<Seq<char>, ProjectRuntime<C, S>>,
    loads: Seq<LoadOutcome<C, S>>,
    k: Seq<char>,
)
    requires
        forall|i: int| 0 <= i < loads.len() ==> (#[trigger] loads[i]).1 is Err,
    ensures
        after_loads(projects, loads).contains_key(k) == projects.contains_key(k),
        projects.contains_key(k) ==> after_loads(projects, loads)[k] == projects[k],
    decreases loads.len(),
{
    if loads.len() > 0 {
        let pre = loads.drop_last();
        assert forall|i: int| 0 <= i < pre.len() implies (#[trigger] pre[i]).1 is Err by {
            assert(pre[i] == loads[i]);
        }
        lemma_retries_change_nothing(projects, pre, k);
        assert(loads[loads.len() - 1].1 is Err);
    }
}

/// How a request body read as JSON.
#[derive(Debug, Clone)]
pub enum BodyShape {
    /// A JSON object.
    Object,
    /// JSON that is not an object.
    NotObject,
    /// Not JSON; the parser's message.
    Invalid(String),
}

/// A request admitted for a loaded project.
pub struct Admitted<'a, C, S> {
    /// The project the route names.
    pub project_id: String,
    /// The model to ask the upstream service for.
    pub upstream_model: String,
    /// The project that serves it.
    pub runtime: &'a ProjectRuntime<C, S>,
}

pub open spec fn not_loaded_message(project_id: Seq<char>) -> Seq<char> {
    "Project route "@ + project_id
        + " is not loaded. Run 'codex-mimo-adapter init' for that project and call POST /admin/refresh."@
}

/// How a body shape reads: `Ok(is_object)` for JSON, `Err(message)` for
/// text that is not JSON.
pub open spec fn shape_view(shape: BodyShape) -> Result<bool, Seq<char>> {
    match shape {
        BodyShape::Object => Ok(true),
        BodyShape::NotObject => Ok(false),
        BodyShape::Invalid(m) => Err(m@),
    }
}

/// The checks that follow a passed authorization: the routed project is
/// loaded, and the body (`len` bytes as re-serialized) is within its size
/// limit.
pub open spec fn loaded_checks<'a, C, S>(
    projects: Map<Seq<char>, ProjectRuntime<C, S>>,
    pid: Seq<char>,
    up: Seq<char>,
    len: nat,
    r: Result<Admitted<'a, C, S>, ErrorReply>,
) -> bool {
    match r {
        Err(rej) => {
            ||| (runtime_key(projects, pid) is None && rejects(
                rej,
                400,
                "project_not_found"@,
                not_loaded_message(pid),
                false,
            ))
            ||| (runtime_key(projects, pid) is Some && len > projects[runtime_key(
                projects,
                pid,
            )->0].config.max_request_bytes && rejects(
                rej,
                413,
                "request_too_large"@,
                "Invalid request size"@,
                false,
            ))
        },
        Ok(a) => a.project_id@ == pid && a.upstream_model@ == up && runtime_key(projects, pid)
            is Some && *a.runtime == projects[runtime_key(projects, pid)->0] && len
            <= a.runtime.config.max_request_bytes,
    }
}

/// The answer to a Responses request whose body reads as `shape`, naming
/// `model`, with `Authorization` header `header`: in order, the body is a
/// JSON object, it names a model, the model is a routed name, the bearer
/// token is accepted (unless authentication is skipped), the routed project
/// is loaded, and the body is within that project's size limit.
pub open spec fn admission<'a, C, S, F: Fn(&str, &str) -> bool>(
    shape: Result<bool, Seq<char>>,
    model: Option<Seq<char>>,
    header: Option<Seq<char>>,
    projects: Map<Seq<char>, ProjectRuntime<C, S>>,
    check: F,
    len: nat,
    r: Result<Admitted<'a, C, S>, ErrorReply>,
) -> bool {
    match shape {
        Err(m) => r is Err && rejects(r->Err_0, 400, "invalid_request_error"@, m, false),
        Ok(false) => r is Err && rejects(
            r->Err_0,
            400,
            "invalid_request_error"@,
            "request body must be an object"@,
            false,
        ),
        Ok(true) => match model {
            None => r is Err && rejects(
                r->Err_0,
                400,
                "invalid_request_error"@,
                "model is required"@,
                false,
            ),
            Some(m) => match crate::routing::routed_model(m) {
                Err(e) => r is Err && rejects(r->Err_0, 400, "invalid_model"@, e, true),
                Ok((pid, up)) => if auth_skipped(projects) {
                    loaded_checks(projects, pid, up, len, r)
                } else {
                    match bearer_of(header) {
                        Err(e) => r is Err && rejects(
                            r->Err_0,
                            401,
                            "unauthorized"@,
                            e.spec_message(),
                            false,
                        ),
                        Ok(token) => match r {
                            Err(rej) => {
                                ||| (rejects(
                                    rej,
                                    401,
                                    "unauthorized"@,
                                    AuthError::InvalidToken.spec_message(),
                                    false,
                                ) && refused_by_all(projects, token, check))
                                ||| (accepted_by_some(projects, token, check) && loaded_checks(
                                    projects,
                                    pid,
                                    up,
                                    len,
                                    r,
                                ))
                            },
                            Ok(_) => accepted_by_some(projects, token, check) && loaded_checks(
                                projects,
                                pid,
                                up,
                                len,
                                r,
                            ),
                        },
                    }
                },
            },
        },
    }
}

/// The checks a Responses request passes before it is sent upstream, in
/// order: the body is a JSON object, it names a model, the model is a routed
/// name, the bearer token is accepted (or no project has a local token), the
/// routed project is loaded, and the body (as re-serialized,
/// `serialized_len` bytes) is within that project's size limit.
pub fn admit_request<'a, C, S, F: Fn(&str, &str) -> bool>(
    shape: BodyShape,
    model: Option<&str>,
    header: Option<&str>,
    projects: &'a ProjectTable<C, S>,
    check: &F,
    serialized_len: usize,
) -> (r: Result<Admitted<'a, C, S>, ErrorReply>)
    requires
        forall|a: &str, b: &str| #[trigger] check.requires((a, b)),
    ensures
        admission(
            shape_view(shape),
            opt_str_view(model),
            opt_str_view(header),
            projects@,
            *check,
            serialized_len as nat,
            r,
        ),
{
    match shape {
        BodyShape::NotObject => {
            return Err(
                rejection(400, "invalid_request_error", "request body must be an object", false),
            );
        },
        BodyShape::Invalid(m) => {
            return Err(rejection(400, "invalid_request_error", m.as_str(), false));
        },
        BodyShape::Object => {},
    }
    let model = match model {
        Some(m) => m,
        None => {
            return Err(rejection(400, "invalid_request_error", "model is required", false));
        },
    };
    let (project_id, upstream_model) = match crate::routing::parse_routed_model(model) {
        Ok(route) => route,
        Err(message) => {
            return Err(rejection(400, "invalid_model", message, true));
        },
    };
    match authorize_adapter(projects, header, check) {
        Ok(()) => {},
        Err(e) => {
            return Err(rejection(401, "unauthorized", e.message(), false));
        },
    }
    let runtime = match project_runtime(projects, project_id.as_str()) {
        Some(r) => r,
        None => {
            let mut m = String::new();
            push_str(&mut m, "Project route ");
            push_str(&mut m, project_id.as_str());
            push_str(
                &mut m,
                " is not loaded. Run 'codex-mimo-adapter init' for that project and call POST /admin/refresh.",
            );
            return Err(rejection(400, "project_not_found", m.as_str(), false));
        },
    };
    if serialized_len > runtime.config.max_request_bytes {
        return Err(rejection(413, "request_too_large", "Invalid request size", false));
    }
    Ok(Admitted { project_id, upstream_model, runtime })
}


/// What the Responses endpoint reads from a request body.
#[derive(Debug, Clone)]
pub struct RequestFacts {
    /// Whether the body is JSON, and a JSON object.
    pub shape: BodyShape,
    /// The `model` field when it is a string.
    pub model: Option<String>,
    /// The `stream` field when it is a boolean.
    pub stream: Option<bool>,
    /// The length in bytes of the body as `serde_json` writes it back.
    pub serialized_len: usize,
}

/// What `serde_json` reads from a request body: `Err` with the parser's
/// message when the text is not JSON; otherwise whether the value is an
/// object, its `model` field when a string, its `stream` field when a
/// boolean, and the length in bytes of its compact serialization.
pub uninterp spec fn request_body_json(text: Seq<char>) -> Result<
    (bool, Option<Seq<char>>, Option<bool>, nat),
    Seq<char>,
>;

/// Reads a request body with `serde_json::from_str` into a `Value` and takes
/// `Value::is_object`, `Value::get` with `as_str`/`as_bool`, and the length
/// of `Value::to_string`; a parse failure gives the error's `to_string`.
#[verifier::external_body]
fn read_request_body(body: &str) -> (r: RequestFacts)
    ensures
        match request_body_json(body@) {
            Err(m) => r.shape matches BodyShape::Invalid(x) && x@ == m,
            Ok((object, model, stream, len)) => (if object {
                r.shape is Object
            } else {
                r.shape is NotObject
            }) && opt_view(r.model) == model && r.stream == stream && r.serialized_len as nat
                == len,
        },
{
    match serde_json::from_str::<serde_json::Value>(body) {
        Err(error) => RequestFacts { shape: BodyShape::Invalid(error.to_string()), model: None, stream: None, serialized_len: 0 },
        Ok(value) => RequestFacts {
            shape: if value.is_object() { BodyShape::Object } else { BodyShape::NotObject },
            model: value.get("model").and_then(serde_json::Value::as_str).map(String::from),
            stream: value.get("stream").and_then(serde_json::Value::as_bool),
            serialized_len: value.to_string().len(),
        },
    }
}

/// A header byte that `HeaderValue::to_str` accepts: visible ASCII or a tab.
pub open spec fn visible_ascii(b: u8) -> bool {
    (32 <= b && b < 127) || b == 9
}

/// The bytes of an optional header value.
pub open spec fn opt_bytes_view(value: Option<&[u8]>) -> Option<Seq<u8>> {
    match value {
        Some(v) => Some(v@),
        None => None,
    }
}

/// A header value as text: its bytes as characters when every byte is
/// visible ASCII (or a tab), else nothing, so that such a header counts as
/// missing.
pub open spec fn header_view(value: Option<Seq<u8>>) -> Option<Seq<char>> {
    match value {
        Some(v) => if forall|i: int| 0 <= i < v.len() ==> visible_ascii(#[trigger] v[i]) {
            Some(v.map_values(|b: u8| b as char))
        } else {
            None
        },
        None => None,
    }
}

/// The text of a header value, as `HeaderValue::to_str` reads it: `None`
/// unless every byte is visible ASCII or a tab.
pub fn header_text(value: &[u8]) -> (r: Option<String>)
    ensures
        opt_view(r) == header_view(Some(value@)),
{
    let mut t = String::new();
    let mut i: usize = 0;
    while i < value.len()
        invariant
            i <= value@.len(),
            forall|j: int| 0 <= j < i ==> visible_ascii(#[trigger] value@[j]),
            t@ == value@.subrange(0, i as int).map_values(|b: u8| b as char),
        decreases value.len() - i,
    {
        let b = value[i];
        if !((32 <= b && b < 127) || b == 9) {
            return None;
        }
        crate::text::push_char(&mut t, b as char);
        assert(value@.subrange(0, i + 1).map_values(|b: u8| b as char) =~= value@.subrange(
            0,
            i as int,
        ).map_values(|b: u8| b as char).push(b as char));
        i = i + 1;
    }
    assert(value@.subrange(0, value@.len() as int) =~= value@);
    Some(t)
}

/// The admission of a raw Responses request: the `Authorization` header
/// value is read as text (a value that is not visible ASCII counts as
/// missing), the body is read as JSON, and both are checked as
/// [`admit_request`] does; an admitted request also says
/// whether it asks for a stream (`stream`, `false` when absent).
pub fn admit_raw_request<'a, C, S, F: Fn(&str, &str) -> bool>(
    body: &str,
    header: Option<&[u8]>,
    projects: &'a ProjectTable<C, S>,
    check: &F,
) -> (r: Result<(Admitted<'a, C, S>, bool), ErrorReply>)
    requires
        forall|a: &str, b: &str| #[trigger] check.requires((a, b)),
    ensures
        match request_body_json(body@) {
            Err(m) => admission(
                Err(m),
                None,
                header_view(opt_bytes_view(header)),
                projects@,
                *check,
                0,
                match r {
                    Ok((a, _)) => Ok(a),
                    Err(e) => Err(e),
                },
            ),
            Ok((object, model, stream, len)) => admission(
                Ok(object),
                model,
                header_view(opt_bytes_view(header)),
                projects@,
                *check,
                len,
                match r {
                    Ok((a, _)) => Ok(a),
                    Err(e) => Err(e),
                },
            ) && (r matches Ok((_, st)) ==> st == match stream {
                Some(b) => b,
                None => false,
            }),
        },
{
    let header_value = match header {
        Some(v) => header_text(v),
        None => None,
    };
    let header_str = match &header_value {
        Some(h) => Some(h.as_str()),
        None => None,
    };
    let facts = read_request_body(body);
    let model = match &facts.model {
        Some(m) => Some(m.as_str()),
        None => None,
    };
    let stream = match facts.stream {
        Some(b) => b,
        None => false,
    };
    match admit_request(facts.shape, model, header_str, projects, check, facts.serialized_len) {
        Ok(a) => Ok((a, stream)),
        Err(e) => Err(e),
    }
}

} // verus!
