//! Routed model names (`mimo_adapter/<project_key>/mimo/<model>`) and the
//! project identifiers they name.
use vstd::prelude::*;

use crate::text::{
    chars_of, find_from, has_prefix_at, lemma_find_from_bounds, lemma_find_prefix_equal,
    lemma_no_char_find, push_str,
    string_from_range,
};

verus! {

/// The project that serves routes not tied to a registered project.
pub const GLOBAL_PROJECT_ID: &'static str = "global";

/// What every registered project identifier starts with.
pub const PROJECT_ID_PREFIX: &'static str = "mimo_adapter_";

/// What every routed model name starts with.
pub const ROUTED_MODEL_PREFIX: &'static str = "mimo_adapter/";

/// What the model part of a routed model name starts with.
pub const UPSTREAM_MODEL_PREFIX: &'static str = "mimo/";

pub open spec fn starts_with(s: Seq<char>, p: Seq<char>) -> bool {
    p.len() <= s.len() && s.subrange(0, p.len() as int) == p
}

/// The project key of a project identifier: the identifier without its
/// `mimo_adapter_` prefix, or the identifier itself when it lacks one.
pub open spec fn key_of_id(id: Seq<char>) -> Seq<char> {
    if starts_with(id, PROJECT_ID_PREFIX@) {
        id.subrange(PROJECT_ID_PREFIX@.len() as int, id.len() as int)
    } else {
        id
    }
}

/// The project identifier that a routed project key names.
pub open spec fn id_of_route_key(key: Seq<char>) -> Seq<char> {
    if key == GLOBAL_PROJECT_ID@ {
        GLOBAL_PROJECT_ID@
    } else {
        PROJECT_ID_PREFIX@ + key
    }
}

pub open spec fn msg_missing_prefix() -> Seq<char> {
    "model must use mimo_adapter/<project_key>/<real_model>. Run 'codex-mimo-adapter init' to refresh agent templates."@
}

pub open spec fn msg_missing_parts() -> Seq<char> {
    "model must include both project_key and real_model"@
}

pub open spec fn msg_empty_key() -> Seq<char> {
    "project_key is empty"@
}

pub open spec fn msg_empty_model() -> Seq<char> {
    "real model id is empty"@
}

pub open spec fn msg_missing_model_prefix() -> Seq<char> {
    "real_model must use the mimo/ prefix"@
}

/// The project identifier and upstream model that a routed model name
/// selects, or why it selects none.
pub open spec fn routed_model(m: Seq<char>) -> Result<(Seq<char>, Seq<char>), Seq<char>> {
    if !starts_with(m, ROUTED_MODEL_PREFIX@) {
        Err(msg_missing_prefix())
    } else {
        let rest = m.subrange(ROUTED_MODEL_PREFIX@.len() as int, m.len() as int);
        let i = find_from(rest, '/', 0);
        if i == rest.len() {
            Err(msg_missing_parts())
        } else {
            let key = rest.subrange(0, i);
            let model_part = rest.subrange(i + 1, rest.len() as int);
            if key.len() == 0 {
                Err(msg_empty_key())
            } else if model_part.len() == 0 {
                Err(msg_empty_model())
            } else if !starts_with(model_part, UPSTREAM_MODEL_PREFIX@) {
                Err(msg_missing_model_prefix())
            } else {
                let upstream = model_part.subrange(UPSTREAM_MODEL_PREFIX@.len() as int, model_part.len() as int);
                if upstream.len() == 0 {
                    Err(msg_empty_model())
                } else {
                    Ok((id_of_route_key(key), upstream))
                }
            }
        }
    }
}

/// The routed model name under which a project's upstream model is listed.
pub open spec fn routed_name(project_id: Seq<char>, model: Seq<char>) -> Seq<char> {
    ROUTED_MODEL_PREFIX@ + key_of_id(project_id) + seq!['/'] + UPSTREAM_MODEL_PREFIX@ + model
}

/// The project identifier for a project key (`mimo_adapter_<key>`).
pub fn project_id_from_key(key: &str) -> (id: String)
    ensures
        id@ == PROJECT_ID_PREFIX@ + key@,
{
    let mut id = String::new();
    push_str(&mut id, PROJECT_ID_PREFIX);
    push_str(&mut id, key);
    id
}

/// The project key of a project identifier: the identifier without its
/// `mimo_adapter_` prefix, or the whole identifier when it lacks one.
pub fn project_key_from_id(id: &str) -> (key: String)
    ensures
        key@ == key_of_id(id@),
{
    let v = chars_of(id);
    let p = chars_of(PROJECT_ID_PREFIX);
    if has_prefix_at(&v, 0, &p) {
        string_from_range(&v, p.len(), v.len())
    } else {
        string_from_range(&v, 0, v.len())
    }
}

/// Splits a routed model name into the project identifier it selects and the
/// upstream model id, or names what is wrong with it.
pub fn parse_routed_model(model: &str) -> (r: Result<(String, String), &'static str>)
    ensures
        match (r, routed_model(model@)) {
            (Ok((id, up)), Ok((sid, sup))) => id@ == sid && up@ == sup,
            (Err(e), Err(se)) => e@ == se,
            _ => false,
        },
{
    let m = chars_of(model);
    let pre = chars_of(ROUTED_MODEL_PREFIX);
    if !has_prefix_at(&m, 0, &pre) {
        return Err(
            "model must use mimo_adapter/<project_key>/<real_model>. Run 'codex-mimo-adapter init' to refresh agent templates.",
        );
    }
    let start = pre.len();
    let ghost rest = m@.subrange(start as int, m@.len() as int);
    let mut slash = start;
    while slash < m.len() && m[slash] != '/'
        invariant
            start <= slash <= m.len(),
            rest == m@.subrange(start as int, m@.len() as int),
            find_from(rest, '/', slash - start) == find_from(rest, '/', 0),
        decreases m.len() - slash,
    {
        slash = slash + 1;
    }
    assert(find_from(rest, '/', slash - start) == slash - start);
    if slash == m.len() {
        return Err("model must include both project_key and real_model");
    }
    assert(rest.subrange(0, slash - start) =~= m@.subrange(start as int, slash as int));
    assert(rest.subrange(slash - start + 1, rest.len() as int) =~= m@.subrange(
        slash + 1,
        m@.len() as int,
    ));
    if slash == start {
        return Err("project_key is empty");
    }
    if slash + 1 == m.len() {
        return Err("real model id is empty");
    }
    let up_pre = chars_of(UPSTREAM_MODEL_PREFIX);
    if !has_prefix_at(&m, slash + 1, &up_pre) {
        assert(!starts_with(m@.subrange(slash + 1, m@.len() as int), UPSTREAM_MODEL_PREFIX@)) by {
            if starts_with(m@.subrange(slash + 1, m@.len() as int), UPSTREAM_MODEL_PREFIX@) {
                assert(m@.subrange(slash + 1, slash + 1 + up_pre@.len()) =~= m@.subrange(
                    slash + 1,
                    m@.len() as int,
                ).subrange(0, up_pre@.len() as int));
            }
        }
        return Err("real_model must use the mimo/ prefix");
    }
    assert(m@.subrange(slash + 1, m@.len() as int).subrange(0, up_pre@.len() as int)
        =~= m@.subrange(slash + 1, slash + 1 + up_pre@.len()));
    let up_start = slash + 1 + up_pre.len();
    assert(m@.subrange(slash + 1, m@.len() as int).subrange(
        up_pre@.len() as int,
        m@.len() - (slash + 1),
    ) =~= m@.subrange(up_start as int, m@.len() as int));
    if up_start == m.len() {
        return Err("real model id is empty");
    }
    let key = string_from_range(&m, start, slash);
    let upstream = string_from_range(&m, up_start, m.len());
    let global = chars_of(GLOBAL_PROJECT_ID);
    let is_global = slash - start == global.len() && has_prefix_at(&m, start, &global);
    assert(is_global == (key@ == GLOBAL_PROJECT_ID@)) by {
        if slash - start == global.len() {
            assert(m@.subrange(start as int, start + global@.len()) == key@);
        }
    }
    let project_id = if is_global {
        let mut g = String::new();
        push_str(&mut g, GLOBAL_PROJECT_ID);
        g
    } else {
        project_id_from_key(key.as_str())
    };
    Ok((project_id, upstream))
}

/// The routed model name under which `model` of project `project_id` is listed.
pub fn routed_model_id(project_id: &str, model: &str) -> (name: String)
    ensures
        name@ == routed_name(project_id@, model@),
{
    let key = project_key_from_id(project_id);
    let mut name = String::new();
    push_str(&mut name, ROUTED_MODEL_PREFIX);
    push_str(&mut name, key.as_str());
    crate::text::push_char(&mut name, '/');
    push_str(&mut name, UPSTREAM_MODEL_PREFIX);
    push_str(&mut name, model);
    assert(name@ =~= routed_name(project_id@, model@));
    name
}

/// The model list entries of project `project_id` for the upstream's model
/// rows, in order: each row that carries an id is listed under its routed
/// name, and a row without one is left out.
pub open spec fn listed_names(project_id: Seq<char>, rows: Seq<Option<Seq<char>>>) -> Seq<Seq<char>>
    decreases rows.len(),
{
    if rows.len() == 0 {
        Seq::empty()
    } else {
        let before = listed_names(project_id, rows.drop_last());
        match rows.last() {
            Some(id) => before.push(routed_name(project_id, id)),
            None => before,
        }
    }
}

/// The views of optional strings.
pub open spec fn opt_views(rows: Seq<Option<String>>) -> Seq<Option<Seq<char>>> {
    rows.map_values(|o: Option<String>| match o {
        Some(s) => Some(s@),
        None => None,
    })
}

/// The model list entries of one project: the routed name of every upstream
/// model row that carries an id (`rows[i]` is that id, or `None`), in order.
pub fn listed_models(project_id: &str, rows: &Vec<Option<String>>) -> (names: Vec<String>)
    ensures
        names@.map_values(|n: String| n@) == listed_names(project_id@, opt_views(rows@)),
{
    let mut names: Vec<String> = Vec::new();
    let mut i: usize = 0;
    while i < rows.len()
        invariant
            i <= rows.len(),
            names@.map_values(|n: String| n@) == listed_names(
                project_id@,
                opt_views(rows@).subrange(0, i as int),
            ),
        decreases rows.len() - i,
    {
        let ghost before = names@;
        assert(opt_views(rows@).subrange(0, i + 1).drop_last() =~= opt_views(rows@).subrange(
            0,
            i as int,
        ));
        match &rows[i] {
            Some(id) => {
                let name = routed_model_id(project_id, id.as_str());
                names.push(name);
                assert(names@.map_values(|n: String| n@) =~= before.map_values(|n: String| n@).push(
                    name@,
                ));
            },
            None => {},
        }
        i = i + 1;
    }
    assert(opt_views(rows@).subrange(0, rows@.len() as int) =~= opt_views(rows@));
    names
}

/// The routed model name for project key `key` and upstream model `model`:
/// `mimo_adapter/<key>/mimo/<model>`.
pub open spec fn route_text(key: Seq<char>, model: Seq<char>) -> Seq<char> {
    ROUTED_MODEL_PREFIX@ + key + seq!['/'] + UPSTREAM_MODEL_PREFIX@ + model
}

proof fn lemma_route_text_parses(key: Seq<char>, model: Seq<char>)
    requires
        key.len() > 0,
        !key.contains('/'),
        model.len() > 0,
    ensures
        routed_model(route_text(key, model)) == Ok::<(Seq<char>, Seq<char>), Seq<char>>(
            (id_of_route_key(key), model),
        ),
{
    let pre = ROUTED_MODEL_PREFIX@;
    let up = UPSTREAM_MODEL_PREFIX@;
    let m = route_text(key, model);
    assert(m =~= pre + (key + (seq!['/'] + (up + model))));
    assert(m.subrange(0, pre.len() as int) =~= pre);
    let rest = m.subrange(pre.len() as int, m.len() as int);
    assert(rest =~= key + (seq!['/'] + (up + model)));
    lemma_no_char_find(key, '/', 0);
    lemma_find_prefix_equal(key, rest, '/', 0);
    assert(rest[key.len() as int] == '/');
    assert(find_from(rest, '/', 0) == key.len());
    assert(rest.subrange(0, key.len() as int) =~= key);
    let model_part = rest.subrange(key.len() as int + 1, rest.len() as int);
    assert(model_part =~= up + model);
    assert(model_part.subrange(0, up.len() as int) =~= up);
    assert(model_part.subrange(up.len() as int, model_part.len() as int) =~= model);
}

/// A model name routes exactly when it is `mimo_adapter/<key>/mimo/<model>`
/// with a non-empty key without `/` and a non-empty model (which may hold
/// `/`); it then routes to the project that the key names and to that model.
pub proof fn law_routed_model_split(m: Seq<char>)
    ensures
        routed_model(m) is Ok <==> exists|key: Seq<char>, model: Seq<char>|
            #[trigger] route_text(key, model) == m && key.len() > 0 && !key.contains('/')
                && model.len() > 0,
        forall|key: Seq<char>, model: Seq<char>|
            #[trigger] route_text(key, model) == m && key.len() > 0 && !key.contains('/')
                && model.len() > 0 ==> routed_model(m) == Ok::<(Seq<char>, Seq<char>), Seq<char>>(
                (id_of_route_key(key), model),
            ),
{
    assert forall|key: Seq<char>, model: Seq<char>|
        #[trigger] route_text(key, model) == m && key.len() > 0 && !key.contains('/')
            && model.len() > 0 implies routed_model(m) == Ok::<(Seq<char>, Seq<char>), Seq<char>>(
        (id_of_route_key(key), model),
    ) by {
        lemma_route_text_parses(key, model);
    }
    if routed_model(m) is Ok {
        let pre = ROUTED_MODEL_PREFIX@;
        let up = UPSTREAM_MODEL_PREFIX@;
        let rest = m.subrange(pre.len() as int, m.len() as int);
        let i = find_from(rest, '/', 0);
        lemma_find_from_bounds(rest, '/', 0);
        let key = rest.subrange(0, i);
        let model_part = rest.subrange(i + 1, rest.len() as int);
        let upstream = model_part.subrange(up.len() as int, model_part.len() as int);
        assert(!key.contains('/')) by {
            assert forall|j: int| 0 <= j < key.len() implies key[j] != '/' by {
                assert(key[j] == rest[j]);
            }
        }
        assert(model_part =~= up + upstream);
        assert(rest =~= key + (seq!['/'] + model_part));
        assert(m =~= pre + rest);
        assert(route_text(key, upstream) =~= m);
    }
}

/// A model listed under `routed_name(project_id, model)` routes back to the
/// project that the project key names and to the same upstream model, when
/// the key is not empty and holds no `/` and the model is not empty.
pub proof fn law_listed_model_routes_back(project_id: Seq<char>, model: Seq<char>)
    requires
        key_of_id(project_id).len() > 0,
        !key_of_id(project_id).contains('/'),
        model.len() > 0,
    ensures
        routed_model(routed_name(project_id, model)) == Ok::<
            (Seq<char>, Seq<char>),
            Seq<char>,
        >((id_of_route_key(key_of_id(project_id)), model)),
{
    lemma_route_text_parses(key_of_id(project_id), model);
    assert(routed_name(project_id, model) =~= route_text(key_of_id(project_id), model));
}

/// A registered project identifier (`mimo_adapter_<key>` with a key other
/// than `global`) and the global project identifier survive the trip through
/// their project key.
pub proof fn law_project_key_round_trip(project_id: Seq<char>)
    requires
        project_id == GLOBAL_PROJECT_ID@ || (starts_with(project_id, PROJECT_ID_PREFIX@)
            && key_of_id(project_id) != GLOBAL_PROJECT_ID@),
    ensures
        id_of_route_key(key_of_id(project_id)) == project_id,
{
    reveal_strlit("global");
    reveal_strlit("mimo_adapter_");
    if project_id == GLOBAL_PROJECT_ID@ {
        assert(!starts_with(project_id, PROJECT_ID_PREFIX@));
    } else {
        assert(PROJECT_ID_PREFIX@ + key_of_id(project_id) =~= project_id);
    }
}

/// The project key of `mimo_adapter_<key>` is `key`.
pub proof fn law_key_of_built_id(key: Seq<char>)
    ensures
        key_of_id(PROJECT_ID_PREFIX@ + key) == key,
{
    let id = PROJECT_ID_PREFIX@ + key;
    assert(id.subrange(0, PROJECT_ID_PREFIX@.len() as int) =~= PROJECT_ID_PREFIX@);
    assert(id.subrange(PROJECT_ID_PREFIX@.len() as int, id.len() as int) =~= key);
}

} // verus!
