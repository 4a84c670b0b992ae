use codex_mimo_adapter::config::{Config, ConfigKey, ConfigOverrides, EnvVars};
use codex_mimo_adapter::responses::{
    join_call_ids, previous_outcome, previous_source, PreviousSource,
    completion_failure_reply, early_failure_stream, failed_response, stream_failure_reply, CompletionFailure,
    completion_gate, stream_gate, UpstreamGate,
    StreamFailure, StreamFailureReply, chunk_failure_message, classify_stream_block, error_event_message, is_history_error_message, stream_end_action,
    truncate_chars, failed_response_message, upstream_error, upstream_http_status, upstream_stream_error_message,
    upstream_stream_error_type, StreamBlock, StreamEnd, UpstreamError, stream_step, StreamAction,
    StreamEvent, StreamPhase,
};
use codex_mimo_adapter::routing::{
    listed_models, parse_routed_model, project_id_from_key, project_key_from_id, routed_model_id,
};
use codex_mimo_adapter::runtime::{
    adapter_bearer_token, admit_request, authorize_adapter, project_runtime, refresh_plan,
    remove_unregistered, runtime_accepts_token, AuthError, BodyShape, ProjectRuntime, ProjectTable,
    RefreshFailure, admit_raw_request, any_local_token, header_text, load_refreshed, refresh_projects,
};

#[test]
fn global_route_resolves_without_a_project_registry_id() {
    assert_eq!(
        parse_routed_model("mimo_adapter/global/mimo/mimo-v2.5"),
        Ok(("global".to_string(), "mimo-v2.5".to_string()))
    );
}

#[test]
fn project_route_resolves_to_prefixed_project_id() {
    assert_eq!(
        parse_routed_model("mimo_adapter/c8b0cfc9ca15/mimo/deepseek-v4-flash"),
        Ok((
            "mimo_adapter_c8b0cfc9ca15".to_string(),
            "deepseek-v4-flash".to_string()
        ))
    );
}

#[test]
fn routed_model_errors_name_the_problem() {
    assert_eq!(
        parse_routed_model("mimo/deepseek-v4-flash"),
        Err("model must use mimo_adapter/<project_key>/<real_model>. Run 'codex-mimo-adapter init' to refresh agent templates.")
    );
    assert_eq!(
        parse_routed_model("opencode-go/deepseek-v4-flash"),
        Err("model must use mimo_adapter/<project_key>/<real_model>. Run 'codex-mimo-adapter init' to refresh agent templates.")
    );
    assert_eq!(
        parse_routed_model("mimo_adapter/abc"),
        Err("model must include both project_key and real_model")
    );
    assert_eq!(
        parse_routed_model("mimo_adapter//mimo/x"),
        Err("project_key is empty")
    );
    assert_eq!(
        parse_routed_model("mimo_adapter/abc/"),
        Err("real model id is empty")
    );
    assert_eq!(
        parse_routed_model("mimo_adapter/abc/deepseek-v4-flash"),
        Err("real_model must use the mimo/ prefix")
    );
    assert_eq!(
        parse_routed_model("mimo_adapter/abc/mimo/"),
        Err("real model id is empty")
    );
}

#[test]
fn listed_model_names_route_back() {
    let name = routed_model_id("mimo_adapter_abc", "mimo-v2.5-pro");
    assert_eq!(name, "mimo_adapter/abc/mimo/mimo-v2.5-pro");
    assert_eq!(
        parse_routed_model(&name),
        Ok(("mimo_adapter_abc".to_string(), "mimo-v2.5-pro".to_string()))
    );
    let global = routed_model_id("global", "mimo-v2.5");
    assert_eq!(global, "mimo_adapter/global/mimo/mimo-v2.5");
    assert_eq!(
        parse_routed_model(&global),
        Ok(("global".to_string(), "mimo-v2.5".to_string()))
    );
}

#[test]
fn project_key_and_id_convert_both_ways() {
    assert_eq!(project_id_from_key("abc"), "mimo_adapter_abc");
    assert_eq!(project_key_from_id("mimo_adapter_abc"), "abc");
    assert_eq!(project_key_from_id("global"), "global");
    assert_eq!(project_key_from_id(&project_id_from_key("k1")), "k1");
}

fn config_with_token(token: Option<&str>) -> Config {
    let mut project = EnvVars::new();
    project.insert("MIMO_API_KEY".to_string(), "upstream-key".to_string());
    if let Some(t) = token {
        project.insert("CODEX_MIMO_LOCAL_TOKEN".to_string(), t.to_string());
    }
    Config::from_sources(&project, &EnvVars::new(), ConfigOverrides::default()).unwrap()
}

fn runtime(token: Option<&str>) -> ProjectRuntime<(), ()> {
    ProjectRuntime {
        config: config_with_token(token),
        client: (),
        state: (),
    }
}

fn exact(raw: &str, local: &str) -> bool {
    raw == local
}

#[test]
fn runtime_needs_a_non_empty_local_token() {
    assert!(runtime_accepts_token(&runtime(Some("tok")), "tok", &exact));
    assert!(!runtime_accepts_token(&runtime(Some("tok")), "other", &exact));
    assert!(!runtime_accepts_token(&runtime(Some("")), "", &exact));
    assert!(!runtime_accepts_token(&runtime(None), "tok", &exact));
}

#[test]
fn bearer_header_is_parsed() {
    assert_eq!(adapter_bearer_token(Some("Bearer abc")), Ok("abc"));
    assert_eq!(adapter_bearer_token(Some("Bearer ")), Ok(""));
    assert_eq!(
        adapter_bearer_token(Some("Basic abc")),
        Err(AuthError::NotBearer)
    );
    assert_eq!(adapter_bearer_token(None), Err(AuthError::MissingHeader));
    assert_eq!(
        AuthError::NotBearer.message(),
        "Invalid Authorization format. Expected 'Bearer <token>'."
    );
}

fn table() -> ProjectTable<(), ()> {
    let mut t = ProjectTable::new();
    t.insert("mimo_adapter_a".to_string(), runtime(Some("token-a")));
    t.insert("mimo_adapter_b".to_string(), runtime(Some("token-b")));
    t.insert("global".to_string(), runtime(None));
    t
}

#[test]
fn any_loaded_project_can_authorize() {
    let t = table();
    assert_eq!(authorize_adapter(&t, Some("Bearer token-b"), &exact), Ok(()));
    assert_eq!(
        authorize_adapter(&t, Some("Bearer nope"), &exact),
        Err(AuthError::InvalidToken)
    );
    assert_eq!(
        authorize_adapter(&t, None, &exact),
        Err(AuthError::MissingHeader)
    );
    assert_eq!(
        AuthError::InvalidToken.message(),
        "Invalid or expired adapter token. Run 'codex-mimo-adapter auth print-local-token' again."
    );
}

#[test]
fn project_lookup_tries_id_then_key_then_prefixed() {
    let t = table();
    let by_id = project_runtime(&t, "mimo_adapter_a").unwrap();
    assert_eq!(by_id.config.local_token.as_deref(), Some("token-a"));
    let by_prefixed = project_runtime(&t, "b").unwrap();
    assert_eq!(by_prefixed.config.local_token.as_deref(), Some("token-b"));
    assert!(project_runtime(&t, "mimo_adapter_zzz").is_none());
    let mut keyed: ProjectTable<(), ()> = ProjectTable::new();
    keyed.insert("c".to_string(), runtime(Some("token-c")));
    let by_key = project_runtime(&keyed, "mimo_adapter_c").unwrap();
    assert_eq!(by_key.config.local_token.as_deref(), Some("token-c"));
}

#[test]
fn refresh_drops_unregistered_projects_but_keeps_global() {
    let mut t = table();
    let removed = remove_unregistered(&mut t, &vec!["mimo_adapter_a".to_string()]);
    assert_eq!(removed, vec!["mimo_adapter_b".to_string()]);
    assert_eq!(t.len(), 2);
    assert!(t.contains_key("mimo_adapter_a"));
    assert!(t.contains_key("global"));
    assert!(!t.contains_key("mimo_adapter_b"));
}

#[test]
fn refresh_loads_only_registered_projects_not_yet_loaded() {
    let mut t = table();
    let registered = vec![
        "mimo_adapter_c".to_string(),
        "mimo_adapter_a".to_string(),
        "mimo_adapter_d".to_string(),
    ];
    let removed = remove_unregistered(&mut t, &registered);
    assert_eq!(removed, vec!["mimo_adapter_b".to_string()]);
    let (already, to_load) = refresh_plan(&t, &registered);
    assert_eq!(already, vec!["mimo_adapter_a".to_string()]);
    assert_eq!(to_load, vec!["mimo_adapter_c".to_string(), "mimo_adapter_d".to_string()]);
    let (already, to_load) = refresh_plan(&t, &Vec::new());
    assert!(already.is_empty() && to_load.is_empty());
}

#[test]
fn refresh_failures_carry_their_reasons() {
    assert_eq!(RefreshFailure::MissingEnvFile.reason(), "missing env file");
    assert_eq!(
        RefreshFailure::ReadEnv("permission denied".to_string()).reason(),
        "read env failed: permission denied"
    );
    assert_eq!(
        RefreshFailure::BadConfig(codex_mimo_adapter::config::ConfigError::Required(ConfigKey::ApiKey)).reason(),
        "bad config: MIMO_API_KEY is required"
    );
    assert_eq!(
        RefreshFailure::StateInit("disk full".to_string()).reason(),
        "state init failed: disk full"
    );
    assert_eq!(
        RefreshFailure::ClientInit("bad url".to_string()).reason(),
        "client init failed: bad url"
    );
}

#[test]
fn requests_are_admitted_in_order() {
    let t = table();
    let ok = admit_request(
        BodyShape::Object,
        Some("mimo_adapter/a/mimo/mimo-v2.5"),
        Some("Bearer token-a"),
        &t,
        &exact,
        10,
    )
    .ok()
    .unwrap();
    assert_eq!(ok.project_id, "mimo_adapter_a");
    assert_eq!(ok.upstream_model, "mimo-v2.5");

    let r = admit_request(BodyShape::NotObject, None, None, &t, &exact, 10)
        .err()
        .unwrap();
    assert_eq!((r.status, r.kind), (400, "invalid_request_error"));
    assert_eq!(r.message, "request body must be an object");

    let r = admit_request(
        BodyShape::Invalid("expected value at line 1 column 1".to_string()),
        None,
        None,
        &t,
        &exact,
        10,
    )
    .err()
    .unwrap();
    assert_eq!(r.message, "expected value at line 1 column 1");

    let r = admit_request(BodyShape::Object, None, None, &t, &exact, 10)
        .err()
        .unwrap();
    assert_eq!(r.message, "model is required");

    let r = admit_request(
        BodyShape::Object,
        Some("opencode-go/deepseek-v4-flash"),
        Some("Bearer token-a"),
        &t,
        &exact,
        10,
    )
    .err()
    .unwrap();
    assert_eq!((r.status, r.kind, r.as_failed_response), (400, "invalid_model", true));

    let r = admit_request(
        BodyShape::Object,
        Some("mimo_adapter/a/mimo/x"),
        None,
        &t,
        &exact,
        10,
    )
    .err()
    .unwrap();
    assert_eq!((r.status, r.kind), (401, "unauthorized"));

    let r = admit_request(
        BodyShape::Object,
        Some("mimo_adapter/zzz/mimo/x"),
        Some("Bearer token-a"),
        &t,
        &exact,
        10,
    )
    .err()
    .unwrap();
    assert_eq!((r.status, r.kind), (400, "project_not_found"));
    assert_eq!(
        r.message,
        "Project route mimo_adapter_zzz is not loaded. Run 'codex-mimo-adapter init' for that project and call POST /admin/refresh."
    );

    let r = admit_request(
        BodyShape::Object,
        Some("mimo_adapter/a/mimo/x"),
        Some("Bearer token-a"),
        &t,
        &exact,
        8 * 1024 * 1024 + 1,
    )
    .err()
    .unwrap();
    assert_eq!((r.status, r.kind, r.message.as_str()), (413, "request_too_large", "Invalid request size"));
}

#[test]
fn history_errors_are_recognized() {
    assert!(is_history_error_message("tool output has no matching stored response: resp_1"));
    assert!(is_history_error_message("unknown or ambiguous tool call id(s): call_1"));
    assert!(is_history_error_message("duplicate tool output"));
    assert!(!is_history_error_message("upstream internal error"));
    assert!(!is_history_error_message(""));
}

#[test]
fn stream_errors_are_classified() {
    assert_eq!(upstream_stream_error_type(true), "unsupported_multimodal_input");
    assert_eq!(upstream_stream_error_type(false), "upstream_error");
    assert_eq!(
        upstream_stream_error_message("raw", true, "images are not supported"),
        "images are not supported"
    );
    assert_eq!(
        upstream_stream_error_message("raw", false, "images are not supported"),
        "raw"
    );
}

#[test]
fn upstream_statuses_are_passed_on_when_valid() {
    let e = UpstreamError::Http { status: 500, message: "upstream internal error".to_string() };
    assert_eq!(upstream_http_status(&e), 500);
    assert_eq!(upstream_error(e), (500, "upstream internal error".to_string()));
    let e = UpstreamError::Http { status: 42, message: "odd".to_string() };
    assert_eq!(upstream_http_status(&e), 502);
    assert_eq!(upstream_http_status(&UpstreamError::Network("down".to_string())), 502);
    assert_eq!(
        upstream_error(UpstreamError::Invalid("bad json".to_string())),
        (502, "bad json".to_string())
    );
}

#[test]
fn long_messages_are_cut_to_the_character_limit() {
    let long = "é".repeat(1500);
    let t = truncate_chars(&long, 1000);
    assert_eq!(t.chars().count(), 1000);
    assert_eq!(truncate_chars("short", 1000), "short");
}

#[test]
fn failed_response_messages_keep_at_most_a_thousand_characters() {
    let long = "x".repeat(1001);
    let cut = failed_response_message(&long);
    assert_eq!(cut, "x".repeat(1000));
    assert_eq!(failed_response_message("upstream said no"), "upstream said no");
}

#[test]
fn stream_blocks_are_classified() {
    assert_eq!(classify_stream_block(Some("error"), Some("{}")), StreamBlock::ErrorEvent);
    assert_eq!(classify_stream_block(None, Some(" [DONE] ")), StreamBlock::Done);
    assert_eq!(classify_stream_block(None, Some("{\"a\":1}")), StreamBlock::Data);
    assert_eq!(classify_stream_block(Some("message"), None), StreamBlock::Empty);
    assert_eq!(error_event_message(Some("boom".to_string()), Some("x")), "boom");
    assert_eq!(error_event_message(None, Some("plain text")), "plain text");
    assert_eq!(error_event_message(None, Some("  ")), "upstream stream error");
    assert_eq!(error_event_message(None, None), "upstream stream error");
}

#[test]
fn stream_end_is_decided_by_what_arrived() {
    assert_eq!(stream_end_action(true, false), StreamEnd::Finalize);
    assert_eq!(stream_end_action(false, true), StreamEnd::FinalizeTruncated);
    assert_eq!(stream_end_action(false, false), StreamEnd::FailTruncated);
}

fn reply_fields(r: &codex_mimo_adapter::responses::ErrorReply) -> (u16, &str, &str, bool) {
    (r.status, r.kind, r.message.as_str(), r.as_failed_response)
}

#[test]
fn completion_failures_map_to_replies() {
    let r = completion_failure_reply(CompletionFailure::History("tool output has no matching stored response: resp_x".to_string()));
    assert_eq!(reply_fields(&r), (200, "invalid_tool_history", "tool output has no matching stored response: resp_x", true));
    let r = completion_failure_reply(CompletionFailure::Payload("unknown tool call id".to_string()));
    assert_eq!(reply_fields(&r), (200, "invalid_tool_history", "unknown tool call id", true));
    let r = completion_failure_reply(CompletionFailure::Payload("input must be an array".to_string()));
    assert_eq!(reply_fields(&r), (400, "invalid_request_error", "input must be an array", false));
    let r = completion_failure_reply(CompletionFailure::AtCapacity);
    assert_eq!(reply_fields(&r), (429, "rate_limit_error", "adapter concurrency limit reached", false));
    let r = completion_failure_reply(CompletionFailure::Upstream {
        error: UpstreamError::Http { status: 500, message: "upstream internal error".to_string() },
        text: "upstream HTTP 500: upstream internal error".to_string(),
        multimodal_refusal: false,
        multimodal_message: "images unsupported".to_string(),
    });
    assert_eq!(reply_fields(&r), (500, "upstream_error", "upstream HTTP 500: upstream internal error", true));
    let r = completion_failure_reply(CompletionFailure::Upstream {
        error: UpstreamError::Network("x".to_string()),
        text: "x".to_string(),
        multimodal_refusal: true,
        multimodal_message: "images unsupported".to_string(),
    });
    assert_eq!(reply_fields(&r), (200, "unsupported_multimodal_input", "images unsupported", true));
    let r = completion_failure_reply(CompletionFailure::Assembly("bad".to_string()));
    assert_eq!(reply_fields(&r), (500, "internal_error", "bad", true));
    let r = completion_failure_reply(CompletionFailure::UnsupportedInput("no images".to_string()));
    assert_eq!(reply_fields(&r), (200, "unsupported_multimodal_input", "no images", true));
}

fn event(r: StreamFailureReply) -> (String, String) {
    match r {
        StreamFailureReply::Event { kind, message } => (kind.to_string(), message),
        other => panic!("expected an event, got {other:?}"),
    }
}

#[test]
fn stream_failures_map_to_replies() {
    match stream_failure_reply(StreamFailure::History("call_missing: tool output without call".to_string())) {
        StreamFailureReply::Early { kind, message } => {
            assert_eq!(kind, "invalid_tool_history");
            assert_eq!(message, "call_missing: tool output without call");
        }
        other => panic!("unexpected {other:?}"),
    }
    match stream_failure_reply(StreamFailure::Payload("bad input".to_string())) {
        StreamFailureReply::Plain(r) => assert_eq!(reply_fields(&r), (400, "invalid_request_error", "bad input", false)),
        other => panic!("unexpected {other:?}"),
    }
    assert_eq!(
        event(stream_failure_reply(StreamFailure::AtCapacity)),
        ("rate_limit_error".to_string(), "adapter concurrency limit reached".to_string())
    );
    assert_eq!(
        event(stream_failure_reply(StreamFailure::BadChunk("expected value".to_string()))),
        ("upstream_error".to_string(), "failed to parse upstream SSE data as JSON: expected value".to_string())
    );
    assert_eq!(
        event(stream_failure_reply(StreamFailure::Truncated)),
        ("stream_truncated".to_string(), "Upstream stream ended before sending finish_reason".to_string())
    );
    assert_eq!(
        event(stream_failure_reply(StreamFailure::Upstream {
            text: "boom".to_string(),
            multimodal_refusal: false,
            multimodal_message: "m".to_string(),
        })),
        ("upstream_error".to_string(), "boom".to_string())
    );
    assert_eq!(
        event(stream_failure_reply(StreamFailure::Start("emit failed".to_string()))),
        ("internal_error".to_string(), "emit failed".to_string())
    );
}

#[test]
fn early_failure_stream_shares_one_response() {
    let s = early_failure_stream(
        "resp_abc",
        "mimo_adapter/k/mimo/m",
        "invalid_tool_history",
        "tool output has no matching stored response: resp_never_stored",
    );
    let names: Vec<Option<&str>> = s.iter().map(|m| m.event).collect();
    assert_eq!(
        names,
        vec![Some("response.created"), Some("response.in_progress"), Some("response.failed"), None]
    );
    for m in &s[..3] {
        let r = m.response.as_ref().unwrap();
        assert_eq!(r.id, "resp_abc");
        assert_eq!(r.model, "mimo_adapter/k/mimo/m");
    }
    let failed = s[2].response.as_ref().unwrap();
    assert_eq!(failed.status, "failed");
    let (kind, message) = failed.error.clone().unwrap();
    assert_eq!(kind, "invalid_tool_history");
    assert!(message.contains("resp_never_stored"));
    assert!(s[3].response.is_none());
    let long = "y".repeat(1200);
    let r = failed_response("resp_1", "m", "upstream_error", &long);
    assert_eq!(r.error.unwrap().1.len(), 1000);
}

#[test]
fn the_upstream_is_called_only_with_a_permit_after_every_check() {
    assert!(matches!(completion_gate(Ok(()), Ok(()), None, true), UpstreamGate::Call));
    match completion_gate(Ok(()), Ok(()), None, false) {
        UpstreamGate::Reply(r) => {
            assert_eq!((r.status, r.kind), (429, "rate_limit_error"));
            assert_eq!(r.message, "adapter concurrency limit reached");
        }
        UpstreamGate::Call => panic!("called the upstream without a permit"),
    }
    match completion_gate(Err("tool output has no matching stored response: x".to_string()), Ok(()), None, true) {
        UpstreamGate::Reply(r) => assert_eq!((r.status, r.kind), (200, "invalid_tool_history")),
        UpstreamGate::Call => panic!("called the upstream after a failed check"),
    }
    assert!(matches!(stream_gate(Ok(()), Ok(()), None, Ok(()), true), UpstreamGate::Call));
    assert!(matches!(
        stream_gate(Ok(()), Ok(()), None, Ok(()), false),
        UpstreamGate::Reply(StreamFailureReply::Event { kind: "rate_limit_error", .. })
    ));
    assert!(matches!(
        stream_gate(Err("tool output has no matching stored response: r".to_string()), Ok(()), None, Ok(()), true),
        UpstreamGate::Reply(StreamFailureReply::Early { kind: "invalid_tool_history", .. })
    ));
}

#[test]
fn continued_responses_are_looked_up_by_id_then_call_ids() {
    let ids = vec!["call_1".to_string(), "call_2".to_string()];
    assert!(matches!(previous_source(Some("resp_1"), &ids, Ok(())), Ok(PreviousSource::ById(ref x)) if x == "resp_1"));
    assert!(matches!(previous_source(Some(""), &ids, Ok(())), Ok(PreviousSource::ByCallIds)));
    assert!(matches!(previous_source(None, &vec![], Ok(())), Ok(PreviousSource::Nothing)));
    assert!(matches!(
        previous_source(Some("resp_1"), &ids, Err("duplicate tool output for call_1".to_string())),
        Err(ref e) if e == "duplicate tool output for call_1"
    ));
    assert_eq!(join_call_ids(&ids), "call_1, call_2");
    assert_eq!(join_call_ids(&vec![]), "");

    let by_id = PreviousSource::ById("resp_never_stored".to_string());
    assert_eq!(previous_outcome(&by_id, Ok(Some(7)), Ok(()), &ids), Ok(Some(7)));
    assert_eq!(
        previous_outcome(&by_id, Ok(Some(7)), Err("tool call call_2 not in response".to_string()), &ids),
        Err("tool call call_2 not in response".to_string())
    );
    assert_eq!(previous_outcome::<u8>(&by_id, Ok(None), Ok(()), &vec![]), Ok(None));
    assert_eq!(
        previous_outcome::<u8>(&by_id, Ok(None), Ok(()), &ids),
        Err("tool output has no matching stored response: resp_never_stored".to_string())
    );
    assert_eq!(
        previous_outcome::<u8>(&by_id, Err("database is locked".to_string()), Ok(()), &ids),
        Err("database is locked".to_string())
    );
    assert_eq!(
        previous_outcome::<u8>(&PreviousSource::ByCallIds, Ok(None), Ok(()), &ids),
        Err("unknown or ambiguous tool call id(s): call_1, call_2".to_string())
    );
    assert_eq!(previous_outcome::<u8>(&PreviousSource::Nothing, Ok(None), Ok(()), &ids), Ok(None));
}

#[test]
fn model_list_names_every_row_with_an_id_under_its_route() {
    let rows = vec![Some("mimo-v2.5".to_string()), None, Some("mimo-v2-flash".to_string())];
    assert_eq!(
        listed_models("mimo_adapter_demo", &rows),
        vec![
            "mimo_adapter/demo/mimo/mimo-v2.5".to_string(),
            "mimo_adapter/demo/mimo/mimo-v2-flash".to_string(),
        ]
    );
    assert_eq!(
        listed_models("global", &vec![Some("mimo-v2.5".to_string())]),
        vec!["mimo_adapter/global/mimo/mimo-v2.5".to_string()]
    );
    assert!(listed_models("global", &vec![None]).is_empty());
    for name in listed_models("mimo_adapter_demo", &rows) {
        let (project, model) = parse_routed_model(&name).unwrap();
        assert_eq!(project, "mimo_adapter_demo");
        assert!(model.starts_with("mimo-v2"));
    }
}

#[test]
fn json_chunks_with_error_fields_fail_the_stream() {
    assert_eq!(chunk_failure_message(false, false, Some("ignored".to_string())), None);
    assert_eq!(
        chunk_failure_message(true, false, Some("quota exceeded".to_string())),
        Some("quota exceeded".to_string())
    );
    assert_eq!(
        chunk_failure_message(false, true, None),
        Some("upstream stream error".to_string())
    );
}

#[test]
fn every_listed_model_is_admitted_for_the_project_that_listed_it() {
    let t = table();
    for (project, token) in [("mimo_adapter_a", "token-a"), ("mimo_adapter_b", "token-b"), ("global", "token-a")] {
        let names = listed_models(project, &vec![Some("mimo-v2.5".to_string())]);
        assert_eq!(names.len(), 1);
        let header = format!("Bearer {token}");
        let admitted = admit_request(BodyShape::Object, Some(&names[0]), Some(&header), &t, &exact, 10)
            .ok()
            .unwrap();
        assert_eq!(admitted.project_id, project);
        assert_eq!(admitted.upstream_model, "mimo-v2.5");
        let listed_by = project_runtime(&t, project).unwrap();
        assert_eq!(admitted.runtime.config.local_token, listed_by.config.local_token);
    }
}

#[test]
fn empty_local_tokens_skip_authentication() {
    let mut t: ProjectTable<(), ()> = ProjectTable::new();
    t.insert("mimo_adapter_a".to_string(), runtime(Some("")));
    t.insert("global".to_string(), runtime(None));
    assert!(!any_local_token(&t));
    assert_eq!(authorize_adapter(&t, None, &exact), Ok(()));
    assert_eq!(authorize_adapter(&t, Some("Basic x"), &exact), Ok(()));
    let admitted = admit_request(BodyShape::Object, Some("mimo_adapter/a/mimo/m"), None, &t, &exact, 10)
        .ok()
        .unwrap();
    assert_eq!(admitted.project_id, "mimo_adapter_a");
    assert!(any_local_token(&table()));
    assert_eq!(authorize_adapter(&table(), None, &exact), Err(AuthError::MissingHeader));
}

#[test]
fn raw_request_bodies_are_read_then_admitted() {
    let t = table();
    let body = r#"{"model":"mimo_adapter/a/mimo/mimo-v2.5","stream":true,"input":"hi"}"#;
    let (admitted, stream) = admit_raw_request(body, Some(b"Bearer token-a".as_slice()), &t, &exact).ok().unwrap();
    assert_eq!(admitted.project_id, "mimo_adapter_a");
    assert_eq!(admitted.upstream_model, "mimo-v2.5");
    assert!(stream);
    let (_, stream) = admit_raw_request(r#"{"model":"mimo_adapter/a/mimo/m"}"#, Some(b"Bearer token-a".as_slice()), &t, &exact)
        .ok()
        .unwrap();
    assert!(!stream);
    let r = admit_raw_request("[1,2]", None, &t, &exact).err().unwrap();
    assert_eq!((r.status, r.kind, r.message.as_str()), (400, "invalid_request_error", "request body must be an object"));
    let r = admit_raw_request("{not json", None, &t, &exact).err().unwrap();
    assert_eq!((r.status, r.kind), (400, "invalid_request_error"));
    assert!(r.message.contains("line 1"));
    let r = admit_raw_request(r#"{"stream":true}"#, None, &t, &exact).err().unwrap();
    assert_eq!(r.message, "model is required");
    let mut small = ProjectTable::new();
    let mut rt = runtime(Some("token-a"));
    rt.config.max_request_bytes = 10;
    small.insert("mimo_adapter_a".to_string(), rt);
    let r = admit_raw_request(body, Some(b"Bearer token-a".as_slice()), &small, &exact).err().unwrap();
    assert_eq!((r.status, r.kind), (413, "request_too_large"));
}

#[test]
fn header_values_must_be_visible_ascii() {
    assert_eq!(header_text(b"Bearer abc\tdef"), Some("Bearer abc\tdef".to_string()));
    assert_eq!(header_text("Bearer é".as_bytes()), None);
    assert_eq!(header_text(b"Bearer a\x7f"), None);
    let t = table();
    let body = r#"{"model":"mimo_adapter/a/mimo/m"}"#;
    let r = admit_raw_request(body, Some("Bearer tökén".as_bytes()), &t, &exact).err().unwrap();
    assert_eq!((r.status, r.kind), (401, "unauthorized"));
    assert_eq!(r.message, "Missing Authorization header. Provide a valid Bearer token.");
}

fn run_stream(events: Vec<StreamEvent>) -> Vec<StreamAction> {
    let mut phase = StreamPhase::Open;
    let mut out = Vec::new();
    for e in events {
        let (next, actions) = stream_step(phase, e);
        phase = next;
        out.extend(actions);
    }
    out
}

fn dones(actions: &[StreamAction]) -> usize {
    actions.iter().filter(|a| matches!(a, StreamAction::SendDone)).count()
}

#[test]
fn a_stream_sends_done_exactly_once_and_last() {
    let out = run_stream(vec![
        StreamEvent::Chunk,
        StreamEvent::Chunk,
        StreamEvent::DoneMarker,
        StreamEvent::Chunk,
        StreamEvent::Finalized(None),
        StreamEvent::Chunk,
    ]);
    assert_eq!(out.len(), 4);
    assert!(matches!(out[0], StreamAction::Accept));
    assert!(matches!(out[2], StreamAction::Finalize));
    assert!(matches!(out[3], StreamAction::SendDone));
    assert_eq!(dones(&out), 1);

    let out = run_stream(vec![
        StreamEvent::Chunk,
        StreamEvent::Failure(StreamFailure::AtCapacity),
        StreamEvent::DoneMarker,
        StreamEvent::Ended { has_finish_reason: true, has_substantive_output: true },
    ]);
    assert_eq!(out.len(), 3);
    assert!(matches!(&out[1], StreamAction::Fail(StreamFailureReply::Event { kind: "rate_limit_error", .. })));
    assert!(matches!(out.last(), Some(StreamAction::SendDone)));
    assert_eq!(dones(&out), 1);

    let out = run_stream(vec![
        StreamEvent::Ended { has_finish_reason: false, has_substantive_output: true },
        StreamEvent::Finalized(None),
    ]);
    assert!(matches!(out[0], StreamAction::FinalizeTruncated));
    assert!(matches!(out[1], StreamAction::SendDone));
    let out = run_stream(vec![StreamEvent::Ended { has_finish_reason: false, has_substantive_output: false }]);
    assert!(matches!(&out[0], StreamAction::Fail(StreamFailureReply::Event { kind: "stream_truncated", .. })));
    assert_eq!(dones(&out), 1);
    assert_eq!(dones(&run_stream(vec![StreamEvent::Chunk])), 0);
}

#[test]
fn a_failed_finalize_sends_an_internal_error_before_done() {
    let out = run_stream(vec![
        StreamEvent::DoneMarker,
        StreamEvent::Finalized(Some("missing tool output".to_string())),
    ]);
    assert_eq!(out.len(), 3);
    assert!(matches!(
        &out[1],
        StreamAction::Fail(StreamFailureReply::Event { kind: "internal_error", message }) if message == "missing tool output"
    ));
    assert!(matches!(out[2], StreamAction::SendDone));
}

#[test]
fn refresh_stores_what_it_loaded_and_reports_the_rest() {
    let mut t = table();
    let registered = vec![
        "mimo_adapter_a".to_string(),
        "mimo_adapter_c".to_string(),
        "mimo_adapter_d".to_string(),
    ];
    remove_unregistered(&mut t, &registered);
    let (_, to_load) = refresh_plan(&t, &registered);
    assert_eq!(to_load, vec!["mimo_adapter_c".to_string(), "mimo_adapter_d".to_string()]);
    let (added, failed) = load_refreshed(
        &mut t,
        vec![
            ("mimo_adapter_c".to_string(), Ok(runtime(Some("token-c")))),
            ("mimo_adapter_d".to_string(), Err(RefreshFailure::MissingEnvFile)),
        ],
    );
    assert_eq!(added, vec!["mimo_adapter_c".to_string()]);
    assert_eq!(failed, vec![("mimo_adapter_d".to_string(), "missing env file".to_string())]);
    assert!(t.contains_key("mimo_adapter_c"));
    assert!(!t.contains_key("mimo_adapter_d"));
    let (_, to_load) = refresh_plan(&t, &registered);
    assert_eq!(to_load, vec!["mimo_adapter_d".to_string()]);
    let (added, _) = load_refreshed(&mut t, vec![("mimo_adapter_d".to_string(), Ok(runtime(None)))]);
    assert_eq!(added, vec!["mimo_adapter_d".to_string()]);
    let (already, to_load) = refresh_plan(&t, &registered);
    assert_eq!(already.len(), 3);
    assert!(to_load.is_empty());
}

#[test]
fn a_refresh_reports_each_project_once_and_a_second_one_changes_nothing() {
    let mut t = table();
    let registered = vec![
        "mimo_adapter_a".to_string(),
        "mimo_adapter_c".to_string(),
        "mimo_adapter_d".to_string(),
    ];
    let (_, to_load) = refresh_plan(&t, &registered);
    assert_eq!(to_load, vec!["mimo_adapter_c".to_string(), "mimo_adapter_d".to_string()]);
    let report = refresh_projects(
        &mut t,
        &registered,
        vec![
            ("mimo_adapter_c".to_string(), Ok(runtime(Some("token-c")))),
            ("mimo_adapter_d".to_string(), Err(RefreshFailure::MissingEnvFile)),
        ],
    );
    assert_eq!(report.removed, vec!["mimo_adapter_b".to_string()]);
    assert_eq!(report.already_loaded, vec!["mimo_adapter_a".to_string()]);
    assert_eq!(report.added, vec!["mimo_adapter_c".to_string()]);
    assert_eq!(report.failed, vec![("mimo_adapter_d".to_string(), "missing env file".to_string())]);
    assert_eq!(t.len(), 3);
    assert_eq!(project_runtime(&t, "mimo_adapter_a").unwrap().config.local_token.as_deref(), Some("token-a"));

    let (_, to_load) = refresh_plan(&t, &registered);
    assert_eq!(to_load, vec!["mimo_adapter_d".to_string()]);
    let report = refresh_projects(
        &mut t,
        &registered,
        vec![("mimo_adapter_d".to_string(), Err(RefreshFailure::MissingEnvFile))],
    );
    assert!(report.removed.is_empty() && report.added.is_empty());
    assert_eq!(report.already_loaded, vec!["mimo_adapter_a".to_string(), "mimo_adapter_c".to_string()]);
    assert_eq!(t.len(), 3);
}

#[test]
fn routed_names_split_at_the_first_slash_after_the_key() {
    assert_eq!(
        parse_routed_model("mimo_adapter/k/mimo/a/b"),
        Ok(("mimo_adapter_k".to_string(), "a/b".to_string()))
    );
    assert!(parse_routed_model("mimo_adapter//mimo/m").is_err());
    assert!(parse_routed_model("mimo_adapter/k/mimo/").is_err());
    assert!(parse_routed_model("mimo_adapter/k/other/m").is_err());
}
