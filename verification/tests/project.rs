use codex_mimo_adapter::config::EnvVars;
use codex_mimo_adapter::project::{
    codex_home_dir, codex_thread_id, discover_root_from_codex_thread, find_cwd_in_process_manager,
    find_cwd_in_session_file, find_cwd_in_sessions, parse_env_text, parse_process_list,
    parse_session_head, project_ancestors, EnvParseError, ProjectPaths, SessionHead,
};

fn get<'a>(m: &'a EnvVars, k: &str) -> Option<&'a str> {
    m.get(k).map(|s| s.as_str())
}

#[test]
fn env_text_lines_are_trimmed_and_comments_skipped() {
    let m = parse_env_text("# comment\n\n  MIMO_API_KEY = abc \r\nCODEX_MIMO_PORT=4011\n   #x=y\n")
        .unwrap();
    assert_eq!(m.len(), 2);
    assert_eq!(get(&m, "MIMO_API_KEY"), Some("abc"));
    assert_eq!(get(&m, "CODEX_MIMO_PORT"), Some("4011"));
    assert_eq!(get(&m, "#x"), None);
}

#[test]
fn env_text_splits_at_the_first_equals_and_later_lines_win() {
    let m = parse_env_text("A=b=c\nA=second\nEMPTY=\n=novalue").unwrap();
    assert_eq!(get(&m, "A"), Some("second"));
    assert_eq!(get(&m, "EMPTY"), Some(""));
    assert_eq!(get(&m, ""), Some("novalue"));
}

#[test]
fn env_text_rejects_a_line_without_equals() {
    let e = parse_env_text("A=1\n\nnot an assignment\r\nB=2").unwrap_err();
    assert_eq!(
        e,
        EnvParseError {
            line: 3,
            text: "not an assignment".to_string()
        }
    );
    assert_eq!(e.message(), "invalid env line 3: not an assignment");
    assert!(parse_env_text("").unwrap().len() == 0);
}

#[test]
fn appended_assignment_reads_back() {
    let base = "A=1\n# note\nB=2\n";
    let mut text = base.to_string();
    text.push_str("A=3\n");
    let m = parse_env_text(&text).unwrap();
    assert_eq!(get(&m, "A"), Some("3"));
    assert_eq!(get(&m, "B"), Some("2"));
    text.push_str("# trailing comment\n");
    let m2 = parse_env_text(&text).unwrap();
    assert_eq!(m2.len(), m.len());
    assert_eq!(get(&m2, "A"), Some("3"));
}

fn ends_with_component(path: &str, base: &str, name: &str) -> bool {
    path == format!("{base}{name}")
        || path == format!("{base}/{name}")
        || path == format!("{base}\\{name}")
}

#[test]
fn project_layout_is_rooted_at_the_root() {
    let p = ProjectPaths::from_root("/work/proj".to_string());
    assert_eq!(p.root, "/work/proj");
    assert!(ends_with_component(&p.env_file, "/work/proj", ".codex-mimo-adapter.env"));
    assert!(p.agents_dir.ends_with("agents"));
    assert!(p.agents_dir.contains(".codex"));
    assert!(ends_with_component(&p.state_dir, "/work/proj", ".codex-mimo"));
    assert_eq!(p.env_file, "/work/proj/.codex-mimo-adapter.env");
    assert_eq!(p.agents_dir, "/work/proj/.codex/agents");
    assert_eq!(ProjectPaths::from_root("/work/".to_string()).env_file, "/work/.codex-mimo-adapter.env");
}

#[test]
fn discovery_picks_the_nearest_ancestor_with_an_env_file() {
    assert_eq!(
        project_ancestors("/a/b/c"),
        vec!["/a/b/c".to_string(), "/a/b".to_string(), "/a".to_string(), "/".to_string()]
    );
    let p = ProjectPaths::discover_from("/a/b/c", &vec![false, true, true, false]);
    assert_eq!(p.root, "/a/b");
    let p = ProjectPaths::discover_from("/a/b/c", &vec![false; 4]);
    assert_eq!(p.root, "/a/b/c");
    let p = ProjectPaths::discover_from("/a/b/c", &vec![false]);
    assert_eq!(p.root, "/a/b/c");
    assert_eq!(p.env_file, "/a/b/c/.codex-mimo-adapter.env");

    let local = ProjectPaths::from_root("/x".to_string());
    let session = ProjectPaths::from_root("/y".to_string());
    assert_eq!(
        ProjectPaths::discover(local.clone(), true, Some((session.clone(), true))).root,
        "/x"
    );
    assert_eq!(
        ProjectPaths::discover(local.clone(), false, Some((session.clone(), true))).root,
        "/y"
    );
    assert_eq!(
        ProjectPaths::discover(local.clone(), false, Some((session, false))).root,
        "/x"
    );
    assert_eq!(ProjectPaths::discover(local, false, None).root, "/x");
}

#[test]
fn codex_home_prefers_userprofile() {
    let mut env = EnvVars::new();
    assert_eq!(codex_home_dir(&env), None);
    env.insert("HOME".to_string(), "/home/u".to_string());
    assert!(ends_with_component(&codex_home_dir(&env).unwrap(), "/home/u", ".codex"));
    env.insert("USERPROFILE".to_string(), "/profile".to_string());
    assert!(ends_with_component(&codex_home_dir(&env).unwrap(), "/profile", ".codex"));
    assert_eq!(codex_thread_id(&env), None);
    env.insert("CODEX_THREAD_ID".to_string(), "t1".to_string());
    assert_eq!(codex_thread_id(&env).as_deref(), Some("t1"));
}

#[test]
fn thread_matches_win_over_latest_sessions() {
    let s = |v: &str| Some(v.to_string());
    assert_eq!(
        discover_root_from_codex_thread(true, None, s("/t-sess"), s("/any-pm"), None),
        s("/t-sess")
    );
    assert_eq!(
        discover_root_from_codex_thread(true, s("/t-pm"), s("/t-sess"), None, None),
        s("/t-pm")
    );
    assert_eq!(
        discover_root_from_codex_thread(true, None, None, None, s("/any-sess")),
        s("/any-sess")
    );
    assert_eq!(
        discover_root_from_codex_thread(false, s("/t-pm"), None, s("/any-pm"), None),
        s("/any-pm")
    );
}

#[test]
fn process_list_picks_latest_matching_entry() {
    let text = r#"[
        {"cwd": "/p1", "updatedAtMs": 5, "conversationId": "t1"},
        {"cwd": "/p2", "updatedAtMs": 9, "conversationId": "t2"},
        {"cwd": "/p3", "updatedAtMs": 9},
        {"updatedAtMs": 100},
        {"cwd": 7, "updatedAtMs": 200}
    ]"#;
    let entries = parse_process_list(text).unwrap();
    assert_eq!(entries.len(), 5);
    assert_eq!(entries[0].conversation_id.as_deref(), Some("t1"));
    assert_eq!(entries[3].cwd, None);
    assert_eq!(entries[4].cwd, None);
    let all = vec![true; 5];
    // Ties go to the last entry.
    assert_eq!(find_cwd_in_process_manager(&entries, &all, None).as_deref(), Some("/p3"));
    assert_eq!(
        find_cwd_in_process_manager(&entries, &all, Some("t1")).as_deref(),
        Some("/p1")
    );
    assert_eq!(find_cwd_in_process_manager(&entries, &all, Some("zz")), None);
    let no_env = vec![true, true, false, true, true];
    assert_eq!(
        find_cwd_in_process_manager(&entries, &no_env, None).as_deref(),
        Some("/p2")
    );
    assert!(parse_process_list("{}").is_none());
    assert!(parse_process_list("not json").is_none());
}

#[test]
fn session_files_match_by_session_id_or_id() {
    let head = parse_session_head(
        r#"{"timestamp":"2026-06-27T00:00:00Z","type":"session_meta","payload":{"id":"t9","cwd":"/proj"}}"#,
    )
    .unwrap();
    assert_eq!(head.id.as_deref(), Some("t9"));
    assert_eq!(
        find_cwd_in_session_file(&head, true, Some("t9")),
        Some(("2026-06-27T00:00:00Z".to_string(), "/proj".to_string()))
    );
    assert_eq!(find_cwd_in_session_file(&head, true, Some("other")), None);
    assert_eq!(find_cwd_in_session_file(&head, false, None), None);
    let no_time = SessionHead {
        timestamp: None,
        cwd: Some("/proj".to_string()),
        session_id: Some("t9".to_string()),
        id: None,
    };
    assert_eq!(find_cwd_in_session_file(&no_time, true, Some("t9")), None);
    assert!(parse_session_head(r#"{"timestamp":"x"}"#).is_none());
    assert!(parse_session_head("nope").is_none());
}

#[test]
fn latest_session_timestamp_wins_and_first_wins_ties() {
    let c = |t: &str, d: &str| (t.to_string(), d.to_string());
    let cands = vec![
        c("2026-01-02", "/b"),
        c("2026-01-03", "/c"),
        c("2026-01-01", "/a"),
        c("2026-01-03", "/d"),
    ];
    assert_eq!(find_cwd_in_sessions(&cands).as_deref(), Some("/c"));
    assert_eq!(find_cwd_in_sessions(&vec![]), None);
}

#[test]
fn written_env_lines_read_back_last_one_winning() {
    let m = parse_env_text("B=2\nA=1\nA=3\n").unwrap();
    assert_eq!(m.len(), 2);
    assert_eq!(get(&m, "A"), Some("3"));
    assert_eq!(get(&m, "B"), Some("2"));
    let e = parse_env_text("A=1\nbad line").unwrap_err();
    assert_eq!(e.message(), "invalid env line 2: bad line");
}

#[test]
fn roots_with_question_marks_join_like_any_other() {
    let p = ProjectPaths::from_root("/tmp/a?b".to_string());
    assert_eq!(p.env_file, "/tmp/a?b/.codex-mimo-adapter.env");
    assert_eq!(p.agents_dir, "/tmp/a?b/.codex/agents");
    assert_eq!(p.state_dir, "/tmp/a?b/.codex-mimo");
}
