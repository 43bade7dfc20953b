use gitview::agentio::{
    agent_get, agent_get_args, begin_turn, classify, error_text, harvest_screen,
    harvest_transcript, most_recent, prompt_args, prompt_wait, run_text, strip_chrome,
    transcript_path, turn_advanced, AgentInfo, AgentStatus, Handle, PromptError, SessionRef,
    TranscriptQuery,
};
use gitview::git::GitOut;

#[test]
fn unknown_status_is_not_resting() {
    assert!(!AgentStatus::from_wire("something-new").is_resting());
    assert!(!AgentStatus::Working.is_resting());
    assert!(!AgentStatus::Blocked.is_resting());
    assert!(AgentStatus::Idle.is_resting());
    assert!(AgentStatus::Done.is_resting());
}

#[test]
fn blocked_is_provably_undelivered_timeout_is_not() {
    assert_eq!(PromptError::Blocked.delivered(), Some(false));
    assert_eq!(
        PromptError::Busy(AgentStatus::Working).delivered(),
        Some(false)
    );
    assert_eq!(PromptError::Timeout.delivered(), None);
    assert_eq!(PromptError::Stalled.delivered(), None);
}

fn handle(prompt: &str) -> Handle {
    Handle {
        pane: "w1:p1".into(),
        seq0: 10,
        transcript: None,
        offset: 0,
        prompt: prompt.into(),
    }
}

#[test]
fn turn_must_advance_the_seq() {
    let h = handle("q");
    let stale = AgentInfo {
        pane: "w1:p1".into(),
        agent: "scribe".into(),
        status: AgentStatus::Idle,
        state_change_seq: 10,
        session: None,
    };
    assert!(!turn_advanced(&h, &stale), "same seq = stale --wait match");
    let fresh = AgentInfo {
        state_change_seq: 11,
        ..stale.clone()
    };
    assert!(turn_advanced(&h, &fresh));
    let working = AgentInfo {
        state_change_seq: 12,
        status: AgentStatus::Working,
        ..stale.clone()
    };
    assert!(
        !turn_advanced(&h, &working),
        "still working = not a finished turn"
    );
}

/// Harvest a whole JSONL fixture, from its first byte.
fn harvest_fixture(lines: &[&str]) -> Option<String> {
    harvest_transcript(Some(&lines.join("\n")))
}

fn asst(text: &str) -> String {
    format!(
        r#"{{"type":"assistant","message":{{"content":[{{"type":"text","text":"{text}"}}]}}}}"#
    )
}

#[test]
fn harvest_takes_only_this_turns_assistant_text() {
    let got = harvest_fixture(&[
        r#"{"type":"user","message":{"content":"my question"}}"#,
        &asst("first part"),
        &asst("second part"),
        r#"{"type":"user","message":{"content":"the NEXT question"}}"#,
        &asst("belongs to the next turn"),
    ]);
    assert_eq!(got.as_deref(), Some("first part\n\nsecond part"));
}

#[test]
fn harvest_skips_sidechain_subagent_records() {
    let got = harvest_fixture(&[
        r#"{"type":"user","message":{"content":"q"}}"#,
        &asst("real reply"),
        r#"{"type":"assistant","isSidechain":true,"message":{"content":[{"type":"text","text":"SUBAGENT NOISE"}]}}"#,
    ]);
    assert_eq!(got.as_deref(), Some("real reply"));
}

#[test]
fn harvest_ignores_thinking_and_tool_use_blocks() {
    let got = harvest_fixture(&[
        r#"{"type":"user","message":{"content":"q"}}"#,
        r#"{"type":"assistant","message":{"content":[{"type":"thinking","thinking":"INTERNAL"},{"type":"tool_use","name":"Read","input":{}},{"type":"text","text":"visible answer"}]}}"#,
    ]);
    assert_eq!(got.as_deref(), Some("visible answer"));
}

#[test]
fn harvest_does_not_end_on_a_tool_result_user_record() {
    let got = harvest_fixture(&[
        r#"{"type":"user","message":{"content":"q"}}"#,
        &asst("before the tool"),
        r#"{"type":"user","toolUseResult":{"ok":true},"message":{"content":"tool output"}}"#,
        &asst("after the tool"),
    ]);
    assert_eq!(
        got.as_deref(),
        Some("before the tool\n\nafter the tool"),
        "a tool-result user record is not a new human prompt"
    );
}

#[test]
fn harvest_survives_a_partial_trailing_write() {
    let got = harvest_fixture(&[
        r#"{"type":"user","message":{"content":"q"}}"#,
        &asst("complete record"),
        r#"{"type":"assistant","message":{"content":[{"type":"te"#,
    ]);
    assert_eq!(got.as_deref(), Some("complete record"));
}

#[test]
fn harvest_ignores_unknown_record_types() {
    let got = harvest_fixture(&[
        r#"{"type":"last-prompt","value":"x"}"#,
        r#"{"type":"file-history-snapshot"}"#,
        r#"{"type":"user","message":{"content":"q"}}"#,
        r#"{"type":"queue-operation"}"#,
        &asst("still found it"),
    ]);
    assert_eq!(got.as_deref(), Some("still found it"));
}

#[test]
fn harvest_returns_none_when_nothing_follows_the_watermark() {
    assert_eq!(harvest_fixture(&[]), None);
    assert_eq!(
        harvest_fixture(&[r#"{"type":"user","message":{"content":"q"}}"#]),
        None,
        "a question with no reply yet is not an empty-string reply"
    );
}

#[test]
fn stray_lines_of_a_transcript_do_not_count() {
    let q = r#"{"type":"user","message":{"content":"q"}}"#;
    let plain = harvest_fixture(&[q, &asst("reply")]);
    let strewn = harvest_fixture(&["", "not json", q, "   ", "{\"type\":", &asst("reply"), ""]);
    assert_eq!(plain.as_deref(), Some("reply"));
    assert_eq!(strewn, plain);
    assert_eq!(harvest_fixture(&[q, &asst("   ")]), None, "blank is no reply");
}

#[test]
fn a_transcript_that_cannot_be_read_gives_nothing() {
    assert_eq!(harvest_transcript(None), None);
}

#[test]
fn screen_strip_drops_prompt_echo_and_chrome() {
    let screen = concat_lines(&[
        "some older output\n",
        "\u{276F} explain the auth flow\n",
        "\u{23FA} The auth flow starts in login.ts.\n",
        "  It then calls verify().\n",
        "  \u{23BF}  Read 40 lines\n",
        "\u{273B} Thinking… (12s)\n",
        "\u{2500}\u{2500}\u{2500}\u{2500}\u{2500}\n",
        "\u{276F} \n",
    ]);
    let got = strip_chrome(&screen, "explain the auth flow");
    assert_eq!(
        got,
        "The auth flow starts in login.ts.\n  It then calls verify()."
    );
}

fn concat_lines(parts: &[&str]) -> String {
    parts.join("")
}

#[test]
fn screen_strip_without_echo_keeps_body() {
    let got = strip_chrome("\u{23FA} bare reply\n", "not on screen");
    assert_eq!(got, "bare reply");
}

fn ran(ok: bool, stdout: &str, stderr: &str) -> Result<GitOut, String> {
    Ok(GitOut {
        ok,
        stdout: stdout.as_bytes().to_vec(),
        stderr: stderr.as_bytes().to_vec(),
    })
}

const IDLE: &str = r#"{"result":{"agent":{"pane_id":"w1:p1","agent":"scribe","agent_status":"idle","state_change_seq":41,"agent_session":{"agent":"scribe","kind":"id","value":"uuid"}}}}"#;

#[test]
fn an_agent_is_read_out_of_its_document() {
    let info = agent_get("w1:p1", ran(true, IDLE, "")).unwrap();
    assert_eq!(info.pane, "w1:p1");
    assert_eq!(info.agent, "scribe");
    assert_eq!(info.status, AgentStatus::Idle);
    assert_eq!(info.state_change_seq, 41);
    let session = info.session.unwrap();
    assert_eq!(session.kind, "id");
    assert_eq!(session.value, "uuid");
    assert!(agent_get("w1:p1", ran(true, "{}", "")).is_err());
    assert!(agent_get("w1:p1", ran(true, "not json", "")).is_err());
    assert!(agent_get("w1:p1", Err("no such program".into())).is_err());
    assert_eq!(agent_get_args("w1:p1"), vec!["agent", "get", "w1:p1"]);
}

#[test]
fn the_error_is_the_documents_own_words_where_it_has_some() {
    assert_eq!(error_text(" no such agent \n", None), "no such agent");
    assert_eq!(run_text(ran(false, "noise", " plain \n")).unwrap_err(), "plain");
    assert_eq!(
        run_text(ran(
            false,
            "noise",
            r#"{"error":{"code":"agent_blocked","message":"waiting"}}"#
        ))
        .unwrap_err(),
        "agent_blocked: waiting"
    );
    assert_eq!(
        run_text(ran(false, "", r#"{"error":{"code":"timeout"}}"#)).unwrap_err(),
        "timeout"
    );
    assert_eq!(
        run_text(ran(false, "", r#" {"other":1} "#)).unwrap_err(),
        r#"{"other":1}"#
    );
    assert_eq!(
        run_text(Err("no such file".into())).unwrap_err(),
        "spawn failed: no such file"
    );
    assert_eq!(run_text(ran(true, "fine", "ignored")).unwrap(), "fine");
}

#[test]
fn each_prompt_error_comes_from_its_own_words() {
    assert!(matches!(
        classify("agent_blocked: waiting".into()),
        PromptError::Blocked
    ));
    assert!(matches!(
        classify("agent_prompt_stalled".into()),
        PromptError::Stalled
    ));
    assert!(matches!(
        classify("timeout: 600000".into()),
        PromptError::Timeout
    ));
    match classify("something odd".into()) {
        PromptError::Cli(e) => assert_eq!(e, "something odd"),
        other => panic!("{other:?}"),
    }
    assert!(matches!(
        prompt_wait(ran(true, IDLE, "")),
        Ok(AgentInfo {
            state_change_seq: 41,
            ..
        })
    ));
    match prompt_wait(ran(true, "{}", "")) {
        Err(PromptError::Cli(e)) => assert_eq!(e, "no agent in prompt reply"),
        other => panic!("{other:?}"),
    }
    assert!(matches!(
        prompt_wait(ran(false, "", r#"{"error":{"code":"timeout"}}"#)),
        Err(PromptError::Timeout)
    ));
    assert_eq!(
        PromptError::Busy(AgentStatus::Working).message(),
        "agent is working — queued until it rests"
    );
    assert_eq!(
        PromptError::Timeout.message(),
        "timed out; delivery unknown"
    );
}

#[test]
fn a_turn_opens_only_on_a_resting_agent() {
    let info = agent_get("w1:p1", ran(true, IDLE, "")).unwrap();
    let h = begin_turn(Ok(info.clone()), "w1:p1", "q", Some("/t.jsonl".into()), 7).unwrap();
    assert_eq!(h.seq0, 41);
    assert_eq!(h.offset, 7);
    assert_eq!(h.prompt, "q");
    assert_eq!(h.transcript.as_deref(), Some("/t.jsonl"));
    let busy = AgentInfo {
        status: AgentStatus::Working,
        ..info.clone()
    };
    assert!(matches!(
        begin_turn(Ok(busy), "w1:p1", "q", None, 0),
        Err(PromptError::Busy(AgentStatus::Working))
    ));
    let blocked = AgentInfo {
        status: AgentStatus::Blocked,
        ..info
    };
    assert!(matches!(
        begin_turn(Ok(blocked), "w1:p1", "q", None, 0),
        Err(PromptError::Blocked)
    ));
}

#[test]
fn the_prompt_is_waited_on_with_its_timeout() {
    assert_eq!(
        prompt_args(&handle("why?"), 600_000),
        vec![
            "agent", "prompt", "w1:p1", "why?", "--wait", "--until", "idle", "--until", "done",
            "--timeout", "600000"
        ]
    );
}

#[test]
fn the_newest_transcript_wins() {
    assert_eq!(most_recent(&[]), None);
    assert_eq!(most_recent(&[3, 9, 4]), Some(1));
}

#[test]
fn only_a_known_session_has_a_transcript() {
    let session = |agent: &str, kind: &str, value: &str| SessionRef {
        agent: agent.into(),
        kind: kind.into(),
        value: value.into(),
    };
    match transcript_path(&session("scribe", "id", "abc"), "scribe") {
        TranscriptQuery::Named { projects, name } => {
            assert_eq!(projects, ".scribe/projects");
            assert_eq!(name, "abc.jsonl");
        }
        other => panic!("{other:?}"),
    }
    match transcript_path(&session("codex", "path", "/x/y.jsonl"), "scribe") {
        TranscriptQuery::At(path) => assert_eq!(path, "/x/y.jsonl"),
        other => panic!("{other:?}"),
    }
    assert!(matches!(
        transcript_path(&session("codex", "id", "abc"), "scribe"),
        TranscriptQuery::Nowhere
    ));
    assert!(matches!(
        transcript_path(&session("scribe", "url", "abc"), "scribe"),
        TranscriptQuery::Nowhere
    ));
}

#[test]
fn a_screen_that_could_not_be_read_gives_nothing() {
    assert_eq!(harvest_screen(&handle("q"), Err("gone".into())), None);
    assert_eq!(
        harvest_screen(&handle("q"), ran(true, "\u{23FA} bare reply\n", "")).as_deref(),
        Some("bare reply")
    );
}
