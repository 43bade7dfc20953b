use gitview::agentio::{AgentInfo, AgentStatus, Handle, PromptError};
use gitview::reply::{
    compose_prompt, indent_continuations, longest_backtick_run, run_one, Event, ReplyMsg,
    ReplyReq, Retry, Stage,
};
use gitview::thread::{AgentRef, Anchor, Author, Thread, ThreadState};

fn thread_with(text: &str, snippet: &str) -> Thread {
    let mut t = Thread::new(
        1,
        Anchor {
            file: "src/a.rs".into(),
            start: 10,
            end: 12,
            cached: false,
            snippet: snippet.to_string(),
            blob: None,
            head_sha: None,
        },
        text.to_string(),
    );
    t.state = ThreadState::Draft;
    t
}

#[test]
fn a_prompt_names_the_lines_and_fences_the_code() {
    let t = thread_with("why is this safe?", "+let x = y.unwrap();\n");
    let p = compose_prompt("/repo", &t);
    assert!(
        p.contains("/repo/src/a.rs:10-12 — why is this safe?"),
        "{p}"
    );
    assert!(p.contains("```diff\n+let x = y.unwrap();\n```"), "{p}");
}

#[test]
fn a_whole_file_thread_names_only_the_file() {
    let mut t = thread_with("general question", "");
    t.anchor.start = 0;
    t.anchor.end = 0;
    let p = compose_prompt("/repo", &t);
    assert!(p.starts_with("/repo/src/a.rs — general question"), "{p}");
    assert!(!p.contains("a.rs:"), "no bogus line range: {p}");
}

#[test]
fn only_unsent_turns_are_asked() {
    let mut t = thread_with("first question", "");
    t.mark_sent(AgentRef {
        pane: "w1:p1".into(),
        agent: "scribe".into(),
        session: None,
        session_kind: None,
    });
    t.push(Author::Agent, "an answer".into());
    t.push(Author::Human, "follow-up".into());
    let p = compose_prompt("/repo", &t);
    assert!(p.contains("follow-up"), "{p}");
    assert!(
        !p.contains("first question"),
        "a delivered turn must not be re-asked: {p}"
    );
    assert!(!p.contains("an answer"), "the agent's own words: {p}");
}

#[test]
fn multi_line_questions_keep_their_shape_under_the_anchor() {
    let t = thread_with("line one\nline two", "");
    let p = compose_prompt("/repo", &t);
    assert!(p.contains("— line one\n  line two"), "{p}");
}

/// A diff of a Markdown file routinely contains ``` lines. A fixed
/// three-backtick fence would be closed by the snippet's own text, so
/// everything after it reads as prose — or as instructions.
#[test]
fn a_snippet_containing_a_fence_gets_a_longer_one() {
    let t = thread_with("why?", "+```rust\n+let x = 1;\n+```\n");
    let p = compose_prompt("/repo", &t);
    assert!(
        p.contains("````diff"),
        "fence must outgrow the content: {p}"
    );
    assert!(
        p.ends_with("````\n"),
        "and close with the same width: {p:?}"
    );
    // The snippet's own fences survive intact inside it.
    assert!(p.contains("+```rust"), "{p}");
}

#[test]
fn a_snippet_without_a_trailing_newline_still_closes_its_fence() {
    let t = thread_with("q", "+no trailing newline");
    let p = compose_prompt("/repo", &t);
    assert!(p.ends_with("```\n"), "{p:?}");
    assert!(
        !p.contains("newline```"),
        "fence must start its own line: {p}"
    );
}

#[test]
fn the_fence_outgrows_the_longest_run() {
    assert_eq!(longest_backtick_run("a ``` b ```` c"), 4);
    assert_eq!(longest_backtick_run("plain"), 0);
    assert_eq!(indent_continuations("a\nb\nc"), "a\n  b\n  c");
}

// ---- one request, step by step --------------------------------------------------

fn request() -> ReplyReq {
    ReplyReq {
        pane: "w1:p1".into(),
        id: 5,
        prompt: "why?".into(),
        turns: vec![0, 2],
        timeout_ms: 600_000,
    }
}

fn agent(seq: u64, status: AgentStatus) -> AgentInfo {
    AgentInfo {
        pane: "w1:p1".into(),
        agent: "scribe".into(),
        status,
        state_change_seq: seq,
        session: None,
    }
}

fn handle() -> Handle {
    Handle {
        pane: "w1:p1".into(),
        seq0: 10,
        transcript: None,
        offset: 0,
        prompt: "why?".into(),
    }
}

#[test]
fn a_reply_goes_from_delivery_to_text() {
    let req = request();
    let step = run_one(
        &req,
        Stage::Resolve,
        Event::Agent(Ok(agent(10, AgentStatus::Idle))),
    );
    assert!(step.say.is_none());
    let step = run_one(&req, step.next, Event::Opened(Ok(handle())));
    match &step.say {
        Some(ReplyMsg::Delivered { id, turns, agent }) => {
            assert_eq!(*id, 5);
            assert_eq!(turns, &vec![0, 2]);
            assert_eq!(agent.agent, "scribe");
        }
        _ => panic!("not announced"),
    }
    let step = run_one(&req, step.next, Event::Heard(true));
    let step = run_one(
        &req,
        step.next,
        Event::Waited(Ok(agent(11, AgentStatus::Idle))),
    );
    let step = run_one(&req, step.next, Event::Transcript(None));
    let step = run_one(&req, step.next, Event::Screen(Some("because".into())));
    assert!(matches!(step.next, Stage::Over));
    match step.say {
        Some(ReplyMsg::Replied { id, text }) => {
            assert_eq!(id, 5);
            assert_eq!(text, "because");
        }
        _ => panic!("no reply"),
    }
}

#[test]
fn a_refused_prompt_is_pending_again_an_unproven_one_is_not() {
    let req = request();
    let wait = || Stage::Wait { handle: handle() };
    let retry_of = |event: Event| match run_one(&req, wait(), event).say {
        Some(ReplyMsg::Failed { retry, turns, .. }) => {
            assert_eq!(turns, vec![0, 2]);
            retry
        }
        _ => panic!("no failure"),
    };
    assert_eq!(
        retry_of(Event::Waited(Err(PromptError::Blocked))),
        Retry::Pending
    );
    assert_eq!(
        retry_of(Event::Waited(Err(PromptError::Timeout))),
        Retry::Unknown
    );
    assert_eq!(
        retry_of(Event::Waited(Ok(agent(10, AgentStatus::Idle)))),
        Retry::Unknown,
        "a stale match is no answer"
    );
    match run_one(&req, Stage::Resolve, Event::Agent(Err("no agent on w1:p1".into()))).say {
        Some(msg) => {
            assert_eq!(msg.id(), 5);
            assert!(msg.is_terminal());
        }
        None => panic!("no failure"),
    }
}

#[test]
fn nobody_listening_ends_the_request() {
    let step = run_one(
        &request(),
        Stage::Announce { handle: handle() },
        Event::Heard(false),
    );
    assert!(matches!(step.next, Stage::Over));
    assert!(step.say.is_none());
}
