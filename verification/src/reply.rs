//! Asking an agent one thread's question and bringing its answer back.

use vstd::prelude::*;

use crate::agentio::{advanced, turn_advanced, AgentInfo, Handle, PromptError};
use crate::path::{join_path, joined};
use crate::text::{
    blank, chars_of, concat3, decimal, decimal_of, ends_with, group_deep, has_suffix, is_blank,
    join, join_of, lines, lines_of, occurs, occurs_at, rep, repeat_char,
};
use crate::thread::{pending, AgentRef, Anchor, Thread, Turn};

verus! {

/// How long one turn is watched before its reply is given up on.
pub const DEFAULT_TIMEOUT_MS: u64 = 600_000;

/// A question of thread `id` for the agent on `pane`.
pub struct ReplyReq {
    pub pane: String,
    pub id: u64,
    pub prompt: String,
    /// The turns that the prompt was made of.
    pub turns: Vec<usize>,
    pub timeout_ms: u64,
}

/// Whether a question can be asked again.
#[derive(Debug, Clone, Copy, PartialEq, Eq, Structural)]
pub enum Retry {
    /// It never reached the agent.
    Pending,
    /// It may have reached the agent.
    Unknown,
}

/// What is reported of a request.
pub enum ReplyMsg {
    /// The question is on its way.
    Delivered { id: u64, turns: Vec<usize>, agent: Box<AgentRef> },
    /// What the agent said.
    Replied { id: u64, text: String },
    /// What went wrong.
    Failed { id: u64, turns: Vec<usize>, err: String, retry: Retry },
}

impl ReplyMsg {
    pub open spec fn of(self) -> u64 {
        match self {
            ReplyMsg::Delivered { id, .. } => id,
            ReplyMsg::Replied { id, .. } => id,
            ReplyMsg::Failed { id, .. } => id,
        }
    }

    pub fn id(&self) -> (r: u64)
        ensures
            r == self.of(),
    {
        match self {
            ReplyMsg::Delivered { id, .. } => *id,
            ReplyMsg::Replied { id, .. } => *id,
            ReplyMsg::Failed { id, .. } => *id,
        }
    }

    /// Whether the message ends its request.
    pub open spec fn ends(self) -> bool {
        !(self is Delivered)
    }

    pub fn is_terminal(&self) -> (r: bool)
        ensures
            r == self.ends(),
    {
        match self {
            ReplyMsg::Delivered { .. } => false,
            _ => true,
        }
    }
}

// ---- one request ------------------------------------------------------------------

/// How far a request has come. Each stage waits for one event.
pub enum Stage {
    /// Who is on the pane?
    Resolve,
    /// May the agent be asked now?
    Open { agent: AgentRef },
    /// Is anybody still listening?
    Announce { handle: Handle },
    /// How did the turn end?
    Wait { handle: Handle },
    /// What does the transcript say?
    Transcript { handle: Handle },
    /// What does the screen say?
    Screen { handle: Handle },
    Over,
}

/// What a stage waits for.
pub enum Event {
    Agent(Result<AgentInfo, String>),
    Opened(Result<Handle, PromptError>),
    /// Whether the last message was received.
    Heard(bool),
    Waited(Result<AgentInfo, PromptError>),
    Transcript(Option<String>),
    Screen(Option<String>),
}

/// The next stage, and what to report before it.
pub struct Step {
    pub next: Stage,
    pub say: Option<ReplyMsg>,
}

/// The agent that a thread will remember.
pub open spec fn agent_ref(req: ReplyReq, info: AgentInfo) -> AgentRef {
    AgentRef {
        pane: req.pane,
        agent: info.agent,
        session: match info.session {
            Some(s) => Some(s.value),
            None => None,
        },
        session_kind: match info.session {
            Some(s) => Some(s.kind),
            None => None,
        },
    }
}

/// A text that says something.
pub open spec fn readable(t: Option<String>) -> bool {
    t is Some && !is_blank(t->0@)
}

pub open spec fn next_stage(req: ReplyReq, stage: Stage, event: Event) -> Stage {
    match (stage, event) {
        (Stage::Resolve, Event::Agent(Ok(info))) => Stage::Open { agent: agent_ref(req, info) },
        (Stage::Resolve, Event::Agent(Err(_))) => Stage::Over,
        (Stage::Open { agent }, Event::Opened(Ok(handle))) => Stage::Announce { handle },
        (Stage::Open { agent }, Event::Opened(Err(_))) => Stage::Over,
        (Stage::Announce { handle }, Event::Heard(true)) => Stage::Wait { handle },
        (Stage::Announce { handle }, Event::Heard(false)) => Stage::Over,
        (Stage::Wait { handle }, Event::Waited(Ok(info))) => if advanced(handle, info) {
            Stage::Transcript { handle }
        } else {
            Stage::Over
        },
        (Stage::Wait { handle }, Event::Waited(Err(_))) => Stage::Over,
        (Stage::Transcript { handle }, Event::Transcript(t)) => if readable(t) {
            Stage::Over
        } else {
            Stage::Screen { handle }
        },
        (Stage::Screen { handle }, Event::Screen(_)) => Stage::Over,
        (s, _) => s,
    }
}

/// A failure of this request, with this text.
pub open spec fn failed(req: ReplyReq, m: Option<ReplyMsg>, err: Seq<char>, retry: Retry) -> bool {
    &&& m is Some
    &&& m->0 is Failed
    &&& m->0->Failed_id == req.id
    &&& m->0->Failed_turns@ == req.turns@
    &&& m->0->err@ == err
    &&& m->0->retry == retry
}

pub open spec fn replied(req: ReplyReq, m: Option<ReplyMsg>, text: String) -> bool {
    m == Some(ReplyMsg::Replied { id: req.id, text })
}

/// What a refused or lost question is reported as.
pub open spec fn words_for(e: PromptError) -> Seq<char> {
    match e {
        PromptError::Blocked => "the agent is waiting on a prompt of its own — clear it first"@,
        PromptError::Busy(s) => "the agent is "@ + s.word() + " — try again when it settles"@,
        PromptError::Stalled => "the agent accepted the text but never started working"@,
        PromptError::Timeout => "timed out waiting for the agent"@,
        PromptError::Cli(m) => m@,
    }
}

/// Whether a question that failed this way may be asked again.
pub open spec fn retry_after(e: PromptError) -> Retry {
    if e.arrival() == Some(false) {
        Retry::Pending
    } else {
        Retry::Unknown
    }
}

/// What a step reports.
pub open spec fn says(req: ReplyReq, stage: Stage, event: Event, m: Option<ReplyMsg>) -> bool {
    match (stage, event) {
        (Stage::Resolve, Event::Agent(Err(e))) => failed(req, m, e@, Retry::Pending),
        (Stage::Open { agent }, Event::Opened(Ok(_))) => {
            &&& m is Some
            &&& m->0 is Delivered
            &&& m->0->Delivered_id == req.id
            &&& m->0->Delivered_turns@ == req.turns@
            &&& *m->0->agent == agent
        },
        (Stage::Open { agent }, Event::Opened(Err(e))) => failed(req, m, words_for(e), Retry::Pending),
        (Stage::Wait { handle }, Event::Waited(Ok(info))) => if advanced(handle, info) {
            m is None
        } else {
            failed(req, m, "the agent never finished this turn"@, Retry::Unknown)
        },
        (Stage::Wait { handle }, Event::Waited(Err(e))) => failed(req, m, words_for(e), retry_after(e)),
        (Stage::Transcript { handle }, Event::Transcript(t)) => if readable(t) {
            replied(req, m, t->0)
        } else {
            m is None
        },
        (Stage::Screen { handle }, Event::Screen(t)) => if readable(t) {
            replied(req, m, t->0)
        } else {
            failed(
                req,
                m,
                "the agent replied, but its answer could not be read"@,
                Retry::Unknown,
            )
        },
        _ => m is None,
    }
}

pub fn describe(e: &PromptError) -> (r: String)
    ensures
        r@ == words_for(*e),
{
    match e {
        PromptError::Blocked => "the agent is waiting on a prompt of its own — clear it first".to_owned(),
        PromptError::Busy(s) => concat3(
            "the agent is ",
            s.as_str(),
            " — try again when it settles",
        ),
        PromptError::Stalled => "the agent accepted the text but never started working".to_owned(),
        PromptError::Timeout => "timed out waiting for the agent".to_owned(),
        PromptError::Cli(m) => m.clone(),
    }
}

/// A copy of turn positions.
pub(crate) fn copy_turns(v: &Vec<usize>) -> (r: Vec<usize>)
    ensures
        r@ == v@,
{
    let mut out: Vec<usize> = Vec::new();
    let mut i: usize = 0;
    while i < v.len()
        invariant
            i <= v@.len(),
            out@ == v@.take(i as int),
        decreases v@.len() - i,
    {
        out.push(v[i]);
        assert(v@.take(i + 1) =~= v@.take(i as int).push(v@[i as int]));
        i += 1;
    }
    assert(v@.take(v@.len() as int) =~= v@);
    out
}

fn fail(req: &ReplyReq, err: String, retry: Retry) -> (r: Step)
    ensures
        r.next is Over,
        failed(*req, r.say, err@, retry),
{
    Step {
        next: Stage::Over,
        say: Some(ReplyMsg::Failed { id: req.id, turns: copy_turns(&req.turns), err, retry }),
    }
}

fn agent_ref_of(req: &ReplyReq, info: AgentInfo) -> (r: AgentRef)
    ensures
        r == agent_ref(*req, info),
{
    match info.session {
        Some(s) => AgentRef {
            pane: req.pane.clone(),
            agent: info.agent,
            session: Some(s.value),
            session_kind: Some(s.kind),
        },
        None => AgentRef {
            pane: req.pane.clone(),
            agent: info.agent,
            session: None,
            session_kind: None,
        },
    }
}

/// One step of a request: from where it stands and what happened, to where it
/// stands next and what to report.
pub fn run_one(req: &ReplyReq, stage: Stage, event: Event) -> (r: Step)
    ensures
        r.next == next_stage(*req, stage, event),
        says(*req, stage, event, r.say),
{
    match (stage, event) {
        (Stage::Resolve, Event::Agent(Ok(info))) => Step {
            next: Stage::Open { agent: agent_ref_of(req, info) },
            say: None,
        },
        (Stage::Resolve, Event::Agent(Err(e))) => fail(req, e, Retry::Pending),
        (Stage::Open { agent }, Event::Opened(Ok(handle))) => Step {
            next: Stage::Announce { handle },
            say: Some(
                ReplyMsg::Delivered {
                    id: req.id,
                    turns: copy_turns(&req.turns),
                    agent: Box::new(agent),
                },
            ),
        },
        (Stage::Open { agent: _ }, Event::Opened(Err(e))) => fail(req, describe(&e), Retry::Pending),
        (Stage::Announce { handle }, Event::Heard(heard)) => if heard {
            Step { next: Stage::Wait { handle }, say: None }
        } else {
            Step { next: Stage::Over, say: None }
        },
        (Stage::Wait { handle }, Event::Waited(Ok(info))) => if turn_advanced(&handle, &info) {
            Step { next: Stage::Transcript { handle }, say: None }
        } else {
            fail(req, "the agent never finished this turn".to_owned(), Retry::Unknown)
        },
        (Stage::Wait { handle: _ }, Event::Waited(Err(e))) => {
            let retry: Retry = match e.delivered() {
                Some(false) => Retry::Pending,
                _ => Retry::Unknown,
            };
            fail(req, describe(&e), retry)
        },
        (Stage::Transcript { handle }, Event::Transcript(t)) => match t {
            Some(text) => if blank(text.as_str()) {
                Step { next: Stage::Screen { handle }, say: None }
            } else {
                Step { next: Stage::Over, say: Some(ReplyMsg::Replied { id: req.id, text }) }
            },
            None => Step { next: Stage::Screen { handle }, say: None },
        },
        (Stage::Screen { handle: _ }, Event::Screen(t)) => match t {
            Some(text) => if blank(text.as_str()) {
                fail(
                    req,
                    "the agent replied, but its answer could not be read".to_owned(),
                    Retry::Unknown,
                )
            } else {
                Step { next: Stage::Over, say: Some(ReplyMsg::Replied { id: req.id, text }) }
            },
            None => fail(
                req,
                "the agent replied, but its answer could not be read".to_owned(),
                Retry::Unknown,
            ),
        },
        (s, _) => Step { next: s, say: None },
    }
}

// ---- the prompt -------------------------------------------------------------------------

/// Where a thread hangs, in words: the absolute path, and the lines unless it
/// is about the whole file.
pub open spec fn place(root: Seq<char>, a: Anchor) -> Seq<char> {
    let path = joined(root, a.file@);
    if a.end == 0 {
        path
    } else {
        path + ":"@ + decimal(a.start as nat) + "-"@ + decimal(a.end as nat)
    }
}

/// A question with its further lines indented.
pub open spec fn indented(text: Seq<char>) -> Seq<char> {
    join(lines(text), "\n  "@)
}

/// The pending turns as questions, one after the other.
pub open spec fn questions(at: Seq<char>, turns: Seq<Turn>) -> Seq<char>
    decreases turns.len(),
{
    if turns.len() == 0 {
        Seq::empty()
    } else if pending(turns.last()) {
        questions(at, turns.drop_last()) + at + " — "@ + indented(turns.last().text@) + "\n"@
    } else {
        questions(at, turns.drop_last())
    }
}

/// How many backticks a text ends in.
pub open spec fn backtick_tail(s: Seq<char>) -> nat
    decreases s.len(),
{
    if s.len() > 0 && s.last() == '`' {
        backtick_tail(s.drop_last()) + 1
    } else {
        0
    }
}

/// The longest run of backticks in a text.
pub open spec fn longest_backticks(s: Seq<char>) -> nat
    decreases s.len(),
{
    if s.len() == 0 {
        0
    } else {
        let init = longest_backticks(s.drop_last());
        if backtick_tail(s) > init {
            backtick_tail(s)
        } else {
            init
        }
    }
}

/// The fence of a snippet: longer than any run of backticks in it, and at
/// least three.
pub open spec fn fence(snippet: Seq<char>) -> Seq<char> {
    let n = longest_backticks(snippet);
    rep('`', if n > 2 { n + 1 } else { 3 })
}

/// The snippet between its fences.
pub open spec fn fenced(snippet: Seq<char>) -> Seq<char> {
    let body = if has_suffix(snippet, "\n"@) {
        snippet
    } else {
        snippet.push('\n')
    };
    fence(snippet) + "diff\n"@ + body + fence(snippet) + "\n"@
}

pub open spec fn prompt_text(root: Seq<char>, t: Thread) -> Seq<char> {
    questions(place(root, t.anchor), t.turns@) + if t.anchor.snippet@.len() == 0 {
        Seq::empty()
    } else {
        fenced(t.anchor.snippet@)
    }
}

pub fn longest_backtick_run(s: &str) -> (r: usize)
    ensures
        r == longest_backticks(s@),
{
    broadcast use group_deep;

    let v: Vec<char> = chars_of(s);
    let n: usize = v.len();
    let mut best: usize = 0;
    let mut run: usize = 0;
    let mut i: usize = 0;
    while i < n
        invariant
            i <= n == v@.len(),
            v@ == s@,
            run == backtick_tail(v@.take(i as int)),
            best == longest_backticks(v@.take(i as int)),
            run <= i,
        decreases n - i,
    {
        assert(v@.take(i + 1).drop_last() =~= v@.take(i as int));
        if v[i] == '`' {
            run += 1;
        } else {
            run = 0;
        }
        if run > best {
            best = run;
        }
        i += 1;
    }
    best
}

pub fn indent_continuations(text: &str) -> (r: String)
    ensures
        r@ == indented(text@),
{
    let ls: Vec<String> = lines_of(text);
    join_of(&ls, "\n  ")
}

/// The prompt for one thread: where it hangs, what is asked, and the code it
/// is about.
pub fn compose_prompt(repo_root: &str, thread: &Thread) -> (r: String)
    ensures
        r@ == prompt_text(repo_root@, *thread),
{
    broadcast use group_deep;

    let a: &Anchor = &thread.anchor;
    let mut at: String = join_path(repo_root, a.file.as_str());
    if a.end != 0 {
        at.push_str(":");
        at.push_str(decimal_of(a.start as u64).as_str());
        at.push_str("-");
        at.push_str(decimal_of(a.end as u64).as_str());
    }
    assert(at@ == place(repo_root@, *a));
    let mut msg: String = String::new();
    let mut i: usize = 0;
    while i < thread.turns.len()
        invariant
            i <= thread.turns@.len(),
            msg@ == questions(at@, thread.turns@.take(i as int)),
        decreases thread.turns@.len() - i,
    {
        assert(thread.turns@.take(i + 1).drop_last() =~= thread.turns@.take(i as int));
        let t: &Turn = &thread.turns[i];
        if t.author == crate::thread::Author::Human && !t.sent {
            msg.push_str(at.as_str());
            msg.push_str(" — ");
            msg.push_str(indent_continuations(t.text.as_str()).as_str());
            msg.push_str("\n");
        }
        i += 1;
    }
    let ghost asked = msg@;
    if !a.snippet.as_str().is_empty() {
        let run: usize = longest_backtick_run(a.snippet.as_str());
        let mut bar: String = repeat_char('`', if run > 2 { run } else { 2 });
        bar.push('`');
        assert(bar@ =~= fence(a.snippet@));
        msg.push_str(bar.as_str());
        msg.push_str("diff\n");
        msg.push_str(a.snippet.as_str());
        if !ends_with(a.snippet.as_str(), "\n") {
            msg.push('\n');
        }
        msg.push_str(bar.as_str());
        msg.push_str("\n");
        assert(msg@ =~= asked + fenced(a.snippet@));
    } else {
        assert(msg@ =~= asked + Seq::<char>::empty());
    }
    msg
}

// ---- laws ------------------------------------------------------------------------------------

/// The messages of a run, one per event; `None` where an event is not reported.
pub open spec fn run_says(req: ReplyReq, stage: Stage, events: Seq<Event>, said: Seq<Option<ReplyMsg>>) -> bool
    decreases events.len(),
{
    &&& said.len() == events.len()
    &&& events.len() > 0 ==> {
        &&& says(req, stage, events[0], said[0])
        &&& run_says(req, next_stage(req, stage, events[0]), events.skip(1), said.skip(1))
    }
}

/// Where a run of events leads.
pub open spec fn run_stage(req: ReplyReq, stage: Stage, events: Seq<Event>) -> Stage
    decreases events.len(),
{
    if events.len() == 0 {
        stage
    } else {
        run_stage(req, next_stage(req, stage, events[0]), events.skip(1))
    }
}

/// How many of the messages end the request.
pub open spec fn endings(said: Seq<Option<ReplyMsg>>) -> nat
    decreases said.len(),
{
    if said.len() == 0 {
        0
    } else {
        endings(said.skip(1)) + if said[0] is Some && said[0]->0.ends() {
            1nat
        } else {
            0nat
        }
    }
}

/// Whether a run loses its listener.
pub open spec fn unheard(req: ReplyReq, stage: Stage, events: Seq<Event>) -> bool
    decreases events.len(),
{
    if events.len() == 0 {
        false
    } else {
        (stage is Announce && events[0] == Event::Heard(false)) || unheard(
            req,
            next_stage(req, stage, events[0]),
            events.skip(1),
        )
    }
}

/// A request ends with exactly one message, unless its listener is gone: then
/// it ends with none. Until it ends, it has no such message.
pub proof fn law_one_ending(req: ReplyReq, stage: Stage, events: Seq<Event>, said: Seq<Option<ReplyMsg>>)
    requires
        !(stage is Over),
        run_says(req, stage, events, said),
    ensures
        endings(said) == if run_stage(req, stage, events) is Over && !unheard(req, stage, events) {
            1nat
        } else {
            0nat
        },
    decreases events.len(),
{
    if events.len() > 0 {
        let next = next_stage(req, stage, events[0]);
        if next is Over {
            lemma_over_is_silent(req, events.skip(1), said.skip(1));
        } else {
            law_one_ending(req, next, events.skip(1), said.skip(1));
        }
    }
}

proof fn lemma_over_is_silent(req: ReplyReq, events: Seq<Event>, said: Seq<Option<ReplyMsg>>)
    requires
        run_says(req, Stage::Over, events, said),
    ensures
        endings(said) == 0,
        run_stage(req, Stage::Over, events) is Over,
        !unheard(req, Stage::Over, events),
        forall|i: int| 0 <= i < said.len() ==> #[trigger] said[i] is None,
    decreases events.len(),
{
    if events.len() > 0 {
        lemma_over_is_silent(req, events.skip(1), said.skip(1));
        assert forall|i: int| 0 <= i < said.len() implies #[trigger] said[i] is None by {
            if i > 0 {
                assert(said[i] == said.skip(1)[i - 1]);
            }
        }
    }
}

/// A reply is only attributed to a turn that was new and came to rest: nothing
/// is read before that.
pub proof fn law_reply_follows_a_finished_turn(req: ReplyReq, handle: Handle, event: Event)
    ensures
        next_stage(req, Stage::Wait { handle }, event) is Transcript ==> exists|info: AgentInfo|
            event == Event::Waited(Ok(info)) && #[trigger] advanced(handle, info),
{
    if next_stage(req, Stage::Wait { handle }, event) is Transcript {
        match event {
            Event::Waited(Ok(info)) => {
                assert(advanced(handle, info));
            },
            _ => {},
        }
    }
}

/// A question counts as still pending only where nothing was sent: before the
/// prompt, or where the prompt was refused.
pub proof fn law_pending_means_unsent(req: ReplyReq, stage: Stage, event: Event, m: Option<ReplyMsg>)
    requires
        says(req, stage, event, m),
        m is Some,
        m->0 is Failed,
        m->0->retry == Retry::Pending,
    ensures
        stage is Resolve || stage is Open || (stage is Wait && event is Waited && event->Waited_0 is Err
            && event->Waited_0->Err_0.arrival() == Some(false)),
{
}

proof fn lemma_run_within(s: Seq<char>, i: int, n: nat)
    requires
        occurs_at(s, rep('`', n), i),
    ensures
        n <= longest_backticks(s),
    decreases s.len(),
{
    if n > 0 {
        if i + n == s.len() {
            lemma_tail_at_least(s, n);
        } else {
            assert(occurs_at(s.drop_last(), rep('`', n), i)) by {
                assert(s.drop_last().subrange(i, i + n) =~= s.subrange(i, i + n));
            }
            lemma_run_within(s.drop_last(), i, n);
        }
    }
}

proof fn lemma_tail_at_least(s: Seq<char>, n: nat)
    requires
        n <= s.len(),
        s.subrange(s.len() - n, s.len() as int) == rep('`', n),
    ensures
        backtick_tail(s) >= n,
    decreases s.len(),
{
    if n > 0 {
        assert(s.subrange(s.len() - n, s.len() as int)[n - 1] == '`');
        assert(s.last() == '`');
        let m = (n - 1) as nat;
        let t = s.drop_last();
        let tail = t.subrange(t.len() - m, t.len() as int);
        assert forall|k: int| 0 <= k < m implies #[trigger] tail[k] == '`' by {
            assert(s.subrange(s.len() - n, s.len() as int)[k] == rep('`', n)[k]);
        }
        assert(tail =~= rep('`', m));
        lemma_tail_at_least(t, m);
    }
}

/// A snippet never closes its own fence: the fence occurs nowhere in it.
pub proof fn law_fence_is_not_in_the_snippet(snippet: Seq<char>)
    ensures
        !occurs(snippet, fence(snippet)),
        fence(snippet).len() >= 3,
{
    if occurs(snippet, fence(snippet)) {
        let i = choose|i: int| occurs_at(snippet, fence(snippet), i);
        lemma_run_within(snippet, i, fence(snippet).len());
    }
}

/// Only pending turns are asked: a prompt reads the same without the others.
pub proof fn law_only_pending_turns_are_asked(at: Seq<char>, turns: Seq<Turn>)
    ensures
        questions(at, turns) == questions(at, turns.filter(|t: Turn| pending(t))),
    decreases turns.len(),
{
    let p = |t: Turn| pending(t);
    reveal(Seq::filter);
    if turns.len() > 0 {
        law_only_pending_turns_are_asked(at, turns.drop_last());
        let init = turns.drop_last().filter(p);
        if pending(turns.last()) {
            assert(init.push(turns.last()).drop_last() =~= init);
        }
    } else {
        assert(turns.filter(p) =~= turns);
    }
}

} // verus!
