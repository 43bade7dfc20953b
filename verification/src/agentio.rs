//! Talking to an agent: what its status allows, which reply belongs to which
//! question, and what text the reply is.

use vstd::prelude::*;

use crate::git_parse::{lossy, lossy_text};
use crate::git_repo::{words, Ran};
use crate::json::{json_read, model, parse_json, Json, JsonV};
use crate::text::{
    blank, chars_of, concat2, concat3, contains_str, decimal, decimal_of, deep, group_deep,
    has_prefix, is_blank, join, join_of, lines, lines_of, occurs, same, split, split_of,
    starts_with, string_of, trim, trim_end, trim_start, trimmed, trimmed_end, trimmed_start,
};

verus! {

// ---- status -----------------------------------------------------------------------

#[derive(Debug, Clone, Copy, PartialEq, Eq, Structural)]
pub enum AgentStatus {
    Idle,
    Working,
    Blocked,
    Done,
    Unknown,
}

impl Default for AgentStatus {
    fn default() -> (r: AgentStatus)
        ensures
            r == AgentStatus::Unknown,
    {
        AgentStatus::Unknown
    }
}

impl AgentStatus {
    /// The status that a word stands for. A word that is not known is not a
    /// status to prompt into.
    pub open spec fn of_word(s: Seq<char>) -> AgentStatus {
        if s == "idle"@ {
            AgentStatus::Idle
        } else if s == "working"@ {
            AgentStatus::Working
        } else if s == "blocked"@ {
            AgentStatus::Blocked
        } else if s == "done"@ {
            AgentStatus::Done
        } else {
            AgentStatus::Unknown
        }
    }

    pub open spec fn resting(self) -> bool {
        self == AgentStatus::Idle || self == AgentStatus::Done
    }

    pub open spec fn word(self) -> Seq<char> {
        match self {
            AgentStatus::Idle => "idle"@,
            AgentStatus::Working => "working"@,
            AgentStatus::Blocked => "blocked"@,
            AgentStatus::Done => "done"@,
            AgentStatus::Unknown => "unknown"@,
        }
    }

    pub fn from_wire(s: &str) -> (r: AgentStatus)
        ensures
            r == AgentStatus::of_word(s@),
    {
        if same(s, "idle") {
            AgentStatus::Idle
        } else if same(s, "working") {
            AgentStatus::Working
        } else if same(s, "blocked") {
            AgentStatus::Blocked
        } else if same(s, "done") {
            AgentStatus::Done
        } else {
            AgentStatus::Unknown
        }
    }

    /// Only an idle agent, or one that is done, is safe to prompt.
    pub fn is_resting(self) -> (r: bool)
        ensures
            r == self.resting(),
    {
        match self {
            AgentStatus::Idle | AgentStatus::Done => true,
            _ => false,
        }
    }

    pub fn as_str(self) -> (r: &'static str)
        ensures
            r@ == self.word(),
    {
        match self {
            AgentStatus::Idle => "idle",
            AgentStatus::Working => "working",
            AgentStatus::Blocked => "blocked",
            AgentStatus::Done => "done",
            AgentStatus::Unknown => "unknown",
        }
    }
}

#[derive(Debug, Clone, PartialEq, Eq)]
pub struct SessionRef {
    pub agent: String,
    pub kind: String,
    pub value: String,
}

#[derive(Debug, Clone)]
pub struct AgentInfo {
    pub pane: String,
    pub agent: String,
    pub status: AgentStatus,
    pub state_change_seq: u64,
    pub session: Option<SessionRef>,
}

/// What it takes to tell which reply belongs to a question.
#[derive(Debug, Clone)]
pub struct Handle {
    pub pane: String,
    /// The agent's change counter before the question was sent.
    pub seq0: u64,
    pub transcript: Option<String>,
    /// The length of the transcript before the question was sent.
    pub offset: u64,
    pub prompt: String,
}

#[derive(Debug)]
pub enum PromptError {
    /// Refused before anything was sent.
    Blocked,
    /// The agent was in the middle of a turn; nothing was sent.
    Busy(AgentStatus),
    /// Accepted, but the agent never started.
    Stalled,
    /// The wait ran out; whether the question arrived is not known.
    Timeout,
    Cli(String),
}

impl PromptError {
    /// Whether the question arrived, where that is known.
    pub open spec fn arrival(self) -> Option<bool> {
        match self {
            PromptError::Blocked => Some(false),
            PromptError::Busy(_) => Some(false),
            _ => None,
        }
    }

    pub fn delivered(&self) -> (r: Option<bool>)
        ensures
            r == self.arrival(),
    {
        match self {
            PromptError::Blocked | PromptError::Busy(_) => Some(false),
            PromptError::Stalled | PromptError::Timeout => None,
            PromptError::Cli(_) => None,
        }
    }

    /// The error in words.
    pub fn message(&self) -> (r: String)
        ensures
            r@ == match *self {
                PromptError::Blocked => "agent is blocked (waiting on a prompt)"@,
                PromptError::Busy(s) => "agent is "@ + s.word() + " — queued until it rests"@,
                PromptError::Stalled => "agent never started working"@,
                PromptError::Timeout => "timed out; delivery unknown"@,
                PromptError::Cli(e) => e@,
            },
    {
        match self {
            PromptError::Blocked => "agent is blocked (waiting on a prompt)".to_owned(),
            PromptError::Busy(s) => concat3("agent is ", s.as_str(), " — queued until it rests"),
            PromptError::Stalled => "agent never started working".to_owned(),
            PromptError::Timeout => "timed out; delivery unknown".to_owned(),
            PromptError::Cli(e) => e.clone(),
        }
    }
}

// ---- the command line tool ------------------------------------------------------------

/// What a failed run says: the code and message of a structured error, or the
/// raw text.
pub open spec fn cli_error(stderr: Seq<char>, doc: Option<JsonV>) -> Seq<char> {
    match doc {
        Some(v) => {
            let code = match v.get2("error"@, "code"@) {
                Some(c) => c.text(),
                None => None,
            };
            let msg = match v.get2("error"@, "message"@) {
                Some(m) => m.text(),
                None => None,
            };
            match (code, msg) {
                (Some(c), Some(m)) => c + ": "@ + m,
                (Some(c), None) => c,
                _ => trim(stderr),
            }
        },
        None => trim(stderr),
    }
}

pub open spec fn doc_of(r: Result<JsonV, Seq<char>>) -> Option<JsonV> {
    match r {
        Ok(v) => Some(v),
        Err(_) => None,
    }
}

/// The message of a failed run, given what its error output parses to.
pub fn error_text(stderr: &str, doc: Option<&Json>) -> (r: String)
    ensures
        r@ == cli_error(
            stderr@,
            match doc {
                Some(j) => Some(model(*j)),
                None => None,
            },
        ),
{
    match doc {
        Some(v) => {
            let code: Option<&String> = match v.get2("error", "code") {
                Some(c) => c.as_str(),
                None => None,
            };
            let msg: Option<&String> = match v.get2("error", "message") {
                Some(m) => m.as_str(),
                None => None,
            };
            match (code, msg) {
                (Some(c), Some(m)) => concat3(c.as_str(), ": ", m.as_str()),
                (Some(c), None) => c.clone(),
                _ => trimmed(stderr),
            }
        },
        None => trimmed(stderr),
    }
}

/// What a run of the tool comes to: its output, or an error message.
pub open spec fn run_result(ran: Ran) -> Result<Seq<char>, Seq<char>> {
    match ran {
        Err(e) => Err("spawn failed: "@ + e@),
        Ok(out) => if out.ok {
            Ok(lossy_text(out.stdout@))
        } else {
            Err(cli_error(lossy_text(out.stderr@), doc_of(json_read(lossy_text(out.stderr@)))))
        },
    }
}

pub fn run_text(ran: Ran) -> (r: Result<String, String>)
    ensures
        match r {
            Ok(s) => run_result(ran) == Ok::<Seq<char>, Seq<char>>(s@),
            Err(e) => run_result(ran) == Err::<Seq<char>, Seq<char>>(e@),
        },
{
    match ran {
        Err(e) => Err(concat2("spawn failed: ", e.as_str())),
        Ok(out) => {
            if out.ok {
                return Ok(lossy(&out.stdout));
            }
            let stderr: String = lossy(&out.stderr);
            match parse_json(stderr.as_str()) {
                Ok(v) => Err(error_text(stderr.as_str(), Some(&v))),
                Err(_) => Err(error_text(stderr.as_str(), None)),
            }
        },
    }
}

// ---- agents ------------------------------------------------------------------------------

pub open spec fn session_of(v: JsonV) -> Option<(Seq<char>, Seq<char>, Seq<char>)> {
    match v.get("agent_session"@) {
        Some(s) => match (s.text_at("agent"@), s.text_at("kind"@), s.text_at("value"@)) {
            (Some(a), Some(k), Some(x)) => Some((a, k, x)),
            _ => None,
        },
        None => None,
    }
}

pub open spec fn text_or_empty(t: Option<Seq<char>>) -> Seq<char> {
    match t {
        Some(s) => s,
        None => Seq::empty(),
    }
}

/// The agent that a record describes; a record without a pane is none.
pub open spec fn describes(v: JsonV, info: AgentInfo) -> bool {
    &&& v.text_at("pane_id"@) == Some(info.pane@)
    &&& info.agent@ == text_or_empty(v.text_at("agent"@))
    &&& info.status == AgentStatus::of_word(text_or_empty(v.text_at("agent_status"@)))
    &&& info.state_change_seq == match v.get("state_change_seq"@) {
        Some(JsonV::Num(Some(n))) => n,
        _ => 0,
    }
    &&& match session_of(v) {
        Some(s) => info.session is Some && info.session->0.agent@ == s.0 && info.session->0.kind@ == s.1
            && info.session->0.value@ == s.2,
        None => info.session is None,
    }
}

fn string_or_empty(t: Option<&String>) -> (r: String)
    ensures
        r@ == match t {
            Some(s) => s@,
            None => Seq::empty(),
        },
{
    match t {
        Some(s) => s.clone(),
        None => String::new(),
    }
}

fn parse_session(v: &Json) -> (r: Option<SessionRef>)
    ensures
        match session_of(model(*v)) {
            Some(s) => r is Some && r->0.agent@ == s.0 && r->0.kind@ == s.1 && r->0.value@ == s.2,
            None => r is None,
        },
{
    match v.get("agent_session") {
        Some(s) => match (s.str_at("agent"), s.str_at("kind"), s.str_at("value")) {
            (Some(a), Some(k), Some(x)) => Some(
                SessionRef { agent: a.clone(), kind: k.clone(), value: x.clone() },
            ),
            _ => None,
        },
        None => None,
    }
}

pub fn parse_agent(v: &Json) -> (r: Option<AgentInfo>)
    ensures
        match r {
            Some(info) => describes(model(*v), info),
            None => model(*v).text_at("pane_id"@) is None,
        },
{
    let pane: String = match v.str_at("pane_id") {
        Some(p) => p.clone(),
        None => {
            return None;
        },
    };
    let word: String = string_or_empty(v.str_at("agent_status"));
    let seq: u64 = match v.get("state_change_seq") {
        Some(Json::Num(Some(n))) => *n,
        _ => 0,
    };
    Some(
        AgentInfo {
            pane,
            agent: string_or_empty(v.str_at("agent")),
            status: AgentStatus::from_wire(word.as_str()),
            state_change_seq: seq,
            session: parse_session(v),
        },
    )
}

/// The agent in a reply of the tool, given what the reply parses to.
pub fn agent_in(doc: &Json) -> (r: Option<AgentInfo>)
    ensures
        match r {
            Some(info) => model(*doc).get2("result"@, "agent"@) is Some && describes(
                model(*doc).get2("result"@, "agent"@)->0,
                info,
            ),
            None => match model(*doc).get2("result"@, "agent"@) {
                Some(v) => v.text_at("pane_id"@) is None,
                None => true,
            },
        },
{
    match doc.get2("result", "agent") {
        Some(v) => parse_agent(v),
        None => None,
    }
}

pub fn agent_get_args(pane: &str) -> (r: Vec<String>)
    ensures
        deep(r@) == seq!["agent"@, "get"@, pane@],
{
    let r: Vec<String> = words(&["agent", "get", pane]);
    assert(deep(r@) =~= seq!["agent"@, "get"@, pane@]);
    r
}

/// What a reply of the tool says of an agent: which one, or why none.
pub open spec fn agent_reply(text: Seq<char>, missing: Seq<char>, r: Result<AgentInfo, Seq<char>>) -> bool {
    match json_read(text) {
        Err(e) => r == Err::<AgentInfo, Seq<char>>("bad json: "@ + e),
        Ok(doc) => match doc.get2("result"@, "agent"@) {
            Some(v) => if v.text_at("pane_id"@) is Some {
                r matches Ok(info) && describes(v, info)
            } else {
                r == Err::<AgentInfo, Seq<char>>(missing)
            },
            None => r == Err::<AgentInfo, Seq<char>>(missing),
        },
    }
}

pub open spec fn told(r: Result<AgentInfo, String>) -> Result<AgentInfo, Seq<char>> {
    match r {
        Ok(i) => Ok(i),
        Err(e) => Err(e@),
    }
}

fn agent_from_reply(text: &str, missing: &str) -> (r: Result<AgentInfo, String>)
    ensures
        agent_reply(text@, missing@, told(r)),
{
    match parse_json(text) {
        Err(e) => Err(concat2("bad json: ", e.as_str())),
        Ok(doc) => match agent_in(&doc) {
            Some(info) => Ok(info),
            None => Err(missing.to_owned()),
        },
    }
}

/// The agent on a pane, given what came of asking for it.
pub fn agent_get(pane: &str, ran: Ran) -> (r: Result<AgentInfo, String>)
    ensures
        match run_result(ran) {
            Err(e) => told(r) == Err::<AgentInfo, Seq<char>>(e),
            Ok(text) => agent_reply(text, "no agent on "@ + pane@, told(r)),
        },
{
    match run_text(ran) {
        Err(e) => Err(e),
        Ok(text) => {
            let missing: String = concat2("no agent on ", pane);
            agent_from_reply(text.as_str(), missing.as_str())
        },
    }
}

// ---- transcripts --------------------------------------------------------------------------

/// Where a session's transcript is to be found.
#[derive(Debug)]
pub enum TranscriptQuery {
    /// At this path, if it exists.
    At(String),
    /// Under this name, in one of the directories below `projects`, which is below
    /// the home directory.
    Named { projects: String, name: String },
    Nowhere,
}

/// Where to look for the transcript of a session. A path is taken as it is. An id
/// is looked up only for `filer`, the agent that files its transcripts by id, below
/// its projects: no other agent's transcript can be found by one.
pub fn transcript_path(s: &SessionRef, filer: &str) -> (r: TranscriptQuery)
    ensures
        match r {
            TranscriptQuery::At(p) => s.kind@ == "path"@ && p@ == s.value@,
            TranscriptQuery::Named { projects, name } => s.kind@ != "path"@ && s.kind@ == "id"@
                && s.agent@ == filer@ && filer@.len() > 0 && projects@ == "."@ + filer@ + "/projects"@
                && name@ == s.value@ + ".jsonl"@,
            TranscriptQuery::Nowhere => s.kind@ != "path"@ && !(s.kind@ == "id"@ && s.agent@ == filer@
                && filer@.len() > 0),
        },
{
    if same(s.kind.as_str(), "path") {
        TranscriptQuery::At(s.value.clone())
    } else if same(s.kind.as_str(), "id") && same(s.agent.as_str(), filer) && !filer.is_empty() {
        TranscriptQuery::Named {
            projects: concat3(".", filer, "/projects"),
            name: concat2(s.value.as_str(), ".jsonl"),
        }
    } else {
        TranscriptQuery::Nowhere
    }
}

/// The position of the latest time; the earliest of equal ones.
pub open spec fn latest(times: Seq<u64>) -> int
    decreases times.len(),
{
    if times.len() == 0 {
        -1
    } else {
        let k = latest(times.drop_last());
        if k < 0 || times.last() > times[k] {
            times.len() - 1
        } else {
            k
        }
    }
}

/// Which of several candidates was modified last.
pub fn most_recent(times: &[u64]) -> (r: Option<usize>)
    ensures
        match r {
            Some(k) => k == latest(times@) && k < times@.len(),
            None => times@.len() == 0,
        },
{
    broadcast use group_deep;

    let n: usize = times.len();
    let mut found: Option<usize> = None;
    let mut i: usize = 0;
    while i < n
        invariant
            i <= n == times@.len(),
            match found {
                Some(k) => k == latest(times@.take(i as int)) && k < i,
                None => i == 0,
            },
        decreases n - i,
    {
        proof {
            assert(times@.take(i + 1).drop_last() =~= times@.take(i as int));
        }
        match found {
            Some(k) => {
                assert(times@.take(i + 1)[k as int] == times@[k as int]);
                assert(times@.take(i + 1).last() == times@[i as int]);
                if times[i] > times[k] {
                    found = Some(i);
                }
            },
            None => {
                assert(latest(times@.take(0)) == -1);
                found = Some(i);
            },
        }
        i += 1;
    }
    found
}

// ---- asking --------------------------------------------------------------------------------

/// Open a turn: refuse an agent that is not resting, and note where things
/// stood before anything was sent.
pub fn begin_turn(info: Result<AgentInfo, String>, pane: &str, prompt: &str, transcript: Option<String>, offset: u64) -> (r: Result<Handle, PromptError>)
    ensures
        match info {
            Err(e) => r == Err::<Handle, PromptError>(PromptError::Cli(e)),
            Ok(i) => if i.status == AgentStatus::Blocked {
                r == Err::<Handle, PromptError>(PromptError::Blocked)
            } else if !i.status.resting() {
                r == Err::<Handle, PromptError>(PromptError::Busy(i.status))
            } else {
                r matches Ok(h) && h.pane@ == pane@ && h.seq0 == i.state_change_seq && h.transcript
                    == transcript && h.prompt@ == prompt@ && h.offset == if transcript is Some {
                    offset
                } else {
                    0
                }
            },
        },
{
    match info {
        Err(e) => Err(PromptError::Cli(e)),
        Ok(i) => match i.status {
            AgentStatus::Blocked => Err(PromptError::Blocked),
            AgentStatus::Working | AgentStatus::Unknown => Err(PromptError::Busy(i.status)),
            _ => {
                let offset: u64 = if transcript.is_some() {
                    offset
                } else {
                    0
                };
                Ok(
                    Handle {
                        pane: pane.to_owned(),
                        seq0: i.state_change_seq,
                        transcript,
                        offset,
                        prompt: prompt.to_owned(),
                    },
                )
            },
        },
    }
}

pub fn prompt_args(h: &Handle, timeout_ms: u64) -> (r: Vec<String>)
    ensures
        deep(r@) == seq![
            "agent"@,
            "prompt"@,
            h.pane@,
            h.prompt@,
            "--wait"@,
            "--until"@,
            "idle"@,
            "--until"@,
            "done"@,
            "--timeout"@,
            decimal(timeout_ms as nat),
        ],
{
    let timeout: String = decimal_of(timeout_ms);
    let r: Vec<String> = words(
        &[
            "agent",
            "prompt",
            h.pane.as_str(),
            h.prompt.as_str(),
            "--wait",
            "--until",
            "idle",
            "--until",
            "done",
            "--timeout",
            timeout.as_str(),
        ],
    );
    assert(deep(r@) =~= seq![
        "agent"@,
        "prompt"@,
        h.pane@,
        h.prompt@,
        "--wait"@,
        "--until"@,
        "idle"@,
        "--until"@,
        "done"@,
        "--timeout"@,
        decimal(timeout_ms as nat),
    ]);
    r
}

/// Which refusal an error message of the tool stands for.
pub open spec fn refusal(e: Seq<char>, r: PromptError) -> bool {
    if has_prefix(e, "agent_blocked"@) {
        r == PromptError::Blocked
    } else if has_prefix(e, "agent_prompt_stalled"@) {
        r == PromptError::Stalled
    } else if has_prefix(e, "timeout"@) {
        r == PromptError::Timeout
    } else {
        r matches PromptError::Cli(m) && m@ == e
    }
}

pub fn classify(e: String) -> (r: PromptError)
    ensures
        refusal(e@, r),
{
    if starts_with(e.as_str(), "agent_blocked") {
        PromptError::Blocked
    } else if starts_with(e.as_str(), "agent_prompt_stalled") {
        PromptError::Stalled
    } else if starts_with(e.as_str(), "timeout") {
        PromptError::Timeout
    } else {
        PromptError::Cli(e)
    }
}

/// What a prompt's outcome says of the agent.
pub open spec fn prompt_told(r: Result<AgentInfo, PromptError>) -> Result<AgentInfo, Seq<char>> {
    match r {
        Ok(i) => Ok(i),
        Err(PromptError::Cli(e)) => Err(e@),
        Err(_) => Err(Seq::empty()),
    }
}

/// What came of a prompt: the agent as it came to rest, or why not.
pub fn prompt_wait(ran: Ran) -> (r: Result<AgentInfo, PromptError>)
    ensures
        match run_result(ran) {
            Err(e) => r matches Err(err) && refusal(e, err),
            Ok(text) => {
                &&& r is Ok || r->Err_0 is Cli
                &&& agent_reply(text, "no agent in prompt reply"@, prompt_told(r))
            },
        },
{
    match run_text(ran) {
        Err(e) => Err(classify(e)),
        Ok(text) => {
            let a: Result<AgentInfo, String> = agent_from_reply(
                text.as_str(),
                "no agent in prompt reply",
            );
            match a {
                Ok(i) => Ok(i),
                Err(e) => Err(PromptError::Cli(e)),
            }
        },
    }
}

/// A turn that is new and over.
pub open spec fn advanced(h: Handle, after: AgentInfo) -> bool {
    after.state_change_seq > h.seq0 && after.status.resting()
}

pub fn turn_advanced(h: &Handle, after: &AgentInfo) -> (r: bool)
    ensures
        r == advanced(*h, *after),
{
    after.state_change_seq > h.seq0 && after.status.is_resting()
}

// ---- reading the reply -------------------------------------------------------------------------

/// A record of an agent that works in the background.
pub open spec fn sidechain(v: JsonV) -> bool {
    v.get("isSidechain"@) == Some(JsonV::Bool(true))
}

/// The texts of a reply record: its non-blank text blocks.
pub open spec fn block_texts(blocks: Seq<JsonV>) -> Seq<Seq<char>>
    decreases blocks.len(),
{
    if blocks.len() == 0 {
        Seq::empty()
    } else {
        let init = block_texts(blocks.drop_last());
        let b = blocks.last();
        match b.text_at("text"@) {
            Some(t) => if b.text_at("type"@) == Some("text"@) && !is_blank(t) {
                init.push(trim_end(t))
            } else {
                init
            },
            None => init,
        }
    }
}

pub open spec fn record_texts(v: JsonV) -> Seq<Seq<char>> {
    match v.get2("message"@, "content"@) {
        Some(JsonV::Arr(blocks)) => block_texts(blocks),
        _ => Seq::empty(),
    }
}

/// The texts of the turn that the first question of the records opens, up to
/// the next question. Tool results are no questions, and records of background
/// agents do not count.
pub open spec fn turn_texts(recs: Seq<JsonV>, anchored: bool) -> Seq<Seq<char>>
    decreases recs.len(),
{
    if recs.len() == 0 {
        Seq::empty()
    } else {
        let v = recs[0];
        let rest = recs.skip(1);
        if sidechain(v) {
            turn_texts(rest, anchored)
        } else if v.text_at("type"@) == Some("user"@) {
            if !anchored {
                turn_texts(rest, true)
            } else if v.get("toolUseResult"@) is None {
                Seq::empty()
            } else {
                turn_texts(rest, anchored)
            }
        } else if v.text_at("type"@) == Some("assistant"@) && anchored {
            record_texts(v) + turn_texts(rest, anchored)
        } else {
            turn_texts(rest, anchored)
        }
    }
}

/// The documents on the lines of a transcript; a line that is none, such as
/// one still being written, is passed over.
pub open spec fn records(ls: Seq<Seq<char>>) -> Seq<JsonV>
    decreases ls.len(),
{
    if ls.len() == 0 {
        Seq::empty()
    } else {
        let init = records(ls.drop_last());
        let line = trim(ls.last());
        match json_read(line) {
            Ok(v) => if line.len() == 0 {
                init
            } else {
                init.push(v)
            },
            Err(_) => init,
        }
    }
}

/// A reply in one text, where there is any.
pub open spec fn reply_text(texts: Seq<Seq<char>>) -> Option<Seq<char>> {
    if texts.len() == 0 {
        None
    } else {
        Some(join(texts, "\n\n"@))
    }
}

/// The models of several documents.
pub open spec fn models(v: Seq<Json>) -> Seq<JsonV> {
    Seq::new(v.len(), |i: int| model(v[i]))
}

fn push_blocks(out: &mut Vec<String>, blocks: &Vec<Json>)
    ensures
        deep(final(out)@) == deep(old(out)@) + block_texts(models(blocks@)),
{
    broadcast use group_deep;

    let ghost before = deep(out@);
    let ghost all = models(blocks@);
    let mut i: usize = 0;
    assert(before + block_texts(all.take(0)) =~= before);
    while i < blocks.len()
        invariant
            i <= blocks@.len(),
            all == models(blocks@),
            deep(out@) == before + block_texts(all.take(i as int)),
        decreases blocks@.len() - i,
    {
        assert(all.take(i + 1).drop_last() =~= all.take(i as int));
        assert(all[i as int] == model(blocks@[i as int]));
        let b: &Json = &blocks[i];
        let is_text: bool = match b.str_at("type") {
            Some(k) => same(k.as_str(), "text"),
            None => false,
        };
        let ghost pre = deep(out@);
        if let Some(t) = b.str_at("text") {
            if is_text && !blank(t.as_str()) {
                let body: String = trimmed_end(t.as_str());
                let ghost bv = body@;
                out.push(body);
                assert(deep(out@) == pre.push(bv));
            }
        }
        assert(deep(out@) =~= before + block_texts(all.take(i + 1)));
        i += 1;
    }
}

/// The texts of the first turn in a row of records.
pub fn harvest_records(recs: &Vec<Json>) -> (r: Option<String>)
    ensures
        r.deep_view() == reply_text(turn_texts(models(recs@), false)),
{
    broadcast use group_deep;

    let ghost all = models(recs@);
    let mut out: Vec<String> = Vec::new();
    let mut anchored: bool = false;
    let mut i: usize = 0;
    assert(deep(out@) + turn_texts(all, false) =~= turn_texts(all, false));
    while i < recs.len()
        invariant_except_break
            deep(out@) + turn_texts(all.skip(i as int), anchored) == turn_texts(all, false),
        invariant
            i <= recs@.len(),
            all == models(recs@),
        ensures
            deep(out@) == turn_texts(all, false),
        decreases recs@.len() - i,
    {
        let ghost rest = all.skip(i as int);
        assert(rest[0] == model(recs@[i as int]));
        assert(rest.skip(1) =~= all.skip(i + 1));
        let v: &Json = &recs[i];
        let aside: bool = match v.get("isSidechain") {
            Some(Json::Bool(b)) => *b,
            _ => false,
        };
        assert(aside == sidechain(rest[0]));
        let kind: Option<&String> = v.str_at("type");
        let user: bool = match kind {
            Some(k) => same(k.as_str(), "user"),
            None => false,
        };
        let assistant: bool = match kind {
            Some(k) => same(k.as_str(), "assistant"),
            None => false,
        };
        proof {
            reveal_strlit("user");
            reveal_strlit("assistant");
            assert("user"@.len() != "assistant"@.len());
        }
        if !aside {
            if user {
                if !anchored {
                    anchored = true;
                } else if v.get("toolUseResult").is_none() {
                    assert(deep(out@) + Seq::<Seq<char>>::empty() =~= deep(out@));
                    break;
                }
            } else if assistant && anchored {
                let ghost before = deep(out@);
                if let Some(Json::Arr(blocks)) = v.get2("message", "content") {
                    assert(model(Json::Arr(*blocks)) == JsonV::Arr(models(blocks@))) by {
                        assert(model(Json::Arr(*blocks))->Arr_0 =~= models(blocks@));
                    }
                    push_blocks(&mut out, blocks);
                }
                assert(deep(out@) =~= before + record_texts(rest[0]));
                assert(before + record_texts(rest[0]) + turn_texts(rest.skip(1), true) =~= before + (
                record_texts(rest[0]) + turn_texts(rest.skip(1), true)));
            }
        }
        i += 1;
        proof {
            if i == recs@.len() {
                assert(turn_texts(all.skip(i as int), anchored) =~= Seq::<Seq<char>>::empty());
                assert(deep(out@) + Seq::<Seq<char>>::empty() =~= deep(out@));
            }
        }
    }
    if out.len() == 0 {
        None
    } else {
        Some(join_of(&out, "\n\n"))
    }
}

/// The documents on the lines of a transcript.
fn records_of(tail: &str) -> (r: Vec<Json>)
    ensures
        models(r@) == records(split(tail@, '\n')),
{
    broadcast use group_deep;

    let ls: Vec<String> = split_of(tail, '\n');
    let ghost all = deep(ls@);
    let mut out: Vec<Json> = Vec::new();
    let mut i: usize = 0;
    assert(models(out@) =~= Seq::<JsonV>::empty());
    while i < ls.len()
        invariant
            i <= ls@.len(),
            all == deep(ls@),
            models(out@) == records(all.take(i as int)),
        decreases ls@.len() - i,
    {
        assert(all.take(i + 1).drop_last() =~= all.take(i as int));
        assert(all[i as int] == ls@[i as int]@);
        let line: String = trimmed(ls[i].as_str());
        if !line.as_str().is_empty() {
            if let Ok(v) = parse_json(line.as_str()) {
                let ghost pre = models(out@);
                let ghost mv = model(v);
                out.push(v);
                assert(models(out@) =~= pre.push(mv));
            }
        }
        i += 1;
    }
    out
}

/// The reply to a question, from the transcript as it grew since the question
/// was sent. None without a transcript, and none where nothing was said yet.
pub fn harvest_transcript(tail: Option<&str>) -> (r: Option<String>)
    ensures
        r.deep_view() == match tail {
            Some(t) => reply_text(turn_texts(records(split(t@, '\n')), false)),
            None => None,
        },
{
    match tail {
        Some(t) => {
            let recs: Vec<Json> = records_of(t);
            harvest_records(&recs)
        },
        None => None,
    }
}

pub fn screen_args(h: &Handle) -> (r: Vec<String>)
    ensures
        deep(r@) == seq![
            "agent"@,
            "read"@,
            h.pane@,
            "--source"@,
            "detection"@,
            "--lines"@,
            "200"@,
        ],
{
    let r: Vec<String> = words(
        &["agent", "read", h.pane.as_str(), "--source", "detection", "--lines", "200"],
    );
    assert(deep(r@) =~= seq![
        "agent"@,
        "read"@,
        h.pane@,
        "--source"@,
        "detection"@,
        "--lines"@,
        "200"@,
    ]);
    r
}

/// Whether a line starts with this character.
pub open spec fn led_by(s: Seq<char>, c: char) -> bool {
    s.len() > 0 && s[0] == c
}

/// A line where the screen echoes the prompt.
pub open spec fn echoes(line: Seq<char>, first: Seq<char>) -> bool {
    led_by(trim_start(line), '\u{276F}') && occurs(trim_start(line), first)
}

/// The line after the last echo of the prompt; 0 where there is none.
pub open spec fn after_echo(ls: Seq<Seq<char>>, first: Seq<char>) -> int
    decreases ls.len(),
{
    if ls.len() == 0 {
        0
    } else if echoes(ls.last(), first) {
        ls.len() as int
    } else {
        after_echo(ls.drop_last(), first)
    }
}

/// A line that belongs to the agent's own display.
pub open spec fn is_chrome(lead: Seq<char>) -> bool {
    led_by(lead, '\u{23BF}') || led_by(lead, '\u{273B}') || led_by(lead, '\u{25EF}') || led_by(
        lead,
        '\u{25FB}',
    ) || led_by(lead, '\u{23F5}') || led_by(lead, '\u{276F}')
}

/// A reply line without the mark in front of it.
pub open spec fn unmarked(t: Seq<char>) -> Seq<char> {
    if led_by(t, '\u{23FA}') {
        trim_start(t.skip(1))
    } else {
        t
    }
}

/// The reply's lines, up to the border of the input box, without display lines.
pub open spec fn reply_lines(ls: Seq<Seq<char>>) -> Seq<Seq<char>>
    decreases ls.len(),
{
    if ls.len() == 0 {
        Seq::empty()
    } else {
        let t = trim_end(ls[0]);
        let lead = trim_start(t);
        if led_by(lead, '\u{2500}') || led_by(lead, '\u{256D}') {
            Seq::empty()
        } else if is_chrome(lead) {
            reply_lines(ls.skip(1))
        } else {
            seq![unmarked(t)] + reply_lines(ls.skip(1))
        }
    }
}

/// Lines without the blank ones at the end.
pub open spec fn without_blank_tail(ls: Seq<Seq<char>>) -> Seq<Seq<char>>
    decreases ls.len(),
{
    if ls.len() > 0 && is_blank(ls.last()) {
        without_blank_tail(ls.drop_last())
    } else {
        ls
    }
}

/// The first line of a prompt, trimmed.
pub open spec fn prompt_head(prompt: Seq<char>) -> Seq<char> {
    if lines(prompt).len() > 0 {
        trim(lines(prompt)[0])
    } else {
        Seq::empty()
    }
}

/// What a screen shows of a reply.
pub open spec fn screen_reply(screen: Seq<char>, prompt: Seq<char>) -> Seq<char> {
    let first = prompt_head(prompt);
    let ls = lines(screen);
    let start = if first.len() == 0 {
        0
    } else {
        after_echo(ls, first)
    };
    join(without_blank_tail(reply_lines(ls.skip(start))), "\n"@)
}

fn starts_char(v: &Vec<char>, c: char) -> (r: bool)
    ensures
        r == led_by(v@, c),
{
    v.len() > 0 && v[0] == c
}

fn find_echo(ls: &Vec<String>, first: &str) -> (r: usize)
    ensures
        r == after_echo(deep(ls@), first@),
        r <= ls@.len(),
{
    broadcast use group_deep;

    let ghost all = deep(ls@);
    let mut i: usize = ls.len();
    while i > 0
        invariant
            i <= ls@.len(),
            all == deep(ls@),
            after_echo(all, first@) == after_echo(all.take(i as int), first@),
        decreases i,
    {
        assert(all.take(i as int).drop_last() =~= all.take(i - 1));
        assert(all[i - 1] == ls@[i - 1]@);
        let lead: String = trimmed_start(ls[i - 1].as_str());
        let v: Vec<char> = chars_of(lead.as_str());
        if starts_char(&v, '\u{276F}') && contains_str(lead.as_str(), first) {
            return i;
        }
        i -= 1;
    }
    0
}

/// The reply on a screen: below the echoed prompt, above the input box, and
/// without the agent's own display.
pub fn strip_chrome(screen: &str, prompt: &str) -> (r: String)
    ensures
        r@ == screen_reply(screen@, prompt@),
{
    broadcast use group_deep;

    let heads: Vec<String> = lines_of(prompt);
    let first: String = if heads.len() > 0 {
        assert(lines(prompt@)[0] == heads@[0]@);
        trimmed(heads[0].as_str())
    } else {
        String::new()
    };
    let ls: Vec<String> = lines_of(screen);
    let ghost all = deep(ls@);
    let start: usize = if first.as_str().is_empty() {
        0
    } else {
        find_echo(&ls, first.as_str())
    };
    let ghost body = all.skip(start as int);
    let mut out: Vec<String> = Vec::new();
    let mut i: usize = start;
    assert(deep(out@) + reply_lines(body) =~= reply_lines(body));
    while i < ls.len()
        invariant_except_break
            deep(out@) + reply_lines(all.skip(i as int)) == reply_lines(body),
        invariant
            start <= i <= ls@.len(),
            all == deep(ls@),
        ensures
            deep(out@) == reply_lines(body),
        decreases ls@.len() - i,
    {
        let ghost rest = all.skip(i as int);
        assert(rest[0] == ls@[i as int]@);
        assert(rest.skip(1) =~= all.skip(i + 1));
        let t: String = trimmed_end(ls[i].as_str());
        let lead: String = trimmed_start(t.as_str());
        let v: Vec<char> = chars_of(lead.as_str());
        if starts_char(&v, '\u{2500}') || starts_char(&v, '\u{256D}') {
            assert(deep(out@) + Seq::<Seq<char>>::empty() =~= deep(out@));
            break;
        }
        if !(starts_char(&v, '\u{23BF}') || starts_char(&v, '\u{273B}') || starts_char(&v, '\u{25EF}')
            || starts_char(&v, '\u{25FB}') || starts_char(&v, '\u{23F5}') || starts_char(
            &v,
            '\u{276F}',
        )) {
            let w: Vec<char> = chars_of(t.as_str());
            let line: String = if starts_char(&w, '\u{23FA}') {
                let tail: String = string_of(&w, 1, w.len());
                assert(tail@ =~= t@.skip(1));
                trimmed_start(tail.as_str())
            } else {
                t
            };
            let ghost before = deep(out@);
            let ghost lv = line@;
            out.push(line);
            assert(deep(out@) == before.push(lv));
            assert(before.push(lv) + reply_lines(rest.skip(1)) =~= before + (seq![lv] + reply_lines(
                rest.skip(1),
            )));
        }
        i += 1;
        proof {
            if i == ls@.len() {
                assert(reply_lines(all.skip(i as int)) =~= Seq::<Seq<char>>::empty());
                assert(deep(out@) + Seq::<Seq<char>>::empty() =~= deep(out@));
            }
        }
    }
    let ghost kept = deep(out@);
    while out.len() > 0 && blank(out[out.len() - 1].as_str())
        invariant
            without_blank_tail(deep(out@)) == without_blank_tail(kept),
        decreases out@.len(),
    {
        let ghost pre = out@;
        assert(deep(pre).last() == pre.last()@);
        let _gone: Option<String> = out.pop();
        assert(deep(out@) =~= deep(pre).drop_last());
    }
    proof {
        if out@.len() > 0 {
            assert(deep(out@).last() == out@.last()@);
        }
    }
    join_of(&out, "\n")
}

/// The reply on a screen, where the screen could be read.
pub fn harvest_screen(h: &Handle, ran: Ran) -> (r: Option<String>)
    ensures
        r.deep_view() == match run_result(ran) {
            Ok(text) => Some(screen_reply(text, h.prompt@)),
            Err(_) => None,
        },
{
    match run_text(ran) {
        Ok(text) => Some(strip_chrome(text.as_str(), h.prompt.as_str())),
        Err(_) => None,
    }
}

// ---- laws ------------------------------------------------------------------------------------

/// What a background agent wrote into the transcript does not change the reply.
pub proof fn law_background_agents_do_not_count(recs: Seq<JsonV>, anchored: bool, i: int)
    requires
        0 <= i < recs.len(),
        sidechain(recs[i]),
    ensures
        turn_texts(recs, anchored) == turn_texts(recs.remove(i), anchored),
    decreases recs.len(),
{
    let rest = recs.skip(1);
    if i == 0 {
        assert(recs.remove(0) =~= rest);
    } else {
        let less = recs.remove(i);
        assert(less[0] == recs[0]);
        assert(less.skip(1) =~= rest.remove(i - 1));
        assert(rest[i - 1] == recs[i]);
        law_background_agents_do_not_count(rest, anchored, i - 1);
        law_background_agents_do_not_count(rest, true, i - 1);
    }
}

/// The next question ends the reply: nothing after it is read.
pub proof fn law_next_question_ends_the_reply(recs: Seq<JsonV>, question: JsonV, more: Seq<JsonV>)
    requires
        !sidechain(question),
        question.text_at("type"@) == Some("user"@),
        question.get("toolUseResult"@) is None,
    ensures
        turn_texts(recs.push(question) + more, true) == turn_texts(recs, true),
    decreases recs.len(),
{
    let all = recs.push(question) + more;
    if recs.len() == 0 {
        assert(all[0] == question);
    } else {
        assert(all[0] == recs[0]);
        assert(all.skip(1) =~= recs.skip(1).push(question) + more);
        law_next_question_ends_the_reply(recs.skip(1), question, more);
    }
}

/// The lines of a transcript that count: those that hold a document which is not
/// a background agent's.
pub open spec fn counting(ls: Seq<Seq<char>>) -> Seq<Seq<char>>
    decreases ls.len(),
{
    if ls.len() == 0 {
        Seq::empty()
    } else {
        let init = counting(ls.drop_last());
        let line = trim(ls.last());
        match json_read(line) {
            Ok(v) => if line.len() == 0 || sidechain(v) {
                init
            } else {
                init.push(ls.last())
            },
            Err(_) => init,
        }
    }
}

/// The records that are not a background agent's.
pub open spec fn foreground(recs: Seq<JsonV>) -> Seq<JsonV>
    decreases recs.len(),
{
    if recs.len() == 0 {
        Seq::empty()
    } else if sidechain(recs.last()) {
        foreground(recs.drop_last())
    } else {
        foreground(recs.drop_last()).push(recs.last())
    }
}

proof fn lemma_counting(ls: Seq<Seq<char>>)
    ensures
        records(counting(ls)) == foreground(records(ls)),
    decreases ls.len(),
{
    if ls.len() > 0 {
        let init = ls.drop_last();
        lemma_counting(init);
        let line = trim(ls.last());
        if let Ok(v) = json_read(line) {
            if line.len() > 0 {
                assert(records(init).push(v).drop_last() =~= records(init));
                if !sidechain(v) {
                    assert(counting(init).push(ls.last()).drop_last() =~= counting(init));
                }
            }
        }
    }
}

proof fn lemma_foreground(recs: Seq<JsonV>, anchored: bool)
    ensures
        turn_texts(foreground(recs), anchored) == turn_texts(recs, anchored),
    decreases recs.len(),
{
    if recs.len() > 0 {
        let rest = recs.skip(1);
        lemma_foreground(rest, anchored);
        lemma_foreground(rest, true);
        lemma_foreground_front(recs);
        if !sidechain(recs[0]) {
            let f = foreground(recs);
            assert(f[0] == recs[0]);
            assert(f.skip(1) =~= foreground(rest));
        }
    }
}

proof fn lemma_foreground_front(recs: Seq<JsonV>)
    requires
        recs.len() > 0,
    ensures
        foreground(recs) == if sidechain(recs[0]) {
            foreground(recs.skip(1))
        } else {
            seq![recs[0]] + foreground(recs.skip(1))
        },
    decreases recs.len(),
{
    if recs.len() == 1 {
        assert(recs.drop_last() =~= Seq::<JsonV>::empty());
        assert(recs.skip(1) =~= Seq::<JsonV>::empty());
        assert(foreground(recs) =~= if sidechain(recs[0]) {
            foreground(recs.skip(1))
        } else {
            seq![recs[0]] + foreground(recs.skip(1))
        });
    } else {
        lemma_foreground_front(recs.drop_last());
        assert(recs.skip(1).drop_last() =~= recs.drop_last().skip(1));
        assert(foreground(recs) =~= if sidechain(recs[0]) {
            foreground(recs.skip(1))
        } else {
            seq![recs[0]] + foreground(recs.skip(1))
        });
    }
}

/// Blank lines, lines that are no document, such as one half written, and
/// records of background agents never change the reply: two transcripts with the
/// same other lines give the same one.
pub proof fn law_stray_lines_do_not_count(t: Seq<char>, u: Seq<char>)
    requires
        counting(split(t, '\n')) == counting(split(u, '\n')),
    ensures
        reply_text(turn_texts(records(split(t, '\n')), false)) == reply_text(
            turn_texts(records(split(u, '\n')), false),
        ),
{
    lemma_counting(split(t, '\n'));
    lemma_counting(split(u, '\n'));
    lemma_foreground(records(split(t, '\n')), false);
    lemma_foreground(records(split(u, '\n')), false);
}

/// What counts is left of the lines that count.
pub proof fn law_counting_settles(ls: Seq<Seq<char>>)
    ensures
        counting(counting(ls)) == counting(ls),
    decreases ls.len(),
{
    if ls.len() > 0 {
        let init = ls.drop_last();
        law_counting_settles(init);
        assert(counting(init).push(ls.last()).drop_last() =~= counting(init));
    }
}

proof fn lemma_trim_end_has(s: Seq<char>)
    requires
        !is_blank(s),
    ensures
        !is_blank(trim_end(s)),
    decreases s.len(),
{
    if s.len() > 0 && crate::text::is_white(s.last()) {
        let init = s.drop_last();
        assert(!is_blank(init)) by {
            let i = choose|i: int| 0 <= i < s.len() && !crate::text::is_white(#[trigger] s[i]);
            assert(init[i] == s[i]);
        }
        lemma_trim_end_has(init);
    }
}

/// Whether no text is blank.
pub open spec fn none_blank(texts: Seq<Seq<char>>) -> bool {
    forall|i: int| 0 <= i < texts.len() ==> !is_blank(#[trigger] texts[i])
}

proof fn lemma_block_texts(blocks: Seq<JsonV>)
    ensures
        none_blank(block_texts(blocks)),
    decreases blocks.len(),
{
    if blocks.len() > 0 {
        lemma_block_texts(blocks.drop_last());
        if let Some(t) = blocks.last().text_at("text"@) {
            if !is_blank(t) {
                lemma_trim_end_has(t);
            }
        }
    }
}

proof fn lemma_turn_texts(recs: Seq<JsonV>, anchored: bool)
    ensures
        none_blank(turn_texts(recs, anchored)),
    decreases recs.len(),
{
    if recs.len() > 0 {
        lemma_turn_texts(recs.skip(1), anchored);
        lemma_turn_texts(recs.skip(1), true);
        match recs[0].get2("message"@, "content"@) {
            Some(JsonV::Arr(blocks)) => lemma_block_texts(blocks),
            _ => {},
        }
    }
}

/// A question without a reply yet is not an empty reply: a reply that was found
/// says something.
pub proof fn law_a_reply_says_something(recs: Seq<JsonV>)
    ensures
        reply_text(turn_texts(recs, false)) matches Some(s) ==> !is_blank(s),
{
    let texts = turn_texts(recs, false);
    lemma_turn_texts(recs, false);
    if texts.len() > 0 {
        let s = join(texts, "\n\n"@);
        let last = texts.last();
        assert(texts[texts.len() - 1] == last);
        let i = choose|i: int| 0 <= i < last.len() && !crate::text::is_white(#[trigger] last[i]);
        let k = s.len() - last.len();
        assert(s[k + i] == last[i]) by {
            if texts.len() == 1 {
                assert(s == last);
            } else {
                assert(s == join(texts.drop_last(), "\n\n"@) + "\n\n"@ + last);
            }
        }
    }
}

} // verus!
