//! Review conversations, anchored to a place in a change.

use vstd::prelude::*;

use crate::hash::{repo_hash, repo_key};
use crate::ipc::NoteMeta;
use crate::path::{file_name, file_stem_of, join_path, joined, stem};
use crate::text::{
    chars_of, concat2, concat3, decimal, decimal_of, deep, end_of_trim, group_deep, lines, lines_of,
    same, signed, signed_of, string_of, trim_end, trimmed_end,
};

verus! {

pub const STORE_VERSION: u32 = 1;

// ---- time -------------------------------------------------------------------

/// Seconds since the Unix epoch by the machine's clock, or `None` for a clock
/// set before it (`std::time::SystemTime::elapsed` of the epoch). Nothing is
/// claimed of the reading: it is the machine's.
#[verifier::external_body]
fn clock_secs() -> (r: Option<u64>) {
    match std::time::UNIX_EPOCH.elapsed() {
        Ok(d) => Some(d.as_secs()),
        Err(_) => None,
    }
}

/// A clock reading as a timestamp: the same 64 bits, signed.
pub open spec fn epoch(reading: Option<u64>) -> int {
    match reading {
        Some(s) => if s <= i64::MAX {
            s as int
        } else {
            s - 0x1_0000_0000_0000_0000
        },
        None => 0,
    }
}

pub fn epoch_of(reading: Option<u64>) -> (r: i64)
    ensures
        r == epoch(reading),
{
    match reading {
        Some(s) => if s <= 0x7fff_ffff_ffff_ffff {
            s as i64
        } else {
            (s - 0x8000_0000_0000_0000) as i64 + i64::MIN
        },
        None => 0,
    }
}

/// The current time in seconds since the Unix epoch; 0 for a clock set before it.
pub fn now_epoch() -> (r: i64)
    ensures
        exists|reading: Option<u64>| r == epoch(reading),
{
    let reading: Option<u64> = clock_secs();
    epoch_of(reading)
}

// ---- model ------------------------------------------------------------------

#[derive(Debug, Clone, Copy, PartialEq, Eq, Hash, Structural)]
pub enum Author {
    Human,
    Agent,
    /// A note of the viewer itself ("send failed: ...").
    System,
}

impl Default for Author {
    fn default() -> (r: Author)
        ensures
            r == Author::Human,
    {
        Author::Human
    }
}

#[derive(Debug, Clone, Copy, PartialEq, Eq, Hash, Structural)]
pub enum ThreadState {
    /// Holds something that was not sent yet.
    Draft,
    /// Delivered; the agent has not answered.
    Sent,
    /// The agent answered.
    Answered,
    /// Delivery or capture failed; never re-sent on its own.
    Failed,
    /// Closed by the user; never re-sent.
    Resolved,
}

impl Default for ThreadState {
    fn default() -> (r: ThreadState)
        ensures
            r == ThreadState::Draft,
    {
        ThreadState::Draft
    }
}

impl ThreadState {
    /// The word that a card shows for a state.
    pub open spec fn word(self) -> Seq<char> {
        match self {
            ThreadState::Draft => "draft"@,
            ThreadState::Sent => "sent…"@,
            ThreadState::Answered => "replied"@,
            ThreadState::Failed => "failed"@,
            ThreadState::Resolved => "done"@,
        }
    }

    pub fn badge(self) -> (r: &'static str)
        ensures
            r@ == self.word(),
    {
        match self {
            ThreadState::Draft => "draft",
            ThreadState::Sent => "sent…",
            ThreadState::Answered => "replied",
            ThreadState::Failed => "failed",
            ThreadState::Resolved => "done",
        }
    }
}

#[derive(Debug, Clone, PartialEq, Eq)]
pub struct Turn {
    pub author: Author,
    pub text: String,
    pub at: i64,
    /// Whether this turn's text was part of a delivery.
    pub sent: bool,
}

/// Where a thread hangs: new-side lines `start..=end`; `0-0` is the whole file.
#[derive(Debug, Clone, PartialEq, Eq)]
pub struct Anchor {
    pub file: String,
    pub start: u32,
    pub end: u32,
    /// The side the thread was written against.
    pub cached: bool,
    /// The selected diff lines, each with its `-`, `+` or space.
    pub snippet: String,
    /// The object id of the new side when the thread was written.
    pub blob: Option<String>,
    /// HEAD when the thread was written.
    pub head_sha: Option<String>,
}

/// How confidently a thread still points at real code.
#[derive(Debug, Clone, Copy, PartialEq, Eq, Structural)]
pub enum AnchorFix {
    /// The file did not change, or the thread is about the whole file.
    Exact,
    /// The snippet was found again, from this line on.
    Moved(u32),
    /// The snippet is gone.
    Lost,
}

/// The agent a thread is in conversation with.
#[derive(Debug, Clone, PartialEq, Eq)]
pub struct AgentRef {
    pub pane: String,
    pub agent: String,
    /// The stable identity of the conversation; `pane` is only a hint.
    pub session: Option<String>,
    pub session_kind: Option<String>,
}

#[derive(Debug, Clone, PartialEq, Eq)]
pub struct Thread {
    pub id: u64,
    pub anchor: Anchor,
    pub turns: Vec<Turn>,
    pub state: ThreadState,
    pub agent: Option<AgentRef>,
    pub created_at: i64,
    pub updated_at: i64,
}

/// A turn of the user's that no delivery has carried yet.
pub open spec fn pending(t: Turn) -> bool {
    t.author == Author::Human && !t.sent
}

/// The newest turn of the user's, or -1.
pub open spec fn newest_human(turns: Seq<Turn>) -> int
    decreases turns.len(),
{
    if turns.len() == 0 {
        -1
    } else if turns.last().author == Author::Human {
        turns.len() - 1
    } else {
        newest_human(turns.drop_last())
    }
}

/// The newest pending turn, or -1.
pub open spec fn newest_pending(turns: Seq<Turn>) -> int
    decreases turns.len(),
{
    if turns.len() == 0 {
        -1
    } else if pending(turns.last()) {
        turns.len() - 1
    } else {
        newest_pending(turns.drop_last())
    }
}

/// The positions of the pending turns, ascending.
pub open spec fn pending_at(turns: Seq<Turn>) -> Seq<int>
    decreases turns.len(),
{
    if turns.len() == 0 {
        Seq::empty()
    } else if pending(turns.last()) {
        pending_at(turns.drop_last()).push(turns.len() - 1)
    } else {
        pending_at(turns.drop_last())
    }
}

/// Whether anything of the user's is still pending.
pub open spec fn any_pending(turns: Seq<Turn>) -> bool {
    exists|i: int| 0 <= i < turns.len() && pending(#[trigger] turns[i])
}

/// What a thread shows in one line: the user's newest turn, or the newest
/// turn where the user has none.
pub open spec fn preview_text(turns: Seq<Turn>) -> Seq<char> {
    if newest_human(turns) >= 0 {
        turns[newest_human(turns)].text@
    } else if turns.len() > 0 {
        turns.last().text@
    } else {
        Seq::empty()
    }
}

/// The text of the newest turn, whoever's it is.
pub open spec fn newest_text(turns: Seq<Turn>) -> Seq<char> {
    if turns.len() > 0 {
        turns.last().text@
    } else {
        Seq::empty()
    }
}

/// The state after a turn of `author`: an agent's turn answers, and a turn of
/// the user's reopens what was sent, answered or failed. What the user closed
/// stays closed.
pub open spec fn state_after(state: ThreadState, author: Author) -> ThreadState {
    match author {
        Author::Agent => if state == ThreadState::Resolved {
            ThreadState::Resolved
        } else {
            ThreadState::Answered
        },
        Author::Human => match state {
            ThreadState::Sent | ThreadState::Answered | ThreadState::Failed => ThreadState::Draft,
            _ => state,
        },
        Author::System => state,
    }
}

/// The turns after a delivery: every turn of the user's counts as sent.
pub open spec fn all_sent(turns: Seq<Turn>) -> Seq<Turn> {
    Seq::new(
        turns.len(),
        |i: int|
            if turns[i].author == Author::Human {
                Turn { sent: true, ..turns[i] }
            } else {
                turns[i]
            },
    )
}

pub proof fn lemma_newest_pending(turns: Seq<Turn>)
    ensures
        -1 <= newest_pending(turns) < turns.len(),
        newest_pending(turns) >= 0 ==> pending(turns[newest_pending(turns)]),
        forall|i: int| newest_pending(turns) < i < turns.len() ==> !pending(#[trigger] turns[i]),
        newest_pending(turns) >= 0 <==> any_pending(turns),
    decreases turns.len(),
{
    if turns.len() > 0 {
        if pending(turns.last()) {
            assert(pending(turns[turns.len() - 1]));
        } else {
            lemma_newest_pending(turns.drop_last());
            let k = newest_pending(turns);
            assert forall|i: int| k < i < turns.len() implies !pending(#[trigger] turns[i]) by {
                if i < turns.len() - 1 {
                    assert(!pending(turns.drop_last()[i]));
                }
            }
            if k >= 0 {
                assert(pending(turns[k]));
            }
        }
    }
}

pub proof fn lemma_newest_human(turns: Seq<Turn>)
    ensures
        -1 <= newest_human(turns) < turns.len(),
        newest_human(turns) >= 0 ==> turns[newest_human(turns)].author == Author::Human,
    decreases turns.len(),
{
    if turns.len() > 0 && turns.last().author != Author::Human {
        lemma_newest_human(turns.drop_last());
    }
}

pub proof fn lemma_pending_at(turns: Seq<Turn>)
    ensures
        forall|k: int|
            0 <= k < pending_at(turns).len() ==> 0 <= #[trigger] pending_at(turns)[k] < turns.len()
                && pending(turns[pending_at(turns)[k]]),
        forall|i: int|
            0 <= i < turns.len() && pending(#[trigger] turns[i]) ==> pending_at(turns).contains(i),
        forall|j: int, k: int|
            0 <= j < k < pending_at(turns).len() ==> pending_at(turns)[j] < pending_at(turns)[k],
    decreases turns.len(),
{
    if turns.len() > 0 {
        let init = turns.drop_last();
        lemma_pending_at(init);
        let p = pending_at(turns);
        let q = pending_at(init);
        assert forall|k: int| 0 <= k < p.len() implies 0 <= #[trigger] p[k] < turns.len() && pending(
            turns[p[k]],
        ) by {
            if k < q.len() {
                assert(p[k] == q[k]);
                assert(pending(init[q[k]]));
            }
        }
        assert forall|i: int| 0 <= i < turns.len() && pending(#[trigger] turns[i]) implies p.contains(
            i,
        ) by {
            if i < turns.len() - 1 {
                assert(pending(init[i]));
                let k = choose|k: int| 0 <= k < q.len() && q[k] == i;
                assert(p[k] == i);
            } else {
                assert(p[p.len() - 1] == i);
            }
        }
        assert forall|j: int, k: int| 0 <= j < k < p.len() implies p[j] < p[k] by {
            if k < q.len() {
                assert(p[j] == q[j] && p[k] == q[k]);
            } else {
                assert(p[j] == q[j]);
            }
        }
    }
}

impl Thread {
    /// A thread as it opens: one pending turn of the user's, and no agent.
    pub open spec fn opens_as(self, id: u64, anchor: Anchor, text: String, at: i64) -> bool {
        &&& self.id == id
        &&& self.anchor == anchor
        &&& self.turns@ == seq![Turn { author: Author::Human, text, at, sent: false }]
        &&& self.state == ThreadState::Draft
        &&& self.agent is None
        &&& self.created_at == at
        &&& self.updated_at == at
    }

    /// Whether the thread holds anything worth delivering.
    pub open spec fn wants_sending(self) -> bool {
        self.state != ThreadState::Resolved && any_pending(self.turns@)
    }

    /// A thread that opens at a given time.
    pub fn new_at(id: u64, anchor: Anchor, text: String, at: i64) -> (r: Thread)
        ensures
            r.opens_as(id, anchor, text, at),
    {
        let mut turns: Vec<Turn> = Vec::new();
        turns.push(Turn { author: Author::Human, text, at, sent: false });
        assert(turns@ =~= seq![Turn { author: Author::Human, text, at, sent: false }]);
        Thread {
            id,
            anchor,
            turns,
            state: ThreadState::Draft,
            agent: None,
            created_at: at,
            updated_at: at,
        }
    }

    /// A thread that opens now.
    pub fn new(id: u64, anchor: Anchor, text: String) -> (r: Thread)
        ensures
            r.opens_as(id, anchor, text, r.created_at),
    {
        let at: i64 = now_epoch();
        Thread::new_at(id, anchor, text, at)
    }

    pub fn last(&self) -> (r: Option<&Turn>)
        ensures
            match r {
                Some(t) => self.turns@.len() > 0 && *t == self.turns@.last(),
                None => self.turns@.len() == 0,
            },
    {
        if self.turns.len() == 0 {
            None
        } else {
            Some(&self.turns[self.turns.len() - 1])
        }
    }

    /// The thread in one line.
    pub fn preview(&self) -> (r: &str)
        ensures
            r@ == preview_text(self.turns@),
    {
        broadcast use group_deep;

        let n: usize = self.turns.len();
        let mut i: usize = n;
        while i > 0
            invariant
                i <= n == self.turns@.len(),
                newest_human(self.turns@) == newest_human(self.turns@.take(i as int)),
            decreases i,
        {
            assert(self.turns@.take(i as int).drop_last() =~= self.turns@.take(i - 1));
            if self.turns[i - 1].author == Author::Human {
                return self.turns[i - 1].text.as_str();
            }
            i -= 1;
        }
        if n == 0 {
            proof {
                reveal_strlit("");
            }
            ""
        } else {
            self.turns[n - 1].text.as_str()
        }
    }

    pub fn has_unsent(&self) -> (r: bool)
        ensures
            r == self.wants_sending(),
    {
        if self.state == ThreadState::Resolved {
            return false;
        }
        let mut i: usize = 0;
        while i < self.turns.len()
            invariant
                i <= self.turns@.len(),
                self.state != ThreadState::Resolved,
                forall|j: int| 0 <= j < i ==> !pending(#[trigger] self.turns@[j]),
            decreases self.turns@.len() - i,
        {
            if self.turns[i].author == Author::Human && !self.turns[i].sent {
                assert(pending(self.turns@[i as int]));
                return true;
            }
            i += 1;
        }
        false
    }

    /// The pending turns, oldest first.
    pub fn unsent(&self) -> (r: Vec<&Turn>)
        ensures
            r@.len() == pending_at(self.turns@).len(),
            forall|k: int|
                0 <= k < r@.len() ==> *(#[trigger] r@[k]) == self.turns@[pending_at(self.turns@)[k]],
    {
        let mut out: Vec<&Turn> = Vec::new();
        let mut i: usize = 0;
        while i < self.turns.len()
            invariant
                i <= self.turns@.len(),
                out@.len() == pending_at(self.turns@.take(i as int)).len(),
                forall|k: int|
                    0 <= k < out@.len() ==> *(#[trigger] out@[k]) == self.turns@[pending_at(
                        self.turns@.take(i as int),
                    )[k]],
            decreases self.turns@.len() - i,
        {
            assert(self.turns@.take(i + 1).drop_last() =~= self.turns@.take(i as int));
            if self.turns[i].author == Author::Human && !self.turns[i].sent {
                out.push(&self.turns[i]);
            }
            i += 1;
        }
        assert(self.turns@.take(self.turns@.len() as int) =~= self.turns@);
        out
    }

    /// The positions of the pending turns, ascending.
    pub fn unsent_indices(&self) -> (r: Vec<usize>)
        ensures
            r@.len() == pending_at(self.turns@).len(),
            forall|k: int| 0 <= k < r@.len() ==> #[trigger] r@[k] == pending_at(self.turns@)[k],
    {
        let mut out: Vec<usize> = Vec::new();
        let mut i: usize = 0;
        while i < self.turns.len()
            invariant
                i <= self.turns@.len(),
                out@.len() == pending_at(self.turns@.take(i as int)).len(),
                forall|k: int|
                    0 <= k < out@.len() ==> #[trigger] out@[k] == pending_at(
                        self.turns@.take(i as int),
                    )[k],
            decreases self.turns@.len() - i,
        {
            assert(self.turns@.take(i + 1).drop_last() =~= self.turns@.take(i as int));
            if self.turns[i].author == Author::Human && !self.turns[i].sent {
                out.push(i);
            }
            i += 1;
        }
        assert(self.turns@.take(self.turns@.len() as int) =~= self.turns@);
        out
    }

    /// The newest turn that may still be rewritten in place.
    pub fn editable_turn(&self) -> (r: Option<usize>)
        ensures
            match r {
                Some(k) => k == newest_pending(self.turns@),
                None => newest_pending(self.turns@) == -1,
            },
    {
        broadcast use group_deep;

        let n: usize = self.turns.len();
        let mut i: usize = n;
        while i > 0
            invariant
                i <= n == self.turns@.len(),
                newest_pending(self.turns@) == newest_pending(self.turns@.take(i as int)),
            decreases i,
        {
            assert(self.turns@.take(i as int).drop_last() =~= self.turns@.take(i - 1));
            if self.turns[i - 1].author == Author::Human && !self.turns[i - 1].sent {
                return Some(i - 1);
            }
            i -= 1;
        }
        None
    }

    /// The thread after a turn of `author` at a given time.
    pub open spec fn grown_to(self, after: Thread, author: Author, text: String, at: i64, updated: i64) -> bool {
        &&& after.turns@ == self.turns@.push(Turn { author, text, at, sent: false })
        &&& after.state == state_after(self.state, author)
        &&& after.updated_at == updated
        &&& after.id == self.id
        &&& after.anchor == self.anchor
        &&& after.agent == self.agent
        &&& after.created_at == self.created_at
    }

    /// Add a turn said at `at`, noting the change at `updated`.
    pub fn push_at(&mut self, author: Author, text: String, at: i64, updated: i64)
        ensures
            old(self).grown_to(*final(self), author, text, at, updated),
    {
        self.turns.push(Turn { author, text, at, sent: false });
        match author {
            Author::Agent => {
                if self.state != ThreadState::Resolved {
                    self.state = ThreadState::Answered;
                }
            },
            Author::Human => match self.state {
                ThreadState::Sent | ThreadState::Answered | ThreadState::Failed => {
                    self.state = ThreadState::Draft;
                },
                _ => {},
            },
            Author::System => {},
        }
        self.updated_at = updated;
    }

    /// Add a turn now.
    pub fn push(&mut self, author: Author, text: String)
        ensures
            exists|at: i64, updated: i64| old(self).grown_to(*final(self), author, text, at, updated),
    {
        let at: i64 = now_epoch();
        let updated: i64 = now_epoch();
        self.push_at(author, text, at, updated);
    }

    /// The thread after its delivery to `agent`.
    pub open spec fn delivered_to(self, after: Thread, agent: AgentRef, updated: i64) -> bool {
        &&& after.turns@ == all_sent(self.turns@)
        &&& after.agent == Some(agent)
        &&& after.state == if self.state == ThreadState::Resolved {
            ThreadState::Resolved
        } else {
            ThreadState::Sent
        }
        &&& after.updated_at == updated
        &&& after.id == self.id
        &&& after.anchor == self.anchor
        &&& after.created_at == self.created_at
    }

    /// Record a delivery at a given time.
    pub fn mark_sent_at(&mut self, agent: AgentRef, updated: i64)
        ensures
            old(self).delivered_to(*final(self), agent, updated),
    {
        let n: usize = self.turns.len();
        let ghost before = self.turns@;
        let mut i: usize = 0;
        while i < n
            invariant
                i <= n == self.turns@.len() == before.len(),
                forall|j: int| i <= j < n ==> #[trigger] self.turns@[j] == before[j],
                forall|j: int| 0 <= j < i ==> #[trigger] self.turns@[j] == all_sent(before)[j],
                self.id == old(self).id,
                self.anchor == old(self).anchor,
                self.state == old(self).state,
                self.created_at == old(self).created_at,
            decreases n - i,
        {
            if self.turns[i].author == Author::Human {
                self.turns[i].sent = true;
            }
            i += 1;
        }
        assert(self.turns@ =~= all_sent(before));
        self.agent = Some(agent);
        if self.state != ThreadState::Resolved {
            self.state = ThreadState::Sent;
        }
        self.updated_at = updated;
    }

    /// Record a delivery now.
    pub fn mark_sent(&mut self, agent: AgentRef)
        ensures
            exists|updated: i64| old(self).delivered_to(*final(self), agent, updated),
    {
        let updated: i64 = now_epoch();
        self.mark_sent_at(agent, updated);
    }

    /// What the list pane is told of the thread.
    pub open spec fn told_as(self, r: NoteMeta) -> bool {
        &&& r.id == self.id
        &&& r.file@ == self.anchor.file@
        &&& r.start == self.anchor.start
        &&& r.end == self.anchor.end
        &&& r.text@ == newest_text(self.turns@)
        &&& r.cached == self.anchor.cached
        &&& r.turns == self.turns@.len() % 0x1_0000_0000
        &&& r.state == self.state
        &&& r.last_author == if self.turns@.len() > 0 {
            self.turns@.last().author
        } else {
            Author::Human
        }
    }

    pub fn meta(&self) -> (r: NoteMeta)
        ensures
            self.told_as(r),
    {
        NoteMeta {
            id: self.id,
            file: self.anchor.file.clone(),
            start: self.anchor.start,
            end: self.anchor.end,
            text: match self.last() {
                Some(t) => t.text.as_str().to_owned(),
                None => String::new(),
            },
            cached: self.anchor.cached,
            turns: (self.turns.len() as u64 % 0x1_0000_0000u64) as u32,
            state: self.state,
            last_author: match self.last() {
                Some(t) => t.author,
                None => Author::Human,
            },
        }
    }
}


// ---- anchors -----------------------------------------------------------------

/// A snippet line without its marker. A marker is one byte; a line that does
/// not start with one stands for nothing.
pub open spec fn marker_free(l: Seq<char>) -> Seq<char> {
    if l.len() > 0 && (l[0] as u32) < 0x80 {
        l.skip(1)
    } else {
        Seq::empty()
    }
}

/// The lines that a snippet says the file holds, without markers and trailing
/// whitespace; removed lines are not among them.
pub open spec fn kept_lines(ls: Seq<Seq<char>>) -> Seq<Seq<char>>
    decreases ls.len(),
{
    if ls.len() == 0 {
        Seq::empty()
    } else {
        let init = kept_lines(ls.drop_last());
        if ls.last().len() > 0 && ls.last()[0] == '-' {
            init
        } else {
            init.push(trim_end(marker_free(ls.last())))
        }
    }
}

/// Whether no line holds anything.
pub open spec fn all_empty(ls: Seq<Seq<char>>) -> bool {
    forall|i: int| 0 <= i < ls.len() ==> (#[trigger] ls[i]).len() == 0
}

/// What a snippet says the file holds: its kept lines, blank ones among them. A
/// snippet of blank lines says nothing.
pub open spec fn needle(ls: Seq<Seq<char>>) -> Seq<Seq<char>> {
    if all_empty(kept_lines(ls)) {
        Seq::empty()
    } else {
        kept_lines(ls)
    }
}

/// The first place from `from` on where `what` stands in `hay`.
pub open spec fn find_window(hay: Seq<Seq<char>>, what: Seq<Seq<char>>, from: nat) -> Option<nat>
    decreases hay.len() + 1 - from,
{
    if from + what.len() > hay.len() {
        None
    } else if hay.subrange(from as int, (from + what.len()) as int) == what {
        Some(from)
    } else {
        find_window(hay, what, from + 1)
    }
}

/// Each line without its trailing whitespace.
pub open spec fn trimmed_lines(ls: Seq<Seq<char>>) -> Seq<Seq<char>> {
    Seq::new(ls.len(), |i: int| trim_end(ls[i]))
}

/// Where an anchor now points: blob, then whole file, then snippet, then lost.
pub open spec fn fix(anchor: Anchor, blob: Option<Seq<char>>, file: Seq<Seq<char>>) -> AnchorFix {
    let what = needle(lines(anchor.snippet@));
    if anchor.blob is Some && blob is Some && anchor.blob->0@ == blob->0 {
        AnchorFix::Exact
    } else if anchor.end == 0 {
        AnchorFix::Exact
    } else if what.len() == 0 {
        AnchorFix::Lost
    } else {
        match find_window(trimmed_lines(file), what, 0) {
            Some(i) => AnchorFix::Moved((i + 1) as u32),
            None => AnchorFix::Lost,
        }
    }
}

fn needle_of(snippet: &str) -> (r: Vec<String>)
    ensures
        deep(r@) == needle(lines(snippet@)),
{
    broadcast use group_deep;

    let ls: Vec<String> = lines_of(snippet);
    let ghost all = deep(ls@);
    let mut out: Vec<String> = Vec::new();
    let mut some: bool = false;
    let mut i: usize = 0;
    while i < ls.len()
        invariant
            i <= ls@.len(),
            all == deep(ls@),
            deep(out@) == kept_lines(all.take(i as int)),
            some == !all_empty(deep(out@)),
        decreases ls@.len() - i,
    {
        assert(all.take(i + 1).drop_last() =~= all.take(i as int));
        assert(all[i as int] == ls@[i as int]@);
        let v: Vec<char> = chars_of(ls[i].as_str());
        if !(v.len() > 0 && v[0] == '-') {
            let body: String = if v.len() > 0 && (v[0] as u32) < 0x80 {
                let e: usize = end_of_trim(&v, 1, v.len());
                assert(v@.subrange(1, v@.len() as int) =~= all[i as int].skip(1));
                string_of(&v, 1, e)
            } else {
                String::new()
            };
            let ghost before = deep(out@);
            let ghost b = body@;
            assert(b =~= trim_end(marker_free(all[i as int])));
            if body.as_str().unicode_len() > 0 {
                some = true;
            }
            out.push(body);
            proof {
                assert(deep(out@) == before.push(b));
                if b.len() > 0 {
                    assert(deep(out@)[before.len() as int].len() > 0);
                } else if !all_empty(before) {
                    let k = choose|k: int| 0 <= k < before.len() && (#[trigger] before[k]).len() != 0;
                    assert(deep(out@)[k] == before[k]);
                } else {
                    assert forall|k: int| 0 <= k < deep(out@).len() implies (#[trigger] deep(
                        out@,
                    )[k]).len() == 0 by {
                        if k < before.len() {
                            assert(deep(out@)[k] == before[k]);
                        }
                    }
                }
            }
        }
        i += 1;
    }
    if some {
        out
    } else {
        Vec::new()
    }
}

fn window_matches(hay: &Vec<String>, what: &Vec<String>, from: usize) -> (r: bool)
    requires
        from + what@.len() <= hay@.len(),
    ensures
        r == (deep(hay@).subrange(from as int, from + what@.len()) == deep(what@)),
{
    let ghost sub = deep(hay@).subrange(from as int, from + what@.len());
    let n: usize = hay.len();
    let mut k: usize = 0;
    while k < what.len()
        invariant
            k <= what@.len(),
            from + what@.len() <= n == hay@.len(),
            sub == deep(hay@).subrange(from as int, from + what@.len()),
            forall|j: int| 0 <= j < k ==> sub[j] == deep(what@)[j],
        decreases what@.len() - k,
    {
        assert(sub[k as int] == hay@[from + k]@);
        assert(deep(what@)[k as int] == what@[k as int]@);
        if !same(hay[from + k].as_str(), what[k].as_str()) {
            return false;
        }
        k += 1;
    }
    assert(sub =~= deep(what@));
    true
}

/// Where a thread's anchor now points, given the file's current object id and
/// lines.
pub fn reanchor(anchor: &Anchor, current_blob: Option<&str>, file_lines: &[&str]) -> (r: AnchorFix)
    requires
        file_lines@.len() <= u32::MAX,
    ensures
        r == fix(*anchor, current_blob.deep_view(), deep(file_lines@)),
{
    broadcast use group_deep;

    if let Some(want) = &anchor.blob {
        if let Some(have) = current_blob {
            if same(want.as_str(), have) {
                return AnchorFix::Exact;
            }
        }
    }
    if anchor.end == 0 {
        return AnchorFix::Exact;
    }
    let what: Vec<String> = needle_of(anchor.snippet.as_str());
    if what.len() == 0 {
        return AnchorFix::Lost;
    }
    let n: usize = file_lines.len();
    let ghost file = deep(file_lines@);
    let mut hay: Vec<String> = Vec::new();
    let mut i: usize = 0;
    while i < n
        invariant
            i <= n == file_lines@.len(),
            file == deep(file_lines@),
            deep(hay@) == trimmed_lines(file.take(i as int)),
        decreases n - i,
    {
        assert(file[i as int] == file_lines@[i as int]@);
        hay.push(trimmed_end(file_lines[i]));
        assert(trimmed_lines(file.take(i + 1)) =~= trimmed_lines(file.take(i as int)).push(
            trim_end(file[i as int]),
        ));
        i += 1;
    }
    let mut from: usize = 0;
    while from <= n && what.len() <= n - from
        invariant
            from <= n + 1,
            n == hay@.len(),
            n <= u32::MAX,
            what@.len() > 0,
            from <= n,
            find_window(deep(hay@), deep(what@), 0) == find_window(
                deep(hay@),
                deep(what@),
                from as nat,
            ),
            deep(hay@) == trimmed_lines(deep(file_lines@)),
            !(anchor.blob is Some && current_blob is Some && anchor.blob->0@ == current_blob->0@),
            anchor.end != 0,
            deep(what@) == needle(lines(anchor.snippet@)),
        decreases n - from,
    {
        if window_matches(&hay, &what, from) {
            return AnchorFix::Moved(from as u32 + 1);
        }
        from += 1;
    }
    AnchorFix::Lost
}

// ---- store --------------------------------------------------------------------

#[derive(Debug, Clone, PartialEq, Eq)]
pub struct ThreadStore {
    pub version: u32,
    pub repo: String,
    pub base_ref: Option<String>,
    pub merge_base: Option<String>,
    pub head_sha: Option<String>,
    /// Above every id in use, at all times.
    pub next_id: u64,
    pub threads: Vec<Thread>,
}

/// The first thread with this id, or -1.
pub open spec fn at_id(threads: Seq<Thread>, id: u64) -> int
    decreases threads.len(),
{
    if threads.len() == 0 {
        -1
    } else {
        let k = at_id(threads.drop_last(), id);
        if k >= 0 {
            k
        } else if threads.last().id == id {
            threads.len() - 1
        } else {
            -1
        }
    }
}

pub proof fn lemma_at_id(threads: Seq<Thread>, id: u64)
    ensures
        -1 <= at_id(threads, id) < threads.len(),
        at_id(threads, id) >= 0 ==> threads[at_id(threads, id)].id == id,
        at_id(threads, id) == -1 ==> forall|i: int|
            0 <= i < threads.len() ==> (#[trigger] threads[i]).id != id,
        forall|i: int| 0 <= i < at_id(threads, id) ==> (#[trigger] threads[i]).id != id,
    decreases threads.len(),
{
    if threads.len() > 0 {
        let init = threads.drop_last();
        lemma_at_id(init, id);
        let k = at_id(threads, id);
        if k >= 0 {
            assert forall|i: int| 0 <= i < k implies (#[trigger] threads[i]).id != id by {
                assert(init[i] == threads[i]);
            }
        } else {
            assert forall|i: int| 0 <= i < threads.len() implies (#[trigger] threads[i]).id != id by {
                if i < threads.len() - 1 {
                    assert(init[i] == threads[i]);
                }
            }
        }
    }
}

pub proof fn lemma_at_id_is(threads: Seq<Thread>, id: u64, k: int)
    requires
        0 <= k < threads.len(),
        threads[k].id == id,
        forall|i: int| 0 <= i < k ==> (#[trigger] threads[i]).id != id,
    ensures
        at_id(threads, id) == k,
{
    lemma_at_id(threads, id);
}

/// The threads that hold a turn.
pub open spec fn spoken(threads: Seq<Thread>) -> Seq<Thread>
    decreases threads.len(),
{
    if threads.len() == 0 {
        Seq::empty()
    } else if threads.last().turns@.len() == 0 {
        spoken(threads.drop_last())
    } else {
        spoken(threads.drop_last()).push(threads.last())
    }
}

/// The first thread of each id.
pub open spec fn first_of_each(threads: Seq<Thread>) -> Seq<Thread>
    decreases threads.len(),
{
    if threads.len() == 0 {
        Seq::empty()
    } else {
        let init = first_of_each(threads.drop_last());
        if at_id(init, threads.last().id) >= 0 {
            init
        } else {
            init.push(threads.last())
        }
    }
}

/// The threads whose id is another one.
pub open spec fn without_id(threads: Seq<Thread>, id: u64) -> Seq<Thread>
    decreases threads.len(),
{
    if threads.len() == 0 {
        Seq::empty()
    } else if threads.last().id == id {
        without_id(threads.drop_last(), id)
    } else {
        without_id(threads.drop_last(), id).push(threads.last())
    }
}

/// The least watermark above every id.
pub open spec fn above_ids(threads: Seq<Thread>) -> int
    decreases threads.len(),
{
    if threads.len() == 0 {
        1
    } else {
        let init = above_ids(threads.drop_last());
        if threads.last().id + 1 > init {
            threads.last().id + 1
        } else {
            init
        }
    }
}

/// The next id, above every id that is taken.
pub open spec fn raised_id(next_id: u64, threads: Seq<Thread>) -> int {
    if next_id > above_ids(threads) {
        next_id as int
    } else {
        above_ids(threads)
    }
}

/// What `reseed` reports: how many threads it dropped, and why.
pub open spec fn reseed_note(empty: nat, dup: nat) -> Option<Seq<char>> {
    if empty == 0 && dup == 0 {
        None
    } else if dup == 0 {
        Some("dropped "@ + decimal(empty) + " empty thread(s) on load"@)
    } else if empty == 0 {
        Some("dropped "@ + decimal(dup) + " duplicate thread id(s) on load"@)
    } else {
        Some(
            "dropped "@ + decimal(empty) + " empty and "@ + decimal(dup) + " duplicate thread(s)"@,
        )
    }
}

proof fn lemma_spoken(threads: Seq<Thread>)
    ensures
        spoken(threads).len() <= threads.len(),
        forall|i: int| 0 <= i < spoken(threads).len() ==> (#[trigger] spoken(threads)[i]).turns@.len() > 0,
        forall|i: int|
            0 <= i < spoken(threads).len() ==> threads.contains(#[trigger] spoken(threads)[i]),
    decreases threads.len(),
{
    if threads.len() > 0 {
        let init = threads.drop_last();
        lemma_spoken(init);
        let s = spoken(threads);
        assert forall|i: int| 0 <= i < s.len() implies (#[trigger] s[i]).turns@.len() > 0
            && threads.contains(s[i]) by {
            if i < spoken(init).len() {
                assert(s[i] == spoken(init)[i]);
                let j = choose|j: int| 0 <= j < init.len() && init[j] == s[i];
                assert(threads[j] == s[i]);
            } else {
                assert(threads[threads.len() - 1] == s[i]);
            }
        }
    }
}

proof fn lemma_first_of_each(threads: Seq<Thread>)
    ensures
        first_of_each(threads).len() <= threads.len(),
        forall|i: int, j: int|
            0 <= i < j < first_of_each(threads).len() ==> first_of_each(threads)[i].id
                != first_of_each(threads)[j].id,
        forall|i: int|
            0 <= i < first_of_each(threads).len() ==> threads.contains(
                #[trigger] first_of_each(threads)[i],
            ),
    decreases threads.len(),
{
    if threads.len() > 0 {
        let init = threads.drop_last();
        lemma_first_of_each(init);
        let p = first_of_each(init);
        let s = first_of_each(threads);
        lemma_at_id(p, threads.last().id);
        assert forall|i: int| 0 <= i < s.len() implies threads.contains(#[trigger] s[i]) by {
            if i < p.len() {
                assert(s[i] == p[i]);
                let j = choose|j: int| 0 <= j < init.len() && init[j] == s[i];
                assert(threads[j] == s[i]);
            } else {
                assert(threads[threads.len() - 1] == s[i]);
            }
        }
    }
}

proof fn lemma_above_ids(threads: Seq<Thread>)
    ensures
        above_ids(threads) >= 1,
        forall|i: int| 0 <= i < threads.len() ==> (#[trigger] threads[i]).id < above_ids(threads),
    decreases threads.len(),
{
    if threads.len() > 0 {
        let init = threads.drop_last();
        lemma_above_ids(init);
        assert forall|i: int| 0 <= i < threads.len() implies (#[trigger] threads[i]).id < above_ids(
            threads,
        ) by {
            if i < init.len() {
                assert(init[i] == threads[i]);
            }
        }
    }
}

proof fn lemma_without_id(threads: Seq<Thread>, id: u64)
    ensures
        without_id(threads, id).len() <= threads.len(),
        without_id(threads, id).len() == threads.len() <==> at_id(threads, id) == -1,
        forall|i: int|
            0 <= i < without_id(threads, id).len() ==> (#[trigger] without_id(threads, id)[i]).id != id
                && threads.contains(without_id(threads, id)[i]),
        forall|other: u64|
            other != id ==> (#[trigger] at_id(without_id(threads, id), other) >= 0) == (at_id(
                threads,
                other,
            ) >= 0) && (at_id(threads, other) >= 0 ==> without_id(threads, id)[at_id(
                without_id(threads, id),
                other,
            )] == threads[at_id(threads, other)]),
    decreases threads.len(),
{
    if threads.len() > 0 {
        let init = threads.drop_last();
        let p = without_id(init, id);
        let s = without_id(threads, id);
        lemma_without_id(init, id);
        lemma_at_id(init, id);
        assert forall|i: int| 0 <= i < s.len() implies (#[trigger] s[i]).id != id && threads.contains(
            s[i],
        ) by {
            if i < p.len() {
                assert(s[i] == p[i]);
                let j = choose|j: int| 0 <= j < init.len() && init[j] == s[i];
                assert(threads[j] == s[i]);
            } else {
                assert(threads[threads.len() - 1] == s[i]);
            }
        }
        assert forall|other: u64| other != id implies (#[trigger] at_id(s, other) >= 0) == (at_id(
            threads,
            other,
        ) >= 0) && (at_id(threads, other) >= 0 ==> s[at_id(s, other)] == threads[at_id(
            threads,
            other,
        )]) by {
            assert((at_id(p, other) >= 0) == (at_id(init, other) >= 0));
            lemma_at_id(init, other);
            lemma_at_id(p, other);
            if threads.last().id != id {
                assert(s.drop_last() =~= p);
            }
        }
    }
}

fn keep_spoken(threads: &mut Vec<Thread>)
    ensures
        final(threads)@ == spoken(old(threads)@),
{
    broadcast use group_deep;

    let ghost before = threads@;
    let total: usize = threads.len();
    let mut seen: usize = 0;
    let mut i: usize = 0;
    assert(before =~= spoken(before.take(0)) + before);
    while i < threads.len()
        invariant
            total == before.len(),
            0 <= seen <= total,
            threads@ == spoken(before.take(seen as int)) + before.skip(seen as int),
            i == spoken(before.take(seen as int)).len(),
        decreases total - seen,
    {
        assert(before.take(seen + 1).drop_last() =~= before.take(seen as int));
        assert(threads@[i as int] == before[seen as int]);
        if threads[i].turns.len() == 0 {
            let _gone: Thread = threads.remove(i);
            assert(threads@ =~= spoken(before.take(seen as int)) + before.skip(seen + 1));
        } else {
            i += 1;
            assert(threads@ =~= spoken(before.take(seen + 1)) + before.skip(seen + 1));
        }
        seen += 1;
    }
    assert(threads@ =~= spoken(before));
}

fn keep_first_of_each(threads: &mut Vec<Thread>)
    ensures
        final(threads)@ == first_of_each(old(threads)@),
{
    broadcast use group_deep;

    let ghost live = threads@;
    let total: usize = threads.len();
    let mut seen: usize = 0;
    let mut i: usize = 0;
    assert(live =~= first_of_each(live.take(0)) + live);
    while i < threads.len()
        invariant
            total == live.len(),
            0 <= seen <= total,
            threads@ == first_of_each(live.take(seen as int)) + live.skip(seen as int),
            i == first_of_each(live.take(seen as int)).len(),
        decreases total - seen,
    {
        assert(live.take(seen + 1).drop_last() =~= live.take(seen as int));
        assert(threads@[i as int] == live[seen as int]);
        let ghost kept = first_of_each(live.take(seen as int));
        let id: u64 = threads[i].id;
        let mut dup: bool = false;
        let mut j: usize = 0;
        while j < i
            invariant
                i < threads@.len(),
                j <= i,
                i == kept.len(),
                forall|k: int| 0 <= k < i ==> #[trigger] threads@[k] == kept[k],
                dup == exists|k: int| 0 <= k < j && (#[trigger] kept[k]).id == id,
            decreases i - j,
        {
            assert(threads@[j as int] == kept[j as int]);
            if threads[j].id == id {
                dup = true;
            }
            j += 1;
        }
        proof {
            lemma_at_id(kept, id);
            assert(dup == (at_id(kept, id) >= 0));
        }
        if dup {
            let _gone: Thread = threads.remove(i);
            assert(threads@ =~= first_of_each(live.take(seen as int)) + live.skip(seen + 1));
        } else {
            i += 1;
            assert(threads@ =~= first_of_each(live.take(seen + 1)) + live.skip(seen + 1));
        }
        seen += 1;
    }
    assert(threads@ =~= first_of_each(live));
}

fn watermark(threads: &Vec<Thread>) -> (r: u64)
    requires
        forall|i: int| 0 <= i < threads@.len() ==> (#[trigger] threads@[i]).id < u64::MAX,
    ensures
        r == above_ids(threads@),
{
    broadcast use group_deep;

    let mut above: u64 = 1;
    let mut k: usize = 0;
    while k < threads.len()
        invariant
            k <= threads@.len(),
            above == above_ids(threads@.take(k as int)),
            forall|i: int| 0 <= i < threads@.len() ==> (#[trigger] threads@[i]).id < u64::MAX,
        decreases threads@.len() - k,
    {
        assert(threads@.take(k + 1).drop_last() =~= threads@.take(k as int));
        if threads[k].id + 1 > above {
            above = threads[k].id + 1;
        }
        k += 1;
    }
    above
}

/// What came of reading the store's file.
pub enum StoreRead {
    Missing,
    /// The file is there but could not be read.
    Unreadable(String),
    /// The bytes are no store.
    Undecodable(String),
    Decoded(ThreadStore),
}

/// What a load comes to: the store, a message for the user, and whether the
/// file has to be moved aside before anything is saved over it.
pub struct Loaded {
    pub store: ThreadStore,
    pub note: Option<String>,
    pub quarantine: bool,
}

impl ThreadStore {
    /// Ids are unique and below the watermark, and every thread holds a turn.
    pub open spec fn wf(self) -> bool {
        &&& forall|i: int|
            0 <= i < self.threads@.len() ==> (#[trigger] self.threads@[i]).id < self.next_id
                && self.threads@[i].turns@.len() > 0
        &&& forall|i: int, j: int|
            0 <= i < j < self.threads@.len() ==> self.threads@[i].id != self.threads@[j].id
    }

    /// The same store but for its threads and its watermark.
    pub open spec fn same_frame(self, o: ThreadStore) -> bool {
        &&& self.version == o.version
        &&& self.repo == o.repo
        &&& self.base_ref == o.base_ref
        &&& self.merge_base == o.merge_base
        &&& self.head_sha == o.head_sha
    }

    pub open spec fn is_fresh(self, repo: Seq<char>) -> bool {
        &&& self.version == STORE_VERSION
        &&& self.repo@ == repo
        &&& self.base_ref is None
        &&& self.merge_base is None
        &&& self.head_sha is None
        &&& self.next_id == 1
        &&& self.threads@.len() == 0
    }

    pub fn empty(repo: &str) -> (r: ThreadStore)
        ensures
            r.is_fresh(repo@),
            r.wf(),
    {
        ThreadStore {
            version: STORE_VERSION,
            repo: repo.to_owned(),
            base_ref: None,
            merge_base: None,
            head_sha: None,
            next_id: 1,
            threads: Vec::new(),
        }
    }

    /// Drop threads without a turn and threads that repeat an id, and raise
    /// the watermark above every id that is left.
    pub fn reseed(&mut self) -> (r: Option<String>)
        requires
            forall|i: int| 0 <= i < old(self).threads@.len() ==> (#[trigger] old(self).threads@[i]).id < u64::MAX,
        ensures
            final(self).same_frame(*old(self)),
            final(self).threads@ == first_of_each(spoken(old(self).threads@)),
            final(self).next_id == raised_id(old(self).next_id, final(self).threads@),
            final(self).wf(),
            r.deep_view() == reseed_note(
                (old(self).threads@.len() - spoken(old(self).threads@).len()) as nat,
                (spoken(old(self).threads@).len() - final(self).threads@.len()) as nat,
            ),
    {
        broadcast use group_deep;

        let ghost before = self.threads@;
        let total: usize = self.threads.len();
        keep_spoken(&mut self.threads);
        let ghost live = self.threads@;
        let left: usize = self.threads.len();
        keep_first_of_each(&mut self.threads);
        proof {
            lemma_spoken(before);
            lemma_first_of_each(live);
            lemma_above_ids(self.threads@);
            assert forall|k: int| 0 <= k < self.threads@.len() implies (#[trigger] self.threads@[k]).id
                < u64::MAX && self.threads@[k].turns@.len() > 0 by {
                assert(live.contains(first_of_each(live)[k]));
                let a = choose|a: int| 0 <= a < live.len() && live[a] == self.threads@[k];
                assert(before.contains(spoken(before)[a]));
                let b = choose|b: int| 0 <= b < before.len() && before[b] == self.threads@[k];
                assert(before[b].id < u64::MAX);
                assert(spoken(before)[a].turns@.len() > 0);
            }
        }
        let dropped: usize = total - left;
        let deduped: usize = left - self.threads.len();
        let above: u64 = watermark(&self.threads);
        if above > self.next_id {
            self.next_id = above;
        }
        if dropped == 0 && deduped == 0 {
            None
        } else if deduped == 0 {
            Some(concat3("dropped ", decimal_of(dropped as u64).as_str(), " empty thread(s) on load"))
        } else if dropped == 0 {
            Some(
                concat3(
                    "dropped ",
                    decimal_of(deduped as u64).as_str(),
                    " duplicate thread id(s) on load",
                ),
            )
        } else {
            let head: String = concat3("dropped ", decimal_of(dropped as u64).as_str(), " empty and ");
            Some(
                concat3(head.as_str(), decimal_of(deduped as u64).as_str(), " duplicate thread(s)"),
            )
        }
    }

    /// Reserve a fresh id.
    pub fn alloc_id(&mut self) -> (r: u64)
        requires
            old(self).next_id < u64::MAX,
        ensures
            r == old(self).next_id,
            final(self).next_id == old(self).next_id + 1,
            final(self).same_frame(*old(self)),
            final(self).threads == old(self).threads,
            old(self).wf() ==> final(self).wf() && at_id(final(self).threads@, r) == -1,
    {
        let id: u64 = self.next_id;
        self.next_id += 1;
        proof {
            lemma_at_id(self.threads@, id);
        }
        id
    }

    /// The position of the thread with this id.
    pub fn position(&self, id: u64) -> (r: Option<usize>)
        ensures
            match r {
                Some(k) => k == at_id(self.threads@, id) && k < self.threads@.len(),
                None => at_id(self.threads@, id) == -1,
            },
    {
        let mut i: usize = 0;
        while i < self.threads.len()
            invariant
                i <= self.threads@.len(),
                forall|j: int| 0 <= j < i ==> (#[trigger] self.threads@[j]).id != id,
            decreases self.threads@.len() - i,
        {
            if self.threads[i].id == id {
                proof {
                    lemma_at_id_is(self.threads@, id, i as int);
                }
                return Some(i);
            }
            i += 1;
        }
        proof {
            lemma_at_id(self.threads@, id);
        }
        None
    }

    pub fn get(&self, id: u64) -> (r: Option<&Thread>)
        ensures
            match r {
                Some(t) => at_id(self.threads@, id) >= 0 && *t == self.threads@[at_id(self.threads@, id)],
                None => at_id(self.threads@, id) == -1,
            },
    {
        match self.position(id) {
            Some(k) => Some(&self.threads[k]),
            None => None,
        }
    }

    pub fn get_mut(&mut self, id: u64) -> (r: Option<&mut Thread>)
        ensures
            match r {
                Some(t) => {
                    let k = at_id(old(self).threads@, id);
                    &&& 0 <= k < old(self).threads@.len()
                    &&& *t == old(self).threads@[k]
                    &&& final(self).threads@ == old(self).threads@.update(k, *final(t))
                    &&& final(self).next_id == old(self).next_id
                    &&& final(self).same_frame(*old(self))
                },
                None => at_id(old(self).threads@, id) == -1 && *final(self) == *old(self),
            },
    {
        match self.position(id) {
            Some(k) => Some(&mut self.threads[k]),
            None => None,
        }
    }

    /// Drop the threads with this id; true if there was one.
    pub fn remove(&mut self, id: u64) -> (r: bool)
        ensures
            r == (at_id(old(self).threads@, id) >= 0),
            final(self).threads@ == without_id(old(self).threads@, id),
            final(self).next_id == old(self).next_id,
            final(self).same_frame(*old(self)),
            at_id(final(self).threads@, id) == -1,
            old(self).wf() ==> final(self).wf(),
    {
        broadcast use group_deep;

        let ghost before = self.threads@;
        let total: usize = self.threads.len();
        let mut seen: usize = 0;
        let mut i: usize = 0;
        assert(before =~= without_id(before.take(0), id) + before);
        while i < self.threads.len()
            invariant
                self.same_frame(*old(self)),
                self.next_id == old(self).next_id,
                total == before.len(),
                0 <= seen <= total,
                self.threads@ == without_id(before.take(seen as int), id) + before.skip(seen as int),
                i == without_id(before.take(seen as int), id).len(),
            decreases total - seen,
        {
            assert(before.take(seen + 1).drop_last() =~= before.take(seen as int));
            assert(self.threads@[i as int] == before[seen as int]);
            if self.threads[i].id == id {
                let _gone: Thread = self.threads.remove(i);
                assert(self.threads@ =~= without_id(before.take(seen as int), id) + before.skip(seen + 1));
            } else {
                i += 1;
                assert(self.threads@ =~= without_id(before.take(seen + 1), id) + before.skip(seen + 1));
            }
            seen += 1;
        }
        assert(self.threads@ =~= without_id(before, id));
        proof {
            lemma_without_id(before, id);
            lemma_at_id(self.threads@, id);
            lemma_at_id(before, id);
            if old(self).wf() {
                lemma_without_keeps_wf(*old(self), id);
            }
        }
        self.threads.len() != total
    }

    pub fn is_empty(&self) -> (r: bool)
        ensures
            r == (self.threads@.len() == 0),
    {
        self.threads.len() == 0
    }

    pub fn len(&self) -> (r: usize)
        ensures
            r == self.threads@.len(),
    {
        self.threads.len()
    }

    /// Whether any thread holds something worth delivering.
    pub fn has_unsent(&self) -> (r: bool)
        ensures
            r == exists|i: int| 0 <= i < self.threads@.len() && (#[trigger] self.threads@[i]).wants_sending(),
    {
        let mut i: usize = 0;
        while i < self.threads.len()
            invariant
                i <= self.threads@.len(),
                forall|j: int| 0 <= j < i ==> !(#[trigger] self.threads@[j]).wants_sending(),
            decreases self.threads@.len() - i,
        {
            if self.threads[i].has_unsent() {
                assert(self.threads@[i as int].wants_sending());
                return true;
            }
            i += 1;
        }
        false
    }

    /// What a load comes to, given what came of reading the file. Only a store
    /// of this version is taken up; anything else that is there is moved aside,
    /// never overwritten.
    pub fn load_from(read: StoreRead, repo: &str) -> (r: Loaded)
        requires
            read matches StoreRead::Decoded(s) ==> forall|i: int|
                0 <= i < s.threads@.len() ==> (#[trigger] s.threads@[i]).id < u64::MAX,
        ensures
            r.store.wf(),
            match read {
                StoreRead::Missing => r.store.is_fresh(repo@) && r.note is None && !r.quarantine,
                StoreRead::Unreadable(e) => {
                    &&& r.store.is_fresh(repo@)
                    &&& r.note.deep_view() == Some("could not read threads: "@ + e@)
                    &&& r.quarantine
                },
                StoreRead::Undecodable(e) => {
                    &&& r.store.is_fresh(repo@)
                    &&& r.note.deep_view() == Some("threads file unreadable: "@ + e@)
                    &&& r.quarantine
                },
                StoreRead::Decoded(s) => if s.version == STORE_VERSION {
                    &&& r.store.same_frame(s)
                    &&& r.store.threads@ == first_of_each(spoken(s.threads@))
                    &&& r.note.deep_view() == reseed_note(
                        (s.threads@.len() - spoken(s.threads@).len()) as nat,
                        (spoken(s.threads@).len() - r.store.threads@.len()) as nat,
                    )
                    &&& r.store.next_id == raised_id(s.next_id, r.store.threads@)
                    &&& !r.quarantine
                } else {
                    &&& r.store.is_fresh(repo@)
                    &&& r.note.deep_view() == Some(
                        "threads file is version "@ + decimal(s.version as nat) + " (expected "@
                            + decimal(STORE_VERSION as nat) + "); quarantined"@,
                    )
                    &&& r.quarantine
                },
            },
    {
        match read {
            StoreRead::Missing => Loaded {
                store: ThreadStore::empty(repo),
                note: None,
                quarantine: false,
            },
            StoreRead::Unreadable(e) => Loaded {
                store: ThreadStore::empty(repo),
                note: Some(concat2("could not read threads: ", e.as_str())),
                quarantine: true,
            },
            StoreRead::Undecodable(e) => Loaded {
                store: ThreadStore::empty(repo),
                note: Some(concat2("threads file unreadable: ", e.as_str())),
                quarantine: true,
            },
            StoreRead::Decoded(mut store) => {
                if store.version == STORE_VERSION {
                    let note: Option<String> = store.reseed();
                    Loaded { store, note, quarantine: false }
                } else {
                    let head: String = concat3(
                        "threads file is version ",
                        decimal_of(store.version as u64).as_str(),
                        " (expected ",
                    );
                    let msg: String = concat3(
                        head.as_str(),
                        decimal_of(STORE_VERSION as u64).as_str(),
                        "); quarantined",
                    );
                    Loaded { store: ThreadStore::empty(repo), note: Some(msg), quarantine: true }
                }
            },
        }
    }
}

proof fn lemma_without_keeps_wf(s: ThreadStore, id: u64)
    requires
        s.wf(),
    ensures
        forall|i: int|
            0 <= i < without_id(s.threads@, id).len() ==> (#[trigger] without_id(s.threads@, id)[i]).id
                < s.next_id && without_id(s.threads@, id)[i].turns@.len() > 0,
        forall|i: int, j: int|
            0 <= i < j < without_id(s.threads@, id).len() ==> without_id(s.threads@, id)[i].id
                != without_id(s.threads@, id)[j].id,
{
    lemma_without_id(s.threads@, id);
    let w = without_id(s.threads@, id);
    assert forall|i: int| 0 <= i < w.len() implies (#[trigger] w[i]).id < s.next_id
        && w[i].turns@.len() > 0 by {
        let j = choose|j: int| 0 <= j < s.threads@.len() && s.threads@[j] == w[i];
    }
    lemma_without_distinct(s.threads@, id);
}

proof fn lemma_without_distinct(threads: Seq<Thread>, id: u64)
    requires
        forall|i: int, j: int| 0 <= i < j < threads.len() ==> threads[i].id != threads[j].id,
    ensures
        forall|i: int, j: int|
            0 <= i < j < without_id(threads, id).len() ==> without_id(threads, id)[i].id
                != without_id(threads, id)[j].id,
    decreases threads.len(),
{
    if threads.len() > 0 {
        let init = threads.drop_last();
        assert forall|i: int, j: int| 0 <= i < j < init.len() implies init[i].id != init[j].id by {
            assert(threads[i].id != threads[j].id);
        }
        lemma_without_distinct(init, id);
        lemma_without_id(init, id);
        let p = without_id(init, id);
        let s = without_id(threads, id);
        assert forall|i: int, j: int| 0 <= i < j < s.len() implies s[i].id != s[j].id by {
            if j < p.len() {
                assert(s[i] == p[i] && s[j] == p[j]);
            } else {
                assert(s[i] == p[i]);
                let a = choose|a: int| 0 <= a < init.len() && init[a] == p[i];
                assert(threads[a].id != threads[threads.len() - 1].id);
            }
        }
    }
}

// ---- where the store lives ------------------------------------------------------

/// The name of a view: the stem of its socket, or a hash of the checkout.
pub open spec fn view_key(socket: Option<Seq<char>>, repo: Seq<char>) -> Seq<char> {
    match socket {
        Some(s) => match file_name(s) {
            Some(name) => stem(name),
            None => repo_key(repo),
        },
        None => repo_key(repo),
    }
}

/// The store of a view, under the plugin's state directory.
pub fn store_path(socket: Option<&str>, repo: &str, state_dir: &str) -> (r: String)
    ensures
        r@ == joined(
            joined(state_dir@, "threads"@),
            view_key(socket.deep_view(), repo@) + ".json"@,
        ),
{
    let key: String = match socket {
        Some(s) => match file_stem_of(s) {
            Some(k) => k,
            None => repo_hash(repo),
        },
        None => repo_hash(repo),
    };
    let dir: String = join_path(state_dir, "threads");
    join_path(dir.as_str(), concat2(key.as_str(), ".json").as_str())
}

/// The extension of a store moved aside. A second one gets a name of its own,
/// so that it does not replace the first.
pub fn corrupt_extension(taken: bool, now: i64) -> (r: String)
    ensures
        r@ == if taken {
            "json.corrupt."@ + signed(now as int)
        } else {
            "json.corrupt"@
        },
{
    if taken {
        concat2("json.corrupt.", signed_of(now).as_str())
    } else {
        "json.corrupt".to_owned()
    }
}

/// The extension of the file that a save is staged in, one per process.
pub fn staging_extension(pid: u32) -> (r: String)
    ensures
        r@ == "json."@ + decimal(pid as nat) + ".tmp"@,
{
    concat3("json.", decimal_of(pid as u64).as_str(), ".tmp")
}

/// The message about a store moved aside, or about the failure to do so.
pub fn quarantine_note(msg: &str, moved: Result<String, String>) -> (r: String)
    ensures
        r@ == match moved {
            Ok(to) => msg@ + " → "@ + to@,
            Err(e) => msg@ + " (could not quarantine: "@ + e@ + ")"@,
        },
{
    match moved {
        Ok(to) => concat3(msg, " → ", to.as_str()),
        Err(e) => {
            let head: String = concat3(msg, " (could not quarantine: ", e.as_str());
            concat2(head.as_str(), ")")
        },
    }
}

// ---- laws -----------------------------------------------------------------------

/// What was delivered is not delivered again.
pub proof fn law_delivery_leaves_nothing_pending(before: Thread, after: Thread, agent: AgentRef, at: i64)
    requires
        before.delivered_to(after, agent, at),
    ensures
        !after.wants_sending(),
        pending_at(after.turns@).len() == 0,
        newest_pending(after.turns@) == -1,
{
    assert forall|i: int| 0 <= i < after.turns@.len() implies !pending(#[trigger] after.turns@[i]) by {
        assert(after.turns@[i] == all_sent(before.turns@)[i]);
    }
    lemma_newest_pending(after.turns@);
    lemma_pending_at(after.turns@);
    if pending_at(after.turns@).len() > 0 {
        assert(pending(after.turns@[pending_at(after.turns@)[0]]));
    }
}

/// A resolved thread is never sent.
pub proof fn law_resolved_is_never_sent(t: Thread)
    requires
        t.state == ThreadState::Resolved,
    ensures
        !t.wants_sending(),
{
}

/// A turn of the user's is pending, and unless the thread is resolved it is a
/// draft that wants sending: the badge never claims that the agent has the ball.
pub proof fn law_follow_up_is_pending(before: Thread, after: Thread, text: String, at: i64, updated: i64)
    requires
        before.grown_to(after, Author::Human, text, at, updated),
    ensures
        newest_pending(after.turns@) == before.turns@.len(),
        pending_at(after.turns@) == pending_at(before.turns@).push(before.turns@.len() as int),
        before.state != ThreadState::Resolved ==> after.state == ThreadState::Draft && after.wants_sending(),
        before.state == ThreadState::Resolved ==> after.state == ThreadState::Resolved,
        preview_text(after.turns@) == text@,
{
    assert(after.turns@.drop_last() =~= before.turns@);
    lemma_newest_pending(after.turns@);
}

/// An agent's turn answers the thread, unless the user has closed it. It is not
/// something to send, and it does not displace the user's own note from the
/// preview.
pub proof fn law_answer_is_not_pending(before: Thread, after: Thread, text: String, at: i64, updated: i64)
    requires
        before.grown_to(after, Author::Agent, text, at, updated),
    ensures
        before.state != ThreadState::Resolved ==> after.state == ThreadState::Answered,
        pending_at(after.turns@) == pending_at(before.turns@),
        any_pending(after.turns@) == any_pending(before.turns@),
        newest_human(before.turns@) >= 0 ==> preview_text(after.turns@) == preview_text(before.turns@),
{
    assert(after.turns@.drop_last() =~= before.turns@);
    lemma_newest_pending(after.turns@);
    lemma_newest_pending(before.turns@);
    lemma_newest_human(before.turns@);
}

/// A thread that is not resolved wants sending exactly when it has a pending
/// turn, and exactly then the newest of them may be rewritten.
pub proof fn law_pending_agrees(t: Thread)
    requires
        t.state != ThreadState::Resolved,
    ensures
        t.wants_sending() <==> pending_at(t.turns@).len() > 0,
        t.wants_sending() <==> newest_pending(t.turns@) >= 0,
        t.wants_sending() ==> pending_at(t.turns@).last() == newest_pending(t.turns@),
{
    lemma_newest_pending(t.turns@);
    lemma_pending_at(t.turns@);
    lemma_pending_last(t.turns@);
}

proof fn lemma_pending_last(turns: Seq<Turn>)
    ensures
        (pending_at(turns).len() > 0) == (newest_pending(turns) >= 0),
        pending_at(turns).len() > 0 ==> pending_at(turns).last() == newest_pending(turns),
    decreases turns.len(),
{
    if turns.len() > 0 {
        lemma_pending_last(turns.drop_last());
        lemma_newest_pending(turns.drop_last());
    }
}

/// A thread about the whole file is never lost, nor is one whose file has the
/// object id that the thread was written against.
pub proof fn law_unchanged_is_exact(anchor: Anchor, blob: Option<Seq<char>>, file: Seq<Seq<char>>)
    requires
        anchor.end == 0 || (anchor.blob is Some && blob == Some(anchor.blob->0@)),
    ensures
        fix(anchor, blob, file) == AnchorFix::Exact,
{
}

/// A moved anchor stands at the first place where the file holds what the
/// snippet says; a lost one has no such place.
pub proof fn law_moved_is_found(anchor: Anchor, blob: Option<Seq<char>>, file: Seq<Seq<char>>)
    requires
        file.len() <= u32::MAX,
    ensures
        fix(anchor, blob, file) matches AnchorFix::Moved(n) ==> {
            let what = needle(lines(anchor.snippet@));
            &&& n >= 1
            &&& what.len() > 0
            &&& n - 1 + what.len() <= file.len()
            &&& trimmed_lines(file).subrange(n - 1, n - 1 + what.len()) == what
            &&& forall|i: int|
                0 <= i < n - 1 ==> #[trigger] trimmed_lines(file).subrange(i, i + what.len()) != what
        },
        fix(anchor, blob, file) == AnchorFix::Lost ==> {
            let what = needle(lines(anchor.snippet@));
            ||| what.len() == 0
            ||| forall|i: int|
                0 <= i <= file.len() - what.len() ==> #[trigger] trimmed_lines(file).subrange(
                    i,
                    i + what.len(),
                ) != what
        },
{
    lemma_find_window(trimmed_lines(file), needle(lines(anchor.snippet@)), 0);
}

pub(crate) proof fn lemma_find_window(hay: Seq<Seq<char>>, what: Seq<Seq<char>>, from: nat)
    ensures
        match find_window(hay, what, from) {
            Some(n) => {
                &&& from <= n
                &&& n + what.len() <= hay.len()
                &&& hay.subrange(n as int, (n + what.len()) as int) == what
                &&& forall|i: int|
                    from <= i < n ==> #[trigger] hay.subrange(i, i + what.len()) != what
            },
            None => forall|i: int|
                from <= i <= hay.len() - what.len() ==> #[trigger] hay.subrange(i, i + what.len()) != what,
        },
    decreases hay.len() + 1 - from,
{
    if from + what.len() <= hay.len() && hay.subrange(from as int, (from + what.len()) as int) != what {
        lemma_find_window(hay, what, from + 1);
    }
}

/// A thread added under a reserved id keeps the store's ids unique and below
/// the watermark.
pub proof fn law_reserved_id_is_fresh(before: ThreadStore, after: ThreadStore, t: Thread)
    requires
        before.wf(),
        t.turns@.len() > 0,
        t.id == before.next_id,
        after.next_id == before.next_id + 1,
        after.threads@ == before.threads@.push(t),
    ensures
        after.wf(),
        at_id(before.threads@, t.id) == -1,
        at_id(after.threads@, t.id) == before.threads@.len(),
{
    lemma_at_id(before.threads@, t.id);
    assert(after.threads@.drop_last() =~= before.threads@);
}

/// Dropping a thread leaves every other thread where its id finds it.
pub proof fn law_remove_keeps_the_others(threads: Seq<Thread>, id: u64, other: u64)
    requires
        other != id,
    ensures
        (at_id(without_id(threads, id), other) >= 0) == (at_id(threads, other) >= 0),
        at_id(threads, other) >= 0 ==> without_id(threads, id)[at_id(without_id(threads, id), other)]
            == threads[at_id(threads, other)],
{
    lemma_without_id(threads, id);
    assert((at_id(without_id(threads, id), other) >= 0) == (at_id(threads, other) >= 0));
}

proof fn lemma_all_kept(threads: Seq<Thread>, next_id: u64)
    requires
        next_id > 0,
        forall|i: int|
            0 <= i < threads.len() ==> (#[trigger] threads[i]).id < next_id && threads[i].turns@.len()
                > 0,
        forall|i: int, j: int|
            0 <= i < j < threads.len() ==> threads[i].id != threads[j].id,
    ensures
        spoken(threads) == threads,
        first_of_each(threads) == threads,
        above_ids(threads) <= next_id,
    decreases threads.len(),
{
    if threads.len() > 0 {
        let init = threads.drop_last();
        assert forall|i: int| 0 <= i < init.len() implies (#[trigger] init[i]).id < next_id
            && init[i].turns@.len() > 0 by {
            assert(threads[i].id < next_id);
        }
        lemma_all_kept(init, next_id);
        lemma_at_id(init, threads.last().id);
        assert(threads.last() == threads[threads.len() - 1]);
        assert(init.push(threads.last()) =~= threads);
    }
}

/// A sound store comes back from disk as it was written, and without a word.
pub proof fn law_a_sound_store_comes_back(s: ThreadStore)
    requires
        s.wf(),
        s.next_id > 0,
    ensures
        first_of_each(spoken(s.threads@)) == s.threads@,
        raised_id(s.next_id, s.threads@) == s.next_id,
        reseed_note(0, 0) is None,
{
    lemma_all_kept(s.threads@, s.next_id);
}

} // verus!
