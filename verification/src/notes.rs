//! Notes in the diff pane: writing them, sending them, and what comes back.

use vstd::prelude::*;

use crate::preview::PreviewApp;
use crate::render::marker;
use crate::rows::RowV;
use crate::splice::to_base;
use crate::text::lines;
use crate::thread::{
    any_pending, at_id, now_epoch, without_id, AgentRef, Author, Thread, ThreadState, ThreadStore,
    Turn,
};

verus! {

// ---- what is selected ----------------------------------------------------------------

/// The new-side numbers of the lines from `a` to before `end`; cards, folds and
/// deleted lines have none.
pub open spec fn new_numbers(cards: Seq<usize>, rows: Seq<RowV>, a: int, end: int) -> Seq<u32>
    decreases end - a,
{
    if end <= a {
        Seq::empty()
    } else {
        let s = new_numbers(cards, rows, a, end - 1);
        match to_base(cards, end - 1) {
            Some(k) => if 0 <= k < rows.len() && rows[k] is Code && rows[k]->Code_0.new_no is Some {
                s.push(rows[k]->Code_0.new_no->0)
            } else {
                s
            },
            None => s,
        }
    }
}

/// A row as it stands in a diff; empty for a fold.
pub open spec fn diff_text(r: RowV) -> Seq<char> {
    match r {
        RowV::Code(l) => marker(l.kind) + l.text(),
        RowV::Fold(_) => Seq::empty(),
    }
}

/// How many lines of code a note carries.
pub const SNIPPET_LINES: usize = 40;

/// The first lines from `a` to before `end`, as they stand in the diff.
pub open spec fn snippet(cards: Seq<usize>, rows: Seq<RowV>, a: int, end: int) -> Seq<char>
    decreases end - a,
{
    if end <= a {
        Seq::empty()
    } else {
        let s = snippet(cards, rows, a, end - 1);
        match to_base(cards, end - 1) {
            Some(k) => if 0 <= k < rows.len() && diff_text(rows[k]).len() > 0 && lines(s).len()
                < SNIPPET_LINES {
                (s + diff_text(rows[k])).push('\n')
            } else {
                s
            },
            None => s,
        }
    }
}

pub open spec fn least_no(s: Seq<u32>) -> u32
    decreases s.len(),
{
    if s.len() <= 1 {
        s[0]
    } else if s.last() < least_no(s.drop_last()) {
        s.last()
    } else {
        least_no(s.drop_last())
    }
}

pub open spec fn greatest_no(s: Seq<u32>) -> u32
    decreases s.len(),
{
    if s.len() <= 1 {
        s[0]
    } else if s.last() > greatest_no(s.drop_last()) {
        s.last()
    } else {
        greatest_no(s.drop_last())
    }
}

/// The lines that a note on the selection is about: none where no line of it is
/// on the new side.
pub open spec fn note_range(numbers: Seq<u32>) -> Option<(u32, u32)> {
    if numbers.len() == 0 || least_no(numbers) == 0 {
        None
    } else {
        Some((least_no(numbers), greatest_no(numbers)))
    }
}

pub(crate) fn range_of_numbers(v: &Vec<u32>) -> (r: Option<(u32, u32)>)
    ensures
        r == note_range(v@),
{
    if v.len() == 0 {
        return None;
    }
    let mut lo: u32 = v[0];
    let mut hi: u32 = v[0];
    let mut i: usize = 1;
    while i < v.len()
        invariant
            1 <= i <= v@.len(),
            lo == least_no(v@.take(i as int)),
            hi == greatest_no(v@.take(i as int)),
        decreases v@.len() - i,
    {
        assert(v@.take(i + 1).drop_last() =~= v@.take(i as int));
        if v[i] < lo {
            lo = v[i];
        }
        if v[i] > hi {
            hi = v[i];
        }
        i += 1;
    }
    assert(v@.take(i as int) =~= v@);
    if lo == 0 {
        None
    } else {
        Some((lo, hi))
    }
}

// ---- conversations ---------------------------------------------------------------------

/// Turns with some of them marked.
pub open spec fn marked(turns: Seq<Turn>, at: Seq<usize>, sent: bool) -> Seq<Turn> {
    Seq::new(
        turns.len(),
        |i: int|
            if at.contains(i as usize) {
                Turn { sent, ..turns[i] }
            } else {
                turns[i]
            },
    )
}

fn mark(turns: &mut Vec<Turn>, at: &[usize], sent: bool)
    ensures
        final(turns)@ == marked(old(turns)@, at@, sent),
{
    let ghost t0 = turns@;
    let n: usize = turns.len();
    let mut i: usize = 0;
    assert(turns@ =~= marked(t0, at@.take(0), sent));
    while i < at.len()
        invariant
            i <= at@.len(),
            n == turns@.len() == t0.len(),
            turns@ == marked(t0, at@.take(i as int), sent),
        decreases at@.len() - i,
    {
        let k: usize = at[i];
        let ghost before = turns@;
        if k < n {
            turns[k].sent = sent;
        }
        proof {
            let p = at@.take(i as int);
            let q = at@.take(i + 1);
            assert forall|j: int| 0 <= j < n implies #[trigger] turns@[j] == marked(t0, q, sent)[j] by {
                assert(q[i as int] == k);
                if p.contains(j as usize) {
                    let m = choose|m: int| 0 <= m < p.len() && p[m] == j as usize;
                    assert(q[m] == j as usize);
                }
                if q.contains(j as usize) && j != k {
                    let m = choose|m: int| 0 <= m < q.len() && q[m] == j as usize;
                    assert(p[m] == j as usize);
                }
                assert(before[j] == marked(t0, p, sent)[j]);
            }
            assert(turns@ =~= marked(t0, q, sent));
        }
        i += 1;
    }
    assert(at@.take(i as int) =~= at@);
}

impl Thread {
    /// The conversation after some of its turns were delivered. One that has
    /// been answered stays so: the delivery is an earlier one's. One that the
    /// user closed stays closed.
    pub open spec fn sent_to(self, after: Thread, at: Seq<usize>, agent: AgentRef, updated: i64) -> bool {
        &&& after.turns@ == marked(self.turns@, at, true)
        &&& after.agent == Some(agent)
        &&& after.state == if self.state == ThreadState::Answered || self.state
            == ThreadState::Resolved {
            self.state
        } else {
            ThreadState::Sent
        }
        &&& after.updated_at == updated
        &&& after.id == self.id
        &&& after.anchor == self.anchor
        &&& after.created_at == self.created_at
    }

    /// The conversation after an attempt failed. Where the question cannot have
    /// reached the agent, the turns of this attempt are handed back.
    pub open spec fn failed_to(self, after: Thread, at: Seq<usize>, err: Seq<char>, still_pending: bool) -> bool {
        exists|said: Turn|
            {
                let turns = self.turns@.push(said);
                let left = if still_pending {
                    marked(turns, at, false)
                } else {
                    turns
                };
                &&& said.author == Author::System
                &&& said.text@ == err
                &&& !said.sent
                &&& #[trigger] marked(self.turns@.push(said), at, false).len() == turns.len()
                &&& after.turns@ == left
                &&& after.state == if self.state == ThreadState::Resolved {
                    ThreadState::Resolved
                } else if !still_pending {
                    ThreadState::Failed
                } else if any_pending(left) {
                    ThreadState::Draft
                } else {
                    self.state
                }
                &&& after.agent == self.agent
                &&& after.id == self.id
                &&& after.anchor == self.anchor
                &&& after.created_at == self.created_at
            }
    }

    fn mark_failed(&mut self, at: &[usize], err: &str, still_pending: bool)
        ensures
            old(self).failed_to(*final(self), at@, err@, still_pending),
            final(self).turns@.len() > 0,
    {
        let ghost before = *self;
        self.push(Author::System, err.to_owned());
        let ghost grown = *self;
        let ghost said = self.turns@.last();
        assert(self.turns@ =~= before.turns@.push(said));
        if still_pending {
            mark(&mut self.turns, at, false);
            if self.has_unsent() {
                self.state = ThreadState::Draft;
            }
        } else if self.state != ThreadState::Resolved {
            self.state = ThreadState::Failed;
        }
        assert(marked(before.turns@.push(said), at@, false).len() == before.turns@.push(said).len());
    }

    fn mark_delivered(&mut self, at: &[usize], agent: AgentRef)
        ensures
            exists|updated: i64| old(self).sent_to(*final(self), at@, agent, updated),
    {
        mark(&mut self.turns, at, true);
        self.agent = Some(agent);
        if self.state != ThreadState::Answered && self.state != ThreadState::Resolved {
            self.state = ThreadState::Sent;
        }
        let updated: i64 = now_epoch();
        self.updated_at = updated;
        assert(old(self).sent_to(*self, at@, agent, updated));
    }
}

/// The store after one of its conversations changed.
pub open spec fn one_changed(before: ThreadStore, after: ThreadStore, k: int) -> bool {
    &&& 0 <= k < before.threads@.len()
    &&& after.threads@.len() == before.threads@.len()
    &&& after.threads@ == before.threads@.update(k, after.threads@[k])
    &&& after.next_id == before.next_id
    &&& after.same_frame(before)
}

pub proof fn lemma_one_changed_wf(before: ThreadStore, after: ThreadStore, k: int)
    requires
        before.wf(),
        one_changed(before, after, k),
        after.threads@[k].id == before.threads@[k].id,
        after.threads@[k].turns@.len() > 0,
    ensures
        after.wf(),
{
    assert forall|i: int| 0 <= i < after.threads@.len() implies (#[trigger] after.threads@[i]).id
        < after.next_id && after.threads@[i].turns@.len() > 0 by {
        assert(before.threads@[i].id < before.next_id);
    }
    assert forall|i: int, j: int| 0 <= i < j < after.threads@.len() implies after.threads@[i].id
        != after.threads@[j].id by {
        assert(before.threads@[i].id != before.threads@[j].id);
    }
}

pub proof fn lemma_pushed_wf(before: ThreadStore, after: ThreadStore, t: Thread)
    requires
        before.wf(),
        before.next_id < u64::MAX,
        after.next_id == before.next_id + 1,
        after.threads@ == before.threads@.push(t),
        t.id == before.next_id,
        t.turns@.len() > 0,
    ensures
        after.wf(),
{
    let n = before.threads@.len() as int;
    assert forall|i: int| 0 <= i < after.threads@.len() implies (#[trigger] after.threads@[i]).id
        < after.next_id && after.threads@[i].turns@.len() > 0 by {
        if i < n {
            assert(before.threads@[i].id < before.next_id);
        }
    }
    assert forall|i: int, j: int| 0 <= i < j < after.threads@.len() implies after.threads@[i].id
        != after.threads@[j].id by {
        assert(before.threads@[i].id < before.next_id);
        if j < n {
            assert(before.threads@[i].id != before.threads@[j].id);
        }
    }
}

impl PreviewApp {
    /// The pane after its conversations changed: the list is to be told, the
    /// store is to be written, and the cards are laid out anew. Nothing else
    /// changes.
    pub open spec fn changed_to(self, after: PreviewApp) -> bool {
        &&& after == (PreviewApp {
            store: after.store,
            view: after.view,
            notes_rev: (self.notes_rev + 1) as u64,
            save_request: true,
            ..self
        })
        &&& after.view.model() == after.rebuilt(self.view.model())
    }

    pub(crate) fn threads_changed(&mut self)
        requires
            old(self).wf(),
            old(self).notes_rev < u64::MAX,
        ensures
            final(self).wf(),
            final(self).store == old(self).store,
            old(self).changed_to(*final(self)),
    {
        self.notes_rev = self.notes_rev + 1;
        self.save_request = true;
        self.rebuild();
    }

    /// Lay the cards out and tell the list again, though no conversation
    /// changed.
    pub fn redraw_threads(&mut self)
        requires
            old(self).wf(),
            old(self).notes_rev < u64::MAX,
        ensures
            final(self).wf(),
            final(self).store == old(self).store,
            old(self).changed_to(*final(self)),
    {
        self.threads_changed();
    }

    /// The store could not be written.
    pub fn save_failed(&mut self, err: &str)
        ensures
            *final(self) == (PreviewApp { flash: final(self).flash, ..*old(self) }),
            final(self).flash matches Some(f) && f.0@ == "could not save threads: "@ + err@ && f.1
                == old(self).now,
    {
        let msg: String = crate::text::concat2("could not save threads: ", err);
        self.flash(msg.as_str());
    }

    /// Some turns of a conversation were delivered. Exactly those are marked:
    /// others may have come since they were asked about.
    pub fn mark_turns_sent(&mut self, id: u64, turns: &[usize], agent: AgentRef)
        requires
            old(self).wf(),
            old(self).notes_rev < u64::MAX,
        ensures
            final(self).wf(),
            ({
                let k = at_id(old(self).store.threads@, id);
                if k < 0 {
                    *final(self) == *old(self)
                } else {
                    &&& one_changed(old(self).store, final(self).store, k)
                    &&& exists|updated: i64|
                        old(self).store.threads@[k].sent_to(
                            final(self).store.threads@[k],
                            turns@,
                            agent,
                            updated,
                        )
                    &&& old(self).changed_to(*final(self))
                }
            }),
    {
        let ghost before = self.store;
        let ghost k = at_id(before.threads@, id);
        match self.store.get_mut(id) {
            None => {
                return;
            },
            Some(t) => {
                t.mark_delivered(turns, agent);
            },
        }
        proof {
            assert(before.threads@[k].turns@.len() > 0);
            lemma_one_changed_wf(before, self.store, k);
        }
        let ghost mid = *self;
        self.threads_changed();
        proof {
            let updated = choose|u: i64|
                before.threads@[k].sent_to(mid.store.threads@[k], turns@, agent, u);
            assert(before.threads@[k].sent_to(self.store.threads@[k], turns@, agent, updated));
            assert(mid == (PreviewApp { store: mid.store, ..*old(self) }));
            assert(old(self).changed_to(*self));
        }
    }

    /// Delivery failed, or its answer was lost. It is written into the
    /// conversation, where it does not fade.
    pub fn mark_thread_failed(&mut self, id: u64, turns: &[usize], err: &str, still_pending: bool)
        requires
            old(self).wf(),
            old(self).notes_rev < u64::MAX,
        ensures
            final(self).wf(),
            ({
                let k = at_id(old(self).store.threads@, id);
                if k < 0 {
                    *final(self) == *old(self)
                } else {
                    &&& one_changed(old(self).store, final(self).store, k)
                    &&& old(self).store.threads@[k].failed_to(
                        final(self).store.threads@[k],
                        turns@,
                        err@,
                        still_pending,
                    )
                    &&& old(self).changed_to(*final(self))
                }
            }),
    {
        let ghost before = self.store;
        let ghost k = at_id(before.threads@, id);
        match self.store.get_mut(id) {
            None => {
                return;
            },
            Some(t) => {
                t.mark_failed(turns, err, still_pending);
            },
        }
        proof {
            lemma_one_changed_wf(before, self.store, k);
        }
        self.threads_changed();
    }

    fn append_turn(&mut self, id: u64, author: Author, text: String)
        requires
            old(self).wf(),
            old(self).notes_rev < u64::MAX,
        ensures
            final(self).wf(),
            ({
                let k = at_id(old(self).store.threads@, id);
                if k < 0 {
                    *final(self) == *old(self)
                } else {
                    &&& one_changed(old(self).store, final(self).store, k)
                    &&& exists|at: i64, updated: i64|
                        old(self).store.threads@[k].grown_to(
                            final(self).store.threads@[k],
                            author,
                            text,
                            at,
                            updated,
                        )
                    &&& old(self).changed_to(*final(self))
                }
            }),
    {
        let ghost before = self.store;
        let ghost k = at_id(before.threads@, id);
        match self.store.get_mut(id) {
            None => {
                return;
            },
            Some(t) => {
                t.push(author, text);
            },
        }
        proof {
            lemma_one_changed_wf(before, self.store, k);
        }
        self.threads_changed();
    }

    /// An agent answered.
    pub fn append_reply(&mut self, id: u64, text: String)
        requires
            old(self).wf(),
            old(self).notes_rev < u64::MAX,
        ensures
            final(self).wf(),
            ({
                let k = at_id(old(self).store.threads@, id);
                if k < 0 {
                    *final(self) == *old(self)
                } else {
                    &&& one_changed(old(self).store, final(self).store, k)
                    &&& exists|at: i64, updated: i64|
                        old(self).store.threads@[k].grown_to(
                            final(self).store.threads@[k],
                            Author::Agent,
                            text,
                            at,
                            updated,
                        )
                    &&& old(self).changed_to(*final(self))
                }
            }),
    {
        self.append_turn(id, Author::Agent, text);
    }

    /// The user asked on.
    pub fn append_human_turn(&mut self, id: u64, text: String)
        requires
            old(self).wf(),
            old(self).notes_rev < u64::MAX,
        ensures
            final(self).wf(),
            ({
                let k = at_id(old(self).store.threads@, id);
                if k < 0 {
                    *final(self) == *old(self)
                } else {
                    &&& one_changed(old(self).store, final(self).store, k)
                    &&& exists|at: i64, updated: i64|
                        old(self).store.threads@[k].grown_to(
                            final(self).store.threads@[k],
                            Author::Human,
                            text,
                            at,
                            updated,
                        )
                    &&& old(self).changed_to(*final(self))
                }
            }),
    {
        self.append_turn(id, Author::Human, text);
    }

    pub fn delete_note(&mut self, id: u64)
        requires
            old(self).wf(),
            old(self).notes_rev < u64::MAX,
        ensures
            final(self).wf(),
            if at_id(old(self).store.threads@, id) < 0 {
                &&& final(self).store.threads@ == old(self).store.threads@
                &&& *final(self) == (PreviewApp { store: final(self).store, ..*old(self) })
            } else {
                &&& final(self).store.threads@ == without_id(old(self).store.threads@, id)
                &&& old(self).changed_to(*final(self))
            },
            final(self).store.next_id == old(self).store.next_id,
            final(self).store.same_frame(old(self).store),
            at_id(final(self).store.threads@, id) == -1,
    {
        proof {
            if at_id(self.store.threads@, id) < 0 {
                lemma_without_absent(self.store.threads@, id);
            }
        }
        if self.store.remove(id) {
            self.threads_changed();
        }
    }
}

proof fn lemma_without_absent(threads: Seq<Thread>, id: u64)
    requires
        at_id(threads, id) < 0,
    ensures
        without_id(threads, id) == threads,
    decreases threads.len(),
{
    crate::thread::lemma_at_id(threads, id);
    if threads.len() > 0 {
        let init = threads.drop_last();
        crate::thread::lemma_at_id(init, id);
        assert(at_id(init, id) < 0) by {
            if at_id(init, id) >= 0 {
                let k = at_id(init, id);
                assert(threads[k].id == id);
            }
        }
        lemma_without_absent(init, id);
        assert(threads[threads.len() - 1].id != id);
        assert(init.push(threads.last()) =~= threads);
    }
}

// ---- laws ------------------------------------------------------------------------------

/// A delivery retires the turns that were asked about and no others.
pub proof fn law_only_asked_turns_are_retired(before: Thread, after: Thread, at: Seq<usize>, agent: AgentRef, updated: i64, i: int)
    requires
        before.sent_to(after, at, agent, updated),
        0 <= i < before.turns@.len() <= usize::MAX,
    ensures
        after.turns@.len() == before.turns@.len(),
        at.contains(i as usize) ==> after.turns@[i].sent,
        !at.contains(i as usize) ==> after.turns@[i] == before.turns@[i],
        after.turns@[i].text == before.turns@[i].text,
{
}

/// Where the question cannot have reached the agent, its turns are pending again
/// and no other turn changes.
pub proof fn law_refused_turns_are_pending_again(before: Thread, after: Thread, at: Seq<usize>, err: Seq<char>, i: int)
    requires
        before.failed_to(after, at, err, true),
        0 <= i < before.turns@.len() <= usize::MAX,
    ensures
        !at.contains(i as usize) ==> after.turns@[i] == before.turns@[i],
        at.contains(i as usize) && before.turns@[i].author == Author::Human && before.state
            != ThreadState::Resolved ==> after.wants_sending() && after.state == ThreadState::Draft,
{
    let said = choose|said: Turn|
        {
            &&& #[trigger] marked(before.turns@.push(said), at, false).len() == before.turns@.push(said).len()
            &&& after.turns@ == marked(before.turns@.push(said), at, false)
            &&& after.state == if before.state == ThreadState::Resolved {
                ThreadState::Resolved
            } else if any_pending(marked(before.turns@.push(said), at, false)) {
                ThreadState::Draft
            } else {
                before.state
            }
        };
    if at.contains(i as usize) && before.turns@[i].author == Author::Human {
        assert(crate::thread::pending(after.turns@[i]));
    }
}

/// A failure is written into the conversation, behind all that was said.
pub proof fn law_failure_is_on_record(before: Thread, after: Thread, at: Seq<usize>, err: Seq<char>, still_pending: bool)
    requires
        before.failed_to(after, at, err, still_pending),
    ensures
        after.turns@.len() == before.turns@.len() + 1,
        after.turns@.last().author == Author::System,
        after.turns@.last().text@ == err,
        !still_pending && before.state != ThreadState::Resolved ==> after.state == ThreadState::Failed,
{
}

/// A conversation that the user closed stays closed, whatever is said in it,
/// delivered from it or fails, and is never sent again.
pub proof fn law_closed_stays_closed(before: Thread, after: Thread)
    requires
        before.state == ThreadState::Resolved,
        ({
            ||| exists|author: Author, text: String, at: i64, updated: i64|
                before.grown_to(after, author, text, at, updated)
            ||| exists|agent: AgentRef, updated: i64| before.delivered_to(after, agent, updated)
            ||| exists|at: Seq<usize>, agent: AgentRef, updated: i64|
                before.sent_to(after, at, agent, updated)
            ||| exists|at: Seq<usize>, err: Seq<char>, still_pending: bool|
                before.failed_to(after, at, err, still_pending)
            ||| exists|turn: usize, text: String|
                crate::compose::rewritten(before, after, turn, text)
        }),
    ensures
        after.state == ThreadState::Resolved,
        !after.wants_sending(),
{
}

} // verus!
