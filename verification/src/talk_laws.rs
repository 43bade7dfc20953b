//! What a conversation with an agent keeps to.

use vstd::prelude::*;

use crate::agentio::{
    advanced, after_echo, begin_turn, classify, describes, latest, reply_lines, AgentInfo,
    AgentStatus, Handle, PromptError,
};
use crate::ipc::NoteMeta;
use crate::json::JsonV;
use crate::notes::{greatest_no, least_no, note_range, snippet};
use crate::reply::{
    agent_ref, fence, fenced, next_stage, place, prompt_text, questions, retry_after, says, Event,
    ReplyMsg, ReplyReq, Retry, Stage,
};
use crate::rows::{LineKind, RowV};
use crate::splice::to_base;
use crate::text::{decimal, is_blank, lines, occurs, occurs_at, trim_end, trim_start};
use crate::text_laws::law_joining_keeps_the_parts;
use crate::thread::{
    at_id, first_of_each, lemma_at_id, newest_human, newest_pending, pending_at, preview_text,
    raised_id, spoken, AgentRef, Anchor, Author, Thread, ThreadState, Turn,
};

verus! {

// ---- turns ----------------------------------------------------------------------------

/// What is asked is what the user wrote and nothing has carried yet, every such
/// turn once, in order.
pub proof fn law_what_is_unsent_is_asked(turns: Seq<Turn>, i: int)
    ensures
        pending_at(turns).contains(i) <==> 0 <= i < turns.len() && turns[i].author == Author::Human
            && !turns[i].sent,
        forall|a: int, b: int|
            0 <= a < b < pending_at(turns).len() ==> pending_at(turns)[a] < pending_at(turns)[b],
        forall|a: int| 0 <= a < pending_at(turns).len() ==> 0 <= #[trigger] pending_at(turns)[a] < turns.len(),
    decreases turns.len(),
{
    if turns.len() > 0 {
        let init = turns.drop_last();
        law_what_is_unsent_is_asked(init, i);
        let (p, q) = (pending_at(init), pending_at(turns));
        assert(turns[turns.len() - 1] == turns.last());
        if p.contains(i) {
            let k = p.index_of(i);
            assert(q[k] == i);
        }
        if q.contains(i) {
            let k = q.index_of(i);
            if k < p.len() {
                assert(p[k] == i);
            }
        }
        if turns.last().author == Author::Human && !turns.last().sent {
            assert(q[p.len() as int] == turns.len() - 1);
        }
        assert(0 <= i < init.len() ==> init[i] == turns[i]);
    }
}

/// The turn that may be rewritten is the user's newest that is unsent.
pub proof fn law_the_newest_unsent_turn_is_rewritten(turns: Seq<Turn>)
    ensures
        ({
            let k = newest_pending(turns);
            &&& -1 <= k < turns.len()
            &&& k >= 0 ==> turns[k].author == Author::Human && !turns[k].sent
            &&& forall|i: int|
                k < i < turns.len() ==> (#[trigger] turns[i]).author != Author::Human || turns[i].sent
        }),
    decreases turns.len(),
{
    if turns.len() > 0 {
        let init = turns.drop_last();
        law_the_newest_unsent_turn_is_rewritten(init);
        let k = newest_pending(turns);
        assert forall|i: int| k < i < turns.len() implies (#[trigger] turns[i]).author != Author::Human
            || turns[i].sent by {
            if i < init.len() {
                assert(init[i] == turns[i]);
            }
        }
    }
}

/// A conversation is previewed by the user's own newest words, not by the agent's.
pub proof fn law_the_users_newest_words_are_previewed(turns: Seq<Turn>, k: int)
    requires
        0 <= k < turns.len(),
        turns[k].author == Author::Human,
        forall|i: int| k < i < turns.len() ==> (#[trigger] turns[i]).author != Author::Human,
    ensures
        preview_text(turns) == turns[k].text@,
        newest_human(turns) == k,
    decreases turns.len(),
{
    if k < turns.len() - 1 {
        let init = turns.drop_last();
        assert(turns[turns.len() - 1].author != Author::Human);
        assert forall|i: int| k < i < init.len() implies (#[trigger] init[i]).author != Author::Human by {
            assert(init[i] == turns[i]);
        }
        law_the_users_newest_words_are_previewed(init, k);
    }
}

/// The list is told of a conversation where it hangs, on which side, how it stands,
/// how long it is, and what was said in it last, by whom.
pub proof fn law_the_list_hears_how_a_thread_stands(t: Thread, r: NoteMeta)
    requires
        t.told_as(r),
        0 < t.turns@.len() <= u32::MAX,
    ensures
        r.id == t.id,
        r.file@ == t.anchor.file@,
        r.start == t.anchor.start && r.end == t.anchor.end,
        r.cached == t.anchor.cached,
        r.state == t.state,
        r.turns == t.turns@.len(),
        r.text@ == t.turns@[t.turns@.len() - 1].text@,
        r.last_author == t.turns@[t.turns@.len() - 1].author,
{
}

/// Every state has a badge of its own.
pub proof fn law_badges_tell_states_apart(a: ThreadState, b: ThreadState)
    requires
        a.word() == b.word(),
    ensures
        a == b,
{
    reveal_strlit("draft");
    reveal_strlit("sent…");
    reveal_strlit("replied");
    reveal_strlit("failed");
    reveal_strlit("done");
    let (d, s, r, f, o) = ("draft"@, "sent…"@, "replied"@, "failed"@, "done"@);
    assert(d[0] == 'd' && s[0] == 's' && r[0] == 'r' && f[0] == 'f' && o[0] == 'd');
    assert(d.len() == 5 && o.len() == 4);
}

/// What is said moves a conversation on: the agent's words answer it, the user's
/// put it back among the drafts, unless the user has closed it, and a report on a
/// delivery leaves it as it is. What was said before stays as it was.
pub proof fn law_words_move_a_thread_on(before: Thread, after: Thread, author: Author, text: String, at: i64, updated: i64)
    requires
        before.grown_to(after, author, text, at, updated),
    ensures
        after.turns@.len() == before.turns@.len() + 1,
        after.turns@.drop_last() == before.turns@,
        after.turns@.last().text == text && after.turns@.last().author == author && after.turns@.last().at
            == at && !after.turns@.last().sent,
        before.state == ThreadState::Resolved ==> after.state == ThreadState::Resolved,
        before.state != ThreadState::Resolved && author == Author::Agent ==> after.state
            == ThreadState::Answered,
        before.state != ThreadState::Resolved && author == Author::Human ==> after.state
            == ThreadState::Draft,
        author == Author::System ==> after.state == before.state,
        after.id == before.id && after.anchor == before.anchor && after.agent == before.agent,
        after.updated_at == updated && after.created_at == before.created_at,
{
    assert(after.turns@.drop_last() =~= before.turns@);
}

/// A delivery marks the turns that were asked, remembers the agent, and puts the
/// ball in its court; an answer that has come already, and a conversation that was
/// closed, stay as they are.
pub proof fn law_a_delivery_waits_for_the_agent(before: Thread, after: Thread, at: Seq<usize>, agent: AgentRef, updated: i64)
    requires
        before.sent_to(after, at, agent, updated),
    ensures
        after.agent == Some(agent),
        before.state == ThreadState::Draft || before.state == ThreadState::Sent || before.state
            == ThreadState::Failed ==> after.state == ThreadState::Sent,
        before.state == ThreadState::Answered || before.state == ThreadState::Resolved ==> after.state
            == before.state,
        after.id == before.id && after.anchor == before.anchor && after.created_at == before.created_at,
        forall|i: int|
            0 <= i < before.turns@.len() ==> (#[trigger] after.turns@[i]).author == before.turns@[i].author
                && after.turns@[i].text == before.turns@[i].text && after.turns@[i].at
                == before.turns@[i].at,
{
}

// ---- the store ------------------------------------------------------------------------

/// From disk come the conversations in which something was said, of two with the
/// same id the first, in their order; and the next id is above all of theirs.
pub proof fn law_what_comes_from_disk(threads: Seq<Thread>, i: int, next_id: u64)
    requires
        0 <= i < threads.len(),
        threads[i].turns@.len() > 0,
    ensures
        ({
            let kept = first_of_each(spoken(threads));
            &&& exists|k: int| 0 <= k < kept.len() && (#[trigger] kept[k]).id == threads[i].id
            &&& (forall|j: int|
                0 <= j < i ==> (#[trigger] threads[j]).id != threads[i].id || threads[j].turns@.len()
                    == 0) ==> kept.contains(threads[i])
            &&& raised_id(next_id, kept) > threads[i].id
            &&& raised_id(next_id, kept) >= next_id
        }),
{
    let said = spoken(threads);
    let kept = first_of_each(said);
    lemma_spoken_has(threads, i);
    let k = choose|k: int|
        0 <= k < said.len() && #[trigger] said[k] == threads[i] && forall|j: int|
            0 <= j < k ==> exists|m: int| 0 <= m < i && threads[m] == #[trigger] said[j] && said[j].turns@.len() > 0;
    lemma_first_has(said, k);
    let n = choose|n: int| 0 <= n < kept.len() && (#[trigger] kept[n]).id == said[k].id;
    lemma_above(kept, n);
    if forall|j: int|
        0 <= j < i ==> (#[trigger] threads[j]).id != threads[i].id || threads[j].turns@.len() == 0 {
        assert forall|j: int| 0 <= j < k implies (#[trigger] said[j]).id != said[k].id by {
            let m = choose|m: int| 0 <= m < i && threads[m] == said[j] && said[j].turns@.len() > 0;
            assert(threads[m].id != threads[i].id);
        }
        lemma_first_is(said, k);
    }
}

proof fn lemma_spoken_has(threads: Seq<Thread>, i: int)
    requires
        0 <= i < threads.len(),
        threads[i].turns@.len() > 0,
    ensures
        exists|k: int|
            0 <= k < spoken(threads).len() && #[trigger] spoken(threads)[k] == threads[i] && forall|j: int|
                0 <= j < k ==> exists|m: int|
                    0 <= m < i && threads[m] == #[trigger] spoken(threads)[j] && spoken(
                        threads,
                    )[j].turns@.len() > 0,
    decreases threads.len(),
{
    let init = threads.drop_last();
    let s = spoken(threads);
    if i < init.len() {
        assert(init[i] == threads[i]);
        lemma_spoken_has(init, i);
        let t = spoken(init);
        let k = choose|k: int|
            0 <= k < t.len() && #[trigger] t[k] == init[i] && forall|j: int|
                0 <= j < k ==> exists|m: int| 0 <= m < i && init[m] == #[trigger] t[j] && t[j].turns@.len() > 0;
        assert(s[k] == t[k]);
        assert forall|j: int| 0 <= j < k implies exists|m: int|
            0 <= m < i && threads[m] == #[trigger] s[j] && s[j].turns@.len() > 0 by {
            assert(s[j] == t[j]);
            let m = choose|m: int| 0 <= m < i && init[m] == t[j] && t[j].turns@.len() > 0;
            assert(threads[m] == s[j]);
        }
    } else {
        let k = spoken(init).len() as int;
        assert(s[k] == threads[i]);
        assert forall|j: int| 0 <= j < k implies exists|m: int|
            0 <= m < i && threads[m] == #[trigger] s[j] && s[j].turns@.len() > 0 by {
            assert(s[j] == spoken(init)[j]);
            lemma_spoken_from(init, j);
            let m = choose|m: int|
                0 <= m < init.len() && init[m] == spoken(init)[j] && init[m].turns@.len() > 0;
            assert(threads[m] == s[j]);
        }
    }
}

proof fn lemma_spoken_from(threads: Seq<Thread>, j: int)
    requires
        0 <= j < spoken(threads).len(),
    ensures
        exists|m: int|
            0 <= m < threads.len() && threads[m] == spoken(threads)[j] && (#[trigger] threads[m]).turns@.len() > 0,
    decreases threads.len(),
{
    let init = threads.drop_last();
    if j < spoken(init).len() {
        lemma_spoken_from(init, j);
        let m = choose|m: int|
            0 <= m < init.len() && init[m] == spoken(init)[j] && (#[trigger] init[m]).turns@.len() > 0;
        assert(threads[m] == init[m]);
    } else {
        assert(threads[threads.len() - 1].turns@.len() > 0);
    }
}

proof fn lemma_first_has(threads: Seq<Thread>, k: int)
    requires
        0 <= k < threads.len(),
    ensures
        exists|n: int|
            0 <= n < first_of_each(threads).len() && (#[trigger] first_of_each(threads)[n]).id
                == threads[k].id,
    decreases threads.len(),
{
    let init = threads.drop_last();
    let (f, g) = (first_of_each(init), first_of_each(threads));
    if k < init.len() {
        lemma_first_has(init, k);
        assert(init[k] == threads[k]);
        let n = choose|n: int| 0 <= n < f.len() && (#[trigger] f[n]).id == init[k].id;
        assert(g[n] == f[n]);
    } else {
        lemma_at_id(f, threads.last().id);
        let n = at_id(f, threads.last().id);
        if n >= 0 {
            assert(g[n].id == threads[k].id);
        } else {
            assert(g[f.len() as int] == threads[k]);
        }
    }
}

proof fn lemma_first_from(threads: Seq<Thread>, n: int)
    requires
        0 <= n < first_of_each(threads).len(),
    ensures
        exists|k: int| 0 <= k < threads.len() && #[trigger] threads[k] == first_of_each(threads)[n],
    decreases threads.len(),
{
    let init = threads.drop_last();
    let f = first_of_each(init);
    if n < f.len() {
        lemma_first_from(init, n);
        let k = choose|k: int| 0 <= k < init.len() && #[trigger] init[k] == f[n];
        assert(threads[k] == init[k]);
    } else {
        assert(threads[threads.len() - 1] == threads.last());
    }
}

proof fn lemma_first_is(threads: Seq<Thread>, k: int)
    requires
        0 <= k < threads.len(),
        forall|j: int| 0 <= j < k ==> (#[trigger] threads[j]).id != threads[k].id,
    ensures
        first_of_each(threads).contains(threads[k]),
    decreases threads.len(),
{
    let init = threads.drop_last();
    let (f, g) = (first_of_each(init), first_of_each(threads));
    if k < init.len() {
        assert forall|j: int| 0 <= j < k implies (#[trigger] init[j]).id != init[k].id by {
            assert(init[j] == threads[j]);
        }
        lemma_first_is(init, k);
        let n = f.index_of(init[k]);
        assert(g[n] == f[n]);
    } else {
        lemma_at_id(f, threads.last().id);
        let n = at_id(f, threads.last().id);
        if n >= 0 {
            lemma_first_from(init, n);
            let m = choose|m: int| 0 <= m < init.len() && #[trigger] init[m] == f[n];
            assert(threads[m].id != threads[k].id);
        }
        assert(g[f.len() as int] == threads[k]);
    }
}

proof fn lemma_above(threads: Seq<Thread>, n: int)
    requires
        0 <= n < threads.len(),
    ensures
        crate::thread::above_ids(threads) > threads[n].id,
    decreases threads.len(),
{
    if n < threads.len() - 1 {
        lemma_above(threads.drop_last(), n);
    }
}

// ---- the question ---------------------------------------------------------------------

/// The question names the place by its path in the checkout and by its lines, first
/// and last; a note on a whole file names no lines.
pub proof fn law_the_question_names_its_place(root: Seq<char>, a: Anchor)
    requires
        root.len() > 0,
        root.last() != '/',
        a.file@.len() > 0,
        a.file@[0] != '/',
    ensures
        a.end == 0 ==> place(root, a) == root.push('/') + a.file@,
        a.end > 0 ==> place(root, a) == root.push('/') + a.file@ + seq![':'] + decimal(
            a.start as nat,
        ) + seq!['-'] + decimal(a.end as nat),
{
    reveal_strlit(":");
    reveal_strlit("-");
    assert(":"@ =~= seq![':']);
    assert("-"@ =~= seq!['-']);
    assert(a.file@.subrange(0, 1)[0] != seq!['/'][0]);
}

proof fn lemma_occurs_in(a: Seq<char>, b: Seq<char>, c: Seq<char>, t: Seq<char>)
    requires
        occurs(b, t),
    ensures
        occurs(a + b + c, t),
{
    let k = choose|k: int| occurs_at(b, t, k);
    let s = a + b + c;
    assert(s.subrange(a.len() + k, a.len() + k + t.len()) =~= b.subrange(k, k + t.len()));
    assert(occurs_at(s, t, a.len() + k));
}

proof fn lemma_occurs_self(t: Seq<char>)
    ensures
        occurs(t, t),
{
    assert(t.subrange(0, t.len() as int) =~= t);
    assert(occurs_at(t, t, 0));
}

proof fn lemma_question_has(at: Seq<char>, turns: Seq<Turn>, i: int, k: int)
    requires
        0 <= i < turns.len(),
        turns[i].author == Author::Human,
        !turns[i].sent,
        0 <= k < lines(turns[i].text@).len(),
    ensures
        occurs(questions(at, turns), lines(turns[i].text@)[k]),
        occurs(questions(at, turns), at),
    decreases turns.len(),
{
    let init = turns.drop_last();
    let q = questions(at, init);
    let empty = Seq::<char>::empty();
    if i < init.len() {
        assert(init[i] == turns[i]);
        lemma_question_has(at, init, i, k);
        let t = lines(turns[i].text@)[k];
        if crate::thread::pending(turns.last()) {
            let tail = at + " — "@ + crate::reply::indented(turns.last().text@) + "\n"@;
            lemma_occurs_in(empty, q, tail, t);
            lemma_occurs_in(empty, q, tail, at);
            assert(empty + q + tail =~= questions(at, turns));
        }
    } else {
        let body = crate::reply::indented(turns[i].text@);
        let t = lines(turns[i].text@)[k];
        law_joining_keeps_the_parts(lines(turns[i].text@), "\n  "@, k);
        lemma_occurs_in(q + at + " — "@, body, "\n"@, t);
        lemma_occurs_self(at);
        let tail = " — "@ + body + "\n"@;
        lemma_occurs_in(q, at, tail, at);
        assert(q + at + tail =~= questions(at, turns));
    }
}

/// A question puts every line of every unsent turn to the agent, with the place it
/// is about, and the whole snippet.
pub proof fn law_a_question_says_it_all(root: Seq<char>, t: Thread, i: int, k: int)
    requires
        0 <= i < t.turns@.len(),
        t.turns@[i].author == Author::Human,
        !t.turns@[i].sent,
        0 <= k < lines(t.turns@[i].text@).len(),
    ensures
        occurs(prompt_text(root, t), lines(t.turns@[i].text@)[k]),
        occurs(prompt_text(root, t), place(root, t.anchor)),
        occurs(prompt_text(root, t), t.anchor.snippet@),
{
    let at = place(root, t.anchor);
    let q = questions(at, t.turns@);
    let s = t.anchor.snippet@;
    let tail = if s.len() == 0 {
        Seq::empty()
    } else {
        fenced(s)
    };
    let empty = Seq::<char>::empty();
    lemma_question_has(at, t.turns@, i, k);
    lemma_occurs_in(empty, q, tail, lines(t.turns@[i].text@)[k]);
    lemma_occurs_in(empty, q, tail, at);
    assert(empty + q + tail =~= prompt_text(root, t));
    if s.len() == 0 {
        assert(prompt_text(root, t).subrange(0, 0) =~= s);
        assert(occurs_at(prompt_text(root, t), s, 0));
    } else {
        lemma_snippet_in(s);
        lemma_occurs_in(q, tail, empty, s);
        assert(q + tail + empty =~= prompt_text(root, t));
    }
}

proof fn lemma_snippet_in(s: Seq<char>)
    requires
        s.len() > 0,
    ensures
        occurs(fenced(s), s),
{
    if crate::text::has_suffix(s, "\n"@) {
        lemma_between(fence(s), "diff\n"@, s, Seq::empty(), "\n"@);
        assert(s + Seq::<char>::empty() =~= s);
    } else {
        lemma_between(fence(s), "diff\n"@, s, seq!['\n'], "\n"@);
        assert(s + seq!['\n'] =~= s.push('\n'));
    }
}

proof fn lemma_between(f: Seq<char>, a: Seq<char>, s: Seq<char>, b: Seq<char>, c: Seq<char>)
    ensures
        occurs(f + a + (s + b) + f + c, s),
{
    let all = f + a + (s + b) + f + c;
    let k = (f.len() + a.len()) as int;
    assert(all.subrange(k, k + s.len()) =~= s);
    assert(occurs_at(all, s, k));
}

// ---- the agent ------------------------------------------------------------------------

/// An agent is asked only while it rests, idle or done; one that is blocked or
/// busy, or in a state that is not known, is not.
pub proof fn law_only_a_resting_agent_is_asked(info: AgentInfo, pane: &str, prompt: &str, transcript: Option<String>, offset: u64, r: Result<Handle, PromptError>)
    requires
        call_ensures(begin_turn, (Ok(info), pane, prompt, transcript, offset), r),
    ensures
        r is Ok <==> info.status == AgentStatus::Idle || info.status == AgentStatus::Done,
        r matches Ok(h) ==> h.pane@ == pane@ && h.prompt@ == prompt@ && h.seq0 == info.state_change_seq
            && h.transcript == transcript && (transcript is Some ==> h.offset == offset),
        info.status == AgentStatus::Blocked ==> r == Err::<Handle, PromptError>(PromptError::Blocked),
        info.status == AgentStatus::Working || info.status == AgentStatus::Unknown ==> r == Err::<
            Handle,
            PromptError,
        >(PromptError::Busy(info.status)),
{
}

/// A turn is over once the agent has moved on from where it stood and rests again.
pub proof fn law_a_turn_is_over_when_the_agent_rests_anew(h: Handle, after: AgentInfo)
    ensures
        advanced(h, after) <==> after.state_change_seq > h.seq0 && (after.status == AgentStatus::Idle
            || after.status == AgentStatus::Done),
{
}

/// A word for a status is read as the status that it is the word of; any other is
/// one that is not known.
pub proof fn law_a_status_is_read_by_its_word(s: Seq<char>)
    ensures
        AgentStatus::of_word("idle"@) == AgentStatus::Idle,
        AgentStatus::of_word("working"@) == AgentStatus::Working,
        AgentStatus::of_word("blocked"@) == AgentStatus::Blocked,
        AgentStatus::of_word("done"@) == AgentStatus::Done,
        AgentStatus::of_word(s) != AgentStatus::Unknown ==> AgentStatus::of_word(s).word() == s,
        s != "idle"@ && s != "working"@ && s != "blocked"@ && s != "done"@ ==> AgentStatus::of_word(s)
            == AgentStatus::Unknown,
{
    reveal_strlit("idle");
    reveal_strlit("working");
    reveal_strlit("blocked");
    reveal_strlit("done");
    assert("idle"@[0] == 'i' && "working"@[0] == 'w' && "blocked"@[0] == 'b' && "done"@[0] == 'd');
}

/// What the host says of an agent is taken member by member; a record without a
/// session names none.
pub proof fn law_an_agent_is_read_member_by_member(v: JsonV, info: AgentInfo, pane: Seq<char>, agent: Seq<char>, status: Seq<char>, n: u64)
    requires
        describes(v, info),
    ensures
        v.text_at("pane_id"@) == Some(pane) ==> info.pane@ == pane,
        v.text_at("agent"@) == Some(agent) ==> info.agent@ == agent,
        v.text_at("agent_status"@) == Some(status) ==> info.status == AgentStatus::of_word(status),
        v.text_at("agent_status"@) is None ==> !info.status.resting(),
        v.get("state_change_seq"@) == Some(JsonV::Num(Some(n))) ==> info.state_change_seq == n,
        v.get("agent_session"@) is None ==> info.session is None,
        v.get("agent_session"@) matches Some(s) ==> ((s.text_at("agent"@) is Some && s.text_at("kind"@) is Some
            && s.text_at("value"@) is Some) ==> info.session is Some && s.text_at("agent"@) == Some(
            info.session->0.agent@,
        ) && s.text_at("kind"@) == Some(info.session->0.kind@) && s.text_at("value"@) == Some(
            info.session->0.value@,
        )),
{
    reveal_strlit("idle");
    reveal_strlit("working");
    reveal_strlit("blocked");
    reveal_strlit("done");
    assert("idle"@.len() > 0 && "done"@.len() > 0);
}

/// A question that was refused before anything was sent may be asked again; of any
/// other failure it is not known whether the agent has it.
pub proof fn law_only_a_refusal_may_be_asked_again(e: PromptError)
    ensures
        retry_after(e) == Retry::Pending <==> e is Blocked || e is Busy,
{
}

/// An error is told apart by the word it starts with, and kept whole where that is
/// none that is known.
pub proof fn law_errors_are_told_by_their_first_word(e: String, r: PromptError, rest: Seq<char>)
    requires
        call_ensures(classify, (e,), r),
    ensures
        e@ == "agent_blocked"@ + rest ==> r is Blocked,
        e@ == "agent_prompt_stalled"@ + rest ==> r is Stalled,
        e@ == "timeout"@ + rest ==> r is Timeout,
        !(r is Busy),
        r matches PromptError::Cli(m) ==> m@ == e@,
{
    reveal_strlit("agent_blocked");
    reveal_strlit("agent_prompt_stalled");
    reveal_strlit("timeout");
    let (b, s, t) = ("agent_blocked"@, "agent_prompt_stalled"@, "timeout"@);
    if e@ == b + rest {
        assert(e@.subrange(0, b.len() as int) =~= b);
    } else if e@ == s + rest {
        assert(e@.subrange(0, s.len() as int) =~= s);
        assert(e@[6] == 'p');
        assert(e@.subrange(0, b.len() as int)[6] == 'p' && b[6] == 'b');
    } else if e@ == t + rest {
        assert(e@.subrange(0, t.len() as int) =~= t);
        assert(e@[0] == 't');
        if e@.len() >= b.len() {
            assert(e@.subrange(0, b.len() as int)[0] == 't' && b[0] == 'a');
        }
        if e@.len() >= s.len() {
            assert(e@.subrange(0, s.len() as int)[0] == 't' && s[0] == 'a');
        }
    }
}

/// The answer is handed on as it was read, from the transcript if that holds one,
/// else from the screen, for the conversation that asked.
pub proof fn law_an_answer_is_handed_on_whole(req: ReplyReq, handle: Handle, text: String, m: Option<ReplyMsg>)
    requires
        !is_blank(text@),
        says(req, Stage::Transcript { handle }, Event::Transcript(Some(text)), m) || says(
            req,
            Stage::Screen { handle },
            Event::Screen(Some(text)),
            m,
        ),
    ensures
        m matches Some(ReplyMsg::Replied { id, text: t }) && id == req.id && t == text,
{
}

/// Where the transcript holds no answer, the screen is read; and where that shows
/// none, it is said so, and not that the question may be asked again.
pub proof fn law_the_screen_stands_in_for_the_transcript(req: ReplyReq, handle: Handle, text: Option<String>, m: Option<ReplyMsg>)
    requires
        text matches Some(t) ==> is_blank(t@),
    ensures
        next_stage(req, Stage::Transcript { handle }, Event::Transcript(text)) == (Stage::Screen {
            handle,
        }),
        says(req, Stage::Screen { handle }, Event::Screen(text), m) ==> (m matches Some(
            ReplyMsg::Failed { id, turns, retry, .. },
        ) && id == req.id && turns@ == req.turns@ && retry == Retry::Unknown),
{
}

/// A request goes step by step: the agent is found, the turn opened, the delivery
/// told, the end waited for, and the answer read.
pub proof fn law_a_request_goes_step_by_step(req: ReplyReq, info: AgentInfo, agent: AgentRef, handle: Handle, after: AgentInfo, m: Option<ReplyMsg>)
    ensures
        next_stage(req, Stage::Resolve, Event::Agent(Ok(info))) == (Stage::Open {
            agent: agent_ref(req, info),
        }),
        next_stage(req, Stage::Open { agent }, Event::Opened(Ok(handle))) == (Stage::Announce {
            handle,
        }),
        next_stage(req, Stage::Announce { handle }, Event::Heard(true)) == (Stage::Wait { handle }),
        next_stage(req, Stage::Announce { handle }, Event::Heard(false)) is Over,
        advanced(handle, after) ==> next_stage(req, Stage::Wait { handle }, Event::Waited(Ok(after)))
            == (Stage::Transcript { handle }),
        !advanced(handle, after) ==> next_stage(
            req,
            Stage::Wait { handle },
            Event::Waited(Ok(after)),
        ) is Over,
        says(req, Stage::Open { agent }, Event::Opened(Ok(handle)), m) ==> (m matches Some(
            ReplyMsg::Delivered { id, turns, agent: a },
        ) && id == req.id && turns@ == req.turns@ && *a == agent),
        agent_ref(req, info).pane == req.pane,
        agent_ref(req, info).agent == info.agent,
        info.session is None ==> agent_ref(req, info).session is None,
        info.session matches Some(s) ==> agent_ref(req, info).session == Some(s.value) && agent_ref(
            req,
            info,
        ).session_kind == Some(s.kind),
{
}

/// Of several transcripts the one that was written to last is read.
pub proof fn law_the_latest_is_picked(times: Seq<u64>, i: int)
    requires
        0 <= i < times.len(),
    ensures
        0 <= latest(times) < times.len(),
        times[latest(times)] >= times[i],
        times[i] == times[latest(times)] ==> latest(times) <= i,
    decreases times.len(),
{
    let init = times.drop_last();
    if init.len() > 0 {
        law_the_latest_is_picked(init, 0);
        if i < init.len() {
            law_the_latest_is_picked(init, i);
        }
    } else {
        assert(latest(init) == -1);
    }
}

// ---- the screen -----------------------------------------------------------------------

/// Of a screen only what stands below the last echo of the question is read.
pub proof fn law_reading_starts_below_the_echo(ls: Seq<Seq<char>>, first: Seq<char>)
    ensures
        ({
            let k = after_echo(ls, first);
            &&& 0 <= k <= ls.len()
            &&& forall|i: int| k <= i < ls.len() ==> !crate::agentio::echoes(#[trigger] ls[i], first)
            &&& k > 0 ==> crate::agentio::echoes(ls[k - 1], first)
        }),
    decreases ls.len(),
{
    if ls.len() > 0 {
        let init = ls.drop_last();
        law_reading_starts_below_the_echo(init, first);
        if !crate::agentio::echoes(ls.last(), first) {
            let k = after_echo(ls, first);
            assert forall|i: int| k <= i < ls.len() implies !crate::agentio::echoes(
                #[trigger] ls[i],
                first,
            ) by {
                if i < init.len() {
                    assert(init[i] == ls[i]);
                }
            }
            if k > 0 {
                assert(init[k - 1] == ls[k - 1]);
            }
        }
    }
}

/// A line of the reply is read as it stands but for whitespace at its end, and for
/// the mark before the first line of an answer; the border of the input box ends
/// the reply, and lines of the display, such as a tool's result, are passed over.
pub proof fn law_screen_lines_are_read_one_by_one(l: Seq<char>, ls: Seq<Seq<char>>)
    requires
        l.len() > 0,
    ensures
        ({
            let t = trim_end(l);
            let lead = trim_start(t);
            let all = reply_lines(seq![l] + ls);
            &&& (lead.len() > 0 && (lead[0] == '\u{2500}' || lead[0] == '\u{256D}')) ==> all.len() == 0
            &&& (lead.len() > 0 && (lead[0] == '\u{23BF}' || lead[0] == '\u{273B}' || lead[0]
                == '\u{25EF}' || lead[0] == '\u{25FB}' || lead[0] == '\u{23F5}' || lead[0]
                == '\u{276F}')) ==> all == reply_lines(ls)
            &&& (lead.len() > 0 && (lead[0] as u32) < 0x80) ==> all == seq![t] + reply_lines(ls)
            &&& lead.len() == 0 ==> all == seq![t] + reply_lines(ls)
            &&& (t.len() > 0 && t[0] == '\u{23FA}') ==> all == seq![trim_start(t.skip(1))]
                + reply_lines(ls)
        }),
{
    let all = seq![l] + ls;
    assert(all[0] == l);
    assert(all.skip(1) =~= ls);
    let t = trim_end(l);
    lemma_lead(t);
}

proof fn lemma_lead(t: Seq<char>)
    ensures
        t.len() > 0 && !crate::text::is_white(t[0]) ==> trim_start(t) == t,
        trim_start(t).len() > 0 && t[0] == '\u{23FA}' ==> trim_start(t) == t,
        t.len() > 0 && t[0] == '\u{23FA}' ==> trim_start(t) == t,
        trim_start(t).len() == 0 ==> t.len() == 0 || crate::text::is_white(t[0]),
{
}

// ---- notes on lines -------------------------------------------------------------------

/// A note is about the lines from the least to the greatest number of the
/// selection.
pub proof fn law_a_note_spans_its_lines(numbers: Seq<u32>, i: int)
    requires
        0 <= i < numbers.len(),
        forall|k: int| 0 <= k < numbers.len() ==> #[trigger] numbers[k] > 0,
    ensures
        note_range(numbers) matches Some(r) && r.0 <= numbers[i] <= r.1 && numbers.contains(r.0)
            && numbers.contains(r.1),
{
    lemma_least(numbers, i);
    lemma_greatest(numbers, i);
}

proof fn lemma_least(s: Seq<u32>, i: int)
    requires
        0 <= i < s.len(),
    ensures
        least_no(s) <= s[i],
        s.contains(least_no(s)),
    decreases s.len(),
{
    if s.len() == 1 {
        assert(s[0] == least_no(s));
    } else {
        let init = s.drop_last();
        if i < init.len() {
            lemma_least(init, i);
        } else {
            lemma_least(init, 0);
        }
        let k = init.index_of(least_no(init));
        assert(s[k] == least_no(init));
        assert(s[s.len() - 1] == s.last());
    }
}

proof fn lemma_greatest(s: Seq<u32>, i: int)
    requires
        0 <= i < s.len(),
    ensures
        greatest_no(s) >= s[i],
        s.contains(greatest_no(s)),
    decreases s.len(),
{
    if s.len() == 1 {
        assert(s[0] == greatest_no(s));
    } else {
        let init = s.drop_last();
        if i < init.len() {
            lemma_greatest(init, i);
        } else {
            lemma_greatest(init, 0);
        }
        let k = init.index_of(greatest_no(init));
        assert(s[k] == greatest_no(init));
        assert(s[s.len() - 1] == s.last());
    }
}

/// A line of the selection adds its number on the new side to the note's, if it is
/// there, and its text with its marker to the snippet: a plus for an inserted line,
/// a minus for a deleted one, a space for one that is unchanged. A fold and a card
/// add nothing.
pub proof fn law_a_selected_line_is_quoted(cards: Seq<usize>, rows: Seq<RowV>, a: int, line: int)
    requires
        a <= line,
    ensures
        to_base(cards, line) is None ==> {
            &&& snippet(cards, rows, a, line + 1) == snippet(cards, rows, a, line)
            &&& crate::notes::new_numbers(cards, rows, a, line + 1) == crate::notes::new_numbers(
                cards,
                rows,
                a,
                line,
            )
        },
        to_base(cards, line) matches Some(k) ==> (0 <= k < rows.len() && rows[k] is Code ==> {
            let l = rows[k]->Code_0;
            let mark = if l.kind == LineKind::Insertion {
                '+'
            } else if l.kind == LineKind::Deletion {
                '-'
            } else {
                ' '
            };
            let before = snippet(cards, rows, a, line);
            &&& lines(before).len() < 40 ==> snippet(cards, rows, a, line + 1) == before + seq![mark]
                + l.text() + seq!['\n']
            &&& lines(before).len() >= 40 ==> snippet(cards, rows, a, line + 1) == before
            &&& crate::notes::new_numbers(cards, rows, a, line + 1) == match l.new_no {
                Some(n) => crate::notes::new_numbers(cards, rows, a, line).push(n),
                None => crate::notes::new_numbers(cards, rows, a, line),
            }
        }),
        to_base(cards, line) matches Some(k) ==> (0 <= k < rows.len() && rows[k] is Fold ==> {
            &&& snippet(cards, rows, a, line + 1) == snippet(cards, rows, a, line)
            &&& crate::notes::new_numbers(cards, rows, a, line + 1) == crate::notes::new_numbers(
                cards,
                rows,
                a,
                line,
            )
        }),
        snippet(cards, rows, a, a).len() == 0,
        crate::notes::new_numbers(cards, rows, a, a).len() == 0,
{
    reveal_strlit("-");
    reveal_strlit("+");
    reveal_strlit(" ");
    assert("-"@ =~= seq!['-']);
    assert("+"@ =~= seq!['+']);
    assert(" "@ =~= seq![' ']);
    if let Some(k) = to_base(cards, line) {
        if 0 <= k < rows.len() && rows[k] is Code {
            let l = rows[k]->Code_0;
            let before = snippet(cards, rows, a, line);
            let text = crate::notes::diff_text(rows[k]);
            assert((before + text).push('\n') =~= before + text + seq!['\n']);
            assert(before + text + seq!['\n'] =~= before + crate::render::marker(l.kind) + l.text() + seq![
                '\n',
            ]);
        }
    }
}

/// Of two conversations with one id only the first is kept: no two that are kept have
/// the same.
pub proof fn law_kept_conversations_have_ids_of_their_own(threads: Seq<Thread>, i: int, j: int)
    requires
        0 <= i < j < first_of_each(threads).len(),
    ensures
        first_of_each(threads)[i].id != first_of_each(threads)[j].id,
    decreases threads.len(),
{
    let init = threads.drop_last();
    let (s, t) = (first_of_each(init), first_of_each(threads));
    if j < s.len() {
        law_kept_conversations_have_ids_of_their_own(init, i, j);
        assert(t[i] == s[i] && t[j] == s[j]);
    } else {
        lemma_absent(s, threads.last().id, i);
        assert(t[i] == s[i]);
    }
}

proof fn lemma_absent(threads: Seq<Thread>, id: u64, i: int)
    requires
        at_id(threads, id) < 0,
        0 <= i < threads.len(),
    ensures
        threads[i].id != id,
    decreases threads.len(),
{
    let init = threads.drop_last();
    if i < init.len() {
        assert(at_id(init, id) < 0);
        lemma_absent(init, id, i);
        assert(init[i] == threads[i]);
    }
}

/// A delivery of all that was said marks the user's turns as sent and leaves those of
/// the agent, and every word, as they are.
pub proof fn law_a_delivery_marks_the_users_turns(before: Thread, after: Thread, agent: AgentRef, updated: i64, i: int)
    requires
        before.delivered_to(after, agent, updated),
        0 <= i < before.turns@.len(),
    ensures
        after.turns@.len() == before.turns@.len(),
        before.turns@[i].author == Author::Human ==> after.turns@[i].sent,
        before.turns@[i].author != Author::Human ==> after.turns@[i] == before.turns@[i],
        after.turns@[i].text == before.turns@[i].text && after.turns@[i].author == before.turns@[i].author,
        after.agent == Some(agent) && after.id == before.id && after.anchor == before.anchor,
        before.state != ThreadState::Resolved ==> after.state == ThreadState::Sent,
{
}

/// A failed attempt leaves the conversation where it is, with its agent and its
/// earlier words.
pub proof fn law_a_failure_keeps_the_conversation(before: Thread, after: Thread, at: Seq<usize>, err: Seq<char>, still_pending: bool, i: int)
    requires
        before.failed_to(after, at, err, still_pending),
        0 <= i < before.turns@.len(),
    ensures
        after.id == before.id && after.anchor == before.anchor && after.agent == before.agent,
        after.turns@[i].text == before.turns@[i].text && after.turns@[i].author == before.turns@[i].author,
        !still_pending ==> after.turns@[i] == before.turns@[i],
{
}

/// A failure is reported with the conversation, the turns that were asked, what went
/// wrong, and whether the turns may be asked again.
pub proof fn law_a_failure_is_reported_in_full(req: ReplyReq, m: Option<ReplyMsg>, err: Seq<char>, retry: crate::reply::Retry)
    requires
        crate::reply::failed(req, m, err, retry),
    ensures
        m matches Some(ReplyMsg::Failed { id, turns, err: e, retry: t }) && id == req.id && turns@
            == req.turns@ && e@ == err && t == retry,
{
}

} // verus!
