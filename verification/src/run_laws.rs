//! What is asked of git and of the agent's tool, and what is made of the answers.

use vstd::prelude::*;

use crate::agentio::{cli_error, prompt_head, session_of, without_blank_tail};
use crate::git::{ChangeKind, EntryV, GitError, StageState};
use crate::git_parse::{headline, Stat};
use crate::git_repo::{
    branches_on, discard_plan, filled_fields, first_remote, flagged, git_result, is_named,
    log_words, named_places, ref_labels, short_name, status_words, untracked_of, Ran,
};
use crate::git_stat::{counted, sum_for, untracked_count, worktree_counted};
use crate::host_laws::follows;
use crate::json::JsonV;
use crate::path::{last_index_of, same_file};
use crate::text::{decimal, has_prefix, index_of_char, is_blank, lemma_index_of_char, trim};
use crate::text_laws::law_a_line_feed_closes_a_line;

verus! {

// ---- runs -----------------------------------------------------------------------------

/// A run that succeeded gives what it printed, byte for byte; one that failed gives
/// the command and what git wrote about it; one that could not be started says why.
pub proof fn law_a_run_gives_its_output_or_its_error(args: Vec<String>, ran: Ran, r: Result<Vec<u8>, GitError>)
    requires
        git_result(args, ran, r),
    ensures
        r is Ok <==> ran is Ok && (ran->Ok_0).ok,
        r matches Ok(b) ==> b == (ran->Ok_0).stdout,
        ran matches Ok(out) ==> (!out.ok ==> (r matches Err(GitError::Failed { args: a, stderr }) && a == args
            && stderr@ == trim(crate::git_parse::lossy_text(out.stderr@)))),
        ran matches Err(e) ==> r == Err::<Vec<u8>, GitError>(GitError::Spawn(e)),
{
}

/// A message is told by its first line, without the blanks around it.
pub proof fn law_a_message_is_told_by_its_first_line(first: Seq<char>, rest: Seq<char>)
    requires
        !first.contains('\n'),
        !first.contains('\r'),
    ensures
        headline(first.push('\n') + rest) == trim(first),
{
    law_a_line_feed_closes_a_line(first, rest);
}

/// A structured error is told by its code and its message, any other by its own
/// words.
pub proof fn law_an_error_is_told_by_code_and_message(stderr: Seq<char>, doc: JsonV, code: Seq<char>, message: Seq<char>)
    ensures
        doc.get2("error"@, "code"@) == Some(JsonV::Str(code)) && doc.get2("error"@, "message"@) == Some(
            JsonV::Str(message),
        ) ==> cli_error(stderr, Some(doc)) == code + seq![':', ' '] + message,
        doc.get2("error"@, "code"@) == Some(JsonV::Str(code)) && doc.get2("error"@, "message"@) is None
            ==> cli_error(stderr, Some(doc)) == code,
        doc.get2("error"@, "code"@) is None ==> cli_error(stderr, Some(doc)) == trim(stderr),
        cli_error(stderr, None) == trim(stderr),
{
    reveal_strlit(": ");
    assert(": "@ =~= seq![':', ' ']);
}

/// An agent's session is known where the host tells all three parts of it.
pub proof fn law_a_session_has_three_parts(v: JsonV, s: JsonV)
    requires
        v.get("agent_session"@) == Some(s),
    ensures
        session_of(v) is Some <==> s.text_at("agent"@) is Some && s.text_at("kind"@) is Some && s.text_at(
            "value"@,
        ) is Some,
        session_of(v) matches Some(p) ==> Some(p.0) == s.text_at("agent"@) && Some(p.1) == s.text_at(
            "kind"@,
        ) && Some(p.2) == s.text_at("value"@),
{
}

// ---- the screen -----------------------------------------------------------------------

/// Blank lines are taken off the end of a reply and from nowhere else.
pub proof fn law_blank_lines_are_taken_off_the_end(ls: Seq<Seq<char>>)
    ensures
        ({
            let r = without_blank_tail(ls);
            &&& r.len() <= ls.len()
            &&& r == ls.take(r.len() as int)
            &&& r.len() > 0 ==> !is_blank(r.last())
            &&& forall|i: int| r.len() <= i < ls.len() ==> is_blank(#[trigger] ls[i])
        }),
    decreases ls.len(),
{
    if ls.len() > 0 && is_blank(ls.last()) {
        let init = ls.drop_last();
        law_blank_lines_are_taken_off_the_end(init);
        let r = without_blank_tail(init);
        assert(init.take(r.len() as int) =~= ls.take(r.len() as int));
        assert forall|i: int| r.len() <= i < ls.len() implies is_blank(#[trigger] ls[i]) by {
            if i < init.len() {
                assert(init[i] == ls[i]);
            }
        }
    } else {
        assert(ls.take(ls.len() as int) =~= ls);
    }
}

/// A prompt is known on the screen by its first line.
pub proof fn law_a_prompt_is_known_by_its_first_line(first: Seq<char>, rest: Seq<char>)
    requires
        !first.contains('\n'),
        !first.contains('\r'),
    ensures
        prompt_head(first.push('\n') + rest) == trim(first),
{
    law_a_line_feed_closes_a_line(first, rest);
}

// ---- commands -------------------------------------------------------------------------

/// The log is asked for with so many commits, its dates short, its revisions last.
pub proof fn law_the_log_is_asked_for(revs: Seq<Seq<char>>, decorate: Seq<Seq<char>>, limit: nat)
    ensures
        ({
            let w = log_words(revs, decorate, limit);
            &&& w[0] == "log"@
            &&& w[2] == "--date=short"@
            &&& follows(w, "-n"@, decimal(limit), 3)
            &&& w.skip(w.len() - revs.len()) == revs
            &&& decorate.len() > 0 ==> w[5] == "--decorate=short"@ && w.subrange(6, 6 + decorate.len() as int)
                == decorate
            &&& decorate.len() == 0 ==> w.len() == 5 + revs.len()
        }),
{
    let w = log_words(revs, decorate, limit);
    assert(w.skip(w.len() - revs.len()) =~= revs);
    if decorate.len() > 0 {
        assert(w.subrange(6, 6 + decorate.len() as int) =~= decorate);
    }
}

/// Every watched ref is asked for as a branch and as a remote branch.
pub proof fn law_every_watched_ref_is_labelled(refs: Seq<Seq<char>>, k: int)
    requires
        0 <= k < refs.len(),
    ensures
        ref_labels(refs).len() == 2 * refs.len(),
        ref_labels(refs)[2 * k] == "--decorate-refs=refs/heads/"@ + refs[k],
        ref_labels(refs)[2 * k + 1] == "--decorate-refs=refs/remotes/"@ + refs[k],
    decreases refs.len(),
{
    let init = refs.drop_last();
    if k < init.len() {
        law_every_watched_ref_is_labelled(init, k);
        assert(init[k] == refs[k]);
    } else if init.len() > 0 {
        law_every_watched_ref_is_labelled(init, 0);
    } else {
        assert(ref_labels(init).len() == 0);
    }
}

/// Refs that exist are kept, and no others, in their order.
pub proof fn law_refs_that_exist_are_kept(names: Seq<Seq<char>>, n: Seq<char>, flags: Seq<bool>, f: bool)
    requires
        names.len() == flags.len(),
    ensures
        f ==> flagged(names.push(n), flags.push(f)) == flagged(names, flags).push(n),
        !f ==> flagged(names.push(n), flags.push(f)) == flagged(names, flags),
        flagged(Seq::empty(), flags).len() == 0,
{
    assert(names.push(n).drop_last() =~= names);
    lemma_flagged(names, flags, flags.push(f));
}

proof fn lemma_flagged(names: Seq<Seq<char>>, a: Seq<bool>, b: Seq<bool>)
    requires
        names.len() <= a.len() <= b.len(),
        forall|i: int| 0 <= i < names.len() ==> a[i] == b[i],
    ensures
        flagged(names, a) == flagged(names, b),
    decreases names.len(),
{
    if names.len() > 0 {
        lemma_flagged(names.drop_last(), a, b);
    }
}

/// Untracked files are asked for only where they are to be shown.
pub proof fn law_untracked_files_are_asked_for(show: bool)
    ensures
        status_words(show).last() == "--untracked-files=all"@ <==> show,
        status_words(show).last() == "--untracked-files=no"@ <==> !show,
        status_words(true).drop_last() == status_words(false).drop_last(),
{
    reveal_strlit("--untracked-files=all");
    reveal_strlit("--untracked-files=no");
    assert("--untracked-files=all"@.len() != "--untracked-files=no"@.len());
    assert(status_words(true).drop_last() =~= status_words(false).drop_last());
}

/// Whether a command puts the content of a file back from the index.
pub open spec fn restores(c: Seq<Seq<char>>) -> bool {
    c.len() > 1 && c[0] == "restore"@ && c[1] != "--staged"@
}

/// Whether a command takes a file out of the index.
pub open spec fn unstages(c: Seq<Seq<char>>) -> bool {
    c.len() > 1 && c[0] == "restore"@ && c[1] == "--staged"@
}

/// A discard deletes a file only where it is new: untracked, added or renamed to. What
/// is not staged is put back from the index, and the index is left alone; what is
/// staged is taken out of the index first, and what was there before is put back. A
/// new file is deleted last.
pub proof fn law_a_discard_deletes_only_new_files(e: EntryV, c: int)
    requires
        0 <= c < discard_plan(e).len(),
    ensures
        ({
            let plan = discard_plan(e);
            let new = e.kind == ChangeKind::Untracked || e.kind == ChangeKind::Renamed || (e.kind
                == ChangeKind::Added && e.stage != StageState::Unstaged);
            &&& plan[c][0] == "clean"@ ==> new && c == plan.len() - 1
            &&& new ==> plan.last()[0] == "clean"@ && plan.last().last() == e.path
            &&& !new ==> restores(plan.last()) && plan.last().last() == e.path
            &&& e.kind == ChangeKind::Untracked ==> plan.len() == 1
            &&& e.kind != ChangeKind::Untracked && e.kind != ChangeKind::Renamed && e.stage
                == StageState::Unstaged ==> !unstages(plan[c])
            &&& e.kind != ChangeKind::Untracked && (e.kind == ChangeKind::Renamed || e.stage
                != StageState::Unstaged) ==> unstages(plan[0]) && plan[0].last() == e.path
            &&& e.kind == ChangeKind::Renamed ==> (e.orig_path matches Some(o) ==> restores(plan[1])
                && plan[1].last() == o)
        }),
{
    reveal_strlit("clean");
    reveal_strlit("restore");
    reveal_strlit("--");
    reveal_strlit("--staged");
    assert("clean"@.len() != "restore"@.len());
    assert("--"@.len() != "--staged"@.len());
}

/// The files that are named are picked out by their places, and no others.
pub proof fn law_named_files_are_picked_out(files: Seq<EntryV>, f: EntryV, paths: Seq<Seq<char>>)
    ensures
        is_named(paths, f.path) ==> named_places(files.push(f), paths) == named_places(files, paths).push(
            files.len() as int,
        ),
        !is_named(paths, f.path) ==> named_places(files.push(f), paths) == named_places(files, paths),
        named_places(Seq::empty(), paths).len() == 0,
        paths.contains(f.path) ==> is_named(paths, f.path),
{
    assert(files.push(f).drop_last() =~= files);
    if paths.contains(f.path) {
        let k = paths.index_of(f.path);
        assert(same_file(paths[k], f.path));
    }
}

// ---- refs -----------------------------------------------------------------------------

proof fn lemma_first_slash(a: Seq<char>, b: Seq<char>)
    requires
        !a.contains('/'),
    ensures
        index_of_char(a.push('/') + b, '/') == a.len(),
{
    let s = a.push('/') + b;
    lemma_index_of_char(s, '/');
    let k = index_of_char(s, '/');
    assert(s[a.len() as int] == '/');
    if k < a.len() {
        assert(a[k] == s[k]);
    }
}

/// The remote is what stands before the first slash of the first ref that has one; the
/// branches on it are the refs under its name, without it.
pub proof fn law_refs_are_sorted_by_remote(remote: Seq<char>, b: Seq<char>, refs: Seq<Seq<char>>, plain: Seq<char>)
    requires
        !remote.contains('/'),
        !plain.contains('/'),
    ensures
        first_remote(seq![remote.push('/') + b] + refs) == Some(remote),
        first_remote(seq![plain] + refs) == first_remote(refs),
        first_remote(Seq::empty()) is None,
        branches_on(refs.push(remote.push('/') + b), remote) == branches_on(refs, remote).push(b),
        branches_on(refs.push(plain), remote) == branches_on(refs, remote),
        branches_on(Seq::empty(), remote).len() == 0,
{
    let full = remote.push('/') + b;
    lemma_first_slash(remote, b);
    assert(full.take(remote.len() as int) =~= remote);
    assert((seq![full] + refs)[0] == full);
    let other = seq![plain] + refs;
    assert(other[0] == plain);
    assert(other.skip(1) =~= refs);
    lemma_index_of_char(plain, '/');
    let k = index_of_char(plain, '/');
    if k < plain.len() {
        assert(plain[k] == '/');
    }
    reveal_strlit("/");
    let p = remote + "/"@;
    assert(p =~= remote.push('/'));
    assert(refs.push(full).drop_last() =~= refs);
    assert(refs.push(plain).drop_last() =~= refs);
    assert(full.take(p.len() as int) =~= p);
    assert(full.skip(p.len() as int) =~= b);
    if has_prefix(plain, p) {
        assert(plain.take(p.len() as int)[remote.len() as int] == '/');
        assert(plain[remote.len() as int] == '/');
    }
}

/// The last part of a ref's name is what stands behind its last slash.
pub proof fn law_a_refs_short_name_is_its_last_part(a: Seq<char>, b: Seq<char>)
    requires
        !b.contains('/'),
    ensures
        short_name(a.push('/') + b) == b,
        short_name(b) == b,
{
    let s = a.push('/') + b;
    lemma_last_slash(s, b, a.len() as int);
    lemma_no_last(b);
    assert(s.skip(a.len() as int + 1) =~= b);
}

proof fn lemma_last_slash(s: Seq<char>, b: Seq<char>, k: int)
    requires
        0 <= k < s.len(),
        s[k] == '/',
        forall|i: int| k < i < s.len() ==> s[i] == b[i - k - 1],
        s.len() == k + 1 + b.len(),
        !b.contains('/'),
    ensures
        last_index_of(s, '/') == k,
    decreases b.len(),
{
    if b.len() > 0 {
        assert(s.last() == b.last());
        assert(b.contains(b.last()));
        let c = b.drop_last();
        assert(!c.contains('/')) by {
            if c.contains('/') {
                let i = c.index_of('/');
                assert(b[i] == '/');
            }
        }
        lemma_last_slash(s.drop_last(), c, k);
    }
}

proof fn lemma_no_last(b: Seq<char>)
    requires
        !b.contains('/'),
    ensures
        last_index_of(b, '/') < 0,
    decreases b.len(),
{
    if b.len() > 0 {
        assert(b.contains(b.last()));
        assert(!b.drop_last().contains('/')) by {
            if b.drop_last().contains('/') {
                let i = b.drop_last().index_of('/');
                assert(b[i] == '/');
            }
        }
        lemma_no_last(b.drop_last());
    }
}

// ---- counts ---------------------------------------------------------------------------

/// A field between NUL bytes counts if it holds something, whatever it holds; an
/// empty one does not.
pub proof fn law_fields_that_hold_something_count(a: Seq<u8>, b: Seq<u8>)
    ensures
        filled_fields(a + seq![0u8] + b) == filled_fields(a) + filled_fields(b),
        b.len() > 0 && !b.contains(0) ==> filled_fields(b) == 1,
        filled_fields(Seq::empty()) == 0,
    decreases b.len(),
{
    let z = a + seq![0u8];
    assert(z.drop_last() =~= a);
    assert(z.last() == 0);
    assert(filled_fields(z) == filled_fields(a));
    if b.len() == 0 {
        assert(z + b =~= z);
    } else {
        let all = z + b;
        let c = b.drop_last();
        law_fields_that_hold_something_count(a, c);
        assert(all.drop_last() =~= z + c);
        assert(all.last() == b.last());
        if b.len() == 1 {
            assert(all[all.len() - 2] == z.last());
        } else {
            assert(all[all.len() - 2] == b[b.len() - 2]);
        }
        if !b.contains(0) {
            assert(b[b.len() - 1] != 0) by {
                assert(b.contains(b[b.len() - 1]));
            }
            if b.len() > 1 {
                assert(b.contains(b[b.len() - 2]));
                assert(!c.contains(0)) by {
                    if c.contains(0) {
                        let i = c.index_of(0);
                        assert(b[i] == 0);
                    }
                }
            } else {
                assert(filled_fields(c) == 0);
            }
        }
    }
}

/// A file's counts are those that are reported of it, lines added first; one that is
/// not text has none, and one without a report keeps what it had. Nothing else of it
/// changes.
pub proof fn law_a_file_gets_the_counts_reported_of_it(e: EntryV, list: Seq<Stat>, a: u32, d: u32)
    ensures
        sum_for(list, e.path) == Some(Some((a as int, d as int))) ==> counted(e, list) == (EntryV {
            adds: Some(a),
            dels: Some(d),
            ..e
        }),
        sum_for(list, e.path) == Some(None::<(int, int)>) ==> counted(e, list) == (EntryV {
            adds: None,
            dels: None,
            ..e
        }),
        sum_for(list, e.path) is None ==> counted(e, list) == e,
{
}

proof fn lemma_untracked_at(s: Seq<EntryV>, i: int)
    requires
        0 <= i < s.len(),
        s[i].kind == ChangeKind::Untracked,
    ensures
        untracked_of(s).len() == untracked_count(s),
        untracked_count(s.take(i)) < untracked_of(s).len(),
        untracked_of(s)[untracked_count(s.take(i)) as int] == s[i].path,
    decreases s.len(),
{
    lemma_untracked_len(s);
    let init = s.drop_last();
    lemma_untracked_len(init);
    if i < init.len() {
        lemma_untracked_at(init, i);
        assert(init.take(i) =~= s.take(i));
        assert(init[i] == s[i]);
    } else {
        assert(s.take(i) =~= init);
    }
}

proof fn lemma_untracked_len(s: Seq<EntryV>)
    ensures
        untracked_of(s).len() == untracked_count(s),
    decreases s.len(),
{
    if s.len() > 0 {
        lemma_untracked_len(s.drop_last());
    }
}

/// An untracked file is counted by its own content: the contents stand in the order
/// in which the files are asked for. A tracked file is counted by its report.
pub proof fn law_untracked_files_count_their_own_content(s: Seq<EntryV>, list: Seq<Stat>, contents: Seq<Option<Seq<u8>>>, i: int)
    requires
        0 <= i < s.len(),
        contents.len() == untracked_of(s).len(),
    ensures
        s[i].kind != ChangeKind::Untracked ==> worktree_counted(s, list, contents)[i] == counted(s[i], list),
        s[i].kind == ChangeKind::Untracked ==> ({
            let k = untracked_count(s.take(i)) as int;
            let stat = crate::git_parse::whole_file_stat(contents[k]);
            &&& untracked_of(s)[k] == s[i].path
            &&& worktree_counted(s, list, contents)[i] == (EntryV { adds: stat.0, dels: stat.1, ..s[i] })
        }),
        worktree_counted(s, list, contents).len() == s.len(),
{
    if s[i].kind == ChangeKind::Untracked {
        lemma_untracked_at(s, i);
    }
}

/// What the tool says of an agent is read where it names a pane; else that it is
/// missing is told, and a reply that is no document says so.
pub proof fn law_an_agent_is_read_from_a_reply(text: Seq<char>, missing: Seq<char>, r: Result<crate::agentio::AgentInfo, Seq<char>>)
    requires
        crate::agentio::agent_reply(text, missing, r),
    ensures
        r matches Ok(info) ==> (crate::json::json_read(text) matches Ok(doc) && (doc.get2("result"@, "agent"@)
            matches Some(v) && v.text_at("pane_id"@) == Some(info.pane@) && crate::agentio::describes(v, info))),
        (crate::json::json_read(text) matches Ok(doc) && (doc.get2("result"@, "agent"@) matches Some(v)
            && v.text_at("pane_id"@) is Some)) ==> r is Ok,
        (crate::json::json_read(text) matches Ok(doc) && doc.get2("result"@, "agent"@) is None) ==> r == Err::<
            crate::agentio::AgentInfo,
            Seq<char>,
        >(missing),
        crate::json::json_read(text) matches Err(e) ==> r == Err::<crate::agentio::AgentInfo, Seq<char>>(
            "bad json: "@ + e,
        ),
{
}

} // verus!
