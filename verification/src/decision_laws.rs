//! What is decided of an outcome, a key or a click.

use vstd::prelude::*;

use crate::agentio::{prompt_args, transcript_path, Handle, SessionRef, TranscriptQuery};
use crate::config::Theme;
use crate::git::{ChangeKind, FileEntry, GitError, GitOut};
use crate::git_parse::{headline, lossy_text};
use crate::git_repo::{answer, status_words, Ran, Repo, StatusStep};
use crate::git_stat::sum_for;
use crate::host::{close_tab_args, close_view, hunt_pane, Cmd, Hunt, NEW_PANE_LOOKS};
use crate::host_laws::follows;
use crate::json::{model, Json};
use crate::keymap::KeyCode;
use crate::list::{App, LOG_LIMIT};
use crate::list_footer::{centered_rect, Rect};
use crate::orchestrate::{
    find_text, read_sidebar_state, read_tab_state, resolve_repo, view_context, CtxError, ViewCtx,
    ViewMode, ViewState,
};
use crate::popups::{ask_click, pick_click, pick_key, Buttons, Pick, Reply};
use crate::preview_session::{first_read, next_read, Fetch, Source};
use crate::render::{build, DiffDoc};
use crate::rows::Run;
use crate::style::Rgb;
use crate::text::{decimal, deep, trim};
use crate::text_laws::law_a_number_reads_back;
use crate::thread::{Loaded, StoreRead, ThreadStore, STORE_VERSION};

verus! {

// ---- git ------------------------------------------------------------------------------

/// A status that could be read is taken as it is. One that could not is asked for once
/// more, without the submodules' own changes; where that fails too, the first failure
/// is told.
pub proof fn law_a_status_is_asked_for_twice(show: bool, first: GitOut, again: GitOut, other: Option<Ran>, one: StatusStep, two: StatusStep, three: StatusStep)
    requires
        call_ensures(Repo::status_raw, (show, Ok(first), other), one),
        call_ensures(Repo::status_raw, (show, Ok(first), None), two),
        call_ensures(Repo::status_raw, (show, Ok(first), Some(Ok(again))), three),
    ensures
        first.ok ==> one == StatusStep::Done(first.stdout),
        !first.ok ==> (two matches StatusStep::Retry(args) && deep(args@).drop_last() == status_words(show)
            && deep(args@).last() == "--ignore-submodules=dirty"@),
        !first.ok && again.ok ==> three == StatusStep::Done(again.stdout),
        !first.ok && !again.ok ==> (three matches StatusStep::Fail(GitError::Status(s)) && s@ == headline(
            trim(lossy_text(first.stderr@)),
        )),
{
    if !first.ok {
        let args = two->Retry_0;
        assert(deep(args@).drop_last() =~= status_words(show));
    }
}

/// The base of the configuration counts before the one that was found, and is handed
/// back with the merge base.
pub proof fn law_the_configured_base_counts_first(configured: &str, found: &str, out: GitOut, r: Result<(String, String), GitError>)
    requires
        call_ensures(Repo::resolve_base, (configured, found, Ok(out)), r),
    ensures
        r is Ok <==> out.ok,
        configured@.len() > 0 ==> (r matches Ok(p) ==> p.0@ == configured@),
        configured@.len() == 0 ==> (r matches Ok(p) ==> p.0@ == found@),
        r matches Ok(p) ==> p.1@ == answer(out),
{
}

/// A number of commits is what git says; where it says none, the distance is as large
/// as can be, and the number is not known.
pub proof fn law_commits_are_counted_by_git(ran: &Ran, n: u32, far: u32, ahead: Option<u32>)
    requires
        call_ensures(Repo::commits_between, (ran,), far),
        call_ensures(Repo::commits_ahead, (ran,), ahead),
    ensures
        (ran matches Ok(out) && out.ok && answer(*out) == decimal(n as nat)) ==> far == n,
        (ran matches Ok(out) && out.ok && answer(*out) == decimal(n as nat)) && n < u32::MAX ==> ahead == Some(n),
        (ran matches Ok(out) && !out.ok) || ran is Err ==> far == u32::MAX && ahead is None,
{
    law_a_number_reads_back(n as nat);
}

/// A file is known by its hash, where it is a file and git could tell it.
pub proof fn law_a_hash_needs_a_file(is_file: bool, ran: &Ran, r: Option<String>)
    requires
        call_ensures(Repo::hash_object, (is_file, ran), r),
    ensures
        r is Some <==> is_file && (ran matches Ok(out) && out.ok && answer(*out).len() > 0),
        r matches Some(s) ==> (ran matches Ok(out) && s@ == answer(*out)),
{
}

/// A file that does not exist at a revision is none, and no failure.
pub proof fn law_a_missing_file_is_no_failure(out: GitOut, r: Result<Option<String>, GitError>)
    requires
        call_ensures(Repo::file_at, (Ok(out),), r),
    ensures
        r matches Ok(c) && (c is Some <==> out.ok) && (c matches Some(t) ==> t@ == lossy_text(out.stdout@)),
{
}

/// Names and counts are asked for by the same command but for one word, against the
/// same commit.
pub proof fn law_names_and_counts_are_asked_alike(rev: &str, names: Vec<String>, counts: Vec<String>, commit_names: Vec<String>, commit_counts: Vec<String>)
    requires
        call_ensures(Repo::branch_changes_args, (rev, false), names),
        call_ensures(Repo::branch_changes_args, (rev, true), counts),
        call_ensures(Repo::commit_files_args, (rev, false), commit_names),
        call_ensures(Repo::commit_files_args, (rev, true), commit_counts),
    ensures
        deep(names@)[0] == "diff"@ && deep(names@)[1] == rev@,
        deep(names@).update(2, "--numstat"@) == deep(counts@),
        deep(names@)[2] == "--name-status"@,
        deep(names@).contains("-M"@) && deep(names@).contains("-z"@),
        deep(commit_names@)[0] == "diff-tree"@ && deep(commit_names@).last() == rev@,
        deep(commit_names@).update(6, "--numstat"@) == deep(commit_counts@),
        deep(commit_names@)[6] == "--name-status"@,
        deep(commit_names@).contains("-M"@) && deep(commit_names@).contains("--root"@),
{
    assert(deep(names@)[4] == "-M"@ && deep(names@)[3] == "-z"@);
    assert(deep(commit_names@)[5] == "-M"@ && deep(commit_names@)[2] == "--root"@);
    assert(deep(names@).update(2, "--numstat"@) =~= deep(counts@));
    assert(deep(commit_names@).update(6, "--numstat"@) =~= deep(commit_counts@));
}

/// A conflict is not discarded, and anything else is.
pub proof fn law_a_conflict_is_not_discarded(e: &FileEntry, r: Result<Vec<Vec<String>>, GitError>)
    requires
        call_ensures(Repo::discard, (e,), r),
    ensures
        r is Err <==> e.kind == ChangeKind::Conflicted,
        r matches Err(err) ==> err == GitError::Conflicted,
{
}

/// A summary of the last commit is what git says of it.
pub proof fn law_the_last_commit_is_told_by_git(ran: &Ran, r: Option<String>)
    requires
        call_ensures(Repo::last_commit_summary, (ran,), r),
    ensures
        r is Some <==> (ran matches Ok(out) && out.ok && answer(*out).len() > 0),
        r matches Some(s) ==> (ran matches Ok(out) && s@ == answer(*out)),
{
}

/// Two reports of a file count together, whichever of them is read first.
pub proof fn law_two_reports_count_together(a: Seq<crate::git_parse::Stat>, b: Seq<crate::git_parse::Stat>, path: Seq<char>)
    ensures
        sum_for(b, path) is None ==> sum_for(a + b, path) == sum_for(a, path),
        sum_for(a, path) is None ==> sum_for(a + b, path) == sum_for(b, path),
        (sum_for(a, path) matches Some(Some(x)) && sum_for(b, path) matches Some(Some(y))) ==> ({
            let (x, y) = (sum_for(a, path)->0->0, sum_for(b, path)->0->0);
            sum_for(a + b, path) == Some(Some((x.0 + y.0, x.1 + y.1)))
        }),
        sum_for(a, path) == Some(None::<(int, int)>) || sum_for(b, path) == Some(None::<(int, int)>)
            ==> sum_for(a + b, path) == Some(None::<(int, int)>),
    decreases b.len(),
{
    if b.len() == 0 {
        assert(a + b =~= a);
    } else {
        law_two_reports_count_together(a, b.drop_last(), path);
        assert((a + b).drop_last() =~= a + b.drop_last());
        assert((a + b).last() == b.last());
    }
}

/// In the history of a branch only its own commits are asked for: those since the
/// merge base.
pub proof fn law_a_branchs_history_starts_at_its_merge_base(a: &App, live: &[String], r: Vec<String>)
    requires
        call_ensures(App::load_commits, (a, live), r),
    ensures
        a.log_branch_only ==> (a.merge_base matches Some(mb) ==> deep(r@).last() == mb@ + "..HEAD"@),
        !a.log_branch_only && live@.len() > 0 ==> deep(r@).last() == live@.last()@,
        !a.log_branch_only && live@.len() == 0 ==> deep(r@).len() == 5,
        follows(deep(r@), "-n"@, decimal(LOG_LIMIT as nat), 3),
{
    if !a.log_branch_only && live@.len() > 0 {
        let d = deep(live@);
        assert(d.len() == live@.len());
        assert(d.last() == live@.last()@);
        assert((seq!["HEAD"@] + d).last() == d.last());
    }
}

// ---- panes ----------------------------------------------------------------------------

/// A new pane is looked for again until it is found, but not for ever.
pub proof fn law_a_pane_is_looked_for_again(before: &Vec<String>, after: &Vec<String>, looks: u8, r: Hunt)
    requires
        call_ensures(hunt_pane, (before, after, looks), r),
    ensures
        r matches Hunt::Found(p) ==> crate::host::newcomer(deep(before@), deep(after@)) == Some(p@),
        crate::host::newcomer(deep(before@), deep(after@)) is Some ==> r is Found,
        r matches Hunt::Again(n) ==> n == looks + 1 && n < NEW_PANE_LOOKS,
        crate::host::newcomer(deep(before@), deep(after@)) is None && looks + 1 >= NEW_PANE_LOOKS ==> r is GiveUp,
{
}

/// A view in a tab is closed with its tab, and the user is back where it was called
/// from; a sidebar is closed pane by pane, and its tab stays.
pub proof fn law_a_view_is_closed_as_it_was_opened(s: &ViewState, closed: bool, tab: Option<Vec<String>>, cmds: Vec<Cmd>)
    requires
        call_ensures(close_tab_args, (s,), tab),
        call_ensures(close_view, (s, closed), cmds),
    ensures
        tab is Some <==> s.mode == ViewMode::Tab,
        tab matches Some(w) ==> deep(w@) == seq!["tab"@, "close"@, s.tab_id@],
        s.mode == ViewMode::Sidebar ==> deep(cmds@) == crate::host::close_panes(*s),
        s.mode == ViewMode::Tab && closed && s.origin_tab is None ==> deep(cmds@).len() == 0,
        s.mode == ViewMode::Tab && !closed && s.origin_tab is None ==> deep(cmds@)
            == crate::host::close_panes(*s),
        s.mode == ViewMode::Tab ==> (s.origin_tab matches Some(t) ==> deep(cmds@).last()
            == crate::host::may(seq!["tab"@, "focus"@, t@])),
{
    if s.mode == ViewMode::Tab && !closed && s.origin_tab is None {
        assert(deep(cmds@) =~= crate::host::close_panes(*s));
    }
}

/// A window in the middle has as much room on its left as on its right, and above as
/// below, and is as large as asked for where there is room.
pub proof fn law_a_window_stands_in_the_middle(area: Rect, w: u16, h: u16, r: Rect)
    requires
        call_ensures(centered_rect, (area, w, h), r),
        area.x + area.width <= u16::MAX,
        area.y + area.height <= u16::MAX,
    ensures
        w <= area.width ==> r.width == w,
        w > area.width ==> r.width == area.width,
        h <= area.height ==> r.height == h,
        h > area.height ==> r.height == area.height,
        ({
            let (left, right) = (r.x - area.x, area.x + area.width - r.x - r.width);
            let (above, below) = (r.y - area.y, area.y + area.height - r.y - r.height);
            &&& 0 <= left <= right <= left + 1
            &&& 0 <= above <= below <= above + 1
        }),
{
}

/// A sidebar's state is that of its own file, else that of the file of former times
/// where it is of the same tab; a tab's view likewise.
pub proof fn law_a_state_is_its_own(tab_id: &str, own: Option<ViewState>, legacy: Option<ViewState>, s: Option<ViewState>, t: Option<ViewState>)
    requires
        call_ensures(read_sidebar_state, (tab_id, own, legacy), s),
        call_ensures(read_tab_state, (own, legacy), t),
    ensures
        tab_id@.len() > 0 && own is Some ==> s == own,
        tab_id@.len() > 0 && own is None ==> (s matches Some(l) ==> Some(l) == legacy && l.mode
            == ViewMode::Sidebar && l.tab_id@ == tab_id@),
        tab_id@.len() > 0 && own is None && (legacy matches Some(l) && l.mode == ViewMode::Sidebar && l.tab_id@
            == tab_id@) ==> s == legacy,
        own is Some ==> t == own,
        own is None ==> (t matches Some(l) ==> Some(l) == legacy && l.mode == ViewMode::Tab),
        own is None && (legacy matches Some(l) && l.mode == ViewMode::Tab) ==> t == legacy,
{
}

/// Where a call came from is what the host says of it, else what the environment
/// says; the tab is what the host says of the call, else of the pane.
pub proof fn law_a_call_knows_where_it_came_from(context: Json, pane_env: &Option<String>, workspace_env: &Option<String>, pane_reply: &Option<Json>, r: Result<ViewCtx, CtxError>)
    requires
        call_ensures(view_context, (&Some(context), pane_env, workspace_env, pane_reply), r),
    ensures
        r matches Ok(c) ==> {
            let doc = model(context);
            &&& find_text(doc, "focused_pane_id"@) matches Some(p) ==> c.focused_pane@ == p
            &&& find_text(doc, "focused_pane_id"@) is None ==> (pane_env matches Some(p) && c.focused_pane@
                == p@)
            &&& find_text(doc, "workspace_id"@) matches Some(w) ==> c.workspace@ == w
            &&& find_text(doc, "workspace_id"@) is None ==> (workspace_env matches Some(w) && c.workspace@
                == w@)
            &&& find_text(doc, "tab_id"@) matches Some(t) ==> c.tab@ == t
            &&& find_text(doc, "tab_id"@) is None ==> (pane_reply matches Some(j) && find_text(
                model(*j),
                "tab_id"@,
            ) == Some(c.tab@))
        },
        r matches Err(e) ==> (e is NoPane ==> pane_env is None) && (e is NoWorkspace ==> workspace_env is None),
{
}

/// A repository is the first that was found; where none was, how many places were
/// looked at is told.
pub proof fn law_a_repository_is_the_first_found(roots: &Vec<Option<String>>, r: Result<String, String>)
    requires
        call_ensures(resolve_repo, (roots,), r),
    ensures
        r matches Ok(root) ==> crate::orchestrate::first_found(deep(roots@)) == Some(root@),
        r is Err <==> crate::orchestrate::first_found(deep(roots@)) is None,
        r matches Err(e) ==> e@ == "not inside a git repository (checked "@ + decimal(roots@.len())
            + " candidate dirs)"@,
{
}

// ---- keys and clicks ------------------------------------------------------------------

/// A click answers where a button is, and nowhere else.
pub proof fn law_a_click_answers_on_a_button(b: Buttons, column: u16, row: u16, r: Option<Reply>)
    requires
        call_ensures(ask_click, (b, column, row), r),
        b.yes.1 <= b.no.0,
    ensures
        r == Some(Reply::Yes) <==> row == b.y && b.yes.0 <= column < b.yes.1,
        r == Some(Reply::No) <==> row == b.y && b.no.0 <= column < b.no.1,
        r != Some(Reply::Cancel),
{
}

/// In the picker down and up move by one and stop at the ends, `j` and `k` do the
/// same, Enter takes the one at the cursor, and Esc and `q` give it up.
pub proof fn law_the_picker_moves_by_one(cursor: usize, agents: usize, down: Pick, j: Pick, up: Pick, k: Pick, enter: Pick, esc: Pick, q: Pick)
    requires
        cursor < agents,
        call_ensures(pick_key, (KeyCode::Down, cursor, agents), down),
        call_ensures(pick_key, (KeyCode::Char('j'), cursor, agents), j),
        call_ensures(pick_key, (KeyCode::Up, cursor, agents), up),
        call_ensures(pick_key, (KeyCode::Char('k'), cursor, agents), k),
        call_ensures(pick_key, (KeyCode::Enter, cursor, agents), enter),
        call_ensures(pick_key, (KeyCode::Esc, cursor, agents), esc),
        call_ensures(pick_key, (KeyCode::Char('q'), cursor, agents), q),
    ensures
        cursor + 1 < agents ==> down == Pick::At((cursor + 1) as usize),
        cursor + 1 == agents ==> down == Pick::At(cursor),
        cursor > 0 ==> up == Pick::At((cursor - 1) as usize),
        cursor == 0 ==> up == Pick::At(0),
        j == down && k == up,
        enter == Pick::Chosen(cursor),
        esc is Cancelled && q is Cancelled,
{
}

/// A click in the picker goes to the row under it, and takes it where the cursor is
/// there already.
pub proof fn law_a_click_picks_its_row(row: u16, cursor: usize, agents: usize, r: Pick)
    requires
        cursor < agents,
        row > 0,
        call_ensures(pick_click, (row, cursor, agents), r),
    ensures
        row - 1 == cursor ==> r == Pick::Chosen(cursor),
        row - 1 != cursor && row - 1 < agents ==> r == Pick::At((row - 1) as usize),
        row - 1 >= agents ==> r == Pick::At(cursor),
{
}

// ---- sources and files ----------------------------------------------------------------

/// A side of a diff is read where it is said to be. Our side of a conflict is looked
/// for at HEAD where the index has none; any other side that is not there is empty.
pub proof fn law_a_side_is_read_where_it_is(source: &Source, first: Fetch, text: String, found: Fetch, missing: Fetch)
    requires
        call_ensures(first_read, (source,), first),
        call_ensures(next_read, (source, Ok(Some(text))), found),
        call_ensures(next_read, (source, Ok(None)), missing),
    ensures
        source matches Source::At { rev, path } ==> (first matches Fetch::At { rev: v, path: p } && v@ == rev@
            && p@ == path@),
        source matches Source::Disk { path } ==> (first matches Fetch::Disk { path: p } && p@ == path@),
        source matches Source::Ours { path } ==> (first matches Fetch::At { rev, path: p } && rev@ == ":2"@
            && p@ == path@),
        found == Fetch::Done(Ok(text)),
        source matches Source::Ours { path } ==> (missing matches Fetch::At { rev, path: p } && rev@ == "HEAD"@
            && p@ == path@),
        !(source is Ours) ==> (missing matches Fetch::Done(Ok(t)) && t@.len() == 0),
{
}

/// A transcript is at its path where the session tells it, and else under the
/// session's name in the agent's own directory.
pub proof fn law_a_transcript_is_where_the_session_says(s: &SessionRef, filer: &str, r: TranscriptQuery)
    requires
        call_ensures(transcript_path, (s, filer), r),
    ensures
        s.kind@ == "path"@ ==> (r matches TranscriptQuery::At(p) && p@ == s.value@),
        s.kind@ != "path"@ && s.kind@ == "id"@ && s.agent@ == filer@ && filer@.len() > 0 ==> (
        r matches TranscriptQuery::Named { projects, name } && name@ == s.value@ + ".jsonl"@ && projects@
            == "."@ + filer@ + "/projects"@),
        s.kind@ != "path"@ && (s.kind@ != "id"@ || s.agent@ != filer@) ==> r is Nowhere,
{
}

/// An agent is asked in its own pane with the prompt as it is, and waited for until
/// it is idle or done, but not longer than said.
pub proof fn law_an_agent_is_asked_in_its_pane(h: &Handle, timeout_ms: u64, r: Vec<String>)
    requires
        call_ensures(prompt_args, (h, timeout_ms), r),
    ensures
        deep(r@)[0] == "agent"@ && deep(r@)[1] == "prompt"@,
        deep(r@)[2] == h.pane@ && deep(r@)[3] == h.prompt@,
        follows(deep(r@), "--until"@, "idle"@, 5) && follows(deep(r@), "--until"@, "done"@, 7),
        follows(deep(r@), "--timeout"@, decimal(timeout_ms as nat), 9),
{
}

/// A store that is there and can be read is taken; one of another version, or one that
/// cannot be read, is put aside and a fresh one begun, which is said; where there is
/// none, a fresh one is begun in silence.
pub proof fn law_a_store_that_cannot_be_read_is_put_aside(s: ThreadStore, repo: &str, e: String, none: Loaded, bad: Loaded, garbled: Loaded, good: Loaded)
    requires
        call_ensures(ThreadStore::load_from, (StoreRead::Missing, repo), none),
        call_ensures(ThreadStore::load_from, (StoreRead::Unreadable(e), repo), bad),
        call_ensures(ThreadStore::load_from, (StoreRead::Undecodable(e), repo), garbled),
        call_ensures(ThreadStore::load_from, (StoreRead::Decoded(s), repo), good),
    ensures
        !none.quarantine && none.note is None && none.store.threads@.len() == 0,
        bad.quarantine && bad.note is Some && bad.store.threads@.len() == 0,
        garbled.quarantine && garbled.note is Some && garbled.store.threads@.len() == 0,
        good.quarantine <==> s.version != STORE_VERSION,
        s.version != STORE_VERSION ==> good.note is Some && good.store.threads@.len() == 0,
        s.version == STORE_VERSION ==> good.store.threads@ == crate::thread::first_of_each(
            crate::thread::spoken(s.threads@),
        ) && good.store.version == s.version && good.store.repo == s.repo,
        none.store.repo@ == repo@ && bad.store.repo@ == repo@ && garbled.store.repo@ == repo@,
{
}

/// A diff of files that are not text shows nothing; of two texts that are the same it
/// says so; and of any others it shows every line of both.
pub proof fn law_a_diff_shows_every_line(
    old: &str,
    new: &str,
    old_lines: &Vec<Vec<Run>>,
    new_lines: &Vec<Vec<Run>>,
    theme: Theme,
    fg: Rgb,
    context: usize,
    tabs: usize,
    r: DiffDoc,
)
    requires
        call_ensures(build, (old, new, old_lines, new_lines, theme, fg, context, tabs), r),
    ensures
        r.binary <==> old@.contains('\0') || new@.contains('\0'),
        r.binary ==> r.model().len() == 0,
        !r.binary ==> (r.is_empty <==> old@ == new@),
        !r.binary ==> crate::rows::unfolded(r.model()).len() == crate::rows::line_diff(old@, new@).len(),
        !r.binary ==> crate::rows::old_count(crate::rows::line_diff(old@, new@)) == crate::rows::ended_lines(
            old@,
        ).len(),
        !r.binary ==> crate::rows::new_count(crate::rows::line_diff(old@, new@)) == crate::rows::ended_lines(
            new@,
        ).len(),
        r.tab_width == tabs && r.theme == theme,
{
    if !r.binary {
        let rows = crate::rows::code_rows(
            crate::rows::line_diff(old@, new@),
            crate::rows::run_lines(old_lines@),
            crate::rows::run_lines(new_lines@),
        );
        let e = crate::rows::emphasised(rows, 0);
        crate::rows::law_emphasis_changes_nothing_else(rows, 0);
        assert(crate::rows::bare(e).len() == e.len());
        crate::rows::law_folding_loses_nothing(e, context as int, 0);
    }
}

} // verus!
