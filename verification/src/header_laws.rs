//! What the headers, the footers and a commit's message say.

use vstd::prelude::*;

use crate::git::{ChangeKind, Scope};
use crate::list::App;
use crate::list_footer::{hint_cells, HintV};
use crate::list_rows::Mode;
use crate::list_ui::{adds_of, dels_of};
use crate::preview::{PreviewApp, State};
use crate::preview_message::{message_doc, plain_lines};
use crate::preview_ui::{fitting, short_sha, within_bytes};
use crate::style::{span, Style};
use crate::text::{decimal, deep, lines};

verus! {

// ---- the diff pane ---------------------------------------------------------------------

/// The header names the file and what it is compared with, and says where it is
/// staged or deleted; nothing else is said there.
pub proof fn law_the_header_names_the_file(a: PreviewApp)
    requires
        a.current is Some,
    ensures
        ({
            let req = a.current->0;
            let head = seq![' '] + req.file@ + "  ["@ + a.scope_words(req) + "]"@;
            let staged = req.cached && req.scope == Scope::Worktree;
            let gone = req.kind == ChangeKind::Deleted;
            &&& !staged && !gone ==> a.header_words() == head
            &&& staged && !gone ==> a.header_words() == head + " [staged]"@
            &&& !staged && gone ==> a.header_words() == head + " (deleted)"@
            &&& staged && gone ==> a.header_words() == head + " [staged]"@ + " (deleted)"@
            &&& req.commit matches Some(sha) ==> a.scope_words(req) == "commit "@ + short_sha(sha@)
            &&& req.commit is None && req.scope == Scope::Worktree ==> a.scope_words(req) == "uncommitted"@
            &&& req.commit is None && req.scope == Scope::Branch ==> (a.base matches Some(b) ==> a.scope_words(
                req,
            ) == "vs "@ + b@)
        }),
{
    reveal_strlit(" ");
    reveal_strlit("");
    assert(" "@ =~= seq![' ']);
    assert(""@ =~= Seq::<char>::empty());
    let req = a.current->0;
    let head = seq![' '] + req.file@ + "  ["@ + a.scope_words(req) + "]"@;
    assert(head + ""@ + ""@ =~= head);
    assert(head + " [staged]"@ + ""@ =~= head + " [staged]"@);
    assert(head + ""@ + " (deleted)"@ =~= head + " (deleted)"@);
}

proof fn lemma_ascii_within(s: Seq<char>, room: int)
    requires
        room >= 0,
        forall|i: int| 0 <= i < s.len() ==> (#[trigger] s[i] as u32) < 128,
    ensures
        within_bytes(s, room) == s.take(
            if s.len() < room {
                s.len() as int
            } else {
                room
            },
        ),
    decreases s.len(),
{
    if s.len() == 0 {
        assert(s.take(0) =~= Seq::<char>::empty());
    } else {
        assert((s[0] as u32) < 128);
        assert(vstd::utf8::encode_scalar(s[0] as u32).len() == 1);
        if room == 0 {
            assert(s.take(0) =~= Seq::<char>::empty());
        } else {
            let t = s.skip(1);
            assert forall|i: int| 0 <= i < t.len() implies (#[trigger] t[i] as u32) < 128 by {
                assert(t[i] == s[i + 1]);
            }
            lemma_ascii_within(t, room - 1);
            let n = if s.len() < room {
                s.len() as int
            } else {
                room
            };
            assert(s.take(n) =~= seq![s[0]] + t.take(n - 1));
        }
    }
}

/// A commit is named by the first seven characters of its name, or all where it has
/// no more.
pub proof fn law_a_commit_is_named_by_seven_characters(sha: Seq<char>)
    requires
        forall|i: int| 0 <= i < sha.len() ==> (#[trigger] sha[i] as u32) < 128,
    ensures
        sha.len() >= 7 ==> short_sha(sha) == sha.take(7),
        sha.len() < 7 ==> short_sha(sha) == sha,
{
    lemma_ascii_within(sha, 7);
    if sha.len() < 7 {
        assert(sha.take(sha.len() as int) =~= sha);
    }
}

/// The header's right says which line of how many the cursor is on, counted from one,
/// and before that the file's own line number where it has one.
pub proof fn law_the_header_tells_the_cursors_line(a: PreviewApp)
    ensures
        ({
            let at = decimal((a.view.cursor_line + 1) as nat) + "/"@ + decimal(a.view.doc@.len()) + " "@;
            &&& a.active() ==> (a.file_line() matches Some(n) ==> a.place_words() == "ln "@ + decimal(
                n as nat,
            ) + "  "@ + at)
            &&& a.active() && a.file_line() is None ==> a.place_words() == at
            &&& !a.active() ==> a.place_words().len() == 0
        }),
{
}

/// Where there is no diff, the pane says why: nothing staged, no changes, not text, or
/// the error.
pub proof fn law_an_empty_pane_says_why(a: PreviewApp)
    ensures
        a.body_words() is None <==> a.state is Diff || a.state is Message,
        a.state is Binary ==> a.body_words() == Some("(binary file)"@),
        a.state is Empty && (a.current matches Some(c) && c.cached) ==> a.body_words() == Some(
            "(no staged changes)"@,
        ),
        a.state is Empty && !(a.current matches Some(c) && c.cached) ==> a.body_words() == Some(
            "(no changes in this view)"@,
        ),
        a.state matches State::Error(m) ==> a.body_words() == Some(" diff error: "@ + m@),
        a.state matches State::Splash(s) ==> a.body_words() == Some(s@),
{
}

/// Notes can be written on a diff of the working tree, and on nothing else; the hint
/// to do so stands there exactly then.
pub proof fn law_notes_are_offered_where_they_can_be_written(a: PreviewApp, i: int)
    ensures
        a.annotatable() <==> a.state is Diff && (a.current matches Some(c) && c.commit is None && c.scope
            == Scope::Worktree),
        0 <= i < a.hints().len() && a.hints()[i].label == "note"@ ==> a.annotatable(),
        a.annotatable() ==> a.hints()[2].label == "note"@,
        a.hints().last().label == "quit"@,
{
    reveal_strlit("note");
    reveal_strlit("move");
    reveal_strlit("select");
    reveal_strlit("send (");
    reveal_strlit("ends");
    reveal_strlit("quit");
    assert("note"@[0] == 'n' && "move"@[0] == 'm' && "select"@[0] == 's' && "ends"@[0] == 'e' && "quit"@[0]
        == 'q');
    let n = a.store.threads@.len();
    let send = "send ("@ + decimal(n) + ")"@;
    assert(send[0] == 's');
}

/// While the box is open the footer says what its keys do; else a message stands there
/// for three seconds; else the keys of the pane.
pub proof fn law_the_footer_gives_way_to_messages(a: PreviewApp, width: nat)
    ensures
        a.composer is Some ==> a.footer_spans(width).len() == 1 && a.footer_spans(width)[0].content
            == " enter save · shift+enter / ctrl+j newline · esc cancel"@,
        a.composer is None ==> (a.flash matches Some(f) ==> (a.now - f.1 < 3000 ==> a.footer_spans(
            width,
        ).len() == 1 && a.footer_spans(width)[0].content == seq![' '] + f.0@)),
        a.composer is None && !(a.flash matches Some(f) && a.now - f.1 < 3000) ==> a.footer_spans(width)
            == crate::list_footer::hint_spans(
            a.hints().take(fitting(a.hints(), width, a.hints().len() as int).0),
            crate::list_ui::colored(crate::style::Color::Cyan),
        ),
{
    reveal_strlit(" ");
    assert(" "@ =~= seq![' ']);
}

/// The cells that the first `n` hints of the diff pane take.
pub open spec fn hints_wide(s: Seq<HintV>, n: int) -> int
    decreases n,
{
    if n <= 0 {
        0
    } else {
        hints_wide(s, n - 1) + hint_cells(s[n - 1]) + if n > 1 {
            2int
        } else {
            0
        }
    }
}

/// As many hints are shown as fit, from the first on: those that are shown fit, and
/// with the next one they would not.
pub proof fn law_as_many_hints_as_fit(s: Seq<HintV>, width: nat, n: int)
    requires
        0 <= n <= s.len(),
        width < usize::MAX,
    ensures
        ({
            let k = fitting(s, width, n).0;
            &&& 0 <= k <= n
            &&& fitting(s, width, n).1 == hints_wide(s, k)
            &&& hints_wide(s, k) <= width
            &&& k < n ==> hints_wide(s, k + 1) > width
        }),
    decreases n,
{
    if n > 0 {
        law_as_many_hints_as_fit(s, width, n - 1);
    }
}

// ---- a commit's message ----------------------------------------------------------------

proof fn lemma_plain_lines(s: Seq<Seq<char>>, i: int)
    requires
        0 <= i < s.len(),
    ensures
        plain_lines(s).len() == s.len(),
        plain_lines(s)[i].spans == seq![span(s[i], Style::plain())],
    decreases s.len(),
{
    let init = s.drop_last();
    if init.len() > 0 {
        lemma_plain_lines(
            init,
            if i < init.len() {
                i
            } else {
                0
            },
        );
    } else {
        assert(plain_lines(init).len() == 0);
    }
}

/// A commit's message reads: the subject, who wrote it and when, an empty line, and
/// the body line by line. Without a body there is nothing below.
pub proof fn law_a_message_reads_from_top_to_bottom(short: Seq<char>, subject: Seq<char>, author: Seq<char>, date: Seq<char>, body: Seq<char>, i: int)
    requires
        0 <= i < lines(body).len(),
    ensures
        ({
            let doc = message_doc(short, subject, author, date, body);
            &&& doc[0].spans.len() == 1 && doc[0].spans[0].content == subject
            &&& doc[1].spans.len() == 1 && doc[1].spans[0].content == short + " · "@ + author + " · "@ + date
            &&& body.len() > 0 ==> {
                &&& doc.len() == 3 + lines(body).len()
                &&& doc[2].spans.len() == 0
                &&& doc[3 + i].spans == seq![span(lines(body)[i], Style::plain())]
            }
            &&& message_doc(short, subject, author, date, Seq::empty()).len() == 2
        }),
{
    lemma_plain_lines(lines(body), i);
}

// ---- the list --------------------------------------------------------------------------

/// The list's header says what is compared and on which branch; in the history, which
/// commits; in a commit, which one; and what it is busy with before all else.
pub proof fn law_the_lists_header_says_what_is_listed(a: App)
    ensures
        a.busy matches Some(what) ==> a.header_words(true) == seq![' '] + what@,
        a.busy is None && a.mode == Mode::Files && a.scope == Scope::Worktree ==> a.header_words(true)
            == " uncommitted · "@ + a.branch_words(),
        a.busy is None && a.mode == Mode::Files ==> a.header_words(false) == seq![' '] + a.scope_words()
            + " · "@ + a.branch_words(),
        a.busy is None && a.mode == Mode::Notes ==> a.header_words(true) == " review notes"@,
        a.busy is None && a.mode == Mode::Log && a.log_branch_only ==> a.header_words(true) == " log · vs "@
            + a.base_text() + " · "@ + a.branch_words(),
        a.busy is None && a.mode == Mode::CommitFiles ==> (a.commit matches Some(c) ==> a.header_words(true)
            == seq![' '] + c.short@ + seq![' '] + c.subject@),
        a.branch matches Some(b) ==> a.branch_words() == b@,
        a.branch is None ==> a.branch_words() == "DETACHED"@,
        a.busy is None && a.mode == Mode::Files && a.scope == Scope::Branch ==> (
        a.branch_commits matches Some(n) ==> a.header_words(true) == a.header_words(false) + " · "@ + decimal(
            n as nat,
        ) + (if n == 1 {
            " commit"@
        } else {
            " commits"@
        })),
{
    reveal_strlit(" ");
    reveal_strlit("");
    reveal_strlit("s");
    reveal_strlit(" · ");
    reveal_strlit("uncommitted");
    reveal_strlit(" uncommitted · ");
    reveal_strlit(" commit");
    reveal_strlit(" commits");
    assert(" "@ =~= seq![' ']);
    assert(" commit"@ + ""@ =~= " commit"@);
    assert(" commit"@ + "s"@ =~= " commits"@);
    assert(" "@ + "uncommitted"@ + " · "@ =~= " uncommitted · "@);
    let b = a.branch_words();
    assert(" "@ + "uncommitted"@ + " · "@ + b + Seq::<char>::empty() =~= " uncommitted · "@ + b);
    let head = " "@ + a.scope_words() + " · "@ + b;
    assert(head + Seq::<char>::empty() =~= head);
    if let Some(n) = a.branch_commits {
        let d = decimal(n as nat);
        assert(head + (" · "@ + d + " commit"@ + "s"@) =~= head + " · "@ + d + (" commit"@ + "s"@));
        assert(head + (" · "@ + d + " commit"@ + ""@) =~= head + " · "@ + d + (" commit"@ + ""@));
    }
}

/// The list's header counts what is listed: commits, notes, or files with their lines.
pub proof fn law_the_lists_header_counts_what_is_listed(a: App)
    ensures
        a.mode == Mode::Log ==> a.header_counts()[0].content == decimal(a.commits@.len()) + " commits "@,
        a.mode == Mode::Notes ==> a.header_counts()[0].content == decimal(a.notes@.len()) + " notes "@,
        a.mode == Mode::Files || a.mode == Mode::CommitFiles ==> {
            let (n, p) = (adds_of(deep(a.entries@)), dels_of(deep(a.entries@)));
            &&& a.header_counts()[0].content == decimal(a.entries@.len()) + " files"@
            &&& n > 0 ==> a.header_counts()[2].content == "+"@ + decimal(n)
            &&& p > 0 ==> a.header_counts()[a.header_counts().len() - 2].content == "−"@ + decimal(p)
            &&& n == 0 && p == 0 ==> a.header_counts().len() == 2
        },
{
}

/// An empty list says why it is empty; one that could not be loaded says that first.
pub proof fn law_an_empty_list_says_why(a: App)
    ensures
        a.empty_lines().len() > 0 && a.empty_lines()[0].spans.len() == 1,
        ({
            let first = a.empty_lines()[0].spans[0].content;
            &&& a.load_error matches Some(e) ==> first == e@ && a.empty_lines().len() == 2
            &&& a.load_error is None && a.mode == Mode::Log ==> first == "no commits"@
            &&& a.load_error is None && a.mode == Mode::CommitFiles ==> first == "empty commit"@
            &&& a.load_error is None && a.mode == Mode::Notes ==> first == "no notes"@
            &&& a.load_error is None && a.mode == Mode::Files && a.scope == Scope::Worktree ==> first
                == "working tree clean — nothing uncommitted"@
            &&& a.load_error is None && a.mode == Mode::Files && a.scope == Scope::Branch ==> first
                == "no changes vs "@ + a.base_text()
        }),
{
}

/// What the list compares with is told by name, and what is not known yet by the word
/// for it.
pub proof fn law_the_comparison_is_told_by_name(a: App, p: PreviewApp, req: crate::preview::ShowReq)
    ensures
        a.scope == Scope::Branch ==> a.scope_words() == "vs "@ + a.base_text(),
        a.scope == Scope::Worktree ==> a.scope_words() == "uncommitted"@,
        req.commit is None && req.scope == Scope::Branch && p.base is None ==> p.scope_words(req) == "vs "@
            + "base"@,
{
}

/// Where the counts are shown the header has room for the whole comparison beside
/// them; where not, it has not.
pub proof fn law_counts_give_way_to_the_comparison(a: App, width: nat)
    requires
        a.busy is None,
        a.mode == Mode::Files,
        crate::wrap::text_cells(a.scope_words()) + 2 <= usize::MAX,
        crate::wrap::spans_cells(a.header_counts()) <= width,
    ensures
        a.counts_dropped(width as int) <==> crate::wrap::spans_cells(a.header_counts())
            + crate::wrap::text_cells(a.scope_words()) + 2 > width,
        a.counts_dropped(width as int) ==> a.header_spans(width as int).len() == 2,
        !a.counts_dropped(width as int) ==> a.header_spans(width as int).skip(2) == a.header_counts(),
{
    if !a.counts_dropped(width as int) {
        assert(a.header_spans(width as int).skip(2) =~= a.header_counts());
    }
}

} // verus!
