//! The messages that the two panes exchange, and the one-line form of a note.

use vstd::prelude::*;

use crate::git::{ChangeKind, Scope};
use crate::text::{
    deep, group_deep, index_of_char, is_white, join, join_of, lemma_index_of_char, lines, lines_of,
    strip_cr, trim_end, trimmed_end,
};
use crate::thread::{Author, ThreadState};

verus! {

/// What the list pane tells the preview pane.
#[derive(Debug)]
pub enum ToPreview {
    /// Render the diff of this entry.
    Show {
        file: String,
        orig_path: Option<String>,
        scope: Scope,
        cached: bool,
        kind: ChangeKind,
        /// History view: this commit's change to the file.
        commit: Option<String>,
    },
    /// Scroll by `delta` lines; `i32::MIN` and `i32::MAX` are home and end.
    Scroll { delta: i32 },
    /// Half a page or a full page, by the preview's own height.
    Page { down: bool, full: bool },
    /// Run the editor on a file.
    Edit { file: String },
    /// Run a git command in the preview pane.
    GitInPane { argv: Vec<String> },
    /// Nothing is selected any more.
    Clear,
    /// Show this diff, then open the composer on it.
    ComposeNote { show: Box<ToPreview> },
    /// Reopen the composer on a stored note.
    ComposeEditNote { id: u64 },
    /// Deliver the pending notes.
    SendNotes,
    /// Show a note's file and scroll to the note.
    FocusNote { id: u64 },
    DeleteNote { id: u64 },
    /// Show a commit's message in full.
    ShowCommitMessage { short: String, subject: String, author: String, date: String, body: String },
    Quit,
}

/// Wire protocol generation, compared by the list on `Ready`: the notes of a pane
/// of another generation are not read.
pub const PROTO: u32 = 1;

/// What the preview pane tells the list pane.
#[derive(Debug, Clone)]
pub enum ToList {
    Ready { proto: u32 },
    EditDone { file: String },
    GitDone { ok: bool },
    /// Every note, after a change.
    Notes { notes: Vec<NoteMeta> },
    ShowNotesView,
    EditRequest,
}

/// A review thread as the list pane sees it.
#[derive(Debug, Clone)]
pub struct NoteMeta {
    pub id: u64,
    pub file: String,
    pub start: u32,
    pub end: u32,
    pub text: String,
    /// Whether the thread was written against the staged side.
    pub cached: bool,
    /// How many turns the conversation holds.
    pub turns: u32,
    pub state: ThreadState,
    /// Who spoke last.
    pub last_author: Author,
}

// ---- one-line notes -----------------------------------------------------------

/// The lines that still hold something once trailing whitespace is gone.
pub open spec fn kept_lines(ls: Seq<Seq<char>>) -> Seq<Seq<char>>
    decreases ls.len(),
{
    if ls.len() == 0 {
        Seq::empty()
    } else {
        let init = kept_lines(ls.drop_last());
        if trim_end(ls.last()).len() == 0 {
            init
        } else {
            init.push(trim_end(ls.last()))
        }
    }
}

/// A note on one line: its non-empty lines, with a visible marker between.
pub open spec fn one_line_text(text: Seq<char>) -> Seq<char> {
    join(kept_lines(lines(text)), " \u{23ce} "@)
}

proof fn lemma_trim_end_prefix(s: Seq<char>)
    ensures
        trim_end(s).len() <= s.len(),
        forall|i: int| 0 <= i < trim_end(s).len() ==> trim_end(s)[i] == s[i],
    decreases s.len(),
{
    if s.len() > 0 && is_white(s.last()) {
        lemma_trim_end_prefix(s.drop_last());
        assert forall|i: int| 0 <= i < trim_end(s).len() implies trim_end(s)[i] == s[i] by {
            assert(trim_end(s.drop_last())[i] == s.drop_last()[i]);
        }
    }
}

proof fn lemma_lines_no_newline(s: Seq<char>, n: int)
    requires
        0 <= n < lines(s).len(),
    ensures
        !lines(s)[n].contains('\n'),
    decreases s.len(),
{
    lemma_index_of_char(s, '\n');
    let k = index_of_char(s, '\n');
    if k < s.len() {
        if n == 0 {
            assert(!s.take(k).contains('\n'));
            assert(lines(s)[0] == strip_cr(s.take(k)));
            assert forall|i: int| 0 <= i < lines(s)[0].len() implies lines(s)[0][i] != '\n' by {
                assert(lines(s)[0][i] == s[i]);
            }
        } else {
            lemma_lines_no_newline(s.skip(k + 1), n - 1);
            assert(lines(s)[n] == lines(s.skip(k + 1))[n - 1]);
        }
    } else {
        assert(lines(s)[n] == s);
    }
}

proof fn lemma_kept_no_newline(ls: Seq<Seq<char>>)
    requires
        forall|n: int| 0 <= n < ls.len() ==> !(#[trigger] ls[n]).contains('\n'),
    ensures
        forall|n: int| 0 <= n < kept_lines(ls).len() ==> !(#[trigger] kept_lines(ls)[n]).contains('\n'),
    decreases ls.len(),
{
    if ls.len() > 0 {
        lemma_trim_end_prefix(ls.last());
        assert(!ls[ls.len() - 1].contains('\n'));
        assert(!trim_end(ls.last()).contains('\n')) by {
            assert forall|i: int| 0 <= i < trim_end(ls.last()).len() implies trim_end(ls.last())[i] != '\n' by {
                assert(ls.last()[i] != '\n');
            }
        }
        assert forall|n: int| 0 <= n < ls.drop_last().len() implies !(#[trigger] ls.drop_last()[n]).contains('\n') by {
            assert(ls.drop_last()[n] == ls[n]);
        }
        lemma_kept_no_newline(ls.drop_last());
        assert forall|n: int| 0 <= n < kept_lines(ls).len() implies !(#[trigger] kept_lines(ls)[n]).contains('\n') by {
            if n < kept_lines(ls.drop_last()).len() {
                assert(kept_lines(ls)[n] == kept_lines(ls.drop_last())[n]);
            }
        }
    }
}

proof fn lemma_join_no_newline(parts: Seq<Seq<char>>, sep: Seq<char>)
    requires
        forall|n: int| 0 <= n < parts.len() ==> !(#[trigger] parts[n]).contains('\n'),
        !sep.contains('\n'),
    ensures
        !join(parts, sep).contains('\n'),
    decreases parts.len(),
{
    if parts.len() > 1 {
        lemma_join_no_newline(parts.drop_last(), sep);
        let j = join(parts.drop_last(), sep);
        let last = parts[parts.len() - 1];
        assert(!last.contains('\n'));
        assert forall|i: int| 0 <= i < join(parts, sep).len() implies join(parts, sep)[i] != '\n' by {
            if i < j.len() {
                assert(j[i] != '\n');
            } else if i < j.len() + sep.len() {
                assert(sep[i - j.len()] != '\n');
            } else {
                assert(last[i - j.len() - sep.len()] != '\n');
            }
        }
    } else if parts.len() == 1 {
        assert(!parts[0].contains('\n'));
    }
}

/// However many lines a note has, its one-line form holds no line break.
pub proof fn law_one_line_is_one_line(text: Seq<char>)
    ensures
        !one_line_text(text).contains('\n'),
{
    assert forall|n: int| 0 <= n < lines(text).len() implies !(#[trigger] lines(text)[n]).contains('\n') by {
        lemma_lines_no_newline(text, n);
    }
    lemma_kept_no_newline(lines(text));
    reveal_strlit(" \u{23ce} ");
    lemma_join_no_newline(kept_lines(lines(text)), " \u{23ce} "@);
}

/// Collapse a note into one display line.
pub fn one_line(text: &str) -> (r: String)
    ensures
        r@ == one_line_text(text@),
{
    broadcast use group_deep;

    let ls: Vec<String> = lines_of(text);
    let ghost all = deep(ls@);
    let mut kept: Vec<String> = Vec::new();
    let mut i: usize = 0;
    while i < ls.len()
        invariant
            i <= ls@.len(),
            all == deep(ls@),
            deep(kept@) == kept_lines(all.take(i as int)),
        decreases ls@.len() - i,
    {
        assert(all.take(i + 1).drop_last() =~= all.take(i as int));
        assert(all[i as int] == ls@[i as int]@);
        let t: String = trimmed_end(ls[i].as_str());
        if !t.as_str().is_empty() {
            kept.push(t);
        }
        i += 1;
    }
    assert(all.take(all.len() as int) =~= all);
    join_of(&kept, " \u{23ce} ")
}

} // verus!
