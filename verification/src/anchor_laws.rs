//! Where a conversation is found again after its file changed.

use vstd::prelude::*;

use crate::text::{is_blank, is_white, lines, trim_end};
use crate::thread::{
    find_window, fix, kept_lines, marker_free, needle, trimmed_lines, Anchor, AnchorFix,
};

verus! {

/// How many of the first `k` lines of a snippet the file still holds: all but the
/// removed ones.
pub open spec fn staying(ls: Seq<Seq<char>>, k: int) -> int
    decreases k,
{
    if k <= 0 {
        0
    } else {
        staying(ls, k - 1) + if ls[k - 1].len() > 0 && ls[k - 1][0] == '-' {
            0int
        } else {
            1
        }
    }
}

/// Whether a snippet is one that a selection gives: every line with its marker.
pub open spec fn marked(ls: Seq<Seq<char>>) -> bool {
    forall|k: int|
        0 <= k < ls.len() ==> (#[trigger] ls[k]).len() > 0 && (ls[k][0] == '+' || ls[k][0] == ' '
            || ls[k][0] == '-')
}

/// Whether a file holds, from its line `at` on, every line of a snippet that is
/// added or unchanged, in a row, up to whitespace at the ends of lines.
pub open spec fn stands_at(file: Seq<Seq<char>>, ls: Seq<Seq<char>>, at: int) -> bool {
    forall|k: int|
        0 <= k < ls.len() && (#[trigger] ls[k]).len() > 0 && (ls[k][0] == '+' || ls[k][0] == ' ') ==> {
            &&& 0 <= at + staying(ls, k) < file.len()
            &&& trim_end(file[at + staying(ls, k)]) == trim_end(ls[k].skip(1))
        }
}

/// Whether a snippet says anything: an added or unchanged line is not blank.
pub open spec fn says_something(ls: Seq<Seq<char>>) -> bool {
    exists|k: int|
        0 <= k < ls.len() && (#[trigger] ls[k]).len() > 0 && (ls[k][0] == '+' || ls[k][0] == ' ')
            && !is_blank(ls[k].skip(1))
}

proof fn lemma_kept(ls: Seq<Seq<char>>, k: int)
    requires
        0 <= k <= ls.len(),
    ensures
        kept_lines(ls.take(k)).len() == staying(ls, k),
        0 <= staying(ls, k) <= k,
    decreases k,
{
    if k > 0 {
        lemma_kept(ls, k - 1);
        assert(ls.take(k).drop_last() =~= ls.take(k - 1));
        assert(ls.take(k).last() == ls[k - 1]);
    }
}

proof fn lemma_kept_line(ls: Seq<Seq<char>>, k: int, n: int)
    requires
        0 <= k < n <= ls.len(),
        !(ls[k].len() > 0 && ls[k][0] == '-'),
    ensures
        staying(ls, k) < kept_lines(ls.take(n)).len(),
        kept_lines(ls.take(n))[staying(ls, k)] == trim_end(marker_free(ls[k])),
    decreases n,
{
    lemma_kept(ls, n);
    lemma_kept(ls, n - 1);
    lemma_kept(ls, k);
    assert(ls.take(n).drop_last() =~= ls.take(n - 1));
    assert(ls.take(n).last() == ls[n - 1]);
    if k < n - 1 {
        lemma_kept_line(ls, k, n - 1);
    }
}

proof fn lemma_not_empty(s: Seq<char>)
    requires
        !is_blank(s),
    ensures
        trim_end(s).len() > 0,
    decreases s.len(),
{
    if s.len() > 0 && is_white(s.last()) {
        let init = s.drop_last();
        let i = choose|i: int| 0 <= i < s.len() && !is_white(#[trigger] s[i]);
        assert(init[i] == s[i]);
        lemma_not_empty(init);
    }
}

/// A snippet that has moved stands there: from the line that is given on, the file
/// holds every added line and every unchanged line of it, in order and in a row,
/// up to whitespace at the ends of lines.
pub proof fn law_a_moved_snippet_stands_there(anchor: Anchor, blob: Option<Seq<char>>, file: Seq<Seq<char>>, n: u32)
    requires
        file.len() <= u32::MAX,
        fix(anchor, blob, file) == AnchorFix::Moved(n),
    ensures
        1 <= n <= file.len(),
        stands_at(file, lines(anchor.snippet@), n - 1),
{
    let ls = lines(anchor.snippet@);
    let what = needle(ls);
    let hay = trimmed_lines(file);
    crate::thread::lemma_find_window(hay, what, 0);
    let at = find_window(hay, what, 0)->0 as int;
    assert(n == at + 1);
    assert(ls.take(ls.len() as int) =~= ls);
    assert(what == kept_lines(ls));
    assert forall|k: int|
        0 <= k < ls.len() && (#[trigger] ls[k]).len() > 0 && (ls[k][0] == '+' || ls[k][0] == ' ') implies {
        &&& 0 <= at + staying(ls, k) < file.len()
        &&& trim_end(file[at + staying(ls, k)]) == trim_end(ls[k].skip(1))
    } by {
        lemma_kept_line(ls, k, ls.len() as int);
        lemma_kept(ls, k);
        let j = staying(ls, k);
        assert(hay.subrange(at, at + what.len())[j] == what[j]);
        assert(hay[at + j] == trim_end(file[at + j]));
        assert(marker_free(ls[k]) == ls[k].skip(1));
    }
}

/// A snippet that stands in the file is found, at the first place where it does:
/// the conversation is not lost. It does not matter which of its lines are added
/// and which unchanged.
pub proof fn law_a_standing_snippet_is_found(anchor: Anchor, blob: Option<Seq<char>>, file: Seq<Seq<char>>, at: int)
    requires
        file.len() <= u32::MAX,
        anchor.end > 0,
        !(anchor.blob is Some && blob is Some && anchor.blob->0@ == blob->0),
        marked(lines(anchor.snippet@)),
        says_something(lines(anchor.snippet@)),
        0 <= at <= file.len(),
        stands_at(file, lines(anchor.snippet@), at),
    ensures
        fix(anchor, blob, file) matches AnchorFix::Moved(n) && n <= at + 1,
{
    let ls = lines(anchor.snippet@);
    lemma_needle_stands(file, ls, at);
    let what = needle(ls);
    let hay = trimmed_lines(file);
    crate::thread::lemma_find_window(hay, what, 0);
    assert(hay.subrange(at, at + what.len()) == what);
}

proof fn lemma_needle_is_kept(ls: Seq<Seq<char>>)
    requires
        says_something(ls),
    ensures
        needle(ls) == kept_lines(ls),
        kept_lines(ls).len() > 0,
{
    assert(ls.take(ls.len() as int) =~= ls);
    let s = choose|k: int|
        0 <= k < ls.len() && (#[trigger] ls[k]).len() > 0 && (ls[k][0] == '+' || ls[k][0] == ' ')
            && !is_blank(ls[k].skip(1));
    lemma_kept_line(ls, s, ls.len() as int);
    lemma_kept(ls, s);
    assert(marker_free(ls[s]) == ls[s].skip(1));
    lemma_not_empty(ls[s].skip(1));
    assert(kept_lines(ls)[staying(ls, s)].len() > 0);
}

proof fn lemma_needle_stands(file: Seq<Seq<char>>, ls: Seq<Seq<char>>, at: int)
    requires
        marked(ls),
        says_something(ls),
        0 <= at <= file.len(),
        stands_at(file, ls, at),
    ensures
        needle(ls).len() > 0,
        at + needle(ls).len() <= file.len(),
        trimmed_lines(file).subrange(at, at + needle(ls).len()) == needle(ls),
{
    lemma_needle_is_kept(ls);
    let kept = kept_lines(ls);
    let hay = trimmed_lines(file);
    assert(ls.take(ls.len() as int) =~= ls);
    lemma_kept(ls, ls.len() as int);
    assert forall|j: int| 0 <= j < kept.len() implies at + j < file.len() && hay[at + j] == #[trigger] kept[j] by {
        let k = lemma_some_line(ls, ls.len() as int, j);
        lemma_kept_line(ls, k, ls.len() as int);
        assert(ls[k].len() > 0);
        assert(marker_free(ls[k]) == ls[k].skip(1));
    }
    assert(at + (kept.len() - 1) < file.len()) by {
        assert(kept[kept.len() - 1] == hay[at + (kept.len() - 1)]);
    }
    assert(hay.subrange(at, at + kept.len()) =~= kept);
}

/// Every kept line is one of the snippet's.
proof fn lemma_some_line(ls: Seq<Seq<char>>, n: int, j: int) -> (k: int)
    requires
        0 <= n <= ls.len(),
        0 <= j < staying(ls, n),
    ensures
        0 <= k < n,
        staying(ls, k) == j,
        !(ls[k].len() > 0 && ls[k][0] == '-'),
    decreases n,
{
    lemma_kept(ls, n - 1);
    if j < staying(ls, n - 1) {
        lemma_some_line(ls, n - 1, j)
    } else {
        n - 1
    }
}

/// A conversation is where it was as long as its file is the very same, or where
/// it is about the whole file; in a changed file it is found by its snippet alone.
pub proof fn law_only_a_changed_file_is_searched(anchor: Anchor, blob: Option<Seq<char>>, file: Seq<Seq<char>>)
    ensures
        fix(anchor, blob, file) == AnchorFix::Exact <==> anchor.end == 0 || (anchor.blob is Some && blob
            == Some(anchor.blob->0@)),
{
}

} // verus!
