//! How the rows of the list read.

use vstd::prelude::*;

use crate::git::{ChangeKind, CommitV, EntryV};
use crate::list::App;
use crate::list_draw::{
    base_name, change_mark, commit_spans, entry_spans, note_place_text, row_name, stat_spans,
    stat_text,
};
use crate::list_footer::{help_place, hint_cells, keyed_hints, taken, HintV};
use crate::list_ui::{adds_of, colored, dels_of, label_text, last_place, ref_name, ref_names};
use crate::path::steps;
use crate::style::{bad, ok, span, spans_text, SpanV};
use crate::text::{decimal, has_prefix, join, occurs, occurs_at, split};
use crate::text_laws::{law_a_separator_closes_a_field, law_joining_keeps_the_parts};

verus! {

// ---- files ----------------------------------------------------------------------------

/// Every kind of change has a letter of its own; what is new is green, and what is
/// gone or in conflict is red.
pub proof fn law_changes_have_their_marks(a: ChangeKind, b: ChangeKind)
    ensures
        change_mark(a).0 == change_mark(b).0 ==> a == b,
        change_mark(ChangeKind::Added).1 == ok() && change_mark(ChangeKind::Untracked).1 == ok(),
        change_mark(ChangeKind::Deleted).1 == bad() && change_mark(ChangeKind::Conflicted).1 == bad(),
        change_mark(ChangeKind::Modified).0 == seq!['M'],
        change_mark(ChangeKind::Added).0 == seq!['A'],
        change_mark(ChangeKind::Deleted).0 == seq!['D'],
        change_mark(ChangeKind::Renamed).0 == seq!['R'],
        change_mark(ChangeKind::Untracked).0 == seq!['U'],
        change_mark(ChangeKind::Conflicted).0 == seq!['!'],
{
    reveal_strlit("M");
    reveal_strlit("A");
    reveal_strlit("D");
    reveal_strlit("R");
    reveal_strlit("U");
    reveal_strlit("!");
    assert("M"@ =~= seq!['M']);
    assert("A"@ =~= seq!['A']);
    assert("D"@ =~= seq!['D']);
    assert("R"@ =~= seq!['R']);
    assert("U"@ =~= seq!['U']);
    assert("!"@ =~= seq!['!']);
    assert(seq!['M'][0] == 'M' && seq!['A'][0] == 'A' && seq!['D'][0] == 'D' && seq!['R'][0] == 'R'
        && seq!['U'][0] == 'U' && seq!['!'][0] == '!');
}

/// The counts of a file read as lines added, then lines removed; a side without
/// any is left out, unless both are. A file that is not text has no counts.
pub proof fn law_counts_read_as_they_are(a: u32, d: u32)
    ensures
        a > 0 && d > 0 ==> stat_text(Some(a), Some(d)) == seq!['+'] + decimal(a as nat) + seq![' ', '−']
            + decimal(d as nat),
        d == 0 ==> stat_text(Some(a), Some(d)) == seq!['+'] + decimal(a as nat),
        a == 0 && d > 0 ==> stat_text(Some(a), Some(d)) == seq!['−'] + decimal(d as nat),
        stat_text(None, Some(d)) == "bin"@ && stat_text(Some(a), None) == "bin"@ && stat_text(None, None)
            == "bin"@,
        spans_text(stat_spans(Some(a), Some(d))) == stat_text(Some(a), Some(d)),
        forall|i: int|
            0 <= i < stat_spans(Some(a), Some(d)).len() ==> {
                let s = #[trigger] stat_spans(Some(a), Some(d))[i];
                &&& s.content.len() > 0 && s.content[0] == '+' ==> s.style == colored(ok())
                &&& s.content.len() > 0 && s.content[0] == '−' ==> s.style == colored(bad())
            },
{
    reveal_strlit("+");
    reveal_strlit("−");
    reveal_strlit(" ");
    assert("+"@ =~= seq!['+']);
    assert("−"@ =~= seq!['−']);
    assert(" "@ =~= seq![' ']);
    let t = stat_text(Some(a), Some(d));
    if a > 0 && d > 0 {
        assert(t =~= seq!['+'] + decimal(a as nat) + seq![' ', '−'] + decimal(d as nat));
    }
    let s = stat_spans(Some(a), Some(d));
    reveal_with_fuel(spans_text, 4);
    if s.len() == 1 {
        assert(s.drop_last() =~= Seq::<SpanV>::empty());
        assert(spans_text(s) =~= t);
    } else {
        assert(s.drop_last().drop_last() =~= seq![s[0]]);
        assert(seq![s[0]].drop_last() =~= Seq::<SpanV>::empty());
        assert(spans_text(s) =~= t);
    }
}

/// The header adds up the lines of all files, each side by itself.
pub proof fn law_the_header_adds_up(entries: Seq<EntryV>, e: EntryV)
    ensures
        adds_of(Seq::empty()) == 0 && dels_of(Seq::empty()) == 0,
        e.adds matches Some(n) ==> adds_of(entries.push(e)) == adds_of(entries) + n,
        e.dels matches Some(n) ==> dels_of(entries.push(e)) == dels_of(entries) + n,
        e.adds is None ==> adds_of(entries.push(e)) == adds_of(entries),
        e.dels is None ==> dels_of(entries.push(e)) == dels_of(entries),
{
    assert(entries.push(e).drop_last() =~= entries);
}

proof fn lemma_no_slash(p: Seq<char>, name: Seq<char>)
    requires
        name.len() > 0,
        !name.contains('/'),
        name != "."@,
    ensures
        steps(split(p.push('/') + name, '/')).len() > 0,
        steps(split(p.push('/') + name, '/')).last() == name,
        steps(split(name, '/')) == seq![name],
    decreases p.len(),
{
    law_a_separator_closes_a_field(name, name, '/');
    let one = seq![name];
    assert(one.drop_last() =~= Seq::<Seq<char>>::empty());
    assert(one.last() == name);
    reveal_with_fuel(steps, 2);
    assert(steps(one) =~= seq![name]);
    let k = crate::text::index_of_char(p, '/');
    crate::text::lemma_index_of_char(p, '/');
    if k < p.len() {
        let (a, rest) = (p.take(k), p.skip(k + 1));
        assert(!a.contains('/')) by {
            if a.contains('/') {
                let i = a.index_of('/');
                assert(p[i] == '/');
            }
        }
        lemma_no_slash(rest, name);
        law_a_separator_closes_a_field(a, rest.push('/') + name, '/');
        assert(p.push('/') + name =~= a.push('/') + (rest.push('/') + name));
        lemma_steps_last(seq![a], split(rest.push('/') + name, '/'));
    } else {
        assert(!p.contains('/')) by {
            if p.contains('/') {
                let i = p.index_of('/');
                assert(p[i] == '/');
            }
        }
        law_a_separator_closes_a_field(p, name, '/');
        lemma_steps_last(seq![p], one);
    }
}

proof fn lemma_steps_last(a: Seq<Seq<char>>, b: Seq<Seq<char>>)
    requires
        steps(b).len() > 0,
    ensures
        steps(a + b).len() > 0,
        steps(a + b).last() == steps(b).last(),
    decreases b.len(),
{
    assert((a + b).drop_last() =~= a + b.drop_last());
    assert((a + b).last() == b.last());
    if b.last().len() == 0 || b.last() == "."@ {
        lemma_steps_last(a, b.drop_last());
    }
}

/// A file's row shows the last part of its path; one that was renamed shows the
/// old name, an arrow and the new one.
pub proof fn law_a_row_shows_the_files_name(dir: Seq<char>, name: Seq<char>, e: EntryV)
    requires
        name.len() > 0,
        !name.contains('/'),
        name != "."@,
        name != ".."@,
    ensures
        base_name(dir.push('/') + name) == name,
        base_name(name) == name,
        e.orig_path is None ==> row_name(e) == base_name(e.path),
        e.orig_path matches Some(o) ==> row_name(e) == base_name(o) + " → "@ + base_name(e.path),
{
    lemma_no_slash(dir, name);
    assert(seq![name].last() == name);
}

/// A file's row ends in its counts, and shows its mark before its name.
pub proof fn law_a_row_holds_mark_name_and_counts(e: EntryV, width: int, grouped: bool, depth: int)
    ensures
        ({
            let row = entry_spans(e, width, grouped, depth);
            let counts = stat_spans(e.adds, e.dels);
            &&& row.len() == 4 + counts.len()
            &&& row.skip(4) == counts
            &&& row[1].content == change_mark(e.kind).0.push(' ')
            &&& row[1].style == colored(change_mark(e.kind).1)
            &&& crate::wrap::text_cells(row_name(e)) <= 1 ==> row[2].content == row_name(e)
        }),
{
    reveal_strlit(" ");
    assert(" "@ =~= seq![' ']);
    let row = entry_spans(e, width, grouped, depth);
    let letter = change_mark(e.kind).0;
    assert(letter + " "@ =~= letter.push(' '));
    assert(row.skip(4) =~= stat_spans(e.adds, e.dels));
}

// ---- commits --------------------------------------------------------------------------

proof fn lemma_last_place(s: Seq<char>, t: Seq<char>, i: int)
    ensures
        -1 <= last_place(s, t, i) <= i || i < 0,
        last_place(s, t, i) >= 0 ==> occurs_at(s, t, last_place(s, t, i)),
        forall|k: int| last_place(s, t, i) < k <= i ==> !#[trigger] occurs_at(s, t, k),
    decreases i + 1,
{
    if i >= 0 && !occurs_at(s, t, i) {
        lemma_last_place(s, t, i - 1);
    }
}

/// A ref is shown by its branch: without `origin/` before it, and where it is what
/// HEAD points at, by what stands behind the arrow. No other part of a name is
/// taken off.
pub proof fn law_a_ref_is_shown_by_its_branch(name: Seq<char>, before: Seq<char>)
    requires
        !occurs(name, " -> "@),
    ensures
        ref_name("origin/"@ + name) == name || occurs("origin/"@ + name, " -> "@),
        !has_prefix(name, "origin/"@) ==> ref_name(name) == name,
        !has_prefix(name, "origin/"@) && name.len() > 0 && name[0] != ' ' && name[0] != '-' && name[0]
            != '>' ==> ref_name(before + " -> "@ + name) == name,
{
    let arrow = " -> "@;
    reveal_strlit(" -> ");
    assert(arrow.len() == 4 && arrow[0] == ' ' && arrow[1] == '-' && arrow[2] == '>' && arrow[3] == ' ');
    lemma_last_place(name, arrow, name.len() as int);
    assert(last_place(name, arrow, name.len() as int) < 0) by {
        if last_place(name, arrow, name.len() as int) >= 0 {
            assert(occurs(name, arrow));
        }
    }
    let full = "origin/"@ + name;
    lemma_last_place(full, arrow, full.len() as int);
    if !occurs(full, arrow) {
        if last_place(full, arrow, full.len() as int) >= 0 {
            assert(occurs(full, arrow));
        }
        assert(full.subrange(0, "origin/"@.len() as int) =~= "origin/"@);
        assert(full.skip("origin/"@.len() as int) =~= name);
    }
    let s = before + arrow + name;
    lemma_last_place(s, arrow, s.len() as int);
    if !has_prefix(name, "origin/"@) && name.len() > 0 && name[0] != ' ' && name[0] != '-' && name[0] != '>' {
        let at = before.len() as int;
        assert(s.subrange(at, at + 4) =~= arrow);
        assert(occurs_at(s, arrow, at));
        let k = last_place(s, arrow, s.len() as int);
        assert(k >= at);
        assert(s.subrange(k, k + 4)[0] == s[k] && s.subrange(k, k + 4)[1] == s[k + 1] && s.subrange(
            k,
            k + 4,
        )[2] == s[k + 2] && s.subrange(k, k + 4)[3] == s[k + 3]);
        if k > at {
            if k >= at + 4 {
                let j = k - at - 4;
                assert(name.subrange(j, j + 4) =~= s.subrange(k, k + 4));
                assert(occurs_at(name, arrow, j));
                assert(occurs(name, arrow));
            } else if k == at + 1 {
                assert(s[k] == arrow[1]);
            } else if k == at + 2 {
                assert(s[k] == arrow[2]);
            } else {
                assert(s[k + 1] == name[0]);
            }
        }
        assert(s.skip(at + 4) =~= name);
    }
}

/// A commit's label names every ref that points at it, each once, in brackets; a
/// commit without one has no label.
pub proof fn law_a_label_names_every_ref(refs: Seq<Seq<char>>, i: int)
    ensures
        refs.len() == 0 ==> label_text(refs).len() == 0,
        0 <= i < refs.len() ==> ref_names(refs).contains(ref_name(refs[i])) && occurs(
            label_text(refs),
            ref_name(refs[i]),
        ),
        refs.len() > 0 ==> label_text(refs)[0] == '[' && label_text(refs).last() == ' ',
        forall|a: int, b: int|
            0 <= a < b < ref_names(refs).len() ==> ref_names(refs)[a] != ref_names(refs)[b],
{
    lemma_ref_names(refs, i);
    reveal_strlit("[");
    reveal_strlit("] ");
    if 0 <= i < refs.len() {
        let n = ref_names(refs);
        let k = n.index_of(ref_name(refs[i]));
        let t = n[k];
        let body = join(n, ", "@);
        law_joining_keeps_the_parts(n, ", "@, k);
        let j = choose|j: int| occurs_at(body, t, j);
        let all = label_text(refs);
        assert(all.subrange(1 + j, 1 + j + t.len()) =~= body.subrange(j, j + t.len()));
        assert(occurs_at(all, t, 1 + j));
    }
}

proof fn lemma_ref_names(refs: Seq<Seq<char>>, i: int)
    ensures
        0 <= i < refs.len() ==> ref_names(refs).contains(ref_name(refs[i])),
        forall|a: int, b: int|
            0 <= a < b < ref_names(refs).len() ==> ref_names(refs)[a] != ref_names(refs)[b],
    decreases refs.len(),
{
    if refs.len() > 0 {
        let init = refs.drop_last();
        let (s, t) = (ref_names(init), ref_names(refs));
        lemma_ref_names(init, i);
        if 0 <= i < init.len() {
            assert(init[i] == refs[i]);
            let k = s.index_of(ref_name(refs[i]));
            assert(t[k] == s[k]);
        } else if i == init.len() {
            let n = ref_name(refs.last());
            if s.contains(n) {
                assert(t.contains(n));
            } else {
                assert(t[s.len() as int] == n);
            }
        }
        assert forall|a: int, b: int| 0 <= a < b < t.len() implies t[a] != t[b] by {
            if b == s.len() && !s.contains(ref_name(refs.last())) {
                assert(t[a] == s[a]);
                if t[a] == t[b] {
                    assert(s.contains(t[b]));
                }
            } else {
                assert(t[a] == s[a] && t[b] == s[b]);
            }
        }
    }
}

/// A commit's row reads: its short name, its label, its subject as far as there is
/// room, and its date at the end.
pub proof fn law_a_commits_row_reads_in_order(c: CommitV, width: int)
    ensures
        ({
            let row = commit_spans(c, width);
            let n = row.len();
            &&& n == if label_text(c.refs).len() > 0 {
                5nat
            } else {
                4nat
            }
            &&& row[0].content == seq![' '] + c.short + seq![' ']
            &&& label_text(c.refs).len() > 0 ==> row[1].content == label_text(c.refs)
            &&& row[n - 1].content == c.date + seq![' ']
            &&& exists|max: nat| row[n - 3].content == crate::elide::cut_tail(c.subject, max)
        }),
{
    reveal_strlit(" ");
    assert(" "@ =~= seq![' ']);
}

// ---- notes ----------------------------------------------------------------------------

/// A note's row says which lines it is on: one line, several, or the whole file.
pub proof fn law_a_note_says_its_lines(start: u32, end: u32)
    ensures
        end == 0 ==> note_place_text(start, end) == "whole file"@,
        end > 0 && start == end ==> note_place_text(start, end) == "line "@ + decimal(end as nat),
        end > 0 && start != end ==> note_place_text(start, end) == "lines "@ + decimal(start as nat)
            + seq!['-'] + decimal(end as nat),
{
    reveal_strlit("-");
    assert("-"@ =~= seq!['-']);
}

// ---- hints ----------------------------------------------------------------------------

/// Only a hint whose action has no key is left out.
pub proof fn law_hints_without_a_key_are_left_out(a: Seq<HintV>, b: Seq<HintV>, h: HintV)
    ensures
        keyed_hints(a + b) == keyed_hints(a) + keyed_hints(b),
        h.key.len() > 0 ==> keyed_hints(seq![h]) == seq![h],
        h.key.len() == 0 ==> keyed_hints(seq![h]).len() == 0,
    decreases b.len(),
{
    let one = seq![h];
    assert(one.drop_last() =~= Seq::<HintV>::empty());
    assert(one.last() == h);
    reveal_with_fuel(keyed_hints, 2);
    if h.key.len() > 0 {
        assert(keyed_hints(one) =~= seq![h]);
    }
    if b.len() > 0 {
        law_hints_without_a_key_are_left_out(a, b.drop_last(), h);
        assert((a + b).drop_last() =~= a + b.drop_last());
        assert(keyed_hints(a + b) =~= keyed_hints(a) + keyed_hints(b));
    } else {
        assert(a + b =~= a);
        assert(keyed_hints(a) + keyed_hints(b) =~= keyed_hints(a));
    }
}

/// The cells that the first `n` hints take, with a dot between two.
pub open spec fn all_cells(s: Seq<HintV>, n: int) -> int
    decreases n,
{
    if n <= 0 {
        0
    } else {
        all_cells(s, n - 1) + hint_cells(s[n - 1]) + if n == 1 {
            0int
        } else {
            2
        }
    }
}

proof fn lemma_cells_grow(s: Seq<HintV>, a: int, b: int)
    requires
        0 <= a < b <= s.len(),
    ensures
        all_cells(s, a) + hint_cells(s[b - 1]) + (if a == 0 {
            0int
        } else {
            2
        }) <= all_cells(s, b),
        all_cells(s, a) <= all_cells(s, b),
        0 <= all_cells(s, a),
    decreases b,
{
    if a < b - 1 {
        lemma_cells_grow(s, a, b - 1);
    } else if a > 0 {
        lemma_cells_grow(s, a - 1, a);
    }
}

/// Where there is room for all hints, all are shown, in order.
pub proof fn law_all_hints_are_shown_where_they_fit(s: Seq<HintV>, width: nat, n: int)
    requires
        0 <= n <= s.len(),
        all_cells(s, s.len() as int) <= width < usize::MAX,
    ensures
        taken(s, width, n).kept == s.take(n),
        !taken(s, width, n).cut,
        taken(s, width, n).used == all_cells(s, n),
    decreases n,
{
    if n > 0 {
        law_all_hints_are_shown_where_they_fit(s, width, n - 1);
        let t = taken(s, width, n - 1);
        let help = help_place(s, 0);
        lemma_cells_grow(s, n - 1, n);
        if n < s.len() {
            lemma_cells_grow(s, n, s.len() as int);
        }
        lemma_help_in(s, 0);
        if help < s.len() && help > n - 1 {
            lemma_cells_grow(s, n, help + 1);
            if help + 1 < s.len() {
                lemma_cells_grow(s, help + 1, s.len() as int);
            }
        }
        assert(s.take(n) =~= s.take(n - 1).push(s[n - 1]));
        assert(t.kept.len() == n - 1);
    } else {
        assert(s.take(0) =~= Seq::<HintV>::empty());
    }
}

proof fn lemma_help_in(s: Seq<HintV>, i: int)
    requires
        0 <= i <= s.len(),
    ensures
        i <= help_place(s, i) <= s.len(),
    decreases s.len() - i,
{
    if i < s.len() && s[i].label != "help"@ {
        lemma_help_in(s, i + 1);
    }
}

/// A message stands in the footer for three seconds; then the keys are back.
pub proof fn law_a_message_stays_a_while(a: App, width: nat)
    ensures
        a.status_msg matches Some(m) ==> (a.now - m.1 < 3000 ==> a.footer_line(width).spans == seq![
            span(seq![' '] + m.0@, colored(crate::style::accent())),
        ]),
        a.status_msg matches Some(m) ==> (a.now - m.1 >= 3000 ==> a.footer_line(width).spans
            == crate::list_footer::hint_row(a.hints(), width)),
        a.status_msg is None ==> a.footer_line(width).spans == crate::list_footer::hint_row(
            a.hints(),
            width,
        ),
{
    reveal_strlit(" ");
    assert(" "@ =~= seq![' ']);
}

} // verus!
