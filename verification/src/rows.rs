//! The rows of a diff: lines with their numbers, and folds of unchanged lines.

use vstd::prelude::*;

use crate::emphasis::{alike, new_emphasis, old_emphasis, word_emphasis, CharRange, MIN_SIMILARITY};
use crate::style::Rgb;
use crate::text::{deep, group_deep};

verus! {

/// A run of highlighted text.
#[derive(Debug, PartialEq, Eq)]
pub struct Run {
    pub text: String,
    pub color: Rgb,
}

#[verifier::ext_equal]
pub struct RunV {
    pub text: Seq<char>,
    pub color: Rgb,
}

impl DeepView for Run {
    type V = RunV;

    open spec fn deep_view(&self) -> RunV {
        RunV { text: self.text@, color: self.color }
    }
}

#[derive(Debug, Clone, Copy, PartialEq, Eq, Structural)]
pub enum LineKind {
    Context,
    Deletion,
    Insertion,
}

/// One line of a diff, with its numbers on the sides it is on.
#[derive(Debug, PartialEq, Eq)]
pub struct CodeLine {
    pub kind: LineKind,
    pub old_no: Option<u32>,
    pub new_no: Option<u32>,
    pub runs: Vec<Run>,
    pub emphasis: Vec<CharRange>,
}

#[verifier::ext_equal]
pub struct CodeV {
    pub kind: LineKind,
    pub old_no: Option<u32>,
    pub new_no: Option<u32>,
    pub runs: Seq<RunV>,
    pub emphasis: Seq<CharRange>,
}

impl DeepView for CodeLine {
    type V = CodeV;

    open spec fn deep_view(&self) -> CodeV {
        CodeV {
            kind: self.kind,
            old_no: self.old_no,
            new_no: self.new_no,
            runs: deep(self.runs@),
            emphasis: self.emphasis@,
        }
    }
}

#[derive(Debug, PartialEq, Eq)]
pub enum Row {
    Code(CodeLine),
    /// Unchanged lines that are not shown.
    Fold(Vec<CodeLine>),
}

#[verifier::ext_equal]
pub enum RowV {
    Code(CodeV),
    Fold(Seq<CodeV>),
}

impl DeepView for Row {
    type V = RowV;

    open spec fn deep_view(&self) -> RowV {
        match self {
            Row::Code(l) => RowV::Code(l.deep_view()),
            Row::Fold(v) => RowV::Fold(deep(v@)),
        }
    }
}

/// The characters of a row of runs.
pub open spec fn runs_text(runs: Seq<RunV>) -> Seq<char>
    decreases runs.len(),
{
    if runs.len() == 0 {
        Seq::empty()
    } else {
        runs_text(runs.drop_last()) + runs.last().text
    }
}

impl CodeV {
    pub open spec fn text(self) -> Seq<char> {
        runs_text(self.runs)
    }

    /// The line without its emphasis.
    pub open spec fn bare(self) -> CodeV {
        CodeV { emphasis: Seq::empty(), ..self }
    }
}

pub fn copy_runs(runs: &Vec<Run>) -> (r: Vec<Run>)
    ensures
        deep(r@) == deep(runs@),
{
    broadcast use group_deep;

    let mut out: Vec<Run> = Vec::new();
    let mut i: usize = 0;
    while i < runs.len()
        invariant
            i <= runs@.len(),
            deep(out@) == deep(runs@).take(i as int),
        decreases runs@.len() - i,
    {
        out.push(Run { text: runs[i].text.clone(), color: runs[i].color });
        assert(deep(runs@).take(i + 1) =~= deep(runs@).take(i as int).push(
            runs@[i as int].deep_view(),
        ));
        i += 1;
    }
    out
}

fn copy_ranges(v: &Vec<CharRange>) -> (r: Vec<CharRange>)
    ensures
        r@ == v@,
{
    let mut out: Vec<CharRange> = Vec::new();
    let mut i: usize = 0;
    while i < v.len()
        invariant
            i <= v@.len(),
            out@ == v@.take(i as int),
        decreases v@.len() - i,
    {
        out.push(v[i]);
        assert(v@.take(i + 1) =~= v@.take(i as int).push(v@[i as int]));
        i += 1;
    }
    assert(v@.take(v@.len() as int) =~= v@);
    out
}

impl CodeLine {
    pub fn copy(&self) -> (r: CodeLine)
        ensures
            r.deep_view() == self.deep_view(),
    {
        CodeLine {
            kind: self.kind,
            old_no: self.old_no,
            new_no: self.new_no,
            runs: copy_runs(&self.runs),
            emphasis: copy_ranges(&self.emphasis),
        }
    }

    /// The text of the line.
    pub fn text(&self) -> (r: String)
        ensures
            r@ == self.deep_view().text(),
    {
        broadcast use group_deep;

        let ghost all = deep(self.runs@);
        let mut s: String = String::new();
        let mut i: usize = 0;
        while i < self.runs.len()
            invariant
                i <= self.runs@.len(),
                all == deep(self.runs@),
                s@ == runs_text(all.take(i as int)),
            decreases self.runs@.len() - i,
        {
            assert(all.take(i + 1).drop_last() =~= all.take(i as int));
            assert(all[i as int] == self.runs@[i as int].deep_view());
            s.push_str(self.runs[i].text.as_str());
            i += 1;
        }
        s
    }
}

// ---- line changes ----------------------------------------------------------------

/// A line of a comparison, by its position on the sides it is on.
#[derive(Debug, Clone, Copy, PartialEq, Eq, Structural)]
pub enum LineChange {
    Equal { old: usize, new: usize },
    Delete { old: usize },
    Insert { new: usize },
}

/// How many of the changes are on the old side.
pub open spec fn old_count(c: Seq<LineChange>) -> nat
    decreases c.len(),
{
    if c.len() == 0 {
        0
    } else {
        old_count(c.drop_last()) + if c.last() is Insert {
            0nat
        } else {
            1nat
        }
    }
}

/// How many of the changes are on the new side.
pub open spec fn new_count(c: Seq<LineChange>) -> nat
    decreases c.len(),
{
    if c.len() == 0 {
        0
    } else {
        new_count(c.drop_last()) + if c.last() is Delete {
            0nat
        } else {
            1nat
        }
    }
}

/// Every change stands at the position that the changes before it lead to: no
/// line is skipped, repeated or out of order.
pub open spec fn consecutive(c: Seq<LineChange>) -> bool
    decreases c.len(),
{
    c.len() == 0 || {
        &&& consecutive(c.drop_last())
        &&& match c.last() {
            LineChange::Equal { old, new } => old == old_count(c.drop_last()) && new == new_count(
                c.drop_last(),
            ),
            LineChange::Delete { old } => old == old_count(c.drop_last()),
            LineChange::Insert { new } => new == new_count(c.drop_last()),
        }
    }
}

/// How far the first line of a text goes, its ending (`\n`, `\r\n` or `\r`)
/// with it.
pub open spec fn first_line_len(s: Seq<char>) -> nat
    decreases s.len(),
{
    if s.len() == 0 {
        0
    } else if s[0] == '\n' {
        1
    } else if s[0] == '\r' {
        if s.len() > 1 && s[1] == '\n' {
            2
        } else {
            1
        }
    } else {
        1 + first_line_len(s.skip(1))
    }
}

/// The lines of a text, each with its ending.
pub open spec fn ended_lines(s: Seq<char>) -> Seq<Seq<char>>
    decreases s.len(),
    via ended_lines_shrink
{
    if s.len() == 0 {
        Seq::empty()
    } else {
        let k = first_line_len(s) as int;
        seq![s.take(k)] + ended_lines(s.skip(k))
    }
}

#[via_fn]
proof fn ended_lines_shrink(s: Seq<char>) {
    lemma_first_line(s);
}

proof fn lemma_first_line(s: Seq<char>)
    ensures
        first_line_len(s) <= s.len(),
        s.len() > 0 ==> first_line_len(s) > 0,
    decreases s.len(),
{
    if s.len() > 0 {
        lemma_first_line(s.skip(1));
    }
}

/// A text has no more lines than characters.
proof fn lemma_line_count(s: Seq<char>)
    ensures
        ended_lines(s).len() <= s.len(),
    decreases s.len(),
{
    if s.len() > 0 {
        lemma_first_line(s);
        lemma_line_count(s.skip(first_line_len(s) as int));
    }
}

/// Whether changes lead from one text to another: they walk through all lines of
/// both, and a line that is kept is the same on both sides.
pub open spec fn compares(c: Seq<LineChange>, old: Seq<char>, new: Seq<char>) -> bool {
    &&& consecutive(c)
    &&& old_count(c) == ended_lines(old).len()
    &&& new_count(c) == ended_lines(new).len()
    &&& forall|i: int|
        0 <= i < c.len() ==> match #[trigger] c[i] {
            LineChange::Equal { old: o, new: n } => ended_lines(old)[o as int] == ended_lines(
                new,
            )[n as int],
            _ => true,
        }
}

/// Whether every line is kept.
pub open spec fn all_kept(c: Seq<LineChange>) -> bool {
    forall|i: int| 0 <= i < c.len() ==> (#[trigger] c[i]) is Equal
}

/// The line changes that `similar` finds between two texts.
pub uninterp spec fn line_diff(old: Seq<char>, new: Seq<char>) -> Seq<LineChange>;

/// `similar::TextDiff::from_lines` and `iter_all_changes`: a function of the
/// two texts. The changes walk through the lines of both texts in order, from
/// the first to the last, and a line that is kept is the same on both sides. Of
/// two texts that are the same every line is kept; which lines are kept of
/// others is left unsaid.
#[verifier::external_body]
fn diff_lines(old: &str, new: &str) -> (r: Vec<LineChange>)
    ensures
        r@ == line_diff(old@, new@),
        compares(r@, old@, new@),
        old@ == new@ ==> all_kept(r@),
{
    similar::TextDiff::from_lines(old, new).iter_all_changes().map(|c| match c.tag() {
        similar::ChangeTag::Equal => LineChange::Equal {
            old: c.old_index().unwrap(),
            new: c.new_index().unwrap(),
        },
        similar::ChangeTag::Delete => LineChange::Delete { old: c.old_index().unwrap() },
        similar::ChangeTag::Insert => LineChange::Insert { new: c.new_index().unwrap() },
    }).collect()
}

/// The runs of a line, none where the highlighter gave none.
pub open spec fn runs_at(lines: Seq<Seq<RunV>>, i: int) -> Seq<RunV> {
    if 0 <= i < lines.len() {
        lines[i]
    } else {
        Seq::empty()
    }
}

/// The models of highlighted lines.
pub open spec fn run_lines(v: Seq<Vec<Run>>) -> Seq<Seq<RunV>> {
    Seq::new(v.len(), |i: int| deep(v[i]@))
}

/// A change as a line: numbered from one, with the runs of the side it is on.
pub open spec fn code_of(c: LineChange, old_lines: Seq<Seq<RunV>>, new_lines: Seq<Seq<RunV>>) -> CodeV {
    match c {
        LineChange::Equal { old, new } => CodeV {
            kind: LineKind::Context,
            old_no: Some((old + 1) as u32),
            new_no: Some((new + 1) as u32),
            runs: runs_at(new_lines, new as int),
            emphasis: Seq::empty(),
        },
        LineChange::Delete { old } => CodeV {
            kind: LineKind::Deletion,
            old_no: Some((old + 1) as u32),
            new_no: None,
            runs: runs_at(old_lines, old as int),
            emphasis: Seq::empty(),
        },
        LineChange::Insert { new } => CodeV {
            kind: LineKind::Insertion,
            old_no: None,
            new_no: Some((new + 1) as u32),
            runs: runs_at(new_lines, new as int),
            emphasis: Seq::empty(),
        },
    }
}

pub open spec fn code_rows(c: Seq<LineChange>, old_lines: Seq<Seq<RunV>>, new_lines: Seq<Seq<RunV>>) -> Seq<CodeV> {
    Seq::new(c.len(), |i: int| code_of(c[i], old_lines, new_lines))
}

proof fn lemma_consecutive_at(c: Seq<LineChange>, i: int)
    requires
        consecutive(c),
        0 <= i < c.len(),
    ensures
        match c[i] {
            LineChange::Equal { old, new } => old < old_count(c) && new < new_count(c) && old
                == old_count(c.take(i)) && new == new_count(c.take(i)),
            LineChange::Delete { old } => old < old_count(c) && old == old_count(c.take(i)),
            LineChange::Insert { new } => new < new_count(c) && new == new_count(c.take(i)),
        },
    decreases c.len(),
{
    if i < c.len() - 1 {
        lemma_consecutive_at(c.drop_last(), i);
        assert(c.drop_last().take(i) =~= c.take(i));
    } else {
        assert(c.take(i) =~= c.drop_last());
    }
}

fn runs_of(lines: &Vec<Vec<Run>>, i: usize) -> (r: Vec<Run>)
    ensures
        deep(r@) == runs_at(run_lines(lines@), i as int),
{
    broadcast use group_deep;

    if i < lines.len() {
        copy_runs(&lines[i])
    } else {
        Vec::new()
    }
}

/// The lines of a comparison, given the changes.
pub fn rows_from(changes: &Vec<LineChange>, old_lines: &Vec<Vec<Run>>, new_lines: &Vec<Vec<Run>>) -> (r: Vec<CodeLine>)
    requires
        consecutive(changes@),
        old_count(changes@) <= u32::MAX,
        new_count(changes@) <= u32::MAX,
    ensures
        deep(r@) == code_rows(changes@, run_lines(old_lines@), run_lines(new_lines@)),
{
    broadcast use group_deep;

    let ghost want = code_rows(changes@, run_lines(old_lines@), run_lines(new_lines@));
    let mut out: Vec<CodeLine> = Vec::new();
    let mut i: usize = 0;
    while i < changes.len()
        invariant
            i <= changes@.len(),
            consecutive(changes@),
            old_count(changes@) <= u32::MAX,
            new_count(changes@) <= u32::MAX,
            want == code_rows(changes@, run_lines(old_lines@), run_lines(new_lines@)),
            deep(out@) == want.take(i as int),
        decreases changes@.len() - i,
    {
        proof {
            lemma_consecutive_at(changes@, i as int);
        }
        let l: CodeLine = match changes[i] {
            LineChange::Equal { old, new } => CodeLine {
                kind: LineKind::Context,
                old_no: Some(old as u32 + 1),
                new_no: Some(new as u32 + 1),
                runs: runs_of(new_lines, new),
                emphasis: Vec::new(),
            },
            LineChange::Delete { old } => CodeLine {
                kind: LineKind::Deletion,
                old_no: Some(old as u32 + 1),
                new_no: None,
                runs: runs_of(old_lines, old),
                emphasis: Vec::new(),
            },
            LineChange::Insert { new } => CodeLine {
                kind: LineKind::Insertion,
                old_no: None,
                new_no: Some(new as u32 + 1),
                runs: runs_of(new_lines, new),
                emphasis: Vec::new(),
            },
        };
        assert(l.deep_view() =~= want[i as int]);
        out.push(l);
        assert(want.take(i + 1) =~= want.take(i as int).push(want[i as int]));
        i += 1;
    }
    out
}

/// The lines of a comparison of two texts.
pub(crate) fn compare(old: &str, new: &str, old_lines: &Vec<Vec<Run>>, new_lines: &Vec<Vec<Run>>) -> (r: Vec<CodeLine>)
    requires
        old@.len() <= u32::MAX,
        new@.len() <= u32::MAX,
    ensures
        deep(r@) == code_rows(line_diff(old@, new@), run_lines(old_lines@), run_lines(new_lines@)),
        compares(line_diff(old@, new@), old@, new@),
        any_change(deep(r@)) == (old@ != new@),
{
    let changes: Vec<LineChange> = diff_lines(old, new);
    proof {
        lemma_line_count(old@);
        lemma_line_count(new@);
        let c = changes@;
        let rows = code_rows(c, run_lines(old_lines@), run_lines(new_lines@));
        if all_kept(c) {
            lemma_all_kept(c, old@, new@);
            assert forall|i: int| 0 <= i < rows.len() implies (#[trigger] rows[i]).kind
                == LineKind::Context by {
                assert(c[i] is Equal);
            }
        } else {
            let i = choose|i: int| 0 <= i < c.len() && !((#[trigger] c[i]) is Equal);
            assert(rows[i].kind != LineKind::Context);
        }
    }
    rows_from(&changes, old_lines, new_lines)
}

/// Texts of the same lines are the same.
proof fn lemma_same_lines(a: Seq<char>, b: Seq<char>)
    requires
        ended_lines(a) == ended_lines(b),
    ensures
        a == b,
    decreases a.len(),
{
    let x = ended_lines(a);
    let y = ended_lines(b);
    if a.len() == 0 {
        if b.len() > 0 {
            assert(y.len() > 0);
        }
        assert(a =~= b);
    } else {
        if b.len() == 0 {
            assert(x.len() > 0);
        }
        let j = first_line_len(a) as int;
        let k = first_line_len(b) as int;
        lemma_first_line(a);
        lemma_first_line(b);
        assert(x[0] == a.take(j));
        assert(y[0] == b.take(k));
        assert(x.skip(1) =~= ended_lines(a.skip(j)));
        assert(y.skip(1) =~= ended_lines(b.skip(k)));
        lemma_same_lines(a.skip(j), b.skip(k));
        assert(a =~= a.take(j) + a.skip(j));
        assert(b =~= b.take(k) + b.skip(k));
    }
}

proof fn lemma_kept_counts(c: Seq<LineChange>)
    requires
        all_kept(c),
    ensures
        old_count(c) == c.len(),
        new_count(c) == c.len(),
    decreases c.len(),
{
    if c.len() > 0 {
        assert(c[c.len() - 1] is Equal);
        assert forall|i: int| 0 <= i < c.drop_last().len() implies (#[trigger] c.drop_last()[i]) is Equal by {
            assert(c[i] is Equal);
        }
        lemma_kept_counts(c.drop_last());
    }
}

/// Where every line is kept, the texts are the same.
proof fn lemma_all_kept(c: Seq<LineChange>, old: Seq<char>, new: Seq<char>)
    requires
        compares(c, old, new),
        all_kept(c),
    ensures
        old == new,
{
    let x = ended_lines(old);
    let y = ended_lines(new);
    lemma_kept_counts(c);
    assert forall|i: int| 0 <= i < c.len() implies x[i] == y[i] by {
        assert(c[i] is Equal);
        lemma_consecutive_at(c, i);
        assert forall|j: int| 0 <= j < c.take(i).len() implies (#[trigger] c.take(i)[j]) is Equal by {
            assert(c[j] is Equal);
        }
        lemma_kept_counts(c.take(i));
    }
    assert(x =~= y);
    lemma_same_lines(old, new);
}

/// The numbers on the old side of some lines, downwards.
pub open spec fn old_side(rows: Seq<CodeV>) -> Seq<u32>
    decreases rows.len(),
{
    if rows.len() == 0 {
        Seq::empty()
    } else {
        let init = old_side(rows.drop_last());
        match rows.last().old_no {
            Some(n) => init.push(n),
            None => init,
        }
    }
}

/// The numbers on the new side of some lines, downwards.
pub open spec fn new_side(rows: Seq<CodeV>) -> Seq<u32>
    decreases rows.len(),
{
    if rows.len() == 0 {
        Seq::empty()
    } else {
        let init = new_side(rows.drop_last());
        match rows.last().new_no {
            Some(n) => init.push(n),
            None => init,
        }
    }
}

/// The numbers from one to `n`.
pub open spec fn one_to(n: nat) -> Seq<u32> {
    Seq::new(n, |i: int| (i + 1) as u32)
}

/// A comparison shows each line of both texts once, in order: the numbers of
/// either side run from one to the number of its lines.
pub proof fn law_numbers_run_through(c: Seq<LineChange>, old_lines: Seq<Seq<RunV>>, new_lines: Seq<Seq<RunV>>)
    requires
        consecutive(c),
    ensures
        old_side(code_rows(c, old_lines, new_lines)) == one_to(old_count(c)),
        new_side(code_rows(c, old_lines, new_lines)) == one_to(new_count(c)),
    decreases c.len(),
{
    let rows = code_rows(c, old_lines, new_lines);
    if c.len() > 0 {
        law_numbers_run_through(c.drop_last(), old_lines, new_lines);
        assert(rows.drop_last() =~= code_rows(c.drop_last(), old_lines, new_lines));
        assert(rows.last() == code_of(c.last(), old_lines, new_lines));
    }
    assert(old_side(rows) =~= one_to(old_count(c)));
    assert(new_side(rows) =~= one_to(new_count(c)));
}

/// The first inserted line's number.
pub open spec fn first_inserted(rows: Seq<CodeV>) -> Option<u32>
    decreases rows.len(),
{
    if rows.len() == 0 {
        None
    } else if rows[0].kind == LineKind::Insertion {
        rows[0].new_no
    } else {
        first_inserted(rows.skip(1))
    }
}

/// Whether a comparison found any difference.
pub open spec fn any_change(rows: Seq<CodeV>) -> bool {
    exists|i: int| 0 <= i < rows.len() && (#[trigger] rows[i]).kind != LineKind::Context
}

pub fn has_change(rows: &Vec<CodeLine>) -> (r: bool)
    ensures
        r == any_change(deep(rows@)),
{
    let ghost all = deep(rows@);
    let mut i: usize = 0;
    while i < rows.len()
        invariant
            i <= rows@.len(),
            all == deep(rows@),
            forall|j: int| 0 <= j < i ==> (#[trigger] all[j]).kind == LineKind::Context,
        decreases rows@.len() - i,
    {
        assert(all[i as int] == rows@[i as int].deep_view());
        if rows[i].kind != LineKind::Context {
            return true;
        }
        i += 1;
    }
    false
}

pub fn first_inserted_of(rows: &Vec<CodeLine>) -> (r: Option<u32>)
    ensures
        r == first_inserted(deep(rows@)),
{
    broadcast use group_deep;

    let ghost all = deep(rows@);
    let mut i: usize = 0;
    while i < rows.len()
        invariant
            i <= rows@.len(),
            all == deep(rows@),
            first_inserted(all) == first_inserted(all.skip(i as int)),
        decreases rows@.len() - i,
    {
        assert(all.skip(i as int)[0] == rows@[i as int].deep_view());
        if rows[i].kind == LineKind::Insertion {
            return rows[i].new_no;
        }
        assert(all.skip(i as int).skip(1) =~= all.skip(i + 1));
        i += 1;
    }
    None
}

// ---- emphasis ------------------------------------------------------------------------

/// The end of a run of lines of one kind.
pub open spec fn run_end(rows: Seq<CodeV>, kind: LineKind, i: int) -> int
    decreases rows.len() - i,
{
    if 0 <= i < rows.len() && rows[i].kind == kind {
        run_end(rows, kind, i + 1)
    } else {
        i
    }
}

/// The first inserted line from `p` on that is alike to deleted line `d`.
pub open spec fn first_alike(rows: Seq<CodeV>, d: int, p: int, end: int) -> int
    decreases end - p,
{
    if p >= end || alike(rows[d].text(), rows[p].text()) {
        p
    } else {
        first_alike(rows, d, p + 1, end)
    }
}

/// A deleted and an inserted line marked as one line edited.
pub open spec fn pair(rows: Seq<CodeV>, d: int, p: int) -> Seq<CodeV> {
    let old = rows[d].text();
    let new = rows[p].text();
    rows.update(d, CodeV { emphasis: old_emphasis(old, new), ..rows[d] }).update(
        p,
        CodeV { emphasis: new_emphasis(old, new), ..rows[p] },
    )
}

/// Each deleted line in turn paired with its first alike inserted line, in
/// order and each inserted line once.
pub open spec fn paired(rows: Seq<CodeV>, d: int, dels: int, next: int, end: int) -> Seq<CodeV>
    decreases dels - d,
{
    if d >= dels {
        rows
    } else {
        let p = first_alike(rows, d, next, end);
        if p < end {
            paired(pair(rows, d, p), d + 1, dels, p + 1, end)
        } else {
            paired(rows, d + 1, dels, next, end)
        }
    }
}

/// Every block of deleted lines paired with the inserted lines behind it.
pub open spec fn emphasised(rows: Seq<CodeV>, i: int) -> Seq<CodeV>
    decreases rows.len() - i,
    when 0 <= i
    via emphasised_decreases
{
    if i >= rows.len() {
        rows
    } else {
        let d = run_end(rows, LineKind::Deletion, i);
        let e = run_end(rows, LineKind::Insertion, d);
        emphasised(paired(rows, i, d, d, e), if e == i { i + 1 } else { e })
    }
}

#[via_fn]
proof fn emphasised_decreases(rows: Seq<CodeV>, i: int) {
    if i < rows.len() {
        let d = run_end(rows, LineKind::Deletion, i);
        let e = run_end(rows, LineKind::Insertion, d);
        lemma_run_end(rows, LineKind::Deletion, i);
        lemma_run_end(rows, LineKind::Insertion, d);
        lemma_paired_keeps(rows, i, d, d, e);
    }
}

pub proof fn lemma_run_end(rows: Seq<CodeV>, kind: LineKind, i: int)
    requires
        0 <= i <= rows.len(),
    ensures
        i <= run_end(rows, kind, i) <= rows.len(),
        forall|k: int| i <= k < run_end(rows, kind, i) ==> (#[trigger] rows[k]).kind == kind,
        run_end(rows, kind, i) < rows.len() ==> rows[run_end(rows, kind, i)].kind != kind,
    decreases rows.len() - i,
{
    if i < rows.len() && rows[i].kind == kind {
        lemma_run_end(rows, kind, i + 1);
    }
}

proof fn lemma_first_alike(rows: Seq<CodeV>, d: int, p: int, end: int)
    requires
        p <= end,
    ensures
        p <= first_alike(rows, d, p, end) <= end,
    decreases end - p,
{
    if p < end && !alike(rows[d].text(), rows[p].text()) {
        lemma_first_alike(rows, d, p + 1, end);
    }
}

/// Lines without their emphasis.
pub open spec fn bare(rows: Seq<CodeV>) -> Seq<CodeV> {
    Seq::new(rows.len(), |i: int| rows[i].bare())
}

proof fn lemma_pair_keeps(rows: Seq<CodeV>, d: int, p: int)
    requires
        0 <= d < rows.len(),
        0 <= p < rows.len(),
    ensures
        bare(pair(rows, d, p)) == bare(rows),
        pair(rows, d, p).len() == rows.len(),
{
    assert(bare(pair(rows, d, p)) =~= bare(rows));
}

proof fn lemma_paired_keeps(rows: Seq<CodeV>, d: int, dels: int, next: int, end: int)
    requires
        0 <= d,
        dels <= next,
        next <= end <= rows.len(),
    ensures
        paired(rows, d, dels, next, end).len() == rows.len(),
        bare(paired(rows, d, dels, next, end)) == bare(rows),
    decreases dels - d,
{
    if d < dels {
        lemma_first_alike(rows, d, next, end);
        let p = first_alike(rows, d, next, end);
        if p < end {
            lemma_pair_keeps(rows, d, p);
            lemma_paired_keeps(pair(rows, d, p), d + 1, dels, p + 1, end);
        } else {
            lemma_paired_keeps(rows, d + 1, dels, next, end);
        }
    }
}

/// Emphasis changes nothing but emphasis: no line is added, dropped, moved,
/// renumbered or reworded.
pub proof fn law_emphasis_changes_nothing_else(rows: Seq<CodeV>, i: int)
    requires
        0 <= i,
    ensures
        bare(emphasised(rows, i)) == bare(rows),
    decreases rows.len() - i,
{
    if i < rows.len() {
        let d = run_end(rows, LineKind::Deletion, i);
        let e = run_end(rows, LineKind::Insertion, d);
        lemma_run_end(rows, LineKind::Deletion, i);
        lemma_run_end(rows, LineKind::Insertion, d);
        lemma_paired_keeps(rows, i, d, d, e);
        law_emphasis_changes_nothing_else(
            paired(rows, i, d, d, e),
            if e == i { i + 1 } else { e },
        );
    }
}

/// Characters before the content of a rendered line: a change bar, four for
/// the line number, and a space.
pub const GUTTER_CHARS: u32 = 6;

/// The most characters that a gutter can take: a bar, ten digits and a space.
pub const GUTTER_ROOM: u32 = 12;

/// Every line short enough for 32-bit character positions, gutter included.
pub open spec fn short_lines(rows: Seq<CodeV>) -> bool {
    forall|i: int| 0 <= i < rows.len() ==> (#[trigger] rows[i]).text().len() + GUTTER_ROOM <= u32::MAX
}

proof fn lemma_bare_short(a: Seq<CodeV>, b: Seq<CodeV>)
    requires
        bare(a) == bare(b),
        short_lines(a),
    ensures
        short_lines(b),
        a.len() == b.len(),
        forall|i: int| 0 <= i < a.len() ==> (#[trigger] b[i]).kind == a[i].kind,
{
    assert(bare(a).len() == a.len());
    assert(bare(b).len() == b.len());
    assert forall|i: int| 0 <= i < b.len() implies (#[trigger] b[i]).text().len() + GUTTER_ROOM <= u32::MAX by {
        assert(bare(a)[i] == bare(b)[i]);
        assert(a[i].text().len() <= u32::MAX);
        assert(a[i].runs == bare(a)[i].runs);
        assert(b[i].runs == bare(b)[i].runs);
    }
    assert forall|i: int| 0 <= i < a.len() implies (#[trigger] b[i]).kind == a[i].kind by {
        assert(bare(a)[i] == bare(b)[i]);
    }
}

fn pair_homologs(rows: &mut Vec<CodeLine>, start: usize, dels: usize, end: usize)
    requires
        start <= dels <= end <= old(rows)@.len(),
        short_lines(deep(old(rows)@)),
    ensures
        deep(final(rows)@) == paired(
            deep(old(rows)@),
            start as int,
            dels as int,
            dels as int,
            end as int,
        ),
        final(rows)@.len() == old(rows)@.len(),
{
    let ghost whole = paired(deep(rows@), start as int, dels as int, dels as int, end as int);
    let mut next: usize = dels;
    let mut d: usize = start;
    while d < dels
        invariant
            start <= d <= dels <= next <= end <= rows@.len(),
            rows@.len() == old(rows)@.len(),
            short_lines(deep(rows@)),
            whole == paired(deep(rows@), d as int, dels as int, next as int, end as int),
        decreases dels - d,
    {
        let ghost cur = deep(rows@);
        assert(cur[d as int] == rows@[d as int].deep_view());
        let old_text: String = rows[d].text();
        let mut p: usize = next;
        let mut found: bool = false;
        assert(cur[d as int].text().len() <= u32::MAX);
        while p < end && !found
            invariant
                d < dels <= next <= p <= end <= rows@.len(),
                cur.len() == rows@.len(),
                rows@.len() == old(rows)@.len(),
                short_lines(cur),
                old_text@ == cur[d as int].text(),
                old_text@.len() <= u32::MAX,
                !found ==> cur == deep(rows@) && first_alike(cur, d as int, next as int, end as int)
                    == first_alike(cur, d as int, p as int, end as int),
                found ==> p < end && p == first_alike(cur, d as int, next as int, end as int)
                    && deep(rows@) == pair(cur, d as int, p as int),
            decreases end - p, if found { 0int } else { 1int },
        {
            assert(cur[p as int] == rows@[p as int].deep_view());
            let new_text: String = rows[p].text();
            assert(cur[p as int].text().len() <= u32::MAX);
            let e: (u32, Vec<CharRange>, Vec<CharRange>) = word_emphasis(
                old_text.as_str(),
                new_text.as_str(),
            );
            if e.0 >= MIN_SIMILARITY {
                rows[d].emphasis = e.1;
                rows[p].emphasis = e.2;
                found = true;
                assert(deep(rows@) =~= pair(cur, d as int, p as int));
            } else {
                p += 1;
            }
        }
        proof {
            if found {
                lemma_pair_keeps(cur, d as int, p as int);
                lemma_bare_short(cur, deep(rows@));
            }
        }
        if found {
            next = p + 1;
        }
        d += 1;
    }
}


/// Mark the changed words of edited lines.
pub fn compute_emphasis(rows: &mut Vec<CodeLine>)
    requires
        short_lines(deep(old(rows)@)),
    ensures
        deep(final(rows)@) == emphasised(deep(old(rows)@), 0),
{
    let ghost whole = emphasised(deep(rows@), 0);
    let ghost first = deep(rows@);
    let n: usize = rows.len();
    let mut i: usize = 0;
    while i < n
        invariant
            i <= n == rows@.len(),
            short_lines(deep(rows@)),
            whole == emphasised(deep(rows@), i as int),
        decreases n - i,
    {
        let ghost cur = deep(rows@);
        let start: usize = i;
        while i < n && rows[i].kind == LineKind::Deletion
            invariant
                start <= i <= n == rows@.len(),
                cur == deep(rows@),
                run_end(cur, LineKind::Deletion, start as int) == run_end(
                    cur,
                    LineKind::Deletion,
                    i as int,
                ),
            decreases n - i,
        {
            assert(cur[i as int] == rows@[i as int].deep_view());
            i += 1;
        }
        proof {
            if i < n {
                assert(cur[i as int] == rows@[i as int].deep_view());
            }
            assert(i == run_end(cur, LineKind::Deletion, start as int));
        }
        let dels: usize = i;
        while i < n && rows[i].kind == LineKind::Insertion
            invariant
                dels <= i <= n == rows@.len(),
                cur == deep(rows@),
                run_end(cur, LineKind::Insertion, dels as int) == run_end(
                    cur,
                    LineKind::Insertion,
                    i as int,
                ),
            decreases n - i,
        {
            assert(cur[i as int] == rows@[i as int].deep_view());
            i += 1;
        }
        proof {
            if i < n {
                assert(cur[i as int] == rows@[i as int].deep_view());
            }
            assert(i == run_end(cur, LineKind::Insertion, dels as int));
        }
        pair_homologs(rows, start, dels, i);
        proof {
            lemma_paired_keeps(cur, start as int, dels as int, dels as int, i as int);
            lemma_bare_short(cur, deep(rows@));
        }
        if i == start {
            i += 1;
        }
    }
}

// ---- folding ------------------------------------------------------------------------

/// Whether a line is within `margin` lines of a change.
pub open spec fn near_change(rows: Seq<CodeV>, margin: int, i: int) -> bool {
    exists|j: int|
        0 <= j < rows.len() && (#[trigger] rows[j]).kind != LineKind::Context && j - margin <= i <= j
            + margin
}

/// The end of a run of lines that are far from any change.
pub open spec fn far_end(rows: Seq<CodeV>, margin: int, i: int) -> int
    decreases rows.len() - i,
{
    if 0 <= i < rows.len() && !near_change(rows, margin, i) {
        far_end(rows, margin, i + 1)
    } else {
        i
    }
}

pub open spec fn as_rows(s: Seq<CodeV>) -> Seq<RowV> {
    Seq::new(s.len(), |i: int| RowV::Code(s[i]))
}

/// The rows from `i` on: lines near a change as they are, and each run of two
/// or more others as one fold.
pub open spec fn collapsed(rows: Seq<CodeV>, margin: int, i: int) -> Seq<RowV>
    decreases rows.len() - i,
    when 0 <= i
    via collapsed_decreases
{
    if i >= rows.len() {
        Seq::empty()
    } else if near_change(rows, margin, i) {
        seq![RowV::Code(rows[i])] + collapsed(rows, margin, i + 1)
    } else {
        let e = far_end(rows, margin, i);
        if e - i > 1 {
            seq![RowV::Fold(rows.subrange(i, e))] + collapsed(rows, margin, e)
        } else {
            seq![RowV::Code(rows[i])] + collapsed(rows, margin, e)
        }
    }
}

#[via_fn]
proof fn collapsed_decreases(rows: Seq<CodeV>, margin: int, i: int) {
    if i < rows.len() && !near_change(rows, margin, i) {
        lemma_far_end(rows, margin, i);
        assert(far_end(rows, margin, i) == far_end(rows, margin, i + 1));
        lemma_far_end(rows, margin, i + 1);
    }
}

pub proof fn lemma_far_end(rows: Seq<CodeV>, margin: int, i: int)
    requires
        0 <= i <= rows.len(),
    ensures
        i <= far_end(rows, margin, i) <= rows.len(),
        forall|k: int| i <= k < far_end(rows, margin, i) ==> !near_change(rows, margin, k),
    decreases rows.len() - i,
{
    if i < rows.len() && !near_change(rows, margin, i) {
        lemma_far_end(rows, margin, i + 1);
    }
}

/// The lines of a row.
pub open spec fn lines_in(r: RowV) -> Seq<CodeV> {
    match r {
        RowV::Code(l) => seq![l],
        RowV::Fold(s) => s,
    }
}

/// The lines of rows, folded ones too.
pub open spec fn unfolded(rows: Seq<RowV>) -> Seq<CodeV>
    decreases rows.len(),
{
    if rows.len() == 0 {
        Seq::empty()
    } else {
        lines_in(rows[0]) + unfolded(rows.skip(1))
    }
}

/// Folding hides lines but loses none: unfolding everything gives back the
/// lines, in order.
pub proof fn law_folding_loses_nothing(rows: Seq<CodeV>, margin: int, i: int)
    requires
        0 <= i <= rows.len(),
    ensures
        unfolded(collapsed(rows, margin, i)) == rows.skip(i),
    decreases rows.len() - i,
{
    let c = collapsed(rows, margin, i);
    if i < rows.len() {
        if near_change(rows, margin, i) {
            law_folding_loses_nothing(rows, margin, i + 1);
            assert(c.skip(1) =~= collapsed(rows, margin, i + 1));
            assert(rows.skip(i) =~= seq![rows[i]] + rows.skip(i + 1));
        } else {
            let e = far_end(rows, margin, i);
            lemma_far_end(rows, margin, i);
            lemma_far_end(rows, margin, i + 1);
            law_folding_loses_nothing(rows, margin, e);
            assert(c.skip(1) =~= collapsed(rows, margin, e));
            if e - i > 1 {
                assert(rows.skip(i) =~= rows.subrange(i, e) + rows.skip(e));
            } else {
                assert(e == i + 1);
                assert(rows.skip(i) =~= seq![rows[i]] + rows.skip(e));
            }
        }
    } else {
        assert(rows.skip(i) =~= Seq::<CodeV>::empty());
    }
}

/// A fold hides two or more lines, all of them unchanged: every change is on
/// screen.
pub proof fn law_folds_hide_only_context(rows: Seq<CodeV>, margin: int, i: int, k: int)
    requires
        0 <= i <= rows.len(),
        0 <= margin,
        0 <= k < collapsed(rows, margin, i).len(),
    ensures
        collapsed(rows, margin, i)[k] matches RowV::Fold(s) ==> s.len() >= 2 && forall|j: int|
            0 <= j < s.len() ==> (#[trigger] s[j]).kind == LineKind::Context,
    decreases rows.len() - i,
{
    let c = collapsed(rows, margin, i);
    if i < rows.len() {
        if near_change(rows, margin, i) {
            if k > 0 {
                law_folds_hide_only_context(rows, margin, i + 1, k - 1);
            }
        } else {
            let e = far_end(rows, margin, i);
            lemma_far_end(rows, margin, i);
            lemma_far_end(rows, margin, i + 1);
            if k > 0 {
                law_folds_hide_only_context(rows, margin, e, k - 1);
            } else if e - i > 1 {
                let s = rows.subrange(i, e);
                assert forall|j: int| 0 <= j < s.len() implies (#[trigger] s[j]).kind == LineKind::Context by {
                    assert(!near_change(rows, margin, i + j));
                    if rows[i + j].kind != LineKind::Context {
                        assert(near_change(rows, margin, i + j));
                    }
                }
            }
        }
    }
}

/// For each line, whether it is near a change.
fn kept(rows: &Vec<CodeLine>, margin: usize) -> (r: Vec<bool>)
    ensures
        r@.len() == rows@.len(),
        forall|i: int| 0 <= i < r@.len() ==> #[trigger] r@[i] == near_change(deep(rows@), margin as int, i),
{
    let ghost all = deep(rows@);
    let n: usize = rows.len();
    let mut keep: Vec<bool> = Vec::new();
    let mut i: usize = 0;
    while i < n
        invariant
            i <= n,
            keep@.len() == i,
            forall|k: int| 0 <= k < i ==> !(#[trigger] keep@[k]),
        decreases n - i,
    {
        keep.push(false);
        i += 1;
    }
    let mut j: usize = 0;
    while j < n
        invariant
            j <= n == rows@.len(),
            all == deep(rows@),
            keep@.len() == n,
            forall|k: int|
                0 <= k < n ==> (#[trigger] keep@[k] == exists|c: int|
                    0 <= c < j && (#[trigger] all[c]).kind != LineKind::Context && c - margin <= k <= c
                        + margin),
        decreases n - j,
    {
        assert(all[j as int] == rows@[j as int].deep_view());
        let ghost before = keep@;
        if rows[j].kind != LineKind::Context {
            let lo: usize = if j >= margin {
                j - margin
            } else {
                0
            };
            let hi: usize = if margin > n - 1 - j {
                n - 1
            } else {
                j + margin
            };
            let mut k: usize = lo;
            while k <= hi
                invariant
                    lo <= k <= hi + 1,
                    hi < n == keep@.len(),
                    n == before.len(),
                    forall|m: int| 0 <= m < n ==> (#[trigger] keep@[m] == (before[m] || lo <= m < k)),
                decreases hi + 1 - k,
            {
                keep.set(k, true);
                k += 1;
            }
            assert forall|m: int| 0 <= m < n implies (#[trigger] keep@[m] == exists|c: int|
                0 <= c < j + 1 && (#[trigger] all[c]).kind != LineKind::Context && c - margin <= m <= c
                    + margin) by {
                assert(keep@[m] == (before[m] || lo <= m <= hi));
                if lo <= m <= hi {
                    assert(all[j as int].kind != LineKind::Context && j - margin <= m <= j + margin);
                }
            }
        } else {
            assert forall|m: int| 0 <= m < n implies (#[trigger] keep@[m] == exists|c: int|
                0 <= c < j + 1 && (#[trigger] all[c]).kind != LineKind::Context && c - margin <= m <= c
                    + margin) by {
                assert(keep@[m] == before[m]);
            }
        }
        j += 1;
    }
    assert forall|i: int| 0 <= i < keep@.len() implies #[trigger] keep@[i] == near_change(
        all,
        margin as int,
        i,
    ) by {}
    keep
}

/// Fold the lines that are more than `margin` lines away from any change.
pub fn collapse_context(rows: &Vec<CodeLine>, margin: usize) -> (r: Vec<Row>)
    ensures
        deep(r@) == collapsed(deep(rows@), margin as int, 0),
{
    broadcast use group_deep;

    let ghost all = deep(rows@);
    let ghost m = margin as int;
    let n: usize = rows.len();
    let keep: Vec<bool> = kept(rows, margin);
    let mut out: Vec<Row> = Vec::new();
    let mut i: usize = 0;
    assert(deep(out@) + collapsed(all, m, 0) =~= collapsed(all, m, 0));
    while i < n
        invariant
            i <= n == rows@.len(),
            all == deep(rows@),
            m == margin,
            keep@.len() == n,
            forall|k: int| 0 <= k < n ==> #[trigger] keep@[k] == near_change(all, m, k),
            deep(out@) + collapsed(all, m, i as int) == collapsed(all, m, 0),
        decreases n - i,
    {
        let ghost done = deep(out@);
        assert(all[i as int] == rows@[i as int].deep_view());
        assert(keep@[i as int] == near_change(all, m, i as int));
        if keep[i] {
            let row: Row = Row::Code(rows[i].copy());
            let ghost rv = row.deep_view();
            out.push(row);
            assert(deep(out@) == done.push(rv));
            assert(done.push(rv) + collapsed(all, m, i + 1) =~= done + (seq![rv] + collapsed(
                all,
                m,
                i + 1,
            )));
            i += 1;
        } else {
            let start: usize = i;
            let mut lines: Vec<CodeLine> = Vec::new();
            while i < n && !keep[i]
                invariant
                    start <= i <= n == rows@.len(),
                    all == deep(rows@),
                    keep@.len() == n,
                    forall|k: int| 0 <= k < n ==> #[trigger] keep@[k] == near_change(all, m, k),
                    deep(lines@) == all.subrange(start as int, i as int),
                    far_end(all, m, start as int) == far_end(all, m, i as int),
                decreases n - i,
            {
                assert(keep@[i as int] == near_change(all, m, i as int));
                assert(all[i as int] == rows@[i as int].deep_view());
                lines.push(rows[i].copy());
                assert(all.subrange(start as int, i + 1) =~= all.subrange(
                    start as int,
                    i as int,
                ).push(all[i as int]));
                i += 1;
            }
            proof {
                if i < n {
                    assert(keep@[i as int] == near_change(all, m, i as int));
                }
                assert(i == far_end(all, m, start as int));
                lemma_far_end(all, m, start as int);
                lemma_far_end(all, m, start + 1);
            }
            let row: Row = if i - start > 1 {
                Row::Fold(lines)
            } else {
                Row::Code(rows[start].copy())
            };
            let ghost rv = row.deep_view();
            out.push(row);
            assert(deep(out@) == done.push(rv));
            assert(collapsed(all, m, start as int) == seq![rv] + collapsed(all, m, i as int));
            assert(done.push(rv) + collapsed(all, m, i as int) =~= done + (seq![rv] + collapsed(
                all,
                m,
                i as int,
            )));
        }
    }
    assert(collapsed(all, m, n as int) =~= Seq::<RowV>::empty());
    assert(deep(out@) + Seq::<RowV>::empty() =~= deep(out@));
    out
}

} // verus!
