//! The rows of the list pane as they are drawn, its footer and its help.

use vstd::prelude::*;

use crate::card::{cells_of_spans, dim_style, minus};
use crate::elide::{cut_head, cut_tail, elide_head, elide_tail};
use crate::git::{ChangeKind, CommitInfo, CommitV, EntryV, FileEntry, Scope};
use crate::ipc::{one_line, one_line_text, NoteMeta};
use crate::list::App;
use crate::list_rows::{ListRow, ListRowV, Mode};
use crate::list_ui::{
    colored, heading, label_text, line_of, minus_of, plain_line, ref_label, upper, upper_text,
};
use crate::path::{file_name, file_name_of};
use crate::style::{accent, bad, info, ok, span, Color, Line, LineV, Span, SpanV, Style};
use crate::text::{concat2, concat3, decimal, decimal_of, deep, group_deep, rep, repeat_char};
use crate::wrap::{plus, plus_of, spans_cells, text_cells, text_width};

verus! {

fn one_span(s: Span) -> (r: Vec<Span>)
    ensures
        deep(r@) == seq![s.deep_view()],
{
    let mut v: Vec<Span> = Vec::new();
    v.push(s);
    assert(deep(v@) =~= seq![s.deep_view()]);
    v
}

// ---- headings and directories ------------------------------------------------------------

pub open spec fn heading_spans(title: Seq<char>, count: nat) -> Seq<SpanV> {
    seq![
        span(" ▾ "@ + title, heading(info())),
        span("  "@ + decimal(count), dim_style()),
    ]
}

fn heading_line(title: &str, count: usize) -> (r: Line)
    ensures
        r.deep_view() == plain_line(heading_spans(title@, count as nat)),
{
    broadcast use group_deep;

    let mut spans: Vec<Span> = Vec::new();
    spans.push(Span::styled(concat2(" ▾ ", title), Style::new().fg(info()).bold()));
    spans.push(Span::styled(concat2("  ", decimal_of(count as u64).as_str()), dim_style()));
    assert(deep(spans@) =~= heading_spans(title@, count as nat));
    line_of(spans)
}

/// The heading of a section.
pub fn header_row(title: &str, count: usize) -> (r: Line)
    ensures
        r.deep_view() == plain_line(heading_spans(upper_text(title@), count as nat)),
{
    let big: String = upper(title);
    heading_line(big.as_str(), count)
}

/// The heading of a file's notes.
pub fn note_file_row(name: &str, count: usize, width: u16) -> (r: Line)
    ensures
        r.deep_view() == plain_line(
            heading_spans(cut_tail(upper_text(name@), minus(width as int, 7) as nat), count as nat),
        ),
{
    let big: String = upper(name);
    let shown: String = elide_tail(big.as_str(), minus_of(width as usize, 7));
    heading_line(shown.as_str(), count)
}

/// The blanks in front of a row: those of its section, and two for each level.
pub open spec fn indent_of(grouped: bool, depth: int) -> Seq<char> {
    (if grouped {
        "  "@
    } else {
        " "@
    }) + rep(' ', (2 * depth) as nat)
}

fn indent(grouped: bool, depth: usize) -> (r: String)
    requires
        2 * depth <= usize::MAX,
    ensures
        r@ == indent_of(grouped, depth as int),
{
    let deep_part: String = repeat_char(' ', 2 * depth);
    concat2(
        if grouped {
            "  "
        } else {
            " "
        },
        deep_part.as_str(),
    )
}

pub open spec fn dir_spans(name: Seq<char>, depth: int, grouped: bool, collapsed: bool) -> Seq<SpanV> {
    seq![
        span(
            indent_of(grouped, depth) + (if collapsed {
                "▸"@
            } else {
                "▾"@
            }) + " "@ + name,
            dim_style(),
        ),
    ]
}

/// A directory.
pub fn dir_row(name: &str, depth: usize, grouped: bool, collapsed: bool) -> (r: Line)
    requires
        2 * depth <= usize::MAX,
    ensures
        r.deep_view() == plain_line(dir_spans(name@, depth as int, grouped, collapsed)),
{
    let lead: String = indent(grouped, depth);
    let arrow: String = concat3(
        lead.as_str(),
        if collapsed {
            "▸"
        } else {
            "▾"
        },
        " ",
    );
    line_of(one_span(Span::styled(concat2(arrow.as_str(), name), dim_style())))
}

// ---- files ----------------------------------------------------------------------------------

/// The letter and the colour of a change.
pub open spec fn change_mark(kind: ChangeKind) -> (Seq<char>, Color) {
    match kind {
        ChangeKind::Modified => ("M"@, accent()),
        ChangeKind::Added => ("A"@, ok()),
        ChangeKind::Deleted => ("D"@, bad()),
        ChangeKind::Renamed => ("R"@, info()),
        ChangeKind::Untracked => ("U"@, ok()),
        ChangeKind::Conflicted => ("!"@, bad()),
    }
}

pub fn marker(kind: ChangeKind) -> (r: (&'static str, Color))
    ensures
        (r.0@, r.1) == change_mark(kind),
{
    match kind {
        ChangeKind::Modified => ("M", accent()),
        ChangeKind::Added => ("A", ok()),
        ChangeKind::Deleted => ("D", bad()),
        ChangeKind::Renamed => ("R", info()),
        ChangeKind::Untracked => ("U", ok()),
        ChangeKind::Conflicted => ("!", bad()),
    }
}

/// The changed lines of a file, in words. A side without any is left out, but
/// not both.
pub open spec fn stat_text(adds: Option<u32>, dels: Option<u32>) -> Seq<char> {
    match (adds, dels) {
        (Some(a), Some(d)) => if d == 0 {
            "+"@ + decimal(a as nat)
        } else if a == 0 {
            "−"@ + decimal(d as nat)
        } else {
            "+"@ + decimal(a as nat) + " "@ + "−"@ + decimal(d as nat)
        },
        _ => "bin"@,
    }
}

pub open spec fn stat_spans(adds: Option<u32>, dels: Option<u32>) -> Seq<SpanV> {
    match (adds, dels) {
        (Some(a), Some(d)) => {
            let plus_part = span("+"@ + decimal(a as nat), colored(ok()));
            let minus_part = span("−"@ + decimal(d as nat), colored(bad()));
            if d == 0 {
                seq![plus_part]
            } else if a == 0 {
                seq![minus_part]
            } else {
                seq![plus_part, span(" "@, Style::plain()), minus_part]
            }
        },
        _ => seq![span("bin"@, dim_style())],
    }
}

pub fn stats(entry: &FileEntry) -> (r: (String, Vec<Span>))
    ensures
        r.0@ == stat_text(entry.adds, entry.dels),
        deep(r.1@) == stat_spans(entry.adds, entry.dels),
{
    broadcast use group_deep;

    let mut spans: Vec<Span> = Vec::new();
    match (entry.adds, entry.dels) {
        (Some(a), Some(d)) => {
            let adds: String = concat2("+", decimal_of(a as u64).as_str());
            let dels: String = concat2("−", decimal_of(d as u64).as_str());
            let mut text: String = String::new();
            if a > 0 || d == 0 {
                text.push_str(adds.as_str());
                spans.push(Span::styled(adds, Style::new().fg(ok())));
            }
            if d > 0 {
                if a > 0 {
                    text.push_str(" ");
                    spans.push(Span::raw(" ".to_owned()));
                }
                text.push_str(dels.as_str());
                spans.push(Span::styled(dels, Style::new().fg(bad())));
            }
            proof {
                assert(text@ =~= stat_text(entry.adds, entry.dels));
                assert(deep(spans@) =~= stat_spans(entry.adds, entry.dels));
            }
            (text, spans)
        },
        _ => {
            spans.push(Span::styled("bin".to_owned(), dim_style()));
            assert(deep(spans@) =~= stat_spans(entry.adds, entry.dels));
            ("bin".to_owned(), spans)
        },
    }
}

pub open spec fn base_name(p: Seq<char>) -> Seq<char> {
    match file_name(p) {
        Some(n) => n,
        None => p,
    }
}

/// The name of a file's row: its own name, for a renamed file behind its old
/// one.
pub open spec fn row_name(e: EntryV) -> Seq<char> {
    match e.orig_path {
        Some(o) => base_name(o) + " → "@ + base_name(e.path),
        None => base_name(e.path),
    }
}

fn base_name_of(p: &str) -> (r: String)
    ensures
        r@ == base_name(p@),
{
    match file_name_of(p) {
        Some(n) => n,
        None => p.to_owned(),
    }
}

pub fn basename_text(entry: &FileEntry) -> (r: String)
    ensures
        r@ == row_name(entry.deep_view()),
{
    let name: String = base_name_of(entry.path.as_str());
    match &entry.orig_path {
        Some(o) => concat3(base_name_of(o.as_str()).as_str(), " → ", name.as_str()),
        None => name,
    }
}

/// The start of a file's row: blanks, mark, name. The name is cut so that the
/// counts stay.
pub open spec fn entry_lead(e: EntryV, width: int, grouped: bool, depth: int) -> Seq<SpanV> {
    let ind = indent_of(grouped, depth);
    let st = stat_text(e.adds, e.dels);
    let fixed = plus(plus(text_cells(ind) as nat, 2), plus(text_cells(st) as nat, 2));
    let room = minus(width, fixed as int);
    let name = cut_head(
        row_name(e),
        (if room > 1 {
            room
        } else {
            1
        }) as nat,
    );
    let (letter, color) = change_mark(e.kind);
    seq![
        span(ind, Style::plain()),
        span(letter + " "@, colored(color)),
        span(name, Style::plain()),
    ]
}

/// A file's row: its start, and the counts at the right end.
pub open spec fn entry_spans(e: EntryV, width: int, grouped: bool, depth: int) -> Seq<SpanV> {
    let lead = entry_lead(e, width, grouped, depth);
    let st = stat_text(e.adds, e.dels);
    lead + seq![
        span(
            rep(' ', minus(width, plus(spans_cells(lead), text_cells(st) as nat) as int) as nat),
            Style::plain(),
        ),
    ] + stat_spans(e.adds, e.dels)
}

pub fn entry_row(entry: &FileEntry, width: u16, grouped: bool, depth: usize) -> (r: Line)
    requires
        2 * depth <= usize::MAX,
    ensures
        r.deep_view() == plain_line(
            entry_spans(entry.deep_view(), width as int, grouped, depth as int),
        ),
{
    broadcast use group_deep;

    let ghost e = entry.deep_view();
    let w: usize = width as usize;
    let ind: String = indent(grouped, depth);
    let (stats_text, mut stats_spans) = stats(entry);
    let ghost sv = deep(stats_spans@);
    let stats_w: usize = text_width(stats_text.as_str());
    let fixed: usize = plus_of(plus_of(text_width(ind.as_str()), 2), plus_of(stats_w, 2));
    let room: usize = minus_of(w, fixed);
    let shown: String = elide_head(
        basename_text(entry).as_str(),
        if room > 1 {
            room
        } else {
            1
        },
    );
    let (letter, color) = marker(entry.kind);
    let mut spans: Vec<Span> = Vec::new();
    spans.push(Span::raw(ind));
    spans.push(Span::styled(concat2(letter, " "), Style::new().fg(color)));
    spans.push(Span::raw(shown));
    assert(deep(spans@) =~= entry_lead(e, width as int, grouped, depth as int));
    let used: usize = cells_of_spans(&spans);
    let pad: usize = minus_of(w, plus_of(used, stats_w));
    spans.push(Span::raw(repeat_char(' ', pad)));
    spans.append(&mut stats_spans);
    assert(deep(spans@) =~= entry_spans(e, width as int, grouped, depth as int));
    line_of(spans)
}

// ---- notes and commits --------------------------------------------------------------------------

/// The lines that a note is on, in words.
pub open spec fn note_place_text(start: u32, end: u32) -> Seq<char> {
    if end == 0 {
        "whole file"@
    } else if start == end {
        "line "@ + decimal(start as nat)
    } else {
        "lines "@ + decimal(start as nat) + "-"@ + decimal(end as nat)
    }
}

pub open spec fn note_lines(start: u32, end: u32, text: Seq<char>, width: int) -> Seq<LineV> {
    seq![
        plain_line(seq![span("   ▎ "@ + note_place_text(start, end), colored(accent()))]),
        plain_line(
            seq![
                span("   ▎ "@, colored(accent())),
                span(cut_tail(one_line_text(text), minus(width, 6) as nat), Style::plain()),
            ],
        ),
    ]
}

/// A note: where it is, and what it says, in a line each.
pub fn note_row(note: &NoteMeta, width: u16) -> (r: Vec<Line>)
    ensures
        deep(r@) == note_lines(note.start, note.end, note.text@, width as int),
{
    broadcast use group_deep;

    let place: String = if note.end == 0 {
        "whole file".to_owned()
    } else if note.start == note.end {
        concat2("line ", decimal_of(note.start as u64).as_str())
    } else {
        let head: String = concat3("lines ", decimal_of(note.start as u64).as_str(), "-");
        concat2(head.as_str(), decimal_of(note.end as u64).as_str())
    };
    let text: String = one_line(note.text.as_str());
    let shown: String = elide_tail(text.as_str(), minus_of(width as usize, 6));
    let mut out: Vec<Line> = Vec::new();
    out.push(
        line_of(
            one_span(Span::styled(concat2("   ▎ ", place.as_str()), Style::new().fg(accent()))),
        ),
    );
    let mut spans: Vec<Span> = Vec::new();
    spans.push(Span::styled("   ▎ ".to_owned(), Style::new().fg(accent())));
    spans.push(Span::raw(shown));
    proof {
        assert(deep(spans@) =~= seq![
            span("   ▎ "@, colored(accent())),
            span(cut_tail(one_line_text(note.text@), minus(width as int, 6) as nat), Style::plain()),
        ]);
    }
    out.push(line_of(spans));
    assert(deep(out@) =~= note_lines(note.start, note.end, note.text@, width as int));
    out
}

pub open spec fn commit_spans(c: CommitV, width: int) -> Seq<SpanV> {
    let short = " "@ + c.short + " "@;
    let date = c.date + " "@;
    let label = label_text(c.refs);
    let front = plus(text_cells(short) as nat, text_cells(label) as nat);
    let subject = cut_tail(
        c.subject,
        minus(width, plus(plus(front, text_cells(date) as nat), 1) as int) as nat,
    );
    let used = plus(plus(front, text_cells(subject) as nat), text_cells(date) as nat);
    seq![span(short, colored(accent()))] + (if label.len() > 0 {
        seq![span(label, colored(info()))]
    } else {
        Seq::empty()
    }) + seq![
        span(subject, Style::plain()),
        span(rep(' ', minus(width, used as int) as nat), Style::plain()),
        span(date, dim_style()),
    ]
}

/// A commit: its name, its labels, its subject, its date.
pub fn commit_row(c: &CommitInfo, width: u16) -> (r: Line)
    ensures
        r.deep_view() == plain_line(commit_spans(c.deep_view(), width as int)),
{
    broadcast use group_deep;

    let w: usize = width as usize;
    let short: String = concat3(" ", c.short.as_str(), " ");
    let date: String = concat2(c.date.as_str(), " ");
    let label: String = ref_label(c.refs.as_slice());
    let front: usize = plus_of(text_width(short.as_str()), text_width(label.as_str()));
    let date_w: usize = text_width(date.as_str());
    let avail: usize = minus_of(w, plus_of(plus_of(front, date_w), 1));
    let subject: String = elide_tail(c.subject.as_str(), avail);
    let used: usize = plus_of(plus_of(front, text_width(subject.as_str())), date_w);
    let mut spans: Vec<Span> = Vec::new();
    spans.push(Span::styled(short, Style::new().fg(accent())));
    if label.as_str().unicode_len() > 0 {
        spans.push(Span::styled(label, Style::new().fg(info())));
    }
    spans.push(Span::raw(subject));
    spans.push(Span::raw(repeat_char(' ', minus_of(w, used))));
    spans.push(Span::styled(date, dim_style()));
    assert(deep(spans@) =~= commit_spans(c.deep_view(), width as int));
    line_of(spans)
}

// ---- any row ------------------------------------------------------------------------------------

impl App {
    /// Whether the rows stand in sections.
    pub open spec fn grouped(self) -> bool {
        self.mode == Mode::Files && self.scope == Scope::Worktree
    }

    /// How a row is drawn. One that points nowhere is a blank.
    pub open spec fn row_lines(self, row: ListRowV, width: int) -> Seq<LineV> {
        match row {
            ListRowV::Header { title, count } => seq![
                plain_line(heading_spans(upper_text(title), count as nat)),
            ],
            ListRowV::Dir { depth, name, collapsed, .. } => seq![
                plain_line(dir_spans(name, depth, self.grouped(), collapsed)),
            ],
            ListRowV::Entry { idx, depth, .. } => if 0 <= idx < self.entries@.len() {
                seq![
                    plain_line(
                        entry_spans(self.entries@[idx].deep_view(), width, self.grouped(), depth),
                    ),
                ]
            } else {
                seq![plain_line(Seq::empty())]
            },
            ListRowV::Commit(idx) => if 0 <= idx < self.commits@.len() {
                seq![plain_line(commit_spans(self.commits@[idx].deep_view(), width))]
            } else {
                seq![plain_line(Seq::empty())]
            },
            ListRowV::NoteFile { name, count } => seq![
                plain_line(
                    heading_spans(cut_tail(upper_text(name), minus(width, 7) as nat), count as nat),
                ),
            ],
            ListRowV::Note(idx) => if 0 <= idx < self.notes@.len() {
                note_lines(
                    self.notes@[idx].start,
                    self.notes@[idx].end,
                    self.notes@[idx].text@,
                    width,
                )
            } else {
                seq![plain_line(Seq::empty())]
            },
        }
    }

    /// Whether a row's indent can be written down.
    pub open spec fn drawable(row: ListRowV) -> bool {
        match row {
            ListRowV::Dir { depth, .. } => 2 * depth <= usize::MAX,
            ListRowV::Entry { depth, .. } => 2 * depth <= usize::MAX,
            _ => true,
        }
    }

    pub fn draw_row(&self, row: &ListRow, width: u16) -> (r: Vec<Line>)
        requires
            App::drawable(row.deep_view()),
        ensures
            deep(r@) == self.row_lines(row.deep_view(), width as int),
    {
        broadcast use group_deep;

        let grouped: bool = self.mode == Mode::Files && self.scope == Scope::Worktree;
        let l: Line = match row {
            ListRow::Header { title, count } => header_row(title, *count),
            ListRow::Dir { depth, name, collapsed, .. } => dir_row(
                name.as_str(),
                *depth,
                grouped,
                *collapsed,
            ),
            ListRow::Entry { idx, depth, .. } => if *idx < self.entries.len() {
                entry_row(&self.entries[*idx], width, grouped, *depth)
            } else {
                line_of(Vec::new())
            },
            ListRow::Commit(idx) => if *idx < self.commits.len() {
                commit_row(&self.commits[*idx], width)
            } else {
                line_of(Vec::new())
            },
            ListRow::NoteFile { name, count } => note_file_row(name.as_str(), *count, width),
            ListRow::Note(idx) => {
                if *idx < self.notes.len() {
                    return note_row(&self.notes[*idx], width);
                }
                line_of(Vec::new())
            },
        };
        let mut out: Vec<Line> = Vec::new();
        out.push(l);
        assert(deep(out@) =~= self.row_lines(row.deep_view(), width as int));
        out
    }
}

} // verus!
