//! A commit's message in the diff pane, where there is room for all of it.

use vstd::prelude::*;

use crate::card::dim_style;
use crate::docview::ViewV;
use crate::list_ui::{line_of, one_line_of, plain_line};
use crate::preview::{PreviewApp, State};
use crate::style::{span, Line, LineV, Span, Style};
use crate::text::{concat3, deep, group_deep, lines, lines_of};

verus! {

/// Lines of plain text.
pub open spec fn plain_lines(s: Seq<Seq<char>>) -> Seq<LineV>
    decreases s.len(),
{
    if s.len() == 0 {
        Seq::empty()
    } else {
        plain_lines(s.drop_last()).push(plain_line(seq![span(s.last(), Style::plain())]))
    }
}

/// A commit's message as a document: the subject, who wrote it and when, and
/// below an empty line the body, if there is one.
pub open spec fn message_doc(
    short: Seq<char>,
    subject: Seq<char>,
    author: Seq<char>,
    date: Seq<char>,
    body: Seq<char>,
) -> Seq<LineV> {
    let head = seq![
        plain_line(seq![span(subject, Style { bold: true, ..Style::plain() })]),
        plain_line(seq![span(short + " · "@ + author + " · "@ + date, dim_style())]),
    ];
    if body.len() == 0 {
        head
    } else {
        head.push(plain_line(seq![])) + plain_lines(lines(body))
    }
}

pub fn message_lines(short: &str, subject: &str, author: &str, date: &str, body: &str) -> (r: Vec<Line>)
    ensures
        deep(r@) == message_doc(short@, subject@, author@, date@, body@),
{
    broadcast use group_deep;

    let by: String = concat3(short, " · ", author);
    let when: String = concat3(by.as_str(), " · ", date);
    assert(when@ =~= short@ + " · "@ + author@ + " · "@ + date@);
    let mut out: Vec<Line> = Vec::new();
    out.push(one_line_of(subject.to_owned(), Style::new().bold()));
    out.push(one_line_of(when, dim_style()));
    let ghost head = seq![
        plain_line(seq![span(subject@, Style { bold: true, ..Style::plain() })]),
        plain_line(seq![span(short@ + " · "@ + author@ + " · "@ + date@, dim_style())]),
    ];
    assert(deep(out@) =~= head);
    if body.unicode_len() == 0 {
        return out;
    }
    let none: Vec<Span> = Vec::new();
    assert(deep(none@) =~= seq![]);
    out.push(line_of(none));
    let ls: Vec<String> = lines_of(body);
    let ghost top = head.push(plain_line(seq![]));
    let ghost all = deep(ls@);
    assert(deep(out@) =~= top + plain_lines(all.take(0)));
    let mut i: usize = 0;
    while i < ls.len()
        invariant
            i <= ls@.len(),
            all == deep(ls@),
            deep(out@) == top + plain_lines(all.take(i as int)),
        decreases ls@.len() - i,
    {
        assert(all.take(i + 1).drop_last() =~= all.take(i as int));
        assert(all.take(i + 1).last() == ls@[i as int]@);
        let ghost done = plain_lines(all.take(i as int));
        let l: Line = one_line_of(ls[i].as_str().to_owned(), Style::new());
        assert(plain_lines(all.take(i + 1)) == done.push(l.deep_view()));
        let ghost before = deep(out@);
        out.push(l);
        assert(deep(out@) =~= before.push(l.deep_view()));
        assert(before.push(l.deep_view()) =~= top + done.push(l.deep_view()));
        i += 1;
    }
    assert(all.take(all.len() as int) =~= all);
    out
}

impl PreviewApp {
    /// The pane with a commit's message on screen, in place of any diff.
    pub open spec fn reads(
        self,
        after: PreviewApp,
        short: Seq<char>,
        subject: Seq<char>,
        author: Seq<char>,
        date: Seq<char>,
        body: Seq<char>,
    ) -> bool {
        &&& after == (PreviewApp {
            current: None,
            built: None,
            shown_file: None,
            first_change: None,
            view: after.view,
            state: after.state,
            ..self
        })
        &&& after.state matches State::Message(s)
        &&& s@ == short
        &&& after.view.model() == (ViewV {
            doc: message_doc(short, subject, author, date, body),
            card_lines: Seq::empty(),
            card_starts: Seq::empty(),
            composer_span: None,
            saved: Seq::empty(),
            cursor: 0,
            select: None,
            scroll: 0,
            ..self.view.model()
        }).rewrapped()
    }

    /// Put a commit's message on screen.
    pub fn show_commit_message(&mut self, short: &str, subject: &str, author: &str, date: &str, body: &str)
        requires
            old(self).wf(),
        ensures
            final(self).wf(),
            old(self).reads(*final(self), short@, subject@, author@, date@, body@),
    {
        self.clear();
        self.view.doc = message_lines(short, subject, author, date, body);
        self.view.card_lines = Vec::new();
        self.view.card_starts = Vec::new();
        self.view.composer_span = None;
        self.view.cursor_line = 0;
        self.view.select_anchor = None;
        proof {
            assert(self.view.model().card_lines =~= Seq::<usize>::empty());
            assert(self.view.model().card_starts =~= Seq::<(u64, usize, usize)>::empty());
        }
        self.view.sync_wrapped();
        self.state = State::Message(short.to_owned());
    }
}

} // verus!
