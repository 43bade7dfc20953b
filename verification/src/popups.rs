//! The small windows: a question to be answered, and an agent to be picked.

use vstd::prelude::*;

use crate::card::dim_style;
use crate::json::{json_read, model, parse_json, Json, JsonV};
use crate::keymap::KeyCode;
use crate::list_ui::{colored, line_of, plain_line};
use crate::preview_session::picked_pane;
use crate::style::{accent, ok, span, Color, Line, Span, SpanV, Style};
use crate::text::{concat2, deep, group_deep, index_of_char, same};

verus! {

// ---- a question -----------------------------------------------------------------------------

/// The cells of the button for yes, ` yes (y) `.
pub const YES_CELLS: u16 = 9;

/// The cells of the button for no, ` no (n) `.
pub const NO_CELLS: u16 = 8;

/// The cells between the two.
pub const BUTTON_GAP: u16 = 3;

/// Where the two buttons are: their row, and where each starts and ends.
#[derive(Debug, Clone, Copy)]
pub struct Buttons {
    pub y: u16,
    pub yes: (u16, u16),
    pub no: (u16, u16),
}

/// The buttons in the middle of a line that starts at `x`.
pub open spec fn buttons_in(x: u16, y: u16, width: u16) -> Buttons {
    let total = YES_CELLS + BUTTON_GAP + NO_CELLS;
    let x0 = x + (if width > total {
        (width - total) / 2
    } else {
        0
    });
    Buttons {
        y,
        yes: (x0 as u16, (x0 + YES_CELLS) as u16),
        no: ((x0 + YES_CELLS + BUTTON_GAP) as u16, (x0 + total) as u16),
    }
}

pub fn buttons(x: u16, y: u16, width: u16) -> (r: Buttons)
    requires
        x + width + YES_CELLS + BUTTON_GAP + NO_CELLS <= u16::MAX,
    ensures
        r == buttons_in(x, y, width),
{
    let total: u16 = YES_CELLS + BUTTON_GAP + NO_CELLS;
    let x0: u16 = x + if width > total {
        (width - total) / 2
    } else {
        0
    };
    Buttons {
        y,
        yes: (x0, x0 + YES_CELLS),
        no: (x0 + YES_CELLS + BUTTON_GAP, x0 + total),
    }
}

/// What was answered.
#[derive(Debug, Clone, Copy, PartialEq, Eq, Structural)]
pub enum Reply {
    Yes,
    No,
    Cancel,
}

impl Reply {
    /// The answer as it is written down.
    pub fn word(self) -> (r: &'static str)
        ensures
            r@ == match self {
                Reply::Yes => "y"@,
                Reply::No => "n"@,
                Reply::Cancel => "cancel"@,
            },
    {
        match self {
            Reply::Yes => "y",
            Reply::No => "n",
            Reply::Cancel => "cancel",
        }
    }
}

/// The answer that a key gives, if it gives one.
pub open spec fn key_reply(code: KeyCode) -> Option<Reply> {
    match code {
        KeyCode::Enter => Some(Reply::Yes),
        KeyCode::Esc => Some(Reply::Cancel),
        KeyCode::Char(c) => if c == 'y' {
            Some(Reply::Yes)
        } else if c == 'n' {
            Some(Reply::No)
        } else if c == 'q' {
            Some(Reply::Cancel)
        } else {
            None
        },
        _ => None,
    }
}

pub fn ask_key(code: KeyCode) -> (r: Option<Reply>)
    ensures
        r == key_reply(code),
{
    match code {
        KeyCode::Enter => Some(Reply::Yes),
        KeyCode::Esc => Some(Reply::Cancel),
        KeyCode::Char(c) => if c == 'y' {
            Some(Reply::Yes)
        } else if c == 'n' {
            Some(Reply::No)
        } else if c == 'q' {
            Some(Reply::Cancel)
        } else {
            None
        },
        _ => None,
    }
}

/// The answer that a click gives, if it hits a button.
pub fn ask_click(b: Buttons, column: u16, row: u16) -> (r: Option<Reply>)
    ensures
        r == if row == b.y && b.yes.0 <= column < b.yes.1 {
            Some(Reply::Yes)
        } else if row == b.y && b.no.0 <= column < b.no.1 {
            Some(Reply::No)
        } else {
            None::<Reply>
        },
{
    if row == b.y && b.yes.0 <= column && column < b.yes.1 {
        Some(Reply::Yes)
    } else if row == b.y && b.no.0 <= column && column < b.no.1 {
        Some(Reply::No)
    } else {
        None
    }
}

/// No place on the screen answers both yes and no.
pub proof fn law_buttons_are_apart(x: u16, y: u16, width: u16, column: u16)
    requires
        x + width + YES_CELLS + BUTTON_GAP + NO_CELLS <= u16::MAX,
    ensures
        ({
            let b = buttons_in(x, y, width);
            !(b.yes.0 <= column < b.yes.1 && b.no.0 <= column < b.no.1)
        }),
{
}

// ---- an agent ------------------------------------------------------------------------------

/// An agent that can be asked.
pub struct AgentRow {
    pub pane: String,
    pub agent: String,
    pub status: String,
    pub tab: String,
    pub cwd: String,
}

#[verifier::ext_equal]
pub struct AgentRowV {
    pub pane: Seq<char>,
    pub agent: Seq<char>,
    pub status: Seq<char>,
    pub tab: Seq<char>,
    pub cwd: Seq<char>,
}

impl DeepView for AgentRow {
    type V = AgentRowV;

    open spec fn deep_view(&self) -> AgentRowV {
        AgentRowV {
            pane: self.pane@,
            agent: self.agent@,
            status: self.status@,
            tab: self.tab@,
            cwd: self.cwd@,
        }
    }
}

/// An agent in a document: a list of five strings.
pub open spec fn agent_row(j: JsonV) -> Option<AgentRowV> {
    match j.items() {
        Some(s) => if s.len() == 5 && s[0] is Str && s[1] is Str && s[2] is Str && s[3] is Str && s[4] is Str {
            Some(
                AgentRowV {
                    pane: s[0]->Str_0,
                    agent: s[1]->Str_0,
                    status: s[2]->Str_0,
                    tab: s[3]->Str_0,
                    cwd: s[4]->Str_0,
                },
            )
        } else {
            None
        },
        None => None,
    }
}

/// The agents of a document. One that holds anything else holds none.
pub open spec fn agent_rows(items: Seq<JsonV>) -> Option<Seq<AgentRowV>>
    decreases items.len(),
{
    if items.len() == 0 {
        Some(Seq::empty())
    } else {
        match (agent_rows(items.drop_last()), agent_row(items.last())) {
            (Some(s), Some(a)) => Some(s.push(a)),
            _ => None,
        }
    }
}

pub open spec fn agents_in(j: JsonV) -> Seq<AgentRowV> {
    match j.items() {
        Some(items) => match agent_rows(items) {
            Some(s) => s,
            None => Seq::empty(),
        },
        None => Seq::empty(),
    }
}

fn row_of(j: &Json) -> (r: Option<AgentRow>)
    ensures
        r.deep_view() == agent_row(model(*j)),
{
    match j {
        Json::Arr(v) => {
            let ghost s = model(*j)->Arr_0;
            assert(s.len() == v@.len());
            if v.len() != 5 {
                return None;
            }
            proof {
                assert(s[0] == model(v@[0]));
                assert(s[1] == model(v@[1]));
                assert(s[2] == model(v@[2]));
                assert(s[3] == model(v@[3]));
                assert(s[4] == model(v@[4]));
            }
            match (v[0].as_str(), v[1].as_str(), v[2].as_str(), v[3].as_str(), v[4].as_str()) {
                (Some(a), Some(b), Some(c), Some(d), Some(e)) => Some(
                    AgentRow {
                        pane: a.as_str().to_owned(),
                        agent: b.as_str().to_owned(),
                        status: c.as_str().to_owned(),
                        tab: d.as_str().to_owned(),
                        cwd: e.as_str().to_owned(),
                    },
                ),
                _ => None,
            }
        },
        _ => None,
    }
}

proof fn lemma_rows_fail(items: Seq<JsonV>, i: int, n: int)
    requires
        0 <= i < n <= items.len(),
        agent_row(items[i]) is None,
    ensures
        agent_rows(items.take(n)) is None,
    decreases n,
{
    assert(items.take(n).drop_last() =~= items.take(n - 1));
    if n - 1 > i {
        lemma_rows_fail(items, i, n - 1);
    }
}

/// The agents of a document.
pub fn agents_of(j: &Json) -> (r: Vec<AgentRow>)
    ensures
        deep(r@) == agents_in(model(*j)),
{
    broadcast use group_deep;

    match j {
        Json::Arr(v) => {
            let ghost items = model(*j)->Arr_0;
            let mut out: Vec<AgentRow> = Vec::new();
            let mut i: usize = 0;
            assert(agent_rows(items.take(0)) == Some(Seq::<AgentRowV>::empty()));
            while i < v.len()
                invariant
                    i <= v@.len(),
                    *j == Json::Arr(*v),
                    items == model(*j)->Arr_0,
                    items.len() == v@.len(),
                    agent_rows(items.take(i as int)) == Some(deep(out@)),
                decreases v@.len() - i,
            {
                assert(items.take(i + 1).drop_last() =~= items.take(i as int));
                assert(items[i as int] == model(v@[i as int]));
                match row_of(&v[i]) {
                    Some(a) => {
                        out.push(a);
                    },
                    None => {
                        proof {
                            lemma_rows_fail(items, i as int, items.len() as int);
                            assert(items.take(items.len() as int) =~= items);
                        }
                        return Vec::new();
                    },
                }
                i += 1;
            }
            assert(items.take(i as int) =~= items);
            out
        },
        _ => Vec::new(),
    }
}

/// The agents that a text holds; none where it is no document.
pub fn read_agents(text: &str) -> (r: Vec<AgentRow>)
    ensures
        deep(r@) == match json_read(text@) {
            Ok(j) => agents_in(j),
            Err(_) => Seq::empty(),
        },
{
    broadcast use group_deep;

    match parse_json(text) {
        Ok(j) => agents_of(&j),
        Err(_) => Vec::new(),
    }
}

/// A member that is a string; empty where there is none.
pub open spec fn said(j: JsonV, key: Seq<char>) -> Seq<char> {
    match j.text_at(key) {
        Some(s) => s,
        None => Seq::empty(),
    }
}

fn said_of(j: &Json, key: &str) -> (r: String)
    ensures
        r@ == said(model(*j), key@),
{
    match j.str_at(key) {
        Some(s) => s.as_str().to_owned(),
        None => String::new(),
    }
}

/// An agent as the host lists it.
pub open spec fn listed(j: JsonV) -> AgentRowV {
    AgentRowV {
        pane: said(j, "pane_id"@),
        agent: said(j, "agent"@),
        status: said(j, "agent_status"@),
        tab: said(j, "tab_label"@),
        cwd: said(j, "cwd"@),
    }
}

/// The agents that have a pane, in a workspace or, where none is given, in any.
pub open spec fn agents_here(items: Seq<JsonV>, workspace: Option<Seq<char>>) -> Seq<AgentRowV>
    decreases items.len(),
{
    if items.len() == 0 {
        Seq::empty()
    } else {
        let init = agents_here(items.drop_last(), workspace);
        let j = items.last();
        if (workspace is None || workspace == Some(said(j, "workspace_id"@))) && said(j, "pane_id"@).len()
            > 0 {
            init.push(listed(j))
        } else {
            init
        }
    }
}

/// The agents in the host's reply.
pub open spec fn agents_told(reply: JsonV, workspace: Option<Seq<char>>) -> Seq<AgentRowV> {
    match reply.get2("result"@, "agents"@) {
        Some(j) => match j.items() {
            Some(items) => agents_here(items, workspace),
            None => Seq::empty(),
        },
        None => Seq::empty(),
    }
}

/// The agents that the host lists for a workspace.
pub fn workspace_agents(reply: &Json, workspace: Option<&str>) -> (r: Vec<AgentRow>)
    ensures
        deep(r@) == agents_told(model(*reply), workspace.deep_view()),
{
    broadcast use group_deep;

    let mut out: Vec<AgentRow> = Vec::new();
    let found: &Json = match reply.get2("result", "agents") {
        Some(j) => j,
        None => {
            return out;
        },
    };
    let v: &Vec<Json> = match found {
        Json::Arr(v) => v,
        _ => {
            return out;
        },
    };
    let ghost items = model(*found)->Arr_0;
    let ghost w = workspace.deep_view();
    let mut i: usize = 0;
    while i < v.len()
        invariant
            i <= v@.len(),
            *found == Json::Arr(*v),
            items == model(*found)->Arr_0,
            items.len() == v@.len(),
            w == workspace.deep_view(),
            deep(out@) == agents_here(items.take(i as int), w),
        decreases v@.len() - i,
    {
        assert(items.take(i + 1).drop_last() =~= items.take(i as int));
        assert(items[i as int] == model(v@[i as int]));
        let j: &Json = &v[i];
        let ours: bool = match workspace {
            Some(w) => same(said_of(j, "workspace_id").as_str(), w),
            None => true,
        };
        let pane: String = said_of(j, "pane_id");
        if ours && !pane.as_str().is_empty() {
            out.push(
                AgentRow {
                    pane,
                    agent: said_of(j, "agent"),
                    status: said_of(j, "agent_status"),
                    tab: said_of(j, "tab_label"),
                    cwd: said_of(j, "cwd"),
                },
            );
        }
        i += 1;
    }
    assert(items.take(i as int) =~= items);
    out
}

pub open spec fn status_color(status: Seq<char>) -> Color {
    if status == "idle"@ {
        ok()
    } else if status == "working"@ {
        accent()
    } else {
        Color::DarkGray
    }
}

pub fn color_for_status(status: &str) -> (r: Color)
    ensures
        r == status_color(status@),
{
    if same(status, "idle") {
        ok()
    } else if same(status, "working") {
        accent()
    } else {
        Color::DarkGray
    }
}

/// An agent's row in the picker.
pub open spec fn picker_spans(a: AgentRowV) -> Seq<SpanV> {
    seq![
        span("  "@ + a.agent, Style { bold: true, ..Style::plain() }),
        span(" · "@ + a.status, colored(status_color(a.status))),
    ] + (if a.tab.len() > 0 {
        seq![span("  tab: "@ + a.tab, Style::plain())]
    } else {
        seq![]
    }) + (if a.cwd.len() > 0 {
        seq![span("  "@ + a.cwd, dim_style())]
    } else {
        seq![]
    }) + seq![span("  "@ + a.pane, dim_style())]
}

pub fn picker_row(a: &AgentRow) -> (r: Line)
    ensures
        r.deep_view() == plain_line(picker_spans(a.deep_view())),
{
    broadcast use group_deep;

    let mut spans: Vec<Span> = Vec::new();
    spans.push(Span::styled(concat2("  ", a.agent.as_str()), Style::new().bold()));
    spans.push(
        Span::styled(
            concat2(" · ", a.status.as_str()),
            Style::new().fg(color_for_status(a.status.as_str())),
        ),
    );
    if a.tab.as_str().unicode_len() > 0 {
        spans.push(Span::raw(concat2("  tab: ", a.tab.as_str())));
    }
    if a.cwd.as_str().unicode_len() > 0 {
        spans.push(Span::styled(concat2("  ", a.cwd.as_str()), dim_style()));
    }
    spans.push(Span::styled(concat2("  ", a.pane.as_str()), dim_style()));
    assert(deep(spans@) =~= picker_spans(a.deep_view()));
    line_of(spans)
}

/// What a key or a click in the picker leads to.
#[derive(Debug, Clone, Copy, PartialEq, Eq, Structural)]
pub enum Pick {
    /// The cursor is here now.
    At(usize),
    Chosen(usize),
    Cancelled,
}

/// A key in the picker.
pub fn pick_key(code: KeyCode, cursor: usize, agents: usize) -> (r: Pick)
    requires
        cursor < agents,
    ensures
        r == match code {
            KeyCode::Enter => Pick::Chosen(cursor),
            KeyCode::Esc => Pick::Cancelled,
            _ => if code == KeyCode::Char('q') {
                Pick::Cancelled
            } else if code == KeyCode::Down || code == KeyCode::Char('j') {
                Pick::At(
                    if cursor + 1 < agents {
                        (cursor + 1) as usize
                    } else {
                        cursor
                    },
                )
            } else if code == KeyCode::Up || code == KeyCode::Char('k') {
                Pick::At(
                    if cursor > 0 {
                        (cursor - 1) as usize
                    } else {
                        0
                    },
                )
            } else {
                Pick::At(cursor)
            },
        },
        r matches Pick::At(k) ==> k < agents,
{
    let down: usize = if cursor + 1 < agents {
        cursor + 1
    } else {
        cursor
    };
    let up: usize = if cursor > 0 {
        cursor - 1
    } else {
        0
    };
    match code {
        KeyCode::Enter => Pick::Chosen(cursor),
        KeyCode::Esc => Pick::Cancelled,
        KeyCode::Down => Pick::At(down),
        KeyCode::Up => Pick::At(up),
        KeyCode::Char(c) => if c == 'q' {
            Pick::Cancelled
        } else if c == 'j' {
            Pick::At(down)
        } else if c == 'k' {
            Pick::At(up)
        } else {
            Pick::At(cursor)
        },
        _ => Pick::At(cursor),
    }
}

/// A click in the picker, whose first line is its title. A click on the row at
/// the cursor chooses it.
pub fn pick_click(row: u16, cursor: usize, agents: usize) -> (r: Pick)
    requires
        cursor < agents,
    ensures
        ({
            let k = if row > 0 {
                row - 1
            } else {
                0
            };
            r == if k >= agents {
                Pick::At(cursor)
            } else if k == cursor {
                Pick::Chosen(cursor)
            } else {
                Pick::At(k as usize)
            }
        }),
        r matches Pick::At(k) ==> k < agents,
{
    let k: usize = if row > 0 {
        (row - 1) as usize
    } else {
        0
    };
    if k >= agents {
        Pick::At(cursor)
    } else if k == cursor {
        Pick::Chosen(k)
    } else {
        Pick::At(k)
    }
}

/// The answer of the picker: the pane of the chosen agent.
pub fn pick_answer(pane: &str) -> (r: String)
    ensures
        r@ == pane@ + "\tsubmit"@,
{
    concat2(pane, "\tsubmit")
}

/// The diff pane reads in the picker's answer the pane that was chosen.
pub proof fn law_answer_names_the_pane(pane: Seq<char>)
    requires
        !pane.contains('\t'),
    ensures
        picked_pane(pane + "\tsubmit"@) == Some(pane),
{
    reveal_strlit("\tsubmit");
    reveal_strlit("cancel");
    let s = pane + "\tsubmit"@;
    lemma_index_behind(pane, "\tsubmit"@, '\t');
    assert(s[pane.len() as int] == '\t');
    if s == "cancel"@ {
        assert("cancel"@[pane.len() as int] == '\t');
    }
    assert(s.take(pane.len() as int) =~= pane);
}

proof fn lemma_index_behind(a: Seq<char>, b: Seq<char>, c: char)
    requires
        !a.contains(c),
        b.len() > 0,
        b[0] == c,
    ensures
        index_of_char(a + b, c) == a.len(),
    decreases a.len(),
{
    if a.len() == 0 {
        assert(a + b =~= b);
    } else {
        assert(a[0] != c);
        let t = a.skip(1);
        assert(!t.contains(c)) by {
            if t.contains(c) {
                let k = choose|k: int| 0 <= k < t.len() && t[k] == c;
                assert(a[k + 1] == c);
            }
        }
        assert((a + b).skip(1) =~= t + b);
        lemma_index_behind(t, b, c);
    }
}

} // verus!
