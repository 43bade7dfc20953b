//! What the host is asked to do to open a view, to close it, and to undo an
//! opening that was interrupted.

use vstd::prelude::*;

use crate::config::ListSide;
use crate::git_repo::words;
use crate::orchestrate::{ViewMode, ViewState};
use crate::text::{concat2, deep, group_deep, has_text, same};

verus! {

/// The name that the host knows this program by.
pub const PLUGIN_ID: &'static str = "chmarax.gitview";

/// A thing to be done.
#[derive(Debug)]
pub enum Cmd {
    /// A command of the host's; where it must succeed, its failure ends the
    /// whole.
    Run { args: Vec<String>, must: bool },
    /// Grow a pane to a side until the split is at this percentage, from its
    /// middle. If it cannot be done, it is not.
    Resize { pane: String, toward: &'static str, percent: u8 },
    /// Note on disk how to undo what comes.
    SaveRecovery,
    DropRecovery,
    /// Note on disk that the view is open.
    WriteState,
}

#[verifier::ext_equal]
pub enum CmdV {
    Run { args: Seq<Seq<char>>, must: bool },
    Resize { pane: Seq<char>, toward: Seq<char>, percent: u8 },
    SaveRecovery,
    DropRecovery,
    WriteState,
}

impl DeepView for Cmd {
    type V = CmdV;

    open spec fn deep_view(&self) -> CmdV {
        match *self {
            Cmd::Run { args, must } => CmdV::Run { args: deep(args@), must },
            Cmd::Resize { pane, toward, percent } => CmdV::Resize {
                pane: pane@,
                toward: toward@,
                percent,
            },
            Cmd::SaveRecovery => CmdV::SaveRecovery,
            Cmd::DropRecovery => CmdV::DropRecovery,
            Cmd::WriteState => CmdV::WriteState,
        }
    }
}

pub open spec fn must(args: Seq<Seq<char>>) -> CmdV {
    CmdV::Run { args, must: true }
}

pub open spec fn may(args: Seq<Seq<char>>) -> CmdV {
    CmdV::Run { args, must: false }
}

fn run(ws: &[&str], must_succeed: bool) -> (r: Cmd)
    ensures
        r.deep_view() == (CmdV::Run { args: deep(ws@), must: must_succeed }),
{
    Cmd::Run { args: words(ws), must: must_succeed }
}

// ---- panes of ours ------------------------------------------------------------------------

/// The command that opens one of our panes.
pub open spec fn open_pane_words(repo: Seq<char>, socket: Seq<char>, entrypoint: Seq<char>, placement: Seq<Seq<char>>, preview: Option<Seq<char>>) -> Seq<Seq<char>> {
    seq![
        "plugin"@,
        "pane"@,
        "open"@,
        "--plugin"@,
        PLUGIN_ID@,
        "--entrypoint"@,
        entrypoint,
        "--cwd"@,
        repo,
        "--env"@,
        "GITVIEW_REPO="@ + repo,
        "--env"@,
        "GITVIEW_SOCKET="@ + socket,
    ] + (match preview {
        Some(p) => seq!["--env"@, "GITVIEW_PREVIEW_PANE="@ + p],
        None => seq![],
    }) + placement
}

pub fn open_pane_args(repo: &str, socket: &str, entrypoint: &str, placement: &[&str], preview: Option<&str>) -> (r: Vec<String>)
    ensures
        deep(r@) == open_pane_words(
            repo@,
            socket@,
            entrypoint@,
            deep(placement@),
            match preview {
                Some(p) => Some(p@),
                None => None,
            },
        ),
{
    broadcast use group_deep;

    let repo_env: String = concat2("GITVIEW_REPO=", repo);
    let socket_env: String = concat2("GITVIEW_SOCKET=", socket);
    let head: &[&str] = &[
        "plugin",
        "pane",
        "open",
        "--plugin",
        PLUGIN_ID,
        "--entrypoint",
        entrypoint,
        "--cwd",
        repo,
        "--env",
        repo_env.as_str(),
        "--env",
        socket_env.as_str(),
    ];
    let mut args: Vec<String> = words(head);
    match preview {
        Some(p) => {
            args.push("--env".to_owned());
            args.push(concat2("GITVIEW_PREVIEW_PANE=", p));
        },
        None => {},
    }
    let mut rest: Vec<String> = words(placement);
    args.append(&mut rest);
    assert(deep(args@) =~= open_pane_words(
        repo@,
        socket@,
        entrypoint@,
        deep(placement@),
        match preview {
            Some(p) => Some(p@),
            None => None,
        },
    ));
    args
}

/// The diff pane of a view in a tab of its own.
pub fn tab_preview_args(repo: &str, socket: &str) -> (r: Vec<String>)
    ensures
        deep(r@) == open_pane_words(
            repo@,
            socket@,
            "preview"@,
            seq!["--placement"@, "tab"@, "--no-focus"@],
            None,
        ),
{
    let place: &[&str] = &["--placement", "tab", "--no-focus"];
    assert(deep(place@) =~= seq!["--placement"@, "tab"@, "--no-focus"@]);
    open_pane_args(repo, socket, "preview", place, None)
}

/// The words that put a pane to the right of another.
pub open spec fn right_of(pane: Seq<char>, focus: Seq<char>) -> Seq<Seq<char>> {
    seq!["--placement"@, "split"@, "--direction"@, "right"@, "--target-pane"@, pane, focus]
}

/// The diff pane of a sidebar, at the right of what is left in the tab.
pub fn sidebar_preview_args(repo: &str, socket: &str, anchor: &str) -> (r: Vec<String>)
    ensures
        deep(r@) == open_pane_words(
            repo@,
            socket@,
            "preview"@,
            right_of(anchor@, "--no-focus"@),
            None,
        ),
{
    let place: &[&str] = &[
        "--placement",
        "split",
        "--direction",
        "right",
        "--target-pane",
        anchor,
        "--no-focus",
    ];
    assert(deep(place@) =~= right_of(anchor@, "--no-focus"@));
    open_pane_args(repo, socket, "preview", place, None)
}

/// The list pane, at the right of the diff pane. It is told which that is, and
/// takes the focus.
pub fn list_args(repo: &str, socket: &str, preview: &str) -> (r: Vec<String>)
    ensures
        deep(r@) == open_pane_words(
            repo@,
            socket@,
            "list"@,
            right_of(preview@, "--focus"@),
            Some(preview@),
        ),
{
    let place: &[&str] = &[
        "--placement",
        "split",
        "--direction",
        "right",
        "--target-pane",
        preview,
        "--focus",
    ];
    assert(deep(place@) =~= right_of(preview@, "--focus"@));
    open_pane_args(repo, socket, "list", place, Some(preview))
}

/// The first pane that was not there before.
pub open spec fn newcomer(before: Seq<Seq<char>>, after: Seq<Seq<char>>) -> Option<Seq<char>>
    decreases after.len(),
{
    if after.len() == 0 {
        None
    } else if !before.contains(after[0]) {
        Some(after[0])
    } else {
        newcomer(before, after.skip(1))
    }
}

pub fn new_pane(before: &Vec<String>, after: &Vec<String>) -> (r: Option<String>)
    ensures
        r.deep_view() == newcomer(deep(before@), deep(after@)),
{
    let ghost all = deep(after@);
    assert(all.skip(0) =~= all);
    let mut i: usize = 0;
    while i < after.len()
        invariant
            i <= after@.len(),
            all == deep(after@),
            newcomer(deep(before@), all) == newcomer(deep(before@), all.skip(i as int)),
        decreases after@.len() - i,
    {
        assert(all.skip(i as int)[0] == after@[i as int]@);
        assert(all.skip(i as int).skip(1) =~= all.skip(i + 1));
        if !has_text(before, after[i].as_str()) {
            return Some(after[i].as_str().to_owned());
        }
        i += 1;
    }
    assert(all.skip(i as int).len() == 0);
    None
}

/// How often the panes are looked at for a new one.
pub const NEW_PANE_LOOKS: u8 = 10;

/// What to do about a pane whose name the host did not give.
#[derive(Debug)]
pub enum Hunt {
    Found(String),
    /// Wait, and look again; so often it has been looked for.
    Again(u8),
    GiveUp,
}

/// Look for a new pane, after `looks` looks in vain.
pub fn hunt_pane(before: &Vec<String>, after: &Vec<String>, looks: u8) -> (r: Hunt)
    ensures
        match newcomer(deep(before@), deep(after@)) {
            Some(p) => r matches Hunt::Found(id) && id@ == p,
            None => if looks + 1 < NEW_PANE_LOOKS {
                r == Hunt::Again((looks + 1) as u8)
            } else {
                r == Hunt::GiveUp
            },
        },
{
    match new_pane(before, after) {
        Some(id) => Hunt::Found(id),
        None => if looks < NEW_PANE_LOOKS - 1 {
            Hunt::Again(looks + 1)
        } else {
            Hunt::GiveUp
        },
    }
}

// ---- sizes --------------------------------------------------------------------------------

/// A split starts in its middle; the sidebar's is moved to its percentage.
pub open spec fn sidebar_size(anchor: Seq<char>, preview: Seq<char>, percent: u8) -> Seq<CmdV> {
    if percent == 50 {
        seq![]
    } else if percent < 50 {
        seq![CmdV::Resize { pane: anchor, toward: "right"@, percent }]
    } else {
        seq![CmdV::Resize { pane: preview, toward: "left"@, percent }]
    }
}

/// The list's share, and its side: on the left, the panes change places first.
pub open spec fn list_size(preview: Seq<char>, list: Seq<char>, side: ListSide, percent: u8) -> Seq<CmdV> {
    let left = side == ListSide::Left;
    (if left {
        seq![may(seq!["pane"@, "swap"@, "--source-pane"@, preview, "--target-pane"@, list])]
    } else {
        seq![]
    }) + (if percent == 50 {
        seq![]
    } else if percent < 50 {
        seq![
            CmdV::Resize {
                pane: preview,
                toward: if left {
                    "left"@
                } else {
                    "right"@
                },
                percent,
            },
        ]
    } else {
        seq![
            CmdV::Resize {
                pane: list,
                toward: if left {
                    "right"@
                } else {
                    "left"@
                },
                percent,
            },
        ]
    })
}

pub fn size_sidebar(anchor: &str, preview: &str, percent: u8) -> (r: Vec<Cmd>)
    ensures
        deep(r@) == sidebar_size(anchor@, preview@, percent),
{
    broadcast use group_deep;

    let mut out: Vec<Cmd> = Vec::new();
    if percent < 50 {
        out.push(Cmd::Resize { pane: anchor.to_owned(), toward: "right", percent });
    } else if percent > 50 {
        out.push(Cmd::Resize { pane: preview.to_owned(), toward: "left", percent });
    }
    assert(deep(out@) =~= sidebar_size(anchor@, preview@, percent));
    out
}

pub fn size_list(preview: &str, list: &str, side: ListSide, percent: u8) -> (r: Vec<Cmd>)
    ensures
        deep(r@) == list_size(preview@, list@, side, percent),
{
    broadcast use group_deep;

    let left: bool = match side {
        ListSide::Left => true,
        ListSide::Right => false,
    };
    let mut out: Vec<Cmd> = Vec::new();
    if left {
        let ws: &[&str] = &["pane", "swap", "--source-pane", preview, "--target-pane", list];
        out.push(run(ws, false));
        assert(deep(ws@) =~= seq![
            "pane"@,
            "swap"@,
            "--source-pane"@,
            preview@,
            "--target-pane"@,
            list@,
        ]);
    }
    if percent < 50 {
        out.push(
            Cmd::Resize {
                pane: preview.to_owned(),
                toward: if left {
                    "left"
                } else {
                    "right"
                },
                percent,
            },
        );
    } else if percent > 50 {
        out.push(
            Cmd::Resize {
                pane: list.to_owned(),
                toward: if left {
                    "right"
                } else {
                    "left"
                },
                percent,
            },
        );
    }
    assert(deep(out@) =~= list_size(preview@, list@, side, percent));
    out
}

// ---- moving panes ----------------------------------------------------------------------------

/// The side that a pane is put to.
#[derive(Debug, Clone, Copy, PartialEq, Eq, Structural)]
pub enum Dir {
    Right,
    Down,
}

impl Dir {
    pub open spec fn word(self) -> Seq<char> {
        match self {
            Dir::Right => "right"@,
            Dir::Down => "down"@,
        }
    }

    pub fn as_cli_arg(self) -> (r: &'static str)
        ensures
            r@ == self.word(),
    {
        match self {
            Dir::Right => "right",
            Dir::Down => "down",
        }
    }
}

/// A pane to be put back: as a split of another one, which keeps its share.
pub struct MoveStep {
    pub pane: String,
    pub target: String,
    pub dir: Dir,
    /// The share, as the host reads it.
    pub ratio: String,
}

/// The command that moves a pane into a tab.
pub open spec fn move_words(pane: Seq<char>, tab: Seq<char>, dir: Dir, target: Option<(Seq<char>, Seq<char>)>) -> Seq<Seq<char>> {
    seq!["pane"@, "move"@, pane, "--tab"@, tab, "--split"@, dir.word()] + (match target {
        Some(t) => seq!["--target-pane"@, t.0, "--ratio"@, t.1],
        None => seq![],
    }) + seq!["--no-focus"@]
}

pub fn move_pane(pane: &str, tab: &str, dir: Dir, target: Option<(&str, &str)>) -> (r: Vec<String>)
    ensures
        deep(r@) == move_words(
            pane@,
            tab@,
            dir,
            match target {
                Some(t) => Some((t.0@, t.1@)),
                None => None,
            },
        ),
{
    broadcast use group_deep;

    let head: &[&str] = &["pane", "move", pane, "--tab", tab, "--split", dir.as_cli_arg()];
    let mut args: Vec<String> = words(head);
    match target {
        Some(t) => {
            let more: &[&str] = &["--target-pane", t.0, "--ratio", t.1];
            let mut tail: Vec<String> = words(more);
            args.append(&mut tail);
        },
        None => {},
    }
    args.push("--no-focus".to_owned());
    assert(deep(args@) =~= move_words(
        pane@,
        tab@,
        dir,
        match target {
            Some(t) => Some((t.0@, t.1@)),
            None => None,
        },
    ));
    args
}

pub open spec fn step_words(step: MoveStep, tab: Seq<char>) -> Seq<Seq<char>> {
    move_words(step.pane@, tab, step.dir, Some((step.target@, step.ratio@)))
}

/// All panes but the one that stays.
pub open spec fn others(panes: Seq<Seq<char>>, anchor: Seq<char>) -> Seq<Seq<char>>
    decreases panes.len(),
{
    if panes.len() == 0 {
        Seq::empty()
    } else if panes.last() == anchor {
        others(panes.drop_last(), anchor)
    } else {
        others(panes.drop_last(), anchor).push(panes.last())
    }
}

pub fn parked_panes(panes: &Vec<String>, anchor: &str) -> (r: Vec<String>)
    ensures
        deep(r@) == others(deep(panes@), anchor@),
{
    broadcast use group_deep;

    let ghost all = deep(panes@);
    let mut out: Vec<String> = Vec::new();
    let mut i: usize = 0;
    while i < panes.len()
        invariant
            i <= panes@.len(),
            all == deep(panes@),
            deep(out@) == others(all.take(i as int), anchor@),
        decreases panes@.len() - i,
    {
        assert(all.take(i + 1).drop_last() =~= all.take(i as int));
        assert(all[i as int] == panes@[i as int]@);
        if !same(panes[i].as_str(), anchor) {
            out.push(panes[i].as_str().to_owned());
        }
        i += 1;
    }
    out
}

/// The panes of the tab are parked, so that the sidebar can take its full
/// height. How to undo it is noted first.
pub open spec fn evacuation(parked: Seq<Seq<char>>, parking_tab: Seq<char>) -> Seq<CmdV> {
    seq![CmdV::SaveRecovery] + Seq::new(
        parked.len(),
        |i: int| must(move_words(parked[i], parking_tab, Dir::Right, None)),
    )
}

pub fn evacuate(parked: &Vec<String>, parking_tab: &str) -> (r: Vec<Cmd>)
    ensures
        deep(r@) == evacuation(deep(parked@), parking_tab@),
{
    broadcast use group_deep;

    let ghost all = deep(parked@);
    let ghost want = evacuation(all, parking_tab@);
    let mut out: Vec<Cmd> = Vec::new();
    out.push(Cmd::SaveRecovery);
    let mut i: usize = 0;
    assert(deep(out@) =~= want.take(1));
    while i < parked.len()
        invariant
            i <= parked@.len(),
            all == deep(parked@),
            want == evacuation(all, parking_tab@),
            deep(out@) == want.take(i + 1),
        decreases parked@.len() - i,
    {
        assert(all[i as int] == parked@[i as int]@);
        let c = Cmd::Run {
            args: move_pane(parked[i].as_str(), parking_tab, Dir::Right, None),
            must: true,
        };
        assert(c.deep_view() == want[i + 1]);
        out.push(c);
        assert(want.take(i + 2) =~= want.take(i + 1).push(want[i + 1]));
        i += 1;
    }
    assert(want.take(i + 1) =~= want);
    out
}

/// The end of an opening: the panes are put back beside the sidebar, what was
/// needed meanwhile is dropped, the list takes the focus, and the view is noted
/// as open.
pub open spec fn finish(steps: Seq<MoveStep>, tab: Seq<char>, placeholder: Option<Seq<char>>, list: Seq<char>) -> Seq<CmdV> {
    Seq::new(steps.len(), |i: int| must(step_words(steps[i], tab))) + (match placeholder {
        Some(p) => seq![may(seq!["pane"@, "close"@, p])],
        None => seq![],
    }) + seq![
        CmdV::DropRecovery,
        may(seq!["plugin"@, "pane"@, "focus"@, list]),
        CmdV::WriteState,
    ]
}

fn push_steps(steps: &Vec<MoveStep>, tab: &str) -> (r: Vec<Cmd>)
    ensures
        deep(r@) == Seq::new(steps@.len(), |i: int| must(step_words(steps@[i], tab@))),
{
    broadcast use group_deep;

    let ghost want = Seq::new(steps@.len(), |i: int| must(step_words(steps@[i], tab@)));
    let mut out: Vec<Cmd> = Vec::new();
    let mut i: usize = 0;
    assert(want.take(0) =~= Seq::<CmdV>::empty());
    while i < steps.len()
        invariant
            i <= steps@.len(),
            want == Seq::new(steps@.len(), |i: int| must(step_words(steps@[i], tab@))),
            deep(out@) == want.take(i as int),
        decreases steps@.len() - i,
    {
        let s: &MoveStep = &steps[i];
        let c = Cmd::Run {
            args: move_pane(
                s.pane.as_str(),
                tab,
                s.dir,
                Some((s.target.as_str(), s.ratio.as_str())),
            ),
            must: true,
        };
        assert(c.deep_view() == want[i as int]);
        out.push(c);
        assert(want.take(i + 1) =~= want.take(i as int).push(want[i as int]));
        i += 1;
    }
    assert(want.take(i as int) =~= want);
    out
}

pub fn finish_sidebar(steps: &Vec<MoveStep>, tab: &str, placeholder: Option<&str>, list: &str) -> (r: Vec<Cmd>)
    ensures
        deep(r@) == finish(
            steps@,
            tab@,
            match placeholder {
                Some(p) => Some(p@),
                None => None,
            },
            list@,
        ),
{
    broadcast use group_deep;

    let mut out: Vec<Cmd> = push_steps(steps, tab);
    match placeholder {
        Some(p) => {
            let ws: &[&str] = &["pane", "close", p];
            out.push(run(ws, false));
            assert(deep(ws@) =~= seq!["pane"@, "close"@, p@]);
        },
        None => {},
    }
    out.push(Cmd::DropRecovery);
    let ws: &[&str] = &["plugin", "pane", "focus", list];
    assert(deep(ws@) =~= seq!["plugin"@, "pane"@, "focus"@, list@]);
    out.push(run(ws, false));
    out.push(Cmd::WriteState);
    assert(deep(out@) =~= finish(
        steps@,
        tab@,
        match placeholder {
            Some(p) => Some(p@),
            None => None,
        },
        list@,
    ));
    out
}

// ---- undoing ------------------------------------------------------------------------------------

/// What an interrupted opening left behind.
pub struct RecoverState {
    pub tab: String,
    pub parking_tab: String,
    pub parked: Vec<String>,
    pub steps: Vec<MoveStep>,
}

/// The moves that undo it: of each pane that was parked and is still there.
pub open spec fn undone(steps: Seq<MoveStep>, parked: Seq<Seq<char>>, alive: Seq<bool>, tab: Seq<char>) -> Seq<CmdV>
    decreases steps.len(),
{
    if steps.len() == 0 {
        Seq::empty()
    } else {
        let s = undone(steps.drop_last(), parked, alive, tab);
        let k = steps.len() - 1;
        if parked.contains(steps[k].pane@) && k < alive.len() && alive[k] {
            s.push(may(step_words(steps[k], tab)))
        } else {
            s
        }
    }
}

/// Undo an interrupted opening: the panes go back, and the tab that they were
/// parked in goes.
pub fn replay_recovery(rec: &RecoverState, alive: &Vec<bool>) -> (r: Vec<Cmd>)
    ensures
        deep(r@) == undone(rec.steps@, deep(rec.parked@), alive@, rec.tab@) + seq![
            may(seq!["tab"@, "close"@, rec.parking_tab@]),
            CmdV::DropRecovery,
        ],
{
    broadcast use group_deep;

    let mut out: Vec<Cmd> = Vec::new();
    let mut i: usize = 0;
    while i < rec.steps.len()
        invariant
            i <= rec.steps@.len(),
            deep(out@) == undone(rec.steps@.take(i as int), deep(rec.parked@), alive@, rec.tab@),
        decreases rec.steps@.len() - i,
    {
        assert(rec.steps@.take(i + 1).drop_last() =~= rec.steps@.take(i as int));
        let s: &MoveStep = &rec.steps[i];
        if has_text(&rec.parked, s.pane.as_str()) && i < alive.len() && alive[i] {
            out.push(
                Cmd::Run {
                    args: move_pane(
                        s.pane.as_str(),
                        rec.tab.as_str(),
                        s.dir,
                        Some((s.target.as_str(), s.ratio.as_str())),
                    ),
                    must: false,
                },
            );
        }
        i += 1;
    }
    assert(rec.steps@.take(i as int) =~= rec.steps@);
    let ghost before = deep(out@);
    let ws: &[&str] = &["tab", "close", rec.parking_tab.as_str()];
    assert(deep(ws@) =~= seq!["tab"@, "close"@, rec.parking_tab@]);
    out.push(run(ws, false));
    out.push(Cmd::DropRecovery);
    assert(deep(out@) =~= before + seq![
        may(seq!["tab"@, "close"@, rec.parking_tab@]),
        CmdV::DropRecovery,
    ]);
    out
}

// ---- closing ------------------------------------------------------------------------------------

pub open spec fn close_panes(state: ViewState) -> Seq<CmdV> {
    seq![
        may(seq!["pane"@, "close"@, state.list_pane@]),
        may(seq!["pane"@, "close"@, state.preview_pane@]),
    ]
}

fn panes_closed(state: &ViewState) -> (r: Vec<Cmd>)
    ensures
        deep(r@) == close_panes(*state),
{
    broadcast use group_deep;

    let mut out: Vec<Cmd> = Vec::new();
    let a: &[&str] = &["pane", "close", state.list_pane.as_str()];
    assert(deep(a@) =~= seq!["pane"@, "close"@, state.list_pane@]);
    out.push(run(a, false));
    let b: &[&str] = &["pane", "close", state.preview_pane.as_str()];
    assert(deep(b@) =~= seq!["pane"@, "close"@, state.preview_pane@]);
    out.push(run(b, false));
    assert(deep(out@) =~= close_panes(*state));
    out
}

/// The command that closes a view's own tab; a sidebar has none.
pub fn close_tab_args(state: &ViewState) -> (r: Option<Vec<String>>)
    ensures
        match r {
            Some(args) => state.mode == ViewMode::Tab && deep(args@) == seq![
                "tab"@,
                "close"@,
                state.tab_id@,
            ],
            None => state.mode == ViewMode::Sidebar,
        },
{
    match state.mode {
        ViewMode::Tab => {
            let ws: &[&str] = &["tab", "close", state.tab_id.as_str()];
            assert(deep(ws@) =~= seq!["tab"@, "close"@, state.tab_id@]);
            Some(words(ws))
        },
        ViewMode::Sidebar => None,
    }
}

/// The rest of closing a view: its panes, where no tab was closed with them, and
/// the way back to where it was called from.
pub fn close_view(state: &ViewState, tab_closed: bool) -> (r: Vec<Cmd>)
    ensures
        deep(r@) == match state.mode {
            ViewMode::Sidebar => close_panes(*state),
            ViewMode::Tab => (if tab_closed {
                seq![]
            } else {
                close_panes(*state)
            }) + (match state.origin_tab {
                Some(t) => seq![may(seq!["tab"@, "focus"@, t@])],
                None => seq![],
            }),
        },
{
    broadcast use group_deep;

    match state.mode {
        ViewMode::Sidebar => panes_closed(state),
        ViewMode::Tab => {
            let mut out: Vec<Cmd> = if tab_closed {
                Vec::new()
            } else {
                panes_closed(state)
            };
            let ghost before = deep(out@);
            match &state.origin_tab {
                Some(t) => {
                    let ws: &[&str] = &["tab", "focus", t.as_str()];
                    assert(deep(ws@) =~= seq!["tab"@, "focus"@, t@]);
                    out.push(run(ws, false));
                    assert(deep(out@) =~= before + seq![may(seq!["tab"@, "focus"@, t@])]);
                },
                None => {
                    assert(deep(out@) =~= before + seq![]);
                },
            }
            out
        },
    }
}

// ---- laws ---------------------------------------------------------------------------------------

/// How to undo an opening is on disk before the first pane is moved.
pub proof fn law_recovery_is_noted_first(parked: Seq<Seq<char>>, parking_tab: Seq<char>, i: int)
    requires
        0 <= i < evacuation(parked, parking_tab).len(),
    ensures
        evacuation(parked, parking_tab)[0] is SaveRecovery,
        evacuation(parked, parking_tab)[i] is Run ==> i > 0,
{
}

/// The pane that the sidebar is split from is never parked.
pub proof fn law_anchor_stays(panes: Seq<Seq<char>>, anchor: Seq<char>)
    ensures
        !others(panes, anchor).contains(anchor),
    decreases panes.len(),
{
    if panes.len() > 0 {
        law_anchor_stays(panes.drop_last(), anchor);
        let s = others(panes.drop_last(), anchor);
        if panes.last() != anchor && others(panes, anchor).contains(anchor) {
            let k = choose|k: int|
                0 <= k < others(panes, anchor).len() && others(panes, anchor)[k] == anchor;
            if k < s.len() {
                assert(s[k] == anchor);
            }
        }
    }
}

} // verus!
