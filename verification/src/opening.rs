//! Opening a view, step by step. Each step has commands for the host, and then
//! one whose reply the next step waits for.

use vstd::prelude::*;

use crate::config::ListSide;
use crate::git_repo::words;
use crate::host::{
    evacuate, evacuation, finish, finish_sidebar, list_args, list_size, may, open_pane_words,
    others, parked_panes, right_of, sidebar_preview_args, sidebar_size, size_list, size_sidebar,
    tab_preview_args, Cmd, CmdV, MoveStep,
};
use crate::orchestrate::ViewMode;
use crate::text::{deep, group_deep};

verus! {

/// A view to be opened.
pub struct Opening {
    pub repo: String,
    pub socket: String,
    pub list_side: ListSide,
    /// The list's share of the view.
    pub list_percent: u8,
    /// The sidebar's share of the tab.
    pub view_percent: u8,
    pub workspace: String,
    /// The tab that the call came from.
    pub tab: String,
    /// The panes of that tab.
    pub panes: Vec<String>,
    /// The one of them that stays while the sidebar is made.
    pub anchor: String,
    /// How the others are put back beside it.
    pub steps: Vec<MoveStep>,
}

/// How far an opening has come.
#[derive(Debug)]
pub enum Stage {
    Sidebar,
    /// The tab to park panes in is being made.
    Parking,
    /// The diff pane is being opened; the parking tab's own pane, if there is
    /// one, is kept in mind.
    SidebarPreview { placeholder: Option<String> },
    SidebarList { placeholder: Option<String>, preview: String },
    Tab,
    TabPreview,
    /// The diff pane's tab is being asked for.
    TabOf { preview: String },
    TabList { preview: String, tab: String },
    /// The view is open, in this tab.
    Open { mode: ViewMode, tab: String, preview: String, list: String },
    /// It could not be opened.
    Failed(&'static str),
}

#[verifier::ext_equal]
pub enum StageV {
    Sidebar,
    Parking,
    SidebarPreview { placeholder: Option<Seq<char>> },
    SidebarList { placeholder: Option<Seq<char>>, preview: Seq<char> },
    Tab,
    TabPreview,
    TabOf { preview: Seq<char> },
    TabList { preview: Seq<char>, tab: Seq<char> },
    Open { mode: ViewMode, tab: Seq<char>, preview: Seq<char>, list: Seq<char> },
    Failed(Seq<char>),
}

impl DeepView for Stage {
    type V = StageV;

    open spec fn deep_view(&self) -> StageV {
        match *self {
            Stage::Sidebar => StageV::Sidebar,
            Stage::Parking => StageV::Parking,
            Stage::SidebarPreview { placeholder } => StageV::SidebarPreview {
                placeholder: placeholder.deep_view(),
            },
            Stage::SidebarList { placeholder, preview } => StageV::SidebarList {
                placeholder: placeholder.deep_view(),
                preview: preview@,
            },
            Stage::Tab => StageV::Tab,
            Stage::TabPreview => StageV::TabPreview,
            Stage::TabOf { preview } => StageV::TabOf { preview: preview@ },
            Stage::TabList { preview, tab } => StageV::TabList { preview: preview@, tab: tab@ },
            Stage::Open { mode, tab, preview, list } => StageV::Open {
                mode,
                tab: tab@,
                preview: preview@,
                list: list@,
            },
            Stage::Failed(why) => StageV::Failed(why@),
        }
    }
}

/// What a reply of the host names.
pub struct Named {
    pub pane_id: Option<String>,
    pub tab_id: Option<String>,
}

/// The next stage, the commands that lead to it, and the one whose reply it
/// waits for.
pub struct OpenStep {
    pub next: Stage,
    pub cmds: Vec<Cmd>,
    pub ask: Option<Vec<String>>,
}

#[verifier::ext_equal]
pub struct OpenStepV {
    pub next: StageV,
    pub cmds: Seq<CmdV>,
    pub ask: Option<Seq<Seq<char>>>,
}

impl DeepView for OpenStep {
    type V = OpenStepV;

    open spec fn deep_view(&self) -> OpenStepV {
        OpenStepV {
            next: self.next.deep_view(),
            cmds: deep(self.cmds@),
            ask: match self.ask {
                Some(a) => Some(deep(a@)),
                None => None,
            },
        }
    }
}

pub open spec fn failed(why: Seq<char>) -> OpenStepV {
    OpenStepV { next: StageV::Failed(why), cmds: seq![], ask: None }
}

impl Opening {
    pub open spec fn preview_words(self) -> Seq<Seq<char>> {
        open_pane_words(
            self.repo@,
            self.socket@,
            "preview"@,
            right_of(self.anchor@, "--no-focus"@),
            None,
        )
    }

    pub open spec fn list_words(self, preview: Seq<char>) -> Seq<Seq<char>> {
        open_pane_words(
            self.repo@,
            self.socket@,
            "list"@,
            right_of(preview, "--focus"@),
            Some(preview),
        )
    }

    /// A sidebar: the other panes of the tab are parked, the diff pane is split
    /// off at its share, the list at its own, and the panes are put back.
    pub open spec fn sidebar_step(self, stage: StageV, pane: Option<Seq<char>>, tab: Option<Seq<char>>) -> OpenStepV {
        match stage {
            StageV::Sidebar => if self.panes@.len() > 1 {
                OpenStepV {
                    next: StageV::Parking,
                    cmds: seq![],
                    ask: Some(
                        seq!["tab"@, "create"@, "--workspace"@, self.workspace@, "--no-focus"@],
                    ),
                }
            } else {
                OpenStepV {
                    next: StageV::SidebarPreview { placeholder: None },
                    cmds: seq![],
                    ask: Some(self.preview_words()),
                }
            },
            StageV::Parking => match (tab, pane) {
                (None, _) => failed("no tab_id in `herdr tab create` reply"@),
                (Some(_), None) => failed("no root pane_id in `herdr tab create` reply"@),
                (Some(t), Some(p)) => OpenStepV {
                    next: StageV::SidebarPreview { placeholder: Some(p) },
                    cmds: evacuation(others(deep(self.panes@), self.anchor@), t),
                    ask: Some(self.preview_words()),
                },
            },
            StageV::SidebarPreview { placeholder } => match pane {
                None => failed("could not determine pane id for new preview pane"@),
                Some(p) => OpenStepV {
                    next: StageV::SidebarList { placeholder, preview: p },
                    cmds: sidebar_size(self.anchor@, p, self.view_percent),
                    ask: Some(self.list_words(p)),
                },
            },
            StageV::SidebarList { placeholder, preview } => match pane {
                None => failed("could not determine pane id for new list pane"@),
                Some(l) => OpenStepV {
                    next: StageV::Open {
                        mode: ViewMode::Sidebar,
                        tab: self.tab@,
                        preview,
                        list: l,
                    },
                    cmds: list_size(preview, l, self.list_side, self.list_percent) + finish(
                        self.steps@,
                        self.tab@,
                        placeholder,
                        l,
                    ),
                    ask: None,
                },
            },
            _ => OpenStepV { next: stage, cmds: seq![], ask: None },
        }
    }

    pub fn open_sidebar_view(&self, stage: Stage, named: &Named) -> (r: OpenStep)
        ensures
            r.deep_view() == self.sidebar_step(
                stage.deep_view(),
                named.pane_id.deep_view(),
                named.tab_id.deep_view(),
            ),
    {
        broadcast use group_deep;

        match stage {
            Stage::Sidebar => {
                if self.panes.len() > 1 {
                    let ws: &[&str] = &[
                        "tab",
                        "create",
                        "--workspace",
                        self.workspace.as_str(),
                        "--no-focus",
                    ];
                    assert(deep(ws@) =~= seq![
                        "tab"@,
                        "create"@,
                        "--workspace"@,
                        self.workspace@,
                        "--no-focus"@,
                    ]);
                    OpenStep { next: Stage::Parking, cmds: Vec::new(), ask: Some(words(ws)) }
                } else {
                    OpenStep {
                        next: Stage::SidebarPreview { placeholder: None },
                        cmds: Vec::new(),
                        ask: Some(self.preview_args()),
                    }
                }
            },
            Stage::Parking => match &named.tab_id {
                None => stop("no tab_id in `herdr tab create` reply"),
                Some(t) => match &named.pane_id {
                    None => stop("no root pane_id in `herdr tab create` reply"),
                    Some(p) => {
                        let parked: Vec<String> = parked_panes(&self.panes, self.anchor.as_str());
                        OpenStep {
                            next: Stage::SidebarPreview { placeholder: Some(p.as_str().to_owned()) },
                            cmds: evacuate(&parked, t.as_str()),
                            ask: Some(self.preview_args()),
                        }
                    },
                },
            },
            Stage::SidebarPreview { placeholder } => match &named.pane_id {
                None => stop("could not determine pane id for new preview pane"),
                Some(p) => OpenStep {
                    next: Stage::SidebarList { placeholder, preview: p.as_str().to_owned() },
                    cmds: size_sidebar(self.anchor.as_str(), p.as_str(), self.view_percent),
                    ask: Some(list_args(self.repo.as_str(), self.socket.as_str(), p.as_str())),
                },
            },
            Stage::SidebarList { placeholder, preview } => match &named.pane_id {
                None => stop("could not determine pane id for new list pane"),
                Some(l) => {
                    let mut cmds: Vec<Cmd> = size_list(
                        preview.as_str(),
                        l.as_str(),
                        self.list_side,
                        self.list_percent,
                    );
                    let last: Option<&str> = match &placeholder {
                        Some(p) => Some(p.as_str()),
                        None => None,
                    };
                    let mut rest: Vec<Cmd> = finish_sidebar(
                        &self.steps,
                        self.tab.as_str(),
                        last,
                        l.as_str(),
                    );
                    cmds.append(&mut rest);
                    OpenStep {
                        next: Stage::Open {
                            mode: ViewMode::Sidebar,
                            tab: self.tab.as_str().to_owned(),
                            preview,
                            list: l.as_str().to_owned(),
                        },
                        cmds,
                        ask: None,
                    }
                },
            },
            other => OpenStep { next: other, cmds: Vec::new(), ask: None },
        }
    }

    fn preview_args(&self) -> (r: Vec<String>)
        ensures
            deep(r@) == self.preview_words(),
    {
        sidebar_preview_args(self.repo.as_str(), self.socket.as_str(), self.anchor.as_str())
    }

    /// A tab of its own: the diff pane opens it, the tab is named, the list is
    /// split off at its share.
    pub open spec fn tab_step(self, stage: StageV, pane: Option<Seq<char>>, tab: Option<Seq<char>>) -> OpenStepV {
        match stage {
            StageV::Tab => OpenStepV {
                next: StageV::TabPreview,
                cmds: seq![],
                ask: Some(
                    open_pane_words(
                        self.repo@,
                        self.socket@,
                        "preview"@,
                        seq!["--placement"@, "tab"@, "--no-focus"@],
                        None,
                    ),
                ),
            },
            StageV::TabPreview => match pane {
                None => failed("could not determine pane id for new preview pane"@),
                Some(p) => OpenStepV {
                    next: StageV::TabOf { preview: p },
                    cmds: seq![],
                    ask: Some(seq!["pane"@, "get"@, p]),
                },
            },
            StageV::TabOf { preview } => match tab {
                None => failed("no tab_id in `herdr pane get` reply"@),
                Some(t) => OpenStepV {
                    next: StageV::TabList { preview, tab: t },
                    cmds: seq![may(seq!["tab"@, "rename"@, t, "gitview"@])],
                    ask: Some(self.list_words(preview)),
                },
            },
            StageV::TabList { preview, tab: t } => match pane {
                None => failed("could not determine pane id for new list pane"@),
                Some(l) => OpenStepV {
                    next: StageV::Open { mode: ViewMode::Tab, tab: t, preview, list: l },
                    cmds: list_size(preview, l, self.list_side, self.list_percent).push(
                        CmdV::WriteState,
                    ),
                    ask: None,
                },
            },
            _ => OpenStepV { next: stage, cmds: seq![], ask: None },
        }
    }

    pub fn open_tab_view(&self, stage: Stage, named: &Named) -> (r: OpenStep)
        ensures
            r.deep_view() == self.tab_step(
                stage.deep_view(),
                named.pane_id.deep_view(),
                named.tab_id.deep_view(),
            ),
    {
        broadcast use group_deep;

        match stage {
            Stage::Tab => OpenStep {
                next: Stage::TabPreview,
                cmds: Vec::new(),
                ask: Some(tab_preview_args(self.repo.as_str(), self.socket.as_str())),
            },
            Stage::TabPreview => match &named.pane_id {
                None => stop("could not determine pane id for new preview pane"),
                Some(p) => {
                    let ws: &[&str] = &["pane", "get", p.as_str()];
                    assert(deep(ws@) =~= seq!["pane"@, "get"@, p@]);
                    OpenStep {
                        next: Stage::TabOf { preview: p.as_str().to_owned() },
                        cmds: Vec::new(),
                        ask: Some(words(ws)),
                    }
                },
            },
            Stage::TabOf { preview } => match &named.tab_id {
                None => stop("no tab_id in `herdr pane get` reply"),
                Some(t) => {
                    let ws: &[&str] = &["tab", "rename", t.as_str(), "gitview"];
                    assert(deep(ws@) =~= seq!["tab"@, "rename"@, t@, "gitview"@]);
                    let mut cmds: Vec<Cmd> = Vec::new();
                    cmds.push(Cmd::Run { args: words(ws), must: false });
                    assert(deep(cmds@) =~= seq![may(seq!["tab"@, "rename"@, t@, "gitview"@])]);
                    let args: Vec<String> = list_args(
                        self.repo.as_str(),
                        self.socket.as_str(),
                        preview.as_str(),
                    );
                    OpenStep {
                        next: Stage::TabList { preview, tab: t.as_str().to_owned() },
                        cmds,
                        ask: Some(args),
                    }
                },
            },
            Stage::TabList { preview, tab } => match &named.pane_id {
                None => stop("could not determine pane id for new list pane"),
                Some(l) => {
                    let mut cmds: Vec<Cmd> = size_list(
                        preview.as_str(),
                        l.as_str(),
                        self.list_side,
                        self.list_percent,
                    );
                    cmds.push(Cmd::WriteState);
                    OpenStep {
                        next: Stage::Open {
                            mode: ViewMode::Tab,
                            tab,
                            preview,
                            list: l.as_str().to_owned(),
                        },
                        cmds,
                        ask: None,
                    }
                },
            },
            other => OpenStep { next: other, cmds: Vec::new(), ask: None },
        }
    }
}

fn stop(why: &'static str) -> (r: OpenStep)
    ensures
        r.deep_view() == failed(why@),
{
    broadcast use group_deep;

    OpenStep { next: Stage::Failed(why), cmds: Vec::new(), ask: None }
}

// ---- laws ------------------------------------------------------------------------------------

/// The view is noted as open in the step that opens it, and in no other.
pub proof fn law_state_is_written_when_open(o: Opening, stage: StageV, pane: Option<Seq<char>>, tab: Option<Seq<char>>, i: int)
    requires
        !(stage is Open),
        0 <= i < o.sidebar_step(stage, pane, tab).cmds.len(),
        o.sidebar_step(stage, pane, tab).cmds[i] is WriteState,
    ensures
        o.sidebar_step(stage, pane, tab).next is Open,
        i == o.sidebar_step(stage, pane, tab).cmds.len() - 1,
{
    match stage {
        StageV::SidebarList { placeholder, preview } => {},
        _ => {},
    }
}

/// Panes that were parked are put back before the note on how to undo it is
/// dropped.
pub proof fn law_panes_come_back_first(o: Opening, placeholder: Option<Seq<char>>, list: Seq<char>, i: int, k: int)
    requires
        0 <= i < o.steps@.len(),
        0 <= k < finish(o.steps@, o.tab@, placeholder, list).len(),
        finish(o.steps@, o.tab@, placeholder, list)[k] is DropRecovery,
    ensures
        i < k,
        finish(o.steps@, o.tab@, placeholder, list)[i] == crate::host::must(
            crate::host::step_words(o.steps@[i], o.tab@),
        ),
{
    let f = finish(o.steps@, o.tab@, placeholder, list);
    if k < o.steps@.len() {
        assert(f[k] == crate::host::must(crate::host::step_words(o.steps@[k], o.tab@)));
    }
}

} // verus!
