//! How the view is opened and taken down, and what is read of the host's replies.

use vstd::prelude::*;

use crate::config::ListSide;
use crate::hash::{fnv, repo_key};
use crate::host::{
    close_panes, evacuation, finish, list_size, may, must, newcomer, open_pane_words, others,
    sidebar_size, step_words, undone, CmdV, Dir, MoveStep,
};
use crate::json::{member, JsonV};
use crate::keymap::KeyCode;
use crate::opening::{Opening, StageV};
use crate::orchestrate::{
    find_in_fields, find_in_items, find_text, first_found, sidebar_name, tab_name, texts_in,
    texts_in_fields, texts_in_items, ViewMode, ViewState, Want,
};
use crate::order_laws::{hex_value, law_hex_digits_spell_the_number, sixteens};
use crate::popups::{
    agent_row, agent_rows, agents_here, buttons_in, key_reply, picker_spans, said, AgentRowV, Reply,
    BUTTON_GAP, NO_CELLS, YES_CELLS,
};
use crate::probe::{capture_lines, size_words};
use crate::text::lines;

verus! {

// ---- panes ----------------------------------------------------------------------------

/// The new pane is the first that was not there before.
pub proof fn law_the_new_pane_is_found(before: Seq<Seq<char>>, after: Seq<Seq<char>>, k: int)
    requires
        0 <= k <= after.len(),
        forall|j: int| 0 <= j < k ==> before.contains(#[trigger] after[j]),
        k < after.len() ==> !before.contains(after[k]),
    ensures
        k < after.len() ==> newcomer(before, after) == Some(after[k]),
        k == after.len() ==> newcomer(before, after) is None,
    decreases k,
{
    if k > 0 {
        assert(before.contains(after[0]));
        let rest = after.skip(1);
        assert forall|j: int| 0 <= j < k - 1 implies before.contains(#[trigger] rest[j]) by {
            assert(rest[j] == after[j + 1]);
        }
        law_the_new_pane_is_found(before, rest, k - 1);
    }
}

/// All panes but the one that stays are parked, in their order.
pub proof fn law_all_other_panes_are_parked(panes: Seq<Seq<char>>, p: Seq<char>, anchor: Seq<char>)
    ensures
        others(Seq::empty(), anchor).len() == 0,
        p == anchor ==> others(panes.push(p), anchor) == others(panes, anchor),
        p != anchor ==> others(panes.push(p), anchor) == others(panes, anchor).push(p),
{
    assert(panes.push(p).drop_last() =~= panes);
}

/// Whether a word stands right behind another in a command.
pub open spec fn follows(words: Seq<Seq<char>>, word: Seq<char>, next: Seq<char>, i: int) -> bool {
    0 <= i && i + 1 < words.len() && words[i] == word && words[i + 1] == next
}

/// Every parked pane is moved to the parking tab, and each by itself.
pub proof fn law_each_pane_is_moved(parked: Seq<Seq<char>>, tab: Seq<char>, i: int)
    requires
        0 <= i < parked.len(),
    ensures
        evacuation(parked, tab).len() == parked.len() + 1,
        evacuation(parked, tab)[i + 1] is Run,
        evacuation(parked, tab)[i + 1]->must,
        ({
            let w = evacuation(parked, tab)[i + 1]->args;
            &&& w[0] == "pane"@ && w[1] == "move"@ && w[2] == parked[i]
            &&& follows(w, "--tab"@, tab, 3)
            &&& w.last() == "--no-focus"@
        }),
{
}

/// At the end every pane is put back beside the one that it stood at, in that
/// direction and with that share.
pub proof fn law_each_pane_is_put_back(steps: Seq<MoveStep>, tab: Seq<char>, placeholder: Option<Seq<char>>, list: Seq<char>, i: int)
    requires
        0 <= i < steps.len(),
    ensures
        ({
            let cmds = finish(steps, tab, placeholder, list);
            let w = cmds[i]->args;
            &&& cmds[i] is Run && cmds[i]->must
            &&& w[0] == "pane"@ && w[1] == "move"@ && w[2] == steps[i].pane@
            &&& follows(w, "--tab"@, tab, 3)
            &&& follows(
                w,
                "--split"@,
                match steps[i].dir {
                    Dir::Right => "right"@,
                    Dir::Down => "down"@,
                },
                5,
            )
            &&& follows(w, "--target-pane"@, steps[i].target@, 7)
            &&& follows(w, "--ratio"@, steps[i].ratio@, 9)
            &&& cmds.last() is WriteState
            &&& cmds[cmds.len() - 2] == may(seq!["plugin"@, "pane"@, "focus"@, list])
            &&& placeholder matches Some(p) ==> cmds[steps.len() as int] == may(
                seq!["pane"@, "close"@, p],
            )
            &&& cmds.len() == steps.len() + 3 + if placeholder is Some {
                1int
            } else {
                0
            }
        }),
{
}

/// An opening that was broken off is undone by moving back the panes that were parked
/// and are still there, and no others.
pub proof fn law_parked_panes_are_moved_back(steps: Seq<MoveStep>, s: MoveStep, parked: Seq<Seq<char>>, alive: Seq<bool>, tab: Seq<char>)
    ensures
        ({
            let (all, rest) = (
                undone(steps.push(s), parked, alive, tab),
                undone(steps, parked, alive, tab),
            );
            let lives = steps.len() < alive.len() && alive[steps.len() as int];
            &&& parked.contains(s.pane@) && lives ==> all == rest.push(may(step_words(s, tab)))
            &&& !parked.contains(s.pane@) || !lives ==> all == rest
            &&& undone(Seq::empty(), parked, alive, tab).len() == 0
        }),
{
    assert(steps.push(s).drop_last() =~= steps);
    assert(steps.push(s)[steps.len() as int] == s);
}

/// A pane is opened with what it needs to know: the repository as its directory and
/// in its environment, the socket, and for the list the pane that it talks to.
pub proof fn law_a_pane_is_told_its_place(repo: Seq<char>, socket: Seq<char>, entrypoint: Seq<char>, placement: Seq<Seq<char>>, preview: Option<Seq<char>>)
    ensures
        ({
            let w = open_pane_words(repo, socket, entrypoint, placement, preview);
            let n = w.len() - placement.len();
            &&& follows(w, "--entrypoint"@, entrypoint, 5)
            &&& follows(w, "--cwd"@, repo, 7)
            &&& follows(w, "--env"@, "GITVIEW_REPO="@ + repo, 9)
            &&& follows(w, "--env"@, "GITVIEW_SOCKET="@ + socket, 11)
            &&& preview matches Some(p) ==> follows(w, "--env"@, "GITVIEW_PREVIEW_PANE="@ + p, 13)
            &&& n == 13 + if preview is Some {
                2int
            } else {
                0
            }
            &&& w.skip(n) == placement
        }),
{
    let w = open_pane_words(repo, socket, entrypoint, placement, preview);
    assert(w.skip(w.len() - placement.len()) =~= placement);
}

/// Two equal halves need no resizing. Else the smaller share is given by moving the
/// border towards it, from the pane on its other side, to that percentage.
pub proof fn law_the_split_is_moved_to_its_share(anchor: Seq<char>, preview: Seq<char>, list: Seq<char>, side: ListSide, percent: u8)
    ensures
        percent == 50 ==> sidebar_size(anchor, preview, percent).len() == 0,
        percent < 50 ==> sidebar_size(anchor, preview, percent) == seq![
            CmdV::Resize { pane: anchor, toward: "right"@, percent },
        ],
        percent > 50 ==> sidebar_size(anchor, preview, percent) == seq![
            CmdV::Resize { pane: preview, toward: "left"@, percent },
        ],
        ({
            let cmds = list_size(preview, list, side, percent);
            let swaps: int = if side == ListSide::Left {
                1
            } else {
                0
            };
            &&& side == ListSide::Left ==> cmds[0] == may(
                seq!["pane"@, "swap"@, "--source-pane"@, preview, "--target-pane"@, list],
            )
            &&& percent == 50 ==> cmds.len() == swaps
            &&& percent != 50 ==> cmds.len() == swaps + 1
            &&& percent < 50 ==> cmds.last() == (CmdV::Resize {
                pane: preview,
                toward: if side == ListSide::Left {
                    "left"@
                } else {
                    "right"@
                },
                percent,
            })
            &&& percent > 50 ==> cmds.last() == (CmdV::Resize {
                pane: list,
                toward: if side == ListSide::Left {
                    "right"@
                } else {
                    "left"@
                },
                percent,
            })
        }),
{
}

/// A sidebar in a tab of one pane is open after the two panes were opened one by one,
/// each beside the one before it.
pub proof fn law_a_sidebar_opens_step_by_step(o: Opening, p: Seq<char>, l: Seq<char>, parking: Seq<char>, root: Seq<char>)
    ensures
        ({
            let many = o.panes@.len() > 1;
            let s0 = o.sidebar_step(StageV::Sidebar, None, None);
            let s1 = o.sidebar_step(s0.next, Some(root), Some(parking));
            let s2 = o.sidebar_step(
                if many {
                    s1.next
                } else {
                    s0.next
                },
                Some(p),
                None,
            );
            let s3 = o.sidebar_step(s2.next, Some(l), None);
            let asked = if many {
                s1.ask
            } else {
                s0.ask
            };
            &&& many ==> s0.ask == Some(
                seq!["tab"@, "create"@, "--workspace"@, o.workspace@, "--no-focus"@],
            )
            &&& many ==> s1.cmds == evacuation(
                others(crate::text::deep(o.panes@), o.anchor@),
                parking,
            )
            &&& !many ==> s0.cmds.len() == 0
            &&& asked matches Some(w) && follows(w, "--entrypoint"@, "preview"@, 5) && follows(
                w,
                "--target-pane"@,
                o.anchor@,
                17,
            )
            &&& s2.ask matches Some(w) && follows(w, "--entrypoint"@, "list"@, 5) && follows(
                w,
                "--target-pane"@,
                p,
                19,
            )
            &&& s2.cmds == sidebar_size(o.anchor@, p, o.view_percent)
            &&& s3.next == (StageV::Open { mode: ViewMode::Sidebar, tab: o.tab@, preview: p, list: l })
            &&& s3.ask is None
            &&& s3.cmds == list_size(p, l, o.list_side, o.list_percent) + finish(
                o.steps@,
                o.tab@,
                if many {
                    Some(root)
                } else {
                    None
                },
                l,
            )
        }),
{
}

/// A view in a tab of its own is open after the pane for the diff, its tab's name and
/// the list; the name of the tab is given once it is known.
pub proof fn law_a_tab_opens_step_by_step(o: Opening, p: Seq<char>, t: Seq<char>, l: Seq<char>)
    ensures
        ({
            let s0 = o.tab_step(StageV::Tab, None, None);
            let s1 = o.tab_step(s0.next, Some(p), None);
            let s2 = o.tab_step(s1.next, None, Some(t));
            let s3 = o.tab_step(s2.next, Some(l), None);
            &&& s0.ask matches Some(w) && follows(w, "--entrypoint"@, "preview"@, 5)
            &&& s1.ask == Some(seq!["pane"@, "get"@, p])
            &&& s2.cmds == seq![may(seq!["tab"@, "rename"@, t, "gitview"@])]
            &&& s2.ask matches Some(w) && follows(w, "--entrypoint"@, "list"@, 5) && follows(
                w,
                "--target-pane"@,
                p,
                19,
            )
            &&& s3.next == (StageV::Open { mode: ViewMode::Tab, tab: t, preview: p, list: l })
            &&& s3.ask is None
            &&& s3.cmds == list_size(p, l, o.list_side, o.list_percent).push(CmdV::WriteState)
        }),
{
}

/// Where a reply does not name the pane or the tab that a step needs, the opening
/// fails, and nothing more is asked or done.
pub proof fn law_an_opening_fails_where_a_reply_is_missing(o: Opening, stage: StageV, tab: Option<Seq<char>>)
    requires
        stage is Parking || stage is SidebarPreview || stage is SidebarList || stage is TabPreview
            || stage is TabList,
    ensures
        ({
            let s = if stage is Parking || stage is SidebarPreview || stage is SidebarList {
                o.sidebar_step(stage, None, tab)
            } else {
                o.tab_step(stage, None, tab)
            };
            s.next is Failed && s.ask is None && s.cmds.len() == 0
        }),
{
}

// ---- replies --------------------------------------------------------------------------

/// A member is found by its name, the first of that name.
pub proof fn law_a_member_is_found_by_its_name(f: Seq<(Seq<char>, JsonV)>, k: int, key: Seq<char>)
    requires
        0 <= k <= f.len(),
        forall|j: int| 0 <= j < k ==> (#[trigger] f[j]).0 != key,
        k < f.len() ==> f[k].0 == key,
    ensures
        k < f.len() ==> member(f, key) == Some(f[k].1),
        k == f.len() ==> member(f, key) is None,
    decreases k,
{
    if k > 0 {
        assert(f[0].0 != key);
        let rest = f.skip(1);
        assert forall|j: int| 0 <= j < k - 1 implies (#[trigger] rest[j]).0 != key by {
            assert(rest[j] == f[j + 1]);
        }
        law_a_member_is_found_by_its_name(rest, k - 1, key);
    }
}

/// A string is looked for among an object's own members first, then in each of them
/// in turn, down to any depth; in a list, in each item in turn.
pub proof fn law_a_text_is_found_at_any_depth(f: Seq<(Seq<char>, JsonV)>, x: (Seq<char>, JsonV), a: Seq<JsonV>, y: JsonV, key: Seq<char>)
    ensures
        JsonV::Obj(f).text_at(key) is Some ==> find_text(JsonV::Obj(f), key) == JsonV::Obj(f).text_at(key),
        JsonV::Obj(f).text_at(key) is None ==> find_text(JsonV::Obj(f), key) == find_in_fields(f, key),
        find_in_fields(seq![x] + f, key) == if find_text(x.1, key) is Some {
            find_text(x.1, key)
        } else {
            find_in_fields(f, key)
        },
        find_text(JsonV::Arr(seq![y] + a), key) == if find_text(y, key) is Some {
            find_text(y, key)
        } else {
            find_text(JsonV::Arr(a), key)
        },
        find_text(JsonV::Arr(Seq::empty()), key) is None,
        find_in_fields(Seq::empty(), key) is None,
{
    let (g, b) = (seq![x] + f, seq![y] + a);
    assert(g.skip(1) =~= f);
    assert(b.skip(1) =~= a);
    assert(g[0] == x && b[0] == y);
    reveal_with_fuel(find_text, 2);
    reveal_with_fuel(find_in_items, 2);
    reveal_with_fuel(find_in_fields, 2);
}

/// Every string under a key that is looked for is listed, at any depth, in the order
/// of the document.
pub proof fn law_all_texts_are_listed(f: Seq<(Seq<char>, JsonV)>, key: Seq<char>, s: Seq<char>, v: JsonV, a: Seq<JsonV>, want: Want)
    ensures
        want.takes(key) ==> texts_in(JsonV::Obj(seq![(key, JsonV::Str(s))] + f), want) == seq![s]
            + texts_in(JsonV::Obj(f), want),
        !want.takes(key) ==> texts_in(JsonV::Obj(seq![(key, JsonV::Str(s))] + f), want) == texts_in(
            JsonV::Obj(f),
            want,
        ),
        !(v is Str) ==> texts_in(JsonV::Obj(seq![(key, v)] + f), want) == texts_in(v, want) + texts_in(
            JsonV::Obj(f),
            want,
        ),
        texts_in(JsonV::Arr(seq![v] + a), want) == texts_in(v, want) + texts_in(JsonV::Arr(a), want),
        texts_in(JsonV::Obj(Seq::empty()), want).len() == 0 && texts_in(JsonV::Arr(Seq::empty()), want).len()
            == 0,
{
    let g = seq![(key, JsonV::Str(s))] + f;
    let h = seq![(key, v)] + f;
    let b = seq![v] + a;
    assert(g.skip(1) =~= f && g[0] == (key, JsonV::Str(s)));
    assert(h.skip(1) =~= f && h[0] == (key, v));
    assert(b.skip(1) =~= a && b[0] == v);
    reveal_with_fuel(texts_in, 3);
    reveal_with_fuel(texts_in_fields, 2);
    reveal_with_fuel(texts_in_items, 2);
    assert(texts_in(JsonV::Str(s), want) =~= Seq::<Seq<char>>::empty());
    let rest = texts_in_fields(f, want);
    assert(seq![s] + texts_in(JsonV::Str(s), want) + rest =~= seq![s] + rest);
    assert(Seq::<Seq<char>>::empty() + texts_in(JsonV::Str(s), want) + rest =~= rest);
    assert(Seq::<Seq<char>>::empty() + texts_in(v, want) + rest =~= texts_in(v, want) + rest);
}

/// The first root that was found counts.
pub proof fn law_the_first_root_counts(roots: Seq<Option<Seq<char>>>, k: int)
    requires
        0 <= k <= roots.len(),
        forall|j: int| 0 <= j < k ==> (#[trigger] roots[j]) is None,
        k < roots.len() ==> roots[k] is Some,
    ensures
        k < roots.len() ==> first_found(roots) == roots[k],
        k == roots.len() ==> first_found(roots) is None,
    decreases k,
{
    if k > 0 {
        assert(roots[0] is None);
        let rest = roots.skip(1);
        assert forall|j: int| 0 <= j < k - 1 implies (#[trigger] rest[j]) is None by {
            assert(rest[j] == roots[j + 1]);
        }
        law_the_first_root_counts(rest, k - 1);
    }
}

/// A tab is called by the lower half of its hash in hexadecimal digits; the files of a
/// sidebar are named after repository, tab and purpose, in that order.
pub proof fn law_a_sidebars_files_are_named_after_it(repo: Seq<char>, tab: Seq<char>, end: Seq<char>)
    ensures
        tab_name(tab).len() == 8,
        hex_value(tab_name(tab)) == fnv(vstd::utf8::encode_utf8(tab)) % 0x1_0000_0000,
        sidebar_name(repo, tab, end) == repo_key(repo) + seq!['.'] + tab_name(tab) + end,
{
    reveal_strlit(".");
    assert("."@ =~= seq!['.']);
    reveal_with_fuel(sixteens, 9);
    law_hex_digits_spell_the_number((fnv(vstd::utf8::encode_utf8(tab)) % 0x1_0000_0000) as nat, 8);
}

// ---- popups ---------------------------------------------------------------------------

/// `y` and Enter say yes, `n` says no, Esc and `q` call it off, and no other
/// character says anything.
pub proof fn law_keys_answer_the_question(c: char)
    ensures
        key_reply(KeyCode::Enter) == Some(Reply::Yes),
        key_reply(KeyCode::Esc) == Some(Reply::Cancel),
        key_reply(KeyCode::Char(c)) == Some(Reply::Yes) <==> c == 'y',
        key_reply(KeyCode::Char(c)) == Some(Reply::No) <==> c == 'n',
        key_reply(KeyCode::Char(c)) == Some(Reply::Cancel) <==> c == 'q',
{
}

/// The buttons stand in the middle of their line, with as much room before them as
/// behind them, yes before no.
pub proof fn law_buttons_stand_in_the_middle(x: u16, y: u16, width: u16)
    requires
        x + width <= u16::MAX,
        width >= YES_CELLS + BUTTON_GAP + NO_CELLS,
    ensures
        ({
            let b = buttons_in(x, y, width);
            let (before, behind) = (b.yes.0 - x, x + width - b.no.1);
            &&& b.y == y
            &&& before <= behind <= before + 1
            &&& b.yes.1 - b.yes.0 == YES_CELLS && b.no.1 - b.no.0 == NO_CELLS
            &&& b.no.0 - b.yes.1 == BUTTON_GAP
        }),
{
}

/// Every agent with a pane is offered, in the workspace where one is given, and told
/// by what the host says of it; no other is.
pub proof fn law_agents_with_a_pane_are_offered(items: Seq<JsonV>, j: JsonV, workspace: Option<Seq<char>>)
    ensures
        ({
            let (all, rest) = (agents_here(items.push(j), workspace), agents_here(items, workspace));
            let here = workspace matches Some(w) ==> said(j, "workspace_id"@) == w;
            &&& here && said(j, "pane_id"@).len() > 0 ==> {
                &&& all.len() == rest.len() + 1
                &&& all.drop_last() == rest
                &&& all.last().pane == said(j, "pane_id"@)
                &&& all.last().agent == said(j, "agent"@)
                &&& all.last().status == said(j, "agent_status"@)
                &&& all.last().tab == said(j, "tab_label"@)
                &&& all.last().cwd == said(j, "cwd"@)
            }
            &&& !here || said(j, "pane_id"@).len() == 0 ==> all == rest
            &&& agents_here(Seq::empty(), workspace).len() == 0
        }),
{
    assert(items.push(j).drop_last() =~= items);
    let (all, rest) = (agents_here(items.push(j), workspace), agents_here(items, workspace));
    if all.len() == rest.len() + 1 {
        assert(all.drop_last() =~= rest);
    }
}

/// The document of an agent: its pane, name, status, tab and directory, in that
/// order.
pub open spec fn agent_doc(a: AgentRowV) -> JsonV {
    JsonV::Arr(
        seq![
            JsonV::Str(a.pane),
            JsonV::Str(a.agent),
            JsonV::Str(a.status),
            JsonV::Str(a.tab),
            JsonV::Str(a.cwd),
        ],
    )
}

/// Agents are read back as they were written down, one by one.
pub proof fn law_agents_read_back(items: Seq<JsonV>, a: AgentRowV)
    ensures
        agent_row(agent_doc(a)) == Some(a),
        agent_rows(items) matches Some(s) ==> agent_rows(items.push(agent_doc(a))) == Some(s.push(a)),
        agent_rows(Seq::empty()) == Some(Seq::<AgentRowV>::empty()),
{
    assert(items.push(agent_doc(a)).drop_last() =~= items);
    assert(items.push(agent_doc(a)).last() == agent_doc(a));
    assert(agent_row(agent_doc(a)) == Some(a));
}

/// The picker shows an agent's name first and its pane last, and its tab and its
/// directory where they are known.
pub proof fn law_the_picker_tells_agents_apart(a: AgentRowV)
    ensures
        ({
            let s = picker_spans(a);
            &&& s[0].content == "  "@ + a.agent
            &&& s[1].content == " · "@ + a.status
            &&& s.last().content == "  "@ + a.pane
            &&& a.tab.len() > 0 ==> s[2].content == "  tab: "@ + a.tab
            &&& a.cwd.len() > 0 ==> s[s.len() - 2].content == "  "@ + a.cwd
            &&& s.len() == 3 + (if a.tab.len() > 0 {
                1int
            } else {
                0
            }) + (if a.cwd.len() > 0 {
                1int
            } else {
                0
            })
        }),
{
}

/// A captured text is shown whole between two marks, each line moved in; where there
/// is none, that is said.
pub proof fn law_a_capture_is_shown_whole(t: Seq<char>, nothing: Seq<char>, i: int)
    requires
        0 <= i < lines(t).len(),
    ensures
        capture_lines(Some(t), nothing).len() == lines(t).len() + 3,
        capture_lines(Some(t), nothing)[i + 2] == "  "@ + lines(t)[i],
        capture_lines(Some(t), nothing)[0] == "  "@ + size_words(t),
        capture_lines(None, nothing) == seq!["  "@ + nothing],
{
}

/// Closing the view closes both of its panes.
pub proof fn law_both_panes_are_closed(s: ViewState)
    ensures
        close_panes(s).contains(may(seq!["pane"@, "close"@, s.list_pane@])),
        close_panes(s).contains(may(seq!["pane"@, "close"@, s.preview_pane@])),
{
    assert(close_panes(s)[0] == may(seq!["pane"@, "close"@, s.list_pane@]));
    assert(close_panes(s)[1] == may(seq!["pane"@, "close"@, s.preview_pane@]));
}

/// A directory is looked for under every key that ends in `cwd` and under that of the
/// repository's root; any other text under its own key.
pub proof fn law_directories_are_found_by_their_keys(key: Seq<char>, head: Seq<char>, k: &str)
    ensures
        Want::Dirs.takes(head + "cwd"@),
        Want::Dirs.takes("repo_root"@),
        Want::Dirs.takes(key) ==> key == "repo_root"@ || (key.len() >= 3 && key.skip(key.len() - 3) == "cwd"@),
        Want::Key(k).takes(key) <==> key == k@,
{
    reveal_strlit("cwd");
    let s = head + "cwd"@;
    assert(s.skip(s.len() - 3) =~= "cwd"@);
    assert(s.subrange(s.len() - 3, s.len() as int) =~= "cwd"@);
    if crate::text::has_suffix(key, "cwd"@) {
        assert(key.skip(key.len() - 3) =~= "cwd"@);
    }
}

/// A pane that is split off goes to the right of the other, and its words say so.
pub proof fn law_a_pane_goes_to_the_right(pane: Seq<char>, focus: Seq<char>)
    ensures
        follows(crate::host::right_of(pane, focus), "--placement"@, "split"@, 0),
        follows(crate::host::right_of(pane, focus), "--direction"@, "right"@, 2),
        follows(crate::host::right_of(pane, focus), "--target-pane"@, pane, 4),
        crate::host::right_of(pane, focus).last() == focus,
{
}

/// A view is found by its socket, the first of that socket.
pub proof fn law_a_view_is_found_by_its_socket(states: Seq<ViewState>, socket: Seq<char>, i: int, k: int)
    requires
        0 <= i <= k <= states.len(),
        forall|j: int| i <= j < k ==> !crate::path::same_file((#[trigger] states[j]).socket@, socket),
        k < states.len() ==> crate::path::same_file(states[k].socket@, socket),
    ensures
        crate::orchestrate::socket_place(states, socket, i) == k,
    decreases k - i,
{
    if i < k {
        assert(!crate::path::same_file(states[i].socket@, socket));
        law_a_view_is_found_by_its_socket(states, socket, i + 1, k);
    }
}

/// An agent that rests is shown in another colour than one that works.
pub proof fn law_resting_agents_are_seen()
    ensures
        crate::popups::status_color("idle"@) == crate::style::ok(),
        crate::popups::status_color("working"@) == crate::style::accent(),
        crate::style::ok() != crate::style::accent(),
{
    reveal_strlit("idle");
    reveal_strlit("working");
    assert("idle"@.len() != "working"@.len());
}

} // verus!
