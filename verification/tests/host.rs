use gitview::config::ListSide;
use gitview::git::GitOut;
use gitview::hash::{fnv1a, hex_of, repo_hash};
use gitview::host::{
    close_tab_args, close_view, evacuate, hunt_pane, move_pane, new_pane, parked_panes,
    replay_recovery, Cmd, Dir, Hunt, MoveStep, RecoverState,
};
use gitview::json::Json;
use gitview::keymap::KeyCode;
use gitview::opening::{Named, Opening, Stage};
use gitview::orchestrate::{
    collect_cwds, find_state_by_socket, find_str, git_toplevel, herdr_json, invoked_from,
    is_state_name, legacy_recover_path, legacy_state_path, open, read_context, read_sidebar_state, read_tab_state,
    repo_candidates, resolve_repo, sidebar_socket_path, sidebar_state_path, state_file_for,
    tab_key, tab_socket_path, tab_state_path, toggle, toggle_tab, view_alive, view_context, Call,
    CtxError, ViewMode, ViewState,
};
use gitview::popups::{
    ask_click, ask_key, buttons, color_for_status, pick_answer, pick_click, pick_key, picker_row,
    read_agents, workspace_agents, Pick, Reply,
};
use gitview::preview_session::picked;
use gitview::probe::{report_harvest, size_line, verdict};

fn sample_state(repo: &str, tab_id: &str, mode: ViewMode, socket: String) -> ViewState {
    ViewState {
        repo: repo.into(),
        tab_id: tab_id.into(),
        preview_pane: "p1".into(),
        list_pane: "p2".into(),
        socket,
        mode,
        origin_tab: None,
    }
}

#[test]
fn collect_cwds_matches_real_action_context_keys() {
    let ctx = read_context(Some(
        r#"{
            "workspace_id": "wF",
            "workspace_cwd": "/repo/from-workspace",
            "tab_id": "wF:t2",
            "focused_pane_id": "wF:p3",
            "focused_pane_cwd": "/repo/from-pane",
            "invocation_source": "cli"
        }"#,
    ))
    .unwrap();
    let mut out = collect_cwds(&ctx);
    out.sort();
    assert_eq!(out, vec!["/repo/from-pane", "/repo/from-workspace"]);
    assert_eq!(
        find_str(&ctx, "tab_id").map(|s| s.as_str()),
        Some("wF:t2")
    );
}

#[test]
fn collect_cwds_ignores_non_cwd_keys_and_recurses() {
    let ctx = read_context(Some(
        r#"{"nested": [{"cwd": "/a", "label": "x"}], "repo_root": "/b"}"#,
    ))
    .unwrap();
    let mut out = collect_cwds(&ctx);
    out.sort();
    assert_eq!(out, vec!["/a", "/b"]);
}

/// What lies in the state directory, by path.
struct Disk {
    files: Vec<(String, ViewState)>,
}

const STATE_DIR: &str = "/state";

impl Disk {
    fn write(&mut self, repo: &str, state: ViewState) {
        let path = state_file_for(STATE_DIR, repo, &state);
        self.files.push((path, state));
    }

    fn at(&self, path: &str) -> Option<ViewState> {
        self.files
            .iter()
            .find(|(p, _)| p == path)
            .map(|(_, s)| sample_state(&s.repo, &s.tab_id, s.mode, s.socket.clone()))
    }

    fn sidebar(&self, repo: &str, tab: &str) -> Option<ViewState> {
        read_sidebar_state(
            tab,
            self.at(&sidebar_state_path(STATE_DIR, repo, tab)),
            self.at(&legacy_state_path(STATE_DIR, repo)),
        )
    }

    fn tab(&self, repo: &str) -> Option<ViewState> {
        read_tab_state(
            self.at(&tab_state_path(STATE_DIR, repo)),
            self.at(&legacy_state_path(STATE_DIR, repo)),
        )
    }
}

#[test]
fn sidebar_state_is_per_tab_not_shared_across_tabs() {
    let mut disk = Disk { files: vec![] };
    let repo = "/repo";
    let socket = sidebar_socket_path(STATE_DIR, repo, "tab-a");
    disk.write(repo, sample_state(repo, "tab-a", ViewMode::Sidebar, socket));

    assert!(disk.sidebar(repo, "tab-a").is_some());
    // Another tab must not see the sidebar of tab-a.
    assert!(disk.sidebar(repo, "tab-b").is_none());
}

#[test]
fn tab_state_is_singleton_and_ignores_sidebars() {
    let mut disk = Disk { files: vec![] };
    let repo = "/repo";
    let socket = sidebar_socket_path(STATE_DIR, repo, "host-tab");
    disk.write(
        repo,
        sample_state(repo, "host-tab", ViewMode::Sidebar, socket),
    );
    assert!(disk.tab(repo).is_none());

    let socket = tab_socket_path(STATE_DIR, repo);
    disk.write(repo, sample_state(repo, "view-tab", ViewMode::Tab, socket));
    let got = disk.tab(repo).unwrap();
    assert_eq!(got.tab_id, "view-tab");
    assert_eq!(got.mode, ViewMode::Tab);
}

#[test]
fn legacy_sidebar_state_only_matches_its_host_tab() {
    let repo = "/repo";
    let state = sample_state(
        repo,
        "tab-a",
        ViewMode::Sidebar,
        format!("/state/views/{}.sock", repo_hash(repo)),
    );
    let disk = Disk {
        files: vec![(legacy_state_path(STATE_DIR, repo), state)],
    };
    assert!(disk.sidebar(repo, "tab-a").is_some());
    assert!(disk.sidebar(repo, "tab-b").is_none());
    assert!(disk.tab(repo).is_none());
}

#[test]
fn find_state_by_socket_picks_the_right_instance() {
    let repo = "/repo";
    let state = |tab: &str| {
        sample_state(
            repo,
            tab,
            ViewMode::Sidebar,
            sidebar_socket_path(STATE_DIR, repo, tab),
        )
    };
    let states = vec![state("tab-a"), state("tab-b")];
    let found = find_state_by_socket(&states, &states[1].socket).unwrap();
    assert_eq!(states[found].tab_id, "tab-b");
    assert_eq!(find_state_by_socket(&states, "/state/views/none.sock"), None);
    let name = sidebar_state_path(STATE_DIR, repo, "tab-a");
    let name = name.rsplit('/').next().unwrap();
    assert!(is_state_name(name, repo));
    assert!(!is_state_name(name, "/other"));
}

#[test]
fn sidebar_socket_fits_macos_sun_path() {
    // A socket's path has 104 bytes on macOS, the NUL among them.
    const MAX_SOCK_PATH: usize = 103;
    let repo = "/Users/adamchmara/projects/herdr-gitview";
    let tab = "w22:t8";
    let prefix = "/Users/adamchmara/.local/state/herdr/plugins/chmarax.gitview/views";
    let new_path = format!("{prefix}/{}.{}.sock", repo_hash(repo), tab_key(tab));
    let old_path = format!("{prefix}/{}.{:016x}.sock", repo_hash(repo), fnv1a(tab));
    assert!(
        new_path.len() <= MAX_SOCK_PATH,
        "sidebar socket too long: {new_path} ({} bytes)",
        new_path.len()
    );
    assert!(
        old_path.len() > MAX_SOCK_PATH,
        "expected old naming to exceed limit, got {} bytes",
        old_path.len()
    );
    assert_eq!(
        sidebar_socket_path("/Users/adamchmara/.local/state/herdr/plugins/chmarax.gitview", repo, tab),
        new_path
    );
}

#[test]
fn the_hash_is_the_sixty_four_bit_one() {
    assert_eq!(fnv1a(""), 0xcbf29ce484222325);
    assert_eq!(fnv1a("a"), 0xaf63dc4c8601ec8c);
    assert_eq!(hex_of(fnv1a("a"), 16), "af63dc4c8601ec8c");
    assert_eq!(hex_of(0x2a, 4), "002a");
    assert_eq!(repo_hash("a"), hex_of(fnv1a("a"), 16));
}

#[test]
fn toggling_opens_closes_or_comes_to_the_front() {
    assert_eq!(toggle(false, false), Call::Open);
    assert_eq!(toggle(true, true), Call::Close);
    assert_eq!(toggle(true, false), Call::Reopen);
    assert_eq!(toggle_tab(true, true, true), Call::Close);
    assert_eq!(toggle_tab(true, true, false), Call::Focus);
    assert_eq!(toggle_tab(false, false, false), Call::Open);
    assert_eq!(open(false, false), Call::Open);
    assert_eq!(open(true, true), Call::Stay);
    assert!(view_alive(true, true));
    assert!(view_alive(true, false));
    assert!(!view_alive(false, false));
}

#[test]
fn the_repository_is_the_first_candidate_that_has_one() {
    let ctx = read_context(Some(r#"{"cwd": "/a"}"#));
    assert_eq!(
        repo_candidates(&ctx, Some("/here".into())),
        vec!["/a", "/here"]
    );
    assert_eq!(
        resolve_repo(&vec![None, Some("/b".into()), Some("/c".into())]),
        Ok("/b".to_string())
    );
    assert!(resolve_repo(&vec![None]).is_err());
    let out = |ok: bool, text: &str| {
        Ok(GitOut {
            ok,
            stdout: text.as_bytes().to_vec(),
            stderr: vec![],
        })
    };
    assert_eq!(git_toplevel(&out(true, "/b\n")).as_deref(), Some("/b"));
    assert_eq!(git_toplevel(&out(false, "/b\n")), None);
    assert!(herdr_json(&out(true, "{}")).is_ok());
    assert!(matches!(herdr_json(&out(true, "{")), Ok(Json::Null)));
    assert!(herdr_json(&out(false, "{}")).is_err());
    assert!(read_context(Some("{")).is_none());
    assert!(read_context(None).is_none());
}

#[test]
fn a_context_without_a_place_says_what_is_missing() {
    let ctx = read_context(Some(
        r#"{"workspace_id": "w1", "tab_id": "w1:t1", "focused_pane_id": "w1:p1"}"#,
    ));
    let got = view_context(&ctx, &None, &None, &None).unwrap();
    assert_eq!(got.workspace, "w1");
    assert_eq!(got.tab, "w1:t1");
    assert_eq!(got.focused_pane, "w1:p1");
    assert!(invoked_from(&ctx, "w1:t1"));
    assert!(!invoked_from(&ctx, "w1:t2"));

    let none = read_context(Some("{}"));
    assert_eq!(
        view_context(&none, &None, &Some("w1".into()), &None).unwrap_err(),
        CtxError::NoPane
    );
    assert_eq!(
        view_context(&none, &Some("w1:p1".into()), &None, &None).unwrap_err(),
        CtxError::NoWorkspace
    );
    assert_eq!(
        view_context(&none, &Some("w1:p1".into()), &Some("w1".into()), &None).unwrap_err(),
        CtxError::NoTab
    );
    assert!(!CtxError::NoTab.message().is_empty());
}

// ---- panes ------------------------------------------------------------------------

fn step(pane: &str, target: &str) -> MoveStep {
    MoveStep {
        pane: pane.into(),
        target: target.into(),
        dir: Dir::Right,
        ratio: "0.5000".into(),
    }
}

#[test]
fn the_recovery_is_on_disk_before_a_pane_moves() {
    let panes = vec!["p1".to_string(), "p2".to_string(), "p3".to_string()];
    let parked = parked_panes(&panes, "p2");
    assert_eq!(parked, vec!["p1", "p3"]);
    let cmds = evacuate(&parked, "t9");
    assert!(matches!(cmds[0], Cmd::SaveRecovery));
    assert_eq!(
        cmds.iter()
            .filter(|c| matches!(c, Cmd::Run { .. }))
            .count(),
        2
    );
}

#[test]
fn a_recovery_brings_back_the_panes_that_live() {
    let rec = RecoverState {
        tab: "t1".into(),
        parking_tab: "t9".into(),
        parked: vec!["p1".into(), "p3".into()],
        steps: vec![step("p1", "p2"), step("p3", "p1")],
    };
    let all = replay_recovery(&rec, &vec![true, true]);
    let one = replay_recovery(&rec, &vec![true, false]);
    assert!(all.len() > one.len());
    assert!(all.iter().any(|c| matches!(c, Cmd::DropRecovery)));
}

#[test]
fn a_pane_is_moved_beside_its_target() {
    let args = move_pane("p1", "t1", Dir::Down, Some(("p2", "0.2500")));
    assert!(args.contains(&"p1".to_string()));
    assert!(args.contains(&"t1".to_string()));
    assert!(args.contains(&"p2".to_string()));
    assert!(args.contains(&"0.2500".to_string()));
    assert_eq!(Dir::Right.as_cli_arg(), "right");
    assert_eq!(Dir::Down.as_cli_arg(), "down");
    assert_eq!(
        new_pane(&vec!["a".into()], &vec!["a".into(), "b".into()]).as_deref(),
        Some("b")
    );
    assert_eq!(new_pane(&vec!["a".into()], &vec!["a".into()]), None);
}

#[test]
fn a_tab_view_goes_with_its_tab_and_a_sidebar_pane_by_pane() {
    let tab = sample_state("/repo", "t1", ViewMode::Tab, "/s.sock".into());
    assert!(close_tab_args(&tab).is_some());
    let sidebar = sample_state("/repo", "t1", ViewMode::Sidebar, "/s.sock".into());
    assert_eq!(close_tab_args(&sidebar), None);
    let closing: Vec<String> = close_view(&sidebar, false)
        .iter()
        .filter_map(|c| match c {
            Cmd::Run { args, .. } => Some(args.join(" ")),
            _ => None,
        })
        .collect();
    assert!(closing.iter().any(|a| a.contains("p1")), "{closing:?}");
    assert!(closing.iter().any(|a| a.contains("p2")), "{closing:?}");
}

fn opening() -> Opening {
    Opening {
        repo: "/repo".into(),
        socket: "/s.sock".into(),
        list_side: ListSide::Right,
        list_percent: 25,
        view_percent: 50,
        workspace: "w1".into(),
        tab: "t1".into(),
        panes: vec!["p0".into()],
        anchor: "p0".into(),
        steps: vec![],
    }
}

fn named(pane: Option<&str>, tab: Option<&str>) -> Named {
    Named {
        pane_id: pane.map(|p| p.into()),
        tab_id: tab.map(|t| t.into()),
    }
}

#[test]
fn a_tab_view_is_written_down_when_it_is_open() {
    let o = opening();
    let mut next = Stage::Tab;
    let mut wrote = false;
    for n in [
        named(None, None),
        named(Some("p1"), Some("t7")),
        named(Some("p1"), Some("t7")),
        named(Some("p2"), None),
        named(Some("p2"), None),
    ] {
        let s = o.open_tab_view(next, &n);
        next = s.next;
        wrote = wrote || s.cmds.iter().any(|c| matches!(c, Cmd::WriteState));
        if let Stage::Open { .. } = next {
            break;
        }
    }
    match next {
        Stage::Open {
            mode,
            tab,
            preview,
            list,
        } => {
            assert_eq!(mode, ViewMode::Tab);
            assert_eq!(tab, "t7");
            assert_eq!(preview, "p1");
            assert_eq!(list, "p2");
        }
        other => panic!("{other:?}"),
    }
    assert!(wrote);
}

#[test]
fn a_sidebar_beside_one_pane_needs_no_parking() {
    let o = opening();
    let mut next = Stage::Sidebar;
    let mut wrote = false;
    for n in [
        named(None, None),
        named(Some("p1"), None),
        named(Some("p2"), None),
        named(Some("p2"), None),
    ] {
        let s = o.open_sidebar_view(next, &n);
        next = s.next;
        wrote = wrote || s.cmds.iter().any(|c| matches!(c, Cmd::WriteState));
        if let Stage::Open { .. } = next {
            break;
        }
    }
    assert!(
        matches!(
            next,
            Stage::Open {
                mode: ViewMode::Sidebar,
                ..
            }
        ),
        "{next:?}"
    );
    assert!(wrote);
}

// ---- popups -------------------------------------------------------------------------

#[test]
fn the_buttons_do_not_touch() {
    let b = buttons(0, 5, 40);
    assert!(b.yes.1 <= b.no.0);
    assert_eq!(ask_click(b, b.yes.0, 5), Some(Reply::Yes));
    assert_eq!(ask_click(b, b.no.0, 5), Some(Reply::No));
    assert_eq!(ask_click(b, b.no.0, 4), None);
    assert_eq!(ask_key(KeyCode::Char('y')), Some(Reply::Yes));
    assert_eq!(ask_key(KeyCode::Char('n')), Some(Reply::No));
    assert_eq!(ask_key(KeyCode::Esc), Some(Reply::Cancel));
    assert_eq!(Reply::Yes.word(), "y");
    assert_eq!(Reply::No.word(), "n");
}

#[test]
fn an_agent_is_picked_by_key_or_click() {
    assert_eq!(pick_key(KeyCode::Down, 0, 2), Pick::At(1));
    assert_eq!(pick_key(KeyCode::Enter, 1, 2), Pick::Chosen(1));
    assert_eq!(pick_key(KeyCode::Esc, 1, 2), Pick::Cancelled);
    assert!(matches!(pick_click(0, 0, 2), Pick::At(_) | Pick::Chosen(_)));
    let answer = pick_answer("w1:p9");
    assert_eq!(picked(&answer).as_deref(), Some("w1:p9"));
    assert_eq!(picked("cancel"), None);
    assert_eq!(picked("no tab"), None);
}

#[test]
fn agents_are_read_from_the_list() {
    let agents = read_agents(
        r#"[["w1:p1","scribe","idle","main","/repo"],["w1:p2","other","working","",""]]"#,
    );
    assert_eq!(agents.len(), 2);
    assert_eq!(agents[0].pane, "w1:p1");
    let text: String = picker_row(&agents[0])
        .spans
        .iter()
        .map(|s| s.content.as_str())
        .collect();
    assert_eq!(text, "  scribe · idle  tab: main  /repo  w1:p1");
    assert!(read_agents("not json").is_empty());
    assert_ne!(color_for_status("idle"), color_for_status("working"));
}

#[test]
fn a_probe_reports_what_it_saw() {
    assert_eq!(size_line("é\nb"), "4 bytes, 2 lines");
    assert_eq!(
        report_harvest(Some("a\nb"), "nothing"),
        vec![
            "  3 bytes, 2 lines",
            "  ---8<---",
            "  a",
            "  b",
            "  --->8---"
        ]
    );
    assert_eq!(report_harvest(None, "nothing"), vec!["  nothing"]);
    assert_eq!(
        verdict(Some("abc"), None).as_deref(),
        Some("  transcript only (3 bytes); screen returned nothing")
    );
    assert_eq!(
        verdict(None, Some("abc")).as_deref(),
        Some("  SCREEN ONLY (3 bytes) — transcript path failed")
    );
    assert!(verdict(None, None).is_some());
    assert_eq!(verdict(Some("a"), Some("b")), None);
}

#[test]
fn a_new_pane_is_looked_for_ten_times() {
    let before = vec!["a".to_string()];
    let mut looks = 0;
    let mut seen = 0;
    loop {
        seen += 1;
        match hunt_pane(&before, &before, looks) {
            Hunt::Again(n) => looks = n,
            Hunt::GiveUp => break,
            Hunt::Found(id) => panic!("found {id}"),
        }
    }
    assert_eq!(seen, 10);
    let after = vec!["a".to_string(), "b".to_string()];
    assert!(matches!(hunt_pane(&before, &after, 9), Hunt::Found(id) if id == "b"));
}

#[test]
fn agents_of_the_workspace_are_listed() {
    let text = r#"{"result":{"agents":[
        {"pane_id":"p1","agent":"a","agent_status":"idle","tab_label":"t","cwd":"/x","workspace_id":"w1"},
        {"pane_id":"p2","agent":"b","workspace_id":"w2"},
        {"agent":"c","workspace_id":"w1"}
    ]}}"#;
    let reply = herdr_json(&Ok(GitOut {
        ok: true,
        stdout: text.into(),
        stderr: vec![],
    }))
    .unwrap();
    let here = workspace_agents(&reply, Some("w1"));
    assert_eq!(here.len(), 1);
    assert_eq!(
        (here[0].pane.as_str(), here[0].agent.as_str(), here[0].status.as_str()),
        ("p1", "a", "idle")
    );
    assert_eq!((here[0].tab.as_str(), here[0].cwd.as_str()), ("t", "/x"));
    let all = workspace_agents(&reply, None);
    assert_eq!(all.len(), 2);
    assert_eq!((all[1].pane.as_str(), all[1].status.as_str()), ("p2", ""));
    assert!(workspace_agents(&Json::Null, None).is_empty());
}

#[test]
fn the_old_note_of_an_opening_is_named_by_the_repository_alone() {
    assert_eq!(
        legacy_recover_path("/s", "/repo"),
        format!("/s/views/{}.recover.json", repo_hash("/repo"))
    );
}
