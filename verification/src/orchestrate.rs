//! Opening, focusing and closing the view: where its files are, which view a
//! key press means, and what the host is asked to do.

use vstd::prelude::*;

use crate::git_parse::{lossy, lossy_text};
use crate::git_repo::{answer_if_ok, answer_if_ok_of, Ran};
use crate::hash::{fnv, fnv1a, hex, hex_of, repo_hash, repo_key};
use crate::json::{json_read, model, parse_json, Json, JsonV};
use crate::path::{is_same_file, join_path, joined, same_file};
use crate::text::{
    concat2, concat3, decimal, decimal_of, deep, ends_with, group_deep, has_prefix, has_suffix,
    same, starts_with, trim, trimmed,
};

verus! {

/// How the view is laid out.
#[derive(Debug, Clone, Copy, PartialEq, Eq, Structural)]
pub enum ViewMode {
    /// A column of the tab that it was called from.
    Sidebar,
    /// A tab of its own.
    Tab,
}

impl Default for ViewMode {
    fn default() -> (r: ViewMode)
        ensures
            r == ViewMode::Sidebar,
    {
        ViewMode::Sidebar
    }
}

/// What is needed to find an open view again and to close it.
pub struct ViewState {
    pub repo: String,
    /// The tab that the view is in.
    pub tab_id: String,
    pub preview_pane: String,
    pub list_pane: String,
    pub socket: String,
    pub mode: ViewMode,
    /// The tab to go back to.
    pub origin_tab: Option<String>,
}

// ---- files ------------------------------------------------------------------------------

/// A tab in file names: eight hexadecimal digits, so that a socket's path stays
/// short enough.
pub open spec fn tab_name(tab_id: Seq<char>) -> Seq<char> {
    hex((fnv(vstd::utf8::encode_utf8(tab_id)) % 0x1_0000_0000) as nat, 8)
}

pub fn tab_key(tab_id: &str) -> (r: String)
    ensures
        r@ == tab_name(tab_id@),
{
    hex_of(fnv1a(tab_id) % 0x1_0000_0000, 8)
}

/// A file of a repository's views.
pub open spec fn view_file(state_dir: Seq<char>, name: Seq<char>) -> Seq<char> {
    joined(joined(state_dir, "views"@), name)
}

fn file_in_views(state_dir: &str, name: &str) -> (r: String)
    ensures
        r@ == view_file(state_dir@, name@),
{
    let views: String = join_path(state_dir, "views");
    join_path(views.as_str(), name)
}

pub fn views_dir(state_dir: &str) -> (r: String)
    ensures
        r@ == joined(state_dir@, "views"@),
{
    join_path(state_dir, "views")
}

/// Where the one state of a repository used to be.
pub fn legacy_state_path(state_dir: &str, repo: &str) -> (r: String)
    ensures
        r@ == view_file(state_dir@, repo_key(repo@) + ".json"@),
{
    let name: String = concat2(repo_hash(repo).as_str(), ".json");
    file_in_views(state_dir, name.as_str())
}

pub open spec fn tab_state_file(state_dir: Seq<char>, repo: Seq<char>) -> Seq<char> {
    view_file(state_dir, repo_key(repo) + ".tab.json"@)
}

pub fn tab_state_path(state_dir: &str, repo: &str) -> (r: String)
    ensures
        r@ == tab_state_file(state_dir@, repo@),
{
    let name: String = concat2(repo_hash(repo).as_str(), ".tab.json");
    file_in_views(state_dir, name.as_str())
}

/// The name of a file that belongs to a tab's sidebar.
pub open spec fn sidebar_name(repo: Seq<char>, tab_id: Seq<char>, end: Seq<char>) -> Seq<char> {
    repo_key(repo) + "."@ + tab_name(tab_id) + end
}

fn sidebar_file(state_dir: &str, repo: &str, tab_id: &str, end: &str) -> (r: String)
    ensures
        r@ == view_file(state_dir@, sidebar_name(repo@, tab_id@, end@)),
{
    let head: String = concat3(repo_hash(repo).as_str(), ".", tab_key(tab_id).as_str());
    let name: String = concat2(head.as_str(), end);
    file_in_views(state_dir, name.as_str())
}

pub fn sidebar_state_path(state_dir: &str, repo: &str, tab_id: &str) -> (r: String)
    ensures
        r@ == view_file(state_dir@, sidebar_name(repo@, tab_id@, ".json"@)),
{
    sidebar_file(state_dir, repo, tab_id, ".json")
}

pub fn tab_socket_path(state_dir: &str, repo: &str) -> (r: String)
    ensures
        r@ == view_file(state_dir@, repo_key(repo@) + ".tab.sock"@),
{
    let name: String = concat2(repo_hash(repo).as_str(), ".tab.sock");
    file_in_views(state_dir, name.as_str())
}

pub fn sidebar_socket_path(state_dir: &str, repo: &str, tab_id: &str) -> (r: String)
    ensures
        r@ == view_file(state_dir@, sidebar_name(repo@, tab_id@, ".sock"@)),
{
    sidebar_file(state_dir, repo, tab_id, ".sock")
}

pub fn recover_path(state_dir: &str, repo: &str, tab_id: &str) -> (r: String)
    ensures
        r@ == view_file(state_dir@, sidebar_name(repo@, tab_id@, ".recover.json"@)),
{
    sidebar_file(state_dir, repo, tab_id, ".recover.json")
}

/// Where an interrupted opening was noted when a repository had one view only.
pub fn legacy_recover_path(state_dir: &str, repo: &str) -> (r: String)
    ensures
        r@ == view_file(state_dir@, repo_key(repo@) + ".recover.json"@),
{
    let name: String = concat2(repo_hash(repo).as_str(), ".recover.json");
    file_in_views(state_dir, name.as_str())
}

/// The file that a view's state is kept in.
pub fn state_file_for(state_dir: &str, repo: &str, state: &ViewState) -> (r: String)
    ensures
        r@ == match state.mode {
            ViewMode::Tab => tab_state_file(state_dir@, repo@),
            ViewMode::Sidebar => view_file(
                state_dir@,
                sidebar_name(repo@, state.tab_id@, ".json"@),
            ),
        },
{
    match state.mode {
        ViewMode::Tab => tab_state_path(state_dir, repo),
        ViewMode::Sidebar => sidebar_state_path(state_dir, repo, state.tab_id.as_str()),
    }
}

/// Whether a file name is that of a view's state of this repository.
pub fn is_state_name(name: &str, repo: &str) -> (r: bool)
    ensures
        r == (has_prefix(name@, repo_key(repo@)) && has_suffix(name@, ".json"@) && !has_suffix(
            name@,
            ".recover.json"@,
        )),
{
    let prefix: String = repo_hash(repo);
    starts_with(name, prefix.as_str()) && ends_with(name, ".json") && !ends_with(
        name,
        ".recover.json",
    )
}

// ---- which view ----------------------------------------------------------------------------

/// The sidebar of a tab: its own state, or the old one where it is this tab's.
pub fn read_sidebar_state(tab_id: &str, own: Option<ViewState>, legacy: Option<ViewState>) -> (r: Option<ViewState>)
    ensures
        if tab_id@.len() == 0 {
            r is None
        } else if own is Some {
            r == own
        } else {
            match legacy {
                Some(l) => if l.mode == ViewMode::Sidebar && l.tab_id@ == tab_id@ {
                    r == Some(l)
                } else {
                    r is None
                },
                None => r is None,
            }
        },
{
    if tab_id.unicode_len() == 0 {
        return None;
    }
    if own.is_some() {
        return own;
    }
    match legacy {
        Some(l) => if l.mode == ViewMode::Sidebar && same(l.tab_id.as_str(), tab_id) {
            Some(l)
        } else {
            None
        },
        None => None,
    }
}

/// The view in a tab of its own: its own state, or the old one where it is of
/// that kind.
pub fn read_tab_state(own: Option<ViewState>, legacy: Option<ViewState>) -> (r: Option<ViewState>)
    ensures
        if own is Some {
            r == own
        } else {
            match legacy {
                Some(l) => if l.mode == ViewMode::Tab {
                    r == Some(l)
                } else {
                    r is None
                },
                None => r is None,
            }
        },
{
    if own.is_some() {
        return own;
    }
    match legacy {
        Some(l) => if l.mode == ViewMode::Tab {
            Some(l)
        } else {
            None
        },
        None => None,
    }
}

/// Whether the old state describes this view, and so goes with it.
pub fn legacy_is_same(legacy: &ViewState, state: &ViewState) -> (r: bool)
    ensures
        r == (legacy.tab_id@ == state.tab_id@ && legacy.preview_pane@ == state.preview_pane@),
{
    same(legacy.tab_id.as_str(), state.tab_id.as_str()) && same(
        legacy.preview_pane.as_str(),
        state.preview_pane.as_str(),
    )
}

/// The place of the view with a socket, or the number of views.
pub open spec fn socket_place(states: Seq<ViewState>, socket: Seq<char>, i: int) -> int
    decreases states.len() - i,
{
    if i < 0 || i >= states.len() || same_file(states[i].socket@, socket) {
        i
    } else {
        socket_place(states, socket, i + 1)
    }
}

pub fn find_state_by_socket(states: &Vec<ViewState>, socket: &str) -> (r: Option<usize>)
    ensures
        match r {
            Some(k) => k == socket_place(states@, socket@, 0) && k < states@.len(),
            None => socket_place(states@, socket@, 0) >= states@.len(),
        },
{
    let mut i: usize = 0;
    while i < states.len()
        invariant
            i <= states@.len(),
            socket_place(states@, socket@, 0) == socket_place(states@, socket@, i as int),
        decreases states@.len() - i,
    {
        if is_same_file(states[i].socket.as_str(), socket) {
            return Some(i);
        }
        i += 1;
    }
    None
}

/// What a call for the view comes to.
#[derive(Debug, Clone, Copy, PartialEq, Eq, Structural)]
pub enum Call {
    Open,
    /// Its panes are gone: clear up, then open.
    Reopen,
    Close,
    /// Go to it.
    Focus,
    /// It is there.
    Stay,
}

/// The sidebar's key: it opens or closes the sidebar of this tab.
pub fn toggle(known: bool, alive: bool) -> (r: Call)
    ensures
        r == if !known {
            Call::Open
        } else if alive {
            Call::Close
        } else {
            Call::Reopen
        },
{
    if !known {
        Call::Open
    } else if alive {
        Call::Close
    } else {
        Call::Reopen
    }
}

/// The tab's key: from another tab it goes to the view, from the view it closes
/// it.
pub fn toggle_tab(known: bool, alive: bool, from_inside: bool) -> (r: Call)
    ensures
        r == if !known {
            Call::Open
        } else if !alive {
            Call::Reopen
        } else if from_inside {
            Call::Close
        } else {
            Call::Focus
        },
{
    if !known {
        Call::Open
    } else if !alive {
        Call::Reopen
    } else if from_inside {
        Call::Close
    } else {
        Call::Focus
    }
}

/// Open the sidebar, unless it is there.
pub fn open(known: bool, alive: bool) -> (r: Call)
    ensures
        r == if !known {
            Call::Open
        } else if alive {
            Call::Stay
        } else {
            Call::Reopen
        },
{
    if !known {
        Call::Open
    } else if alive {
        Call::Stay
    } else {
        Call::Reopen
    }
}

/// A view is there as long as one of its panes is.
pub fn view_alive(preview_alive: bool, list_alive: bool) -> (r: bool)
    ensures
        r == (preview_alive || list_alive),
{
    preview_alive || list_alive
}

// ---- searching replies -----------------------------------------------------------------------

/// The first string under a key, an object's own members first, then depth
/// first.
pub open spec fn find_text(j: JsonV, key: Seq<char>) -> Option<Seq<char>>
    decreases j,
{
    match j {
        JsonV::Obj(f) => match j.text_at(key) {
            Some(s) => Some(s),
            None => find_in_fields(f, key),
        },
        JsonV::Arr(a) => find_in_items(a, key),
        _ => None,
    }
}

pub open spec fn find_in_fields(f: Seq<(Seq<char>, JsonV)>, key: Seq<char>) -> Option<Seq<char>>
    decreases f,
{
    if f.len() == 0 {
        None
    } else {
        let x = f[0];
        match find_text(x.1, key) {
            Some(s) => Some(s),
            None => find_in_fields(f.skip(1), key),
        }
    }
}

pub open spec fn find_in_items(a: Seq<JsonV>, key: Seq<char>) -> Option<Seq<char>>
    decreases a,
{
    if a.len() == 0 {
        None
    } else {
        match find_text(a[0], key) {
            Some(s) => Some(s),
            None => find_in_items(a.skip(1), key),
        }
    }
}

/// The first string under a key.
pub fn find_str<'a>(j: &'a Json, key: &str) -> (r: Option<&'a String>)
    ensures
        match r {
            Some(s) => find_text(model(*j), key@) == Some(s@),
            None => find_text(model(*j), key@) is None,
        },
    decreases *j,
{
    match j {
        Json::Obj(v) => {
            match j.str_at(key) {
                Some(s) => {
                    return Some(s);
                },
                None => {},
            }
            let ghost f = model(*j)->Obj_0;
            assert(f.skip(0) =~= f);
            let mut i: usize = 0;
            while i < v.len()
                invariant
                    i <= v@.len(),
                    *j == Json::Obj(*v),
                    f == model(*j)->Obj_0,
                    f.len() == v@.len(),
                    model(*j).text_at(key@) is None,
                    find_in_fields(f, key@) == find_in_fields(f.skip(i as int), key@),
                decreases v@.len() - i,
            {
                proof {
                    assert(f.skip(i as int)[0] == (v@[i as int].0@, model(v@[i as int].1)));
                    assert(f.skip(i as int).skip(1) =~= f.skip(i + 1));
                    assert(decreases_to!(*j => *v));
                    assert(decreases_to!(*v => v@));
                    assert(decreases_to!(v@ => v@[i as int]));
                    assert(decreases_to!(v@[i as int] => v@[i as int].1));
                }
                match find_str(&v[i].1, key) {
                    Some(s) => {
                        return Some(s);
                    },
                    None => {},
                }
                i += 1;
            }
            assert(f.skip(i as int).len() == 0);
            None
        },
        Json::Arr(v) => {
            let ghost a = model(*j)->Arr_0;
            assert(a.skip(0) =~= a);
            let mut i: usize = 0;
            while i < v.len()
                invariant
                    i <= v@.len(),
                    *j == Json::Arr(*v),
                    a == model(*j)->Arr_0,
                    a.len() == v@.len(),
                    find_in_items(a, key@) == find_in_items(a.skip(i as int), key@),
                decreases v@.len() - i,
            {
                proof {
                    assert(a.skip(i as int)[0] == model(v@[i as int]));
                    assert(a.skip(i as int).skip(1) =~= a.skip(i + 1));
                    assert(decreases_to!(*j => *v));
                    assert(decreases_to!(*v => v@));
                    assert(decreases_to!(v@ => v@[i as int]));
                }
                match find_str(&v[i], key) {
                    Some(s) => {
                        return Some(s);
                    },
                    None => {},
                }
                i += 1;
            }
            assert(a.skip(i as int).len() == 0);
            None
        },
        _ => None,
    }
}

/// Which members are looked for.
pub enum Want<'a> {
    /// Working directories and repository roots.
    Dirs,
    /// A key.
    Key(&'a str),
}

impl<'a> Want<'a> {
    pub open spec fn takes(self, key: Seq<char>) -> bool {
        match self {
            Want::Dirs => has_suffix(key, "cwd"@) || key == "repo_root"@,
            Want::Key(k) => key == k@,
        }
    }

    fn is_taken(&self, key: &str) -> (r: bool)
        ensures
            r == self.takes(key@),
    {
        match self {
            Want::Dirs => ends_with(key, "cwd") || same(key, "repo_root"),
            Want::Key(k) => same(key, k),
        }
    }
}

/// All strings under the keys looked for, at any depth, in order.
pub open spec fn texts_in(j: JsonV, want: Want) -> Seq<Seq<char>>
    decreases j,
{
    match j {
        JsonV::Obj(f) => texts_in_fields(f, want),
        JsonV::Arr(a) => texts_in_items(a, want),
        _ => Seq::empty(),
    }
}

pub open spec fn texts_in_fields(f: Seq<(Seq<char>, JsonV)>, want: Want) -> Seq<Seq<char>>
    decreases f,
{
    if f.len() == 0 {
        Seq::empty()
    } else {
        let x = f[0];
        (match x.1.text() {
            Some(s) => if want.takes(x.0) {
                seq![s]
            } else {
                seq![]
            },
            None => seq![],
        }) + texts_in(x.1, want) + texts_in_fields(f.skip(1), want)
    }
}

pub open spec fn texts_in_items(a: Seq<JsonV>, want: Want) -> Seq<Seq<char>>
    decreases a,
{
    if a.len() == 0 {
        Seq::empty()
    } else {
        texts_in(a[0], want) + texts_in_items(a.skip(1), want)
    }
}

fn gather(j: &Json, want: &Want, out: &mut Vec<String>)
    ensures
        deep(final(out)@) == deep(old(out)@) + texts_in(model(*j), *want),
    decreases *j,
{
    broadcast use group_deep;

    let ghost start = deep(out@);
    match j {
        Json::Obj(v) => {
            let ghost f = model(*j)->Obj_0;
            assert(f.skip(0) =~= f);
            let ghost all = texts_in_fields(f, *want);
            let mut i: usize = 0;
            while i < v.len()
                invariant
                    i <= v@.len(),
                    *j == Json::Obj(*v),
                    f == model(*j)->Obj_0,
                    f.len() == v@.len(),
                    start + all == deep(out@) + texts_in_fields(f.skip(i as int), *want),
                decreases v@.len() - i,
            {
                let ghost before = deep(out@);
                proof {
                    assert(f.skip(i as int)[0] == (v@[i as int].0@, model(v@[i as int].1)));
                    assert(f.skip(i as int).skip(1) =~= f.skip(i + 1));
                    assert(decreases_to!(*j => *v));
                    assert(decreases_to!(*v => v@));
                    assert(decreases_to!(v@ => v@[i as int]));
                    assert(decreases_to!(v@[i as int] => v@[i as int].1));
                }
                if want.is_taken(v[i].0.as_str()) {
                    match v[i].1.as_str() {
                        Some(s) => {
                            out.push(s.as_str().to_owned());
                        },
                        None => {},
                    }
                }
                gather(&v[i].1, want, out);
                proof {
                    let head = match model(v@[i as int].1).text() {
                        Some(s) => if want.takes(v@[i as int].0@) {
                            seq![s]
                        } else {
                            seq![]
                        },
                        None => seq![],
                    };
                    let mid = texts_in(model(v@[i as int].1), *want);
                    let rest = texts_in_fields(f.skip(i + 1), *want);
                    assert(deep(out@) =~= before + head + mid);
                    assert(before + (head + mid + rest) =~= (before + head + mid) + rest);
                }
                i += 1;
            }
            assert(f.skip(i as int).len() == 0);
            assert(deep(out@) =~= start + all);
        },
        Json::Arr(v) => {
            let ghost a = model(*j)->Arr_0;
            assert(a.skip(0) =~= a);
            let ghost all = texts_in_items(a, *want);
            let mut i: usize = 0;
            while i < v.len()
                invariant
                    i <= v@.len(),
                    *j == Json::Arr(*v),
                    a == model(*j)->Arr_0,
                    a.len() == v@.len(),
                    start + all == deep(out@) + texts_in_items(a.skip(i as int), *want),
                decreases v@.len() - i,
            {
                let ghost before = deep(out@);
                proof {
                    assert(a.skip(i as int)[0] == model(v@[i as int]));
                    assert(a.skip(i as int).skip(1) =~= a.skip(i + 1));
                    assert(decreases_to!(*j => *v));
                    assert(decreases_to!(*v => v@));
                    assert(decreases_to!(v@ => v@[i as int]));
                }
                gather(&v[i], want, out);
                proof {
                    let mid = texts_in(model(v@[i as int]), *want);
                    let rest = texts_in_items(a.skip(i + 1), *want);
                    assert(before + (mid + rest) =~= (before + mid) + rest);
                }
                i += 1;
            }
            assert(a.skip(i as int).len() == 0);
            assert(deep(out@) =~= start + all);
        },
        _ => {
            assert(deep(out@) =~= start + texts_in(model(*j), *want));
        },
    }
}

/// The directories that a document names.
pub fn collect_cwds(j: &Json) -> (r: Vec<String>)
    ensures
        deep(r@) == texts_in(model(*j), Want::Dirs),
{
    broadcast use group_deep;

    let mut out: Vec<String> = Vec::new();
    gather(j, &Want::Dirs, &mut out);
    assert(deep(out@) =~= texts_in(model(*j), Want::Dirs));
    out
}

/// The strings under a key.
pub fn collect_strs(j: &Json, key: &str) -> (r: Vec<String>)
    ensures
        deep(r@) == texts_in(model(*j), Want::Key(key)),
{
    broadcast use group_deep;

    let mut out: Vec<String> = Vec::new();
    gather(j, &Want::Key(key), &mut out);
    assert(deep(out@) =~= texts_in(model(*j), Want::Key(key)));
    out
}

// ---- where the call came from --------------------------------------------------------------------

/// What the host says of a call, as a document; nothing where it is none.
pub open spec fn context_of(raw: Option<Seq<char>>) -> Option<JsonV> {
    match raw {
        Some(t) => match json_read(t) {
            Ok(j) => Some(j),
            Err(_) => None,
        },
        None => None,
    }
}

pub fn read_context(raw: Option<&str>) -> (r: Option<Json>)
    ensures
        match r {
            Some(j) => context_of(
                match raw {
                    Some(t) => Some(t@),
                    None => None,
                },
            ) == Some(model(j)),
            None => context_of(
                match raw {
                    Some(t) => Some(t@),
                    None => None,
                },
            ) is None,
        },
{
    match raw {
        Some(t) => match parse_json(t) {
            Ok(j) => Some(j),
            Err(_) => None,
        },
        None => None,
    }
}

/// The directories to look for a repository in: those of the call, then our
/// own.
pub fn repo_candidates(context: &Option<Json>, cwd: Option<String>) -> (r: Vec<String>)
    ensures
        deep(r@) == (match *context {
            Some(j) => texts_in(model(j), Want::Dirs),
            None => seq![],
        }) + (match cwd {
            Some(d) => seq![d@],
            None => seq![],
        }),
{
    broadcast use group_deep;

    let mut out: Vec<String> = match context {
        Some(j) => collect_cwds(j),
        None => Vec::new(),
    };
    let ghost before = deep(out@);
    match cwd {
        Some(d) => {
            out.push(d);
            assert(deep(out@) =~= before + seq![d@]);
        },
        None => {
            assert(deep(out@) =~= before + seq![]);
        },
    }
    out
}

/// The top of the repository that a directory is in, by git's answer.
pub fn git_toplevel(ran: &Ran) -> (r: Option<String>)
    ensures
        r.deep_view() == answer_if_ok(*ran),
{
    answer_if_ok_of(ran)
}

/// The first of the roots that were found.
pub open spec fn first_found(roots: Seq<Option<Seq<char>>>) -> Option<Seq<char>>
    decreases roots.len(),
{
    if roots.len() == 0 {
        None
    } else if roots[0] is Some {
        roots[0]
    } else {
        first_found(roots.skip(1))
    }
}

/// The repository of a call: the first of the candidates' roots.
pub fn resolve_repo(roots: &Vec<Option<String>>) -> (r: Result<String, String>)
    ensures
        match r {
            Ok(root) => first_found(deep(roots@)) == Some(root@),
            Err(e) => first_found(deep(roots@)) is None && e@
                == "not inside a git repository (checked "@ + decimal(roots@.len())
                + " candidate dirs)"@,
        },
{
    let ghost all = deep(roots@);
    assert(all.skip(0) =~= all);
    let mut i: usize = 0;
    while i < roots.len()
        invariant
            i <= roots@.len(),
            all == deep(roots@),
            first_found(all) == first_found(all.skip(i as int)),
        decreases roots@.len() - i,
    {
        assert(all.skip(i as int)[0] == roots@[i as int].deep_view());
        assert(all.skip(i as int).skip(1) =~= all.skip(i + 1));
        match &roots[i] {
            Some(root) => {
                return Ok(root.as_str().to_owned());
            },
            None => {},
        }
        i += 1;
    }
    assert(all.skip(i as int).len() == 0);
    Err(
        concat3(
            "not inside a git repository (checked ",
            decimal_of(roots.len() as u64).as_str(),
            " candidate dirs)",
        ),
    )
}

/// Whether a call came from inside a tab. A call that says nothing of its tab
/// counts as one.
pub fn invoked_from(context: &Option<Json>, tab_id: &str) -> (r: bool)
    ensures
        r == match *context {
            Some(j) => match find_text(model(j), "tab_id"@) {
                Some(t) => t == tab_id@,
                None => true,
            },
            None => true,
        },
{
    match context {
        Some(j) => match find_str(j, "tab_id") {
            Some(t) => same(t.as_str(), tab_id),
            None => true,
        },
        None => true,
    }
}

/// Where the sidebar is to open.
#[derive(Debug)]
pub struct ViewCtx {
    pub workspace: String,
    pub tab: String,
    pub focused_pane: String,
}

/// Why it is not known where the sidebar is to open.
#[derive(Debug, Clone, Copy, PartialEq, Eq, Structural)]
pub enum CtxError {
    NoPane,
    NoWorkspace,
    NoTab,
}

impl CtxError {
    pub fn message(&self) -> (r: &'static str)
        ensures
            r@ == match *self {
                CtxError::NoPane => "no focused pane in context or HERDR_PANE_ID"@,
                CtxError::NoWorkspace => "no workspace in context or HERDR_WORKSPACE_ID"@,
                CtxError::NoTab => "no tab_id in `herdr pane get` reply"@,
            },
    {
        match self {
            CtxError::NoPane => "no focused pane in context or HERDR_PANE_ID",
            CtxError::NoWorkspace => "no workspace in context or HERDR_WORKSPACE_ID",
            CtxError::NoTab => "no tab_id in `herdr pane get` reply",
        }
    }
}

/// What a call says under a key, else a fallback.
pub open spec fn told(context: Option<Json>, key: Seq<char>, fallback: Option<Seq<char>>) -> Option<Seq<char>> {
    match context {
        Some(j) => match find_text(model(j), key) {
            Some(s) => Some(s),
            None => fallback,
        },
        None => fallback,
    }
}

fn told_of(context: &Option<Json>, key: &str, fallback: &Option<String>) -> (r: Option<String>)
    ensures
        r.deep_view() == told(*context, key@, fallback.deep_view()),
{
    let found: Option<String> = match context {
        Some(j) => match find_str(j, key) {
            Some(s) => Some(s.as_str().to_owned()),
            None => None,
        },
        None => None,
    };
    match found {
        Some(s) => Some(s),
        None => match fallback {
            Some(s) => Some(s.as_str().to_owned()),
            None => None,
        },
    }
}

/// The pane whose tab has to be asked for, where the call does not name the tab.
pub fn tab_asked_of(context: &Option<Json>, pane_env: &Option<String>) -> (r: Option<String>)
    ensures
        r.deep_view() == if told(*context, "tab_id"@, None) is Some {
            None
        } else {
            told(*context, "focused_pane_id"@, pane_env.deep_view())
        },
{
    match told_of(context, "tab_id", &None) {
        Some(_) => None,
        None => told_of(context, "focused_pane_id", pane_env),
    }
}

/// Where the sidebar is to open, `pane_reply` being what the host says of the
/// focused pane.
pub fn view_context(context: &Option<Json>, pane_env: &Option<String>, workspace_env: &Option<String>, pane_reply: &Option<Json>) -> (r: Result<ViewCtx, CtxError>)
    ensures
        ({
            let pane = told(*context, "focused_pane_id"@, pane_env.deep_view());
            let workspace = told(*context, "workspace_id"@, workspace_env.deep_view());
            let tab = told(*context, "tab_id"@, told(*pane_reply, "tab_id"@, None));
            if pane is None {
                r == Err::<ViewCtx, CtxError>(CtxError::NoPane)
            } else if workspace is None {
                r == Err::<ViewCtx, CtxError>(CtxError::NoWorkspace)
            } else if tab is None {
                r == Err::<ViewCtx, CtxError>(CtxError::NoTab)
            } else {
                r matches Ok(c) && c.focused_pane@ == pane->0 && c.workspace@ == workspace->0
                    && c.tab@ == tab->0
            }
        }),
{
    let focused_pane: String = match told_of(context, "focused_pane_id", pane_env) {
        Some(p) => p,
        None => {
            return Err(CtxError::NoPane);
        },
    };
    let workspace: String = match told_of(context, "workspace_id", workspace_env) {
        Some(w) => w,
        None => {
            return Err(CtxError::NoWorkspace);
        },
    };
    let from_pane: Option<String> = told_of(pane_reply, "tab_id", &None);
    match told_of(context, "tab_id", &from_pane) {
        Some(tab) => Ok(ViewCtx { workspace, tab, focused_pane }),
        None => Err(CtxError::NoTab),
    }
}

// ---- replies of the host ----------------------------------------------------------------------

/// What the host replied: a document; an empty one where it said nothing that is
/// one. What it complained of where the command failed.
pub fn herdr_json(ran: &Ran) -> (r: Result<Json, String>)
    ensures
        match *ran {
            Err(e) => r matches Err(m) && m@ == e@,
            Ok(out) => if !out.ok {
                r matches Err(m) && m@ == trim(lossy_text(out.stderr@))
            } else {
                r matches Ok(j) && model(j) == match json_read(trim(lossy_text(out.stdout@))) {
                    Ok(d) => d,
                    Err(_) => JsonV::Null,
                }
            },
        },
{
    match ran {
        Err(e) => Err(e.as_str().to_owned()),
        Ok(out) => {
            if !out.ok {
                return Err(trimmed(lossy(&out.stderr).as_str()));
            }
            let text: String = trimmed(lossy(&out.stdout).as_str());
            match parse_json(text.as_str()) {
                Ok(j) => Ok(j),
                Err(_) => Ok(Json::Null),
            }
        },
    }
}

// ---- laws -------------------------------------------------------------------------------------

/// The name of a sidebar's socket is 30 characters long, whatever the repository
/// and the tab.
pub proof fn law_socket_names_are_short(repo: Seq<char>, tab_id: Seq<char>)
    ensures
        sidebar_name(repo, tab_id, ".sock"@).len() == 30,
{
    reveal_strlit(".");
    reveal_strlit(".sock");
    crate::hash::lemma_hex_len(fnv(vstd::utf8::encode_utf8(repo)) as nat, 16);
    crate::hash::lemma_hex_len(
        (fnv(vstd::utf8::encode_utf8(tab_id)) % 0x1_0000_0000) as nat,
        8,
    );
}

} // verus!
