//! Keys and what they do.

use vstd::prelude::*;

use crate::text::{
    chars_of, concat2, concat3, deep, group_deep, has_prefix, matches_at, same, string_of, trim,
    trimmed,
};

verus! {

// ---- keys ------------------------------------------------------------------------

#[derive(Debug, Clone, Copy, PartialEq, Eq, Structural)]
pub enum KeyCode {
    Char(char),
    Enter,
    Esc,
    Tab,
    Up,
    Down,
    Left,
    Right,
    PageUp,
    PageDown,
    Home,
    End,
    Backspace,
    Delete,
    /// Any other key.
    Other,
}

#[derive(Debug, Clone, Copy, PartialEq, Eq, Structural)]
pub struct KeyModifiers {
    pub ctrl: bool,
    pub alt: bool,
    pub shift: bool,
    /// Any other modifier.
    pub other: bool,
}

impl KeyModifiers {
    pub open spec fn no_mods() -> KeyModifiers {
        KeyModifiers { ctrl: false, alt: false, shift: false, other: false }
    }

    pub fn none() -> (r: KeyModifiers)
        ensures
            r == KeyModifiers::no_mods(),
    {
        KeyModifiers { ctrl: false, alt: false, shift: false, other: false }
    }
}

/// A key press, as it is bound and looked up.
#[derive(Debug, Clone, Copy, PartialEq, Eq, Structural)]
pub struct Key {
    pub code: KeyCode,
    pub mods: KeyModifiers,
}

/// A character key without its shift: the character carries the case.
pub open spec fn normal(k: Key) -> Key {
    match k.code {
        KeyCode::Char(_) => Key { mods: KeyModifiers { shift: false, ..k.mods }, ..k },
        _ => k,
    }
}

pub fn normalize(k: Key) -> (r: Key)
    ensures
        r == normal(k),
{
    match k.code {
        KeyCode::Char(_) => Key { code: k.code, mods: KeyModifiers { shift: false, ..k.mods } },
        _ => k,
    }
}

// ---- key names --------------------------------------------------------------------

pub open spec fn lower_char(c: char) -> char {
    if 'A' as u32 <= c as u32 <= 'Z' as u32 {
        ((c as u32 + 32) as u32) as char
    } else {
        c
    }
}

pub open spec fn upper_char(c: char) -> char {
    if 'a' as u32 <= c as u32 <= 'z' as u32 {
        ((c as u32 - 32) as u32) as char
    } else {
        c
    }
}

/// The text with its ASCII letters in lower case.
pub open spec fn lower(s: Seq<char>) -> Seq<char> {
    Seq::new(s.len(), |i: int| lower_char(s[i]))
}

fn letter(n: u32) -> (r: char)
    requires
        n < 26,
    ensures
        r == ('a' as u32 + n) as u32 as char,
{
    let abc: Vec<char> = chars_of("abcdefghijklmnopqrstuvwxyz");
    proof {
        reveal_strlit("abcdefghijklmnopqrstuvwxyz");
    }
    abc[n as usize]
}

fn big_letter(n: u32) -> (r: char)
    requires
        n < 26,
    ensures
        r == ('A' as u32 + n) as u32 as char,
{
    let abc: Vec<char> = chars_of("ABCDEFGHIJKLMNOPQRSTUVWXYZ");
    proof {
        reveal_strlit("ABCDEFGHIJKLMNOPQRSTUVWXYZ");
    }
    abc[n as usize]
}

fn to_lower(c: char) -> (r: char)
    ensures
        r == lower_char(c),
{
    let u: u32 = c as u32;
    if 65 <= u && u <= 90 {
        letter(u - 65)
    } else {
        c
    }
}

fn to_upper(c: char) -> (r: char)
    ensures
        r == upper_char(c),
{
    let u: u32 = c as u32;
    if 97 <= u && u <= 122 {
        big_letter(u - 97)
    } else {
        c
    }
}

fn lowered(v: &Vec<char>, from: usize) -> (r: Vec<char>)
    requires
        from <= v@.len(),
    ensures
        r@ == lower(v@.skip(from as int)),
{
    let mut out: Vec<char> = Vec::new();
    let mut i: usize = from;
    while i < v.len()
        invariant
            from <= i <= v@.len(),
            out@ == lower(v@.subrange(from as int, i as int)),
        decreases v@.len() - i,
    {
        out.push(to_lower(v[i]));
        assert(out@ =~= lower(v@.subrange(from as int, i + 1)));
        i += 1;
    }
    assert(v@.subrange(from as int, v@.len() as int) =~= v@.skip(from as int));
    out
}

/// The modifiers in front of a key name, and the rest.
pub open spec fn modifiers(s: Seq<char>, m: KeyModifiers) -> (KeyModifiers, Seq<char>)
    decreases s.len(),
{
    if has_prefix(lower(s), "ctrl+"@) && s.len() >= 5 {
        modifiers(s.skip(5), KeyModifiers { ctrl: true, ..m })
    } else if has_prefix(lower(s), "alt+"@) && s.len() >= 4 {
        modifiers(s.skip(4), KeyModifiers { alt: true, ..m })
    } else if has_prefix(lower(s), "shift+"@) && s.len() >= 6 {
        modifiers(s.skip(6), KeyModifiers { shift: true, ..m })
    } else {
        (m, s)
    }
}

/// The key of this name. Names ignore case; a single character is itself.
pub open spec fn named_key(s: Seq<char>) -> Option<KeyCode> {
    let n = lower(s);
    if n == "enter"@ {
        Some(KeyCode::Enter)
    } else if n == "esc"@ {
        Some(KeyCode::Esc)
    } else if n == "tab"@ {
        Some(KeyCode::Tab)
    } else if n == "space"@ {
        Some(KeyCode::Char(' '))
    } else if n == "up"@ {
        Some(KeyCode::Up)
    } else if n == "down"@ {
        Some(KeyCode::Down)
    } else if n == "left"@ {
        Some(KeyCode::Left)
    } else if n == "right"@ {
        Some(KeyCode::Right)
    } else if n == "pgup"@ {
        Some(KeyCode::PageUp)
    } else if n == "pgdn"@ {
        Some(KeyCode::PageDown)
    } else if n == "home"@ {
        Some(KeyCode::Home)
    } else if n == "end"@ {
        Some(KeyCode::End)
    } else if s.len() == 1 {
        Some(KeyCode::Char(s[0]))
    } else {
        None
    }
}

/// A key with its shift folded into its character.
pub open spec fn folded(code: KeyCode, m: KeyModifiers) -> Key {
    match code {
        KeyCode::Char(c) => if m.shift {
            Key { code: KeyCode::Char(upper_char(c)), mods: KeyModifiers { shift: false, ..m } }
        } else {
            Key { code, mods: m }
        },
        _ => Key { code, mods: m },
    }
}

/// The key that a text names: `[ctrl+][alt+][shift+]name`.
pub open spec fn key_of(spec_text: Seq<char>) -> Option<Key> {
    let (m, rest) = modifiers(trim(spec_text), KeyModifiers::no_mods());
    if rest.len() == 0 {
        None
    } else {
        match named_key(rest) {
            Some(code) => Some(folded(code, m)),
            None => None,
        }
    }
}

/// Why a text names no key.
#[derive(Debug)]
pub enum KeyError {
    /// Nothing but modifiers.
    Empty { text: String },
    Unknown { key: String, text: String },
}

pub open spec fn key_error(text: Seq<char>, e: KeyError) -> bool {
    let rest = modifiers(trim(text), KeyModifiers::no_mods()).1;
    match e {
        KeyError::Empty { text: t } => rest.len() == 0 && t@ == text,
        KeyError::Unknown { key, text: t } => rest.len() > 0 && named_key(rest) is None && key@ == lower(
            rest,
        ) && t@ == text,
    }
}

impl KeyError {
    pub fn message(&self) -> (r: String)
        ensures
            r@ == match *self {
                KeyError::Empty { text } => "empty key in '"@ + text@ + "'"@,
                KeyError::Unknown { key, text } => "unknown key '"@ + key@ + "' in '"@ + text@ + "'"@,
            },
    {
        match self {
            KeyError::Empty { text } => concat3("empty key in '", text.as_str(), "'"),
            KeyError::Unknown { key, text } => {
                let head: String = concat3("unknown key '", key.as_str(), "' in '");
                concat3(head.as_str(), text.as_str(), "'")
            },
        }
    }
}

fn named_key_of(v: &Vec<char>, from: usize) -> (r: Option<KeyCode>)
    requires
        from <= v@.len(),
    ensures
        r == named_key(v@.skip(from as int)),
{
    let low: Vec<char> = lowered(v, from);
    let name: String = string_of(&low, 0, low.len());
    assert(name@ =~= lower(v@.skip(from as int)));
    let n: &str = name.as_str();
    if same(n, "enter") {
        Some(KeyCode::Enter)
    } else if same(n, "esc") {
        Some(KeyCode::Esc)
    } else if same(n, "tab") {
        Some(KeyCode::Tab)
    } else if same(n, "space") {
        Some(KeyCode::Char(' '))
    } else if same(n, "up") {
        Some(KeyCode::Up)
    } else if same(n, "down") {
        Some(KeyCode::Down)
    } else if same(n, "left") {
        Some(KeyCode::Left)
    } else if same(n, "right") {
        Some(KeyCode::Right)
    } else if same(n, "pgup") {
        Some(KeyCode::PageUp)
    } else if same(n, "pgdn") {
        Some(KeyCode::PageDown)
    } else if same(n, "home") {
        Some(KeyCode::Home)
    } else if same(n, "end") {
        Some(KeyCode::End)
    } else if v.len() - from == 1 {
        Some(KeyCode::Char(v[from]))
    } else {
        None
    }
}

/// Parse `[ctrl+][alt+][shift+]<key>`.
pub fn parse_key(spec_text: &str) -> (r: Result<Key, KeyError>)
    ensures
        match r {
            Ok(k) => key_of(spec_text@) == Some(k),
            Err(e) => key_of(spec_text@) is None && key_error(spec_text@, e),
        },
{
    broadcast use group_deep;

    let t: String = trimmed(spec_text);
    let v: Vec<char> = chars_of(t.as_str());
    let ctrl: Vec<char> = chars_of("ctrl+");
    let alt: Vec<char> = chars_of("alt+");
    let shift: Vec<char> = chars_of("shift+");
    proof {
        reveal_strlit("ctrl+");
        reveal_strlit("alt+");
        reveal_strlit("shift+");
    }
    let mut m: KeyModifiers = KeyModifiers::none();
    let mut at: usize = 0;
    let mut going: bool = true;
    let n: usize = v.len();
    while going
        invariant
            at <= n == v@.len(),
            v@ == trim(spec_text@),
            ctrl@ == "ctrl+"@,
            alt@ == "alt+"@,
            shift@ == "shift+"@,
            ctrl@.len() == 5,
            alt@.len() == 4,
            shift@.len() == 6,
            modifiers(trim(spec_text@), KeyModifiers::no_mods()) == modifiers(v@.skip(at as int), m),
            !going ==> modifiers(v@.skip(at as int), m) == (m, v@.skip(at as int)),
        decreases v@.len() - at, if going { 1int } else { 0int },
    {
        let low: Vec<char> = lowered(&v, at);
        let ghost rest = v@.skip(at as int);
        if matches_at(&low, &ctrl, 0) {
            m = KeyModifiers { ctrl: true, ..m };
            assert(rest.skip(5) =~= v@.skip(at + 5));
            at += 5;
        } else if matches_at(&low, &alt, 0) {
            m = KeyModifiers { alt: true, ..m };
            assert(rest.skip(4) =~= v@.skip(at + 4));
            at += 4;
        } else if matches_at(&low, &shift, 0) {
            m = KeyModifiers { shift: true, ..m };
            assert(rest.skip(6) =~= v@.skip(at + 6));
            at += 6;
        } else {
            going = false;
        }
    }
    if at == v.len() {
        return Err(KeyError::Empty { text: spec_text.to_owned() });
    }
    match named_key_of(&v, at) {
        Some(code) => match code {
            KeyCode::Char(c) => if m.shift {
                Ok(
                    Key {
                        code: KeyCode::Char(to_upper(c)),
                        mods: KeyModifiers { shift: false, ..m },
                    },
                )
            } else {
                Ok(Key { code, mods: m })
            },
            _ => Ok(Key { code, mods: m }),
        },
        None => {
            let low: Vec<char> = lowered(&v, at);
            let key: String = string_of(&low, 0, low.len());
            assert(key@ =~= lower(v@.skip(at as int)));
            Err(KeyError::Unknown { key, text: spec_text.to_owned() })
        },
    }
}


// ---- actions -----------------------------------------------------------------------

#[derive(Debug, Clone, Copy, PartialEq, Eq, Hash, Structural)]
pub enum Action {
    Down,
    Up,
    Top,
    Bottom,
    Edit,
    ScrollDown,
    ScrollUp,
    HalfPageDown,
    HalfPageUp,
    DiffTop,
    DiffBottom,
    /// Worktree or branch.
    ToggleScope,
    /// Unstaged or staged side.
    ToggleCached,
    Stage,
    Unstage,
    Discard,
    Commit,
    /// The commit history.
    Log,
    /// Start or end a selection.
    Select,
    /// Write a note.
    Annotate,
    /// Send the pending notes to an agent.
    SendNotes,
    NotesView,
    /// Delete the selected note.
    Delete,
    /// Collapse or expand the thread at the cursor.
    ToggleThread,
    /// The full message of the commit at the cursor.
    CommitMessage,
    Refresh,
    Help,
    Quit,
}

/// An action, its name in the settings, and its keys.
pub struct Binding {
    pub action: Action,
    pub name: String,
    pub keys: Vec<String>,
}

#[verifier::ext_equal]
pub struct BindingV {
    pub action: Action,
    pub name: Seq<char>,
    pub keys: Seq<Seq<char>>,
}

impl DeepView for Binding {
    type V = BindingV;

    open spec fn deep_view(&self) -> BindingV {
        BindingV { action: self.action, name: self.name@, keys: deep(self.keys@) }
    }
}

pub open spec fn binding(action: Action, name: Seq<char>, keys: Seq<Seq<char>>) -> BindingV {
    BindingV { action, name, keys }
}

/// Every action with its name and its keys.
pub open spec fn default_keys() -> Seq<BindingV> {
    seq![
        binding(Action::Down, "down"@, seq!["j"@, "down"@]),
        binding(Action::Up, "up"@, seq!["k"@, "up"@]),
        binding(Action::Top, "top"@, seq!["g"@]),
        binding(Action::Bottom, "bottom"@, seq!["shift+g"@]),
        binding(Action::Edit, "edit"@, seq!["enter"@]),
        binding(Action::ScrollDown, "scroll_down"@, seq![]),
        binding(Action::ScrollUp, "scroll_up"@, seq![]),
        binding(Action::HalfPageDown, "half_page_down"@, seq!["ctrl+d"@]),
        binding(Action::HalfPageUp, "half_page_up"@, seq!["ctrl+u"@]),
        binding(Action::DiffTop, "diff_top"@, seq!["home"@]),
        binding(Action::DiffBottom, "diff_bottom"@, seq!["end"@]),
        binding(Action::ToggleScope, "toggle_scope"@, seq!["w"@]),
        binding(Action::ToggleCached, "toggle_cached"@, seq!["tab"@]),
        binding(Action::Stage, "stage"@, seq!["s"@]),
        binding(Action::Unstage, "unstage"@, seq!["u"@]),
        binding(Action::Discard, "discard"@, seq!["x"@]),
        binding(Action::Commit, "commit"@, seq!["c"@]),
        binding(Action::Log, "log"@, seq!["l"@]),
        binding(Action::Select, "select"@, seq!["v"@]),
        binding(Action::Annotate, "annotate"@, seq!["a"@]),
        binding(Action::SendNotes, "send_notes"@, seq!["p"@]),
        binding(Action::NotesView, "notes_view"@, seq!["n"@]),
        binding(Action::Delete, "delete"@, seq!["d"@]),
        binding(Action::ToggleThread, "toggle_thread"@, seq!["z"@]),
        binding(Action::CommitMessage, "commit_message"@, seq!["m"@]),
        binding(Action::Refresh, "refresh"@, seq!["r"@]),
        binding(Action::Help, "help"@, seq!["?"@]),
        binding(Action::Quit, "quit"@, seq!["q"@, "esc"@]),
    ]
}

fn bind(action: Action, name: &str, keys: &[&str]) -> (r: Binding)
    ensures
        r.deep_view() == binding(action, name@, deep(keys@)),
{
    Binding { action, name: name.to_owned(), keys: crate::git_repo::words(keys) }
}

fn bind_one(action: Action, name: &str, key: &str) -> (r: Binding)
    ensures
        r.deep_view() == binding(action, name@, seq![key@]),
{
    let r: Binding = bind(action, name, &[key]);
    assert(r.deep_view().keys =~= seq![key@]);
    r
}

fn bind_two(action: Action, name: &str, a: &str, b: &str) -> (r: Binding)
    ensures
        r.deep_view() == binding(action, name@, seq![a@, b@]),
{
    let r: Binding = bind(action, name, &[a, b]);
    assert(r.deep_view().keys =~= seq![a@, b@]);
    r
}

fn bind_none(action: Action, name: &str) -> (r: Binding)
    ensures
        r.deep_view() == binding(action, name@, seq![]),
{
    let r: Binding = Binding { action, name: name.to_owned(), keys: Vec::new() };
    assert(r.deep_view().keys =~= Seq::<Seq<char>>::empty());
    r
}

/// Every action with its name and its keys.
pub fn default_table() -> (r: Vec<Binding>)
    ensures
        deep(r@) == default_keys(),
{
    let r: Vec<Binding> = vec![
        bind_two(Action::Down, "down", "j", "down"),
        bind_two(Action::Up, "up", "k", "up"),
        bind_one(Action::Top, "top", "g"),
        bind_one(Action::Bottom, "bottom", "shift+g"),
        bind_one(Action::Edit, "edit", "enter"),
        bind_none(Action::ScrollDown, "scroll_down"),
        bind_none(Action::ScrollUp, "scroll_up"),
        bind_one(Action::HalfPageDown, "half_page_down", "ctrl+d"),
        bind_one(Action::HalfPageUp, "half_page_up", "ctrl+u"),
        bind_one(Action::DiffTop, "diff_top", "home"),
        bind_one(Action::DiffBottom, "diff_bottom", "end"),
        bind_one(Action::ToggleScope, "toggle_scope", "w"),
        bind_one(Action::ToggleCached, "toggle_cached", "tab"),
        bind_one(Action::Stage, "stage", "s"),
        bind_one(Action::Unstage, "unstage", "u"),
        bind_one(Action::Discard, "discard", "x"),
        bind_one(Action::Commit, "commit", "c"),
        bind_one(Action::Log, "log", "l"),
        bind_one(Action::Select, "select", "v"),
        bind_one(Action::Annotate, "annotate", "a"),
        bind_one(Action::SendNotes, "send_notes", "p"),
        bind_one(Action::NotesView, "notes_view", "n"),
        bind_one(Action::Delete, "delete", "d"),
        bind_one(Action::ToggleThread, "toggle_thread", "z"),
        bind_one(Action::CommitMessage, "commit_message", "m"),
        bind_one(Action::Refresh, "refresh", "r"),
        bind_one(Action::Help, "help", "?"),
        bind_two(Action::Quit, "quit", "q", "esc"),
    ];
    assert(deep(r@) =~= default_keys());
    r
}

// ---- the map ---------------------------------------------------------------------------

/// The override of an action, if the settings have one.
pub open spec fn override_of(overrides: Seq<(Seq<char>, Seq<char>)>, name: Seq<char>) -> Option<Seq<char>>
    decreases overrides.len(),
{
    if overrides.len() == 0 {
        None
    } else if overrides[0].0 == name {
        Some(overrides[0].1)
    } else {
        override_of(overrides.skip(1), name)
    }
}

/// The keys of an action: its override alone, or its own.
pub open spec fn keys_of(b: BindingV, overrides: Seq<(Seq<char>, Seq<char>)>) -> Seq<Seq<char>> {
    match override_of(overrides, b.name) {
        Some(k) => seq![k],
        None => b.keys,
    }
}

/// One key of one action.
#[verifier::ext_equal]
pub struct EntryKeyV {
    pub action: Action,
    pub name: Seq<char>,
    pub text: Seq<char>,
    /// The action's first key, which hints show.
    pub first: bool,
}

/// The keys of one action, in order.
pub open spec fn entries_of(b: BindingV, keys: Seq<Seq<char>>) -> Seq<EntryKeyV> {
    Seq::new(
        keys.len(),
        |i: int| EntryKeyV { action: b.action, name: b.name, text: keys[i], first: i == 0 },
    )
}

/// Every key of every action, in order.
pub open spec fn all_entries(table: Seq<BindingV>, overrides: Seq<(Seq<char>, Seq<char>)>) -> Seq<EntryKeyV>
    decreases table.len(),
{
    if table.len() == 0 {
        Seq::empty()
    } else {
        all_entries(table.drop_last(), overrides) + entries_of(
            table.last(),
            keys_of(table.last(), overrides),
        )
    }
}

/// The first entry, before `n`, that is bound to this key.
pub open spec fn owner(entries: Seq<EntryKeyV>, key: Key, n: int) -> int
    decreases n,
{
    if n <= 0 {
        -1
    } else {
        let k = owner(entries, key, n - 1);
        if k >= 0 {
            k
        } else if key_of(entries[n - 1].text) == Some(key) {
            n - 1
        } else {
            -1
        }
    }
}

/// Every entry names a key that no entry before it has.
pub open spec fn bindable(entries: Seq<EntryKeyV>, n: int) -> bool
    decreases n,
{
    n <= 0 || {
        &&& bindable(entries, n - 1)
        &&& key_of(entries[n - 1].text) is Some
        &&& owner(entries, key_of(entries[n - 1].text)->0, n - 1) < 0
    }
}

/// Whether a name is that of an action.
pub open spec fn is_action(table: Seq<BindingV>, name: Seq<char>) -> bool {
    exists|i: int| 0 <= i < table.len() && (#[trigger] table[i]).name == name
}

/// Whether every override names an action.
pub open spec fn all_known(table: Seq<BindingV>, overrides: Seq<(Seq<char>, Seq<char>)>) -> bool {
    forall|i: int| 0 <= i < overrides.len() ==> is_action(table, (#[trigger] overrides[i]).0)
}

/// Why the settings give no key map.
#[derive(Debug)]
pub enum KeymapError {
    UnknownAction { name: String },
    BadKey(KeyError),
    /// One key for two actions.
    Clash { key: String, first: String, second: String },
}

impl KeymapError {
    /// The error in words.
    pub open spec fn words(self) -> Seq<char> {
        match self {
            KeymapError::UnknownAction { name } => "unknown action in [keybindings]: "@ + name@,
            KeymapError::BadKey(e) => match e {
                KeyError::Empty { text } => "empty key in '"@ + text@ + "'"@,
                KeyError::Unknown { key, text } => "unknown key '"@ + key@ + "' in '"@ + text@ + "'"@,
            },
            KeymapError::Clash { key, first, second } => "key '"@ + key@ + "' bound to both '"@ + first@
                + "' and '"@ + second@ + "'"@,
        }
    }

    pub fn message(&self) -> (r: String)
        ensures
            r@ == self.words(),
    {
        match self {
            KeymapError::UnknownAction { name } => concat2(
                "unknown action in [keybindings]: ",
                name.as_str(),
            ),
            KeymapError::BadKey(e) => e.message(),
            KeymapError::Clash { key, first, second } => {
                let a: String = concat3("key '", key.as_str(), "' bound to both '");
                let b: String = concat3(a.as_str(), first.as_str(), "' and '");
                concat3(b.as_str(), second.as_str(), "'")
            },
        }
    }
}

/// Whether an entry is the first, in the order of the table, that cannot be bound.
pub open spec fn stuck_at(entries: Seq<EntryKeyV>, i: int) -> bool {
    0 <= i < entries.len() && bindable(entries, i) && !bindable(entries, i + 1)
}

/// Why overrides cannot be taken: a name that is no action's; else the first entry
/// that cannot be bound, because its text names no key or because an entry before
/// it has the key.
pub open spec fn refused(os: Seq<(Seq<char>, Seq<char>)>, e: KeymapError) -> bool {
    let table = default_keys();
    let entries = all_entries(table, os);
    match e {
        KeymapError::UnknownAction { name } => {
            &&& !all_known(table, os)
            &&& !is_action(table, name@)
            &&& override_of(os, name@) is Some
        },
        KeymapError::BadKey(e) => {
            &&& all_known(table, os)
            &&& !bindable(entries, entries.len() as int)
            &&& exists|i: int| #[trigger]
                stuck_at(entries, i) && key_of(entries[i].text) is None && key_error(entries[i].text, e)
        },
        KeymapError::Clash { key, first, second } => {
            &&& all_known(table, os)
            &&& !bindable(entries, entries.len() as int)
            &&& exists|i: int| #[trigger]
                stuck_at(entries, i) && key_of(entries[i].text) is Some && key@ == entries[i].text
                    && first@ == entries[owner(entries, key_of(entries[i].text)->0, i)].name && second@
                    == entries[i].name
        },
    }
}

/// A key of the map: the action it has, and the text it was given by.
#[derive(Debug)]
pub struct BoundKey {
    pub key: Key,
    pub action: Action,
    pub name: String,
    pub text: String,
    pub first: bool,
}

/// Keys and their actions.
#[derive(Debug)]
pub struct Keymap {
    pub bound: Vec<BoundKey>,
}

/// The entry that a bound key was made from.
pub open spec fn bound_entry(b: BoundKey) -> EntryKeyV {
    EntryKeyV { action: b.action, name: b.name@, text: b.text@, first: b.first }
}

pub open spec fn bound_entries(v: Seq<BoundKey>) -> Seq<EntryKeyV> {
    Seq::new(v.len(), |i: int| bound_entry(v[i]))
}

/// The first key text of an action.
pub open spec fn first_text(entries: Seq<EntryKeyV>, action: Action) -> Seq<char>
    decreases entries.len(),
{
    if entries.len() == 0 {
        Seq::empty()
    } else if entries[0].first && entries[0].action == action {
        entries[0].text
    } else {
        first_text(entries.skip(1), action)
    }
}

/// The models of the settings' overrides.
pub open spec fn override_models(v: Seq<(String, String)>) -> Seq<(Seq<char>, Seq<char>)> {
    Seq::new(v.len(), |i: int| (v[i].0@, v[i].1@))
}

proof fn lemma_owner(entries: Seq<EntryKeyV>, key: Key, n: int)
    requires
        n <= entries.len(),
    ensures
        -1 <= owner(entries, key, n),
        owner(entries, key, n) < n || (n <= 0 && owner(entries, key, n) == -1),
        owner(entries, key, n) >= 0 ==> key_of(entries[owner(entries, key, n)].text) == Some(key),
        owner(entries, key, n) < 0 ==> forall|i: int|
            0 <= i < n ==> key_of((#[trigger] entries[i]).text) != Some(key),
    decreases n,
{
    if n > 0 {
        lemma_owner(entries, key, n - 1);
    }
}

proof fn lemma_owner_is(entries: Seq<EntryKeyV>, key: Key, n: int, k: int)
    requires
        0 <= k < n <= entries.len(),
        key_of(entries[k].text) == Some(key),
        forall|i: int| 0 <= i < k ==> key_of((#[trigger] entries[i]).text) != Some(key),
    ensures
        owner(entries, key, n) == k,
    decreases n,
{
    lemma_owner(entries, key, n - 1);
    if n - 1 > k {
        lemma_owner_is(entries, key, n - 1, k);
    } else {
        if owner(entries, key, n - 1) >= 0 {
            assert(key_of(entries[owner(entries, key, n - 1)].text) == Some(key));
        }
    }
}

proof fn lemma_owner_same(a: Seq<EntryKeyV>, b: Seq<EntryKeyV>, key: Key, n: int)
    requires
        n <= a.len(),
        n <= b.len(),
        forall|i: int| 0 <= i < n ==> a[i] == b[i],
    ensures
        owner(a, key, n) == owner(b, key, n),
    decreases n,
{
    if n > 0 {
        lemma_owner_same(a, b, key, n - 1);
        assert(a[n - 1] == b[n - 1]);
    }
}

proof fn lemma_bindable_same(a: Seq<EntryKeyV>, b: Seq<EntryKeyV>, n: int)
    requires
        n <= a.len(),
        n <= b.len(),
        forall|i: int| 0 <= i < n ==> a[i] == b[i],
    ensures
        bindable(a, n) == bindable(b, n),
    decreases n,
{
    if n > 0 {
        lemma_bindable_same(a, b, n - 1);
        assert(a[n - 1] == b[n - 1]);
        if key_of(a[n - 1].text) is Some {
            lemma_owner_same(a, b, key_of(a[n - 1].text)->0, n - 1);
        }
    }
}

proof fn lemma_not_bindable(entries: Seq<EntryKeyV>, k: int, n: int)
    requires
        k <= n,
        !bindable(entries, k),
    ensures
        !bindable(entries, n),
    decreases n - k,
{
    if k < n {
        lemma_not_bindable(entries, k, n - 1);
    }
}

impl Keymap {
    pub open spec fn entries(self) -> Seq<EntryKeyV> {
        bound_entries(self.bound@)
    }

    /// Every key stands for the text it was given by, and no key stands twice.
    pub open spec fn wf(self) -> bool {
        &&& bindable(self.entries(), self.entries().len() as int)
        &&& forall|i: int|
            0 <= i < self.bound@.len() ==> key_of((#[trigger] self.bound@[i]).text@) == Some(
                self.bound@[i].key,
            )
    }

    /// The action of a key press, if it has one.
    pub open spec fn action_of(self, k: Key) -> Option<Action> {
        let i = owner(self.entries(), normal(k), self.entries().len() as int);
        if i >= 0 {
            Some(self.entries()[i].action)
        } else {
            None
        }
    }

    fn find(&self, key: Key) -> (r: Option<usize>)
        requires
            self.wf(),
        ensures
            match r {
                Some(i) => i < self.bound@.len() && i == owner(
                    self.entries(),
                    key,
                    self.entries().len() as int,
                ),
                None => owner(self.entries(), key, self.entries().len() as int) < 0,
            },
    {
        let ghost es = self.entries();
        let mut i: usize = 0;
        while i < self.bound.len()
            invariant
                i <= self.bound@.len(),
                self.wf(),
                es == self.entries(),
                forall|j: int| 0 <= j < i ==> key_of((#[trigger] es[j]).text) != Some(key),
            decreases self.bound@.len() - i,
        {
            assert(es[i as int] == bound_entry(self.bound@[i as int]));
            assert(key_of(self.bound@[i as int].text@) == Some(self.bound@[i as int].key));
            if self.bound[i].key == key {
                proof {
                    lemma_owner_is(es, key, es.len() as int, i as int);
                }
                return Some(i);
            }
            i += 1;
        }
        proof {
            lemma_owner(es, key, es.len() as int);
            let k = owner(es, key, es.len() as int);
            if k >= 0 {
                assert(key_of(es[k].text) != Some(key));
            }
        }
        None
    }

    /// The map of the actions' own keys with the settings' overrides. An
    /// override replaces all keys of its action. A name that is no action's, a
    /// text that names no key, and a key for two actions are errors.
    pub fn build(overrides: &Vec<(String, String)>) -> (r: Result<Keymap, KeymapError>)
        ensures
            match r {
                Ok(m) => {
                    let os = override_models(overrides@);
                    let entries = all_entries(default_keys(), os);
                    &&& all_known(default_keys(), os)
                    &&& bindable(entries, entries.len() as int)
                    &&& m.wf()
                    &&& m.entries() == entries
                },
                Err(e) => refused(override_models(overrides@), e),
            },
    {
        broadcast use group_deep;

        let table: Vec<Binding> = default_table();
        let ghost tv = default_keys();
        let ghost os = override_models(overrides@);
        let ghost all = all_entries(tv, os);
        let mut o: usize = 0;
        while o < overrides.len()
            invariant
                o <= overrides@.len(),
                tv == default_keys(),
                deep(table@) == tv,
                os == override_models(overrides@),
                forall|i: int| 0 <= i < o ==> is_action(tv, (#[trigger] os[i]).0),
            decreases overrides@.len() - o,
        {
            assert(os[o as int] == (overrides@[o as int].0@, overrides@[o as int].1@));
            let name: &String = &overrides[o].0;
            let mut found: bool = false;
            let mut t: usize = 0;
            while t < table.len()
                invariant
                    t <= table@.len(),
                    deep(table@) == tv,
                    found == exists|i: int| 0 <= i < t && (#[trigger] tv[i]).name == name@,
                decreases table@.len() - t,
            {
                assert(tv[t as int] == table@[t as int].deep_view());
                if same(table[t].name.as_str(), name.as_str()) {
                    found = true;
                }
                t += 1;
            }
            if !found {
                proof {
                    assert(!is_action(tv, os[o as int].0));
                    lemma_override_some(os, name@, o as int);
                }
                return Err(KeymapError::UnknownAction { name: name.clone() });
            }
            o += 1;
        }

        let mut map: Keymap = Keymap { bound: Vec::new() };
        assert(map.entries() =~= Seq::<EntryKeyV>::empty());
        let mut t: usize = 0;
        while t < table.len()
            invariant
                t <= table@.len(),
                tv == default_keys(),
                deep(table@) == tv,
                os == override_models(overrides@),
                all == all_entries(tv, os),
                all_known(tv, os),
                map.wf(),
                map.entries() == all_entries(tv.take(t as int), os),
            decreases table@.len() - t,
        {
            assert(tv.take(t + 1).drop_last() =~= tv.take(t as int));
            assert(tv[t as int] == table@[t as int].deep_view());
            let b: &Binding = &table[t];
            let keys: Vec<String> = match find_override(overrides, b.name.as_str()) {
                Some(k) => {
                    let mut v: Vec<String> = Vec::new();
                    v.push(k);
                    assert(deep(v@) =~= seq![k@]);
                    v
                },
                None => copy_strings(&b.keys),
            };
            let ghost ks = keys_of(tv[t as int], os);
            let ghost es = entries_of(tv[t as int], ks);
            let ghost done = all_entries(tv.take(t as int), os);
            assert(deep(keys@) == ks);
            proof {
                lemma_entries_prefix(tv, os, t + 1);
            }
            let mut i: usize = 0;
            assert(done + es.take(0) =~= done);
            while i < keys.len()
                invariant
                    i <= keys@.len(),
                    t < table@.len(),
                    deep(keys@) == ks,
                    es == entries_of(tv[t as int], ks),
                    tv == default_keys(),
                    deep(table@) == tv,
                    *b == table@[t as int],
                    os == override_models(overrides@),
                    all == all_entries(tv, os),
                    all_known(tv, os),
                    map.wf(),
                    map.entries() == done + es.take(i as int),
                    all_entries(tv.take(t + 1), os) == done + es,
                    all_entries(tv.take(t + 1), os).len() <= all.len(),
                    forall|j: int|
                        0 <= j < (done + es).len() ==> (done + es)[j] == #[trigger] all[j],
                decreases keys@.len() - i,
            {
                let ghost cur = map.entries();
                let ghost n = cur.len() as int;
                assert(ks[i as int] == keys@[i as int]@);
                assert(tv[t as int] == b.deep_view());
                assert(es[i as int] == EntryKeyV {
                    action: b.action,
                    name: b.name@,
                    text: keys@[i as int]@,
                    first: i == 0,
                });
                assert(all[n] == (done + es)[n]);
                assert(all[n] == es[i as int]);
                assert forall|j: int| 0 <= j < n implies cur[j] == all[j] by {
                    assert((done + es)[j] == all[j]);
                }
                match parse_key(keys[i].as_str()) {
                    Err(e) => {
                        proof {
                            assert(key_error(all[n].text, e));
                            lemma_bindable_same(cur, all, n);
                            assert(stuck_at(all, n));
                            lemma_not_bindable(all, n + 1, all.len() as int);
                        }
                        return Err(KeymapError::BadKey(e));
                    },
                    Ok(key) => {
                        match map.find(key) {
                            Some(k) => {
                                proof {
                                    lemma_owner(cur, key, n);
                                    lemma_owner_same(cur, all, key, n);
                                    lemma_bindable_same(cur, all, n);
                                    assert(stuck_at(all, n));
                                    lemma_not_bindable(all, n + 1, all.len() as int);
                                    assert(cur[k as int] == bound_entry(map.bound@[k as int]));
                                    assert(all[k as int] == cur[k as int]);
                                    assert(all[k as int].name == map.bound@[k as int].name@);
                                    assert(all[n].text == keys@[i as int]@);
                                }
                                return Err(
                                    KeymapError::Clash {
                                        key: keys[i].clone(),
                                        first: map.bound[k].name.clone(),
                                        second: b.name.clone(),
                                    },
                                );
                            },
                            None => {},
                        }
                        let bk: BoundKey = BoundKey {
                            key,
                            action: b.action,
                            name: b.name.clone(),
                            text: keys[i].clone(),
                            first: i == 0,
                        };
                        let ghost be = bound_entry(bk);
                        let ghost bound0 = map.bound@;
                        map.bound.push(bk);
                        proof {
                            assert(map.entries() =~= cur.push(be));
                            lemma_bindable_same(cur, map.entries(), n);
                            lemma_owner_same(cur, map.entries(), key, n);
                            assert(map.entries()[n] == be);
                            assert(be == es[i as int]);
                            assert(done + es.take(i + 1) =~= cur.push(be));
                            assert forall|j: int| 0 <= j < map.bound@.len() implies key_of(
                                (#[trigger] map.bound@[j]).text@,
                            ) == Some(map.bound@[j].key) by {
                                if j < bound0.len() {
                                    assert(map.bound@[j] == bound0[j]);
                                }
                            }
                        }
                    },
                }
                i += 1;
            }
            assert(es.take(es.len() as int) =~= es);
            t += 1;
        }
        Ok(map)
    }

    /// The action of a key press.
    pub fn action(&self, ev: Key) -> (r: Option<Action>)
        requires
            self.wf(),
        ensures
            r == self.action_of(ev),
    {
        match self.find(normalize(ev)) {
            Some(i) => {
                assert(self.entries()[i as int] == bound_entry(self.bound@[i as int]));
                Some(self.bound[i].action)
            },
            None => None,
        }
    }

    /// The first key of an action, for a hint; empty where it has none.
    pub fn hint(&self, action: Action) -> (r: String)
        ensures
            r@ == first_text(self.entries(), action),
    {
        broadcast use group_deep;

        let ghost es = self.entries();
        let mut i: usize = 0;
        while i < self.bound.len()
            invariant
                i <= self.bound@.len(),
                es == self.entries(),
                first_text(es, action) == first_text(es.skip(i as int), action),
            decreases self.bound@.len() - i,
        {
            assert(es.skip(i as int)[0] == bound_entry(self.bound@[i as int]));
            assert(es.skip(i as int).skip(1) =~= es.skip(i + 1));
            if self.bound[i].first && self.bound[i].action == action {
                return self.bound[i].text.clone();
            }
            i += 1;
        }
        String::new()
    }
}

proof fn lemma_override_some(os: Seq<(Seq<char>, Seq<char>)>, name: Seq<char>, i: int)
    requires
        0 <= i < os.len(),
        os[i].0 == name,
    ensures
        override_of(os, name) is Some,
    decreases os.len(),
{
    if os[0].0 != name {
        assert(os.skip(1)[i - 1] == os[i]);
        lemma_override_some(os.skip(1), name, i - 1);
    }
}

/// The entries of a longer table start with those of a shorter one.
proof fn lemma_entries_prefix(table: Seq<BindingV>, os: Seq<(Seq<char>, Seq<char>)>, t: int)
    requires
        0 <= t <= table.len(),
    ensures
        all_entries(table.take(t), os).len() <= all_entries(table, os).len(),
        forall|j: int|
            0 <= j < all_entries(table.take(t), os).len() ==> all_entries(table.take(t), os)[j]
                == #[trigger] all_entries(table, os)[j],
    decreases table.len() - t,
{
    if t < table.len() {
        lemma_entries_prefix(table, os, t + 1);
        assert(table.take(t + 1).drop_last() =~= table.take(t));
        let a = all_entries(table.take(t), os);
        let b = all_entries(table.take(t + 1), os);
        assert forall|j: int| 0 <= j < a.len() implies a[j] == #[trigger] all_entries(table, os)[j] by {
            assert(a[j] == b[j]);
        }
    } else {
        assert(table.take(t) =~= table);
    }
}

pub(crate) fn copy_strings(v: &Vec<String>) -> (r: Vec<String>)
    ensures
        deep(r@) == deep(v@),
{
    broadcast use group_deep;

    let mut out: Vec<String> = Vec::new();
    let mut i: usize = 0;
    while i < v.len()
        invariant
            i <= v@.len(),
            deep(out@) == deep(v@).take(i as int),
        decreases v@.len() - i,
    {
        out.push(v[i].clone());
        assert(deep(v@).take(i + 1) =~= deep(v@).take(i as int).push(v@[i as int]@));
        i += 1;
    }
    out
}

fn find_override(overrides: &Vec<(String, String)>, name: &str) -> (r: Option<String>)
    ensures
        r.deep_view() == override_of(override_models(overrides@), name@),
{
    broadcast use group_deep;

    let ghost os = override_models(overrides@);
    let mut i: usize = 0;
    while i < overrides.len()
        invariant
            i <= overrides@.len(),
            os == override_models(overrides@),
            override_of(os, name@) == override_of(os.skip(i as int), name@),
        decreases overrides@.len() - i,
    {
        assert(os.skip(i as int)[0] == (overrides@[i as int].0@, overrides@[i as int].1@));
        assert(os.skip(i as int).skip(1) =~= os.skip(i + 1));
        if same(overrides[i].0.as_str(), name) {
            return Some(overrides[i].1.clone());
        }
        i += 1;
    }
    None
}

} // verus!
