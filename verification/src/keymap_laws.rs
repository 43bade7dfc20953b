//! What the key map promises.

use vstd::prelude::*;

use crate::keymap::{
    all_entries, bindable, binding, default_keys, entries_of, folded, key_of, keys_of, lower,
    lower_char, modifiers, named_key, override_of, owner, Action, BindingV, EntryKeyV, Key, KeyCode,
    KeyModifiers, Keymap,
};
use crate::text::{has_prefix, is_white, trim};

verus! {

proof fn lemma_trim_tight(s: Seq<char>)
    requires
        s.len() > 0,
        !is_white(s[0]),
        !is_white(s.last()),
    ensures
        trim(s) == s,
{
}

proof fn lemma_no_modifier(s: Seq<char>, m: KeyModifiers)
    requires
        !s.contains('+'),
    ensures
        modifiers(s, m) == (m, s),
{
    reveal_strlit("ctrl+");
    reveal_strlit("alt+");
    reveal_strlit("shift+");
    let l = lower(s);
    assert forall|i: int| 0 <= i < l.len() implies l[i] != '+' by {
        assert(s[i] != '+');
    }
    if has_prefix(l, "ctrl+"@) {
        assert(l.subrange(0, 5)[4] == "ctrl+"@[4]);
    }
    if has_prefix(l, "alt+"@) {
        assert(l.subrange(0, 4)[3] == "alt+"@[3]);
    }
    if has_prefix(l, "shift+"@) {
        assert(l.subrange(0, 6)[5] == "shift+"@[5]);
    }
}

proof fn lemma_name_lengths()
    ensures
        "enter"@.len() == 5,
        "esc"@.len() == 3,
        "tab"@.len() == 3,
        "space"@.len() == 5,
        "up"@.len() == 2,
        "down"@.len() == 4,
        "left"@.len() == 4,
        "right"@.len() == 5,
        "pgup"@.len() == 4,
        "pgdn"@.len() == 4,
        "home"@.len() == 4,
        "end"@.len() == 3,
{
    reveal_strlit("enter");
    reveal_strlit("esc");
    reveal_strlit("tab");
    reveal_strlit("space");
    reveal_strlit("up");
    reveal_strlit("down");
    reveal_strlit("left");
    reveal_strlit("right");
    reveal_strlit("pgup");
    reveal_strlit("pgdn");
    reveal_strlit("home");
    reveal_strlit("end");
}

pub open spec fn plain(code: KeyCode) -> Key {
    Key { code, mods: KeyModifiers::no_mods() }
}

/// A single visible character names itself.
pub proof fn law_a_character_names_itself(s: Seq<char>)
    requires
        s.len() == 1,
        !is_white(s[0]),
        s[0] != '+',
    ensures
        key_of(s) == Some(plain(KeyCode::Char(s[0]))),
{
    lemma_trim_tight(s);
    lemma_no_modifier(s, KeyModifiers::no_mods());
    lemma_name_lengths();
    assert(lower(s).len() == 1);
}

/// A character with a modifier in front.
proof fn lemma_modified(s: Seq<char>, p: Seq<char>, c: char)
    requires
        p == "ctrl+"@ || p == "shift+"@,
        s == p + seq![c],
        !is_white(c),
        c != '+',
    ensures
        key_of(s) == Some(
            folded(
                KeyCode::Char(c),
                if p == "ctrl+"@ {
                    KeyModifiers { ctrl: true, ..KeyModifiers::no_mods() }
                } else {
                    KeyModifiers { shift: true, ..KeyModifiers::no_mods() }
                },
            ),
        ),
{
    reveal_strlit("ctrl+");
    reveal_strlit("alt+");
    reveal_strlit("shift+");
    lemma_name_lengths();
    let n = p.len() as int;
    assert(s[0] == p[0]);
    assert(s.last() == c);
    lemma_trim_tight(s);
    let l = lower(s);
    assert(l.subrange(0, n) =~= p) by {
        assert forall|i: int| 0 <= i < n implies l.subrange(0, n)[i] == p[i] by {
            assert(l[i] == lower_char(p[i]));
        }
    }
    assert(s.skip(n) =~= seq![c]);
    if p == "shift+"@ {
        assert(l[0] == 's');
        if has_prefix(l, "ctrl+"@) {
            assert(l.subrange(0, 5)[0] == "ctrl+"@[0]);
        }
        if has_prefix(l, "alt+"@) {
            assert(l.subrange(0, 4)[0] == "alt+"@[0]);
        }
    }
    let m = if p == "ctrl+"@ {
        KeyModifiers { ctrl: true, ..KeyModifiers::no_mods() }
    } else {
        KeyModifiers { shift: true, ..KeyModifiers::no_mods() }
    };
    assert(!seq![c].contains('+'));
    lemma_no_modifier(seq![c], m);
    assert(modifiers(s, KeyModifiers::no_mods()) == modifiers(seq![c], m));
    assert(lower(seq![c]).len() == 1);
}

proof fn lemma_named(s: Seq<char>)
    requires
        s.len() > 0,
        lower(s) == s,
        !s.contains('+'),
        !is_white(s[0]),
        !is_white(s.last()),
        named_key(s) is Some,
    ensures
        key_of(s) == Some(folded(named_key(s)->0, KeyModifiers::no_mods())),
{
    lemma_trim_tight(s);
    lemma_no_modifier(s, KeyModifiers::no_mods());
}

/// The place of a key in the table of own keys.
spec fn rank(k: Key) -> int {
    if k == plain(KeyCode::Char('j')) { 0 }
    else if k == plain(KeyCode::Down) { 1 }
    else if k == plain(KeyCode::Char('k')) { 2 }
    else if k == plain(KeyCode::Up) { 3 }
    else if k == plain(KeyCode::Char('g')) { 4 }
    else if k == plain(KeyCode::Char('G')) { 5 }
    else if k == plain(KeyCode::Enter) { 6 }
    else if k == (Key { code: KeyCode::Char('d'), mods: KeyModifiers { ctrl: true, ..KeyModifiers::no_mods() } }) { 7 }
    else if k == (Key { code: KeyCode::Char('u'), mods: KeyModifiers { ctrl: true, ..KeyModifiers::no_mods() } }) { 8 }
    else if k == plain(KeyCode::Home) { 9 }
    else if k == plain(KeyCode::End) { 10 }
    else if k == plain(KeyCode::Char('w')) { 11 }
    else if k == plain(KeyCode::Tab) { 12 }
    else if k == plain(KeyCode::Char('s')) { 13 }
    else if k == plain(KeyCode::Char('u')) { 14 }
    else if k == plain(KeyCode::Char('x')) { 15 }
    else if k == plain(KeyCode::Char('c')) { 16 }
    else if k == plain(KeyCode::Char('l')) { 17 }
    else if k == plain(KeyCode::Char('v')) { 18 }
    else if k == plain(KeyCode::Char('a')) { 19 }
    else if k == plain(KeyCode::Char('p')) { 20 }
    else if k == plain(KeyCode::Char('n')) { 21 }
    else if k == plain(KeyCode::Char('d')) { 22 }
    else if k == plain(KeyCode::Char('z')) { 23 }
    else if k == plain(KeyCode::Char('m')) { 24 }
    else if k == plain(KeyCode::Char('r')) { 25 }
    else if k == plain(KeyCode::Char('?')) { 26 }
    else if k == plain(KeyCode::Char('q')) { 27 }
    else if k == plain(KeyCode::Esc) { 28 }
    else { -1 }
}

spec fn no_overrides() -> Seq<(Seq<char>, Seq<char>)> {
    Seq::empty()
}

/// The rows bind, and their keys come before place `r`.
#[verifier::opaque]
spec fn binds_below(t: Seq<BindingV>, r: int) -> bool {
    let es = all_entries(t, no_overrides());
    &&& bindable(es, es.len() as int)
    &&& forall|i: int|
        0 <= i < es.len() ==> key_of((#[trigger] es[i]).text) is Some && 0 <= rank(
            key_of(es[i].text)->0,
        ) < r
}

proof fn lemma_bindable_prefix(a: Seq<EntryKeyV>, b: Seq<EntryKeyV>, n: int)
    requires
        0 <= n <= a.len(),
        bindable(a, n),
    ensures
        bindable(a + b, n),
    decreases n,
{
    if n > 0 {
        lemma_bindable_prefix(a, b, n - 1);
        assert((a + b)[n - 1] == a[n - 1]);
        lemma_owner_prefix(a, b, key_of(a[n - 1].text)->0, n - 1);
    }
}

proof fn lemma_owner_prefix(a: Seq<EntryKeyV>, b: Seq<EntryKeyV>, key: Key, n: int)
    requires
        n <= a.len(),
    ensures
        owner(a + b, key, n) == owner(a, key, n),
    decreases n,
{
    if n > 0 {
        lemma_owner_prefix(a, b, key, n - 1);
        assert((a + b)[n - 1] == a[n - 1]);
    }
}

proof fn lemma_unowned(es: Seq<EntryKeyV>, key: Key, n: int)
    requires
        n <= es.len(),
        forall|i: int| 0 <= i < n ==> key_of((#[trigger] es[i]).text) != Some(key),
    ensures
        owner(es, key, n) < 0,
    decreases n,
{
    if n > 0 {
        lemma_unowned(es, key, n - 1);
        assert(key_of(es[n - 1].text) != Some(key));
    }
}

/// One more row, whose keys take the next places.
proof fn lemma_row(t: Seq<BindingV>, b: BindingV, r: int)
    requires
        binds_below(t, r),
        r >= 0,
        forall|i: int|
            0 <= i < b.keys.len() ==> key_of(#[trigger] b.keys[i]) is Some && rank(key_of(b.keys[i])->0) == r
                + i,
    ensures
        binds_below(t.push(b), r + b.keys.len()),
{
    reveal(binds_below);
    let os = no_overrides();
    assert(t.push(b).drop_last() =~= t);
    let es = all_entries(t, os);
    let row = entries_of(b, b.keys);
    assert(keys_of(b, os) == b.keys);
    let all = es + row;
    assert(all_entries(t.push(b), os) == all);
    assert forall|i: int| 0 <= i < all.len() implies key_of((#[trigger] all[i]).text) is Some && 0 <= rank(
        key_of(all[i].text)->0,
    ) < r + b.keys.len() by {
        if i < es.len() {
            assert(all[i] == es[i]);
        } else {
            assert(all[i].text == b.keys[i - es.len()]);
        }
    }
    lemma_bindable_prefix(es, row, es.len() as int);
    lemma_row_tail(es, row, b, r, b.keys.len() as int);
}

proof fn lemma_row_tail(es: Seq<EntryKeyV>, row: Seq<EntryKeyV>, b: BindingV, r: int, n: int)
    requires
        0 <= n <= row.len(),
        row == entries_of(b, b.keys),
        bindable(es + row, es.len() as int),
        forall|i: int|
            0 <= i < es.len() ==> key_of((#[trigger] es[i]).text) is Some && 0 <= rank(
                key_of(es[i].text)->0,
            ) < r,
        forall|i: int|
            0 <= i < b.keys.len() ==> key_of(#[trigger] b.keys[i]) is Some && rank(key_of(b.keys[i])->0) == r
                + i,
    ensures
        bindable(es + row, es.len() + n),
    decreases n,
{
    if n > 0 {
        lemma_row_tail(es, row, b, r, n - 1);
        let all = es + row;
        let at = es.len() + n - 1;
        assert(all[at].text == b.keys[n - 1]);
        let key = key_of(b.keys[n - 1])->0;
        assert(rank(key) == r + n - 1);
        assert forall|i: int| 0 <= i < at implies key_of((#[trigger] all[i]).text) != Some(key) by {
            if i < es.len() {
                assert(all[i] == es[i]);
            } else {
                assert(all[i].text == b.keys[i - es.len()]);
                assert(rank(key_of(b.keys[i - es.len()])->0) == r + (i - es.len()));
            }
        }
        lemma_unowned(all, key, at);
    }
}

proof fn lemma_char_row(t: Seq<BindingV>, action: Action, name: Seq<char>, key: Seq<char>, r: int)
    requires
        binds_below(t, r),
        r >= 0,
        key.len() == 1,
        !is_white(key[0]),
        key[0] != '+',
        rank(plain(KeyCode::Char(key[0]))) == r,
    ensures
        binds_below(t.push(binding(action, name, seq![key])), r + 1),
{
    law_a_character_names_itself(key);
    lemma_row(t, binding(action, name, seq![key]), r);
}

proof fn lemma_named_row(t: Seq<BindingV>, action: Action, name: Seq<char>, key: Seq<char>, r: int)
    requires
        binds_below(t, r),
        r >= 0,
        key_of(key) is Some,
        rank(key_of(key)->0) == r,
    ensures
        binds_below(t.push(binding(action, name, seq![key])), r + 1),
{
    lemma_row(t, binding(action, name, seq![key]), r);
}

proof fn lemma_own_names()
    ensures
        key_of("down"@) == Some(plain(KeyCode::Down)),
        key_of("up"@) == Some(plain(KeyCode::Up)),
        key_of("enter"@) == Some(plain(KeyCode::Enter)),
        key_of("home"@) == Some(plain(KeyCode::Home)),
        key_of("end"@) == Some(plain(KeyCode::End)),
        key_of("tab"@) == Some(plain(KeyCode::Tab)),
        key_of("esc"@) == Some(plain(KeyCode::Esc)),
{
    lemma_name_lengths();
    reveal_strlit("enter");
    reveal_strlit("esc");
    reveal_strlit("tab");
    reveal_strlit("space");
    reveal_strlit("up");
    reveal_strlit("down");
    reveal_strlit("left");
    reveal_strlit("right");
    reveal_strlit("pgup");
    reveal_strlit("pgdn");
    reveal_strlit("home");
    reveal_strlit("end");
    assert(lower("down"@) =~= "down"@);
    assert(lower("up"@) =~= "up"@);
    assert(lower("enter"@) =~= "enter"@);
    assert(lower("home"@) =~= "home"@);
    assert(lower("end"@) =~= "end"@);
    assert(lower("tab"@) =~= "tab"@);
    assert(lower("esc"@) =~= "esc"@);
    assert("down"@[0] == 'd' && "left"@[0] == 'l' && "pgup"@[0] == 'p' && "pgdn"@[0] == 'p' && "home"@[0]
        == 'h');
    assert("enter"@[0] == 'e' && "space"@[0] == 's' && "right"@[0] == 'r');
    assert("esc"@[1] == 's' && "tab"@[0] == 't' && "end"@[1] == 'n');
    lemma_named("down"@);
    lemma_named("up"@);
    lemma_named("enter"@);
    lemma_named("home"@);
    lemma_named("end"@);
    lemma_named("tab"@);
    lemma_named("esc"@);
}

proof fn lemma_own_modified()
    ensures
        key_of("shift+g"@) == Some(plain(KeyCode::Char('G'))),
        key_of("ctrl+d"@) == Some(
            Key {
                code: KeyCode::Char('d'),
                mods: KeyModifiers { ctrl: true, ..KeyModifiers::no_mods() },
            },
        ),
        key_of("ctrl+u"@) == Some(
            Key {
                code: KeyCode::Char('u'),
                mods: KeyModifiers { ctrl: true, ..KeyModifiers::no_mods() },
            },
        ),
{
    reveal_strlit("ctrl+");
    reveal_strlit("shift+");
    reveal_strlit("shift+g");
    reveal_strlit("ctrl+d");
    reveal_strlit("ctrl+u");
    assert("shift+g"@ =~= "shift+"@ + seq!['g']);
    assert("ctrl+d"@ =~= "ctrl+"@ + seq!['d']);
    assert("ctrl+u"@ =~= "ctrl+"@ + seq!['u']);
    assert("ctrl+"@.len() != "shift+"@.len());
    lemma_modified("shift+g"@, "shift+"@, 'g');
    lemma_modified("ctrl+d"@, "ctrl+"@, 'd');
    lemma_modified("ctrl+u"@, "ctrl+"@, 'u');
}

/// Without overrides there is always a map: every own key is a key, and no two
/// actions share one.
#[verifier::rlimit(50)]
pub proof fn law_own_keys_always_bind()
    ensures
        bindable(
            all_entries(default_keys(), Seq::empty()),
            all_entries(default_keys(), Seq::empty()).len() as int,
        ),
{
    lemma_own_names();
    lemma_own_modified();
    reveal_strlit("j");
    reveal_strlit("k");
    reveal_strlit("g");
    reveal_strlit("w");
    reveal_strlit("s");
    reveal_strlit("u");
    reveal_strlit("x");
    reveal_strlit("c");
    reveal_strlit("l");
    reveal_strlit("v");
    reveal_strlit("a");
    reveal_strlit("p");
    reveal_strlit("n");
    reveal_strlit("d");
    reveal_strlit("z");
    reveal_strlit("m");
    reveal_strlit("r");
    reveal_strlit("?");
    reveal_strlit("q");
    law_a_character_names_itself("j"@);
    law_a_character_names_itself("k"@);
    law_a_character_names_itself("q"@);
    let t0 = Seq::<BindingV>::empty();
    assert(binds_below(t0, 0)) by {
        reveal(binds_below);
        assert(all_entries(t0, no_overrides()) =~= Seq::<EntryKeyV>::empty());
    }
    let b1 = binding(Action::Down, "down"@, seq!["j"@, "down"@]);
    lemma_row(t0, b1, 0);
    let t1 = t0.push(b1);
    let b2 = binding(Action::Up, "up"@, seq!["k"@, "up"@]);
    lemma_row(t1, b2, 2);
    let t2 = t1.push(b2);
    lemma_char_row(t2, Action::Top, "top"@, "g"@, 4);
    let t3 = t2.push(binding(Action::Top, "top"@, seq!["g"@]));
    lemma_named_row(t3, Action::Bottom, "bottom"@, "shift+g"@, 5);
    let t4 = t3.push(binding(Action::Bottom, "bottom"@, seq!["shift+g"@]));
    lemma_named_row(t4, Action::Edit, "edit"@, "enter"@, 6);
    let t5 = t4.push(binding(Action::Edit, "edit"@, seq!["enter"@]));
    lemma_row(t5, binding(Action::ScrollDown, "scroll_down"@, seq![]), 7);
    let t6 = t5.push(binding(Action::ScrollDown, "scroll_down"@, seq![]));
    lemma_row(t6, binding(Action::ScrollUp, "scroll_up"@, seq![]), 7);
    let t7 = t6.push(binding(Action::ScrollUp, "scroll_up"@, seq![]));
    lemma_named_row(t7, Action::HalfPageDown, "half_page_down"@, "ctrl+d"@, 7);
    let t8 = t7.push(binding(Action::HalfPageDown, "half_page_down"@, seq!["ctrl+d"@]));
    lemma_named_row(t8, Action::HalfPageUp, "half_page_up"@, "ctrl+u"@, 8);
    let t9 = t8.push(binding(Action::HalfPageUp, "half_page_up"@, seq!["ctrl+u"@]));
    lemma_named_row(t9, Action::DiffTop, "diff_top"@, "home"@, 9);
    let t10 = t9.push(binding(Action::DiffTop, "diff_top"@, seq!["home"@]));
    lemma_named_row(t10, Action::DiffBottom, "diff_bottom"@, "end"@, 10);
    let t11 = t10.push(binding(Action::DiffBottom, "diff_bottom"@, seq!["end"@]));
    lemma_char_row(t11, Action::ToggleScope, "toggle_scope"@, "w"@, 11);
    let t12 = t11.push(binding(Action::ToggleScope, "toggle_scope"@, seq!["w"@]));
    lemma_named_row(t12, Action::ToggleCached, "toggle_cached"@, "tab"@, 12);
    let t13 = t12.push(binding(Action::ToggleCached, "toggle_cached"@, seq!["tab"@]));
    lemma_char_row(t13, Action::Stage, "stage"@, "s"@, 13);
    let t14 = t13.push(binding(Action::Stage, "stage"@, seq!["s"@]));
    lemma_char_row(t14, Action::Unstage, "unstage"@, "u"@, 14);
    let t15 = t14.push(binding(Action::Unstage, "unstage"@, seq!["u"@]));
    lemma_char_row(t15, Action::Discard, "discard"@, "x"@, 15);
    let t16 = t15.push(binding(Action::Discard, "discard"@, seq!["x"@]));
    lemma_char_row(t16, Action::Commit, "commit"@, "c"@, 16);
    let t17 = t16.push(binding(Action::Commit, "commit"@, seq!["c"@]));
    lemma_char_row(t17, Action::Log, "log"@, "l"@, 17);
    let t18 = t17.push(binding(Action::Log, "log"@, seq!["l"@]));
    lemma_char_row(t18, Action::Select, "select"@, "v"@, 18);
    let t19 = t18.push(binding(Action::Select, "select"@, seq!["v"@]));
    lemma_char_row(t19, Action::Annotate, "annotate"@, "a"@, 19);
    let t20 = t19.push(binding(Action::Annotate, "annotate"@, seq!["a"@]));
    lemma_char_row(t20, Action::SendNotes, "send_notes"@, "p"@, 20);
    let t21 = t20.push(binding(Action::SendNotes, "send_notes"@, seq!["p"@]));
    lemma_char_row(t21, Action::NotesView, "notes_view"@, "n"@, 21);
    let t22 = t21.push(binding(Action::NotesView, "notes_view"@, seq!["n"@]));
    lemma_char_row(t22, Action::Delete, "delete"@, "d"@, 22);
    let t23 = t22.push(binding(Action::Delete, "delete"@, seq!["d"@]));
    lemma_char_row(t23, Action::ToggleThread, "toggle_thread"@, "z"@, 23);
    let t24 = t23.push(binding(Action::ToggleThread, "toggle_thread"@, seq!["z"@]));
    lemma_char_row(t24, Action::CommitMessage, "commit_message"@, "m"@, 24);
    let t25 = t24.push(binding(Action::CommitMessage, "commit_message"@, seq!["m"@]));
    lemma_char_row(t25, Action::Refresh, "refresh"@, "r"@, 25);
    let t26 = t25.push(binding(Action::Refresh, "refresh"@, seq!["r"@]));
    lemma_char_row(t26, Action::Help, "help"@, "?"@, 26);
    let t27 = t26.push(binding(Action::Help, "help"@, seq!["?"@]));
    let b28 = binding(Action::Quit, "quit"@, seq!["q"@, "esc"@]);
    lemma_row(t27, b28, 27);
    let t28 = t27.push(b28);
    assert(t28 =~= default_keys());
    reveal(binds_below);
    assert(binds_below(t28, 29));
}

/// An override replaces every key of its action.
pub proof fn law_override_replaces(b: BindingV, overrides: Seq<(Seq<char>, Seq<char>)>, key: Seq<char>)
    requires
        override_of(overrides, b.name) == Some(key),
    ensures
        entries_of(b, keys_of(b, overrides)) == seq![
            EntryKeyV { action: b.action, name: b.name, text: key, first: true },
        ],
{
    assert(entries_of(b, keys_of(b, overrides)) =~= seq![
        EntryKeyV { action: b.action, name: b.name, text: key, first: true },
    ]);
}

/// Where a map exists, every key that was bound does what it was bound to,
/// however the terminal reports its shift.
pub proof fn law_bound_keys_act(m: Keymap, i: int, shift: bool)
    requires
        m.wf(),
        0 <= i < m.bound@.len(),
        m.bound@[i].key.code is Char ==> !m.bound@[i].key.mods.shift,
    ensures
        m.action_of(m.bound@[i].key) == Some(m.bound@[i].action),
        m.bound@[i].key.code is Char ==> m.action_of(
            Key { mods: KeyModifiers { shift, ..m.bound@[i].key.mods }, ..m.bound@[i].key },
        ) == Some(m.bound@[i].action),
{
    let es = m.entries();
    let key = m.bound@[i].key;
    assert(es[i] == crate::keymap::bound_entry(m.bound@[i]));
    assert(key_of(es[i].text) == Some(key));
    lemma_first_owner(es, i, es.len() as int);
}

proof fn lemma_first_owner(es: Seq<EntryKeyV>, i: int, n: int)
    requires
        0 <= i < n <= es.len(),
        bindable(es, n),
        key_of(es[i].text) is Some,
    ensures
        owner(es, key_of(es[i].text)->0, n) == i,
    decreases n,
{
    let key = key_of(es[i].text)->0;
    if i < n - 1 {
        lemma_first_owner(es, i, n - 1);
    } else {
        assert(owner(es, key, n - 1) < 0);
    }
}

} // verus!
