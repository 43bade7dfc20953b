//! What settings and key names come to.

use vstd::prelude::*;

use crate::config::{named_only, Config, ListSide, ScopePref, Theme};
use crate::elide::{cut_head, cut_tail, end_within, start_within};
use crate::ipc::{kept_lines, one_line_text};
use crate::keymap::{
    folded, key_of, keys_of, lower, modifiers, named_key, normal, BindingV, Key, KeyCode,
    KeyModifiers,
};
use crate::text::{deep, has_prefix, is_blank, is_white, lines, occurs, trim_end};
use crate::text_laws::{law_joining_keeps_the_parts, law_trimming_undoes_padding};
use crate::wrap::{cells, text_cells};

verus! {

// ---- settings -------------------------------------------------------------------------

/// A setting that is out of range is moved to the nearest that is in it; one that
/// is in range, and every setting that has none, stays as it was given.
pub proof fn law_settings_are_kept_or_moved_into_range(c: Config, r: Config)
    requires
        call_ensures(Config::parse, (Some(c),), r),
    ensures
        r.context_lines == if c.context_lines > 20 {
            20
        } else {
            c.context_lines
        },
        1 <= c.tab_width <= 16 ==> r.tab_width == c.tab_width,
        c.tab_width == 0 ==> r.tab_width == 1,
        c.tab_width > 16 ==> r.tab_width == 16,
        20 <= c.view_width_percent <= 80 ==> r.view_width_percent == c.view_width_percent,
        c.view_width_percent < 20 ==> r.view_width_percent == 20,
        c.view_width_percent > 80 ==> r.view_width_percent == 80,
        10 <= c.list_width_percent <= 80 ==> r.list_width_percent == c.list_width_percent,
        c.list_width_percent < 10 ==> r.list_width_percent == 10,
        c.list_width_percent > 80 ==> r.list_width_percent == 80,
        c.poll_ms == 0 || c.poll_ms >= 250 ==> r.poll_ms == c.poll_ms,
        0 < c.poll_ms < 250 ==> r.poll_ms == 250,
        c.fetch_interval_ms == 0 || c.fetch_interval_ms >= 30_000 ==> r.fetch_interval_ms
            == c.fetch_interval_ms,
        0 < c.fetch_interval_ms < 30_000 ==> r.fetch_interval_ms == 30_000,
        r.base == c.base && r.list_side == c.list_side && r.editor == c.editor && r.show_untracked
            == c.show_untracked && r.theme == c.theme && r.default_scope == c.default_scope
            && r.keybindings == c.keybindings && r.reuse_tab_nvim == c.reuse_tab_nvim,
{
}

/// Without a file that can be read, every setting has its default.
pub proof fn law_settings_have_defaults(r: Config)
    requires
        call_ensures(Config::parse, (None,), r),
    ensures
        r.base@.len() == 0,
        r.list_side == ListSide::Right,
        deep(r.editor@) == seq!["nvim"@],
        r.poll_ms == 2000 && r.fetch_interval_ms == 300_000,
        r.show_untracked && r.reuse_tab_nvim,
        r.theme == Theme::Dark,
        r.default_scope == ScopePref::Worktree,
        r.context_lines == 3 && r.tab_width == 4,
        r.keybindings@.len() == 0,
        r.view_width_percent == 50 && r.list_width_percent == 25,
        deep(r.log_refs@) == seq!["origin/staging"@],
{
}

/// Of the watched refs every one that has a name is kept, in order, and no other.
pub proof fn law_only_blank_refs_are_dropped(a: Seq<Seq<char>>, b: Seq<Seq<char>>, r: Seq<char>)
    ensures
        named_only(a + b) == named_only(a) + named_only(b),
        is_blank(r) ==> named_only(seq![r]).len() == 0,
        !is_blank(r) ==> named_only(seq![r]) == seq![r],
    decreases b.len(),
{
    let one = seq![r];
    assert(one.drop_last() =~= Seq::<Seq<char>>::empty());
    assert(one.last() == r);
    reveal_with_fuel(named_only, 2);
    if !is_blank(r) {
        assert(named_only(one) =~= seq![r]);
    }
    if b.len() > 0 {
        law_only_blank_refs_are_dropped(a, b.drop_last(), r);
        assert((a + b).drop_last() =~= a + b.drop_last());
        assert(named_only(a + b) =~= named_only(a) + named_only(b));
    } else {
        assert(a + b =~= a);
        assert(named_only(a) + named_only(b) =~= named_only(a));
    }
}

// ---- keys -----------------------------------------------------------------------------

/// A key's name is read whatever its case; a single character is the key of itself,
/// and any other text is none.
pub proof fn law_keys_are_read_by_their_names(s: Seq<char>)
    ensures
        lower(s) == "enter"@ ==> named_key(s) == Some(KeyCode::Enter),
        lower(s) == "esc"@ ==> named_key(s) == Some(KeyCode::Esc),
        lower(s) == "tab"@ ==> named_key(s) == Some(KeyCode::Tab),
        lower(s) == "space"@ ==> named_key(s) == Some(KeyCode::Char(' ')),
        lower(s) == "up"@ ==> named_key(s) == Some(KeyCode::Up),
        lower(s) == "down"@ ==> named_key(s) == Some(KeyCode::Down),
        lower(s) == "left"@ ==> named_key(s) == Some(KeyCode::Left),
        lower(s) == "right"@ ==> named_key(s) == Some(KeyCode::Right),
        lower(s) == "pgup"@ ==> named_key(s) == Some(KeyCode::PageUp),
        lower(s) == "pgdn"@ ==> named_key(s) == Some(KeyCode::PageDown),
        lower(s) == "home"@ ==> named_key(s) == Some(KeyCode::Home),
        lower(s) == "end"@ ==> named_key(s) == Some(KeyCode::End),
        s.len() == 1 ==> named_key(s) == Some(KeyCode::Char(s[0])),
{
    reveal_strlit("enter");
    reveal_strlit("esc");
    reveal_strlit("tab");
    reveal_strlit("space");
    reveal_strlit("up");
    reveal_strlit("down");
    reveal_strlit("left");
    reveal_strlit("right");
    reveal_strlit("pgup");
    reveal_strlit("pgdn");
    reveal_strlit("home");
    reveal_strlit("end");
    let n = lower(s);
    assert(n.len() == s.len());
    assert("enter"@[0] == 'e' && "enter"@.len() == 5);
    assert("esc"@[0] == 'e' && "esc"@[1] == 's' && "esc"@.len() == 3);
    assert("tab"@[0] == 't' && "tab"@.len() == 3);
    assert("space"@[0] == 's' && "space"@.len() == 5);
    assert("up"@[0] == 'u' && "up"@.len() == 2);
    assert("down"@[0] == 'd' && "down"@.len() == 4);
    assert("left"@[0] == 'l' && "left"@.len() == 4);
    assert("right"@[0] == 'r' && "right"@.len() == 5);
    assert("pgup"@[0] == 'p' && "pgup"@[2] == 'u' && "pgup"@.len() == 4);
    assert("pgdn"@[0] == 'p' && "pgdn"@[2] == 'd' && "pgdn"@.len() == 4);
    assert("home"@[0] == 'h' && "home"@.len() == 4);
    assert("end"@[0] == 'e' && "end"@[1] == 'n' && "end"@.len() == 3);
}

/// A modifier before a name adds itself to the key and nothing else, in any case
/// and in any order.
pub proof fn law_modifiers_add_up(head: Seq<char>, rest: Seq<char>, m: KeyModifiers)
    ensures
        lower(head) == "ctrl+"@ ==> modifiers(head + rest, m) == modifiers(
            rest,
            KeyModifiers { ctrl: true, ..m },
        ),
        lower(head) == "alt+"@ ==> modifiers(head + rest, m) == modifiers(
            rest,
            KeyModifiers { alt: true, ..m },
        ),
        lower(head) == "shift+"@ ==> modifiers(head + rest, m) == modifiers(
            rest,
            KeyModifiers { shift: true, ..m },
        ),
{
    reveal_strlit("ctrl+");
    reveal_strlit("alt+");
    reveal_strlit("shift+");
    let s = head + rest;
    let n = lower(head);
    assert(lower(s).take(head.len() as int) =~= n);
    assert(s.skip(head.len() as int) =~= rest);
    let (c, a, h) = ("ctrl+"@, "alt+"@, "shift+"@);
    assert(c[0] == 'c' && a[0] == 'a' && h[0] == 's');
    assert(n.len() == head.len());
    if n == c || n == a || n == h {
        assert(lower(s).subrange(0, n.len() as int) =~= n);
        assert(has_prefix(lower(s), n));
        assert(lower(s)[0] == n[0]);
        assert(has_prefix(lower(s), c) ==> lower(s)[0] == 'c') by {
            if has_prefix(lower(s), c) {
                assert(lower(s).subrange(0, c.len() as int)[0] == c[0]);
            }
        }
        assert(has_prefix(lower(s), a) ==> lower(s)[0] == 'a') by {
            if has_prefix(lower(s), a) {
                assert(lower(s).subrange(0, a.len() as int)[0] == a[0]);
            }
        }
    }
}

/// A shifted letter is its capital, without the shift; a shifted key that is no
/// character keeps its shift.
pub proof fn law_shift_makes_a_capital(c: char, m: KeyModifiers, code: KeyCode)
    ensures
        folded(KeyCode::Char(c), KeyModifiers { shift: false, ..m }) == (Key {
            code: KeyCode::Char(c),
            mods: KeyModifiers { shift: false, ..m },
        }),
        'a' as u32 <= c as u32 <= 'z' as u32 ==> folded(
            KeyCode::Char(c),
            KeyModifiers { shift: true, ..m },
        ) == (Key {
            code: KeyCode::Char(((c as u32 - 32) as u32) as char),
            mods: KeyModifiers { shift: false, ..m },
        }),
        !(code is Char) ==> folded(code, m) == (Key { code, mods: m }),
        normal(Key { code: KeyCode::Char(c), mods: m }) == (Key {
            code: KeyCode::Char(c),
            mods: KeyModifiers { shift: false, ..m },
        }),
        !(code is Char) ==> normal(Key { code, mods: m }) == (Key { code, mods: m }),
{
}

/// Whitespace around a key's name does not count.
pub proof fn law_a_key_is_read_without_the_space_around_it(a: Seq<char>, s: Seq<char>, b: Seq<char>)
    requires
        is_blank(a),
        is_blank(b),
        s.len() > 0,
        !is_white(s[0]),
        !is_white(s.last()),
    ensures
        key_of(a + s + b) == key_of(s),
{
    law_trimming_undoes_padding(a, s, b);
    let none = Seq::<char>::empty();
    law_trimming_undoes_padding(none, s, none);
    assert(none + s + none =~= s);
}

/// An action has the first key that the settings give to its name, and its own
/// keys where they give none; what they give to other names does not matter.
pub proof fn law_settings_bind_by_name(b: BindingV, name: Seq<char>, key: Seq<char>, more: Seq<(Seq<char>, Seq<char>)>)
    ensures
        keys_of(b, Seq::empty()) == b.keys,
        keys_of(b, seq![(b.name, key)] + more) == seq![key],
        name != b.name ==> keys_of(b, seq![(name, key)] + more) == keys_of(b, more),
{
    let all = seq![(b.name, key)] + more;
    assert(all[0] == (b.name, key));
    let all = seq![(name, key)] + more;
    assert(all[0] == (name, key));
    assert(all.skip(1) =~= more);
}

// ---- one line -------------------------------------------------------------------------

/// A note on one line holds every line of the note that says anything, but for
/// whitespace at its end.
pub proof fn law_one_line_says_it_all(text: Seq<char>, i: int)
    requires
        0 <= i < lines(text).len(),
        !is_blank(lines(text)[i]),
    ensures
        occurs(one_line_text(text), trim_end(lines(text)[i])),
{
    lemma_kept_has(lines(text), i);
    let k = kept_lines(lines(text)).index_of(trim_end(lines(text)[i]));
    law_joining_keeps_the_parts(kept_lines(lines(text)), " \u{23ce} "@, k);
}

proof fn lemma_kept_has(ls: Seq<Seq<char>>, i: int)
    requires
        0 <= i < ls.len(),
        !is_blank(ls[i]),
    ensures
        kept_lines(ls).contains(trim_end(ls[i])),
    decreases ls.len(),
{
    let init = ls.drop_last();
    if i < init.len() {
        assert(init[i] == ls[i]);
        lemma_kept_has(init, i);
        let k = kept_lines(init).index_of(trim_end(ls[i]));
        assert(kept_lines(ls)[k] == trim_end(ls[i]));
    } else {
        lemma_says(ls[i]);
        assert(kept_lines(ls).last() == trim_end(ls[i]));
        assert(kept_lines(ls)[kept_lines(ls).len() - 1] == trim_end(ls[i]));
    }
}

proof fn lemma_says(s: Seq<char>)
    requires
        !is_blank(s),
    ensures
        trim_end(s).len() > 0,
    decreases s.len(),
{
    if s.len() > 0 && is_white(s.last()) {
        let init = s.drop_last();
        let i = choose|i: int| 0 <= i < s.len() && !is_white(#[trigger] s[i]);
        assert(init[i] == s[i]);
        lemma_says(init);
    }
}

/// A note of one line, without whitespace at its end, is shown as it is.
pub proof fn law_a_short_note_stays_as_it_is(text: Seq<char>)
    requires
        text.len() > 0,
        !text.contains('\n'),
        !is_white(text.last()),
    ensures
        one_line_text(text) == text,
{
    crate::text_laws::law_a_line_feed_closes_a_line(text, text);
    let one = seq![text];
    assert(one.drop_last() =~= Seq::<Seq<char>>::empty());
    assert(one.last() == text);
    reveal_with_fuel(kept_lines, 2);
    assert(kept_lines(one) =~= seq![text]);
}

// ---- cutting to a width ---------------------------------------------------------------

/// The cells of some characters.
pub open spec fn cell_sum(s: Seq<char>) -> nat
    decreases s.len(),
{
    if s.len() == 0 {
        0
    } else {
        cell_sum(s.drop_last()) + cells(s.last())
    }
}

proof fn lemma_cell_sum_front(s: Seq<char>)
    requires
        s.len() > 0,
    ensures
        cell_sum(s) == cells(s[0]) + cell_sum(s.skip(1)),
    decreases s.len(),
{
    if s.len() == 1 {
        assert(s.drop_last() =~= Seq::<char>::empty());
        assert(s.skip(1) =~= Seq::<char>::empty());
        reveal_with_fuel(cell_sum, 2);
    } else {
        lemma_cell_sum_front(s.drop_last());
        assert(s.drop_last().skip(1) =~= s.skip(1).drop_last());
        assert(s.skip(1).last() == s.last());
    }
}

/// What is kept of the start of a text that does not fit is as much as fits beside
/// the ellipsis, and no less.
pub proof fn law_as_much_of_the_start_as_fits(s: Seq<char>, room: nat)
    ensures
        ({
            let k = start_within(s, room).len() as int;
            &&& k <= s.len()
            &&& start_within(s, room) == s.take(k)
            &&& cell_sum(s.take(k)) <= room
            &&& k < s.len() ==> cell_sum(s.take(k + 1)) > room
        }),
    decreases s.len(),
{
    let t = start_within(s, room);
    if s.len() == 0 || cells(s[0]) > room {
        assert(s.take(0) =~= Seq::<char>::empty());
        if s.len() > 0 {
            lemma_cell_sum_front(s.take(1));
            assert(s.take(1).skip(1) =~= Seq::<char>::empty());
        }
    } else {
        let rest = s.skip(1);
        let left = (room - cells(s[0])) as nat;
        law_as_much_of_the_start_as_fits(rest, left);
        let k = t.len() as int;
        assert(t =~= s.take(k));
        lemma_cell_sum_front(s.take(k));
        assert(s.take(k).skip(1) =~= rest.take(k - 1));
        if k < s.len() {
            lemma_cell_sum_front(s.take(k + 1));
            assert(s.take(k + 1).skip(1) =~= rest.take(k));
        }
    }
}

/// What is kept of the end of a text that does not fit is as much as fits beside
/// the ellipsis, and no less.
pub proof fn law_as_much_of_the_end_as_fits(s: Seq<char>, room: nat)
    ensures
        ({
            let k = s.len() - end_within(s, room).len();
            &&& 0 <= k <= s.len()
            &&& end_within(s, room) == s.skip(k)
            &&& cell_sum(s.skip(k)) <= room
            &&& k > 0 ==> cell_sum(s.skip(k - 1)) > room
        }),
    decreases s.len(),
{
    let t = end_within(s, room);
    if s.len() == 0 || cells(s.last()) > room {
        assert(s.skip(s.len() as int) =~= Seq::<char>::empty());
        if s.len() > 0 {
            let one = s.skip(s.len() - 1);
            assert(one.drop_last() =~= Seq::<char>::empty());
            assert(one.last() == s.last());
            reveal_with_fuel(cell_sum, 2);
        }
    } else {
        let init = s.drop_last();
        let left = (room - cells(s.last())) as nat;
        law_as_much_of_the_end_as_fits(init, left);
        let k = s.len() - t.len();
        assert(t =~= s.skip(k));
        assert(s.skip(k).drop_last() =~= init.skip(k));
        if k > 0 {
            assert(s.skip(k - 1).drop_last() =~= init.skip(k - 1));
        }
    }
}

/// A text that fits is shown whole; one that does not keeps its start, or its end,
/// and shows by an ellipsis that it was cut.
pub proof fn law_a_cut_text_shows_it(s: Seq<char>, max: nat)
    ensures
        text_cells(s) <= max ==> cut_tail(s, max) == s && cut_head(s, max) == s,
        text_cells(s) > max && max > 0 ==> cut_tail(s, max) == start_within(s, (max - 1) as nat).push('…')
            && cut_head(s, max) == seq!['…'] + end_within(s, (max - 1) as nat),
        text_cells(s) > max && max == 0 ==> cut_tail(s, max).len() == 0 && cut_head(s, max).len() == 0,
{
    reveal_strlit("…");
    assert("…"@ =~= seq!['…']);
    if max > 0 {
        let a = start_within(s, (max - 1) as nat);
        assert(a + "…"@ =~= a.push('…'));
    }
}

/// An action has the keys that the settings give it, by its name; of two the first
/// count.
pub proof fn law_an_action_is_given_keys_by_its_name(overrides: Seq<(Seq<char>, Seq<char>)>, name: Seq<char>, k: int)
    requires
        0 <= k <= overrides.len(),
        forall|j: int| 0 <= j < k ==> (#[trigger] overrides[j]).0 != name,
        k < overrides.len() ==> overrides[k].0 == name,
    ensures
        k < overrides.len() ==> crate::keymap::override_of(overrides, name) == Some(overrides[k].1),
        k == overrides.len() ==> crate::keymap::override_of(overrides, name) is None,
    decreases k,
{
    if k > 0 {
        assert(overrides[0].0 != name);
        let rest = overrides.skip(1);
        assert forall|j: int| 0 <= j < k - 1 implies (#[trigger] rest[j]).0 != name by {
            assert(rest[j] == overrides[j + 1]);
        }
        law_an_action_is_given_keys_by_its_name(rest, name, k - 1);
    }
}

/// The key that is shown for an action is the first that was given for it.
pub proof fn law_the_first_key_of_an_action_is_shown(entries: Seq<crate::keymap::EntryKeyV>, action: crate::keymap::Action, k: int)
    requires
        0 <= k <= entries.len(),
        forall|j: int|
            0 <= j < k ==> (#[trigger] entries[j]).action != action || !entries[j].first,
        k < entries.len() ==> entries[k].action == action && entries[k].first,
    ensures
        k < entries.len() ==> crate::keymap::first_text(entries, action) == entries[k].text,
        k == entries.len() ==> crate::keymap::first_text(entries, action).len() == 0,
    decreases k,
{
    if k > 0 {
        assert(entries[0].action != action || !entries[0].first);
        let rest = entries.skip(1);
        assert forall|j: int| 0 <= j < k - 1 implies (#[trigger] rest[j]).action != action || !rest[j].first by {
            assert(rest[j] == entries[j + 1]);
        }
        law_the_first_key_of_an_action_is_shown(rest, action, k - 1);
    }
}

} // verus!
