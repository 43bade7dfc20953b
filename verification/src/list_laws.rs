//! What the list shows of the files, and what keys do to them.

use vstd::prelude::*;

use crate::git::{ChangeKind, EntryV, FileEntry, Scope, StageState};
use crate::keymap::{Action, Key, KeyCode};
use crate::list::{free_before, free_from, snapped, stepped, App, EditorThen, GitAsk, Modal, Need};
use crate::list_input::files_below;
use crate::list_rows::{
    below, beside, file_rows, folded_dir, holds_one_dir, is_below, items_in, lemma_below_lighter,
    lemma_beside_lighter, lemma_folded_lighter, lemma_weight_skip, section_rows, stands_in, tree,
    weight, ItemV, ListRowV, Mode, Section,
};
use crate::list_views::{flipped, opened_one};
use crate::path::steps;
use crate::text::{deep, has_prefix, join, split};

verus! {

// ---- sections -------------------------------------------------------------------------

/// Which sections a file stands in: one in conflict among the conflicts alone;
/// of the others what is staged among the staged changes, what is not among the
/// changes, and what is staged in part in both.
pub proof fn law_a_file_stands_where_its_changes_are(e: EntryV)
    ensures
        e.kind == ChangeKind::Conflicted ==> stands_in(e, Section::Conflicts) && !stands_in(
            e,
            Section::Staged,
        ) && !stands_in(e, Section::Changes),
        e.kind != ChangeKind::Conflicted ==> !stands_in(e, Section::Conflicts),
        e.kind != ChangeKind::Conflicted && e.stage == StageState::Staged ==> stands_in(
            e,
            Section::Staged,
        ) && !stands_in(e, Section::Changes),
        e.kind != ChangeKind::Conflicted && (e.stage == StageState::Unstaged || e.stage
            == StageState::Untracked) ==> !stands_in(e, Section::Staged) && stands_in(
            e,
            Section::Changes,
        ),
        e.kind != ChangeKind::Conflicted && e.stage == StageState::Partial ==> stands_in(
            e,
            Section::Staged,
        ) && stands_in(e, Section::Changes),
        stands_in(e, Section::Flat),
{
}

/// The files of a section are those that stand in it, each once, in their order,
/// and each by the steps of its path.
pub proof fn law_a_section_holds_its_files(entries: Seq<EntryV>, section: Section, i: int)
    requires
        0 <= i < items_in(entries, section).len(),
    ensures
        ({
            let x = items_in(entries, section)[i];
            &&& 0 <= x.idx < entries.len()
            &&& stands_in(entries[x.idx], section)
            &&& x.steps == steps(split(entries[x.idx].path, '/'))
            &&& forall|j: int| 0 <= j < i ==> (#[trigger] items_in(entries, section)[j]).idx < x.idx
        }),
    decreases entries.len(),
{
    let init = entries.drop_last();
    let s = items_in(init, section);
    let all = items_in(entries, section);
    if i < s.len() {
        law_a_section_holds_its_files(init, section, i);
        assert(all[i] == s[i]);
        assert(init[s[i].idx] == entries[s[i].idx]);
        assert forall|j: int| 0 <= j < i implies (#[trigger] all[j]).idx < all[i].idx by {
            assert(all[j] == s[j]);
        }
    } else {
        assert forall|j: int| 0 <= j < i implies (#[trigger] all[j]).idx < all[i].idx by {
            law_a_section_holds_its_files(init, section, j);
            assert(all[j] == s[j]);
        }
    }
}

/// The sections come in order, each with a heading that says how many files it has;
/// one without files does not come up.
pub proof fn law_sections_come_in_order(entries: Seq<EntryV>, closed: Seq<(Section, Seq<char>)>, section: Section, title: Seq<char>)
    ensures
        file_rows(entries, true, closed) == section_rows(
            entries,
            Section::Conflicts,
            "merge conflicts"@,
            closed,
        ) + section_rows(entries, Section::Staged, "staged changes"@, closed) + section_rows(
            entries,
            Section::Changes,
            "changes"@,
            closed,
        ),
        (forall|k: int| 0 <= k < entries.len() ==> !stands_in(#[trigger] entries[k], section))
            ==> section_rows(entries, section, title, closed).len() == 0,
        (exists|k: int| 0 <= k < entries.len() && stands_in(#[trigger] entries[k], section)) ==> {
            let rows = section_rows(entries, section, title, closed);
            &&& rows.len() > 0
            &&& rows[0] == (ListRowV::Header {
                title,
                count: items_in(entries, section).len() as int,
            })
            &&& items_in(entries, section).len() > 0
        },
{
    if forall|k: int| 0 <= k < entries.len() ==> !stands_in(#[trigger] entries[k], section) {
        if items_in(entries, section).len() > 0 {
            law_a_section_holds_its_files(entries, section, 0);
        }
    }
    if exists|k: int| 0 <= k < entries.len() && stands_in(#[trigger] entries[k], section) {
        let k = choose|k: int| 0 <= k < entries.len() && stands_in(#[trigger] entries[k], section);
        lemma_item_for(entries, section, k);
    }
}

proof fn lemma_item_for(entries: Seq<EntryV>, section: Section, k: int)
    requires
        0 <= k < entries.len(),
        stands_in(entries[k], section),
    ensures
        items_in(entries, section).len() > 0,
    decreases entries.len(),
{
    if k < entries.len() - 1 {
        assert(entries.drop_last()[k] == entries[k]);
        lemma_item_for(entries.drop_last(), section, k);
    }
}

// ---- the tree -------------------------------------------------------------------------

/// The path that an item stands for, seen from a directory.
pub open spec fn path_of(x: ItemV) -> Seq<char> {
    join(x.steps, "/"@)
}

proof fn lemma_join_front(parts: Seq<Seq<char>>, sep: Seq<char>)
    requires
        parts.len() > 1,
    ensures
        join(parts, sep) == parts[0] + sep + join(parts.skip(1), sep),
    decreases parts.len(),
{
    let init = parts.drop_last();
    assert(parts.skip(1).drop_last() =~= init.skip(1));
    assert(parts.skip(1).last() == parts.last());
    if init.len() == 1 {
        assert(parts.skip(1).len() == 1);
        assert(parts.skip(1)[0] == parts.last());
        assert(init[0] == parts[0]);
        assert(join(init, sep) == parts[0]);
        assert(join(parts.skip(1), sep) == parts.last());
    } else {
        lemma_join_front(init, sep);
        assert(join(parts, sep) =~= parts[0] + sep + join(parts.skip(1), sep));
    }
}

/// An item of a directory has the rest of the path of an item that is there.
pub open spec fn comes_from(items: Seq<ItemV>, lead: Seq<char>, x: ItemV) -> bool {
    exists|k: int|
        0 <= k < items.len() && (#[trigger] items[k]).idx == x.idx && path_of(items[k]) == lead + path_of(
            x,
        )
}

proof fn lemma_below(items: Seq<ItemV>, name: Seq<char>, i: int)
    requires
        0 <= i < below(items, name).len(),
    ensures
        comes_from(items, name + "/"@, below(items, name)[i]),
    decreases items.len(),
{
    let init = items.drop_last();
    let s = below(init, name);
    let x = below(items, name)[i];
    if i < s.len() {
        lemma_below(init, name, i);
        let k = choose|k: int|
            0 <= k < init.len() && (#[trigger] init[k]).idx == x.idx && path_of(init[k]) == name + "/"@
                + path_of(x);
        assert(items[k] == init[k]);
    } else {
        let y = items.last();
        lemma_join_front(y.steps, "/"@);
        assert(items[items.len() - 1] == y);
        assert(path_of(y) == name + "/"@ + path_of(x));
    }
}

proof fn lemma_beside(items: Seq<ItemV>, name: Seq<char>, i: int)
    requires
        0 <= i < beside(items, name).len(),
    ensures
        exists|k: int| 0 <= k < items.len() && #[trigger] items[k] == beside(items, name)[i],
    decreases items.len(),
{
    let init = items.drop_last();
    if i < beside(init, name).len() {
        lemma_beside(init, name, i);
        let k = choose|k: int| 0 <= k < init.len() && #[trigger] init[k] == beside(init, name)[i];
        assert(items[k] == init[k]);
    } else {
        assert(items[items.len() - 1] == items.last());
    }
}

proof fn lemma_folded(name: Seq<char>, items: Seq<ItemV>) -> (t: Seq<char>)
    ensures
        folded_dir(name, items).0 == name + t,
        forall|i: int|
            0 <= i < folded_dir(name, items).1.len() ==> comes_from(
                items,
                t,
                #[trigger] folded_dir(name, items).1[i],
            ),
    decreases weight(items),
{
    if holds_one_dir(items) {
        let d = items[0].steps[0];
        let inner = below(items, d);
        assert(is_below(items[0], d));
        lemma_below_lighter(items, d, 0);
        let u = lemma_folded(name + d + "/"@, inner);
        let t = d + "/"@ + u;
        let f = folded_dir(name, items);
        assert(f == folded_dir(name + d + "/"@, inner));
        assert(f.0 =~= name + t);
        assert forall|i: int| 0 <= i < f.1.len() implies comes_from(items, t, #[trigger] f.1[i]) by {
            let x = f.1[i];
            assert(comes_from(inner, u, x));
            let k = choose|k: int|
                0 <= k < inner.len() && (#[trigger] inner[k]).idx == x.idx && path_of(inner[k]) == u
                    + path_of(x);
            lemma_below(items, d, k);
            let m = choose|m: int|
                0 <= m < items.len() && (#[trigger] items[m]).idx == inner[k].idx && path_of(items[m]) == d
                    + "/"@ + path_of(inner[k]);
            assert(path_of(items[m]) =~= t + path_of(x));
        }
        t
    } else {
        let none = Seq::<char>::empty();
        assert(name + none =~= name);
        assert forall|i: int| 0 <= i < items.len() implies comes_from(items, none, #[trigger] items[i]) by {
            assert(none + path_of(items[i]) =~= path_of(items[i]));
        }
        none
    }
}

/// Whether a row is that of one of the files, in the section, or that of a
/// directory which the path of one of them begins with.
pub open spec fn leads(items: Seq<ItemV>, depth: int, prefix: Seq<char>, section: Section, closed: Seq<(Section, Seq<char>)>, row: ListRowV) -> bool {
    match row {
        ListRowV::Entry { idx, depth: d, section: s } => s == section && d >= depth && exists|k: int|
            0 <= k < items.len() && (#[trigger] items[k]).idx == idx,
        ListRowV::Dir { depth: d, path, section: s, collapsed, .. } => {
            &&& s == section
            &&& d >= depth
            &&& collapsed == closed.contains((section, path))
            &&& exists|k: int|
                0 <= k < items.len() && has_prefix(prefix + path_of(#[trigger] items[k]), path)
        },
        _ => false,
    }
}

proof fn lemma_leads_part(items: Seq<ItemV>, part: Seq<ItemV>, depth: int, prefix: Seq<char>, section: Section, closed: Seq<(Section, Seq<char>)>, row: ListRowV)
    requires
        leads(part, depth, prefix, section, closed, row),
        forall|j: int|
            0 <= j < part.len() ==> exists|k: int|
                0 <= k < items.len() && #[trigger] items[k] == #[trigger] part[j],
    ensures
        leads(items, depth, prefix, section, closed, row),
{
    match row {
        ListRowV::Entry { idx, .. } => {
            let j = choose|j: int| 0 <= j < part.len() && (#[trigger] part[j]).idx == idx;
            let k = choose|k: int| 0 <= k < items.len() && #[trigger] items[k] == part[j];
            assert(items[k].idx == idx);
        },
        ListRowV::Dir { path: p, .. } => {
            let j = choose|j: int| 0 <= j < part.len() && has_prefix(prefix + path_of(#[trigger] part[j]), p);
            let k = choose|k: int| 0 <= k < items.len() && #[trigger] items[k] == part[j];
            assert(has_prefix(prefix + path_of(items[k]), p));
        },
        _ => {},
    }
}

proof fn lemma_leads_inner(items: Seq<ItemV>, inner: Seq<ItemV>, name: Seq<char>, depth: int, prefix: Seq<char>, section: Section, closed: Seq<(Section, Seq<char>)>, row: ListRowV)
    requires
        leads(inner, depth + 1, prefix + name, section, closed, row),
        forall|j: int| 0 <= j < inner.len() ==> comes_from(items, name, #[trigger] inner[j]),
    ensures
        leads(items, depth, prefix, section, closed, row),
{
    match row {
        ListRowV::Entry { idx, .. } => {
            let j = choose|j: int| 0 <= j < inner.len() && (#[trigger] inner[j]).idx == idx;
            assert(comes_from(items, name, inner[j]));
        },
        ListRowV::Dir { path: p, .. } => {
            let j = choose|j: int|
                0 <= j < inner.len() && has_prefix(prefix + name + path_of(#[trigger] inner[j]), p);
            assert(comes_from(items, name, inner[j]));
            let k = choose|k: int|
                0 <= k < items.len() && (#[trigger] items[k]).idx == inner[j].idx && path_of(items[k])
                    == name + path_of(inner[j]);
            assert(prefix + path_of(items[k]) =~= prefix + name + path_of(inner[j]));
            assert(has_prefix(prefix + path_of(items[k]), p));
        },
        _ => {},
    }
}

proof fn lemma_inner_comes_from(items: Seq<ItemV>, d: Seq<char>)
    ensures
        ({
            let f = folded_dir(d + "/"@, below(items, d));
            forall|j: int| 0 <= j < f.1.len() ==> comes_from(items, f.0, #[trigger] f.1[j])
        }),
{
    let inside = below(items, d);
    let f = folded_dir(d + "/"@, inside);
    let t = lemma_folded(d + "/"@, inside);
    assert forall|j: int| 0 <= j < f.1.len() implies comes_from(items, f.0, #[trigger] f.1[j]) by {
        lemma_full_path(items, d, inside, t, f.1[j]);
    }
}

/// Every row of a tree is one of its files, or a directory that leads to one: a
/// file's row is in the section, and the path of a directory's row is how the path
/// of a file begins.
pub proof fn law_rows_lead_to_files(items: Seq<ItemV>, depth: int, prefix: Seq<char>, section: Section, closed: Seq<(Section, Seq<char>)>, r: int)
    requires
        0 <= r < tree(items, depth, prefix, section, closed).len(),
    ensures
        leads(
            items,
            depth,
            prefix,
            section,
            closed,
            tree(items, depth, prefix, section, closed)[r],
        ),
    decreases weight(items), items.len(),
{
    let all = tree(items, depth, prefix, section, closed);
    lemma_weight_skip(items);
    if items[0].steps.len() <= 1 {
        if r > 0 {
            let rest = items.skip(1);
            law_rows_lead_to_files(rest, depth, prefix, section, closed, r - 1);
            assert(all[r] == tree(rest, depth, prefix, section, closed)[r - 1]);
            assert forall|j: int| 0 <= j < rest.len() implies exists|k: int|
                0 <= k < items.len() && #[trigger] items[k] == #[trigger] rest[j] by {
                assert(items[j + 1] == rest[j]);
            }
            lemma_leads_part(items, rest, depth, prefix, section, closed, all[r]);
        } else {
            assert(items[0].idx == items[0].idx);
        }
    } else {
        let d = items[0].steps[0];
        lemma_below_lighter(items, d, 0);
        lemma_folded_lighter(d + "/"@, below(items, d));
        lemma_beside_lighter(items, d, 0);
        let (name, inner) = folded_dir(d + "/"@, below(items, d));
        let path = prefix + name;
        let sub = if closed.contains((section, path)) {
            Seq::empty()
        } else {
            tree(inner, depth + 1, path, section, closed)
        };
        let rest = beside(items, d);
        lemma_inner_comes_from(items, d);
        if r == 0 {
            lemma_first_below(items, d);
            lemma_inner_not_empty(d + "/"@, below(items, d));
            assert(comes_from(items, name, inner[0]));
            let k = choose|k: int|
                0 <= k < items.len() && (#[trigger] items[k]).idx == inner[0].idx && path_of(items[k])
                    == name + path_of(inner[0]);
            assert((prefix + path_of(items[k])).subrange(0, path.len() as int) =~= path);
            assert(has_prefix(prefix + path_of(items[k]), path));
        } else if r <= sub.len() {
            law_rows_lead_to_files(inner, depth + 1, path, section, closed, r - 1);
            assert(all[r] == sub[r - 1]);
            lemma_leads_inner(items, inner, name, depth, prefix, section, closed, all[r]);
        } else {
            let q = r - 1 - sub.len();
            law_rows_lead_to_files(rest, depth, prefix, section, closed, q);
            assert(all[r] == tree(rest, depth, prefix, section, closed)[q]);
            assert forall|j: int| 0 <= j < rest.len() implies exists|k: int|
                0 <= k < items.len() && #[trigger] items[k] == #[trigger] rest[j] by {
                lemma_beside(items, d, j);
            }
            lemma_leads_part(items, rest, depth, prefix, section, closed, all[r]);
        }
    }
}

proof fn lemma_first_below(items: Seq<ItemV>, d: Seq<char>)
    requires
        items.len() > 0,
        is_below(items[0], d),
    ensures
        below(items, d).len() > 0,
    decreases items.len(),
{
    if items.len() > 1 {
        assert(items.drop_last()[0] == items[0]);
        lemma_first_below(items.drop_last(), d);
    }
}

proof fn lemma_inner_not_empty(name: Seq<char>, items: Seq<ItemV>)
    requires
        items.len() > 0,
    ensures
        folded_dir(name, items).1.len() > 0,
    decreases weight(items),
{
    if holds_one_dir(items) {
        let d = items[0].steps[0];
        assert(is_below(items[0], d));
        lemma_first_below(items, d);
        lemma_below_lighter(items, d, 0);
        lemma_inner_not_empty(name + d + "/"@, below(items, d));
    }
}

proof fn lemma_full_path(items: Seq<ItemV>, d: Seq<char>, inside: Seq<ItemV>, t: Seq<char>, x: ItemV)
    requires
        inside == below(items, d),
        comes_from(inside, t, x),
    ensures
        comes_from(items, d + "/"@ + t, x),
{
    let k = choose|k: int|
        0 <= k < inside.len() && (#[trigger] inside[k]).idx == x.idx && path_of(inside[k]) == t + path_of(x);
    lemma_below(items, d, k);
    let m = choose|m: int|
        0 <= m < items.len() && (#[trigger] items[m]).idx == inside[k].idx && path_of(items[m]) == d + "/"@
            + path_of(inside[k]);
    assert(path_of(items[m]) =~= d + "/"@ + t + path_of(x));
}

/// Closing a directory that is open, or opening one that is closed, changes that
/// one and no other; doing it twice changes nothing.
pub proof fn law_a_directory_is_opened_or_closed(closed: Seq<(Section, Seq<char>)>, key: (Section, Seq<char>), other: (Section, Seq<char>))
    ensures
        flipped(closed, key).contains(key) <==> !closed.contains(key),
        other != key ==> (flipped(closed, key).contains(other) <==> closed.contains(other)),
{
    if closed.contains(key) {
        lemma_opened(closed, key, key);
        lemma_opened(closed, key, other);
    } else {
        let all = closed.push(key);
        assert(all[closed.len() as int] == key);
        if closed.contains(other) {
            let k = closed.index_of(other);
            assert(all[k] == other);
        }
        if all.contains(other) && other != key {
            let k = all.index_of(other);
            assert(closed[k] == other);
        }
    }
}

proof fn lemma_opened(closed: Seq<(Section, Seq<char>)>, key: (Section, Seq<char>), other: (Section, Seq<char>))
    ensures
        opened_one(closed, key).contains(other) <==> closed.contains(other) && other != key,
    decreases closed.len(),
{
    if closed.len() > 0 {
        let init = closed.drop_last();
        lemma_opened(init, key, other);
        let (a, b) = (opened_one(init, key), opened_one(closed, key));
        assert(closed[closed.len() - 1] == closed.last());
        if a.contains(other) {
            let k = a.index_of(other);
            assert(b[k] == other);
        }
        if init.contains(other) {
            let k = init.index_of(other);
            assert(closed[k] == other);
        }
        if closed.contains(other) && !init.contains(other) {
            let k = closed.index_of(other);
            if k < init.len() {
                assert(init[k] == other);
            }
            if other != key {
                assert(b[a.len() as int] == other);
            }
        }
        if b.contains(other) && !a.contains(other) {
            let k = b.index_of(other);
            if k < a.len() {
                assert(a[k] == other);
            }
        }
    }
}

// ---- the cursor -----------------------------------------------------------------------

proof fn lemma_free_from(rows: Seq<ListRowV>, i: int)
    requires
        0 <= i <= rows.len(),
    ensures
        i <= free_from(rows, i) <= rows.len(),
        free_from(rows, i) < rows.len() ==> rows[free_from(rows, i)].can_hold_cursor(),
        forall|k: int| i <= k < free_from(rows, i) ==> !(#[trigger] rows[k]).can_hold_cursor(),
    decreases rows.len() - i,
{
    if i < rows.len() && !rows[i].can_hold_cursor() {
        lemma_free_from(rows, i + 1);
    }
}

proof fn lemma_free_before(rows: Seq<ListRowV>, i: int)
    requires
        0 <= i <= rows.len(),
    ensures
        -1 <= free_before(rows, i) < i || free_before(rows, i) == -1,
        free_before(rows, i) >= 0 ==> rows[free_before(rows, i)].can_hold_cursor(),
        forall|k: int| free_before(rows, i) < k < i && 0 <= k ==> !(#[trigger] rows[k]).can_hold_cursor(),
    decreases i,
{
    if i > 0 && !rows[i - 1].can_hold_cursor() {
        lemma_free_before(rows, i - 1);
    }
}

/// The cursor moves to the next row that can hold it, one that is no heading, and
/// passes none; at the end it stays.
pub proof fn law_the_cursor_moves_to_the_next_row(rows: Seq<ListRowV>, cursor: int)
    requires
        0 <= cursor < rows.len(),
    ensures
        ({
            let d = stepped(rows, cursor, true);
            &&& d == cursor || (cursor < d < rows.len() && rows[d].can_hold_cursor())
            &&& forall|k: int|
                cursor < k < rows.len() && (d == cursor || k < d) ==> !(#[trigger] rows[k]).can_hold_cursor()
        }),
        ({
            let u = stepped(rows, cursor, false);
            &&& u == cursor || (0 <= u < cursor && rows[u].can_hold_cursor())
            &&& forall|k: int|
                0 <= k < cursor && (u == cursor || u < k) ==> !(#[trigger] rows[k]).can_hold_cursor()
        }),
        forall|k: int|
            0 <= k < rows.len() ==> ((#[trigger] rows[k]).can_hold_cursor() <==> !(rows[k] is Header)
                && !(rows[k] is NoteFile)),
{
    lemma_free_from(rows, cursor + 1);
    lemma_free_before(rows, cursor);
}

/// A cursor that is on no row, or on a heading, comes to rest on the nearest row
/// below that can hold it, or above where there is none below; else it stays.
pub proof fn law_the_cursor_comes_to_rest_nearby(rows: Seq<ListRowV>, cursor: int)
    requires
        rows.len() > 0,
        0 <= cursor,
    ensures
        cursor < rows.len() && rows[cursor].can_hold_cursor() ==> snapped(rows, cursor) == cursor,
        cursor < rows.len() ==> ({
            let s = snapped(rows, cursor);
            &&& s > cursor ==> forall|k: int| cursor <= k < s ==> !(#[trigger] rows[k]).can_hold_cursor()
            &&& s < cursor ==> forall|k: int|
                s < k < rows.len() ==> !(#[trigger] rows[k]).can_hold_cursor()
        }),
{
    let start = if cursor < rows.len() {
        cursor
    } else {
        rows.len() - 1
    };
    lemma_free_from(rows, start);
    lemma_free_before(rows, start);
}

/// A click hits the row that is drawn where it was made: rows take one line each,
/// but a note takes two.
pub proof fn law_a_click_hits_the_row_under_it(rows: Seq<ListRowV>, i: int, y: int)
    requires
        0 <= i < rows.len(),
        0 <= y,
    ensures
        y == 0 ==> App::row_drawn(rows, i, y) == Some(i),
        rows[i] is Note && y == 1 ==> App::row_drawn(rows, i, y) == Some(i),
        rows[i] is Note && y >= 2 ==> App::row_drawn(rows, i, y) == App::row_drawn(rows, i + 1, y - 2),
        !(rows[i] is Note) && y >= 1 ==> App::row_drawn(rows, i, y) == App::row_drawn(
            rows,
            i + 1,
            y - 1,
        ),
        App::row_drawn(rows, rows.len() as int, y) is None,
{
}

// ---- staging and discarding -----------------------------------------------------------

/// What is done with a folder is done with every file of its section below it; to
/// unstage, with those that have anything staged.
pub proof fn law_a_folder_stands_for_all_its_files(entries: Seq<FileEntry>, section: Section, dir: Seq<char>, staged: bool, k: int)
    requires
        0 <= k < entries.len(),
        stands_in(entries[k].deep_view(), section),
        has_prefix(entries[k].path@, dir),
        staged ==> entries[k].stage == StageState::Staged || entries[k].stage == StageState::Partial,
    ensures
        files_below(entries, section, dir, staged).contains(entries[k].path@),
    decreases entries.len(),
{
    let init = entries.drop_last();
    let (a, b) = (
        files_below(init, section, dir, staged),
        files_below(entries, section, dir, staged),
    );
    if k < init.len() {
        assert(init[k] == entries[k]);
        law_a_folder_stands_for_all_its_files(init, section, dir, staged, k);
        let j = a.index_of(entries[k].path@);
        assert(b[j] == a[j]);
    } else {
        assert(b[a.len() as int] == entries[k].path@);
    }
}

/// On a file the stage key stages it, and in the staged section unstages it; one in
/// conflict is left alone, and so is everything outside the working tree.
pub proof fn law_the_stage_key_stages_the_selection(a: App, after: App, k: int, section: Section)
    requires
        a.stage_asked(after),
        a.at_file() == Some((k, section)),
        0 <= k < a.entries@.len(),
        a.git_request is None,
    ensures
        a.mode == Mode::Files && a.scope == Scope::Worktree && section == Section::Changes ==> (
        after.git_request matches Some(GitAsk::Stage(p)) && deep(p@) == seq![a.entries@[k].path@]),
        a.mode == Mode::Files && a.scope == Scope::Worktree && section == Section::Staged && (
        a.entries@[k].stage == StageState::Staged || a.entries@[k].stage == StageState::Partial) ==> (
        after.git_request matches Some(GitAsk::Unstage(p)) && deep(p@) == seq![a.entries@[k].path@]),
        section == Section::Conflicts || a.mode != Mode::Files || a.scope != Scope::Worktree
            ==> after.git_request is None,
        after.entries == a.entries && after.cursor == a.cursor && after.modal == a.modal,
{
    reveal(App::tells);
}

/// The unstage key unstages what of the selection is staged, and nothing else.
pub proof fn law_the_unstage_key_takes_what_is_staged(a: App, after: App, k: int, section: Section)
    requires
        a.unstage_asked(after),
        a.at_file() == Some((k, section)),
        0 <= k < a.entries@.len(),
        a.git_request is None,
    ensures
        a.mode == Mode::Files && a.scope == Scope::Worktree && section != Section::Conflicts && (
        a.entries@[k].stage == StageState::Staged || a.entries@[k].stage == StageState::Partial) ==> (
        after.git_request matches Some(GitAsk::Unstage(p)) && deep(p@) == seq![a.entries@[k].path@]),
        section == Section::Conflicts || a.mode != Mode::Files || a.scope != Scope::Worktree || (
        a.entries@[k].stage != StageState::Staged && a.entries@[k].stage != StageState::Partial)
            ==> after.git_request is None,
{
    reveal(App::tells);
}

/// Nothing is discarded before the user has agreed: the discard key asks, and
/// what was asked about is discarded on yes, and on nothing else.
pub proof fn law_a_discard_has_to_be_agreed_to(a: App, asked: App, after: App, code: KeyCode)
    requires
        a.discard_asked(asked),
        a.git_request is None,
        a.modal is None,
        asked.modal_key(after, code),
    ensures
        asked.git_request is None,
        after.git_request is Some ==> {
            &&& code == KeyCode::Char('y') || code == KeyCode::Enter
            &&& after.git_request matches Some(GitAsk::Discard(p))
            &&& deep(p@) == a.target_paths(false)
            &&& after.modal is None
        },
        asked.modal is Some && (code == KeyCode::Char('y') || code == KeyCode::Enter)
            ==> after.git_request is Some,
        asked.modal is Some && (code == KeyCode::Char('n') || code == KeyCode::Esc) ==> after.modal is None
            && after.git_request is None,
        a.section_at() == Some(Section::Conflicts) || a.section_at() is None ==> asked.modal is None,
        a.section_at() == Some(Section::Changes) || a.section_at() == Some(Section::Staged)
            ==> asked.modal is Some,
{
    reveal(App::tells);
    reveal(App::modal_key);
}

/// A selected file stands for itself; where nothing is selected, nothing is done.
pub proof fn law_a_file_stands_for_itself(a: App, k: int, section: Section)
    ensures
        a.at_file() == Some((k, section)) ==> a.target_paths(false) == seq![a.entries@[k].path@],
        a.at_file() is None && a.at_dir() is None ==> a.target_paths(false).len() == 0
            && a.target_paths(true).len() == 0 && a.section_at() is None,
{
}

// ---- views ----------------------------------------------------------------------------

/// The way back leads from a commit's files to the history, from there to the
/// files, and from there out; nowhere else does it end the program.
pub proof fn law_the_way_back_goes_step_by_step(a: App, after: App)
    requires
        a.backed_out(after),
    ensures
        a.mode == Mode::CommitFiles ==> after.mode == Mode::Log && after.commit is None
            && after.should_quit == a.should_quit,
        a.mode == Mode::Log ==> after.mode == Mode::Files && after.need == Some(
            Need::Entries { rebuild: true },
        ) && after.should_quit == a.should_quit,
        a.mode == Mode::Notes ==> after.should_quit == a.should_quit && (a.notes_return matches Some(m)
            ==> after.mode == m) && (a.notes_return is None ==> after.mode == Mode::Files),
        a.mode == Mode::Files ==> after.should_quit && after.mode == Mode::Files,
{
    reveal(App::tells);
}

/// The comparison goes from the working tree to the branch and back, and the files
/// are loaded anew; the branch's base is looked for first, where it is not known.
pub proof fn law_the_comparison_goes_back_and_forth(a: App, after: App)
    requires
        a.mode == Mode::Files,
        a.scope_toggled(after),
    ensures
        a.scope == Scope::Branch ==> after.scope == Scope::Worktree && after.need == Some(
            Need::Entries { rebuild: false },
        ),
        a.scope == Scope::Worktree && a.merge_base is Some ==> after.scope == Scope::Branch && after.need
            == Some(Need::Entries { rebuild: false }),
        a.scope == Scope::Worktree && a.merge_base is None ==> after.scope == Scope::Worktree && after.need
            == Some(Need::ScopeBase),
        after.entries == a.entries && after.cursor == a.cursor,
{
    reveal(App::tells);
}

/// The history opens on the branch's own commits where the branch is compared, and
/// else on all; the notes can be left for where they were called from.
pub proof fn law_views_remember_where_they_came_from(a: App, log: App, notes: App)
    requires
        a.mode == Mode::Files,
        a.notes@.len() > 0,
        a.log_toggled(log),
        a.notes_toggled(notes),
    ensures
        log.need == Some(Need::Log),
        log.log_branch_only <==> a.scope == Scope::Branch && a.merge_base is Some,
        notes.mode == Mode::Notes,
        notes.notes_return == Some(Mode::Files),
{
}

/// While an editor runs, leaving and committing first ask it to close, and no other
/// file is opened here.
pub proof fn law_a_running_editor_is_asked_first(a: App, after: App, ev: Key, hosted: bool)
    requires
        a.busy is Some,
        a.modal is None,
        a.keyed(after, ev, hosted),
    ensures
        a.keys.action_of(ev) == Some(Action::Quit) && a.mode == Mode::Files ==> after.editor_close_request
            == Some(EditorThen::QuitView) && after.should_quit == a.should_quit,
        a.keys.action_of(ev) == Some(Action::Commit) ==> after.editor_close_request == Some(
            EditorThen::Commit,
        ),
        a.keys.action_of(ev) == Some(Action::Edit) ==> after == a,
        a.keys.action_of(ev) is None ==> after == a,
{
    reveal(App::keyed);
}

/// An open question takes every key: help closes on any; a question stays until it
/// is answered.
pub proof fn law_a_question_takes_every_key(a: App, after: App, ev: Key, hosted: bool)
    requires
        a.modal is Some,
        a.keyed(after, ev, hosted),
    ensures
        a.modal == Some(Modal::Help) ==> after.modal is None && after == (App { modal: None, ..a }),
        (a.modal matches Some(Modal::EditorClose { next })) ==> ({
            let next = a.modal->0->next;
            &&& (ev.code == KeyCode::Char('y') || ev.code == KeyCode::Enter) ==> after.close_request == Some(
                (true, next),
            ) && after.modal is None
            &&& ev.code == KeyCode::Char('n') ==> after.close_request == Some((false, next))
                && after.modal is None
            &&& ev.code == KeyCode::Esc ==> after.close_request == a.close_request && after.modal is None
        }),
        after.cursor == a.cursor && after.mode == a.mode && after.should_quit == a.should_quit,
{
    reveal(App::keyed);
    reveal(App::modal_key);
}

/// To the top goes the cursor to the first row that can hold it, and to the bottom to
/// the last; all rows beyond are headings.
pub proof fn law_top_and_bottom_are_the_outermost_rows(a: App, up: App, down: App, hosted: bool, k: int)
    requires
        a.acts(up, Action::Top, hosted),
        a.acts(down, Action::Bottom, hosted),
        0 <= k < a.rows@.len(),
        deep(a.rows@)[k].can_hold_cursor(),
    ensures
        up.cursor <= k <= down.cursor,
        down.cursor < a.rows@.len(),
        deep(a.rows@)[up.cursor as int].can_hold_cursor(),
        deep(a.rows@)[down.cursor as int].can_hold_cursor(),
        up.entries == a.entries && down.entries == a.entries,
{
    reveal(App::acts);
    let rows = deep(a.rows@);
    assert(rows.len() == a.rows@.len());
    assert(a.rows.len() == a.rows@.len());
    lemma_first_free(rows, 0, k);
    lemma_last_free(rows, rows.len() as int, k);
}

proof fn lemma_first_free(rows: Seq<ListRowV>, i: int, k: int)
    requires
        0 <= i <= k < rows.len(),
        rows[k].can_hold_cursor(),
    ensures
        i <= free_from(rows, i) <= k,
        rows[free_from(rows, i)].can_hold_cursor(),
    decreases k - i,
{
    if i < k && !rows[i].can_hold_cursor() {
        lemma_first_free(rows, i + 1, k);
    }
}

proof fn lemma_last_free(rows: Seq<ListRowV>, i: int, k: int)
    requires
        0 <= k < i <= rows.len(),
        rows[k].can_hold_cursor(),
    ensures
        k <= free_before(rows, i) < i,
        rows[free_before(rows, i)].can_hold_cursor(),
    decreases i,
{
    if k < i - 1 && !rows[i - 1].can_hold_cursor() {
        lemma_last_free(rows, i - 1, k);
    }
}

/// The other keys of the list: help is shown, a note is deleted in the list of notes
/// alone, notes are sent where there are some, and a refresh loads the files.
pub proof fn law_the_lists_keys_do_as_they_say(a: App, after: App, hosted: bool)
    ensures
        a.acts(after, Action::Help, hosted) ==> after.modal == Some(Modal::Help),
        a.acts(after, Action::Delete, hosted) && a.mode == Mode::Notes ==> (a.at_note() matches Some(k)
            ==> after.delete_note_request == Some(a.notes@[k].id)),
        a.acts(after, Action::Delete, hosted) && a.mode != Mode::Notes ==> after == a,
        a.acts(after, Action::SendNotes, hosted) && a.notes@.len() > 0 ==> after.send_notes_request,
        a.acts(after, Action::SendNotes, hosted) && a.notes@.len() == 0 ==> after.send_notes_request
            == a.send_notes_request && after.status_msg is Some,
        a.acts(after, Action::Refresh, hosted) && a.mode == Mode::Files ==> after.need == Some(
            Need::Entries { rebuild: false },
        ),
        a.acts(after, Action::Annotate, hosted) ==> a.note_asked(after),
        a.acts(after, Action::Quit, hosted) ==> a.backed_out(after),
        a.acts(after, Action::Stage, hosted) ==> a.stage_asked(after),
        a.acts(after, Action::Unstage, hosted) ==> a.unstage_asked(after),
        a.acts(after, Action::Discard, hosted) ==> a.discard_asked(after),
        a.acts(after, Action::ToggleScope, hosted) ==> a.scope_toggled(after),
        a.acts(after, Action::Log, hosted) ==> a.log_toggled(after),
        a.acts(after, Action::NotesView, hosted) ==> a.notes_toggled(after),
{
    reveal(App::acts);
    reveal(App::tells);
}

/// Going back from a commit's files leaves none of them behind.
pub proof fn law_a_left_commit_leaves_no_files(a: App, after: App)
    requires
        a.backed_out(after),
        a.mode == Mode::CommitFiles,
    ensures
        after.entries@.len() == 0,
        after.commit is None,
        after.mode == Mode::Log,
{
}

/// In the history the same key turns the filter on and off, once the base is known that
/// it needs.
pub proof fn law_the_history_is_filtered_back_and_forth(a: App, after: App)
    requires
        a.mode == Mode::Log,
        a.scope_toggled(after),
    ensures
        a.log_branch_only || a.merge_base is Some ==> after.log_branch_only != a.log_branch_only
            && after.need == Some(Need::Filtered),
        !a.log_branch_only && a.merge_base is None ==> after.log_branch_only == a.log_branch_only
            && after.need == Some(Need::LogBase),
        after.mode == Mode::Log && after.commits == a.commits,
{
}

/// Where the diff pane is missing, the list says how to get it back, or that it needs
/// its host.
pub proof fn law_a_missing_pane_is_explained()
    ensures
        App::no_preview_words(true) == "preview not connected — press r to reconnect"@,
        App::no_preview_words(false) == "editing needs the preview pane (run inside herdr)"@,
{
}

} // verus!
