//! The rows of the list pane: files as a tree under their sections, commits,
//! and notes under their files.

use vstd::prelude::*;

use crate::git::{ChangeKind, EntryV, FileEntry, StageState};
use crate::ipc::NoteMeta;
use crate::path::{is_same_file, same_file, steps, steps_of};
use crate::text::{concat2, concat3, deep, group_deep, same, split};
use crate::thread::ThreadState;

verus! {

/// What the list is showing.
#[derive(Debug, Clone, Copy, PartialEq, Eq, Structural)]
pub enum Mode {
    /// The changes of the working tree or of the branch.
    Files,
    /// The history.
    Log,
    /// The files of one commit.
    CommitFiles,
    /// The review notes.
    Notes,
}

/// The part of the list that a file stands in.
#[derive(Debug, Clone, Copy, PartialEq, Eq, Structural)]
pub enum Section {
    /// Files that a merge left in conflict.
    Conflicts,
    Staged,
    Changes,
    /// No section: the files of a branch or a commit.
    Flat,
}

impl Section {
    /// Whether a file of this section is shown as it is staged.
    pub fn cached(self) -> (r: bool)
        ensures
            r == (self == Section::Staged),
    {
        self == Section::Staged
    }
}

/// A row of the list.
#[derive(Debug)]
pub enum ListRow {
    Header { title: &'static str, count: usize },
    Dir { depth: usize, name: String, path: String, section: Section, collapsed: bool },
    Entry { idx: usize, depth: usize, section: Section },
    Commit(usize),
    NoteFile { name: String, count: usize },
    Note(usize),
}

#[verifier::ext_equal]
pub enum ListRowV {
    Header { title: Seq<char>, count: int },
    Dir { depth: int, name: Seq<char>, path: Seq<char>, section: Section, collapsed: bool },
    Entry { idx: int, depth: int, section: Section },
    Commit(int),
    NoteFile { name: Seq<char>, count: int },
    Note(int),
}

impl DeepView for ListRow {
    type V = ListRowV;

    open spec fn deep_view(&self) -> ListRowV {
        match *self {
            ListRow::Header { title, count } => ListRowV::Header { title: title@, count: count as int },
            ListRow::Dir { depth, name, path, section, collapsed } => ListRowV::Dir {
                depth: depth as int,
                name: name@,
                path: path@,
                section,
                collapsed,
            },
            ListRow::Entry { idx, depth, section } => ListRowV::Entry {
                idx: idx as int,
                depth: depth as int,
                section,
            },
            ListRow::Commit(i) => ListRowV::Commit(i as int),
            ListRow::NoteFile { name, count } => ListRowV::NoteFile {
                name: name@,
                count: count as int,
            },
            ListRow::Note(i) => ListRowV::Note(i as int),
        }
    }
}

impl ListRowV {
    /// Whether the cursor can rest on the row.
    pub open spec fn can_hold_cursor(self) -> bool {
        !(self is Header) && !(self is NoteFile)
    }

    /// How many lines the row is drawn in.
    pub open spec fn lines(self) -> int {
        if self is Note {
            2
        } else {
            1
        }
    }
}

impl ListRow {
    pub fn selectable(&self) -> (r: bool)
        ensures
            r == self.deep_view().can_hold_cursor(),
    {
        match self {
            ListRow::Header { .. } => false,
            ListRow::NoteFile { .. } => false,
            _ => true,
        }
    }

    pub fn height(&self) -> (r: usize)
        ensures
            r == self.deep_view().lines(),
    {
        match self {
            ListRow::Note(_) => 2,
            _ => 1,
        }
    }
}

// ---- the tree of files ----------------------------------------------------------------

/// A file on its way into the tree: its place in the list, and the steps of its
/// path below the directory at hand.
pub struct Item {
    pub idx: usize,
    pub steps: Vec<String>,
}

#[verifier::ext_equal]
pub struct ItemV {
    pub idx: int,
    pub steps: Seq<Seq<char>>,
}

impl DeepView for Item {
    type V = ItemV;

    open spec fn deep_view(&self) -> ItemV {
        ItemV { idx: self.idx as int, steps: deep(self.steps@) }
    }
}

/// The steps of all items.
pub open spec fn weight(items: Seq<ItemV>) -> nat
    decreases items.len(),
{
    if items.len() == 0 {
        0
    } else {
        weight(items.drop_last()) + items.last().steps.len()
    }
}

/// Whether an item is below the directory `name`.
pub open spec fn is_below(x: ItemV, name: Seq<char>) -> bool {
    x.steps.len() > 1 && x.steps[0] == name
}

/// The items below a directory, as seen from it.
pub open spec fn below(items: Seq<ItemV>, name: Seq<char>) -> Seq<ItemV>
    decreases items.len(),
{
    if items.len() == 0 {
        Seq::empty()
    } else {
        let s = below(items.drop_last(), name);
        if is_below(items.last(), name) {
            s.push(ItemV { idx: items.last().idx, steps: items.last().steps.skip(1) })
        } else {
            s
        }
    }
}

/// The items that are not below a directory.
pub open spec fn beside(items: Seq<ItemV>, name: Seq<char>) -> Seq<ItemV>
    decreases items.len(),
{
    if items.len() == 0 {
        Seq::empty()
    } else {
        let s = beside(items.drop_last(), name);
        if is_below(items.last(), name) {
            s
        } else {
            s.push(items.last())
        }
    }
}

/// Whether a directory holds one directory and nothing else.
pub open spec fn holds_one_dir(items: Seq<ItemV>) -> bool {
    items.len() > 0 && forall|i: int|
        0 <= i < items.len() ==> is_below(#[trigger] items[i], items[0].steps[0])
}

/// A directory drawn in one row with those that it is alone with.
pub open spec fn folded_dir(name: Seq<char>, items: Seq<ItemV>) -> (Seq<char>, Seq<ItemV>)
    decreases weight(items),
    via folded_dir_ends
{
    if holds_one_dir(items) {
        folded_dir(name + items[0].steps[0] + "/"@, below(items, items[0].steps[0]))
    } else {
        (name, items)
    }
}

#[via_fn]
proof fn folded_dir_ends(name: Seq<char>, items: Seq<ItemV>) {
    if holds_one_dir(items) {
        assert(is_below(items[0], items[0].steps[0]));
        lemma_below_lighter(items, items[0].steps[0], 0);
    }
}

/// The rows of files and directories, in the order in which the files come. A
/// collapsed directory shows nothing below it.
pub open spec fn tree(items: Seq<ItemV>, depth: int, prefix: Seq<char>, section: Section, closed: Seq<(Section, Seq<char>)>) -> Seq<ListRowV>
    decreases weight(items), items.len(),
    via tree_ends
{
    if items.len() == 0 {
        Seq::empty()
    } else if items[0].steps.len() <= 1 {
        seq![ListRowV::Entry { idx: items[0].idx, depth, section }] + tree(
            items.skip(1),
            depth,
            prefix,
            section,
            closed,
        )
    } else {
        let d = items[0].steps[0];
        let (name, inner) = folded_dir(d + "/"@, below(items, d));
        let path = prefix + name;
        let shut = closed.contains((section, path));
        seq![ListRowV::Dir { depth, name, path, section, collapsed: shut }] + (if shut {
            Seq::empty()
        } else {
            tree(inner, depth + 1, path, section, closed)
        }) + tree(beside(items, d), depth, prefix, section, closed)
    }
}

#[via_fn]
proof fn tree_ends(items: Seq<ItemV>, depth: int, prefix: Seq<char>, section: Section, closed: Seq<(Section, Seq<char>)>) {
    if items.len() > 0 {
        lemma_weight_skip(items);
        if items[0].steps.len() > 1 {
            let d = items[0].steps[0];
            lemma_below_lighter(items, d, 0);
            lemma_folded_lighter(d + "/"@, below(items, d));
            lemma_beside_lighter(items, d, 0);
        }
    }
}

pub(crate) proof fn lemma_weight_skip(items: Seq<ItemV>)
    requires
        items.len() > 0,
    ensures
        weight(items.skip(1)) + items[0].steps.len() == weight(items),
    decreases items.len(),
{
    if items.len() > 1 {
        lemma_weight_skip(items.drop_last());
        assert(items.skip(1).drop_last() =~= items.drop_last().skip(1));
    } else {
        assert(items.skip(1) =~= Seq::<ItemV>::empty());
        assert(items.drop_last() =~= Seq::<ItemV>::empty());
    }
}

pub(crate) proof fn lemma_below_lighter(items: Seq<ItemV>, name: Seq<char>, k: int)
    requires
        0 <= k < items.len(),
        is_below(items[k], name),
    ensures
        weight(below(items, name)) < weight(items),
        below(items, name).len() > 0,
    decreases items.len(),
{
    lemma_below_no_heavier(items.drop_last(), name);
    let s = below(items.drop_last(), name);
    if is_below(items.last(), name) {
        let x = ItemV { idx: items.last().idx, steps: items.last().steps.skip(1) };
        assert(s.push(x).drop_last() =~= s);
    } else {
        lemma_below_lighter(items.drop_last(), name, k);
    }
}

proof fn lemma_below_no_heavier(items: Seq<ItemV>, name: Seq<char>)
    ensures
        weight(below(items, name)) <= weight(items),
    decreases items.len(),
{
    if items.len() > 0 {
        lemma_below_no_heavier(items.drop_last(), name);
        let s = below(items.drop_last(), name);
        if is_below(items.last(), name) {
            let x = ItemV { idx: items.last().idx, steps: items.last().steps.skip(1) };
            assert(s.push(x).drop_last() =~= s);
        }
    }
}

pub(crate) proof fn lemma_beside_lighter(items: Seq<ItemV>, name: Seq<char>, k: int)
    requires
        0 <= k < items.len(),
        is_below(items[k], name),
    ensures
        weight(beside(items, name)) < weight(items),
    decreases items.len(),
{
    lemma_beside_no_heavier(items.drop_last(), name);
    let s = beside(items.drop_last(), name);
    if !is_below(items.last(), name) {
        lemma_beside_lighter(items.drop_last(), name, k);
        assert(s.push(items.last()).drop_last() =~= s);
    }
}

proof fn lemma_beside_no_heavier(items: Seq<ItemV>, name: Seq<char>)
    ensures
        weight(beside(items, name)) <= weight(items),
    decreases items.len(),
{
    if items.len() > 0 {
        lemma_beside_no_heavier(items.drop_last(), name);
        let s = beside(items.drop_last(), name);
        if !is_below(items.last(), name) {
            assert(s.push(items.last()).drop_last() =~= s);
        }
    }
}

pub(crate) proof fn lemma_folded_lighter(name: Seq<char>, items: Seq<ItemV>)
    ensures
        weight(folded_dir(name, items).1) <= weight(items),
    decreases weight(items),
{
    if holds_one_dir(items) {
        assert(is_below(items[0], items[0].steps[0]));
        lemma_below_lighter(items, items[0].steps[0], 0);
        lemma_folded_lighter(
            name + items[0].steps[0] + "/"@,
            below(items, items[0].steps[0]),
        );
    }
}

/// No item has more steps than `cap`.
pub open spec fn no_deeper(items: Seq<ItemV>, cap: int) -> bool {
    forall|i: int| 0 <= i < items.len() ==> (#[trigger] items[i]).steps.len() <= cap
}

proof fn lemma_below_shallower(items: Seq<ItemV>, name: Seq<char>, cap: int)
    requires
        no_deeper(items, cap),
    ensures
        no_deeper(below(items, name), cap - 1),
    decreases items.len(),
{
    if items.len() > 0 {
        let init = items.drop_last();
        assert(no_deeper(init, cap)) by {
            assert forall|i: int| 0 <= i < init.len() implies (#[trigger] init[i]).steps.len() <= cap by {
                assert(items[i].steps.len() <= cap);
            }
        }
        lemma_below_shallower(init, name, cap);
        assert(items[items.len() - 1].steps.len() <= cap);
        let s = below(init, name);
        let r = below(items, name);
        assert forall|i: int| 0 <= i < r.len() implies (#[trigger] r[i]).steps.len() <= cap - 1 by {
            if i < s.len() {
                assert(r[i] == s[i]);
                assert(s[i].steps.len() <= cap - 1);
            }
        }
    }
}

proof fn lemma_beside_no_deeper(items: Seq<ItemV>, name: Seq<char>, cap: int)
    requires
        no_deeper(items, cap),
    ensures
        no_deeper(beside(items, name), cap),
    decreases items.len(),
{
    if items.len() > 0 {
        let init = items.drop_last();
        assert(no_deeper(init, cap)) by {
            assert forall|i: int| 0 <= i < init.len() implies (#[trigger] init[i]).steps.len() <= cap by {
                assert(items[i].steps.len() <= cap);
            }
        }
        lemma_beside_no_deeper(init, name, cap);
        assert(items[items.len() - 1].steps.len() <= cap);
        let s = beside(init, name);
        let r = beside(items, name);
        assert forall|i: int| 0 <= i < r.len() implies (#[trigger] r[i]).steps.len() <= cap by {
            if i < s.len() {
                assert(r[i] == s[i]);
                assert(s[i].steps.len() <= cap);
            }
        }
    }
}

fn tail_of(v: &Vec<String>) -> (r: Vec<String>)
    requires
        v@.len() > 0,
    ensures
        deep(r@) == deep(v@).skip(1),
{
    broadcast use group_deep;

    let mut out: Vec<String> = Vec::new();
    let ghost all = deep(v@);
    let mut i: usize = 1;
    while i < v.len()
        invariant
            1 <= i <= v@.len(),
            all == deep(v@),
            deep(out@) == all.subrange(1, i as int),
        decreases v@.len() - i,
    {
        out.push(v[i].as_str().to_owned());
        assert(all.subrange(1, i + 1) =~= all.subrange(1, i as int).push(all[i as int]));
        i += 1;
    }
    assert(all.subrange(1, i as int) =~= all.skip(1));
    out
}

fn is_below_dir(x: &Item, name: &str) -> (r: bool)
    ensures
        r == is_below(x.deep_view(), name@),
{
    if x.steps.len() > 1 {
        assert(deep(x.steps@)[0] == x.steps@[0]@);
        same(x.steps[0].as_str(), name)
    } else {
        false
    }
}

fn copy_item(x: &Item) -> (r: Item)
    ensures
        r.deep_view() == x.deep_view(),
{
    Item { idx: x.idx, steps: crate::keymap::copy_strings(&x.steps) }
}

/// The items below a directory, and the others.
fn part(items: &Vec<Item>, name: &str) -> (r: (Vec<Item>, Vec<Item>))
    ensures
        deep(r.0@) == below(deep(items@), name@),
        deep(r.1@) == beside(deep(items@), name@),
{
    broadcast use group_deep;

    let ghost all = deep(items@);
    let mut inside: Vec<Item> = Vec::new();
    let mut outside: Vec<Item> = Vec::new();
    let mut i: usize = 0;
    while i < items.len()
        invariant
            i <= items@.len(),
            all == deep(items@),
            deep(inside@) == below(all.take(i as int), name@),
            deep(outside@) == beside(all.take(i as int), name@),
        decreases items@.len() - i,
    {
        assert(all.take(i + 1).drop_last() =~= all.take(i as int));
        assert(all[i as int] == items@[i as int].deep_view());
        if is_below_dir(&items[i], name) {
            inside.push(Item { idx: items[i].idx, steps: tail_of(&items[i].steps) });
        } else {
            outside.push(copy_item(&items[i]));
        }
        i += 1;
    }
    (inside, outside)
}

/// The one directory that a directory holds, if it holds nothing else.
fn lone_dir(items: &Vec<Item>) -> (r: Option<String>)
    ensures
        match r {
            Some(d) => holds_one_dir(deep(items@)) && d@ == deep(items@)[0].steps[0],
            None => !holds_one_dir(deep(items@)),
        },
{
    let ghost all = deep(items@);
    if items.len() == 0 || items[0].steps.len() < 2 {
        proof {
            if items@.len() > 0 {
                assert(all[0] == items@[0].deep_view());
                assert(!is_below(all[0], all[0].steps[0]));
            }
        }
        return None;
    }
    assert(all[0] == items@[0].deep_view());
    assert(all[0].steps[0] == items@[0].steps@[0]@);
    let d: String = items[0].steps[0].as_str().to_owned();
    let mut i: usize = 0;
    while i < items.len()
        invariant
            i <= items@.len(),
            all == deep(items@),
            items@.len() > 0,
            d@ == all[0].steps[0],
            forall|k: int| 0 <= k < i ==> is_below(#[trigger] all[k], all[0].steps[0]),
        decreases items@.len() - i,
    {
        assert(all[i as int] == items@[i as int].deep_view());
        if !is_below_dir(&items[i], d.as_str()) {
            assert(!is_below(all[i as int], all[0].steps[0]));
            return None;
        }
        i += 1;
    }
    Some(d)
}

fn fold_dir(name: String, items: Vec<Item>, Ghost(cap): Ghost<int>) -> (r: (String, Vec<Item>))
    requires
        no_deeper(deep(items@), cap),
    ensures
        (r.0@, deep(r.1@)) == folded_dir(name@, deep(items@)),
        no_deeper(deep(r.1@), cap),
    decreases weight(deep(items@)),
{
    match lone_dir(&items) {
        None => (name, items),
        Some(d) => {
            let ghost all = deep(items@);
            let (inside, _) = part(&items, d.as_str());
            let longer: String = concat3(name.as_str(), d.as_str(), "/");
            proof {
                assert(is_below(all[0], all[0].steps[0]));
                lemma_below_lighter(all, all[0].steps[0], 0);
                lemma_below_shallower(all, all[0].steps[0], cap);
                lemma_looser(below(all, d@), cap - 1, cap);
            }
            fold_dir(longer, inside, Ghost(cap))
        },
    }
}

proof fn lemma_looser(items: Seq<ItemV>, a: int, b: int)
    requires
        no_deeper(items, a),
        a <= b,
    ensures
        no_deeper(items, b),
{
    assert forall|i: int| 0 <= i < items.len() implies (#[trigger] items[i]).steps.len() <= b by {
        assert(items[i].steps.len() <= a);
    }
}

pub open spec fn closed_models(v: Seq<(Section, String)>) -> Seq<(Section, Seq<char>)> {
    Seq::new(v.len(), |i: int| (v[i].0, v[i].1@))
}

pub(crate) fn is_closed(closed: &Vec<(Section, String)>, section: Section, path: &str) -> (r: bool)
    ensures
        r == closed_models(closed@).contains((section, path@)),
{
    let ghost all = closed_models(closed@);
    let mut i: usize = 0;
    while i < closed.len()
        invariant
            i <= closed@.len(),
            all == closed_models(closed@),
            forall|k: int| 0 <= k < i ==> all[k] != (section, path@),
        decreases closed@.len() - i,
    {
        if closed[i].0 == section && same(closed[i].1.as_str(), path) {
            assert(all[i as int] == (section, path@));
            return true;
        }
        assert(all[i as int] != (section, path@));
        i += 1;
    }
    assert forall|k: int| 0 <= k < all.len() implies all[k] != (section, path@) by {}
    false
}

fn tree_rows(items: &Vec<Item>, depth: usize, prefix: &str, section: Section, closed: &Vec<(Section, String)>, Ghost(cap): Ghost<int>) -> (r: Vec<ListRow>)
    requires
        no_deeper(deep(items@), cap),
        depth + cap <= usize::MAX,
        cap >= 0,
    ensures
        deep(r@) == tree(deep(items@), depth as int, prefix@, section, closed_models(closed@)),
    decreases weight(deep(items@)), items@.len(),
{
    broadcast use group_deep;

    let ghost all = deep(items@);
    let ghost cm = closed_models(closed@);
    let mut out: Vec<ListRow> = Vec::new();
    if items.len() == 0 {
        return out;
    }
    assert(all[0] == items@[0].deep_view());
    proof {
        lemma_weight_skip(all);
    }
    if items[0].steps.len() <= 1 {
        out.push(ListRow::Entry { idx: items[0].idx, depth, section });
        let mut rest: Vec<Item> = Vec::new();
        let mut i: usize = 1;
        while i < items.len()
            invariant
                1 <= i <= items@.len(),
                all == deep(items@),
                deep(rest@) == all.subrange(1, i as int),
            decreases items@.len() - i,
        {
            rest.push(copy_item(&items[i]));
            assert(all.subrange(1, i + 1) =~= all.subrange(1, i as int).push(all[i as int]));
            i += 1;
        }
        proof {
            assert(all.subrange(1, i as int) =~= all.skip(1));
            assert(deep(rest@).len() == rest@.len());
            assert(no_deeper(all.skip(1), cap)) by {
                assert forall|k: int| 0 <= k < all.skip(1).len() implies (
                #[trigger] all.skip(1)[k]).steps.len() <= cap by {
                    assert(all[k + 1].steps.len() <= cap);
                }
            }
        }
        let mut more: Vec<ListRow> = tree_rows(&rest, depth, prefix, section, closed, Ghost(cap));
        let ghost mv = deep(more@);
        out.append(&mut more);
        assert(deep(out@) =~= seq![ListRowV::Entry { idx: all[0].idx, depth: depth as int, section }] + mv);
        return out;
    }
    assert(all[0].steps[0] == items@[0].steps@[0]@);
    let d: String = items[0].steps[0].as_str().to_owned();
    let (inside, outside) = part(items, d.as_str());
    proof {
        assert(is_below(all[0], d@));
        assert(all[0].steps.len() <= cap);
        lemma_below_lighter(all, d@, 0);
        lemma_beside_lighter(all, d@, 0);
        lemma_below_shallower(all, d@, cap);
        lemma_beside_no_deeper(all, d@, cap);
        lemma_folded_lighter(d@ + "/"@, below(all, d@));
    }
    let (name, inner) = fold_dir(concat2(d.as_str(), "/"), inside, Ghost(cap - 1));
    let path: String = concat2(prefix, name.as_str());
    let shut: bool = is_closed(closed, section, path.as_str());
    let ghost nv = name@;
    let ghost pv = path@;
    let mut within: Vec<ListRow> = if shut {
        Vec::new()
    } else {
        tree_rows(&inner, depth + 1, path.as_str(), section, closed, Ghost(cap - 1))
    };
    let ghost wv = deep(within@);
    let mut more: Vec<ListRow> = tree_rows(&outside, depth, prefix, section, closed, Ghost(cap));
    let ghost mv = deep(more@);
    out.push(ListRow::Dir { depth, name, path, section, collapsed: shut });
    out.append(&mut within);
    out.append(&mut more);
    proof {
        let dir = ListRowV::Dir {
            depth: depth as int,
            name: nv,
            path: pv,
            section,
            collapsed: shut,
        };
        assert(deep(out@) =~= seq![dir] + wv + mv);
    }
    out
}

// ---- sections -----------------------------------------------------------------------------

/// Whether a file stands in a section.
pub open spec fn stands_in(e: EntryV, section: Section) -> bool {
    match section {
        Section::Conflicts => e.kind == ChangeKind::Conflicted,
        Section::Staged => e.kind != ChangeKind::Conflicted && holds_staged(e),
        Section::Changes => e.kind != ChangeKind::Conflicted && e.stage != StageState::Staged,
        Section::Flat => true,
    }
}

/// Whether some of a file's changes are staged.
pub open spec fn holds_staged(e: EntryV) -> bool {
    e.stage == StageState::Staged || e.stage == StageState::Partial
}

pub(crate) fn in_section(e: &FileEntry, section: Section) -> (r: bool)
    ensures
        r == stands_in(e.deep_view(), section),
{
    match section {
        Section::Conflicts => e.kind == ChangeKind::Conflicted,
        Section::Staged => e.kind != ChangeKind::Conflicted && (e.stage == StageState::Staged
            || e.stage == StageState::Partial),
        Section::Changes => e.kind != ChangeKind::Conflicted && e.stage != StageState::Staged,
        Section::Flat => true,
    }
}

pub open spec fn items_in(entries: Seq<EntryV>, section: Section) -> Seq<ItemV>
    decreases entries.len(),
{
    if entries.len() == 0 {
        Seq::empty()
    } else {
        let s = items_in(entries.drop_last(), section);
        if stands_in(entries.last(), section) {
            s.push(ItemV { idx: entries.len() - 1, steps: steps(split(entries.last().path, '/')) })
        } else {
            s
        }
    }
}

/// A section: its heading and its files; nothing where it has none.
pub open spec fn section_rows(entries: Seq<EntryV>, section: Section, title: Seq<char>, closed: Seq<(Section, Seq<char>)>) -> Seq<ListRowV> {
    let items = items_in(entries, section);
    if items.len() == 0 {
        Seq::empty()
    } else {
        seq![ListRowV::Header { title, count: items.len() as int }] + tree(
            items,
            0,
            Seq::empty(),
            section,
            closed,
        )
    }
}

/// The rows of changed files. Changes of the working tree come in sections:
/// conflicts, what is staged, and what is not. A file that is staged in part
/// stands in both of the latter.
pub open spec fn file_rows(entries: Seq<EntryV>, grouped: bool, closed: Seq<(Section, Seq<char>)>) -> Seq<ListRowV> {
    if grouped {
        section_rows(entries, Section::Conflicts, "merge conflicts"@, closed) + section_rows(
            entries,
            Section::Staged,
            "staged changes"@,
            closed,
        ) + section_rows(entries, Section::Changes, "changes"@, closed)
    } else {
        tree(items_in(entries, Section::Flat), 0, Seq::empty(), Section::Flat, closed)
    }
}

fn items_of(entries: &Vec<FileEntry>, section: Section) -> (r: Vec<Item>)
    ensures
        deep(r@) == items_in(deep(entries@), section),
        no_deeper(deep(r@), usize::MAX as int),
{
    broadcast use group_deep;

    let ghost all = deep(entries@);
    let mut out: Vec<Item> = Vec::new();
    let mut i: usize = 0;
    while i < entries.len()
        invariant
            i <= entries@.len(),
            all == deep(entries@),
            deep(out@) == items_in(all.take(i as int), section),
            no_deeper(deep(out@), usize::MAX as int),
        decreases entries@.len() - i,
    {
        assert(all.take(i + 1).drop_last() =~= all.take(i as int));
        assert(all[i as int] == entries@[i as int].deep_view());
        if in_section(&entries[i], section) {
            let ss: Vec<String> = steps_of(entries[i].path.as_str());
            let n: usize = ss.len();
            let ghost before = deep(out@);
            let x = Item { idx: i, steps: ss };
            assert(x.deep_view().steps.len() <= usize::MAX);
            out.push(x);
            assert(no_deeper(deep(out@), usize::MAX as int)) by {
                assert forall|k: int| 0 <= k < deep(out@).len() implies (
                #[trigger] deep(out@)[k]).steps.len() <= usize::MAX by {
                    if k < before.len() {
                        assert(deep(out@)[k] == before[k]);
                        assert(before[k].steps.len() <= usize::MAX);
                    }
                }
            }
        }
        i += 1;
    }
    out
}

fn rows_of_section(entries: &Vec<FileEntry>, section: Section, title: &'static str, closed: &Vec<(Section, String)>) -> (r: Vec<ListRow>)
    ensures
        deep(r@) == section_rows(deep(entries@), section, title@, closed_models(closed@)),
{
    broadcast use group_deep;

    let items: Vec<Item> = items_of(entries, section);
    let mut out: Vec<ListRow> = Vec::new();
    assert(deep(items@).len() == items@.len());
    if items.len() == 0 {
        return out;
    }
    out.push(ListRow::Header { title, count: items.len() });
    let empty: String = String::new();
    let mut more: Vec<ListRow> = tree_rows(
        &items,
        0,
        empty.as_str(),
        section,
        closed,
        Ghost(usize::MAX as int),
    );
    let ghost mv = deep(more@);
    out.append(&mut more);
    proof {
        assert(empty@ =~= Seq::<char>::empty());
        assert(deep(out@) =~= seq![ListRowV::Header { title: title@, count: items@.len() as int }] + mv);
    }
    out
}

pub fn rows_of_files(entries: &Vec<FileEntry>, grouped: bool, closed: &Vec<(Section, String)>) -> (r: Vec<ListRow>)
    ensures
        deep(r@) == file_rows(deep(entries@), grouped, closed_models(closed@)),
{
    broadcast use group_deep;

    if grouped {
        let mut out: Vec<ListRow> = rows_of_section(
            entries,
            Section::Conflicts,
            "merge conflicts",
            closed,
        );
        let mut staged: Vec<ListRow> = rows_of_section(
            entries,
            Section::Staged,
            "staged changes",
            closed,
        );
        let mut changes: Vec<ListRow> = rows_of_section(entries, Section::Changes, "changes", closed);
        out.append(&mut staged);
        out.append(&mut changes);
        out
    } else {
        let items: Vec<Item> = items_of(entries, Section::Flat);
        let empty: String = String::new();
        assert(empty@ =~= Seq::<char>::empty());
        tree_rows(&items, 0, empty.as_str(), Section::Flat, closed, Ghost(usize::MAX as int))
    }
}

// ---- commits and notes ----------------------------------------------------------------------

pub open spec fn commit_rows(n: nat) -> Seq<ListRowV> {
    Seq::new(n, |i: int| ListRowV::Commit(i))
}

pub fn rows_of_commits(n: usize) -> (r: Vec<ListRow>)
    ensures
        deep(r@) == commit_rows(n as nat),
{
    broadcast use group_deep;

    let mut out: Vec<ListRow> = Vec::new();
    let mut i: usize = 0;
    assert(commit_rows(0) =~= Seq::<ListRowV>::empty());
    while i < n
        invariant
            i <= n,
            deep(out@) == commit_rows(i as nat),
        decreases n - i,
    {
        out.push(ListRow::Commit(i));
        assert(commit_rows((i + 1) as nat) =~= commit_rows(i as nat).push(ListRowV::Commit(i as int)));
        i += 1;
    }
    out
}

/// The files of notes. A conversation that was closed is not listed: it has none.
pub open spec fn note_files(notes: Seq<NoteMeta>) -> Seq<Option<Seq<char>>> {
    Seq::new(
        notes.len(),
        |i: int|
            if notes[i].state == ThreadState::Resolved {
                None
            } else {
                Some(notes[i].file@)
            },
    )
}

/// Whether a file comes up among these.
pub open spec fn has_file(files: Seq<Option<Seq<char>>>, file: Seq<char>) -> bool {
    exists|k: int| 0 <= k < files.len() && (#[trigger] files[k]) is Some && same_file(files[k]->0, file)
}

/// The notes of a file.
pub open spec fn notes_on(files: Seq<Option<Seq<char>>>, file: Seq<char>) -> Seq<ListRowV>
    decreases files.len(),
{
    if files.len() == 0 {
        Seq::empty()
    } else {
        let s = notes_on(files.drop_last(), file);
        if files.last() is Some && same_file(files.last()->0, file) {
            s.push(ListRowV::Note(files.len() - 1))
        } else {
            s
        }
    }
}

/// Notes under one heading for each file, in the order in which the files first
/// come up.
pub open spec fn note_rows(files: Seq<Option<Seq<char>>>, upto: nat) -> Seq<ListRowV>
    decreases upto,
{
    if upto == 0 {
        Seq::empty()
    } else {
        let s = note_rows(files, (upto - 1) as nat);
        match files[upto - 1] {
            Some(file) if !has_file(files.take(upto - 1), file) => {
                let mine = notes_on(files, file);
                s + seq![ListRowV::NoteFile { name: file, count: mine.len() as int }] + mine
            },
            _ => s,
        }
    }
}

fn rows_on(notes: &Vec<NoteMeta>, file: &str) -> (r: Vec<ListRow>)
    ensures
        deep(r@) == notes_on(note_files(notes@), file@),
{
    broadcast use group_deep;

    let ghost files = note_files(notes@);
    let mut out: Vec<ListRow> = Vec::new();
    let mut i: usize = 0;
    while i < notes.len()
        invariant
            i <= notes@.len(),
            files == note_files(notes@),
            deep(out@) == notes_on(files.take(i as int), file@),
        decreases notes@.len() - i,
    {
        assert(files.take(i + 1).drop_last() =~= files.take(i as int));
        if notes[i].state != ThreadState::Resolved && is_same_file(notes[i].file.as_str(), file) {
            out.push(ListRow::Note(i));
        }
        i += 1;
    }
    out
}

pub fn rows_of_notes(notes: &Vec<NoteMeta>) -> (r: Vec<ListRow>)
    ensures
        deep(r@) == note_rows(note_files(notes@), notes@.len()),
{
    broadcast use group_deep;

    let ghost files = note_files(notes@);
    let mut out: Vec<ListRow> = Vec::new();
    let mut i: usize = 0;
    while i < notes.len()
        invariant
            i <= notes@.len(),
            files == note_files(notes@),
            deep(out@) == note_rows(files, i as nat),
        decreases notes@.len() - i,
    {
        let mut seen: bool = notes[i].state == ThreadState::Resolved;
        let mut k: usize = 0;
        while k < i
            invariant
                k <= i < notes@.len(),
                files == note_files(notes@),
                seen == (files[i as int] is None || has_file(files.take(k as int), files[i as int]->0)),
            decreases i - k,
        {
            proof {
                let (t, u) = (files.take(k as int), files.take(k + 1));
                let file = files[i as int]->0;
                assert(u =~= t.push(files[k as int]));
                if has_file(t, file) {
                    let m = choose|m: int|
                        0 <= m < t.len() && (#[trigger] t[m]) is Some && same_file(t[m]->0, file);
                    assert(u[m] == t[m]);
                }
                if files[k as int] is Some && same_file(files[k as int]->0, file) {
                    assert(u[k as int] == files[k as int]);
                } else if has_file(u, file) {
                    let m = choose|m: int|
                        0 <= m < u.len() && (#[trigger] u[m]) is Some && same_file(u[m]->0, file);
                    assert(t[m] == u[m]);
                }
            }
            if notes[k].state != ThreadState::Resolved && is_same_file(
                notes[k].file.as_str(),
                notes[i].file.as_str(),
            ) {
                seen = true;
            }
            k += 1;
        }
        if !seen {
            let mut mine: Vec<ListRow> = rows_on(notes, notes[i].file.as_str());
            let ghost mv = deep(mine@);
            assert(mv.len() == mine@.len());
            let ghost before = deep(out@);
            out.push(ListRow::NoteFile { name: notes[i].file.as_str().to_owned(), count: mine.len() });
            out.append(&mut mine);
            assert(deep(out@) =~= before + seq![
                ListRowV::NoteFile { name: files[i as int]->0, count: mv.len() as int },
            ] + mv);
        }
        i += 1;
    }
    out
}

// ---- laws -------------------------------------------------------------------------------------

/// With nothing collapsed, every file of a list has a row.
pub proof fn law_every_file_has_a_row(items: Seq<ItemV>, depth: int, prefix: Seq<char>, section: Section, k: int)
    requires
        0 <= k < items.len(),
    ensures
        exists|r: int|
            0 <= r < tree(items, depth, prefix, section, Seq::empty()).len() && (#[trigger] tree(
                items,
                depth,
                prefix,
                section,
                Seq::empty(),
            )[r]) is Entry && tree(items, depth, prefix, section, Seq::empty())[r]->Entry_idx
                == items[k].idx && tree(items, depth, prefix, section, Seq::empty())[r]->Entry_section
                == section,
    decreases weight(items), items.len(),
{
    let none = Seq::<(Section, Seq<char>)>::empty();
    let all = tree(items, depth, prefix, section, none);
    let want = items[k].idx;
    lemma_weight_skip(items);
    if items[0].steps.len() <= 1 {
        let rest = tree(items.skip(1), depth, prefix, section, none);
        if k == 0 {
            assert(all[0] is Entry && all[0]->Entry_idx == want && all[0]->Entry_section == section);
        } else {
            law_every_file_has_a_row(items.skip(1), depth, prefix, section, k - 1);
            assert(items.skip(1)[k - 1] == items[k]);
            let r = choose|r: int|
                0 <= r < rest.len() && (#[trigger] rest[r]) is Entry && rest[r]->Entry_idx == want
                    && rest[r]->Entry_section == section;
            assert(all[r + 1] == rest[r]);
        }
    } else {
        let d = items[0].steps[0];
        let (name, inner) = folded_dir(d + "/"@, below(items, d));
        let path = prefix + name;
        assert(!none.contains((section, path)));
        let within = tree(inner, depth + 1, path, section, none);
        let rest = tree(beside(items, d), depth, prefix, section, none);
        lemma_below_lighter(items, d, 0);
        lemma_folded_lighter(d + "/"@, below(items, d));
        lemma_beside_lighter(items, d, 0);
        if is_below(items[k], d) {
            let j = lemma_below_has(items, d, k);
            let m = lemma_folded_has(d + "/"@, below(items, d), j);
            law_every_file_has_a_row(inner, depth + 1, path, section, m);
            let r = choose|r: int|
                0 <= r < within.len() && (#[trigger] within[r]) is Entry && within[r]->Entry_idx
                    == want && within[r]->Entry_section == section;
            assert(all[r + 1] == within[r]);
        } else {
            let j = lemma_beside_has(items, d, k);
            law_every_file_has_a_row(beside(items, d), depth, prefix, section, j);
            let r = choose|r: int|
                0 <= r < rest.len() && (#[trigger] rest[r]) is Entry && rest[r]->Entry_idx == want
                    && rest[r]->Entry_section == section;
            assert(all[r + 1 + within.len()] == rest[r]);
        }
    }
}

proof fn lemma_below_has(items: Seq<ItemV>, name: Seq<char>, k: int) -> (j: int)
    requires
        0 <= k < items.len(),
        is_below(items[k], name),
    ensures
        0 <= j < below(items, name).len(),
        below(items, name)[j].idx == items[k].idx,
    decreases items.len(),
{
    if k == items.len() - 1 {
        below(items, name).len() - 1
    } else {
        lemma_below_has(items.drop_last(), name, k)
    }
}

proof fn lemma_beside_has(items: Seq<ItemV>, name: Seq<char>, k: int) -> (j: int)
    requires
        0 <= k < items.len(),
        !is_below(items[k], name),
    ensures
        0 <= j < beside(items, name).len(),
        beside(items, name)[j].idx == items[k].idx,
    decreases items.len(),
{
    if k == items.len() - 1 {
        beside(items, name).len() - 1
    } else {
        lemma_beside_has(items.drop_last(), name, k)
    }
}

proof fn lemma_folded_has(name: Seq<char>, items: Seq<ItemV>, k: int) -> (j: int)
    requires
        0 <= k < items.len(),
    ensures
        0 <= j < folded_dir(name, items).1.len(),
        folded_dir(name, items).1[j].idx == items[k].idx,
    decreases weight(items),
{
    if holds_one_dir(items) {
        let d = items[0].steps[0];
        assert(is_below(items[k], d));
        assert(is_below(items[0], d));
        lemma_below_lighter(items, d, 0);
        let m = lemma_below_has(items, d, k);
        lemma_folded_has(name + d + "/"@, below(items, d), m)
    } else {
        k
    }
}

proof fn lemma_item_of(entries: Seq<EntryV>, section: Section, k: int) -> (j: int)
    requires
        0 <= k < entries.len(),
        stands_in(entries[k], section),
    ensures
        0 <= j < items_in(entries, section).len(),
        items_in(entries, section)[j].idx == k,
    decreases entries.len(),
{
    let init = entries.drop_last();
    if k == entries.len() - 1 {
        items_in(init, section).len() as int
    } else {
        lemma_item_of(init, section, k)
    }
}

/// Whether a file has a row in a section.
pub open spec fn has_row(rows: Seq<ListRowV>, idx: int, section: Section) -> bool {
    exists|r: int|
        0 <= r < rows.len() && (#[trigger] rows[r]) is Entry && rows[r]->Entry_idx == idx
            && rows[r]->Entry_section == section
}

proof fn lemma_section_row(entries: Seq<EntryV>, section: Section, title: Seq<char>, k: int)
    requires
        0 <= k < entries.len(),
        stands_in(entries[k], section),
    ensures
        has_row(section_rows(entries, section, title, Seq::empty()), k, section),
{
    let none = Seq::<(Section, Seq<char>)>::empty();
    let rows = section_rows(entries, section, title, none);
    let j = lemma_item_of(entries, section, k);
    let items = items_in(entries, section);
    law_every_file_has_a_row(items, 0, Seq::empty(), section, j);
    let t = tree(items, 0, Seq::empty(), section, none);
    let r = choose|r: int|
        0 <= r < t.len() && (#[trigger] t[r]) is Entry && t[r]->Entry_idx == k && t[r]->Entry_section
            == section;
    assert(rows[r + 1] == t[r]);
}

/// With every directory open, a changed file of the working tree has a row in
/// each section that it stands in: one that is staged in part has two, one in
/// conflict has one of its own.
pub proof fn law_a_file_stands_in_its_sections(entries: Seq<EntryV>, section: Section, k: int)
    requires
        0 <= k < entries.len(),
        section != Section::Flat,
        stands_in(entries[k], section),
    ensures
        has_row(file_rows(entries, true, Seq::empty()), k, section),
        section == Section::Conflicts <==> entries[k].kind == ChangeKind::Conflicted,
{
    let none = Seq::<(Section, Seq<char>)>::empty();
    let conflicts = section_rows(entries, Section::Conflicts, "merge conflicts"@, none);
    let staged = section_rows(entries, Section::Staged, "staged changes"@, none);
    let changes = section_rows(entries, Section::Changes, "changes"@, none);
    let rows = file_rows(entries, true, none);
    assert(rows == conflicts + staged + changes);
    let (own, at) = match section {
        Section::Conflicts => (conflicts, 0int),
        Section::Staged => (staged, conflicts.len() as int),
        _ => (changes, (conflicts.len() + staged.len()) as int),
    };
    let title = match section {
        Section::Conflicts => "merge conflicts"@,
        Section::Staged => "staged changes"@,
        _ => "changes"@,
    };
    lemma_section_row(entries, section, title, k);
    let r = choose|r: int|
        0 <= r < own.len() && (#[trigger] own[r]) is Entry && own[r]->Entry_idx == k
            && own[r]->Entry_section == section;
    assert(rows[at + r] == own[r]);
}

/// Every changed file stands in a section.
pub proof fn law_no_file_is_left_out(e: EntryV)
    ensures
        stands_in(e, Section::Conflicts) || stands_in(e, Section::Staged) || stands_in(
            e,
            Section::Changes,
        ),
{
}

proof fn lemma_note_on(files: Seq<Option<Seq<char>>>, file: Seq<char>, k: int) -> (j: int)
    requires
        0 <= k < files.len(),
        files[k] is Some,
        same_file(files[k]->0, file),
    ensures
        0 <= j < notes_on(files, file).len(),
        notes_on(files, file)[j] == ListRowV::Note(k),
    decreases files.len(),
{
    let init = files.drop_last();
    if k == files.len() - 1 {
        notes_on(init, file).len() as int
    } else {
        lemma_note_on(init, file, k)
    }
}

/// Every note of a conversation that is not closed has a row, below the heading of
/// its file.
pub proof fn law_every_note_has_a_row(files: Seq<Option<Seq<char>>>, upto: nat, k: int)
    requires
        0 <= k < files.len(),
        upto <= files.len(),
        files[k] is Some,
        has_file(files.take(upto as int), files[k]->0),
    ensures
        exists|h: int, r: int|
            #![trigger note_rows(files, upto)[h], note_rows(files, upto)[r]]
            0 <= h < r < note_rows(files, upto).len() && note_rows(files, upto)[r] == ListRowV::Note(k)
                && note_rows(files, upto)[h] is NoteFile && same_file(
                note_rows(files, upto)[h]->NoteFile_name,
                files[k]->0,
            ),
    decreases upto,
{
    let all = note_rows(files, upto);
    let init = note_rows(files, (upto - 1) as nat);
    let before = files.take(upto - 1);
    let file = files[k]->0;
    if has_file(before, file) {
        law_every_note_has_a_row(files, (upto - 1) as nat, k);
        let (h, r) = choose|h: int, r: int|
            #![trigger init[h], init[r]]
            0 <= h < r < init.len() && init[r] == ListRowV::Note(k) && init[h] is NoteFile
                && same_file(init[h]->NoteFile_name, file);
        assert(all[h] == init[h]);
        assert(all[r] == init[r]);
    } else {
        let t = files.take(upto as int);
        let i = choose|i: int|
            0 <= i < t.len() && (#[trigger] t[i]) is Some && same_file(t[i]->0, file);
        if i < upto - 1 {
            assert(before[i] == t[i]);
        }
        let head = files[upto - 1]->0;
        assert(same_file(head, file));
        assert forall|m: int| 0 <= m < before.len() && (#[trigger] before[m]) is Some implies !same_file(
            before[m]->0,
            head,
        ) by {
            assert(!same_file(before[m]->0, file));
        }
        let j = lemma_note_on(files, head, k);
        let h = init.len() as int;
        assert(all[h] is NoteFile && all[h]->NoteFile_name == head);
        assert(all[h + 1 + j] == notes_on(files, head)[j]);
    }
}

proof fn lemma_notes_on_open(files: Seq<Option<Seq<char>>>, file: Seq<char>, r: int)
    requires
        0 <= r < notes_on(files, file).len(),
    ensures
        notes_on(files, file)[r] matches ListRowV::Note(k) && 0 <= k < files.len() && files[k] is Some
            && same_file(files[k]->0, file),
    decreases files.len(),
{
    let init = files.drop_last();
    if r < notes_on(init, file).len() {
        lemma_notes_on_open(init, file, r);
    }
}

/// A closed conversation has no row among the notes.
pub proof fn law_a_closed_note_has_no_row(files: Seq<Option<Seq<char>>>, upto: nat, r: int)
    requires
        upto <= files.len(),
        0 <= r < note_rows(files, upto).len(),
    ensures
        note_rows(files, upto)[r] matches ListRowV::Note(k) ==> 0 <= k < files.len() && files[k] is Some,
    decreases upto,
{
    if upto > 0 {
        let all = note_rows(files, upto);
        let init = note_rows(files, (upto - 1) as nat);
        if r < init.len() {
            law_a_closed_note_has_no_row(files, (upto - 1) as nat, r);
            assert(all[r] == init[r]);
        } else if r > init.len() {
            let file = files[upto - 1]->0;
            assert(all[r] == notes_on(files, file)[r - init.len() - 1]);
            lemma_notes_on_open(files, file, r - init.len() - 1);
        }
    }
}

} // verus!
