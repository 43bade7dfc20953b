//! Changed-line counts per path.

use vstd::prelude::*;

use crate::git::{ChangeKind, EntryV, FileEntry};
use crate::git_parse::{untracked_stats, whole_file_stat, Stat};
use crate::path::{is_same_file, same_file};
use crate::text::{deep, group_deep};

verus! {

/// The counts of one path over a list of reports: summed, and `None` as soon
/// as one of them is binary. The outer `None` is a path without a report.
pub open spec fn sum_for(list: Seq<Stat>, path: Seq<char>) -> Option<Option<(int, int)>>
    decreases list.len(),
{
    if list.len() == 0 {
        None
    } else {
        let init = sum_for(list.drop_last(), path);
        if !same_file(list.last().0, path) {
            init
        } else {
            Some(merged(if init is Some { init->0 } else { Some((0int, 0int)) }, list.last().1))
        }
    }
}

/// Two counts together; a binary one makes the sum binary.
pub open spec fn merged(a: Option<(int, int)>, b: Option<(u32, u32)>) -> Option<(int, int)> {
    match (a, b) {
        (Some(x), Some(y)) => Some((x.0 + y.0, x.1 + y.1)),
        _ => None,
    }
}

pub open spec fn countable(c: Option<Option<(int, int)>>) -> bool {
    match c {
        Some(Some(x)) => x.0 <= u32::MAX && x.1 <= u32::MAX,
        _ => true,
    }
}

/// Whether every sum along the list can be counted.
pub open spec fn all_countable(list: Seq<Stat>) -> bool
    decreases list.len(),
{
    list.len() == 0 || (all_countable(list.drop_last()) && countable(sum_for(list, list.last().0)))
}

/// A table of counts, one row per path.
#[derive(Debug)]
pub struct Stats {
    pub rows: Vec<(String, Option<(u32, u32)>)>,
}

/// The position of a path's row, or -1.
pub open spec fn row_of(rows: Seq<Stat>, path: Seq<char>) -> int
    decreases rows.len(),
{
    if rows.len() == 0 {
        -1
    } else if same_file(rows.last().0, path) {
        rows.len() - 1
    } else {
        row_of(rows.drop_last(), path)
    }
}

pub open spec fn widen(c: Option<(u32, u32)>) -> Option<(int, int)> {
    match c {
        Some(x) => Some((x.0 as int, x.1 as int)),
        None => None,
    }
}

proof fn lemma_row_of(rows: Seq<Stat>, path: Seq<char>)
    ensures
        -1 <= row_of(rows, path) < rows.len(),
        row_of(rows, path) >= 0 ==> same_file(rows[row_of(rows, path)].0, path),
        row_of(rows, path) == -1 ==> forall|i: int|
            0 <= i < rows.len() ==> !same_file((#[trigger] rows[i]).0, path),
    decreases rows.len(),
{
    if rows.len() > 0 && !same_file(rows.last().0, path) {
        let init = rows.drop_last();
        lemma_row_of(init, path);
        if row_of(rows, path) == -1 {
            assert forall|i: int| 0 <= i < rows.len() implies !same_file(
                (#[trigger] rows[i]).0,
                path,
            ) by {
                if i < init.len() {
                    assert(init[i] == rows[i]);
                }
            }
        }
    }
}

proof fn lemma_row_of_same(rows: Seq<Stat>, p: Seq<char>, q: Seq<char>)
    requires
        same_file(p, q),
    ensures
        row_of(rows, p) == row_of(rows, q),
    decreases rows.len(),
{
    if rows.len() > 0 {
        lemma_row_of_same(rows.drop_last(), p, q);
    }
}

impl Stats {
    pub open spec fn model(self) -> Seq<Stat> {
        deep(self.rows@)
    }

    /// One row per path.
    pub open spec fn wf(self) -> bool {
        forall|i: int, j: int|
            0 <= i < j < self.model().len() ==> !same_file(self.model()[i].0, self.model()[j].0)
    }

    /// What the table says of a path.
    pub open spec fn at(self, path: Seq<char>) -> Option<Option<(int, int)>> {
        let k = row_of(self.model(), path);
        if k >= 0 {
            Some(widen(self.model()[k].1))
        } else {
            None
        }
    }

    /// The table holds the sums of this list.
    pub open spec fn sums(self, list: Seq<Stat>) -> bool {
        &&& self.wf()
        &&& forall|p: Seq<char>| #[trigger] self.at(p) == sum_for(list, p)
    }

    pub fn new() -> (r: Stats)
        ensures
            r.sums(Seq::empty()),
    {
        broadcast use group_deep;

        Stats { rows: Vec::new() }
    }

    fn find(&self, path: &str) -> (r: Option<usize>)
        requires
            self.wf(),
        ensures
            match r {
                Some(k) => k == row_of(self.model(), path@) && k < self.rows@.len(),
                None => row_of(self.model(), path@) == -1,
            },
    {
        let ghost m = self.model();
        proof {
            lemma_row_of(m, path@);
        }
        let mut i: usize = 0;
        while i < self.rows.len()
            invariant
                i <= self.rows@.len(),
                m == self.model(),
                self.wf(),
                -1 <= row_of(m, path@) < m.len(),
                row_of(m, path@) >= 0 ==> same_file(m[row_of(m, path@)].0, path@),
                forall|j: int| 0 <= j < i ==> !same_file((#[trigger] m[j]).0, path@),
                row_of(m, path@) == -1 ==> forall|j: int|
                    0 <= j < m.len() ==> !same_file((#[trigger] m[j]).0, path@),
            decreases self.rows@.len() - i,
        {
            assert(m[i as int].0 == self.rows@[i as int].0@);
            if is_same_file(self.rows[i].0.as_str(), path) {
                proof {
                    let k = row_of(m, path@);
                    if k < i {
                        assert(same_file(m[k].0, path@));
                    } else if k > i {
                        assert(!same_file(m[i as int].0, m[k].0));
                    }
                }
                return Some(i);
            }
            i += 1;
        }
        None
    }

    /// What the table says of a path.
    pub fn get(&self, path: &str) -> (r: Option<Option<(u32, u32)>>)
        requires
            self.wf(),
        ensures
            match r {
                Some(c) => self.at(path@) == Some(widen(c)),
                None => self.at(path@) is None,
            },
    {
        match self.find(path) {
            Some(k) => {
                assert(self.model()[k as int] == self.rows@[k as int].deep_view());
                Some(self.rows[k].1)
            },
            None => None,
        }
    }
}

proof fn lemma_rows_distinct(rows: Seq<Stat>, path: Seq<char>, i: int)
    requires
        forall|i: int, j: int| 0 <= i < j < rows.len() ==> !same_file(rows[i].0, rows[j].0),
        0 <= i < rows.len(),
        same_file(rows[i].0, path),
    ensures
        row_of(rows, path) == i,
{
    lemma_row_of(rows, path);
    let k = row_of(rows, path);
    if k < i {
        assert(!same_file(rows[k].0, rows[i].0));
    } else if k > i {
        assert(!same_file(rows[i].0, rows[k].0));
    }
}

/// Add one count to a path's row.
pub fn merge_stat(stats: &mut Stats, path: String, stat: Option<(u32, u32)>)
    requires
        old(stats).wf(),
        countable(
            Some(
                merged(
                    if old(stats).at(path@) is Some {
                        old(stats).at(path@)->0
                    } else {
                        Some((0int, 0int))
                    },
                    stat,
                ),
            ),
        ),
    ensures
        final(stats).wf(),
        final(stats).at(path@) == Some(
            merged(
                if old(stats).at(path@) is Some {
                    old(stats).at(path@)->0
                } else {
                    Some((0int, 0int))
                },
                stat,
            ),
        ),
        forall|p: Seq<char>|
            !same_file(p, path@) ==> #[trigger] final(stats).at(p) == old(stats).at(p),
        forall|p: Seq<char>|
            same_file(p, path@) ==> #[trigger] final(stats).at(p) == final(stats).at(path@),
{
    broadcast use group_deep;

    let ghost before = stats.model();
    let ghost named = path@;
    match stats.find(path.as_str()) {
        Some(k) => {
            assert(before[k as int] == stats.rows@[k as int].deep_view());
            let old_stat: Option<(u32, u32)> = stats.rows[k].1;
            let new_stat: Option<(u32, u32)> = match (old_stat, stat) {
                (Some(x), Some(y)) => Some((x.0 + y.0, x.1 + y.1)),
                _ => None,
            };
            stats.rows[k].1 = new_stat;
            proof {
                lemma_row_of(before, path@);
                let after = stats.model();
                assert(after =~= before.update(k as int, (before[k as int].0, new_stat)));
                assert forall|i: int, j: int| 0 <= i < j < after.len() implies !same_file(
                    after[i].0,
                    after[j].0,
                ) by {
                    assert(!same_file(before[i].0, before[j].0));
                }
                lemma_rows_distinct(after, path@, k as int);
                assert forall|p: Seq<char>| !same_file(p, path@) implies #[trigger] stats.at(p) == old(
                    stats,
                ).at(p) by {
                    lemma_row_of(before, p);
                    lemma_row_of(after, p);
                    let a = row_of(before, p);
                    if a >= 0 {
                        assert(same_file(after[a].0, p));
                        lemma_rows_distinct(after, p, a);
                    } else {
                        let b = row_of(after, p);
                        if b >= 0 {
                            assert(same_file(before[b].0, p));
                        }
                    }
                }
            }
        },
        None => {
            let ghost p0 = path@;
            stats.rows.push((path, stat));
            proof {
                let after = stats.model();
                assert(after =~= before.push((p0, stat)));
                lemma_row_of(before, p0);
                assert forall|i: int, j: int| 0 <= i < j < after.len() implies !same_file(
                    after[i].0,
                    after[j].0,
                ) by {
                    if j < before.len() {
                        assert(!same_file(before[i].0, before[j].0));
                    } else {
                        assert(!same_file(before[i].0, p0));
                    }
                }
                assert(after.drop_last() =~= before);
                assert(merged(Some((0int, 0int)), stat) == widen(stat));
                assert forall|p: Seq<char>| !same_file(p, p0) implies #[trigger] stats.at(p) == old(
                    stats,
                ).at(p) by {
                    lemma_row_of(before, p);
                    assert(row_of(after, p) == row_of(before, p));
                }
            }
        },
    }
    assert forall|p: Seq<char>| same_file(p, named) implies #[trigger] stats.at(p) == stats.at(named) by {
        lemma_row_of_same(stats.model(), p, named);
    }
}

/// Add every count of a list. `false`, and the table as it came, where a sum
/// could not be counted.
pub(crate) fn merge_list(stats: &mut Stats, list: &Vec<(String, Option<(u32, u32)>)>, Ghost(prior): Ghost<Seq<Stat>>) -> (r: bool)
    requires
        old(stats).sums(prior),
        all_countable(prior),
    ensures
        r == all_countable(prior + deep(list@)),
        r ==> final(stats).sums(prior + deep(list@)),
{
    broadcast use group_deep;

    let ghost all = deep(list@);
    let mut i: usize = 0;
    assert(prior + all.take(0) =~= prior);
    while i < list.len()
        invariant
            i <= list@.len(),
            all == deep(list@),
            stats.sums(prior + all.take(i as int)),
            all_countable(prior + all.take(i as int)),
        decreases list@.len() - i,
    {
        let ghost seen = prior + all.take(i as int);
        let ghost next = prior + all.take(i + 1);
        assert(next.drop_last() =~= seen);
        assert(next.last() == all[i as int]);
        assert(all[i as int] == list@[i as int].deep_view());
        let path: &String = &list[i].0;
        let stat: Option<(u32, u32)> = list[i].1;
        let prev: Option<Option<(u32, u32)>> = stats.get(path.as_str());
        assert(stats.at(path@) == sum_for(seen, path@));
        let fits: bool = match (prev, stat) {
            (Some(Some(x)), Some(y)) => y.0 <= u32::MAX - x.0 && y.1 <= u32::MAX - x.1,
            _ => true,
        };
        assert(sum_for(next, path@) == Some(
            merged(
                if sum_for(seen, path@) is Some {
                    sum_for(seen, path@)->0
                } else {
                    Some((0int, 0int))
                },
                stat,
            ),
        ));
        assert(fits == countable(sum_for(next, path@)));
        if !fits {
            proof {
                assert((prior + all).take(prior.len() + i + 1) =~= next);
                lemma_uncountable(prior + all, (prior.len() + i + 1) as int);
            }
            return false;
        }
        let ghost before = *stats;
        merge_stat(stats, path.clone(), stat);
        assert forall|p: Seq<char>| #[trigger] stats.at(p) == sum_for(next, p) by {
            assert(before.at(p) == sum_for(seen, p));
            if same_file(p, path@) {
                lemma_row_of_same(before.model(), p, path@);
            }
        }
        i += 1;
    }
    true
}

proof fn lemma_uncountable(list: Seq<Stat>, k: int)
    requires
        0 < k <= list.len(),
        !all_countable(list.take(k)),
    ensures
        !all_countable(list),
    decreases list.len(),
{
    if k < list.len() {
        assert(list.drop_last().take(k) =~= list.take(k));
        lemma_uncountable(list.drop_last(), k);
    } else {
        assert(list.take(k) =~= list);
    }
}

/// A list that can be counted has no part in front that cannot.
pub proof fn lemma_countable_prefix(a: Seq<Stat>, b: Seq<Stat>)
    requires
        !all_countable(a),
    ensures
        !all_countable(a + b),
{
    if a.len() > 0 {
        assert((a + b).take(a.len() as int) =~= a);
        lemma_uncountable(a + b, a.len() as int);
    }
}

// ---- counts on entries ---------------------------------------------------------------

/// An entry with its counts, where there is a report of its path.
pub open spec fn counted(e: EntryV, list: Seq<Stat>) -> EntryV {
    match sum_for(list, e.path) {
        Some(Some(x)) => EntryV { adds: Some(x.0 as u32), dels: Some(x.1 as u32), ..e },
        Some(None) => EntryV { adds: None, dels: None, ..e },
        None => e,
    }
}

pub open spec fn all_counted(s: Seq<EntryV>, list: Seq<Stat>) -> Seq<EntryV> {
    Seq::new(s.len(), |i: int| counted(s[i], list))
}

/// How many of the entries are untracked.
pub open spec fn untracked_count(s: Seq<EntryV>) -> nat
    decreases s.len(),
{
    if s.len() == 0 {
        0
    } else {
        untracked_count(s.drop_last()) + if s.last().kind == ChangeKind::Untracked {
            1nat
        } else {
            0nat
        }
    }
}

/// The entries of the worktree with their counts. An untracked file counts by
/// its content: the n-th untracked entry by the n-th of `contents`.
pub open spec fn worktree_counted(s: Seq<EntryV>, list: Seq<Stat>, contents: Seq<Option<Seq<u8>>>) -> Seq<EntryV> {
    Seq::new(
        s.len(),
        |i: int|
            if s[i].kind == ChangeKind::Untracked {
                let k = untracked_count(s.take(i)) as int;
                let stat = whole_file_stat(
                    if k < contents.len() {
                        contents[k]
                    } else {
                        None
                    },
                );
                EntryV { adds: stat.0, dels: stat.1, ..s[i] }
            } else {
                counted(s[i], list)
            },
    )
}

fn count_entry(e: &mut FileEntry, stats: &Stats, Ghost(list): Ghost<Seq<Stat>>)
    requires
        stats.sums(list),
    ensures
        final(e).deep_view() == counted(old(e).deep_view(), list),
{
    assert(stats.at(e.path@) == sum_for(list, e.path@));
    match stats.get(e.path.as_str()) {
        Some(Some(x)) => {
            e.adds = Some(x.0);
            e.dels = Some(x.1);
        },
        Some(None) => {
            e.adds = None;
            e.dels = None;
        },
        None => {},
    }
}

/// Give every entry its counts.
pub(crate) fn count_entries(entries: &mut Vec<FileEntry>, stats: &Stats, Ghost(list): Ghost<Seq<Stat>>)
    requires
        stats.sums(list),
    ensures
        deep(final(entries)@) == all_counted(deep(old(entries)@), list),
{
    let ghost before = deep(entries@);
    let n: usize = entries.len();
    let mut i: usize = 0;
    while i < n
        invariant
            i <= n == entries@.len() == before.len(),
            stats.sums(list),
            forall|k: int| 0 <= k < i ==> #[trigger] entries@[k].deep_view() == counted(before[k], list),
            forall|k: int| i <= k < n ==> #[trigger] entries@[k].deep_view() == before[k],
        decreases n - i,
    {
        assert(entries@[i as int].deep_view() == before[i as int]);
        count_entry(&mut entries[i], stats, Ghost(list));
        i += 1;
    }
    assert(deep(entries@) =~= all_counted(before, list));
}

/// The bytes of untracked files, as far as they could be read.
pub open spec fn contents_model(contents: Seq<Option<Vec<u8>>>) -> Seq<Option<Seq<u8>>> {
    Seq::new(
        contents.len(),
        |i: int|
            match contents[i] {
                Some(b) => Some(b@),
                None => None,
            },
    )
}

/// Give every entry of the worktree its counts.
pub(crate) fn count_worktree(entries: &mut Vec<FileEntry>, stats: &Stats, contents: &Vec<Option<Vec<u8>>>, Ghost(list): Ghost<Seq<Stat>>)
    requires
        stats.sums(list),
    ensures
        deep(final(entries)@) == worktree_counted(
            deep(old(entries)@),
            list,
            contents_model(contents@),
        ),
{
    broadcast use group_deep;

    let ghost before = deep(entries@);
    let ghost bytes = contents_model(contents@);
    let n: usize = entries.len();
    let mut k: usize = 0;
    let mut i: usize = 0;
    while i < n
        invariant
            i <= n == entries@.len() == before.len(),
            stats.sums(list),
            bytes == contents_model(contents@),
            k == untracked_count(before.take(i as int)),
            k <= i,
            forall|j: int|
                0 <= j < i ==> #[trigger] entries@[j].deep_view() == worktree_counted(
                    before,
                    list,
                    bytes,
                )[j],
            forall|j: int| i <= j < n ==> #[trigger] entries@[j].deep_view() == before[j],
        decreases n - i,
    {
        assert(entries@[i as int].deep_view() == before[i as int]);
        assert(before.take(i + 1).drop_last() =~= before.take(i as int));
        if entries[i].kind == ChangeKind::Untracked {
            let content: Option<&[u8]> = if k < contents.len() {
                assert(bytes[k as int] == match contents@[k as int] {
                    Some(b) => Some(b@),
                    None => None,
                });
                match &contents[k] {
                    Some(b) => Some(b.as_slice()),
                    None => None,
                }
            } else {
                None
            };
            let stat: (Option<u32>, Option<u32>) = untracked_stats(content);
            entries[i].adds = stat.0;
            entries[i].dels = stat.1;
            k += 1;
        } else {
            count_entry(&mut entries[i], stats, Ghost(list));
        }
        i += 1;
    }
    assert(deep(entries@) =~= worktree_counted(before, list, bytes));
}

/// A file that is not text on either side has no count, whatever the other side
/// adds.
pub proof fn law_binary_is_contagious(a: Option<(int, int)>, b: Option<(u32, u32)>)
    ensures
        merged(a, b) is None <==> a is None || b is None,
{
}

} // verus!
