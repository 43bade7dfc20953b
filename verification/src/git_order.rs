//! The order in which changed files are listed.

use vstd::prelude::*;
use vstd::seq_lib::*;

use crate::git::{ChangeKind, EntryV, FileEntry};
use crate::path::{steps, steps_of};
use crate::text::{chars_of, deep, group_deep, same, split, split_of};

verus! {

/// Lexicographic order; a proper prefix comes first.
pub open spec fn lex_less(a: Seq<int>, b: Seq<int>) -> bool
    decreases a.len(),
{
    if b.len() == 0 {
        false
    } else if a.len() == 0 {
        true
    } else if a[0] != b[0] {
        a[0] < b[0]
    } else {
        lex_less(a.skip(1), b.skip(1))
    }
}

pub proof fn lemma_lex_irreflexive(a: Seq<int>)
    ensures
        !lex_less(a, a),
    decreases a.len(),
{
    if a.len() > 0 {
        lemma_lex_irreflexive(a.skip(1));
    }
}

pub proof fn lemma_lex_transitive(a: Seq<int>, b: Seq<int>, c: Seq<int>)
    requires
        !lex_less(b, a),
        !lex_less(c, b),
    ensures
        !lex_less(c, a),
    decreases a.len() + b.len() + c.len(),
{
    if a.len() > 0 && b.len() > 0 && c.len() > 0 && a[0] == b[0] && b[0] == c[0] {
        lemma_lex_transitive(a.skip(1), b.skip(1), c.skip(1));
    }
}

pub proof fn lemma_lex_total(a: Seq<int>, b: Seq<int>)
    ensures
        lex_less(a, b) || lex_less(b, a) || a == b,
        !(lex_less(a, b) && lex_less(b, a)),
    decreases a.len(),
{
    if a.len() > 0 && b.len() > 0 && a[0] == b[0] {
        lemma_lex_total(a.skip(1), b.skip(1));
        if a.skip(1) == b.skip(1) {
            assert(a =~= seq![a[0]] + a.skip(1));
            assert(b =~= seq![b[0]] + b.skip(1));
        }
    } else if a.len() == 0 && b.len() == 0 {
        assert(a =~= b);
    }
}

/// The code points of a step, and a mark below every character at its end.
pub open spec fn step_key(s: Seq<char>) -> Seq<int> {
    if s == ".."@ {
        seq![-2int]
    } else {
        Seq::new(s.len(), |i: int| s[i] as u32 as int).push(-1)
    }
}

pub open spec fn steps_key(s: Seq<Seq<char>>) -> Seq<int>
    decreases s.len(),
{
    if s.len() == 0 {
        Seq::empty()
    } else {
        steps_key(s.drop_last()) + step_key(s.last())
    }
}

/// What paths are ordered by: the root, then a leading `.`, then step by step,
/// `..` before any name, and names by their code points.
pub open spec fn path_key(p: Seq<char>) -> Seq<int> {
    let head = if p.len() > 0 && p[0] == '/' {
        seq![-4int]
    } else if split(p, '/')[0] == "."@ {
        seq![-3int]
    } else {
        Seq::empty()
    };
    head + steps_key(steps(split(p, '/')))
}

/// Conflicted files come first, then the rest by path.
pub open spec fn entry_key(e: EntryV) -> Seq<int> {
    let first: int = if e.kind == ChangeKind::Conflicted {
        0
    } else {
        1
    };
    seq![first] + path_key(e.path)
}

pub open spec fn entry_less(a: EntryV, b: EntryV) -> bool {
    lex_less(entry_key(a), entry_key(b))
}

/// `x` put behind every entry that is not greater.
pub open spec fn insert_entry(s: Seq<EntryV>, x: EntryV) -> Seq<EntryV>
    decreases s.len(),
{
    if s.len() > 0 && entry_less(x, s.last()) {
        insert_entry(s.drop_last(), x).push(s.last())
    } else {
        s.push(x)
    }
}

/// The entries in order; equal ones stay as they came.
pub open spec fn in_order(s: Seq<EntryV>) -> Seq<EntryV>
    decreases s.len(),
{
    if s.len() == 0 {
        Seq::empty()
    } else {
        insert_entry(in_order(s.drop_last()), s.last())
    }
}

/// A key of machine integers, as the integers they are.
pub open spec fn ints(s: Seq<i64>) -> Seq<int> {
    Seq::new(s.len(), |i: int| s[i] as int)
}

proof fn lemma_ints_push(s: Seq<i64>, x: i64)
    ensures
        ints(s.push(x)) == ints(s).push(x as int),
{
    assert(ints(s.push(x)) =~= ints(s).push(x as int));
}

fn push_step(key: &mut Vec<i64>, step: &str)
    ensures
        ints(final(key)@) == ints(old(key)@) + step_key(step@),
{
    let ghost before = ints(key@);
    if same(step, "..") {
        proof {
            lemma_ints_push(key@, (-2) as i64);
        }
        key.push(-2);
        assert(ints(key@) =~= before + step_key(step@));
        return;
    }
    let v: Vec<char> = chars_of(step);
    let ghost codes = Seq::new(step@.len(), |i: int| step@[i] as u32 as int);
    let mut i: usize = 0;
    assert(ints(key@) =~= before + codes.take(0));
    while i < v.len()
        invariant
            i <= v@.len(),
            v@ == step@,
            codes == Seq::new(step@.len(), |i: int| step@[i] as u32 as int),
            ints(key@) == before + codes.take(i as int),
        decreases v@.len() - i,
    {
        let u: u32 = v[i] as u32;
        proof {
            lemma_ints_push(key@, u as i64);
        }
        key.push(u as i64);
        assert(codes.take(i + 1) =~= codes.take(i as int).push(u as int));
        assert(ints(key@) =~= before + codes.take(i + 1));
        i += 1;
    }
    proof {
        lemma_ints_push(key@, (-1) as i64);
        assert(codes.take(codes.len() as int) =~= codes);
    }
    key.push(-1);
    assert(ints(key@) =~= before + codes.push(-1));
}

fn push_path_key(key: &mut Vec<i64>, p: &str)
    ensures
        ints(final(key)@) == ints(old(key)@) + path_key(p@),
{
    broadcast use group_deep;

    let ghost before = ints(key@);
    let v: Vec<char> = chars_of(p);
    let parts: Vec<String> = split_of(p, '/');
    proof {
        assert(deep(parts@).len() > 0);
        assert(deep(parts@)[0] == parts@[0]@);
    }
    let ghost head = if p@.len() > 0 && p@[0] == '/' {
        seq![-4int]
    } else if split(p@, '/')[0] == "."@ {
        seq![-3int]
    } else {
        Seq::empty()
    };
    if v.len() > 0 && v[0] == '/' {
        proof {
            lemma_ints_push(key@, (-4) as i64);
        }
        key.push(-4);
    } else if same(parts[0].as_str(), ".") {
        proof {
            lemma_ints_push(key@, (-3) as i64);
        }
        key.push(-3);
    }
    assert(ints(key@) =~= before + head);
    let s: Vec<String> = steps_of(p);
    let ghost all = deep(s@);
    let mut i: usize = 0;
    assert(ints(key@) =~= before + head + steps_key(all.take(0)));
    while i < s.len()
        invariant
            i <= s@.len(),
            all == deep(s@),
            ints(key@) == before + head + steps_key(all.take(i as int)),
        decreases s@.len() - i,
    {
        assert(all.take(i + 1).drop_last() =~= all.take(i as int));
        assert(all[i as int] == s@[i as int]@);
        push_step(key, s[i].as_str());
        assert(ints(key@) =~= before + head + steps_key(all.take(i + 1)));
        i += 1;
    }
    assert(ints(key@) =~= before + path_key(p@));
}

fn key_of(e: &FileEntry) -> (r: Vec<i64>)
    ensures
        ints(r@) == entry_key(e.deep_view()),
{
    let mut key: Vec<i64> = Vec::new();
    let first: i64 = if e.kind == ChangeKind::Conflicted {
        0
    } else {
        1
    };
    proof {
        lemma_ints_push(key@, first);
    }
    key.push(first);
    assert(ints(key@) =~= seq![first as int]);
    push_path_key(&mut key, e.path.as_str());
    key
}

fn key_less(a: &Vec<i64>, b: &Vec<i64>) -> (r: bool)
    ensures
        r == lex_less(ints(a@), ints(b@)),
{
    broadcast use group_deep;

    let ghost x = ints(a@);
    let ghost y = ints(b@);
    let mut i: usize = 0;
    while i < a.len() && i < b.len()
        invariant
            i <= a@.len(),
            i <= b@.len(),
            x == ints(a@),
            y == ints(b@),
            lex_less(x, y) == lex_less(x.skip(i as int), y.skip(i as int)),
        decreases a@.len() - i,
    {
        assert(x.skip(i as int)[0] == a@[i as int]);
        assert(y.skip(i as int)[0] == b@[i as int]);
        if a[i] != b[i] {
            return a[i] < b[i];
        }
        assert(x.skip(i as int).skip(1) =~= x.skip(i + 1));
        assert(y.skip(i as int).skip(1) =~= y.skip(i + 1));
        i += 1;
    }
    i < b.len()
}

proof fn lemma_insert_at(s: Seq<EntryV>, x: EntryV, j: int)
    requires
        0 <= j <= s.len(),
        forall|k: int| j <= k < s.len() ==> entry_less(x, #[trigger] s[k]),
        j > 0 ==> !entry_less(x, s[j - 1]),
    ensures
        insert_entry(s, x) == s.insert(j, x),
    decreases s.len(),
{
    if s.len() > 0 && entry_less(x, s.last()) {
        assert(j < s.len());
        let init = s.drop_last();
        assert forall|k: int| j <= k < init.len() implies entry_less(x, #[trigger] init[k]) by {
            assert(init[k] == s[k]);
        }
        lemma_insert_at(init, x, j);
        assert(init.insert(j, x).push(s.last()) =~= s.insert(j, x));
    } else {
        if j < s.len() {
            assert(entry_less(x, s[s.len() - 1]));
        }
        assert(s.insert(j, x) =~= s.push(x));
    }
}

/// Put the entries in order: conflicts first, then by path.
pub fn sort_entries(entries: &mut Vec<FileEntry>)
    ensures
        deep(final(entries)@) == in_order(deep(old(entries)@)),
{
    broadcast use group_deep;

    let ghost all = deep(entries@);
    let n: usize = entries.len();
    let mut keys: Vec<Vec<i64>> = Vec::new();
    let mut i: usize = 0;
    assert(deep(entries@) =~= in_order(all.take(0)) + all);
    while i < n
        invariant
            i <= n == entries@.len(),
            n == all.len(),
            keys@.len() == i,
            in_order(all.take(i as int)).len() == i,
            deep(entries@) == in_order(all.take(i as int)) + all.skip(i as int),
            forall|k: int|
                0 <= k < i ==> ints((#[trigger] keys@[k])@) == entry_key(entries@[k].deep_view()),
        decreases n - i,
    {
        let ghost done = in_order(all.take(i as int));
        let ghost cur = entries@;
        assert(all.take(i + 1).drop_last() =~= all.take(i as int));
        assert(deep(cur)[i as int] == all[i as int]);
        let ghost x = all[i as int];
        assert(cur[i as int].deep_view() == deep(cur)[i as int]);
        let key: Vec<i64> = key_of(&entries[i]);
        let mut j: usize = i;
        while j > 0 && key_less(&key, &keys[j - 1])
            invariant
                j <= i < n == entries@.len(),
                keys@.len() == i,
                cur == entries@,
                ints(key@) == entry_key(x),
                done.len() == i,
                deep(cur) == done + all.skip(i as int),
                forall|k: int|
                    0 <= k < i ==> ints((#[trigger] keys@[k])@) == entry_key(cur[k].deep_view()),
                forall|k: int| j <= k < i ==> entry_less(x, #[trigger] done[k]),
            decreases j,
        {
            assert(ints(keys@[j - 1]@) == entry_key(cur[j - 1].deep_view()));
            assert(deep(cur)[j - 1] == done[j - 1]);
            j -= 1;
        }
        proof {
            if j > 0 {
                assert(ints(keys@[j - 1]@) == entry_key(cur[j - 1].deep_view()));
                assert(deep(cur)[j - 1] == done[j - 1]);
            }
            lemma_insert_at(done, x, j as int);
        }
        let ghost kb = keys@;
        let e: FileEntry = entries.remove(i);
        entries.insert(j, e);
        keys.insert(j, key);
        proof {
            assert(entries@ =~= cur.remove(i as int).insert(j as int, cur[i as int]));
            let d = deep(cur);
            assert(deep(entries@) =~= d.remove(i as int).insert(j as int, d[i as int]));
            assert(d.remove(i as int) =~= done + all.skip(i + 1));
            assert((done + all.skip(i + 1)).insert(j as int, x) =~= done.insert(j as int, x) + all.skip(
                i + 1,
            ));
            assert(in_order(all.take(i + 1)) == done.insert(j as int, x));
            assert forall|k: int| 0 <= k < i + 1 implies ints((#[trigger] keys@[k])@) == entry_key(
                entries@[k].deep_view(),
            ) by {
                if k < j {
                    assert(keys@[k] == kb[k]);
                    assert(entries@[k] == cur[k]);
                } else if k > j {
                    assert(keys@[k] == kb[k - 1]);
                    assert(entries@[k] == cur[k - 1]);
                }
            }
        }
        i += 1;
    }
    assert(in_order(all) + all.skip(n as int) =~= in_order(all));
}

// ---- laws ---------------------------------------------------------------------------

proof fn lemma_insert_ordered(s: Seq<EntryV>, x: EntryV)
    requires
        forall|i: int, j: int| 0 <= i < j < s.len() ==> !entry_less(s[j], s[i]),
    ensures
        forall|i: int, j: int|
            0 <= i < j < insert_entry(s, x).len() ==> !entry_less(
                insert_entry(s, x)[j],
                insert_entry(s, x)[i],
            ),
        insert_entry(s, x).to_multiset() == s.to_multiset().insert(x),
        forall|i: int| 0 <= i < insert_entry(s, x).len() ==> (#[trigger] insert_entry(s, x)[i]) == x || s.contains(insert_entry(s, x)[i]),
    decreases s.len(),
{
    broadcast use vstd::seq_lib::group_to_multiset_ensures;

    let r = insert_entry(s, x);
    if s.len() > 0 && entry_less(x, s.last()) {
        let init = s.drop_last();
        let p = insert_entry(init, x);
        assert forall|i: int, j: int| 0 <= i < j < init.len() implies !entry_less(init[j], init[i]) by {
            assert(!entry_less(s[j], s[i]));
        }
        lemma_insert_ordered(init, x);
        assert(init.push(s.last()) =~= s);
        assert forall|i: int| 0 <= i < r.len() implies (#[trigger] r[i]) == x || s.contains(r[i]) by {
            if i < p.len() {
                assert(r[i] == p[i]);
                if p[i] != x {
                    let k = choose|k: int| 0 <= k < init.len() && init[k] == p[i];
                    assert(s[k] == r[i]);
                }
            } else {
                assert(s[s.len() - 1] == r[i]);
            }
        }
        assert forall|i: int, j: int| 0 <= i < j < r.len() implies !entry_less(r[j], r[i]) by {
            if j < p.len() {
                assert(!entry_less(p[j], p[i]));
            } else {
                assert(r[j] == s.last());
                assert(r[i] == p[i]);
                if p[i] == x {
                    lemma_lex_total(entry_key(x), entry_key(s.last()));
                } else {
                    let k = choose|k: int| 0 <= k < init.len() && init[k] == p[i];
                    assert(!entry_less(s[s.len() - 1], s[k]));
                }
            }
        }
    } else {
        assert forall|i: int, j: int| 0 <= i < j < r.len() implies !entry_less(r[j], r[i]) by {
            if j < s.len() {
                assert(!entry_less(s[j], s[i]));
            } else if i < s.len() - 1 {
                assert(!entry_less(s[s.len() - 1], s[i]));
                lemma_lex_transitive(entry_key(s[i]), entry_key(s.last()), entry_key(x));
            }
        }
    }
}

/// The list is in order, and holds what it held before: nothing is dropped,
/// added or repeated.
pub proof fn law_sort_orders_and_keeps(s: Seq<EntryV>)
    ensures
        forall|i: int, j: int| 0 <= i < j < in_order(s).len() ==> !entry_less(in_order(s)[j], in_order(s)[i]),
        in_order(s).to_multiset() == s.to_multiset(),
    decreases s.len(),
{
    broadcast use vstd::seq_lib::group_to_multiset_ensures;

    if s.len() > 0 {
        law_sort_orders_and_keeps(s.drop_last());
        lemma_insert_ordered(in_order(s.drop_last()), s.last());
        assert(s.drop_last().push(s.last()) =~= s);
    } else {
        assert(s =~= Seq::<EntryV>::empty());
    }
}

/// Conflicted files come before all others.
pub proof fn law_conflicts_come_first(s: Seq<EntryV>, i: int, j: int)
    requires
        0 <= i < j < in_order(s).len(),
        in_order(s)[j].kind == ChangeKind::Conflicted,
    ensures
        in_order(s)[i].kind == ChangeKind::Conflicted,
{
    law_sort_orders_and_keeps(s);
    let a = in_order(s)[i];
    let b = in_order(s)[j];
    assert(!entry_less(b, a));
    assert(entry_key(a)[0] == if a.kind == ChangeKind::Conflicted { 0int } else { 1int });
    assert(entry_key(b)[0] == 0);
}

} // verus!
