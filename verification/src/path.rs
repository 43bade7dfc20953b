//! Slash-separated paths, held as plain strings.

use vstd::prelude::*;

use crate::text::{
    chars_of, deep, group_deep, has_prefix, index_of_char, lemma_index_of_char, same, split,
    split_of, string_of,
};

verus! {

/// The named steps of a path: what stands between slashes, without empty
/// steps and without `.`.
pub open spec fn steps(parts: Seq<Seq<char>>) -> Seq<Seq<char>>
    decreases parts.len(),
{
    if parts.len() == 0 {
        Seq::empty()
    } else {
        let init = steps(parts.drop_last());
        if parts.last().len() == 0 || parts.last() == "."@ {
            init
        } else {
            init.push(parts.last())
        }
    }
}

/// Where a path leads: from the root or not, from a leading `.` or not, and by which
/// steps.
#[verifier::ext_equal]
pub struct PlaceV {
    pub rooted: bool,
    pub dotted: bool,
    pub steps: Seq<Seq<char>>,
}

#[verifier::opaque]
pub open spec fn place(p: Seq<char>) -> PlaceV {
    PlaceV {
        rooted: has_prefix(p, seq!['/']),
        dotted: split(p, '/')[0] == "."@,
        steps: steps(split(p, '/')),
    }
}

/// Whether two paths are the same, step by step: slashes in a row are as good as
/// one, and one at the end counts as little as a `.` between steps.
pub open spec fn same_file(a: Seq<char>, b: Seq<char>) -> bool {
    place(a) == place(b)
}

/// The last step of a path, unless the path ends in `..` or has no step.
pub open spec fn file_name(p: Seq<char>) -> Option<Seq<char>> {
    let s = steps(split(p, '/'));
    if s.len() == 0 || s.last() == ".."@ {
        None
    } else {
        Some(s.last())
    }
}

/// The last position of `c` in `s`, or -1.
pub open spec fn last_index_of(s: Seq<char>, c: char) -> int
    decreases s.len(),
{
    if s.len() == 0 {
        -1
    } else if s.last() == c {
        s.len() - 1
    } else {
        last_index_of(s.drop_last(), c)
    }
}

/// A file name without its extension. A name that starts with its only dot
/// has none.
pub open spec fn stem(name: Seq<char>) -> Seq<char> {
    let k = last_index_of(name, '.');
    if k <= 0 {
        name
    } else {
        name.take(k)
    }
}

/// `base` extended by `rel`. An absolute `rel` replaces `base`.
pub open spec fn joined(base: Seq<char>, rel: Seq<char>) -> Seq<char> {
    if has_prefix(rel, seq!['/']) {
        rel
    } else if base.len() == 0 || base.last() == '/' {
        base + rel
    } else {
        base.push('/') + rel
    }
}

pub fn steps_of(p: &str) -> (r: Vec<String>)
    ensures
        deep(r@) == steps(split(p@, '/')),
{
    broadcast use group_deep;

    let parts: Vec<String> = split_of(p, '/');
    let ghost all = deep(parts@);
    let mut out: Vec<String> = Vec::new();
    let mut i: usize = 0;
    while i < parts.len()
        invariant
            i <= parts@.len(),
            all == deep(parts@),
            deep(out@) == steps(all.take(i as int)),
        decreases parts@.len() - i,
    {
        assert(all.take(i + 1).drop_last() =~= all.take(i as int));
        assert(all[i as int] == parts@[i as int]@);
        if !(parts[i].as_str().is_empty() || same(parts[i].as_str(), ".")) {
            out.push(parts[i].clone());
        }
        i += 1;
    }
    assert(all.take(all.len() as int) =~= all);
    out
}

/// Whether a path starts with a slash, and whether its first step is a `.`.
fn start_of(p: &str) -> (r: (bool, bool))
    ensures
        r.0 == has_prefix(p@, seq!['/']),
        r.1 == (split(p@, '/')[0] == "."@),
{
    broadcast use group_deep;

    let v: Vec<char> = chars_of(p);
    let parts: Vec<String> = split_of(p, '/');
    proof {
        lemma_split_some(p@, '/');
        assert(deep(parts@)[0] == parts@[0]@);
        if v@.len() > 0 {
            assert(v@.subrange(0, 1) =~= seq![v@[0]]);
            assert(seq!['/'][0] == '/');
            assert(seq![v@[0]][0] == v@[0]);
        }
    }
    let rooted: bool = v.len() > 0 && v[0] == '/';
    (rooted, same(parts[0].as_str(), "."))
}

fn same_steps(a: &Vec<String>, b: &Vec<String>) -> (r: bool)
    ensures
        r == (deep(a@) == deep(b@)),
{
    broadcast use group_deep;

    let ghost (x, y) = (deep(a@), deep(b@));
    if a.len() != b.len() {
        assert(x.len() != y.len());
        return false;
    }
    let mut i: usize = 0;
    while i < a.len()
        invariant
            i <= a@.len() == b@.len(),
            x == deep(a@),
            y == deep(b@),
            forall|k: int| 0 <= k < i ==> x[k] == y[k],
        decreases a@.len() - i,
    {
        assert(x[i as int] == a@[i as int]@ && y[i as int] == b@[i as int]@);
        if !same(a[i].as_str(), b[i].as_str()) {
            return false;
        }
        i += 1;
    }
    assert(x =~= y);
    true
}

pub fn is_same_file(a: &str, b: &str) -> (r: bool)
    ensures
        r == same_file(a@, b@),
{
    proof {
        reveal(place);
    }
    if same(a, b) {
        return true;
    }
    let (x, y): ((bool, bool), (bool, bool)) = (start_of(a), start_of(b));
    x.0 == y.0 && x.1 == y.1 && same_steps(&steps_of(a), &steps_of(b))
}

pub fn file_name_of(p: &str) -> (r: Option<String>)
    ensures
        r.deep_view() == file_name(p@),
{
    let s: Vec<String> = steps_of(p);
    let ghost all = deep(s@);
    if s.len() == 0 {
        return None;
    }
    let last: &String = &s[s.len() - 1];
    assert(all.last() == last@);
    if same(last.as_str(), "..") {
        None
    } else {
        Some(last.clone())
    }
}

/// The last position of `c`, if it occurs.
pub fn rfind(v: &[char], c: char) -> (r: Option<usize>)
    ensures
        match r {
            Some(k) => k == last_index_of(v@, c),
            None => last_index_of(v@, c) == -1,
        },
        r is Some ==> r->0 < v@.len(),
{
    let mut i: usize = v.len();
    proof {
        assert(v@.take(v@.len() as int) =~= v@);
    }
    while i > 0
        invariant
            i <= v@.len(),
            last_index_of(v@, c) == last_index_of(v@.take(i as int), c),
        decreases i,
    {
        assert(v@.take(i as int).drop_last() =~= v@.take(i - 1));
        if v[i - 1] == c {
            return Some(i - 1);
        }
        i -= 1;
    }
    None
}

pub fn file_stem_of(p: &str) -> (r: Option<String>)
    ensures
        r.deep_view() == match file_name(p@) {
            Some(name) => Some(stem(name)),
            None => None,
        },
{
    match file_name_of(p) {
        None => None,
        Some(name) => {
            let v: Vec<char> = chars_of(name.as_str());
            match rfind(&v, '.') {
                Some(k) if k > 0 => {
                    let t: String = string_of(&v, 0, k);
                    assert(t@ =~= name@.take(k as int));
                    Some(t)
                },
                _ => Some(name),
            }
        },
    }
}

pub fn join_path(base: &str, rel: &str) -> (r: String)
    ensures
        r@ == joined(base@, rel@),
{
    let b: Vec<char> = chars_of(base);
    let v: Vec<char> = chars_of(rel);
    proof {
        if v@.len() > 0 {
            assert(v@.subrange(0, 1) =~= seq![v@[0]]);
            assert(v@[0] == '/' <==> has_prefix(rel@, seq!['/'])) by {
                assert(seq!['/'][0] == '/');
                assert(seq![v@[0]][0] == v@[0]);
            }
        }
    }
    if v.len() > 0 && v[0] == '/' {
        return rel.to_owned();
    }
    let mut s: String = base.to_owned();
    if b.len() > 0 && b[b.len() - 1] != '/' {
        s.push('/');
    }
    s.push_str(rel);
    s
}

// ---- laws -------------------------------------------------------------------------

/// A path as git prints it: relative, with no empty step and no `.` in it.
pub open spec fn as_printed(p: Seq<char>) -> bool {
    let parts = split(p, '/');
    forall|i: int| 0 <= i < parts.len() ==> (#[trigger] parts[i]).len() > 0 && parts[i] != "."@
}

proof fn lemma_split_tells(a: Seq<char>, b: Seq<char>, c: char)
    requires
        split(a, c) == split(b, c),
    ensures
        a == b,
    decreases a.len(),
{
    let (i, j) = (index_of_char(a, c), index_of_char(b, c));
    lemma_index_of_char(a, c);
    lemma_index_of_char(b, c);
    let (x, y) = (split(a, c), split(b, c));
    lemma_split_some(a, c);
    lemma_split_some(b, c);
    if 0 <= i < a.len() && 0 <= j < b.len() {
        lemma_split_some(a.skip(i + 1), c);
        lemma_split_some(b.skip(j + 1), c);
        assert(x[0] == a.take(i) && y[0] == b.take(j));
        assert(x.skip(1) =~= split(a.skip(i + 1), c));
        assert(y.skip(1) =~= split(b.skip(j + 1), c));
        lemma_split_tells(a.skip(i + 1), b.skip(j + 1), c);
        assert(a =~= a.take(i).push(c) + a.skip(i + 1));
        assert(b =~= b.take(j).push(c) + b.skip(j + 1));
    } else {
        assert(x[0] == y[0]);
    }
}

proof fn lemma_split_some(s: Seq<char>, c: char)
    ensures
        split(s, c).len() > 0,
        0 <= index_of_char(s, c) < s.len() ==> split(s, c).len() > 1,
    decreases s.len(),
{
    let k = index_of_char(s, c);
    if 0 <= k < s.len() {
        lemma_split_some(s.skip(k + 1), c);
    }
}

proof fn lemma_all_named(parts: Seq<Seq<char>>)
    requires
        forall|i: int| 0 <= i < parts.len() ==> (#[trigger] parts[i]).len() > 0 && parts[i] != "."@,
    ensures
        steps(parts) == parts,
    decreases parts.len(),
{
    if parts.len() > 0 {
        let init = parts.drop_last();
        assert forall|i: int| 0 <= i < init.len() implies (#[trigger] init[i]).len() > 0 && init[i]
            != "."@ by {
            assert(init[i] == parts[i]);
        }
        lemma_all_named(init);
        assert(parts =~= init.push(parts.last()));
        assert(parts[parts.len() - 1] == parts.last());
    }
}

/// Two paths as git prints them are the same exactly if they are the same text.
pub proof fn law_printed_paths_are_their_text(a: Seq<char>, b: Seq<char>)
    requires
        as_printed(a),
        as_printed(b),
    ensures
        same_file(a, b) <==> a == b,
{
    reveal(place);
    lemma_all_named(split(a, '/'));
    lemma_all_named(split(b, '/'));
    if same_file(a, b) {
        lemma_split_tells(a, b, '/');
    }
}

/// Two file names without a slash are the same path exactly if they are the same
/// text.
pub proof fn law_names_are_their_text(a: Seq<char>, b: Seq<char>)
    requires
        !a.contains('/') && a.len() > 0 && a != "."@,
        !b.contains('/') && b.len() > 0 && b != "."@,
    ensures
        same_file(a, b) <==> a == b,
{
    lemma_name_is_printed(a);
    lemma_name_is_printed(b);
    law_printed_paths_are_their_text(a, b);
}

proof fn lemma_name_is_printed(s: Seq<char>)
    requires
        !s.contains('/') && s.len() > 0 && s != "."@,
    ensures
        as_printed(s),
{
    lemma_index_of_char(s, '/');
    assert(split(s, '/') =~= seq![s]);
}

} // verus!
