//! Which branch a branch is taken to be cut from.

use vstd::prelude::*;

use crate::git_order::lex_less;
use crate::git_repo::{
    base_name, best, candidates, fork_base, law_base_is_nearest, others, rank, score, trunks_here,
    Ancestor, Trunk,
};
use crate::path::last_index_of;
use crate::text::{has_suffix, trim};

verus! {

/// Whether a branch of this name is known to have been left so many commits ago:
/// an ancestor that HEAD has commits on, or a trunk whose merge base is another
/// commit than HEAD.
pub open spec fn left_at(head: Seq<char>, ancestors: Seq<Ancestor>, trunks: Seq<Trunk>, name: Seq<char>, distance: u32) -> bool {
    &&& distance > 0
    &&& {
        ||| exists|k: int|
            0 <= k < ancestors.len() && (#[trigger] ancestors[k]).name@ == name && ancestors[k].distance
                == distance
        ||| exists|k: int|
            0 <= k < trunks.len() && (#[trigger] trunks[k]).name@ == name && trunks[k].distance
                == distance && (trunks[k].merge_base matches Some(mb) && mb@.len() > 0 && mb@ != head)
    }
}

/// The bytes of a name.
pub open spec fn bytes_in(name: Seq<char>) -> int {
    #[verifier::truncate]
    (vstd::utf8::encode_utf8(name).len() as usize as int)
}

/// Whether a branch left `d` commits ago goes before one left `e` commits ago: it
/// was left later, or has the more conventional name, or the shorter one.
pub open spec fn goes_first(a: Seq<char>, d: u32, b: Seq<char>, e: u32) -> bool {
    d < e || (d == e && (rank(a) < rank(b) || (rank(a) == rank(b) && bytes_in(a) <= bytes_in(b))))
}

/// Whether a branch was left so many commits ago, and goes before every other one
/// that was left.
pub open spec fn left_last(head: Seq<char>, ancestors: Seq<Ancestor>, trunks: Seq<Trunk>, base: Seq<char>, d: u32) -> bool {
    &&& left_at(head, ancestors, trunks, base, d)
    &&& forall|name: Seq<char>, e: u32| #[trigger]
        left_at(head, ancestors, trunks, name, e) ==> goes_first(base, d, name, e)
}

proof fn lemma_candidate_is_left(head: Seq<char>, ancestors: Seq<Ancestor>, trunks: Seq<Trunk>, i: int)
    requires
        0 <= i < candidates(head, ancestors, trunks).len(),
    ensures
        ({
            let c = candidates(head, ancestors, trunks)[i];
            left_at(head, ancestors, trunks, c.0, c.1)
        }),
    decreases ancestors.len() + trunks.len(),
{
    let c = candidates(head, ancestors, trunks)[i];
    if trunks.len() > 0 {
        let init = trunks.drop_last();
        if i < candidates(head, ancestors, init).len() {
            lemma_candidate_is_left(head, ancestors, init, i);
            if exists|k: int|
                0 <= k < init.len() && (#[trigger] init[k]).name@ == c.0 && init[k].distance == c.1
                    && (init[k].merge_base matches Some(mb) && mb@.len() > 0 && mb@ != head) {
                let k = choose|k: int|
                    0 <= k < init.len() && (#[trigger] init[k]).name@ == c.0 && init[k].distance == c.1
                        && (init[k].merge_base matches Some(mb) && mb@.len() > 0 && mb@ != head);
                assert(trunks[k] == init[k]);
            }
        } else {
            assert(trunks[trunks.len() - 1] == trunks.last());
        }
    } else {
        let init = ancestors.drop_last();
        if i < candidates(head, init, trunks).len() {
            lemma_candidate_is_left(head, init, trunks, i);
            let k = choose|k: int|
                0 <= k < init.len() && (#[trigger] init[k]).name@ == c.0 && init[k].distance == c.1;
            assert(ancestors[k] == init[k]);
        } else {
            assert(ancestors[ancestors.len() - 1] == ancestors.last());
        }
    }
}

proof fn lemma_left_is_candidate(head: Seq<char>, ancestors: Seq<Ancestor>, trunks: Seq<Trunk>, name: Seq<char>, distance: u32)
    requires
        left_at(head, ancestors, trunks, name, distance),
    ensures
        candidates(head, ancestors, trunks).contains((name, distance)),
    decreases ancestors.len() + trunks.len(),
{
    let all = candidates(head, ancestors, trunks);
    if trunks.len() > 0 {
        let init = trunks.drop_last();
        let t = trunks.last();
        let before = candidates(head, ancestors, init);
        if left_at(head, ancestors, init, name, distance) {
            lemma_left_is_candidate(head, ancestors, init, name, distance);
            let i = before.index_of((name, distance));
            assert(all[i] == before[i]);
        } else {
            let k = choose|k: int|
                0 <= k < trunks.len() && (#[trigger] trunks[k]).name@ == name && trunks[k].distance
                    == distance && (trunks[k].merge_base matches Some(mb) && mb@.len() > 0 && mb@ != head);
            if k < init.len() {
                assert(init[k] == trunks[k]);
            }
            assert(all[before.len() as int] == (name, distance));
        }
    } else {
        let init = ancestors.drop_last();
        let before = candidates(head, init, trunks);
        let k = choose|k: int|
            0 <= k < ancestors.len() && (#[trigger] ancestors[k]).name@ == name && ancestors[k].distance
                == distance;
        if k < init.len() {
            assert(init[k] == ancestors[k]);
            lemma_left_is_candidate(head, init, trunks, name, distance);
            let i = before.index_of((name, distance));
            assert(all[i] == before[i]);
        } else {
            assert(all[before.len() as int] == (name, distance));
        }
    }
}

/// The base is the branch that was left fewest commits ago, however many these are:
/// no ancestor that HEAD has commits on and no trunk that HEAD diverged from is
/// nearer. There is none only where no branch was left. Of branches that were left
/// equally long ago the more conventional name wins, then the shorter one. The
/// distance of the base is returned.
pub proof fn law_the_branch_left_last_is_the_base(head: Seq<char>, branch: Option<Seq<char>>, ancestors: Seq<Ancestor>, trunks: Seq<Trunk>) -> (d: u32)
    requires
        branch matches Some(b) ==> rank(b) == 4,
    ensures
        match fork_base(Some(head), branch, ancestors, trunks) {
            Some(base) => left_last(head, ancestors, trunks, base, d),
            None => forall|name: Seq<char>, e: u32| !#[trigger]
                left_at(head, ancestors, trunks, name, e),
        },
        forall|k: int|
            0 <= k < ancestors.len() && (#[trigger] ancestors[k]).distance > 0 ==> fork_base(
                Some(head),
                branch,
                ancestors,
                trunks,
            ) is Some,
        forall|k: int|
            0 <= k < trunks.len() && (#[trigger] trunks[k]).distance > 0 && trunks[k].merge_base is Some
                && trunks[k].merge_base->0@.len() > 0 && trunks[k].merge_base->0@ != head ==> fork_base(
                Some(head),
                branch,
                ancestors,
                trunks,
            ) is Some,
{
    let c = candidates(head, ancestors, trunks);
    let found = fork_base(Some(head), branch, ancestors, trunks);
    assert forall|name: Seq<char>, e: u32| #[trigger]
        left_at(head, ancestors, trunks, name, e) implies c.contains((name, e)) by {
        lemma_left_is_candidate(head, ancestors, trunks, name, e);
    }
    if c.len() > 0 {
        law_base_is_nearest(c, 0);
        let b = best(c)->0;
        let i = c.index_of(b);
        lemma_candidate_is_left(head, ancestors, trunks, i);
        assert forall|name: Seq<char>, e: u32| #[trigger]
            left_at(head, ancestors, trunks, name, e) implies goes_first(b.0, b.1, name, e) by {
            let k = c.index_of((name, e));
            law_base_is_nearest(c, k);
            let (x, y) = (score(name, e), score(b.0, b.1));
            assert(!lex_less(x, y));
            assert(x[0] == e && y[0] == b.1);
            assert(x[1] == rank(name) && y[1] == rank(b.0));
            assert(x[2] == bytes_in(name));
            assert(y[2] == bytes_in(b.0));
            reveal_with_fuel(lex_less, 4);
            assert(x.skip(1)[0] == x[1] && y.skip(1)[0] == y[1]);
            assert(x.skip(1).skip(1)[0] == x[2] && y.skip(1).skip(1)[0] == y[2]);
        }
        assert(left_last(head, ancestors, trunks, b.0, b.1));
        assert(found == Some(b.0));
    } else {
        assert forall|name: Seq<char>, e: u32| !#[trigger] left_at(head, ancestors, trunks, name, e) by {
            if left_at(head, ancestors, trunks, name, e) {
                assert(c.contains((name, e)));
            }
        }
        assert(found is None);
    }
    assert forall|k: int| 0 <= k < ancestors.len() && (#[trigger] ancestors[k]).distance > 0 implies c.len()
        > 0 by {
        assert(left_at(head, ancestors, trunks, ancestors[k].name@, ancestors[k].distance));
    }
    assert forall|k: int|
        0 <= k < trunks.len() && (#[trigger] trunks[k]).distance > 0 && trunks[k].merge_base is Some
            && trunks[k].merge_base->0@.len() > 0 && trunks[k].merge_base->0@ != head implies c.len() > 0 by {
        assert(left_at(head, ancestors, trunks, trunks[k].name@, trunks[k].distance));
    }
    match best(c) {
        Some(b) => b.1,
        None => 0,
    }
}

/// Without a commit, and on a trunk, there is no branch that this one was cut from.
pub proof fn law_a_trunk_is_cut_from_nothing(head: Option<Seq<char>>, branch: Option<Seq<char>>, ancestors: Seq<Ancestor>, trunks: Seq<Trunk>)
    requires
        head is None || (branch matches Some(b) && (b == "main"@ || b == "master"@ || b == "next"@ || b
            == "develop"@ || b == "development"@)),
    ensures
        fork_base(head, branch, ancestors, trunks) is None,
{
    if head is Some {
        let b = branch->0;
        reveal_strlit("main");
        reveal_strlit("master");
        reveal_strlit("next");
        reveal_strlit("develop");
        reveal_strlit("development");
        assert(!b.contains('/')) by {
            if b.contains('/') {
                let k = b.index_of('/');
                assert(b[k] == '/');
            }
        }
        law_trunks_rank_by_their_name(b, Seq::empty());
    }
}

/// What a trunk is: the last part of a branch's name decides, whatever stands
/// before it. `main` is the most conventional, then `master`, `next`, and
/// `develop` or `development`; any other name is a feature's.
pub proof fn law_trunks_rank_by_their_name(short: Seq<char>, above: Seq<char>)
    requires
        !short.contains('/'),
    ensures
        rank(above.push('/') + short) == rank(short),
        rank(short) == 0 <==> short == "main"@,
        rank(short) == 1 <==> short == "master"@,
        rank(short) == 2 <==> short == "next"@,
        rank(short) == 3 <==> short == "develop"@ || short == "development"@,
        rank(short) == 4 || rank(short) == 3 || rank(short) == 2 || rank(short) == 1 || rank(short)
            == 0,
{
    reveal_strlit("main");
    reveal_strlit("master");
    reveal_strlit("next");
    reveal_strlit("develop");
    reveal_strlit("development");
    assert("main"@[0] == 'm' && "master"@.len() == 6 && "main"@.len() == 4 && "next"@.len() == 4
        && "next"@[0] == 'n' && "develop"@.len() == 7 && "development"@.len() == 11);
    lemma_no_last(short);
    let long = above.push('/') + short;
    lemma_last_slash(above, short);
    assert(long.skip(above.len() as int + 1) =~= short);
}

proof fn lemma_no_last(s: Seq<char>)
    requires
        !s.contains('/'),
    ensures
        last_index_of(s, '/') == -1,
    decreases s.len(),
{
    if s.len() > 0 {
        let init = s.drop_last();
        assert(s[s.len() - 1] != '/');
        assert(!init.contains('/')) by {
            if init.contains('/') {
                let k = init.index_of('/');
                assert(s[k] == '/');
            }
        }
        lemma_no_last(init);
    }
}

proof fn lemma_last_slash(above: Seq<char>, short: Seq<char>)
    requires
        !short.contains('/'),
    ensures
        last_index_of(above.push('/') + short, '/') == above.len(),
    decreases short.len(),
{
    let s = above.push('/') + short;
    if short.len() > 0 {
        let init = short.drop_last();
        assert(short[short.len() - 1] != '/');
        assert(!init.contains('/')) by {
            if init.contains('/') {
                let k = init.index_of('/');
                assert(short[k] == '/');
            }
        }
        lemma_last_slash(above, init);
        assert(s.drop_last() =~= above.push('/') + init);
    } else {
        assert(s =~= above.push('/'));
    }
}

/// Of the listed refs the first that qualify are taken, each by its name, up to
/// the number there is room for: one that is blank, a remote's HEAD or the branch
/// itself, local or on a remote, takes no room.
pub proof fn law_listed_refs_are_taken_in_order(name: Seq<char>, ls: Seq<Seq<char>>, branch: Option<Seq<char>>, remotes: Seq<Seq<char>>, room: nat)
    ensures
        others(ls, branch, remotes, 0).len() == 0,
        others(seq![name] + ls, branch, remotes, room + 1) == if trim(name).len() == 0 || has_suffix(
            trim(name),
            "/HEAD"@,
        ) || branch == Some(trim(name)) || (branch matches Some(b) && exists|i: int|
            0 <= i < remotes.len() && trim(name) == #[trigger] remotes[i] + "/"@ + b) {
            others(ls, branch, remotes, room + 1)
        } else {
            seq![trim(name)] + others(ls, branch, remotes, room)
        },
{
    let all = seq![name] + ls;
    assert(all[0] == name);
    assert(all.skip(1) =~= ls);
}

/// Every trunk that exists is considered, unless it is the branch itself.
pub proof fn law_every_trunk_is_considered(names: Seq<Seq<char>>, branch: Option<Seq<char>>, existing: Seq<Seq<char>>, remotes: Seq<Seq<char>>, i: int)
    requires
        0 <= i < names.len(),
        existing.contains(names[i]),
        branch != Some(names[i]),
        branch matches Some(b) ==> forall|k: int|
            0 <= k < remotes.len() ==> names[i] != #[trigger] remotes[k] + "/"@ + b,
    ensures
        trunks_here(names, branch, existing, remotes).contains(names[i]),
    decreases names.len(),
{
    let init = names.drop_last();
    let before = trunks_here(init, branch, existing, remotes);
    let all = trunks_here(names, branch, existing, remotes);
    if i < init.len() {
        assert(init[i] == names[i]);
        law_every_trunk_is_considered(init, branch, existing, remotes, i);
        let k = before.index_of(names[i]);
        assert(all[k] == before[k]);
    } else {
        if before.contains(names[i]) {
            let k = before.index_of(names[i]);
            assert(all[k] == names[i]);
        } else {
            assert(all[before.len() as int] == names[i]);
        }
    }
}

/// What the base falls back on: what `origin/HEAD` stands for, then the usual
/// names in their order, as far as they are there, then HEAD.
pub proof fn law_the_base_falls_back_in_order(fork: Seq<char>, origin: Seq<char>, present: Seq<bool>)
    requires
        present.len() == 4,
    ensures
        base_name(Some(fork), Some(origin), present) == fork,
        base_name(Some(fork), None, present) == fork,
        base_name(None, Some(origin), present) == origin,
        base_name(None, None, present) == if present[0] {
            "origin/main"@
        } else if present[1] {
            "origin/master"@
        } else if present[2] {
            "main"@
        } else if present[3] {
            "master"@
        } else {
            "HEAD"@
        },
{
    let names = crate::git_repo::fallback_names();
    reveal_with_fuel(crate::git_repo::first_present, 5);
    assert(names.skip(1)[0] == names[1] && present.skip(1)[0] == present[1]);
    assert(names.skip(1).skip(1)[0] == names[2] && present.skip(1).skip(1)[0] == present[2]);
    assert(names.skip(1).skip(1).skip(1)[0] == names[3] && present.skip(1).skip(1).skip(1)[0]
        == present[3]);
}

} // verus!
