//! How paths are ordered, and what a checkout is called.

use vstd::prelude::*;

use crate::git::{ChangeKind, EntryV};
use crate::git_order::{entry_key, entry_less, lemma_lex_total, lex_less, step_key, steps_key};
use crate::hash::{fnv, hex, repo_key};
use crate::path::steps;
use crate::text::{digit, split};

verus! {

/// Whether a name comes before another: where they first differ it has the smaller
/// character, or it ends there.
pub open spec fn name_before(x: Seq<char>, y: Seq<char>, k: int) -> bool {
    &&& 0 <= k <= x.len() && k < y.len()
    &&& forall|i: int| 0 <= i < k ==> x[i] == #[trigger] y[i]
    &&& k == x.len() || (x[k] as u32) < (y[k] as u32)
}

proof fn lemma_lex_after(p: Seq<int>, a: Seq<int>, b: Seq<int>)
    ensures
        lex_less(p + a, p + b) == lex_less(a, b),
    decreases p.len(),
{
    if p.len() == 0 {
        assert(p + a =~= a);
        assert(p + b =~= b);
    } else {
        assert((p + a)[0] == p[0] && (p + b)[0] == p[0]);
        assert((p + a).skip(1) =~= p.skip(1) + a);
        assert((p + b).skip(1) =~= p.skip(1) + b);
        lemma_lex_after(p.skip(1), a, b);
    }
}

proof fn lemma_lex_at(a: Seq<int>, b: Seq<int>, k: int)
    requires
        0 <= k < a.len(),
        k < b.len(),
        forall|i: int| 0 <= i < k ==> a[i] == #[trigger] b[i],
        a[k] < b[k],
    ensures
        lex_less(a, b),
        !lex_less(b, a),
{
    let p = a.take(k);
    assert(p =~= b.take(k));
    assert(a =~= p + a.skip(k));
    assert(b =~= p + b.skip(k));
    lemma_lex_after(p, a.skip(k), b.skip(k));
    lemma_lex_total(a, b);
}

proof fn lemma_steps_join(a: Seq<Seq<char>>, b: Seq<Seq<char>>)
    ensures
        steps_key(a + b) == steps_key(a) + steps_key(b),
    decreases b.len(),
{
    if b.len() == 0 {
        assert(a + b =~= a);
        assert(steps_key(a) + steps_key(b) =~= steps_key(a));
    } else {
        assert((a + b).drop_last() =~= a + b.drop_last());
        lemma_steps_join(a, b.drop_last());
        assert(steps_key(a + b) =~= steps_key(a) + steps_key(b));
    }
}

proof fn lemma_one_step(x: Seq<char>)
    ensures
        steps_key(seq![x]) == step_key(x),
{
    assert(seq![x].drop_last() =~= Seq::<Seq<char>>::empty());
    assert(seq![x].last() == x);
    reveal_with_fuel(steps_key, 2);
    assert(steps_key(seq![x]) =~= step_key(x));
}

/// A path that is neither absolute nor starts with `.`.
pub open spec fn plain_path(p: Seq<char>) -> bool {
    !(p.len() > 0 && p[0] == '/') && split(p, '/')[0] != "."@
}

/// Paths are ordered step by step, not character by character: the first step in
/// which two paths differ decides, by its own order of characters, whatever stands
/// behind it. A directory comes before what is in it.
pub proof fn law_files_are_ordered_step_by_step(
    a: EntryV,
    b: EntryV,
    dir: Seq<Seq<char>>,
    x: Seq<char>,
    y: Seq<char>,
    behind_x: Seq<Seq<char>>,
    behind_y: Seq<Seq<char>>,
    k: int,
)
    requires
        (a.kind == ChangeKind::Conflicted) == (b.kind == ChangeKind::Conflicted),
        plain_path(a.path) && plain_path(b.path),
        steps(split(a.path, '/')) == dir + seq![x] + behind_x,
        steps(split(b.path, '/')) == dir + seq![y] + behind_y,
        x != ".."@ && y != ".."@,
        name_before(x, y, k),
    ensures
        entry_less(a, b),
        !entry_less(b, a),
{
    let head = steps_key(dir);
    lemma_steps_join(dir + seq![x], behind_x);
    lemma_steps_join(dir, seq![x]);
    lemma_steps_join(dir + seq![y], behind_y);
    lemma_steps_join(dir, seq![y]);
    lemma_one_step(x);
    lemma_one_step(y);
    let (u, v) = (step_key(x) + steps_key(behind_x), step_key(y) + steps_key(behind_y));
    let first: int = if a.kind == ChangeKind::Conflicted {
        0
    } else {
        1
    };
    let p = seq![first] + head;
    assert(entry_key(a) =~= p + u);
    assert(entry_key(b) =~= p + v);
    assert forall|i: int| 0 <= i < k implies u[i] == #[trigger] v[i] by {
        assert(x[i] == y[i]);
    }
    assert(u[k] < v[k]) by {
        if k == x.len() {
            assert(u[k] == -1);
        }
    }
    lemma_lex_at(u, v, k);
    lemma_lex_after(p, u, v);
    lemma_lex_total(entry_key(a), entry_key(b));
}

/// A directory's path comes before the paths of what is in it.
pub proof fn law_a_directory_comes_before_its_files(a: EntryV, b: EntryV, behind: Seq<Seq<char>>)
    requires
        (a.kind == ChangeKind::Conflicted) == (b.kind == ChangeKind::Conflicted),
        plain_path(a.path) && plain_path(b.path),
        steps(split(b.path, '/')) == steps(split(a.path, '/')) + behind,
        behind.len() > 0,
    ensures
        entry_less(a, b),
        !entry_less(b, a),
{
    let (s, t) = (steps(split(a.path, '/')), steps(split(b.path, '/')));
    lemma_steps_join(s, behind);
    let first: int = if a.kind == ChangeKind::Conflicted {
        0
    } else {
        1
    };
    let p = seq![first] + steps_key(s);
    assert(entry_key(a) =~= p + Seq::<int>::empty());
    assert(entry_key(b) =~= p + steps_key(behind));
    assert(step_key(behind.last()).len() > 0);
    lemma_lex_after(p, Seq::empty(), steps_key(behind));
    lemma_lex_total(entry_key(a), entry_key(b));
}

// ---- names of checkouts -----------------------------------------------------------------

/// The digit that a hexadecimal digit stands for.
pub open spec fn hex_digit(c: char) -> int {
    if '0' <= c <= '9' {
        c as u32 - 48
    } else {
        c as u32 - 87
    }
}

/// The number that hexadecimal digits spell.
pub open spec fn hex_value(s: Seq<char>) -> int
    decreases s.len(),
{
    if s.len() == 0 {
        0
    } else {
        16 * hex_value(s.drop_last()) + hex_digit(s.last())
    }
}

/// Sixteen to the power of `w`.
pub open spec fn sixteens(w: nat) -> nat
    decreases w,
{
    if w == 0 {
        1
    } else {
        16 * sixteens((w - 1) as nat)
    }
}

/// Hexadecimal digits spell the number that they were made of, as many of them as
/// were asked for.
pub proof fn law_hex_digits_spell_the_number(n: nat, w: nat)
    requires
        n < sixteens(w),
    ensures
        hex(n, w).len() == w,
        hex_value(hex(n, w)) == n,
        forall|i: int|
            0 <= i < w ==> '0' <= #[trigger] hex(n, w)[i] <= '9' || 'a' <= hex(n, w)[i] <= 'f',
    decreases w,
{
    if w > 0 {
        let v = (w - 1) as nat;
        assert(n / 16 < sixteens(v)) by (nonlinear_arith)
            requires
                n < 16 * sixteens(v),
        ;
        law_hex_digits_spell_the_number(n / 16, v);
        let s = hex(n, w);
        assert(s.drop_last() =~= hex(n / 16, v));
        assert(hex_digit(digit(n % 16)) == n % 16);
        assert forall|i: int| 0 <= i < w implies '0' <= #[trigger] s[i] <= '9' || 'a' <= s[i] <= 'f' by {
            if i < v {
                assert(s[i] == hex(n / 16, v)[i]);
            }
        }
    }
}

/// A checkout is called by the hash of its path in sixteen hexadecimal digits, so
/// that two have one name only where their hashes are the same.
pub proof fn law_checkouts_are_told_apart_by_their_hash(a: Seq<char>, b: Seq<char>)
    ensures
        repo_key(a).len() == 16,
        hex_value(repo_key(a)) == fnv(vstd::utf8::encode_utf8(a)),
        repo_key(a) == repo_key(b) ==> fnv(vstd::utf8::encode_utf8(a)) == fnv(vstd::utf8::encode_utf8(b)),
{
    reveal_with_fuel(sixteens, 17);
    law_hex_digits_spell_the_number(fnv(vstd::utf8::encode_utf8(a)) as nat, 16);
    law_hex_digits_spell_the_number(fnv(vstd::utf8::encode_utf8(b)) as nat, 16);
}

/// The hash takes in every byte: two inputs that differ in their last byte alone have
/// different hashes.
pub proof fn law_the_last_byte_tells(bytes: Seq<u8>, x: u8, y: u8)
    requires
        x != y,
    ensures
        fnv(bytes.push(x)) != fnv(bytes.push(y)),
{
    let h = fnv(bytes);
    assert(bytes.push(x).drop_last() =~= bytes);
    assert(bytes.push(y).drop_last() =~= bytes);
    let (u, v) = (h ^ (x as u64), h ^ (y as u64));
    assert(u != v) by (bit_vector)
        requires
            u == h ^ (x as u64),
            v == h ^ (y as u64),
            x != y,
    ;
    let m: u64 = 0x0000_0100_0000_01b3;
    let inverse: u64 = 0xce96_5057_aff6_957b;
    lemma_times(u, m);
    lemma_times(v, m);
    let (pu, pv) = (fnv(bytes.push(x)), fnv(bytes.push(y)));
    if pu == pv {
        lemma_undone(u);
        lemma_undone(v);
    }
}

proof fn lemma_times(u: u64, m: u64)
    ensures
        ((u * m) % 0x1_0000_0000_0000_0000) as u64 == u.wrapping_mul(m),
{
}

/// Multiplying by the prime can be undone.
proof fn lemma_undone(u: u64)
    ensures
        (((u * 0x0000_0100_0000_01b3) % 0x1_0000_0000_0000_0000) * 0xce96_5057_aff6_957b)
            % 0x1_0000_0000_0000_0000 == u,
{
    let m: int = 0x0000_0100_0000_01b3;
    let inv: int = 0xce96_5057_aff6_957b;
    let n: int = 0x1_0000_0000_0000_0000;
    vstd::arithmetic::div_mod::lemma_mul_mod_noop_left(u * m, inv, n);
    let k = (m * inv) / n;
    assert(m * inv == k * n + 1);
    assert((u * m) * inv == u * (m * inv)) by (nonlinear_arith);
    assert(u * (m * inv) == (u * k) * n + u) by (nonlinear_arith)
        requires
            m * inv == k * n + 1,
    ;
    vstd::arithmetic::div_mod::lemma_fundamental_div_mod_converse((u * m) * inv, n, u * k, u as int);
}

} // verus!
