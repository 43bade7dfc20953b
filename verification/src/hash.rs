//! A hash that is the same in every process and on every machine.

use vstd::prelude::*;

use crate::text::{digit, digit_char};

verus! {

/// FNV-1a, 64 bits: each byte is mixed in by exclusive or, then multiplied.
pub open spec fn fnv(bytes: Seq<u8>) -> u64
    decreases bytes.len(),
{
    if bytes.len() == 0 {
        0xcbf2_9ce4_8422_2325
    } else {
        let mixed = fnv(bytes.drop_last()) ^ (bytes.last() as u64);
        ((mixed * 0x0000_0100_0000_01b3) % 0x1_0000_0000_0000_0000) as u64
    }
}

pub fn fnv1a_bytes(bytes: &[u8]) -> (r: u64)
    ensures
        r == fnv(bytes@),
{
    let mut hash: u64 = 0xcbf2_9ce4_8422_2325;
    let mut i: usize = 0;
    while i < bytes.len()
        invariant
            i <= bytes@.len(),
            hash == fnv(bytes@.take(i as int)),
        decreases bytes@.len() - i,
    {
        proof {
            assert(bytes@.take(i + 1).drop_last() =~= bytes@.take(i as int));
        }
        let mixed: u64 = hash ^ (bytes[i] as u64);
        hash = mixed.wrapping_mul(0x0000_0100_0000_01b3);
        i += 1;
    }
    proof {
        assert(bytes@.take(bytes@.len() as int) =~= bytes@);
    }
    hash
}

/// FNV-1a of a string's UTF-8 bytes.
pub fn fnv1a(s: &str) -> (r: u64)
    ensures
        r == fnv(vstd::utf8::encode_utf8(s@)),
{
    fnv1a_bytes(s.as_bytes())
}

/// The last `w` hexadecimal digits of `n`, with leading zeros.
pub open spec fn hex(n: nat, w: nat) -> Seq<char>
    decreases w,
{
    if w == 0 {
        Seq::empty()
    } else {
        hex(n / 16, (w - 1) as nat).push(digit(n % 16))
    }
}

pub fn hex_of(n: u64, w: usize) -> (r: String)
    ensures
        r@ == hex(n as nat, w as nat),
    decreases w,
{
    if w == 0 {
        String::new()
    } else {
        let mut s: String = hex_of(n / 16, w - 1);
        s.push(digit_char(n % 16));
        s
    }
}

pub proof fn lemma_hex_len(n: nat, w: nat)
    ensures
        hex(n, w).len() == w,
    decreases w,
{
    if w > 0 {
        lemma_hex_len(n / 16, (w - 1) as nat);
    }
}

/// The name of a checkout in file names: sixteen hexadecimal digits.
pub open spec fn repo_key(repo: Seq<char>) -> Seq<char> {
    hex(fnv(vstd::utf8::encode_utf8(repo)) as nat, 16)
}

pub fn repo_hash(repo: &str) -> (r: String)
    ensures
        r@ == repo_key(repo@),
{
    hex_of(fnv1a(repo), 16)
}

} // verus!
