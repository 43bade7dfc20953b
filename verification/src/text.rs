//! Characters, lines and numbers: the string vocabulary that the rest of the
//! library is written in. Every string is modelled by its sequence of
//! characters.

use vstd::prelude::*;

verus! {

// ---- trusted string primitives ---------------------------------------------

/// `String::push` appends the character to the end of the string.
pub assume_specification[ String::push ](s: &mut String, c: char)
    ensures
        final(s)@ == old(s)@.push(c),
;

/// `String::push_str` appends the slice to the end of the string.
pub assume_specification[ String::push_str ](s: &mut String, t: &str)
    ensures
        final(s)@ == old(s)@ + t@,
;

// ---- views of collections ----------------------------------------------------

/// The sequence of the elements' own models.
pub open spec fn deep<T: DeepView>(s: Seq<T>) -> Seq<T::V> {
    Seq::new(s.len(), |i: int| s[i].deep_view())
}

pub broadcast proof fn lemma_deep_push<T: DeepView>(s: Seq<T>, x: T)
    ensures
        #[trigger] deep(s.push(x)) == deep(s).push(x.deep_view()),
{
    assert(deep(s.push(x)) =~= deep(s).push(x.deep_view()));
}

pub broadcast proof fn lemma_deep_add<T: DeepView>(s: Seq<T>, t: Seq<T>)
    ensures
        #[trigger] deep(s + t) == deep(s) + deep(t),
{
    assert(deep(s + t) =~= deep(s) + deep(t));
}

pub broadcast proof fn lemma_deep_empty<T: DeepView>(s: Seq<T>)
    requires
        s.len() == 0,
    ensures
        #[trigger] deep(s) == Seq::<T::V>::empty(),
{
    assert(deep(s) =~= Seq::<T::V>::empty());
}

pub broadcast proof fn lemma_take_all<A>(s: Seq<A>, n: int)
    requires
        n == s.len(),
    ensures
        #[trigger] s.take(n) == s,
{
    assert(s.take(n) =~= s);
}

pub broadcast proof fn lemma_skip_none<A>(s: Seq<A>, n: int)
    requires
        n == 0,
    ensures
        #[trigger] s.skip(n) == s,
{
    assert(s.skip(n) =~= s);
}

pub broadcast group group_deep {
    lemma_deep_push,
    lemma_deep_add,
    lemma_deep_empty,
    lemma_take_all,
    lemma_skip_none,
}

// ---- characters ----------------------------------------------------------------

/// The characters with the Unicode `White_Space` property.
pub open spec fn is_white(c: char) -> bool {
    let u = c as u32;
    ||| 0x9 <= u <= 0xd
    ||| u == 0x20
    ||| u == 0x85
    ||| u == 0xa0
    ||| u == 0x1680
    ||| 0x2000 <= u <= 0x200a
    ||| u == 0x2028
    ||| u == 0x2029
    ||| u == 0x202f
    ||| u == 0x205f
    ||| u == 0x3000
}

pub fn is_whitespace(c: char) -> (r: bool)
    ensures
        r == is_white(c),
{
    let u: u32 = c as u32;
    (0x9 <= u && u <= 0xd) || u == 0x20 || u == 0x85 || u == 0xa0 || u == 0x1680 || (0x2000 <= u
        && u <= 0x200a) || u == 0x2028 || u == 0x2029 || u == 0x202f || u == 0x205f || u == 0x3000
}

// ---- strings and characters -----------------------------------------------------

/// The characters of a string.
pub fn chars_of(s: &str) -> (r: Vec<char>)
    ensures
        r@ == s@,
{
    let mut v: Vec<char> = Vec::new();
    for c in it: s.chars()
        invariant
            it.seq() == s@,
            v@ == s@.take(it.index() as int),
    {
        v.push(c);
    }
    v
}

/// The string made of `v[a..b]`.
pub fn string_of(v: &[char], a: usize, b: usize) -> (r: String)
    requires
        a <= b <= v@.len(),
    ensures
        r@ == v@.subrange(a as int, b as int),
{
    let mut s: String = String::new();
    let mut i: usize = a;
    while i < b
        invariant
            a <= i <= b <= v@.len(),
            s@ == v@.subrange(a as int, i as int),
        decreases b - i,
    {
        s.push(v[i]);
        i += 1;
    }
    s
}

/// Whether two strings hold the same characters.
pub fn same(a: &str, b: &str) -> (r: bool)
    ensures
        r == (a@ == b@),
{
    let x: Vec<char> = chars_of(a);
    let y: Vec<char> = chars_of(b);
    if x.len() != y.len() {
        return false;
    }
    let mut i: usize = 0;
    while i < x.len()
        invariant
            i <= x@.len(),
            x@.len() == y@.len(),
            x@.take(i as int) == y@.take(i as int),
            x@ == a@,
            y@ == b@,
        decreases x@.len() - i,
    {
        if x[i] != y[i] {
            assert(a@[i as int] != b@[i as int]);
            return false;
        }
        assert(x@.take(i + 1) =~= x@.take(i as int).push(x@[i as int]));
        assert(y@.take(i + 1) =~= y@.take(i as int).push(y@[i as int]));
        i += 1;
    }
    assert(x@ =~= y@) by {
        assert(x@.take(x@.len() as int) =~= x@);
        assert(y@.take(y@.len() as int) =~= y@);
    }
    true
}

/// `a` followed by `b`.
pub fn concat2(a: &str, b: &str) -> (r: String)
    ensures
        r@ == a@ + b@,
{
    let mut s: String = String::new();
    s.push_str(a);
    s.push_str(b);
    s
}

/// `a`, then `b`, then `c`.
pub fn concat3(a: &str, b: &str, c: &str) -> (r: String)
    ensures
        r@ == a@ + b@ + c@,
{
    let mut s: String = concat2(a, b);
    s.push_str(c);
    s
}

// ---- searching -------------------------------------------------------------------

/// The first position of `c` in `s`, or the length of `s`.
pub open spec fn index_of_char(s: Seq<char>, c: char) -> int
    decreases s.len(),
{
    if s.len() == 0 {
        0
    } else if s[0] == c {
        0
    } else {
        1 + index_of_char(s.skip(1), c)
    }
}

pub proof fn lemma_index_of_char(s: Seq<char>, c: char)
    ensures
        0 <= index_of_char(s, c) <= s.len(),
        index_of_char(s, c) < s.len() ==> s[index_of_char(s, c)] == c,
        forall|i: int| 0 <= i < index_of_char(s, c) ==> s[i] != c,
    decreases s.len(),
{
    if s.len() > 0 && s[0] != c {
        lemma_index_of_char(s.skip(1), c);
        assert forall|i: int| 0 <= i < index_of_char(s, c) implies s[i] != c by {
            if i > 0 {
                assert(s[i] == s.skip(1)[i - 1]);
            }
        }
    }
}

pub proof fn lemma_index_of_char_unique(s: Seq<char>, c: char, k: int)
    requires
        0 <= k <= s.len(),
        k < s.len() ==> s[k] == c,
        forall|i: int| 0 <= i < k ==> s[i] != c,
    ensures
        index_of_char(s, c) == k,
{
    lemma_index_of_char(s, c);
}

/// The first position of `c` in `v[from..]`, or the length of `v`.
pub fn find_from(v: &[char], from: usize, c: char) -> (r: usize)
    requires
        from <= v@.len(),
    ensures
        from <= r <= v@.len(),
        r == from + index_of_char(v@.skip(from as int), c),
        r < v@.len() ==> v@[r as int] == c,
        forall|i: int| from <= i < r ==> v@[i] != c,
{
    let mut i: usize = from;
    while i < v.len() && v[i] != c
        invariant
            from <= i <= v@.len(),
            forall|j: int| from <= j < i ==> v@[j] != c,
        decreases v@.len() - i,
    {
        i += 1;
    }
    proof {
        lemma_index_of_char_unique(v@.skip(from as int), c, i - from);
    }
    i
}

/// Whether `c` occurs in `s`.
pub fn has_char(s: &str, c: char) -> (r: bool)
    ensures
        r == s@.contains(c),
{
    let v: Vec<char> = chars_of(s);
    let k: usize = find_from(&v, 0, c);
    proof {
        if k < v@.len() {
            assert(s@[k as int] == c);
        }
    }
    k < v.len()
}

/// Whether `t` stands in `s` at position `i`.
pub open spec fn occurs_at(s: Seq<char>, t: Seq<char>, i: int) -> bool {
    0 <= i && i + t.len() <= s.len() && s.subrange(i, i + t.len()) == t
}

/// Whether `t` stands anywhere in `s`.
pub open spec fn occurs(s: Seq<char>, t: Seq<char>) -> bool {
    exists|i: int| occurs_at(s, t, i)
}

/// Whether `t` stands in `v` at position `i`.
pub fn matches_at(v: &[char], t: &[char], i: usize) -> (r: bool)
    requires
        i <= v@.len(),
    ensures
        r == occurs_at(v@, t@, i as int),
{
    let n: usize = v.len();
    if t.len() > n - i {
        return false;
    }
    let mut k: usize = 0;
    while k < t.len()
        invariant
            k <= t@.len(),
            t@.len() <= n - i,
            i <= n == v@.len(),
            forall|j: int| 0 <= j < k ==> v@[i + j] == t@[j],
        decreases t@.len() - k,
    {
        if v[i + k] != t[k] {
            proof {
                assert(v@.subrange(i as int, i + t@.len())[k as int] != t@[k as int]);
            }
            return false;
        }
        k += 1;
    }
    assert(v@.subrange(i as int, i + t@.len()) =~= t@);
    true
}

/// Whether `t` occurs in `s`.
pub fn contains_str(s: &str, t: &str) -> (r: bool)
    ensures
        r == occurs(s@, t@),
{
    let v: Vec<char> = chars_of(s);
    let w: Vec<char> = chars_of(t);
    let mut i: usize = 0;
    loop
        invariant
            i <= v@.len(),
            v@ == s@,
            w@ == t@,
            forall|j: int| 0 <= j < i ==> !occurs_at(s@, t@, j),
        decreases v@.len() - i,
    {
        if matches_at(&v, &w, i) {
            assert(occurs_at(s@, t@, i as int));
            return true;
        }
        if i == v.len() {
            assert(forall|j: int| !occurs_at(s@, t@, j));
            return false;
        }
        i += 1;
    }
}

/// Whether `p` is a prefix of `s`.
pub open spec fn has_prefix(s: Seq<char>, p: Seq<char>) -> bool {
    occurs_at(s, p, 0)
}

/// Whether `p` is a suffix of `s`.
pub open spec fn has_suffix(s: Seq<char>, p: Seq<char>) -> bool {
    occurs_at(s, p, s.len() - p.len())
}

pub fn starts_with(s: &str, p: &str) -> (r: bool)
    ensures
        r == has_prefix(s@, p@),
{
    matches_at(&chars_of(s), &chars_of(p), 0)
}

pub fn ends_with(s: &str, p: &str) -> (r: bool)
    ensures
        r == has_suffix(s@, p@),
{
    let v: Vec<char> = chars_of(s);
    let w: Vec<char> = chars_of(p);
    if w.len() > v.len() {
        return false;
    }
    matches_at(&v, &w, v.len() - w.len())
}

/// What is left of `s` after the prefix `p`, if it has that prefix.
pub open spec fn after_prefix(s: Seq<char>, p: Seq<char>) -> Option<Seq<char>> {
    if has_prefix(s, p) {
        Some(s.skip(p.len() as int))
    } else {
        None
    }
}

pub fn strip_prefix(s: &str, p: &str) -> (r: Option<String>)
    ensures
        r.deep_view() == after_prefix(s@, p@),
{
    let v: Vec<char> = chars_of(s);
    let w: Vec<char> = chars_of(p);
    if matches_at(&v, &w, 0) {
        let t: String = string_of(&v, w.len(), v.len());
        assert(t@ =~= s@.skip(p@.len() as int));
        Some(t)
    } else {
        None
    }
}

// ---- trimming ----------------------------------------------------------------------

/// `s` without its trailing whitespace.
pub open spec fn trim_end(s: Seq<char>) -> Seq<char>
    decreases s.len(),
{
    if s.len() > 0 && is_white(s.last()) {
        trim_end(s.drop_last())
    } else {
        s
    }
}

/// `s` without its leading whitespace.
pub open spec fn trim_start(s: Seq<char>) -> Seq<char>
    decreases s.len(),
{
    if s.len() > 0 && is_white(s[0]) {
        trim_start(s.skip(1))
    } else {
        s
    }
}

/// `s` without whitespace at either end.
pub open spec fn trim(s: Seq<char>) -> Seq<char> {
    trim_end(trim_start(s))
}

/// The end of `v[a..b]` without its trailing whitespace.
pub fn end_of_trim(v: &[char], a: usize, b: usize) -> (r: usize)
    requires
        a <= b <= v@.len(),
    ensures
        a <= r <= b,
        v@.subrange(a as int, r as int) == trim_end(v@.subrange(a as int, b as int)),
{
    let mut e: usize = b;
    while e > a && is_whitespace(v[e - 1])
        invariant
            a <= e <= b <= v@.len(),
            trim_end(v@.subrange(a as int, e as int)) == trim_end(v@.subrange(a as int, b as int)),
        decreases e,
    {
        assert(v@.subrange(a as int, e as int).drop_last() =~= v@.subrange(a as int, e - 1));
        e -= 1;
    }
    e
}

/// The start of `v[a..b]` without its leading whitespace.
pub fn start_of_trim(v: &[char], a: usize, b: usize) -> (r: usize)
    requires
        a <= b <= v@.len(),
    ensures
        a <= r <= b,
        v@.subrange(r as int, b as int) == trim_start(v@.subrange(a as int, b as int)),
{
    let mut i: usize = a;
    while i < b && is_whitespace(v[i])
        invariant
            a <= i <= b <= v@.len(),
            trim_start(v@.subrange(i as int, b as int)) == trim_start(
                v@.subrange(a as int, b as int),
            ),
        decreases b - i,
    {
        assert(v@.subrange(i as int, b as int).skip(1) =~= v@.subrange(i + 1, b as int));
        i += 1;
    }
    i
}

pub fn trimmed_end(s: &str) -> (r: String)
    ensures
        r@ == trim_end(s@),
{
    let v: Vec<char> = chars_of(s);
    let e: usize = end_of_trim(&v, 0, v.len());
    assert(v@.subrange(0, v@.len() as int) =~= s@);
    string_of(&v, 0, e)
}

pub fn trimmed_start(s: &str) -> (r: String)
    ensures
        r@ == trim_start(s@),
{
    let v: Vec<char> = chars_of(s);
    let a: usize = start_of_trim(&v, 0, v.len());
    assert(v@.subrange(0, v@.len() as int) =~= s@);
    string_of(&v, a, v.len())
}

pub fn trimmed(s: &str) -> (r: String)
    ensures
        r@ == trim(s@),
{
    let v: Vec<char> = chars_of(s);
    assert(v@.subrange(0, v@.len() as int) =~= s@);
    let a: usize = start_of_trim(&v, 0, v.len());
    let e: usize = end_of_trim(&v, a, v.len());
    string_of(&v, a, e)
}

/// Whether `s` holds nothing but whitespace.
pub open spec fn is_blank(s: Seq<char>) -> bool {
    forall|i: int| 0 <= i < s.len() ==> is_white(#[trigger] s[i])
}

pub fn blank(s: &str) -> (r: bool)
    ensures
        r == is_blank(s@),
{
    let v: Vec<char> = chars_of(s);
    let mut i: usize = 0;
    while i < v.len()
        invariant
            i <= v@.len(),
            v@ == s@,
            forall|j: int| 0 <= j < i ==> is_white(#[trigger] s@[j]),
        decreases v@.len() - i,
    {
        if !is_whitespace(v[i]) {
            assert(!is_white(s@[i as int]));
            return false;
        }
        i += 1;
    }
    true
}

// ---- lines and fields -----------------------------------------------------------------

/// A line without the carriage return of its line ending.
pub open spec fn strip_cr(s: Seq<char>) -> Seq<char> {
    if s.len() > 0 && s.last() == '\r' {
        s.drop_last()
    } else {
        s
    }
}

/// The lines of a text: what stands between line endings (`\n` or `\r\n`).
/// The ending of the last line is optional.
pub open spec fn lines(s: Seq<char>) -> Seq<Seq<char>>
    decreases s.len(),
{
    let k = index_of_char(s, '\n');
    if s.len() == 0 {
        Seq::empty()
    } else if k < 0 || k >= s.len() {
        seq![s]
    } else {
        seq![strip_cr(s.take(k))] + lines(s.skip(k + 1))
    }
}

/// The fields of `s` between occurrences of `c`; always at least one.
pub open spec fn split(s: Seq<char>, c: char) -> Seq<Seq<char>>
    decreases s.len(),
{
    let k = index_of_char(s, c);
    if k < 0 || k >= s.len() {
        seq![s]
    } else {
        seq![s.take(k)] + split(s.skip(k + 1), c)
    }
}

pub fn lines_of(s: &str) -> (r: Vec<String>)
    ensures
        deep(r@) == lines(s@),
{
    broadcast use group_deep;

    let v: Vec<char> = chars_of(s);
    let mut out: Vec<String> = Vec::new();
    let mut pos: usize = 0;
    assert(s@.skip(0) =~= s@);
    assert(deep(out@) + lines(s@) =~= lines(s@));
    while pos < v.len()
        invariant
            pos <= v@.len(),
            v@ == s@,
            deep(out@) + lines(s@.skip(pos as int)) == lines(s@),
        decreases v@.len() - pos,
    {
        let ghost rest = s@.skip(pos as int);
        let ghost before = deep(out@);
        let k: usize = find_from(&v, pos, '\n');
        if k == v.len() {
            let line: String = string_of(&v, pos, k);
            assert(line@ =~= rest);
            out.push(line);
            pos = v.len();
            assert(lines(s@.skip(pos as int)) =~= Seq::<Seq<char>>::empty());
            assert(deep(out@) + lines(s@.skip(pos as int)) =~= before + lines(rest));
        } else {
            let e: usize = if k > pos && v[k - 1] == '\r' {
                k - 1
            } else {
                k
            };
            let line: String = string_of(&v, pos, e);
            assert(rest.take(k - pos) =~= v@.subrange(pos as int, k as int));
            assert(line@ =~= strip_cr(rest.take(k - pos)));
            out.push(line);
            assert(rest.skip(k - pos + 1) =~= s@.skip(k + 1));
            pos = k + 1;
            assert(deep(out@) + lines(s@.skip(pos as int)) =~= before + lines(rest));
        }
    }
    assert(lines(s@.skip(pos as int)) =~= Seq::<Seq<char>>::empty());
    assert(deep(out@) =~= lines(s@));
    out
}

/// The fields of `v[from..]` between occurrences of `c`.
pub fn split_of(s: &str, c: char) -> (r: Vec<String>)
    ensures
        deep(r@) == split(s@, c),
{
    broadcast use group_deep;

    let v: Vec<char> = chars_of(s);
    let mut out: Vec<String> = Vec::new();
    let mut pos: usize = 0;
    assert(s@.skip(0) =~= s@);
    assert(deep(out@) + split(s@, c) =~= split(s@, c));
    loop
        invariant
            pos <= v@.len(),
            v@ == s@,
            deep(out@) + split(s@.skip(pos as int), c) == split(s@, c),
        decreases v@.len() - pos,
    {
        let ghost rest = s@.skip(pos as int);
        let ghost before = deep(out@);
        let k: usize = find_from(&v, pos, c);
        let field: String = string_of(&v, pos, k);
        out.push(field);
        if k == v.len() {
            assert(field@ =~= rest);
            assert(deep(out@) =~= before + split(rest, c));
            return out;
        }
        assert(field@ =~= rest.take(k - pos));
        assert(rest.skip(k - pos + 1) =~= s@.skip(k + 1));
        pos = k + 1;
        assert(deep(out@) + split(s@.skip(pos as int), c) =~= before + split(rest, c));
    }
}

/// `parts` with `sep` between each two.
pub open spec fn join(parts: Seq<Seq<char>>, sep: Seq<char>) -> Seq<char>
    decreases parts.len(),
{
    if parts.len() == 0 {
        Seq::empty()
    } else if parts.len() == 1 {
        parts[0]
    } else {
        join(parts.drop_last(), sep) + sep + parts.last()
    }
}

pub fn join_of(parts: &[String], sep: &str) -> (r: String)
    ensures
        r@ == join(deep(parts@), sep@),
{
    let mut s: String = String::new();
    let mut i: usize = 0;
    while i < parts.len()
        invariant
            i <= parts@.len(),
            s@ == join(deep(parts@).take(i as int), sep@),
        decreases parts@.len() - i,
    {
        proof {
            assert(deep(parts@).take(i + 1).drop_last() =~= deep(parts@).take(i as int));
        }
        if i > 0 {
            s.push_str(sep);
        }
        s.push_str(parts[i].as_str());
        proof {
            assert(s@ =~= join(deep(parts@).take(i + 1), sep@));
        }
        i += 1;
    }
    assert(deep(parts@).take(parts@.len() as int) =~= deep(parts@));
    s
}

// ---- numbers ---------------------------------------------------------------------------

/// The digit character of `d`, in any base up to sixteen.
pub open spec fn digit(d: nat) -> char {
    if d == 0 { '0' } else if d == 1 { '1' } else if d == 2 { '2' } else if d == 3 { '3' }
    else if d == 4 { '4' } else if d == 5 { '5' } else if d == 6 { '6' } else if d == 7 { '7' }
    else if d == 8 { '8' } else if d == 9 { '9' } else if d == 10 { 'a' } else if d == 11 { 'b' }
    else if d == 12 { 'c' } else if d == 13 { 'd' } else if d == 14 { 'e' } else { 'f' }
}

pub fn digit_char(d: u64) -> (c: char)
    requires
        d < 16,
    ensures
        c == digit(d as nat),
{
    if d == 0 { '0' } else if d == 1 { '1' } else if d == 2 { '2' } else if d == 3 { '3' }
    else if d == 4 { '4' } else if d == 5 { '5' } else if d == 6 { '6' } else if d == 7 { '7' }
    else if d == 8 { '8' } else if d == 9 { '9' } else if d == 10 { 'a' } else if d == 11 { 'b' }
    else if d == 12 { 'c' } else if d == 13 { 'd' } else if d == 14 { 'e' } else { 'f' }
}

/// `n` in decimal, without leading zeros.
pub open spec fn decimal(n: nat) -> Seq<char>
    decreases n,
{
    if n < 10 {
        seq![digit(n)]
    } else {
        decimal(n / 10).push(digit(n % 10))
    }
}

pub fn decimal_of(n: u64) -> (r: String)
    ensures
        r@ == decimal(n as nat),
    decreases n,
{
    let mut s: String = if n < 10 {
        String::new()
    } else {
        decimal_of(n / 10)
    };
    s.push(digit_char(n % 10));
    assert(n < 10 ==> s@ =~= seq![digit(n as nat)]);
    s
}

/// `n` in decimal, with a minus sign where it is negative.
pub open spec fn signed(n: int) -> Seq<char> {
    if n < 0 {
        seq!['-'] + decimal((-n) as nat)
    } else {
        decimal(n as nat)
    }
}

pub fn signed_of(n: i64) -> (r: String)
    ensures
        r@ == signed(n as int),
{
    if n >= 0 {
        decimal_of(n as u64)
    } else {
        let m: u64 = (-(n + 1)) as u64 + 1;
        let mut s: String = String::new();
        s.push('-');
        s.push_str(decimal_of(m).as_str());
        assert(s@ =~= seq!['-'] + decimal(m as nat));
        s
    }
}

/// `n` copies of `c`.
pub open spec fn rep(c: char, n: nat) -> Seq<char> {
    Seq::new(n, |i: int| c)
}

pub fn repeat_char(c: char, n: usize) -> (r: String)
    ensures
        r@ == rep(c, n as nat),
{
    let mut s: String = String::new();
    let mut i: usize = 0;
    while i < n
        invariant
            i <= n,
            s@ == rep(c, i as nat),
        decreases n - i,
    {
        s.push(c);
        assert(s@ =~= rep(c, (i + 1) as nat));
        i += 1;
    }
    s
}

/// `s` padded with spaces on the left to at least `n` characters.
pub open spec fn pad_left(s: Seq<char>, n: nat) -> Seq<char> {
    if s.len() >= n {
        s
    } else {
        rep(' ', (n - s.len()) as nat) + s
    }
}

pub fn padded_left(s: &str, n: usize) -> (r: String)
    ensures
        r@ == pad_left(s@, n as nat),
{
    let v: Vec<char> = chars_of(s);
    if v.len() >= n {
        s.to_owned()
    } else {
        concat2(repeat_char(' ', n - v.len()).as_str(), s)
    }
}

/// Whether a text is in a list.
pub(crate) fn has_text(v: &Vec<String>, s: &str) -> (r: bool)
    ensures
        r == deep(v@).contains(s@),
{
    let ghost all = deep(v@);
    let mut i: usize = 0;
    while i < v.len()
        invariant
            i <= v@.len(),
            all == deep(v@),
            forall|k: int| 0 <= k < i ==> all[k] != s@,
        decreases v@.len() - i,
    {
        assert(all[i as int] == v@[i as int]@);
        if same(v[i].as_str(), s) {
            assert(all[i as int] == s@);
            return true;
        }
        i += 1;
    }
    assert forall|k: int| 0 <= k < all.len() implies all[k] != s@ by {}
    false
}

} // verus!
