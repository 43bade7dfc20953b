//! What cutting, trimming and spelling out do to any text.

use vstd::prelude::*;

use crate::git_parse::{digits_value, is_digit, number};
use crate::text::{
    decimal, is_blank, is_white, join, lemma_index_of_char_unique, lines, occurs, occurs_at,
    pad_left, split, trim, trim_end, trim_start,
};

verus! {

/// A text without a separator is one field; a separator closes a field and opens
/// the next one.
pub proof fn law_a_separator_closes_a_field(a: Seq<char>, b: Seq<char>, c: char)
    requires
        !a.contains(c),
    ensures
        split(a, c) == seq![a],
        split(a.push(c) + b, c) == seq![a] + split(b, c),
{
    let s = a.push(c) + b;
    assert forall|i: int| 0 <= i < a.len() implies a[i] != c by {
        if a[i] == c {
            assert(a.contains(c));
        }
    }
    assert forall|i: int| 0 <= i < a.len() implies s[i] != c by {
        assert(s[i] == a[i]);
    }
    assert(s[a.len() as int] == c);
    lemma_index_of_char_unique(a, c, a.len() as int);
    lemma_index_of_char_unique(s, c, a.len() as int);
    assert(s.take(a.len() as int) =~= a);
    assert(s.skip(a.len() as int + 1) =~= b);
}

/// A line feed closes a line, a carriage return before it with it; what is left
/// over is a line of its own, unless it is empty.
pub proof fn law_a_line_feed_closes_a_line(a: Seq<char>, b: Seq<char>)
    requires
        !a.contains('\n'),
    ensures
        a.len() > 0 ==> lines(a) == seq![a],
        a.len() == 0 ==> lines(a).len() == 0,
        (a.len() == 0 || a.last() != '\r') ==> lines(a.push('\n') + b) == seq![a] + lines(b),
        lines(a.push('\r').push('\n') + b) == seq![a] + lines(b),
{
    let c = '\n';
    assert forall|i: int| 0 <= i < a.len() implies a[i] != c by {
        if a[i] == c {
            assert(a.contains(c));
        }
    }
    lemma_index_of_char_unique(a, c, a.len() as int);
    let s = a.push(c) + b;
    assert forall|i: int| 0 <= i < a.len() implies s[i] != c by {
        assert(s[i] == a[i]);
    }
    assert(s[a.len() as int] == c);
    lemma_index_of_char_unique(s, c, a.len() as int);
    assert(s.take(a.len() as int) =~= a);
    assert(s.skip(a.len() as int + 1) =~= b);
    let r = a.push('\r');
    let t = r.push(c) + b;
    assert forall|i: int| 0 <= i < r.len() implies t[i] != c by {
        assert(t[i] == r[i]);
    }
    assert(t[r.len() as int] == c);
    lemma_index_of_char_unique(t, c, r.len() as int);
    assert(t.take(r.len() as int) =~= r);
    assert(r.drop_last() =~= a);
    assert(t.skip(r.len() as int + 1) =~= b);
}

/// Trimming the end takes whitespace off, all of it and nothing else.
pub proof fn law_trimming_the_end_takes_whitespace(s: Seq<char>)
    ensures
        trim_end(s).len() <= s.len(),
        trim_end(s) == s.take(trim_end(s).len() as int),
        is_blank(s.skip(trim_end(s).len() as int)),
        trim_end(s).len() > 0 ==> !is_white(trim_end(s).last()),
    decreases s.len(),
{
    let t = trim_end(s);
    if s.len() > 0 && is_white(s.last()) {
        let init = s.drop_last();
        law_trimming_the_end_takes_whitespace(init);
        assert(t =~= s.take(t.len() as int));
        let tail = s.skip(t.len() as int);
        assert forall|i: int| 0 <= i < tail.len() implies is_white(#[trigger] tail[i]) by {
            if i < tail.len() - 1 {
                assert(tail[i] == init.skip(t.len() as int)[i]);
            }
        }
    } else {
        assert(s.take(s.len() as int) =~= s);
    }
}

/// Trimming the start takes whitespace off, all of it and nothing else.
pub proof fn law_trimming_the_start_takes_whitespace(s: Seq<char>)
    ensures
        trim_start(s).len() <= s.len(),
        trim_start(s) == s.skip(s.len() - trim_start(s).len()),
        is_blank(s.take(s.len() - trim_start(s).len())),
        trim_start(s).len() > 0 ==> !is_white(trim_start(s)[0]),
    decreases s.len(),
{
    let t = trim_start(s);
    if s.len() > 0 && is_white(s[0]) {
        let rest = s.skip(1);
        law_trimming_the_start_takes_whitespace(rest);
        let k = s.len() - t.len();
        assert(t =~= s.skip(k));
        let head = s.take(k);
        assert forall|i: int| 0 <= i < head.len() implies is_white(#[trigger] head[i]) by {
            if i > 0 {
                assert(head[i] == rest.take(k - 1)[i - 1]);
            }
        }
    } else {
        assert(s.skip(0) =~= s);
    }
}

/// Trimming leaves a text that has no whitespace at its ends as it is, whatever
/// whitespace is put around it.
pub proof fn law_trimming_undoes_padding(a: Seq<char>, s: Seq<char>, b: Seq<char>)
    requires
        is_blank(a),
        is_blank(b),
        s.len() > 0,
        !is_white(s[0]),
        !is_white(s.last()),
    ensures
        trim(a + s + b) == s,
        trim_end(s + b) == s,
    decreases a.len() + b.len(),
{
    let all = a + s + b;
    if a.len() > 0 {
        assert(is_white(a[0]));
        assert(all.skip(1) =~= a.skip(1) + s + b);
        assert forall|i: int| 0 <= i < a.skip(1).len() implies is_white(#[trigger] a.skip(1)[i]) by {
            assert(is_white(a[i + 1]));
        }
        law_trimming_undoes_padding(a.skip(1), s, b);
        assert(all[0] == a[0]);
    } else {
        assert(all =~= s + b);
        assert(all[0] == s[0]);
        if b.len() > 0 {
            let c = b.drop_last();
            assert(is_white(b[b.len() - 1]));
            assert forall|i: int| 0 <= i < c.len() implies is_white(#[trigger] c[i]) by {
                assert(is_white(b[i]));
            }
            law_trimming_undoes_padding(a, s, c);
            assert((s + b).drop_last() =~= s + c);
            assert(a + s + c =~= s + c);
            assert((s + c)[0] == s[0]);
        } else {
            assert(s + b =~= s);
        }
    }
}

/// A number is spelled in digits that read back as the number, without a leading
/// zero.
pub proof fn law_a_number_reads_back(n: nat)
    ensures
        digits_value(decimal(n)) == n,
        decimal(n).len() > 0,
        forall|i: int| 0 <= i < decimal(n).len() ==> is_digit(#[trigger] decimal(n)[i]),
        n > 0 ==> decimal(n)[0] != '0',
        n <= u32::MAX ==> number(decimal(n)) == Some(n as u32),
    decreases n,
{
    let d = decimal(n);
    reveal_with_fuel(digits_value, 2);
    if n < 10 {
        assert(d.drop_last() =~= Seq::<char>::empty());
    } else {
        law_a_number_reads_back(n / 10);
        assert(d.drop_last() =~= decimal(n / 10));
        assert forall|i: int| 0 <= i < d.len() implies is_digit(#[trigger] d[i]) by {
            if i < d.len() - 1 {
                assert(d[i] == decimal(n / 10)[i]);
            }
        }
    }
    assert(is_digit(d[0]));
}

/// Two numbers that are spelled the same are the same.
pub proof fn law_numbers_are_told_apart(m: nat, n: nat)
    requires
        decimal(m) == decimal(n),
    ensures
        m == n,
{
    law_a_number_reads_back(m);
    law_a_number_reads_back(n);
}

/// A padded text is the text, with nothing but spaces before it, up to the width.
pub proof fn law_padding_is_spaces(s: Seq<char>, n: nat)
    ensures
        ({
            let k = pad_left(s, n).len() - s.len();
            &&& k == if s.len() < n {
                n - s.len()
            } else {
                0
            }
            &&& pad_left(s, n).skip(k) == s
            &&& forall|i: int| 0 <= i < k ==> #[trigger] pad_left(s, n)[i] == ' '
        }),
{
    let k = pad_left(s, n).len() - s.len();
    assert(pad_left(s, n).skip(k) =~= s);
}

/// Texts are joined one behind the other, with the separator between any two.
pub proof fn law_joining_adds_up(a: Seq<Seq<char>>, b: Seq<Seq<char>>, sep: Seq<char>)
    requires
        a.len() > 0,
        b.len() > 0,
    ensures
        join(a + b, sep) == join(a, sep) + sep + join(b, sep),
    decreases b.len(),
{
    let all = a + b;
    assert(all.drop_last() =~= a + b.drop_last());
    assert(all.last() == b.last());
    if b.len() == 1 {
        assert(a + b.drop_last() =~= a);
        assert(b[0] == b.last());
    } else {
        law_joining_adds_up(a, b.drop_last(), sep);
        assert(join(all, sep) =~= join(a, sep) + sep + join(b, sep));
    }
}

/// A joined text holds each of its parts whole.
pub proof fn law_joining_keeps_the_parts(parts: Seq<Seq<char>>, sep: Seq<char>, i: int)
    requires
        0 <= i < parts.len(),
    ensures
        occurs(join(parts, sep), parts[i]),
    decreases parts.len(),
{
    let s = join(parts, sep);
    let t = parts[i];
    if parts.len() == 1 {
        assert(s.subrange(0, s.len() as int) =~= s);
        assert(occurs_at(s, t, 0));
    } else if i == parts.len() - 1 {
        let k = s.len() - t.len();
        assert(s.subrange(k, k + t.len()) =~= t);
        assert(occurs_at(s, t, k));
    } else {
        let init = parts.drop_last();
        law_joining_keeps_the_parts(init, sep, i);
        let u = join(init, sep);
        let k = choose|k: int| occurs_at(u, t, k);
        assert(s.subrange(k, k + t.len()) =~= u.subrange(k, k + t.len()));
        assert(occurs_at(s, t, k));
    }
}

} // verus!
