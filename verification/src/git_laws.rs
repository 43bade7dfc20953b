//! What git's reports come to, record by record.

use vstd::prelude::*;

use crate::git::{ChangeKind, EntryV, StageState};
use crate::git_parse::{
    after_fields, log, name_status, newlines, number, numstat, ordinary, porcelain, whole_file_stat,
};
use crate::git_stat::sum_for;
use crate::path::same_file;
use crate::text::{decimal, is_blank, is_white, lemma_index_of_char_unique, split, trim_start};
use crate::text_laws::{
    law_a_number_reads_back, law_a_separator_closes_a_field, law_trimming_the_end_takes_whitespace,
};

verus! {

// ---- status ------------------------------------------------------------------------

/// Columns, each closed by a space.
pub open spec fn columns(cols: Seq<Seq<char>>) -> Seq<char>
    decreases cols.len(),
{
    if cols.len() == 0 {
        Seq::empty()
    } else {
        cols[0].push(' ') + columns(cols.skip(1))
    }
}

/// Whether no column holds a space.
pub open spec fn unspaced(cols: Seq<Seq<char>>) -> bool {
    forall|i: int| 0 <= i < cols.len() ==> !(#[trigger] cols[i]).contains(' ')
}

proof fn lemma_columns(cols: Seq<Seq<char>>, path: Seq<char>)
    requires
        unspaced(cols),
    ensures
        after_fields(columns(cols) + path, cols.len()) == Some(path),
        split(columns(cols) + path, ' ') == cols + split(path, ' '),
    decreases cols.len(),
{
    let rec = columns(cols) + path;
    if cols.len() == 0 {
        assert(rec =~= path);
        assert(cols + split(path, ' ') =~= split(path, ' '));
    } else {
        let rest = cols.skip(1);
        let a = cols[0];
        assert forall|i: int| 0 <= i < rest.len() implies !(#[trigger] rest[i]).contains(' ') by {
            assert(rest[i] == cols[i + 1]);
        }
        lemma_columns(rest, path);
        let b = columns(rest) + path;
        assert(rec =~= a.push(' ') + b);
        law_a_separator_closes_a_field(a, b, ' ');
        assert forall|i: int| 0 <= i < a.len() implies rec[i] != ' ' by {
            assert(rec[i] == a[i]);
            if a[i] == ' ' {
                assert(a.contains(' '));
            }
        }
        assert(rec[a.len() as int] == ' ');
        lemma_index_of_char_unique(rec, ' ', a.len() as int);
        assert(rec.skip(a.len() as int + 1) =~= b);
        assert(seq![a] + (rest + split(path, ' ')) =~= cols + split(path, ' '));
    }
}

/// The columns of a status record: what it is of, the two letters, and more.
pub open spec fn status_columns(tag: char, x: char, y: char, more: Seq<Seq<char>>) -> Seq<Seq<char>> {
    seq![seq![tag], seq![x, y]] + more
}

proof fn lemma_status_record(tag: char, x: char, y: char, more: Seq<Seq<char>>, path: Seq<char>)
    requires
        unspaced(more),
        tag != ' ',
        x != ' ',
        y != ' ',
    ensures
        ({
            let rec = columns(status_columns(tag, x, y, more)) + path;
            &&& rec.len() > 0
            &&& rec[0] == tag
            &&& ordinary(rec, more.len() + 2) == Ok::<
                (Seq<char>, Seq<char>),
                crate::git::ParseError,
            >((seq![x, y], path))
        }),
{
    let cols = status_columns(tag, x, y, more);
    assert forall|i: int| 0 <= i < cols.len() implies !(#[trigger] cols[i]).contains(' ') by {
        if i >= 2 {
            assert(cols[i] == more[i - 2]);
        }
    }
    lemma_columns(cols, path);
    assert(cols[1] == seq![x, y]);
    assert((cols + split(path, ' '))[1] == cols[1]);
    assert(cols[0][0] == tag);
}

/// A changed file is listed under its path. The index letter says what happened to
/// it, or the worktree letter where that is a dot: `D` that it was deleted, `A`
/// that it was added, `R` that it was renamed, and any other, such as `M`, that it
/// was modified. It is staged where the index has a letter, unstaged where the
/// worktree has one, and partially staged where both have.
pub proof fn law_a_changed_file_is_listed(x: char, y: char, cols: Seq<Seq<char>>, path: Seq<char>, more: Seq<Seq<char>>, rest: Seq<EntryV>)
    requires
        x != ' ',
        y != ' ',
        cols.len() == 6,
        unspaced(cols),
        porcelain(more) == Ok::<Seq<EntryV>, crate::git::ParseError>(rest),
    ensures
        ({
            let rec = columns(status_columns('1', x, y, cols)) + path;
            &&& porcelain(seq![rec] + more) matches Ok(all)
            &&& all.len() == rest.len() + 1
            &&& all.skip(1) == rest
            &&& all[0].path == path
            &&& all[0].orig_path is None
            &&& all[0].adds is None && all[0].dels is None
            &&& (x == 'D' || (x == '.' && y == 'D')) ==> all[0].kind == ChangeKind::Deleted
            &&& (x == 'A' || (x == '.' && y == 'A')) ==> all[0].kind == ChangeKind::Added
            &&& (x == 'R' || (x == '.' && y == 'R')) ==> all[0].kind == ChangeKind::Renamed
            &&& (x == 'M' || (x == '.' && y == 'M')) ==> all[0].kind == ChangeKind::Modified
            &&& (x == 'T' || (x == '.' && y == 'T')) ==> all[0].kind == ChangeKind::Modified
            &&& (x != '.' && y == '.') ==> all[0].stage == StageState::Staged
            &&& (x == '.' && y != '.') ==> all[0].stage == StageState::Unstaged
            &&& (x != '.' && y != '.') ==> all[0].stage == StageState::Partial
        }),
{
    let rec = columns(status_columns('1', x, y, cols)) + path;
    let fields = seq![rec] + more;
    lemma_status_record('1', x, y, cols, path);
    assert(fields[0] == rec);
    assert(fields.skip(1) =~= more);
    let all = porcelain(fields)->Ok_0;
    assert(all.skip(1) =~= rest);
}

/// A renamed file is listed under its new path, with the old one, which stands in
/// the field behind the record.
pub proof fn law_a_renamed_file_is_listed(x: char, y: char, cols: Seq<Seq<char>>, path: Seq<char>, orig: Seq<char>, more: Seq<Seq<char>>, rest: Seq<EntryV>)
    requires
        x != ' ',
        y != ' ',
        cols.len() == 7,
        unspaced(cols),
        porcelain(more) == Ok::<Seq<EntryV>, crate::git::ParseError>(rest),
    ensures
        ({
            let rec = columns(status_columns('2', x, y, cols)) + path;
            &&& porcelain(seq![rec, orig] + more) matches Ok(all)
            &&& all.len() == rest.len() + 1
            &&& all.skip(1) == rest
            &&& all[0].path == path
            &&& all[0].orig_path == Some(orig)
            &&& all[0].kind == ChangeKind::Renamed
            &&& (x != '.' && y == '.') ==> all[0].stage == StageState::Staged
            &&& (x == '.' && y != '.') ==> all[0].stage == StageState::Unstaged
            &&& (x != '.' && y != '.') ==> all[0].stage == StageState::Partial
        }),
{
    let rec = columns(status_columns('2', x, y, cols)) + path;
    let fields = seq![rec, orig] + more;
    lemma_status_record('2', x, y, cols, path);
    assert(fields[0] == rec && fields[1] == orig);
    assert(fields.skip(2) =~= more);
    let all = porcelain(fields)->Ok_0;
    assert(all.skip(1) =~= rest);
}

/// A file in conflict is listed as that, and can be neither staged nor unstaged; an
/// untracked one is listed as untracked; an ignored one, and a header, is not
/// listed.
pub proof fn law_conflicts_and_strangers_are_listed(x: char, y: char, cols: Seq<Seq<char>>, path: Seq<char>, more: Seq<Seq<char>>, rest: Seq<EntryV>)
    requires
        x != ' ',
        y != ' ',
        cols.len() == 8,
        unspaced(cols),
        porcelain(more) == Ok::<Seq<EntryV>, crate::git::ParseError>(rest),
    ensures
        ({
            let rec = columns(status_columns('u', x, y, cols)) + path;
            &&& porcelain(seq![rec] + more) matches Ok(all)
            &&& all.len() == rest.len() + 1
            &&& all.skip(1) == rest
            &&& all[0].path == path
            &&& all[0].orig_path is None
            &&& all[0].kind == ChangeKind::Conflicted
            &&& all[0].stage == StageState::NA
        }),
        ({
            let rec = seq!['?', ' '] + path;
            &&& porcelain(seq![rec] + more) matches Ok(all)
            &&& all.len() == rest.len() + 1
            &&& all.skip(1) == rest
            &&& all[0].path == path
            &&& all[0].orig_path is None
            &&& all[0].kind == ChangeKind::Untracked
            &&& all[0].stage == StageState::Untracked
        }),
        porcelain(seq![seq!['!', ' '] + path] + more) == porcelain(more),
        porcelain(seq![seq!['#', ' '] + path] + more) == porcelain(more),
        porcelain(seq![Seq::<char>::empty()] + more) == porcelain(more),
{
    let rec = columns(status_columns('u', x, y, cols)) + path;
    lemma_status_record('u', x, y, cols, path);
    let fields = seq![rec] + more;
    assert(fields[0] == rec);
    assert(fields.skip(1) =~= more);
    assert(porcelain(fields)->Ok_0.skip(1) =~= rest);
    let rec = seq!['?', ' '] + path;
    let fields = seq![rec] + more;
    assert(fields[0] == rec);
    assert(rec[0] == '?' && rec[1] == ' ');
    assert(rec.skip(2) =~= path);
    assert(fields.skip(1) =~= more);
    assert(porcelain(fields)->Ok_0.skip(1) =~= rest);
    let rec = seq!['!', ' '] + path;
    let fields = seq![rec] + more;
    assert(fields[0] == rec && rec[0] == '!');
    assert(fields.skip(1) =~= more);
    let rec = seq!['#', ' '] + path;
    let fields = seq![rec] + more;
    assert(fields[0] == rec && rec[0] == '#');
    assert(fields.skip(1) =~= more);
    let fields = seq![Seq::<char>::empty()] + more;
    assert(fields[0].len() == 0);
    assert(fields.skip(1) =~= more);
}

// ---- name and status ------------------------------------------------------------------

/// A file of a branch or a commit is listed under the path behind its letter: `D`
/// for a deleted one, `A` for an added one, `U` for one in conflict, `R` or `C` for
/// one that came from another path, which stands first. Staging does not apply.
pub proof fn law_a_file_of_a_branch_is_listed(letter: char, score: Seq<char>, path: Seq<char>, orig: Seq<char>, more: Seq<Seq<char>>, rest: Seq<EntryV>)
    requires
        name_status(more) == Ok::<Seq<EntryV>, crate::git::ParseError>(rest),
    ensures
        letter != 'R' && letter != 'C' ==> ({
            &&& name_status(seq![seq![letter] + score, path] + more) matches Ok(all)
            &&& all.len() == rest.len() + 1
            &&& all.skip(1) == rest
            &&& all[0].path == path
            &&& all[0].orig_path is None
            &&& all[0].stage == StageState::NA
            &&& letter == 'D' ==> all[0].kind == ChangeKind::Deleted
            &&& letter == 'A' ==> all[0].kind == ChangeKind::Added
            &&& letter == 'U' ==> all[0].kind == ChangeKind::Conflicted
            &&& letter == 'M' || letter == 'T' ==> all[0].kind == ChangeKind::Modified
        }),
        letter == 'R' || letter == 'C' ==> ({
            &&& name_status(seq![seq![letter] + score, orig, path] + more) matches Ok(all)
            &&& all.len() == rest.len() + 1
            &&& all.skip(1) == rest
            &&& all[0].path == path
            &&& all[0].orig_path == Some(orig)
            &&& all[0].kind == ChangeKind::Renamed
            &&& all[0].stage == StageState::NA
        }),
{
    let head = seq![letter] + score;
    assert(head[0] == letter);
    let fields = seq![head, path] + more;
    assert(fields[0] == head && fields[1] == path);
    assert(fields.skip(2) =~= more);
    if letter != 'R' && letter != 'C' {
        assert(name_status(fields)->Ok_0.skip(1) =~= rest);
    }
    let fields = seq![head, orig, path] + more;
    assert(fields[0] == head && fields[1] == orig && fields[2] == path);
    assert(fields.skip(3) =~= more);
    if letter == 'R' || letter == 'C' {
        assert(name_status(fields)->Ok_0.skip(1) =~= rest);
    }
}

// ---- line counts ----------------------------------------------------------------------

/// The field of a line count: two columns and a path, with tabs between.
pub open spec fn count_field(adds: Seq<char>, dels: Seq<char>, path: Seq<char>) -> Seq<char> {
    adds.push('\t') + (dels.push('\t') + path)
}

proof fn lemma_count_field(adds: Seq<char>, dels: Seq<char>, path: Seq<char>)
    requires
        !adds.contains('\t'),
        !dels.contains('\t'),
        !path.contains('\t'),
    ensures
        split(count_field(adds, dels, path), '\t') == seq![adds, dels, path],
{
    law_a_separator_closes_a_field(adds, dels.push('\t') + path, '\t');
    law_a_separator_closes_a_field(dels, path, '\t');
    law_a_separator_closes_a_field(path, path, '\t');
    assert(seq![adds] + (seq![dels] + seq![path]) =~= seq![adds, dels, path]);
}

proof fn lemma_digits_hold_no_tab(n: nat)
    ensures
        !decimal(n).contains('\t'),
        decimal(n).len() > 0,
{
    law_a_number_reads_back(n);
    if decimal(n).contains('\t') {
        let k = decimal(n).index_of('\t');
        assert(crate::git_parse::is_digit(decimal(n)[k]));
    }
}

/// The counts of a file stand under its path: lines added, then lines removed. A
/// file that came from another path has them under the new one, and one that is
/// not text has none.
pub proof fn law_counts_stand_under_their_path(adds: u32, dels: u32, path: Seq<char>, orig: Seq<char>, more: Seq<Seq<char>>)
    requires
        path.len() > 0,
        !path.contains('\t'),
    ensures
        numstat(seq![count_field(decimal(adds as nat), decimal(dels as nat), path)] + more) == seq![
            (path, Some((adds, dels))),
        ] + numstat(more),
        numstat(
            seq![
                count_field(decimal(adds as nat), decimal(dels as nat), Seq::empty()),
                orig,
                path,
            ] + more,
        ) == seq![(path, Some((adds, dels)))] + numstat(more),
        numstat(seq![count_field(seq!['-'], seq!['-'], path)] + more) == seq![
            (path, None::<(u32, u32)>),
        ] + numstat(more),
{
    let (a, d) = (decimal(adds as nat), decimal(dels as nat));
    lemma_digits_hold_no_tab(adds as nat);
    lemma_digits_hold_no_tab(dels as nat);
    law_a_number_reads_back(adds as nat);
    law_a_number_reads_back(dels as nat);
    let none = Seq::<char>::empty();
    lemma_count_field(a, d, path);
    lemma_count_field(a, d, none);
    let dash = seq!['-'];
    lemma_count_field(dash, dash, path);
    let f = seq![count_field(a, d, path)] + more;
    assert(f[0] == count_field(a, d, path));
    assert(f.skip(1) =~= more);
    let f = seq![count_field(a, d, none), orig, path] + more;
    assert(f[0] == count_field(a, d, none) && f[2] == path);
    assert(f.skip(3) =~= more);
    let f = seq![count_field(dash, dash, path)] + more;
    assert(f[0] == count_field(dash, dash, path));
    assert(f.skip(1) =~= more);
    assert(number(dash) is None) by {
        assert(!crate::git_parse::is_digit(dash[0]));
    }
}

/// Counts of one file add up, side by side; one that is not text makes the sum
/// none; and the counts of another file change nothing.
pub proof fn law_counts_add_up(list: Seq<(Seq<char>, Option<(u32, u32)>)>, path: Seq<char>, adds: u32, dels: u32, other: Seq<char>, stat: Option<(u32, u32)>)
    requires
        !same_file(other, path),
    ensures
        sum_for(Seq::empty(), path) is None,
        sum_for(list.push((path, Some((adds, dels)))), path) == match sum_for(list, path) {
            None => Some(Some((adds as int, dels as int))),
            Some(None) => Some(None),
            Some(Some(s)) => Some(Some((s.0 + adds, s.1 + dels))),
        },
        sum_for(list.push((path, None)), path) == Some(None::<(int, int)>),
        sum_for(list.push((other, stat)), path) == sum_for(list, path),
{
    assert(list.push((path, Some((adds, dels)))).drop_last() =~= list);
    assert(list.push((path, None::<(u32, u32)>)).drop_last() =~= list);
    assert(list.push((other, stat)).drop_last() =~= list);
}

/// An untracked text counts a line for every line feed, and one more for what
/// stands behind the last; none of it is removed.
pub proof fn law_an_untracked_text_counts_its_lines(a: Seq<u8>, b: Seq<u8>)
    requires
        a.len() + b.len() + 1 <= 1048576,
        forall|i: int| 0 <= i < a.len() ==> #[trigger] a[i] != 0,
        forall|i: int| 0 <= i < b.len() ==> #[trigger] b[i] != 0 && b[i] != 10,
    ensures
        whole_file_stat(Some(Seq::empty())) == (Some(0u32), Some(0u32)),
        b.len() > 0 ==> whole_file_stat(Some(b)) == (Some(1u32), Some(0u32)),
        ({
            let (n, m) = (whole_file_stat(Some(b.push(10) + a)), whole_file_stat(Some(a)));
            &&& n.0 is Some && m.0 is Some
            &&& n.0->0 == m.0->0 + 1
            &&& n.1 == Some(0u32)
        }),
{
    let all = b.push(10) + a;
    lemma_no_newlines(b);
    lemma_newlines_add(b.push(10), a);
    assert(b.push(10).drop_last() =~= b);
    lemma_newlines_bound(a);
    assert forall|i: int| 0 <= i < all.len() implies #[trigger] all[i] != 0 by {
        if i < b.len() {
            assert(all[i] == b[i]);
        } else if i > b.len() {
            assert(all[i] == a[i - b.len() - 1]);
        }
    }
    if a.len() > 0 {
        assert(all.last() == a.last());
    } else {
        assert(all.last() == 10);
    }
}

proof fn lemma_no_newlines(b: Seq<u8>)
    requires
        forall|i: int| 0 <= i < b.len() ==> #[trigger] b[i] != 10,
    ensures
        newlines(b) == 0,
    decreases b.len(),
{
    if b.len() > 0 {
        assert(b[b.len() - 1] != 10);
        let init = b.drop_last();
        assert forall|i: int| 0 <= i < init.len() implies #[trigger] init[i] != 10 by {
            assert(init[i] == b[i]);
        }
        lemma_no_newlines(init);
    }
}

proof fn lemma_newlines_add(a: Seq<u8>, b: Seq<u8>)
    ensures
        newlines(a + b) == newlines(a) + newlines(b),
    decreases b.len(),
{
    if b.len() > 0 {
        lemma_newlines_add(a, b.drop_last());
        assert((a + b).drop_last() =~= a + b.drop_last());
    } else {
        assert(a + b =~= a);
    }
}

proof fn lemma_newlines_bound(a: Seq<u8>)
    ensures
        newlines(a) <= a.len(),
    decreases a.len(),
{
    if a.len() > 0 {
        lemma_newlines_bound(a.drop_last());
    }
}

// ---- the log --------------------------------------------------------------------------

/// A commit of the log has each of its fields where it belongs, and the commits
/// behind it follow in order. Of its message only whitespace at the end is lost.
pub proof fn law_a_commit_has_its_fields(sha: Seq<char>, short: Seq<char>, author: Seq<char>, date: Seq<char>, subject: Seq<char>, body: Seq<char>, refs: Seq<char>, more: Seq<Seq<char>>)
    requires
        sha.len() > 0,
        !is_white(sha[0]),
    ensures
        ({
            let all = log(seq![sha, short, author, date, subject, body, refs] + more);
            let c = all[0];
            &&& all.len() == log(more).len() + 1
            &&& all.skip(1) == log(more)
            &&& c.sha == sha
            &&& c.short == short
            &&& c.author == author
            &&& c.date == date
            &&& c.subject == subject
            &&& c.body.len() <= body.len()
            &&& c.body == body.take(c.body.len() as int)
            &&& is_blank(body.skip(c.body.len() as int))
            &&& refs.len() == 0 ==> c.refs.len() == 0
            &&& (refs.len() > 0 && !refs.contains(',') && !is_white(refs[0]) && !is_white(refs.last()))
                ==> c.refs == seq![refs]
        }),
        log(seq![seq!['\n'] + sha, short, author, date, subject, body, refs] + more) == log(
            seq![sha, short, author, date, subject, body, refs] + more,
        ),
{
    let f = seq![sha, short, author, date, subject, body, refs] + more;
    assert(f.skip(7) =~= more);
    assert(f[0] == sha && f[1] == short && f[2] == author && f[3] == date && f[4] == subject && f[5]
        == body && f[6] == refs);
    let all = log(f);
    assert(all.skip(1) =~= log(more));
    law_trimming_the_end_takes_whitespace(body);
    reveal_with_fuel(crate::git_parse::names, 2);
    if !refs.contains(',') {
        law_a_separator_closes_a_field(refs, refs, ',');
        let parts = seq![refs];
        assert(parts.drop_last() =~= Seq::<Seq<char>>::empty());
        assert(parts.last() == refs);
        if refs.len() > 0 && !is_white(refs[0]) && !is_white(refs.last()) {
            assert(crate::git_parse::names(parts) =~= seq![refs]);
        }
    }
    if refs.len() == 0 {
        assert(!refs.contains(','));
    }
    let g = seq![seq!['\n'] + sha, short, author, date, subject, body, refs] + more;
    assert(g.skip(7) =~= more);
    let led = seq!['\n'] + sha;
    assert(led.skip(1) =~= sha);
    assert(trim_start(led) == trim_start(sha));
    assert(g[0] == led && g[1] == short && g[2] == author && g[3] == date && g[4] == subject && g[5]
        == body && g[6] == refs);
    assert(crate::git_parse::commit(g) =~= crate::git_parse::commit(f));
}

/// The labels of a commit are the names of a list, cut at its commas, without the
/// whitespace around them; empty ones do not count.
pub proof fn law_labels_are_cut_at_commas(name: Seq<char>, more: Seq<char>)
    requires
        name.len() > 0,
        !name.contains(','),
        !is_white(name[0]),
        !is_white(name.last()),
    ensures
        crate::git_parse::names(split(name + seq![',', ' '] + more, ',')) == seq![name]
            + crate::git_parse::names(split(seq![' '] + more, ',')),
        crate::git_parse::names(split(seq![',', ' '] + more, ',')) == crate::git_parse::names(
            split(seq![' '] + more, ','),
        ),
{
    let tail = seq![' '] + more;
    law_a_separator_closes_a_field(name, tail, ',');
    assert(name + seq![',', ' '] + more =~= name.push(',') + tail);
    lemma_names_front(seq![name], split(tail, ','));
    reveal_with_fuel(crate::git_parse::names, 2);
    let one = seq![name];
    assert(one.drop_last() =~= Seq::<Seq<char>>::empty());
    assert(one.last() == name);
    assert(crate::git_parse::names(one) =~= seq![name]);
    let none = Seq::<char>::empty();
    law_a_separator_closes_a_field(none, tail, ',');
    assert(seq![',', ' '] + more =~= none.push(',') + tail);
    lemma_names_front(seq![none], split(tail, ','));
    let empty = seq![none];
    assert(empty.drop_last() =~= Seq::<Seq<char>>::empty());
    assert(empty.last() == none);
    assert(crate::git_parse::names(empty) =~= Seq::<Seq<char>>::empty());
    assert(crate::git_parse::names(empty) + crate::git_parse::names(split(tail, ','))
        =~= crate::git_parse::names(split(tail, ',')));
}

proof fn lemma_names_front(a: Seq<Seq<char>>, b: Seq<Seq<char>>)
    ensures
        crate::git_parse::names(a + b) == crate::git_parse::names(a) + crate::git_parse::names(b),
    decreases b.len(),
{
    if b.len() > 0 {
        lemma_names_front(a, b.drop_last());
        assert((a + b).drop_last() =~= a + b.drop_last());
        assert(crate::git_parse::names(a + b) =~= crate::git_parse::names(a) + crate::git_parse::names(b));
    } else {
        assert(a + b =~= a);
        assert(crate::git_parse::names(a) + crate::git_parse::names(b) =~= crate::git_parse::names(a));
    }
}

} // verus!
