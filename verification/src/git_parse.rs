//! Readers of git's machine formats.

use vstd::prelude::*;

use crate::git::{ChangeKind, CommitInfo, CommitV, EntryV, FileEntry, ParseError, StageState};
use crate::text::{
    chars_of, deep, find_from, group_deep, index_of_char, lines, lines_of, split, split_of,
    string_of, trim, trim_end, trim_start, trimmed, trimmed_end, trimmed_start,
};

verus! {

// ---- bytes ----------------------------------------------------------------------

/// The text that `String::from_utf8_lossy` makes of bytes.
pub uninterp spec fn lossy_text(bytes: Seq<u8>) -> Seq<char>;

/// `String::from_utf8_lossy`: a function of the bytes alone. Valid UTF-8 is
/// decoded; what it puts in place of anything else is left unsaid.
#[verifier::external_body]
pub(crate) fn lossy(bytes: &[u8]) -> (r: String)
    ensures
        r@ == lossy_text(bytes@),
        vstd::utf8::valid_utf8(bytes@) ==> vstd::utf8::encode_utf8(r@) == bytes@,
{
    String::from_utf8_lossy(bytes).into_owned()
}

// ---- lines ----------------------------------------------------------------------

/// The first line of a message, trimmed; the news without the advice.
pub open spec fn headline(s: Seq<char>) -> Seq<char> {
    if lines(s).len() > 0 {
        trim(lines(s)[0])
    } else {
        trim(s)
    }
}

pub fn first_line(s: &str) -> (r: String)
    ensures
        r@ == headline(s@),
{
    let ls: Vec<String> = lines_of(s);
    if ls.len() > 0 {
        assert(lines(s@)[0] == ls@[0]@);
        trimmed(ls[0].as_str())
    } else {
        trimmed(s)
    }
}

// ---- numbers ----------------------------------------------------------------------

/// The value of a decimal digit.
pub open spec fn digit_value(c: char) -> int {
    c as u32 - '0' as u32
}

pub open spec fn is_digit(c: char) -> bool {
    '0' as u32 <= c as u32 <= '9' as u32
}

/// The number that a row of digits stands for.
pub open spec fn digits_value(s: Seq<char>) -> int
    decreases s.len(),
{
    if s.len() == 0 {
        0
    } else {
        digits_value(s.drop_last()) * 10 + digit_value(s.last())
    }
}

/// The digits of a number, after an optional plus sign.
pub open spec fn unsigned_digits(s: Seq<char>) -> Seq<char> {
    if s.len() > 0 && s[0] == '+' {
        s.skip(1)
    } else {
        s
    }
}

/// The 32-bit number that `s` spells, if it does.
pub open spec fn number(s: Seq<char>) -> Option<u32> {
    let d = unsigned_digits(s);
    if d.len() > 0 && (forall|i: int| 0 <= i < d.len() ==> is_digit(#[trigger] d[i])) && digits_value(d)
        <= u32::MAX {
        Some(digits_value(d) as u32)
    } else {
        None
    }
}

pub fn parse_number(s: &str) -> (r: Option<u32>)
    ensures
        r == number(s@),
{
    let v: Vec<char> = chars_of(s);
    let start: usize = if v.len() > 0 && v[0] == '+' {
        1
    } else {
        0
    };
    let ghost d = unsigned_digits(s@);
    assert(d =~= v@.skip(start as int));
    if start == v.len() {
        return None;
    }
    let mut acc: u64 = 0;
    let mut over: bool = false;
    let mut i: usize = start;
    while i < v.len()
        invariant
            start <= i <= v@.len(),
            d == v@.skip(start as int),
            d == unsigned_digits(s@),
            forall|j: int| 0 <= j < i - start ==> is_digit(#[trigger] d[j]),
            over ==> digits_value(d.take(i - start)) > u32::MAX,
            !over ==> acc == digits_value(d.take(i - start)) && acc <= u32::MAX,
        decreases v@.len() - i,
    {
        let u: u32 = v[i] as u32;
        assert(d[i - start] == v@[i as int]);
        if u < 48 || u > 57 {
            assert(!is_digit(d[i - start]));
            return None;
        }
        assert(d.take(i - start + 1).drop_last() =~= d.take(i - start));
        if !over {
            acc = acc * 10 + (u - 48) as u64;
            if acc > 0xffff_ffff {
                over = true;
            }
        }
        i += 1;
    }
    assert(d.take(d.len() as int) =~= d);
    if over {
        None
    } else {
        Some(acc as u32)
    }
}

// ---- status -----------------------------------------------------------------------

/// A state letter of a status record; `.` where the record has none.
pub open spec fn state_letter(xy: Seq<char>, i: int) -> char {
    if i < xy.len() {
        xy[i]
    } else {
        '.'
    }
}

/// The kind of a change: the index letter decides, else the worktree letter.
pub open spec fn xy_kind(xy: Seq<char>) -> ChangeKind {
    let letter = if state_letter(xy, 0) != '.' {
        state_letter(xy, 0)
    } else {
        state_letter(xy, 1)
    };
    if letter == 'A' {
        ChangeKind::Added
    } else if letter == 'D' {
        ChangeKind::Deleted
    } else if letter == 'R' {
        ChangeKind::Renamed
    } else {
        ChangeKind::Modified
    }
}

/// Where a change stands: staged by the index letter, unstaged by the worktree
/// letter, partial by both.
pub open spec fn xy_stage(xy: Seq<char>) -> StageState {
    if state_letter(xy, 0) != '.' {
        if state_letter(xy, 1) != '.' {
            StageState::Partial
        } else {
            StageState::Staged
        }
    } else {
        StageState::Unstaged
    }
}

fn letter_at(xy: &Vec<char>, i: usize) -> (r: char)
    ensures
        r == state_letter(xy@, i as int),
{
    if i < xy.len() {
        xy[i]
    } else {
        '.'
    }
}

pub fn kind_from_xy(xy: &str) -> (r: ChangeKind)
    ensures
        r == xy_kind(xy@),
{
    let v: Vec<char> = chars_of(xy);
    let x: char = letter_at(&v, 0);
    let y: char = letter_at(&v, 1);
    let letter: char = if x != '.' {
        x
    } else {
        y
    };
    if letter == 'A' {
        ChangeKind::Added
    } else if letter == 'D' {
        ChangeKind::Deleted
    } else if letter == 'R' {
        ChangeKind::Renamed
    } else {
        ChangeKind::Modified
    }
}

pub fn stage_from_xy(xy: &str) -> (r: StageState)
    ensures
        r == xy_stage(xy@),
{
    let v: Vec<char> = chars_of(xy);
    let x: bool = letter_at(&v, 0) != '.';
    let y: bool = letter_at(&v, 1) != '.';
    if x && y {
        StageState::Partial
    } else if x {
        StageState::Staged
    } else {
        StageState::Unstaged
    }
}

/// What follows the first `n` fields of a record, if it has more.
pub open spec fn after_fields(rec: Seq<char>, n: nat) -> Option<Seq<char>>
    decreases n,
{
    if n == 0 {
        Some(rec)
    } else {
        let k = index_of_char(rec, ' ');
        if k >= rec.len() {
            None
        } else {
            after_fields(rec.skip(k + 1), (n - 1) as nat)
        }
    }
}

/// The state letters of a record and the path after its first `n` fields.
pub open spec fn ordinary(rec: Seq<char>, n: nat) -> Result<(Seq<char>, Seq<char>), ParseError> {
    if split(rec, ' ').len() < 2 {
        Err(ParseError::MissingXy)
    } else {
        match after_fields(rec, n) {
            Some(path) => Ok((split(rec, ' ')[1], path)),
            None => Err(ParseError::TooShort),
        }
    }
}

/// Split a status record: the second field holds the state letters, and the
/// path is everything from field `path_field` on (a path may hold spaces).
pub fn split_ordinary(record: &str, path_field: usize) -> (r: Result<(String, String), ParseError>)
    ensures
        match r {
            Ok(p) => ordinary(record@, path_field as nat) == Ok::<(Seq<char>, Seq<char>), ParseError>((p.0@, p.1@)),
            Err(e) => ordinary(record@, path_field as nat) == Err::<(Seq<char>, Seq<char>), ParseError>(e),
        },
{
    broadcast use group_deep;

    let cols: Vec<String> = split_of(record, ' ');
    if cols.len() < 2 {
        return Err(ParseError::MissingXy);
    }
    assert(split(record@, ' ')[1] == cols@[1]@);
    let v: Vec<char> = chars_of(record);
    let mut start: usize = 0;
    let mut n: usize = 0;
    while n < path_field
        invariant
            start <= v@.len(),
            v@ == record@,
            n <= path_field,
            split(record@, ' ').len() >= 2,
            after_fields(record@, path_field as nat) == after_fields(
                record@.skip(start as int),
                (path_field - n) as nat,
            ),
        decreases path_field - n,
    {
        let k: usize = find_from(&v, start, ' ');
        if k == v.len() {
            return Err(ParseError::TooShort);
        }
        assert(record@.skip(start as int).skip(k - start + 1) =~= record@.skip(k + 1));
        start = k + 1;
        n += 1;
    }
    let path: String = string_of(&v, start, v.len());
    assert(path@ =~= record@.skip(start as int));
    Ok((cols[1].clone(), path))
}

pub open spec fn entry(path: Seq<char>, orig_path: Option<Seq<char>>, kind: ChangeKind, stage: StageState) -> EntryV {
    EntryV { path, orig_path, kind, stage, adds: None, dels: None }
}

/// One more entry in front of what the rest of the records hold.
pub open spec fn prepended(e: EntryV, rest: Result<Seq<EntryV>, ParseError>) -> Result<Seq<EntryV>, ParseError> {
    match rest {
        Ok(s) => Ok(seq![e] + s),
        Err(err) => Err(err),
    }
}

/// The entries of a status report, record by record. A rename takes up the
/// field after it; headers and ignored files are passed over.
pub open spec fn porcelain(fields: Seq<Seq<char>>) -> Result<Seq<EntryV>, ParseError>
    decreases fields.len(),
{
    if fields.len() == 0 {
        Ok(Seq::empty())
    } else if fields[0].len() == 0 {
        porcelain(fields.skip(1))
    } else if fields[0][0] == '1' {
        match ordinary(fields[0], 8) {
            Ok(p) => prepended(
                entry(p.1, None, xy_kind(p.0), xy_stage(p.0)),
                porcelain(fields.skip(1)),
            ),
            Err(e) => Err(e),
        }
    } else if fields[0][0] == '2' {
        match ordinary(fields[0], 9) {
            Ok(p) => if fields.len() < 2 {
                Err(ParseError::MissingOrigField)
            } else {
                prepended(
                    entry(p.1, Some(fields[1]), ChangeKind::Renamed, xy_stage(p.0)),
                    porcelain(fields.skip(2)),
                )
            },
            Err(e) => Err(e),
        }
    } else if fields[0][0] == 'u' {
        match ordinary(fields[0], 10) {
            Ok(p) => prepended(
                entry(p.1, None, ChangeKind::Conflicted, StageState::NA),
                porcelain(fields.skip(1)),
            ),
            Err(e) => Err(e),
        }
    } else if fields[0][0] == '?' {
        if fields[0].len() < 2 || fields[0][1] as u32 >= 0x80 {
            Err(ParseError::BadUntracked)
        } else {
            prepended(
                entry(fields[0].skip(2), None, ChangeKind::Untracked, StageState::Untracked),
                porcelain(fields.skip(1)),
            )
        }
    } else {
        porcelain(fields.skip(1))
    }
}

/// The entries found so far, followed by those still to come.
pub open spec fn followed(done: Seq<EntryV>, rest: Result<Seq<EntryV>, ParseError>) -> Result<Seq<EntryV>, ParseError> {
    match rest {
        Ok(s) => Ok(done + s),
        Err(err) => Err(err),
    }
}

proof fn lemma_followed(done: Seq<EntryV>, e: EntryV, rest: Result<Seq<EntryV>, ParseError>)
    ensures
        followed(done, prepended(e, rest)) == followed(done.push(e), rest),
{
    match rest {
        Ok(s) => {
            assert(done + (seq![e] + s) =~= done.push(e) + s);
        },
        Err(_) => {},
    }
}

/// Whether a result is the value, or the error, that a model says.
pub open spec fn entries_are(r: Result<Vec<FileEntry>, ParseError>, m: Result<Seq<EntryV>, ParseError>) -> bool {
    match r {
        Ok(v) => m == Ok::<Seq<EntryV>, ParseError>(deep(v@)),
        Err(e) => m == Err::<Seq<EntryV>, ParseError>(e),
    }
}

fn plain_entry(path: String, orig_path: Option<String>, kind: ChangeKind, stage: StageState) -> (r: FileEntry)
    ensures
        r.deep_view() == entry(path@, orig_path.deep_view(), kind, stage),
{
    FileEntry { path, orig_path, kind, stage, adds: None, dels: None }
}

/// The entries of a status report, given as text.
pub fn parse_porcelain_text(text: &str) -> (r: Result<Vec<FileEntry>, ParseError>)
    ensures
        entries_are(r, porcelain(split(text@, '\0'))),
{
    broadcast use group_deep;

    let fields: Vec<String> = split_of(text, '\0');
    let ghost all = deep(fields@);
    let n: usize = fields.len();
    let mut out: Vec<FileEntry> = Vec::new();
    let mut i: usize = 0;
    assert(followed(deep(out@), porcelain(all)) == porcelain(all)) by {
        match porcelain(all) {
            Ok(s) => {
                assert(Seq::<EntryV>::empty() + s =~= s);
            },
            Err(_) => {},
        }
    }
    while i < n
        invariant
            i <= n == fields@.len(),
            all == deep(fields@),
            all == split(text@, '\0'),
            porcelain(all) == followed(deep(out@), porcelain(all.skip(i as int))),
        decreases n - i,
    {
        let ghost rest = all.skip(i as int);
        let ghost done = deep(out@);
        assert(rest[0] == fields@[i as int]@);
        assert(rest.skip(1) =~= all.skip(i + 1));
        let v: Vec<char> = chars_of(fields[i].as_str());
        if v.len() == 0 {
            i += 1;
        } else if v[0] == '1' {
            match split_ordinary(fields[i].as_str(), 8) {
                Ok(p) => {
                    let kind: ChangeKind = kind_from_xy(p.0.as_str());
                    let stage: StageState = stage_from_xy(p.0.as_str());
                    let e: FileEntry = plain_entry(p.1, None, kind, stage);
                    proof {
                        lemma_followed(done, e.deep_view(), porcelain(rest.skip(1)));
                        assert(porcelain(rest) == prepended(e.deep_view(), porcelain(rest.skip(1))));
                    }
                    let ghost ev = e.deep_view();
                    out.push(e);
                    assert(deep(out@) == done.push(ev));
                    i += 1;
                },
                Err(e) => {
                    return Err(e);
                },
            }
        } else if v[0] == '2' {
            match split_ordinary(fields[i].as_str(), 9) {
                Ok(p) => {
                    if n - i < 2 {
                        return Err(ParseError::MissingOrigField);
                    }
                    assert(rest[1] == fields@[i + 1]@);
                    assert(rest.skip(2) =~= all.skip(i + 2));
                    let stage: StageState = stage_from_xy(p.0.as_str());
                    let e: FileEntry = plain_entry(
                        p.1,
                        Some(fields[i + 1].clone()),
                        ChangeKind::Renamed,
                        stage,
                    );
                    proof {
                        lemma_followed(done, e.deep_view(), porcelain(rest.skip(2)));
                        assert(porcelain(rest) == prepended(e.deep_view(), porcelain(rest.skip(2))));
                    }
                    let ghost ev = e.deep_view();
                    out.push(e);
                    assert(deep(out@) == done.push(ev));
                    i += 2;
                },
                Err(e) => {
                    return Err(e);
                },
            }
        } else if v[0] == 'u' {
            match split_ordinary(fields[i].as_str(), 10) {
                Ok(p) => {
                    let e: FileEntry = plain_entry(
                        p.1,
                        None,
                        ChangeKind::Conflicted,
                        StageState::NA,
                    );
                    proof {
                        lemma_followed(done, e.deep_view(), porcelain(rest.skip(1)));
                        assert(porcelain(rest) == prepended(e.deep_view(), porcelain(rest.skip(1))));
                    }
                    let ghost ev = e.deep_view();
                    out.push(e);
                    assert(deep(out@) == done.push(ev));
                    i += 1;
                },
                Err(e) => {
                    return Err(e);
                },
            }
        } else if v[0] == '?' {
            if v.len() < 2 || v[1] as u32 >= 0x80 {
                return Err(ParseError::BadUntracked);
            }
            let path: String = string_of(&v, 2, v.len());
            assert(path@ =~= rest[0].skip(2));
            let e: FileEntry = plain_entry(path, None, ChangeKind::Untracked, StageState::Untracked);
            proof {
                lemma_followed(done, e.deep_view(), porcelain(rest.skip(1)));
                assert(porcelain(rest) == prepended(e.deep_view(), porcelain(rest.skip(1))));
            }
            let ghost ev = e.deep_view();
            out.push(e);
            assert(deep(out@) == done.push(ev));
            i += 1;
        } else {
            i += 1;
        }
    }
    assert(all.skip(n as int) =~= Seq::<Seq<char>>::empty());
    assert(deep(out@) + Seq::<EntryV>::empty() =~= deep(out@));
    Ok(out)
}

/// The entries of `git status --porcelain=v2 -z`.
pub fn parse_porcelain_v2(raw: &[u8]) -> (r: Result<Vec<FileEntry>, ParseError>)
    ensures
        entries_are(r, porcelain(split(lossy_text(raw@), '\0'))),
{
    let text: String = lossy(raw);
    parse_porcelain_text(text.as_str())
}

// ---- name and status ------------------------------------------------------------

pub open spec fn letter_kind(letter: char) -> ChangeKind {
    if letter == 'A' {
        ChangeKind::Added
    } else if letter == 'D' {
        ChangeKind::Deleted
    } else if letter == 'U' {
        ChangeKind::Conflicted
    } else {
        ChangeKind::Modified
    }
}

/// The entries of a name-status report: a status and a path each, or for a
/// rename or copy a status, the old path and the new one.
pub open spec fn name_status(fields: Seq<Seq<char>>) -> Result<Seq<EntryV>, ParseError>
    decreases fields.len(),
{
    if fields.len() == 0 {
        Ok(Seq::empty())
    } else if fields[0].len() == 0 {
        name_status(fields.skip(1))
    } else if fields[0][0] == 'R' || fields[0][0] == 'C' {
        if fields.len() < 2 {
            Err(ParseError::RenameMissingOrig)
        } else if fields.len() < 3 {
            Err(ParseError::RenameMissingNew)
        } else {
            prepended(
                entry(fields[2], Some(fields[1]), ChangeKind::Renamed, StageState::NA),
                name_status(fields.skip(3)),
            )
        }
    } else if fields.len() < 2 {
        Err(ParseError::MissingPath)
    } else {
        prepended(
            entry(fields[1], None, letter_kind(fields[0][0]), StageState::NA),
            name_status(fields.skip(2)),
        )
    }
}

/// The entries of a name-status report, given as text.
pub fn parse_name_status_text(text: &str) -> (r: Result<Vec<FileEntry>, ParseError>)
    ensures
        entries_are(r, name_status(split(text@, '\0'))),
{
    broadcast use group_deep;

    let fields: Vec<String> = split_of(text, '\0');
    let ghost all = deep(fields@);
    let n: usize = fields.len();
    let mut out: Vec<FileEntry> = Vec::new();
    let mut i: usize = 0;
    assert(followed(deep(out@), name_status(all)) == name_status(all)) by {
        match name_status(all) {
            Ok(s) => {
                assert(Seq::<EntryV>::empty() + s =~= s);
            },
            Err(_) => {},
        }
    }
    while i < n
        invariant
            i <= n == fields@.len(),
            all == deep(fields@),
            all == split(text@, '\0'),
            name_status(all) == followed(deep(out@), name_status(all.skip(i as int))),
        decreases n - i,
    {
        let ghost rest = all.skip(i as int);
        let ghost done = deep(out@);
        assert(rest[0] == fields@[i as int]@);
        let v: Vec<char> = chars_of(fields[i].as_str());
        if v.len() == 0 {
            assert(rest.skip(1) =~= all.skip(i + 1));
            i += 1;
        } else if v[0] == 'R' || v[0] == 'C' {
            if n - i < 2 {
                return Err(ParseError::RenameMissingOrig);
            }
            if n - i < 3 {
                return Err(ParseError::RenameMissingNew);
            }
            assert(rest[1] == fields@[i + 1]@);
            assert(rest[2] == fields@[i + 2]@);
            assert(rest.skip(3) =~= all.skip(i + 3));
            let e: FileEntry = plain_entry(
                fields[i + 2].clone(),
                Some(fields[i + 1].clone()),
                ChangeKind::Renamed,
                StageState::NA,
            );
            proof {
                lemma_followed(done, e.deep_view(), name_status(rest.skip(3)));
                assert(name_status(rest) == prepended(e.deep_view(), name_status(rest.skip(3))));
            }
            let ghost ev = e.deep_view();
            out.push(e);
            assert(deep(out@) == done.push(ev));
            i += 3;
        } else {
            if n - i < 2 {
                return Err(ParseError::MissingPath);
            }
            assert(rest[1] == fields@[i + 1]@);
            assert(rest.skip(2) =~= all.skip(i + 2));
            let kind: ChangeKind = if v[0] == 'A' {
                ChangeKind::Added
            } else if v[0] == 'D' {
                ChangeKind::Deleted
            } else if v[0] == 'U' {
                ChangeKind::Conflicted
            } else {
                ChangeKind::Modified
            };
            let e: FileEntry = plain_entry(fields[i + 1].clone(), None, kind, StageState::NA);
            proof {
                lemma_followed(done, e.deep_view(), name_status(rest.skip(2)));
                assert(name_status(rest) == prepended(e.deep_view(), name_status(rest.skip(2))));
            }
            let ghost ev = e.deep_view();
            out.push(e);
            assert(deep(out@) == done.push(ev));
            i += 2;
        }
    }
    assert(all.skip(n as int) =~= Seq::<Seq<char>>::empty());
    assert(deep(out@) + Seq::<EntryV>::empty() =~= deep(out@));
    Ok(out)
}

/// The entries of `git diff --name-status -z -M`.
pub fn parse_name_status(raw: &[u8]) -> (r: Result<Vec<FileEntry>, ParseError>)
    ensures
        entries_are(r, name_status(split(lossy_text(raw@), '\0'))),
{
    let text: String = lossy(raw);
    parse_name_status_text(text.as_str())
}

// ---- line counts ------------------------------------------------------------------

/// A path with its added and removed lines; `None` for a binary file.
pub type Stat = (Seq<char>, Option<(u32, u32)>);

pub open spec fn stat_of(adds: Seq<char>, dels: Seq<char>) -> Option<(u32, u32)> {
    match (number(adds), number(dels)) {
        (Some(a), Some(d)) => Some((a, d)),
        _ => None,
    }
}

/// The counts of a numstat report. A rename leaves the path column empty and
/// takes up two more fields: the old path and the new one.
pub open spec fn numstat(fields: Seq<Seq<char>>) -> Seq<Stat>
    decreases fields.len(),
{
    if fields.len() == 0 {
        Seq::empty()
    } else {
        let cols = split(fields[0], '\t');
        if fields[0].len() == 0 || cols.len() < 2 {
            numstat(fields.skip(1))
        } else if cols.len() > 2 && cols[2].len() > 0 {
            seq![(cols[2], stat_of(cols[0], cols[1]))] + numstat(fields.skip(1))
        } else if fields.len() >= 3 {
            seq![(fields[2], stat_of(cols[0], cols[1]))] + numstat(fields.skip(3))
        } else {
            Seq::empty()
        }
    }
}

/// The counts of a numstat report, given as text.
pub fn parse_numstat_text(text: &str) -> (r: Vec<(String, Option<(u32, u32)>)>)
    ensures
        deep(r@) == numstat(split(text@, '\0')),
{
    broadcast use group_deep;

    let fields: Vec<String> = split_of(text, '\0');
    let ghost all = deep(fields@);
    let n: usize = fields.len();
    let mut out: Vec<(String, Option<(u32, u32)>)> = Vec::new();
    let mut i: usize = 0;
    assert(deep(out@) + numstat(all) =~= numstat(all));
    while i < n
        invariant
            i <= n == fields@.len(),
            all == deep(fields@),
            all == split(text@, '\0'),
            numstat(all) == deep(out@) + numstat(all.skip(i as int)),
        decreases n - i,
    {
        let ghost rest = all.skip(i as int);
        let ghost done = deep(out@);
        assert(rest[0] == fields@[i as int]@);
        assert(rest.skip(1) =~= all.skip(i + 1));
        let cols: Vec<String> = split_of(fields[i].as_str(), '\t');
        let ghost c = deep(cols@);
        if fields[i].as_str().is_empty() || cols.len() < 2 {
            i += 1;
        } else {
            assert(c[0] == cols@[0]@);
            assert(c[1] == cols@[1]@);
            let stat: Option<(u32, u32)> = match (
                parse_number(cols[0].as_str()),
                parse_number(cols[1].as_str()),
            ) {
                (Some(a), Some(d)) => Some((a, d)),
                _ => None,
            };
            assert(stat == stat_of(c[0], c[1]));
            if cols.len() > 2 && !cols[2].as_str().is_empty() {
                assert(c[2] == cols@[2]@);
                let pair: (String, Option<(u32, u32)>) = (cols[2].clone(), stat);
                assert(pair.deep_view() == (c[2], stat));
                out.push(pair);
                assert(deep(out@) == done.push((c[2], stat)));
                assert(done.push((c[2], stat)) + numstat(rest.skip(1)) =~= done + (seq![(c[2], stat)]
                    + numstat(rest.skip(1))));
                i += 1;
            } else if n - i >= 3 {
                if cols.len() > 2 {
                    assert(c[2] == cols@[2]@);
                }
                assert(rest[2] == fields@[i + 2]@);
                assert(rest.skip(3) =~= all.skip(i + 3));
                let pair: (String, Option<(u32, u32)>) = (fields[i + 2].clone(), stat);
                assert(pair.deep_view() == (rest[2], stat));
                out.push(pair);
                assert(deep(out@) == done.push((rest[2], stat)));
                assert(done.push((rest[2], stat)) + numstat(rest.skip(3)) =~= done + (seq![
                    (rest[2], stat),
                ] + numstat(rest.skip(3))));
                i += 3;
            } else {
                if cols.len() > 2 {
                    assert(c[2] == cols@[2]@);
                }
                assert(numstat(rest) =~= Seq::<Stat>::empty());
                assert(deep(out@) + Seq::<Stat>::empty() =~= deep(out@));
                return out;
            }
        }
    }
    assert(numstat(all.skip(n as int)) =~= Seq::<Stat>::empty());
    assert(deep(out@) + Seq::<Stat>::empty() =~= deep(out@));
    out
}

/// The counts of `git diff --numstat -z`.
pub fn parse_numstat(raw: &[u8]) -> (r: Vec<(String, Option<(u32, u32)>)>)
    ensures
        deep(r@) == numstat(split(lossy_text(raw@), '\0')),
{
    let text: String = lossy(raw);
    parse_numstat_text(text.as_str())
}

// ---- log ----------------------------------------------------------------------------

/// The non-empty names of a comma-separated list.
pub open spec fn names(parts: Seq<Seq<char>>) -> Seq<Seq<char>>
    decreases parts.len(),
{
    if parts.len() == 0 {
        Seq::empty()
    } else {
        let init = names(parts.drop_last());
        if trim(parts.last()).len() == 0 {
            init
        } else {
            init.push(trim(parts.last()))
        }
    }
}

fn names_of(list: &str) -> (r: Vec<String>)
    ensures
        deep(r@) == names(split(list@, ',')),
{
    broadcast use group_deep;

    let parts: Vec<String> = split_of(list, ',');
    let ghost all = deep(parts@);
    let mut out: Vec<String> = Vec::new();
    let mut i: usize = 0;
    while i < parts.len()
        invariant
            i <= parts@.len(),
            all == deep(parts@),
            deep(out@) == names(all.take(i as int)),
        decreases parts@.len() - i,
    {
        assert(all.take(i + 1).drop_last() =~= all.take(i as int));
        assert(all[i as int] == parts@[i as int]@);
        let t: String = trimmed(parts[i].as_str());
        if !t.as_str().is_empty() {
            out.push(t);
        }
        i += 1;
    }
    out
}

pub open spec fn commit(f: Seq<Seq<char>>) -> CommitV {
    CommitV {
        sha: trim_start(f[0]),
        short: f[1],
        author: f[2],
        date: f[3],
        subject: f[4],
        body: trim_end(f[5]),
        refs: names(split(f[6], ',')),
    }
}

/// The commits of a log: seven fields each, up to one without an id.
pub open spec fn log(fields: Seq<Seq<char>>) -> Seq<CommitV>
    decreases fields.len(),
{
    if fields.len() < 7 || trim_start(fields[0]).len() == 0 {
        Seq::empty()
    } else {
        seq![commit(fields)] + log(fields.skip(7))
    }
}

/// The commits of a log, given as text.
pub fn parse_log_text(text: &str) -> (r: Vec<CommitInfo>)
    ensures
        deep(r@) == log(split(text@, '\0')),
{
    broadcast use group_deep;

    let fields: Vec<String> = split_of(text, '\0');
    let ghost all = deep(fields@);
    let n: usize = fields.len();
    let mut out: Vec<CommitInfo> = Vec::new();
    let mut i: usize = 0;
    assert(deep(out@) + log(all) =~= log(all));
    while n - i >= 7
        invariant
            i <= n == fields@.len(),
            all == deep(fields@),
            all == split(text@, '\0'),
            log(all) == deep(out@) + log(all.skip(i as int)),
        decreases n - i,
    {
        let ghost rest = all.skip(i as int);
        let ghost done = deep(out@);
        assert forall|k: int| 0 <= k < 7 implies rest[k] == (#[trigger] fields@[i + k])@ by {}
        assert(rest[0] == fields@[i as int]@);
        let sha: String = trimmed_start(fields[i].as_str());
        if sha.as_str().is_empty() {
            assert(deep(out@) + Seq::<CommitV>::empty() =~= deep(out@));
            return out;
        }
        let c: CommitInfo = CommitInfo {
            sha,
            short: fields[i + 1].clone(),
            author: fields[i + 2].clone(),
            date: fields[i + 3].clone(),
            subject: fields[i + 4].clone(),
            body: trimmed_end(fields[i + 5].as_str()),
            refs: names_of(fields[i + 6].as_str()),
        };
        assert(c.deep_view() == commit(rest));
        let ghost cv = c.deep_view();
        out.push(c);
        assert(deep(out@) == done.push(cv));
        assert(rest.skip(7) =~= all.skip(i + 7));
        assert(done.push(cv) + log(rest.skip(7)) =~= done + (seq![cv] + log(rest.skip(7))));
        i += 7;
    }
    assert(log(all.skip(i as int)) =~= Seq::<CommitV>::empty());
    assert(deep(out@) + Seq::<CommitV>::empty() =~= deep(out@));
    out
}

// ---- untracked files -------------------------------------------------------------------

/// The largest untracked file whose lines are counted.
pub const MAX_COUNTED: usize = 1048576;

/// How far into a file a NUL byte marks it as binary.
pub const BINARY_WINDOW: usize = 8192;

/// How many of the first `n` bytes end a line.
pub open spec fn newlines(bytes: Seq<u8>) -> nat
    decreases bytes.len(),
{
    if bytes.len() == 0 {
        0
    } else {
        newlines(bytes.drop_last()) + if bytes.last() == 10 {
            1nat
        } else {
            0nat
        }
    }
}

/// A NUL byte near the start.
pub open spec fn looks_binary(bytes: Seq<u8>) -> bool {
    exists|i: int| 0 <= i < bytes.len() && i < BINARY_WINDOW && #[trigger] bytes[i] == 0
}

/// An untracked file counts as added in full; a file that cannot be read, is
/// too large or looks binary is not counted.
pub open spec fn whole_file_stat(content: Option<Seq<u8>>) -> (Option<u32>, Option<u32>) {
    match content {
        None => (None, None),
        Some(b) => if b.len() > MAX_COUNTED || looks_binary(b) {
            (None, None)
        } else {
            let tail: nat = if b.len() > 0 && b.last() != 10 {
                1
            } else {
                0
            };
            (Some((newlines(b) + tail) as u32), Some(0))
        },
    }
}

pub fn untracked_stats(content: Option<&[u8]>) -> (r: (Option<u32>, Option<u32>))
    ensures
        r == whole_file_stat(
            match content {
                Some(b) => Some(b@),
                None => None,
            },
        ),
{
    broadcast use group_deep;

    let b: &[u8] = match content {
        None => {
            return (None, None);
        },
        Some(b) => b,
    };
    let n: usize = b.len();
    if n > MAX_COUNTED {
        return (None, None);
    }
    let mut count: u32 = 0;
    let mut i: usize = 0;
    while i < n
        invariant
            i <= n == b@.len(),
            n <= MAX_COUNTED,
            content == Some(b),
            count == newlines(b@.take(i as int)),
            count <= i,
            forall|j: int| 0 <= j < i && j < BINARY_WINDOW ==> #[trigger] b@[j] != 0,
        decreases n - i,
    {
        if i < BINARY_WINDOW && b[i] == 0 {
            assert(b@[i as int] == 0);
            return (None, None);
        }
        proof {
            assert(b@.take(i + 1).drop_last() =~= b@.take(i as int));
        }
        if b[i] == 10 {
            count += 1;
        }
        i += 1;
    }
    if n > 0 && b[n - 1] != 10 {
        count += 1;
    }
    (Some(count), Some(0))
}

} // verus!
