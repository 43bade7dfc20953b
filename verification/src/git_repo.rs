//! A checkout: the git commands that answer a question about it, and what
//! their output means. Running them is left to the caller.

use vstd::prelude::*;

use crate::git::{
    ChangeKind, CommitInfo, EntryV, FileEntry, GitError, GitOut, ParseError, StageState,
};
use crate::git_order::{in_order, lex_less, sort_entries};
use crate::git_parse::{
    entries_are, first_line, headline, log, lossy, lossy_text, name_status, number, numstat,
    parse_log_text, parse_name_status, parse_number, parse_numstat, parse_porcelain_v2, porcelain,
};
use crate::git_stat::{
    all_countable, all_counted, contents_model, count_entries, count_worktree, merge_list,
    worktree_counted, Stats,
};
use crate::hash::{fnv, fnv1a_bytes};
use crate::path::{is_same_file, last_index_of, rfind, same_file};
use crate::text::{
    after_prefix, chars_of, concat2, concat3, decimal, decimal_of, deep, ends_with, find_from,
    group_deep, has_prefix, has_suffix, has_text, index_of_char, lines, lines_of, same, split,
    string_of, strip_prefix, trim, trimmed,
};

verus! {

/// What came of running git: its output, or why it could not be started.
pub type Ran = Result<GitOut, String>;

pub struct Repo {
    pub root: String,
}

/// The words of a command line.
pub(crate) fn words(ws: &[&str]) -> (r: Vec<String>)
    ensures
        deep(r@) == deep(ws@),
{
    broadcast use group_deep;

    let n: usize = ws.len();
    let mut out: Vec<String> = Vec::new();
    let mut i: usize = 0;
    while i < n
        invariant
            i <= n == ws@.len(),
            deep(out@) == deep(ws@).take(i as int),
        decreases n - i,
    {
        out.push(ws[i].to_owned());
        assert(deep(ws@).take(i + 1) =~= deep(ws@).take(i as int).push(ws@[i as int]@));
        i += 1;
    }
    out
}

fn extend(args: &mut Vec<String>, more: &[String])
    ensures
        deep(final(args)@) == deep(old(args)@) + deep(more@),
{
    broadcast use group_deep;

    let ghost before = deep(args@);
    let n: usize = more.len();
    let mut i: usize = 0;
    assert(before + deep(more@).take(0) =~= before);
    while i < n
        invariant
            i <= n == more@.len(),
            deep(args@) == before + deep(more@).take(i as int),
        decreases n - i,
    {
        let ghost pre = deep(args@);
        args.push(more[i].clone());
        assert(deep(args@) == pre.push(more@[i as int]@));
        assert(deep(more@).take(i + 1) =~= deep(more@).take(i as int).push(more@[i as int]@));
        assert(deep(args@) =~= before + deep(more@).take(i + 1));
        i += 1;
    }
}

/// The trimmed output of a run.
pub open spec fn answer(out: GitOut) -> Seq<char> {
    trim(lossy_text(out.stdout@))
}

fn answer_of(out: &GitOut) -> (r: String)
    ensures
        r@ == answer(*out),
{
    let text: String = lossy(&out.stdout);
    trimmed(text.as_str())
}

/// The trimmed output of a run that succeeded.
pub open spec fn answer_if_ok(ran: Ran) -> Option<Seq<char>> {
    match ran {
        Ok(out) => if out.ok {
            Some(answer(out))
        } else {
            None
        },
        Err(_) => None,
    }
}

pub(crate) fn answer_if_ok_of(ran: &Ran) -> (r: Option<String>)
    ensures
        r.deep_view() == answer_if_ok(*ran),
{
    match ran {
        Ok(out) => if out.ok {
            Some(answer_of(out))
        } else {
            None
        },
        Err(_) => None,
    }
}

/// The output of a run that had to succeed, or the error that says which
/// command failed and what git wrote about it.
pub open spec fn git_result(args: Vec<String>, ran: Ran, r: Result<Vec<u8>, GitError>) -> bool {
    match ran {
        Err(e) => r == Err::<Vec<u8>, GitError>(GitError::Spawn(e)),
        Ok(out) => if out.ok {
            r == Ok::<Vec<u8>, GitError>(out.stdout)
        } else {
            r matches Err(GitError::Failed { args: a, stderr: s }) && a == args && s@ == trim(
                lossy_text(out.stderr@),
            )
        },
    }
}

// ---- branch names ------------------------------------------------------------------

/// The last part of a ref name.
pub open spec fn short_name(name: Seq<char>) -> Seq<char> {
    let k = last_index_of(name, '/');
    if k >= 0 {
        name.skip(k + 1)
    } else {
        name
    }
}

/// How trunk-like a branch name is; lower is more conventional.
pub open spec fn rank(name: Seq<char>) -> int {
    let short = short_name(name);
    if short == "main"@ {
        0
    } else if short == "master"@ {
        1
    } else if short == "next"@ {
        2
    } else if short == "develop"@ || short == "development"@ {
        3
    } else {
        4
    }
}

pub fn conventional_rank(name: &str) -> (r: u8)
    ensures
        r == rank(name@),
        r <= 4,
{
    broadcast use group_deep;

    let v: Vec<char> = chars_of(name);
    let n: usize = v.len();
    let short: String = match rfind(&v, '/') {
        Some(k) => string_of(&v, k + 1, n),
        None => name.to_owned(),
    };
    assert(short@ =~= short_name(name@));
    let s: &str = short.as_str();
    if same(s, "main") {
        0
    } else if same(s, "master") {
        1
    } else if same(s, "next") {
        2
    } else if same(s, "develop") || same(s, "development") {
        3
    } else {
        4
    }
}

/// A trunk name rather than a feature branch.
pub fn is_trunk_name(branch: &str) -> (r: bool)
    ensures
        r == (rank(branch@) < 4),
{
    conventional_rank(branch) < 4
}

/// Whether `name` is the branch itself, here or on a remote.
pub open spec fn own(name: Seq<char>, branch: Option<Seq<char>>, remotes: Seq<Seq<char>>) -> bool {
    match branch {
        Some(b) => name == b || exists|i: int|
            0 <= i < remotes.len() && name == #[trigger] remotes[i] + "/"@ + b,
        None => false,
    }
}

pub fn is_own_branch(name: &str, branch: Option<&str>, remotes: &[String]) -> (r: bool)
    ensures
        r == own(name@, branch.deep_view(), deep(remotes@)),
{
    match branch {
        None => false,
        Some(b) => {
            if same(name, b) {
                return true;
            }
            let n: usize = remotes.len();
            let ghost rs = deep(remotes@);
            let mut i: usize = 0;
            while i < n
                invariant
                    i <= n == remotes@.len(),
                    rs == deep(remotes@),
                    branch == Some(b),
                    name@ != b@,
                    forall|j: int| 0 <= j < i ==> name@ != #[trigger] rs[j] + "/"@ + b@,
                decreases n - i,
            {
                assert(rs[i as int] == remotes@[i as int]@);
                if same(name, concat3(remotes[i].as_str(), "/", b).as_str()) {
                    return true;
                }
                i += 1;
            }
            false
        },
    }
}

// ---- where a branch was cut from ------------------------------------------------------

/// How many ancestor branches are considered.
pub const ANCESTOR_CANDIDATES: usize = 4;

/// The trunk names that are tried.
pub open spec fn trunk_names() -> Seq<Seq<char>> {
    seq![
        "origin/main"@,
        "origin/master"@,
        "origin/next"@,
        "origin/develop"@,
        "main"@,
        "master"@,
        "next"@,
        "develop"@,
    ]
}

fn trunks() -> (r: Vec<String>)
    ensures
        deep(r@) == trunk_names(),
{
    let r: Vec<String> = words(
        &[
            "origin/main",
            "origin/master",
            "origin/next",
            "origin/develop",
            "main",
            "master",
            "next",
            "develop",
        ],
    );
    assert(deep(r@) =~= trunk_names());
    r
}

/// The first `room` refs of a listing that are neither a remote's HEAD nor the
/// branch itself.
pub open spec fn others(ls: Seq<Seq<char>>, branch: Option<Seq<char>>, remotes: Seq<Seq<char>>, room: nat) -> Seq<Seq<char>>
    decreases ls.len(),
{
    if ls.len() == 0 || room == 0 {
        Seq::empty()
    } else {
        let name = trim(ls[0]);
        if name.len() == 0 || has_suffix(name, "/HEAD"@) || own(name, branch, remotes) {
            others(ls.skip(1), branch, remotes, room)
        } else {
            seq![name] + others(ls.skip(1), branch, remotes, (room - 1) as nat)
        }
    }
}

/// The refs of `names` that exist and are not the branch itself, each once.
pub open spec fn trunks_here(names: Seq<Seq<char>>, branch: Option<Seq<char>>, existing: Seq<Seq<char>>, remotes: Seq<Seq<char>>) -> Seq<Seq<char>>
    decreases names.len(),
{
    if names.len() == 0 {
        Seq::empty()
    } else {
        let init = trunks_here(names.drop_last(), branch, existing, remotes);
        if existing.contains(names.last()) && !own(names.last(), branch, remotes) && !init.contains(
            names.last(),
        ) {
            init.push(names.last())
        } else {
            init
        }
    }
}

/// What `origin/HEAD` stands for.
pub open spec fn origin_head(ran: Ran) -> Option<Seq<char>> {
    match answer_if_ok(ran) {
        Some(full) => after_prefix(full, "refs/remotes/"@),
        None => None,
    }
}

fn origin_head_of(ran: &Ran) -> (r: Option<String>)
    ensures
        r.deep_view() == origin_head(*ran),
{
    match answer_if_ok_of(ran) {
        Some(full) => strip_prefix(full.as_str(), "refs/remotes/"),
        None => None,
    }
}

/// A branch that HEAD may have been cut from, and how many commits ago.
pub struct Ancestor {
    pub name: String,
    pub distance: u32,
}

/// A trunk, its merge base with HEAD, and how many commits ago that was.
pub struct Trunk {
    pub name: String,
    pub merge_base: Option<String>,
    pub distance: u32,
}

/// What candidates are ranked by: commits since the divergence, then how
/// conventional the name is, then its length in bytes, then its characters.
pub open spec fn score(name: Seq<char>, distance: u32) -> Seq<int> {
    seq![distance as int, rank(name), vstd::utf8::encode_utf8(name).len() as usize as int] + Seq::new(
        name.len(),
        |i: int| name[i] as u32 as int,
    )
}

/// The candidates that qualify: an ancestor that HEAD has commits on, and a
/// trunk that HEAD diverged from.
pub open spec fn candidates(head: Seq<char>, ancestors: Seq<Ancestor>, trunks: Seq<Trunk>) -> Seq<(Seq<char>, u32)>
    decreases ancestors.len() + trunks.len(),
{
    if trunks.len() > 0 {
        let init = candidates(head, ancestors, trunks.drop_last());
        let t = trunks.last();
        if t.merge_base is Some && t.merge_base->0@ != head && t.merge_base->0@.len() > 0 && t.distance > 0 {
            init.push((t.name@, t.distance))
        } else {
            init
        }
    } else if ancestors.len() > 0 {
        let init = candidates(head, ancestors.drop_last(), trunks);
        if ancestors.last().distance > 0 {
            init.push((ancestors.last().name@, ancestors.last().distance))
        } else {
            init
        }
    } else {
        Seq::empty()
    }
}

/// The candidate of least score; the earliest of equal ones.
pub open spec fn best(c: Seq<(Seq<char>, u32)>) -> Option<(Seq<char>, u32)>
    decreases c.len(),
{
    if c.len() == 0 {
        None
    } else {
        match best(c.drop_last()) {
            None => Some(c.last()),
            Some(b) => if lex_less(score(c.last().0, c.last().1), score(b.0, b.1)) {
                Some(c.last())
            } else {
                Some(b)
            },
        }
    }
}

/// The branch that this one was most likely cut from. A trunk is not cut from
/// anything.
pub open spec fn fork_base(
    head: Option<Seq<char>>,
    branch: Option<Seq<char>>,
    ancestors: Seq<Ancestor>,
    trunks: Seq<Trunk>,
) -> Option<Seq<char>> {
    if head is None || (branch is Some && rank(branch->0) < 4) {
        None
    } else {
        match best(candidates(head->0, ancestors, trunks)) {
            Some(b) => Some(b.0),
            None => None,
        }
    }
}

/// The names of the trunks to look for, with what `origin/HEAD` stands for first.
pub open spec fn trunks_sought(origin: Ran) -> Seq<Seq<char>> {
    match origin_head(origin) {
        Some(name) => seq![name] + trunk_names(),
        None => trunk_names(),
    }
}

fn score_of(name: &str, distance: u32) -> (r: Vec<i128>)
    ensures
        r@.len() == score(name@, distance).len(),
        forall|i: int| 0 <= i < r@.len() ==> #[trigger] r@[i] == score(name@, distance)[i],
{
    let mut key: Vec<i128> = Vec::new();
    key.push(distance as i128);
    key.push(conventional_rank(name) as i128);
    key.push(name.len() as i128);
    let v: Vec<char> = chars_of(name);
    let ghost want = score(name@, distance);
    let mut i: usize = 0;
    while i < v.len()
        invariant
            i <= v@.len(),
            v@ == name@,
            want == score(name@, distance),
            key@.len() == 3 + i,
            forall|k: int| 0 <= k < key@.len() ==> #[trigger] key@[k] == want[k],
        decreases v@.len() - i,
    {
        let u: u32 = v[i] as u32;
        assert(want[3 + i] == u as int);
        key.push(u as i128);
        i += 1;
    }
    key
}

pub open spec fn wide(s: Seq<i128>) -> Seq<int> {
    Seq::new(s.len(), |i: int| s[i] as int)
}

fn score_less(a: &Vec<i128>, b: &Vec<i128>) -> (r: bool)
    ensures
        r == lex_less(wide(a@), wide(b@)),
{
    broadcast use group_deep;

    let ghost x = wide(a@);
    let ghost y = wide(b@);
    let mut i: usize = 0;
    while i < a.len() && i < b.len()
        invariant
            i <= a@.len(),
            i <= b@.len(),
            x == wide(a@),
            y == wide(b@),
            lex_less(x, y) == lex_less(x.skip(i as int), y.skip(i as int)),
        decreases a@.len() - i,
    {
        assert(x.skip(i as int)[0] == a@[i as int]);
        assert(y.skip(i as int)[0] == b@[i as int]);
        if a[i] != b[i] {
            return a[i] < b[i];
        }
        assert(x.skip(i as int).skip(1) =~= x.skip(i + 1));
        assert(y.skip(i as int).skip(1) =~= y.skip(i + 1));
        i += 1;
    }
    i < b.len()
}

/// Whether one candidate scores below another.
fn nearer(a: &str, da: u32, b: &str, db: u32) -> (r: bool)
    ensures
        r == lex_less(score(a@, da), score(b@, db)),
{
    let x: Vec<i128> = score_of(a, da);
    let y: Vec<i128> = score_of(b, db);
    assert(wide(x@) =~= score(a@, da));
    assert(wide(y@) =~= score(b@, db));
    score_less(&x, &y)
}

/// The candidates of a base that is looked up by name alone.
pub open spec fn fallback_names() -> Seq<Seq<char>> {
    seq!["origin/main"@, "origin/master"@, "main"@, "master"@]
}

/// The first name that is present.
pub open spec fn first_present(names: Seq<Seq<char>>, present: Seq<bool>) -> Option<Seq<char>>
    decreases names.len(),
{
    if names.len() == 0 || present.len() == 0 {
        None
    } else if present[0] {
        Some(names[0])
    } else {
        first_present(names.skip(1), present.skip(1))
    }
}

/// The base that branch diffs are taken against: the branch that this one was
/// cut from, else what `origin/HEAD` stands for, else the first usual name that
/// is present, else HEAD.
pub open spec fn base_name(fork: Option<Seq<char>>, origin: Option<Seq<char>>, present: Seq<bool>) -> Seq<char> {
    match fork {
        Some(f) => f,
        None => match origin {
            Some(name) => name,
            None => match first_present(fallback_names(), present) {
                Some(name) => name,
                None => "HEAD"@,
            },
        },
    }
}

/// The names whose flag is set.
pub open spec fn flagged(names: Seq<Seq<char>>, flags: Seq<bool>) -> Seq<Seq<char>>
    decreases names.len(),
{
    if names.len() == 0 {
        Seq::empty()
    } else {
        let init = flagged(names.drop_last(), flags);
        if names.len() <= flags.len() && flags[names.len() - 1] {
            init.push(names.last())
        } else {
            init
        }
    }
}

// ---- command lines -----------------------------------------------------------------------

pub open spec fn log_words(revs: Seq<Seq<char>>, decorate: Seq<Seq<char>>, limit: nat) -> Seq<Seq<char>> {
    let labels = if decorate.len() == 0 {
        Seq::empty()
    } else {
        seq!["--decorate=short"@] + decorate
    };
    seq![
        "log"@,
        "--format=%H%x00%h%x00%an%x00%ad%x00%s%x00%b%x00%D%x00"@,
        "--date=short"@,
        "-n"@,
        decimal(limit),
    ] + labels + revs
}

/// The label flags of the refs that are watched, each as a branch and as a
/// remote branch.
pub open spec fn ref_labels(refs: Seq<Seq<char>>) -> Seq<Seq<char>>
    decreases refs.len(),
{
    if refs.len() == 0 {
        Seq::empty()
    } else {
        ref_labels(refs.drop_last()).push("--decorate-refs=refs/heads/"@ + refs.last()).push(
            "--decorate-refs=refs/remotes/"@ + refs.last(),
        )
    }
}

/// The label flags of a log: HEAD, the current branch, and the watched refs.
pub open spec fn label_words(branch: Option<Seq<char>>, live: Seq<Seq<char>>) -> Seq<Seq<char>> {
    let own = match branch {
        Some(b) => seq!["--decorate-refs=HEAD"@, "--decorate-refs=refs/heads/"@ + b],
        None => seq!["--decorate-refs=HEAD"@],
    };
    own + ref_labels(live)
}

/// The log of HEAD and the watched refs, with their labels; the plain log where
/// no ref is watched.
pub open spec fn watched_log(branch: Option<Seq<char>>, live: Seq<Seq<char>>, limit: nat) -> Seq<Seq<char>> {
    if live.len() == 0 {
        log_words(Seq::empty(), Seq::empty(), limit)
    } else {
        log_words(seq!["HEAD"@] + live, label_words(branch, live), limit)
    }
}

/// The commands that throw away all changes to an entry.
pub open spec fn discard_plan(e: EntryV) -> Seq<Seq<Seq<char>>> {
    let clean = seq!["clean"@, "-f"@, "--"@, e.path];
    let restore = seq!["restore"@, "--"@, e.path];
    let unstage = seq!["restore"@, "--staged"@, "--"@, e.path];
    match e.kind {
        ChangeKind::Untracked => seq![clean],
        ChangeKind::Renamed => {
            let orig = match e.orig_path {
                Some(o) => o,
                None => e.path,
            };
            seq![
                seq!["restore"@, "--staged"@, "--"@, orig, e.path],
                seq!["restore"@, "--"@, orig],
                clean,
            ]
        },
        _ => if e.stage == StageState::Unstaged {
            seq![restore]
        } else if e.kind == ChangeKind::Added {
            seq![unstage, clean]
        } else {
            seq![unstage, restore]
        },
    }
}

/// Whether a file is one of these.
pub open spec fn is_named(paths: Seq<Seq<char>>, file: Seq<char>) -> bool {
    exists|k: int| 0 <= k < paths.len() && same_file(#[trigger] paths[k], file)
}

/// The positions of the files that are among these paths, in order.
pub open spec fn named_places(files: Seq<EntryV>, paths: Seq<Seq<char>>) -> Seq<int>
    decreases files.len(),
{
    if files.len() == 0 {
        Seq::empty()
    } else {
        let init = named_places(files.drop_last(), paths);
        if is_named(paths, files.last().path) {
            init.push(files.len() - 1)
        } else {
            init
        }
    }
}

fn names_file(paths: &Vec<String>, file: &str) -> (r: bool)
    ensures
        r == is_named(deep(paths@), file@),
{
    broadcast use group_deep;

    let ghost all = deep(paths@);
    let mut i: usize = 0;
    while i < paths.len()
        invariant
            i <= paths@.len(),
            all == deep(paths@),
            forall|k: int| 0 <= k < i ==> !same_file(#[trigger] all[k], file@),
        decreases paths@.len() - i,
    {
        assert(all[i as int] == paths@[i as int]@);
        if is_same_file(paths[i].as_str(), file) {
            return true;
        }
        i += 1;
    }
    false
}

/// The models of several command lines.
pub open spec fn plans(v: Seq<Vec<String>>) -> Seq<Seq<Seq<char>>> {
    Seq::new(v.len(), |i: int| deep(v[i]@))
}

/// The remote of the first ref that names one.
pub open spec fn first_remote(refs: Seq<Seq<char>>) -> Option<Seq<char>>
    decreases refs.len(),
{
    if refs.len() == 0 {
        None
    } else {
        let k = index_of_char(refs[0], '/');
        if k < refs[0].len() {
            Some(refs[0].take(k))
        } else {
            first_remote(refs.skip(1))
        }
    }
}

/// The branches of the refs on one remote.
pub open spec fn branches_on(refs: Seq<Seq<char>>, remote: Seq<char>) -> Seq<Seq<char>>
    decreases refs.len(),
{
    if refs.len() == 0 {
        Seq::empty()
    } else {
        let init = branches_on(refs.drop_last(), remote);
        match after_prefix(refs.last(), remote + "/"@) {
            Some(b) => init.push(b),
            None => init,
        }
    }
}

/// How many of the fields between NUL bytes hold something.
pub open spec fn filled_fields(bytes: Seq<u8>) -> nat
    decreases bytes.len(),
{
    if bytes.len() == 0 {
        0
    } else {
        filled_fields(bytes.drop_last()) + if bytes.last() != 0 && (bytes.len() == 1
            || bytes[bytes.len() - 2] == 0) {
            1nat
        } else {
            0nat
        }
    }
}

/// What a look at the status comes to, or the command to run next.
#[derive(Debug)]
pub enum StatusStep {
    Done(Vec<u8>),
    Retry(Vec<String>),
    Fail(GitError),
}

pub open spec fn status_words(show_untracked: bool) -> Seq<Seq<char>> {
    seq![
        "status"@,
        "--porcelain=v2"@,
        "-z"@,
        if show_untracked {
            "--untracked-files=all"@
        } else {
            "--untracked-files=no"@
        },
    ]
}

/// The files changed by a comparison: names, counts, order.
pub open spec fn changes_model(status: Seq<char>, counts: Seq<char>) -> Result<Seq<EntryV>, ParseError> {
    let list = numstat(split(counts, '\0'));
    match name_status(split(status, '\0')) {
        Err(e) => Err(e),
        Ok(s) => if all_countable(list) {
            Ok(in_order(all_counted(s, list)))
        } else {
            Err(ParseError::TooManyLines)
        },
    }
}

/// The paths of untracked entries.
pub open spec fn untracked_of(s: Seq<EntryV>) -> Seq<Seq<char>>
    decreases s.len(),
{
    if s.len() == 0 {
        Seq::empty()
    } else if s.last().kind == ChangeKind::Untracked {
        untracked_of(s.drop_last()).push(s.last().path)
    } else {
        untracked_of(s.drop_last())
    }
}

impl Repo {
    // ---- the checkout -----------------------------------------------------------------

    pub fn discover_args() -> (r: Vec<String>)
        ensures
            deep(r@) == seq!["rev-parse"@, "--show-toplevel"@],
    {
        let r: Vec<String> = words(&["rev-parse", "--show-toplevel"]);
        assert(deep(r@) =~= seq!["rev-parse"@, "--show-toplevel"@]);
        r
    }

    /// The checkout that a directory lies in.
    pub fn discover(dir: &str, ran: Ran) -> (r: Result<Repo, GitError>)
        ensures
            match ran {
                Err(e) => r == Err::<Repo, GitError>(GitError::Spawn(e)),
                Ok(out) => if out.ok {
                    r matches Ok(repo) && repo.root@ == answer(out)
                } else {
                    r matches Err(GitError::NotARepo(d)) && d@ == dir@
                },
            },
    {
        match ran {
            Err(e) => Err(GitError::Spawn(e)),
            Ok(out) => if out.ok {
                Ok(Repo { root: answer_of(&out) })
            } else {
                Err(GitError::NotARepo(dir.to_owned()))
            },
        }
    }

    /// The output of a command that has to succeed.
    pub fn git(args: Vec<String>, ran: Ran) -> (r: Result<Vec<u8>, GitError>)
        ensures
            git_result(args, ran, r),
    {
        match ran {
            Err(e) => Err(GitError::Spawn(e)),
            Ok(out) => if out.ok {
                Ok(out.stdout)
            } else {
                let text: String = lossy(&out.stderr);
                Err(GitError::Failed { args, stderr: trimmed(text.as_str()) })
            },
        }
    }

    // ---- branch and base ----------------------------------------------------------------

    pub fn head_branch_args() -> (r: Vec<String>)
        ensures
            deep(r@) == seq!["symbolic-ref"@, "--quiet"@, "--short"@, "HEAD"@],
    {
        let r: Vec<String> = words(&["symbolic-ref", "--quiet", "--short", "HEAD"]);
        assert(deep(r@) =~= seq!["symbolic-ref"@, "--quiet"@, "--short"@, "HEAD"@]);
        r
    }

    /// The current branch; none when HEAD is detached.
    pub fn head_branch(ran: &Ran) -> (r: Option<String>)
        ensures
            r.deep_view() == answer_if_ok(*ran),
    {
        answer_if_ok_of(ran)
    }

    pub fn head_sha_args() -> (r: Vec<String>)
        ensures
            deep(r@) == seq!["rev-parse"@, "HEAD"@],
    {
        let r: Vec<String> = words(&["rev-parse", "HEAD"]);
        assert(deep(r@) =~= seq!["rev-parse"@, "HEAD"@]);
        r
    }

    /// The commit that HEAD stands on.
    pub fn head_sha(ran: &Ran) -> (r: Option<String>)
        ensures
            r.deep_view() == answer_if_ok(*ran),
    {
        answer_if_ok_of(ran)
    }

    pub fn hash_object_args(path: &str) -> (r: Vec<String>)
        ensures
            deep(r@) == seq!["hash-object"@, "--"@, path@],
    {
        let r: Vec<String> = words(&["hash-object", "--", path]);
        assert(deep(r@) =~= seq!["hash-object"@, "--"@, path@]);
        r
    }

    /// The object id of a file's content; none for what is no readable file.
    pub fn hash_object(is_file: bool, ran: &Ran) -> (r: Option<String>)
        ensures
            r.deep_view() == match answer_if_ok(*ran) {
                Some(s) => if is_file && s.len() > 0 {
                    Some(s)
                } else {
                    None
                },
                None => None,
            },
    {
        if !is_file {
            return None;
        }
        match answer_if_ok_of(ran) {
            Some(s) => if s.as_str().is_empty() {
                None
            } else {
                Some(s)
            },
            None => None,
        }
    }

    pub fn merge_base_args(base: &str) -> (r: Vec<String>)
        ensures
            deep(r@) == seq!["merge-base"@, "HEAD"@, base@],
    {
        let r: Vec<String> = words(&["merge-base", "HEAD", base]);
        assert(deep(r@) =~= seq!["merge-base"@, "HEAD"@, base@]);
        r
    }

    /// The commit where HEAD and `base` diverged.
    pub fn merge_base(base: &str, ran: Ran) -> (r: Result<String, GitError>)
        ensures
            match ran {
                Err(e) => r == Err::<String, GitError>(GitError::Spawn(e)),
                Ok(out) => if out.ok {
                    r matches Ok(s) && s@ == answer(out)
                } else {
                    r matches Err(GitError::Failed { args, stderr }) && deep(args@) == seq![
                        "merge-base"@,
                        "HEAD"@,
                        base@,
                    ] && stderr@ == trim(lossy_text(out.stderr@))
                },
            },
    {
        match Repo::git(Repo::merge_base_args(base), ran) {
            Ok(stdout) => {
                let text: String = lossy(&stdout);
                Ok(trimmed(text.as_str()))
            },
            Err(e) => Err(e),
        }
    }

    pub fn ancestor_refs_args() -> (r: Vec<String>)
        ensures
            deep(r@) == seq![
                "for-each-ref"@,
                "--merged"@,
                "HEAD"@,
                "--sort=-committerdate"@,
                "--format=%(refname:short)"@,
                "refs/heads"@,
                "refs/remotes"@,
            ],
    {
        let r: Vec<String> = words(
            &[
                "for-each-ref",
                "--merged",
                "HEAD",
                "--sort=-committerdate",
                "--format=%(refname:short)",
                "refs/heads",
                "refs/remotes",
            ],
        );
        assert(deep(r@) =~= seq![
            "for-each-ref"@,
            "--merged"@,
            "HEAD"@,
            "--sort=-committerdate"@,
            "--format=%(refname:short)"@,
            "refs/heads"@,
            "refs/remotes"@,
        ]);
        r
    }

    /// The branches whose tip is an ancestor of HEAD, most recent first,
    /// without the branch's own refs.
    pub fn ancestor_refs(listing: &str, branch: Option<&str>, remotes: &[String]) -> (r: Vec<String>)
        ensures
            deep(r@) == others(lines(listing@), branch.deep_view(), deep(remotes@), 4),
    {
        broadcast use group_deep;

        let ls: Vec<String> = lines_of(listing);
        let ghost all = deep(ls@);
        let ghost b = branch.deep_view();
        let ghost rs = deep(remotes@);
        let mut out: Vec<String> = Vec::new();
        let mut i: usize = 0;
        assert(deep(out@) + others(all, b, rs, 4) =~= others(all, b, rs, 4));
        while i < ls.len() && out.len() < ANCESTOR_CANDIDATES
            invariant
                i <= ls@.len(),
                all == deep(ls@),
                b == branch.deep_view(),
                rs == deep(remotes@),
                out@.len() <= 4,
                deep(out@) + others(all.skip(i as int), b, rs, (4 - out@.len()) as nat) == others(
                    all,
                    b,
                    rs,
                    4,
                ),
            decreases ls@.len() - i,
        {
            let ghost rest = all.skip(i as int);
            let ghost done = deep(out@);
            assert(rest[0] == ls@[i as int]@);
            assert(rest.skip(1) =~= all.skip(i + 1));
            let name: String = trimmed(ls[i].as_str());
            if !(name.as_str().is_empty() || ends_with(name.as_str(), "/HEAD") || is_own_branch(
                name.as_str(),
                branch,
                remotes,
            )) {
                let ghost nv = name@;
                let ghost room = (4 - out@.len()) as nat;
                out.push(name);
                assert(deep(out@) == done.push(nv));
                assert(others(rest, b, rs, room) == seq![nv] + others(
                    rest.skip(1),
                    b,
                    rs,
                    (room - 1) as nat,
                ));
                assert(done.push(nv) + others(rest.skip(1), b, rs, (room - 1) as nat) =~= done + (
                seq![nv] + others(rest.skip(1), b, rs, (room - 1) as nat)));
            }
            i += 1;
        }
        assert(others(all.skip(i as int), b, rs, (4 - out@.len()) as nat) =~= Seq::<Seq<char>>::empty());
        assert(deep(out@) + Seq::<Seq<char>>::empty() =~= deep(out@));
        out
    }

    pub fn ref_names_args() -> (r: Vec<String>)
        ensures
            deep(r@) == seq![
                "for-each-ref"@,
                "--format=%(refname:short)"@,
                "refs/heads"@,
                "refs/remotes"@,
            ],
    {
        let r: Vec<String> = words(
            &["for-each-ref", "--format=%(refname:short)", "refs/heads", "refs/remotes"],
        );
        assert(deep(r@) =~= seq![
            "for-each-ref"@,
            "--format=%(refname:short)"@,
            "refs/heads"@,
            "refs/remotes"@,
        ]);
        r
    }

    pub fn remotes_args() -> (r: Vec<String>)
        ensures
            deep(r@) == seq!["remote"@],
    {
        let r: Vec<String> = words(&["remote"]);
        assert(deep(r@) =~= seq!["remote"@]);
        r
    }

    pub fn origin_head_args() -> (r: Vec<String>)
        ensures
            deep(r@) == seq!["symbolic-ref"@, "refs/remotes/origin/HEAD"@],
    {
        let r: Vec<String> = words(&["symbolic-ref", "refs/remotes/origin/HEAD"]);
        assert(deep(r@) =~= seq!["symbolic-ref"@, "refs/remotes/origin/HEAD"@]);
        r
    }

    /// The trunk candidates that exist here, `origin/HEAD` first.
    pub fn trunk_refs(origin: &Ran, branch: Option<&str>, existing: &Vec<String>, remotes: &[String]) -> (r: Vec<String>)
        ensures
            deep(r@) == trunks_here(
                trunks_sought(*origin),
                branch.deep_view(),
                deep(existing@),
                deep(remotes@),
            ),
    {
        broadcast use group_deep;

        let mut names: Vec<String> = Vec::new();
        if let Some(name) = origin_head_of(origin) {
            names.push(name);
        }
        extend(&mut names, &trunks());
        let ghost all = deep(names@);
        assert(all =~= trunks_sought(*origin));
        let ghost b = branch.deep_view();
        let mut out: Vec<String> = Vec::new();
        let mut i: usize = 0;
        while i < names.len()
            invariant
                i <= names@.len(),
                all == deep(names@),
                b == branch.deep_view(),
                deep(out@) == trunks_here(all.take(i as int), b, deep(existing@), deep(remotes@)),
            decreases names@.len() - i,
        {
            assert(all.take(i + 1).drop_last() =~= all.take(i as int));
            assert(all[i as int] == names@[i as int]@);
            if has_text(existing, names[i].as_str()) && !is_own_branch(
                names[i].as_str(),
                branch,
                remotes,
            ) && !has_text(&out, names[i].as_str()) {
                out.push(names[i].clone());
            }
            i += 1;
        }
        out
    }

    pub fn commits_between_args(from: &str, to: &str) -> (r: Vec<String>)
        ensures
            deep(r@) == seq!["rev-list"@, "--count"@, "--max-count=500"@, from@ + ".."@ + to@],
    {
        let range: String = concat3(from, "..", to);
        let r: Vec<String> = words(&["rev-list", "--count", "--max-count=500", range.as_str()]);
        assert(deep(r@) =~= seq!["rev-list"@, "--count"@, "--max-count=500"@, from@ + ".."@ + to@]);
        r
    }

    /// How many commits a range holds; `u32::MAX` when git cannot say.
    pub fn commits_between(ran: &Ran) -> (r: u32)
        ensures
            r == match answer_if_ok(*ran) {
                Some(s) => match number(s) {
                    Some(n) => n,
                    None => u32::MAX,
                },
                None => u32::MAX,
            },
    {
        match answer_if_ok_of(ran) {
            Some(s) => match parse_number(s.as_str()) {
                Some(n) => n,
                None => u32::MAX,
            },
            None => u32::MAX,
        }
    }

    /// The command that counts all commits of HEAD on top of a ref.
    pub fn commits_ahead_args(from: &str) -> (r: Vec<String>)
        ensures
            deep(r@) == seq!["rev-list"@, "--count"@, from@ + "..HEAD"@],
    {
        let range: String = concat2(from, "..HEAD");
        let r: Vec<String> = words(&["rev-list", "--count", range.as_str()]);
        assert(deep(r@) =~= seq!["rev-list"@, "--count"@, from@ + "..HEAD"@]);
        r
    }

    /// How many commits HEAD has on top of a ref, when git can say.
    pub fn commits_ahead(ran: &Ran) -> (r: Option<u32>)
        ensures
            r == match answer_if_ok(*ran) {
                Some(s) => match number(s) {
                    Some(n) => if n == u32::MAX {
                        None
                    } else {
                        Some(n)
                    },
                    None => None,
                },
                None => None,
            },
    {
        let n: u32 = Repo::commits_between(ran);
        if n == u32::MAX {
            None
        } else {
            Some(n)
        }
    }

    /// The branch that this one was most likely cut from: the candidate that
    /// HEAD diverged from most recently. A trunk is not cut from anything.
    pub fn detect_fork_base(head: Option<&str>, branch: Option<&str>, ancestors: &Vec<Ancestor>, trunks: &Vec<Trunk>) -> (r: Option<String>)
        ensures
            r.deep_view() == fork_base(head.deep_view(), branch.deep_view(), ancestors@, trunks@),
    {
        broadcast use group_deep;

        let h: &str = match head {
            Some(h) => h,
            None => {
                return None;
            },
        };
        if let Some(b) = branch {
            if is_trunk_name(b) {
                return None;
            }
        }
        let ghost no_trunks = Seq::<Trunk>::empty();
        let mut found: Option<(String, u32)> = None;
        let mut i: usize = 0;
        while i < ancestors.len()
            invariant
                i <= ancestors@.len(),
                no_trunks == Seq::<Trunk>::empty(),
                found.deep_view() == best(candidates(h@, ancestors@.take(i as int), no_trunks)),
            decreases ancestors@.len() - i,
        {
            assert(ancestors@.take(i + 1).drop_last() =~= ancestors@.take(i as int));
            let a: &Ancestor = &ancestors[i];
            let ghost cs = candidates(h@, ancestors@.take(i as int), no_trunks);
            if a.distance > 0 {
                assert(cs.push((a.name@, a.distance)).drop_last() =~= cs);
                let better: bool = match &found {
                    None => true,
                    Some(f) => nearer(a.name.as_str(), a.distance, f.0.as_str(), f.1),
                };
                if better {
                    found = Some((a.name.clone(), a.distance));
                }
            }
            i += 1;
        }
        let mut i: usize = 0;
        assert(trunks@.take(0) =~= no_trunks);
        while i < trunks.len()
            invariant
                i <= trunks@.len(),
                found.deep_view() == best(candidates(h@, ancestors@, trunks@.take(i as int))),
            decreases trunks@.len() - i,
        {
            assert(trunks@.take(i + 1).drop_last() =~= trunks@.take(i as int));
            let t: &Trunk = &trunks[i];
            let ghost cs = candidates(h@, ancestors@, trunks@.take(i as int));
            let diverged: bool = match &t.merge_base {
                Some(mb) => !same(mb.as_str(), h) && !mb.as_str().is_empty(),
                None => false,
            };
            if diverged && t.distance > 0 {
                assert(cs.push((t.name@, t.distance)).drop_last() =~= cs);
                let better: bool = match &found {
                    None => true,
                    Some(f) => nearer(t.name.as_str(), t.distance, f.0.as_str(), f.1),
                };
                if better {
                    found = Some((t.name.clone(), t.distance));
                }
            }
            i += 1;
        }
        match found {
            Some(f) => Some(f.0),
            None => None,
        }
    }

    pub fn verify_ref_args(name: &str) -> (r: Vec<String>)
        ensures
            deep(r@) == seq!["rev-parse"@, "--verify"@, "--quiet"@, name@],
    {
        let r: Vec<String> = words(&["rev-parse", "--verify", "--quiet", name]);
        assert(deep(r@) =~= seq!["rev-parse"@, "--verify"@, "--quiet"@, name@]);
        r
    }

    /// The names that `detect_base` falls back on, in order.
    pub fn fallbacks() -> (r: Vec<String>)
        ensures
            deep(r@) == fallback_names(),
    {
        let r: Vec<String> = words(&["origin/main", "origin/master", "main", "master"]);
        assert(deep(r@) =~= fallback_names());
        r
    }

    /// The base of branch scope: the branch this one was cut from, else what
    /// `origin/HEAD` stands for, else the first fallback that is present, else
    /// HEAD.
    pub fn detect_base(fork: Option<String>, origin: &Ran, present: &[bool]) -> (r: String)
        ensures
            r@ == base_name(fork.deep_view(), origin_head(*origin), present@),
    {
        broadcast use group_deep;

        if let Some(f) = fork {
            return f;
        }
        if let Some(name) = origin_head_of(origin) {
            return name;
        }
        let names: Vec<String> = Repo::fallbacks();
        let n: usize = present.len();
        let ghost all = deep(names@);
        let mut i: usize = 0;
        while i < names.len() && i < n
            invariant
                i <= names@.len(),
                i <= n == present@.len(),
                all == deep(names@),
                all == fallback_names(),
                fork is None,
                origin_head(*origin) is None,
                first_present(all, present@) == first_present(
                    all.skip(i as int),
                    present@.skip(i as int),
                ),
            decreases n - i,
        {
            assert(all.skip(i as int)[0] == names@[i as int]@);
            if present[i] {
                return names[i].clone();
            }
            proof {
                assert(all.skip(i as int).skip(1) =~= all.skip(i + 1));
                assert(present@.skip(i as int).skip(1) =~= present@.skip(i + 1));
            }
            i += 1;
        }
        "HEAD".to_owned()
    }

    /// The configured base, or the detected one.
    pub fn base_to_use(cfg_base: &str, detected: &str) -> (r: String)
        ensures
            r@ == if cfg_base@.len() == 0 {
                detected@
            } else {
                cfg_base@
            },
    {
        if cfg_base.is_empty() {
            detected.to_owned()
        } else {
            cfg_base.to_owned()
        }
    }

    /// The base and its merge base with HEAD, given what came of asking for
    /// the merge base.
    pub fn resolve_base(cfg_base: &str, detected: &str, ran: Ran) -> (r: Result<(String, String), GitError>)
        ensures
            ({
                let base = if cfg_base@.len() == 0 {
                    detected@
                } else {
                    cfg_base@
                };
                match ran {
                    Err(e) => r == Err::<(String, String), GitError>(GitError::Spawn(e)),
                    Ok(out) => if out.ok {
                        r matches Ok(p) && p.0@ == base && p.1@ == answer(out)
                    } else {
                        r matches Err(GitError::Failed { args, stderr }) && deep(args@) == seq![
                            "merge-base"@,
                            "HEAD"@,
                            base,
                        ] && stderr@ == trim(lossy_text(out.stderr@))
                    },
                }
            }),
    {
        let base: String = Repo::base_to_use(cfg_base, detected);
        match Repo::merge_base(base.as_str(), ran) {
            Ok(mb) => Ok((base, mb)),
            Err(e) => Err(e),
        }
    }

    // ---- status -----------------------------------------------------------------------------

    pub fn status_args(show_untracked: bool) -> (r: Vec<String>)
        ensures
            deep(r@) == status_words(show_untracked),
    {
        let untracked: &str = if show_untracked {
            "--untracked-files=all"
        } else {
            "--untracked-files=no"
        };
        let r: Vec<String> = words(&["status", "--porcelain=v2", "-z", untracked]);
        assert(deep(r@) =~= status_words(show_untracked));
        r
    }

    /// What the status comes to. A repository that git refuses to report on is
    /// asked once more with submodule contents left out.
    pub fn status_raw(show_untracked: bool, first: Ran, retry: Option<Ran>) -> (r: StatusStep)
        ensures
            match first {
                Err(e) => r == StatusStep::Fail(GitError::Spawn(e)),
                Ok(out) => if out.ok {
                    r == StatusStep::Done(out.stdout)
                } else {
                    match retry {
                        None => r matches StatusStep::Retry(args) && deep(args@) == status_words(
                            show_untracked,
                        ).push("--ignore-submodules=dirty"@),
                        Some(Err(e)) => r == StatusStep::Fail(GitError::Spawn(e)),
                        Some(Ok(again)) => if again.ok {
                            r == StatusStep::Done(again.stdout)
                        } else {
                            r matches StatusStep::Fail(GitError::Status(s)) && s@ == headline(
                                trim(lossy_text(out.stderr@)),
                            )
                        },
                    }
                },
            },
    {
        broadcast use group_deep;

        match first {
            Err(e) => StatusStep::Fail(GitError::Spawn(e)),
            Ok(out) => if out.ok {
                StatusStep::Done(out.stdout)
            } else {
                match retry {
                    None => {
                        let mut args: Vec<String> = Repo::status_args(show_untracked);
                        args.push("--ignore-submodules=dirty".to_owned());
                        StatusStep::Retry(args)
                    },
                    Some(Err(e)) => StatusStep::Fail(GitError::Spawn(e)),
                    Some(Ok(again)) => if again.ok {
                        StatusStep::Done(again.stdout)
                    } else {
                        let text: String = lossy(&out.stderr);
                        let err: String = trimmed(text.as_str());
                        StatusStep::Fail(GitError::Status(first_line(err.as_str())))
                    },
                }
            },
        }
    }

    /// The command for the counts of unstaged or staged changes.
    pub fn numstat_args(cached: bool) -> (r: Vec<String>)
        ensures
            deep(r@) == if cached {
                seq!["diff"@, "--numstat"@, "-z"@, "-M"@, "--cached"@]
            } else {
                seq!["diff"@, "--numstat"@, "-z"@, "-M"@]
            },
    {
        if cached {
            let r: Vec<String> = words(&["diff", "--numstat", "-z", "-M", "--cached"]);
            assert(deep(r@) =~= seq!["diff"@, "--numstat"@, "-z"@, "-M"@, "--cached"@]);
            r
        } else {
            let r: Vec<String> = words(&["diff", "--numstat", "-z", "-M"]);
            assert(deep(r@) =~= seq!["diff"@, "--numstat"@, "-z"@, "-M"@]);
            r
        }
    }

    /// The changed files of the worktree, in order, with their counts. The
    /// n-th of `contents` is the content of the n-th untracked file of the
    /// status, where it could be read.
    pub fn worktree_status(status: &[u8], unstaged: &[u8], staged: &[u8], contents: &Vec<Option<Vec<u8>>>) -> (r: Result<Vec<FileEntry>, ParseError>)
        ensures
            ({
                let list = numstat(split(lossy_text(unstaged@), '\0')) + numstat(
                    split(lossy_text(staged@), '\0'),
                );
                entries_are(
                    r,
                    match porcelain(split(lossy_text(status@), '\0')) {
                        Err(e) => Err(e),
                        Ok(s) => if all_countable(list) {
                            Ok(in_order(worktree_counted(s, list, contents_model(contents@))))
                        } else {
                            Err(ParseError::TooManyLines)
                        },
                    },
                )
            }),
    {
        broadcast use group_deep;

        let mut entries: Vec<FileEntry> = match parse_porcelain_v2(status) {
            Ok(v) => v,
            Err(e) => {
                return Err(e);
            },
        };
        let first: Vec<(String, Option<(u32, u32)>)> = parse_numstat(unstaged);
        let second: Vec<(String, Option<(u32, u32)>)> = parse_numstat(staged);
        let ghost one = deep(first@);
        let ghost list = one + deep(second@);
        let mut stats: Stats = Stats::new();
        let ghost none = Seq::<crate::git_parse::Stat>::empty();
        assert(none + one =~= one);
        if !merge_list(&mut stats, &first, Ghost(none)) {
            proof {
                crate::git_stat::lemma_countable_prefix(one, deep(second@));
            }
            return Err(ParseError::TooManyLines);
        }
        if !merge_list(&mut stats, &second, Ghost(one)) {
            return Err(ParseError::TooManyLines);
        }
        count_worktree(&mut entries, &stats, contents, Ghost(list));
        sort_entries(&mut entries);
        Ok(entries)
    }

    /// The paths of the untracked files of a status, in its order.
    pub fn untracked_paths(entries: &Vec<FileEntry>) -> (r: Vec<String>)
        ensures
            deep(r@) == untracked_of(deep(entries@)),
    {
        broadcast use group_deep;

        let ghost all = deep(entries@);
        let mut out: Vec<String> = Vec::new();
        let mut i: usize = 0;
        while i < entries.len()
            invariant
                i <= entries@.len(),
                all == deep(entries@),
                deep(out@) == untracked_of(all.take(i as int)),
            decreases entries@.len() - i,
        {
            assert(all.take(i + 1).drop_last() =~= all.take(i as int));
            assert(all[i as int] == entries@[i as int].deep_view());
            if entries[i].kind == ChangeKind::Untracked {
                out.push(entries[i].path.clone());
            }
            i += 1;
        }
        out
    }

    /// The changed files of a comparison, in order, with their counts.
    fn changes(status: &[u8], counts: &[u8]) -> (r: Result<Vec<FileEntry>, ParseError>)
        ensures
            entries_are(r, changes_model(lossy_text(status@), lossy_text(counts@))),
    {
        broadcast use group_deep;

        let mut entries: Vec<FileEntry> = match parse_name_status(status) {
            Ok(v) => v,
            Err(e) => {
                return Err(e);
            },
        };
        let first: Vec<(String, Option<(u32, u32)>)> = parse_numstat(counts);
        let ghost list = deep(first@);
        let mut stats: Stats = Stats::new();
        let ghost none = Seq::<crate::git_parse::Stat>::empty();
        assert(none + list =~= list);
        if !merge_list(&mut stats, &first, Ghost(none)) {
            return Err(ParseError::TooManyLines);
        }
        count_entries(&mut entries, &stats, Ghost(list));
        sort_entries(&mut entries);
        Ok(entries)
    }

    /// The commands for the changes since a merge base: names, or counts.
    pub fn branch_changes_args(merge_base: &str, counts: bool) -> (r: Vec<String>)
        ensures
            deep(r@) == seq![
                "diff"@,
                merge_base@,
                if counts {
                    "--numstat"@
                } else {
                    "--name-status"@
                },
                "-z"@,
                "-M"@,
            ],
    {
        let what: &str = if counts {
            "--numstat"
        } else {
            "--name-status"
        };
        let r: Vec<String> = words(&["diff", merge_base, what, "-z", "-M"]);
        assert(deep(r@) =~= seq!["diff"@, merge_base@, what@, "-z"@, "-M"@]);
        r
    }

    /// The files changed since a merge base.
    pub fn branch_changes(status: &[u8], counts: &[u8]) -> (r: Result<Vec<FileEntry>, ParseError>)
        ensures
            entries_are(r, changes_model(lossy_text(status@), lossy_text(counts@))),
    {
        Repo::changes(status, counts)
    }

    /// The commands for the changes of one commit: names, or counts.
    pub fn commit_files_args(sha: &str, counts: bool) -> (r: Vec<String>)
        ensures
            deep(r@) == seq![
                "diff-tree"@,
                "-r"@,
                "--root"@,
                "--no-commit-id"@,
                "-z"@,
                "-M"@,
                if counts {
                    "--numstat"@
                } else {
                    "--name-status"@
                },
                sha@,
            ],
    {
        let what: &str = if counts {
            "--numstat"
        } else {
            "--name-status"
        };
        let r: Vec<String> = words(
            &["diff-tree", "-r", "--root", "--no-commit-id", "-z", "-M", what, sha],
        );
        assert(deep(r@) =~= seq![
            "diff-tree"@,
            "-r"@,
            "--root"@,
            "--no-commit-id"@,
            "-z"@,
            "-M"@,
            what@,
            sha@,
        ]);
        r
    }

    /// The files that one commit changed.
    pub fn commit_files(status: &[u8], counts: &[u8]) -> (r: Result<Vec<FileEntry>, ParseError>)
        ensures
            entries_are(r, changes_model(lossy_text(status@), lossy_text(counts@))),
    {
        Repo::changes(status, counts)
    }

    // ---- content -----------------------------------------------------------------------------

    pub fn file_at_args(rev: &str, path: &str) -> (r: Vec<String>)
        ensures
            deep(r@) == seq!["show"@, rev@ + ":"@ + path@],
    {
        let spec_arg: String = concat3(rev, ":", path);
        let r: Vec<String> = words(&["show", spec_arg.as_str()]);
        assert(deep(r@) =~= seq!["show"@, rev@ + ":"@ + path@]);
        r
    }

    /// A file's content at a revision; none where the path does not exist there.
    pub fn file_at(ran: Ran) -> (r: Result<Option<String>, GitError>)
        ensures
            match ran {
                Err(e) => r == Err::<Option<String>, GitError>(GitError::Spawn(e)),
                Ok(out) => r matches Ok(c) && c.deep_view() == if out.ok {
                    Some(lossy_text(out.stdout@))
                } else {
                    None
                },
            },
    {
        match ran {
            Err(e) => Err(GitError::Spawn(e)),
            Ok(out) => if out.ok {
                Ok(Some(lossy(&out.stdout)))
            } else {
                Ok(None)
            },
        }
    }

    /// The text of a worktree file, given its bytes where it could be read.
    pub fn file_in_worktree(bytes: Option<&[u8]>) -> (r: Option<String>)
        ensures
            r.deep_view() == match bytes {
                Some(b) => Some(lossy_text(b@)),
                None => None,
            },
    {
        match bytes {
            Some(b) => Some(lossy(b)),
            None => None,
        }
    }

    // ---- history -----------------------------------------------------------------------------

    /// The log of these revisions, with these label flags.
    pub fn log_args(revs: &[String], decorate: &[String], limit: usize) -> (r: Vec<String>)
        ensures
            deep(r@) == log_words(deep(revs@), deep(decorate@), limit as nat),
    {
        broadcast use group_deep;

        let n: String = decimal_of(limit as u64);
        let mut args: Vec<String> = words(
            &[
                "log",
                "--format=%H%x00%h%x00%an%x00%ad%x00%s%x00%b%x00%D%x00",
                "--date=short",
                "-n",
                n.as_str(),
            ],
        );
        let ghost head = seq![
            "log"@,
            "--format=%H%x00%h%x00%an%x00%ad%x00%s%x00%b%x00%D%x00"@,
            "--date=short"@,
            "-n"@,
            decimal(limit as nat),
        ];
        assert(deep(args@) =~= head);
        if decorate.len() > 0 {
            args.push("--decorate=short".to_owned());
            assert(deep(args@) == head.push("--decorate=short"@));
            extend(&mut args, decorate);
            assert(deep(args@) =~= head + (seq!["--decorate=short"@] + deep(decorate@)));
        } else {
            assert(deep(args@) =~= head + Seq::<Seq<char>>::empty());
        }
        extend(&mut args, revs);
        args
    }

    /// The command for recent commits of a range; of all of HEAD's history
    /// without one.
    pub fn log_range_args(range: Option<&str>, limit: usize) -> (r: Vec<String>)
        ensures
            deep(r@) == log_words(
                match range {
                    Some(s) => seq![s@],
                    None => Seq::empty(),
                },
                Seq::empty(),
                limit as nat,
            ),
    {
        broadcast use group_deep;

        let mut revs: Vec<String> = Vec::new();
        if let Some(s) = range {
            revs.push(s.to_owned());
        }
        assert(deep(revs@) =~= match range {
            Some(s) => seq![s@],
            None => Seq::empty(),
        });
        let none: Vec<String> = Vec::new();
        Repo::log_args(&revs, &none, limit)
    }

    /// The commits of a log run.
    pub fn log_range(args: Vec<String>, ran: Ran) -> (r: Result<Vec<CommitInfo>, GitError>)
        ensures
            match ran {
                Err(e) => r == Err::<Vec<CommitInfo>, GitError>(GitError::Spawn(e)),
                Ok(out) => if out.ok {
                    r matches Ok(v) && deep(v@) == log(split(lossy_text(out.stdout@), '\0'))
                } else {
                    r matches Err(GitError::Failed { args: a, stderr }) && a == args && stderr@ == trim(
                        lossy_text(out.stderr@),
                    )
                },
            },
    {
        match Repo::git(args, ran) {
            Ok(stdout) => {
                let text: String = lossy(&stdout);
                Ok(parse_log_text(text.as_str()))
            },
            Err(e) => Err(e),
        }
    }

    /// The command for recent commits, newest first.
    pub fn log_commits(limit: usize) -> (r: Vec<String>)
        ensures
            deep(r@) == log_words(Seq::empty(), Seq::empty(), limit as nat),
    {
        Repo::log_range_args(None, limit)
    }

    /// The command for the commits that this branch added to its base.
    pub fn log_branch_commits(merge_base: &str, limit: usize) -> (r: Vec<String>)
        ensures
            deep(r@) == log_words(seq![merge_base@ + "..HEAD"@], Seq::empty(), limit as nat),
    {
        let range: String = concat2(merge_base, "..HEAD");
        Repo::log_range_args(Some(range.as_str()), limit)
    }

    pub fn existing_ref_args(name: &str) -> (r: Vec<String>)
        ensures
            deep(r@) == seq!["rev-parse"@, "--verify"@, "--quiet"@, name@ + "^{commit}"@],
    {
        let commit: String = concat2(name, "^{commit}");
        Repo::verify_ref_args(commit.as_str())
    }

    /// The refs that resolve here, in the order given.
    pub fn existing_refs(refs: &[String], resolves: &[bool]) -> (r: Vec<String>)
        ensures
            deep(r@) == flagged(deep(refs@), resolves@),
    {
        broadcast use group_deep;

        let n: usize = refs.len();
        let m: usize = resolves.len();
        let ghost all = deep(refs@);
        let mut out: Vec<String> = Vec::new();
        let mut i: usize = 0;
        while i < n
            invariant
                i <= n == refs@.len(),
                m == resolves@.len(),
                all == deep(refs@),
                deep(out@) == flagged(all.take(i as int), resolves@),
            decreases n - i,
        {
            assert(all.take(i + 1).drop_last() =~= all.take(i as int));
            assert(all[i as int] == refs@[i as int]@);
            if i < m && resolves[i] {
                out.push(refs[i].clone());
            }
            i += 1;
        }
        out
    }

    /// The command for HEAD's history together with the live refs, labelled;
    /// the plain log where no ref is live.
    pub fn log_with_refs(live: &[String], branch: Option<&str>, limit: usize) -> (r: Vec<String>)
        ensures
            deep(r@) == watched_log(branch.deep_view(), deep(live@), limit as nat),
    {
        broadcast use group_deep;

        let n: usize = live.len();
        if n == 0 {
            return Repo::log_commits(limit);
        }
        let mut decorate: Vec<String> = Vec::new();
        decorate.push("--decorate-refs=HEAD".to_owned());
        if let Some(b) = branch {
            decorate.push(concat2("--decorate-refs=refs/heads/", b));
        }
        let ghost own = match branch.deep_view() {
            Some(b) => seq!["--decorate-refs=HEAD"@, "--decorate-refs=refs/heads/"@ + b],
            None => seq!["--decorate-refs=HEAD"@],
        };
        assert(deep(decorate@) =~= own);
        let ghost all = deep(live@);
        let mut i: usize = 0;
        assert(own + ref_labels(all.take(0)) =~= own);
        while i < n
            invariant
                i <= n == live@.len(),
                all == deep(live@),
                deep(decorate@) == own + ref_labels(all.take(i as int)),
            decreases n - i,
        {
            assert(all.take(i + 1).drop_last() =~= all.take(i as int));
            assert(all[i as int] == live@[i as int]@);
            let ghost pre = deep(decorate@);
            decorate.push(concat2("--decorate-refs=refs/heads/", live[i].as_str()));
            decorate.push(concat2("--decorate-refs=refs/remotes/", live[i].as_str()));
            assert(deep(decorate@) == pre.push("--decorate-refs=refs/heads/"@ + all[i as int]).push(
                "--decorate-refs=refs/remotes/"@ + all[i as int],
            ));
            assert(deep(decorate@) =~= own + ref_labels(all.take(i + 1)));
            i += 1;
        }
        let mut revs: Vec<String> = Vec::new();
        revs.push("HEAD".to_owned());
        extend(&mut revs, live);
        assert(deep(revs@) =~= seq!["HEAD"@] + all);
        Repo::log_args(&revs, &decorate, limit)
    }

    /// The command that updates the watched refs: one remote, and only the
    /// branches that are watched on it. Nothing where no ref names a remote.
    pub fn fetch_refs(refs: &[String]) -> (r: Option<Vec<String>>)
        ensures
            match first_remote(deep(refs@)) {
                Some(remote) => r is Some && deep(r->0@) == seq!["fetch"@, "--quiet"@, remote]
                    + branches_on(deep(refs@), remote),
                None => r is None,
            },
    {
        broadcast use group_deep;

        let n: usize = refs.len();
        let ghost all = deep(refs@);
        let mut i: usize = 0;
        while i < n
            invariant
                i <= n == refs@.len(),
                all == deep(refs@),
                first_remote(all) == first_remote(all.skip(i as int)),
            decreases n - i,
        {
            assert(all.skip(i as int)[0] == refs@[i as int]@);
            assert(all.skip(i as int).skip(1) =~= all.skip(i + 1));
            let v: Vec<char> = chars_of(refs[i].as_str());
            let k: usize = find_from(&v, 0, '/');
            assert(v@.skip(0) =~= v@);
            if k < v.len() {
                let remote: String = string_of(&v, 0, k);
                assert(remote@ =~= refs@[i as int]@.take(k as int));
                let prefix: String = concat2(remote.as_str(), "/");
                let mut args: Vec<String> = words(&["fetch", "--quiet", remote.as_str()]);
                let ghost head = seq!["fetch"@, "--quiet"@, remote@];
                assert(deep(args@) =~= head);
                let mut j: usize = 0;
                assert(head + branches_on(all.take(0), remote@) =~= head);
                while j < n
                    invariant
                        j <= n == refs@.len(),
                        all == deep(refs@),
                        prefix@ == remote@ + "/"@,
                        head == seq!["fetch"@, "--quiet"@, remote@],
                        first_remote(all) == Some(remote@),
                        deep(args@) == head + branches_on(all.take(j as int), remote@),
                    decreases n - j,
                {
                    assert(all.take(j + 1).drop_last() =~= all.take(j as int));
                    assert(all[j as int] == refs@[j as int]@);
                    let ghost pre = deep(args@);
                    if let Some(b) = strip_prefix(refs[j].as_str(), prefix.as_str()) {
                        let ghost bv = b@;
                        args.push(b);
                        assert(deep(args@) == pre.push(bv));
                    }
                    assert(deep(args@) =~= head + branches_on(all.take(j + 1), remote@));
                    j += 1;
                }
                assert(all.take(j as int) =~= all);
                return Some(args);
            }
            i += 1;
        }
        None
    }

    /// What came of a fetch.
    pub fn fetch_outcome(ran: Ran) -> (r: Result<(), GitError>)
        ensures
            match ran {
                Err(e) => r == Err::<(), GitError>(GitError::Spawn(e)),
                Ok(out) => if out.ok {
                    r is Ok
                } else {
                    r matches Err(GitError::Fetch(s)) && s@ == headline(lossy_text(out.stderr@))
                },
            },
    {
        match ran {
            Err(e) => Err(GitError::Spawn(e)),
            Ok(out) => if out.ok {
                Ok(())
            } else {
                let text: String = lossy(&out.stderr);
                Err(GitError::Fetch(first_line(text.as_str())))
            },
        }
    }

    // ---- changes to the index and the worktree --------------------------------------------------

    /// The command that stages these paths; none where there are none.
    pub fn stage_many(paths: &[String]) -> (r: Option<Vec<String>>)
        ensures
            if paths@.len() == 0 {
                r is None
            } else {
                r is Some && deep(r->0@) == seq!["add"@, "--"@] + deep(paths@)
            },
    {
        if paths.len() == 0 {
            return None;
        }
        let mut args: Vec<String> = words(&["add", "--"]);
        assert(deep(args@) =~= seq!["add"@, "--"@]);
        extend(&mut args, paths);
        Some(args)
    }

    /// The command that unstages these paths; none where there are none.
    pub fn unstage_many(paths: &[String]) -> (r: Option<Vec<String>>)
        ensures
            if paths@.len() == 0 {
                r is None
            } else {
                r is Some && deep(r->0@) == seq!["restore"@, "--staged"@, "--"@] + deep(paths@)
            },
    {
        if paths.len() == 0 {
            return None;
        }
        let mut args: Vec<String> = words(&["restore", "--staged", "--"]);
        assert(deep(args@) =~= seq!["restore"@, "--staged"@, "--"@]);
        extend(&mut args, paths);
        Some(args)
    }

    /// The command that stages one path.
    pub fn stage(p: &str) -> (r: Vec<String>)
        ensures
            deep(r@) == seq!["add"@, "--"@, p@],
    {
        let r: Vec<String> = words(&["add", "--", p]);
        assert(deep(r@) =~= seq!["add"@, "--"@, p@]);
        r
    }

    /// The command that unstages one path.
    pub fn unstage(p: &str) -> (r: Vec<String>)
        ensures
            deep(r@) == seq!["restore"@, "--staged"@, "--"@, p@],
    {
        let r: Vec<String> = words(&["restore", "--staged", "--", p]);
        assert(deep(r@) =~= seq!["restore"@, "--staged"@, "--"@, p@]);
        r
    }

    /// The commands, in order, that throw away all changes to an entry. A
    /// conflict is not thrown away.
    pub fn discard(e: &FileEntry) -> (r: Result<Vec<Vec<String>>, GitError>)
        ensures
            match r {
                Ok(v) => e.kind != ChangeKind::Conflicted && plans(v@) == discard_plan(e.deep_view()),
                Err(err) => e.kind == ChangeKind::Conflicted && err == GitError::Conflicted,
            },
    {
        let path: &str = e.path.as_str();
        let mut out: Vec<Vec<String>> = Vec::new();
        match e.kind {
            ChangeKind::Conflicted => {
                return Err(GitError::Conflicted);
            },
            ChangeKind::Untracked => {
                out.push(words(&["clean", "-f", "--", path]));
                assert(deep(out@[0]@) =~= seq!["clean"@, "-f"@, "--"@, path@]);
            },
            ChangeKind::Renamed => {
                let orig: &str = match &e.orig_path {
                    Some(o) => o.as_str(),
                    None => path,
                };
                out.push(words(&["restore", "--staged", "--", orig, path]));
                out.push(words(&["restore", "--", orig]));
                out.push(words(&["clean", "-f", "--", path]));
                assert(deep(out@[0]@) =~= seq!["restore"@, "--staged"@, "--"@, orig@, path@]);
                assert(deep(out@[1]@) =~= seq!["restore"@, "--"@, orig@]);
                assert(deep(out@[2]@) =~= seq!["clean"@, "-f"@, "--"@, path@]);
            },
            _ => {
                if e.stage == StageState::Unstaged {
                    out.push(words(&["restore", "--", path]));
                    assert(deep(out@[0]@) =~= seq!["restore"@, "--"@, path@]);
                } else {
                    out.push(Repo::unstage(path));
                    if e.kind == ChangeKind::Added {
                        out.push(words(&["clean", "-f", "--", path]));
                        assert(deep(out@[1]@) =~= seq!["clean"@, "-f"@, "--"@, path@]);
                    } else {
                        out.push(words(&["restore", "--", path]));
                        assert(deep(out@[1]@) =~= seq!["restore"@, "--"@, path@]);
                    }
                }
            },
        }
        assert(plans(out@) =~= discard_plan(e.deep_view()));
        Ok(out)
    }

    /// Which of the files are meant by these paths. A file that is no longer
    /// listed is not.
    pub fn entries_at(entries: &Vec<FileEntry>, paths: &Vec<String>) -> (r: Vec<usize>)
        ensures
            r@.map_values(|k: usize| k as int) == named_places(deep(entries@), deep(paths@)),
            forall|i: int| 0 <= i < r@.len() ==> #[trigger] r@[i] < entries@.len(),
    {
        broadcast use group_deep;

        let ghost all = deep(entries@);
        let ghost ps = deep(paths@);
        let mut out: Vec<usize> = Vec::new();
        let mut i: usize = 0;
        assert(out@.map_values(|k: usize| k as int) =~= named_places(all.take(0), ps));
        while i < entries.len()
            invariant
                i <= entries@.len(),
                all == deep(entries@),
                ps == deep(paths@),
                out@.map_values(|k: usize| k as int) == named_places(all.take(i as int), ps),
                forall|k: int| 0 <= k < out@.len() ==> #[trigger] out@[k] < entries@.len(),
            decreases entries@.len() - i,
        {
            let ghost before = out@.map_values(|k: usize| k as int);
            assert(all.take(i + 1).drop_last() =~= all.take(i as int));
            assert(all[i as int] == entries@[i as int].deep_view());
            if names_file(paths, entries[i].path.as_str()) {
                out.push(i);
                assert(out@.map_values(|k: usize| k as int) =~= before.push(i as int));
            }
            i += 1;
        }
        assert(all.take(i as int) =~= all);
        out
    }

    pub fn staged_count_args() -> (r: Vec<String>)
        ensures
            deep(r@) == seq!["diff"@, "--cached"@, "--name-only"@, "-z"@],
    {
        let r: Vec<String> = words(&["diff", "--cached", "--name-only", "-z"]);
        assert(deep(r@) =~= seq!["diff"@, "--cached"@, "--name-only"@, "-z"@]);
        r
    }

    /// How many files have staged changes.
    pub fn staged_count(stdout: &[u8]) -> (r: usize)
        ensures
            r == filled_fields(stdout@),
    {
        broadcast use group_deep;

        let n: usize = stdout.len();
        let mut count: usize = 0;
        let mut i: usize = 0;
        while i < n
            invariant
                i <= n == stdout@.len(),
                count == filled_fields(stdout@.take(i as int)),
                count <= i,
            decreases n - i,
        {
            proof {
                assert(stdout@.take(i + 1).drop_last() =~= stdout@.take(i as int));
            }
            if stdout[i] != 0 && (i == 0 || stdout[i - 1] == 0) {
                count += 1;
            }
            i += 1;
        }
        count
    }

    pub fn last_commit_args() -> (r: Vec<String>)
        ensures
            deep(r@) == seq!["log"@, "-1"@, "--format=%h %s"@],
    {
        let r: Vec<String> = words(&["log", "-1", "--format=%h %s"]);
        assert(deep(r@) =~= seq!["log"@, "-1"@, "--format=%h %s"@]);
        r
    }

    /// The newest commit in one line, where there is one.
    pub fn last_commit_summary(ran: &Ran) -> (r: Option<String>)
        ensures
            r.deep_view() == match answer_if_ok(*ran) {
                Some(s) => if s.len() > 0 {
                    Some(s)
                } else {
                    None
                },
                None => None,
            },
    {
        match answer_if_ok_of(ran) {
            Some(s) => if s.as_str().is_empty() {
                None
            } else {
                Some(s)
            },
            None => None,
        }
    }

    /// A fingerprint of the status: the same status, the same number. A status
    /// that could not be had counts as empty.
    pub fn fingerprint(raw: Option<&[u8]>) -> (r: u64)
        ensures
            r == match raw {
                Some(b) => fnv(b@),
                None => fnv(Seq::empty()),
            },
    {
        match raw {
            Some(b) => fnv1a_bytes(b),
            None => 0xcbf2_9ce4_8422_2325,
        }
    }
}

// ---- laws ------------------------------------------------------------------------------------

/// The branch that is taken as base is one of the candidates, and none was
/// diverged from fewer commits ago.
pub proof fn law_base_is_nearest(c: Seq<(Seq<char>, u32)>, i: int)
    requires
        0 <= i < c.len(),
    ensures
        best(c) matches Some(b) && c.contains(b) && b.1 <= c[i].1 && !lex_less(
            score(c[i].0, c[i].1),
            score(b.0, b.1),
        ),
    decreases c.len(),
{
    let init = c.drop_last();
    let last = c.last();
    assert(c[c.len() - 1] == last);
    let b = best(c)->0;
    if init.len() > 0 {
        law_base_is_nearest(init, 0);
        let p = best(init)->0;
        let k = choose|k: int| 0 <= k < init.len() && init[k] == p;
        assert(c[k] == p);
        if i < init.len() {
            law_base_is_nearest(init, i);
        }
        crate::git_order::lemma_lex_total(score(last.0, last.1), score(p.0, p.1));
        crate::git_order::lemma_lex_irreflexive(score(last.0, last.1));
        if i < init.len() && b == last {
            crate::git_order::lemma_lex_transitive(
                score(last.0, last.1),
                score(p.0, p.1),
                score(c[i].0, c[i].1),
            );
            if lex_less(score(c[i].0, c[i].1), score(last.0, last.1)) {
                crate::git_order::lemma_lex_total(
                    score(c[i].0, c[i].1),
                    score(last.0, last.1),
                );
                lemma_lex_chain(
                    score(c[i].0, c[i].1),
                    score(last.0, last.1),
                    score(p.0, p.1),
                );
            }
        }
    } else {
        crate::git_order::lemma_lex_irreflexive(score(last.0, last.1));
    }
    let x = score(c[i].0, c[i].1);
    let y = score(b.0, b.1);
    assert(x[0] == c[i].1 && y[0] == b.1);
}

proof fn lemma_lex_chain(a: Seq<int>, b: Seq<int>, c: Seq<int>)
    requires
        lex_less(a, b),
        lex_less(b, c),
    ensures
        lex_less(a, c),
    decreases a.len() + b.len() + c.len(),
{
    if a.len() > 0 && b.len() > 0 && c.len() > 0 && a[0] == b[0] && b[0] == c[0] {
        lemma_lex_chain(a.skip(1), b.skip(1), c.skip(1));
    }
}

/// A branch's own refs, local or on a remote, are no candidates for its base.
pub proof fn law_own_refs_are_left_out(
    ls: Seq<Seq<char>>,
    names: Seq<Seq<char>>,
    branch: Option<Seq<char>>,
    existing: Seq<Seq<char>>,
    remotes: Seq<Seq<char>>,
    room: nat,
    i: int,
)
    ensures
        0 <= i < others(ls, branch, remotes, room).len() ==> !own(
            others(ls, branch, remotes, room)[i],
            branch,
            remotes,
        ),
        0 <= i < trunks_here(names, branch, existing, remotes).len() ==> !own(
            trunks_here(names, branch, existing, remotes)[i],
            branch,
            remotes,
        ),
    decreases ls.len() + names.len(),
{
    if ls.len() > 0 && room > 0 {
        let rest = ls.skip(1);
        law_own_refs_are_left_out(rest, names, branch, existing, remotes, room, i);
        law_own_refs_are_left_out(rest, names, branch, existing, remotes, (room - 1) as nat, i - 1);
    }
    if names.len() > 0 {
        law_own_refs_are_left_out(ls, names.drop_last(), branch, existing, remotes, room, i);
    }
}

proof fn lemma_present_is_one(names: Seq<Seq<char>>, present: Seq<bool>)
    ensures
        first_present(names, present) matches Some(n) ==> names.contains(n),
    decreases names.len(),
{
    if names.len() > 0 && present.len() > 0 {
        if present[0] {
            assert(names[0] == first_present(names, present)->0);
        } else {
            lemma_present_is_one(names.skip(1), present.skip(1));
            if let Some(n) = first_present(names.skip(1), present.skip(1)) {
                let k = names.skip(1).index_of(n);
                assert(names[k + 1] == n);
            }
        }
    }
}

proof fn lemma_others_named(ls: Seq<Seq<char>>, branch: Option<Seq<char>>, remotes: Seq<Seq<char>>, room: nat, i: int)
    requires
        0 <= i < others(ls, branch, remotes, room).len(),
    ensures
        others(ls, branch, remotes, room)[i].len() > 0,
    decreases ls.len(),
{
    let name = trim(ls[0]);
    if name.len() == 0 || has_suffix(name, "/HEAD"@) || own(name, branch, remotes) {
        lemma_others_named(ls.skip(1), branch, remotes, room, i);
    } else if i > 0 {
        lemma_others_named(ls.skip(1), branch, remotes, (room - 1) as nat, i - 1);
    }
}

proof fn lemma_trunk_is_sought(names: Seq<Seq<char>>, branch: Option<Seq<char>>, existing: Seq<Seq<char>>, remotes: Seq<Seq<char>>, i: int)
    requires
        0 <= i < trunks_here(names, branch, existing, remotes).len(),
    ensures
        names.contains(trunks_here(names, branch, existing, remotes)[i]),
    decreases names.len(),
{
    let init = trunks_here(names.drop_last(), branch, existing, remotes);
    if i < init.len() {
        lemma_trunk_is_sought(names.drop_last(), branch, existing, remotes, i);
        let k = names.drop_last().index_of(init[i]);
        assert(names[k] == init[i]);
    } else {
        assert(names[names.len() - 1] == names.last());
    }
}

proof fn lemma_sought_named(origin: Ran, i: int)
    requires
        answer_if_ok(origin) != Some("refs/remotes/"@),
        0 <= i < trunks_sought(origin).len(),
    ensures
        trunks_sought(origin)[i].len() > 0,
{
    lemma_origin_named(origin);
    reveal_strlit("origin/main");
    reveal_strlit("origin/master");
    reveal_strlit("origin/next");
    reveal_strlit("origin/develop");
    reveal_strlit("main");
    reveal_strlit("master");
    reveal_strlit("next");
    reveal_strlit("develop");
    let known = trunk_names();
    assert forall|k: int| 0 <= k < known.len() implies (#[trigger] known[k]).len() > 0 by {
        assert(k == 0 || k == 1 || k == 2 || k == 3 || k == 4 || k == 5 || k == 6 || k == 7);
    }
    if origin_head(origin) is Some && i > 0 {
        assert(trunks_sought(origin)[i] == known[i - 1]);
    }
}

proof fn lemma_origin_named(origin: Ran)
    requires
        answer_if_ok(origin) != Some("refs/remotes/"@),
    ensures
        origin_head(origin) matches Some(name) ==> name.len() > 0,
{
    let p = "refs/remotes/"@;
    if let Some(full) = answer_if_ok(origin) {
        if has_prefix(full, p) && full.len() <= p.len() {
            assert(full =~= p);
        }
    }
}

proof fn lemma_candidates_named(head: Seq<char>, ancestors: Seq<Ancestor>, trunks: Seq<Trunk>, i: int)
    requires
        forall|k: int| 0 <= k < ancestors.len() ==> (#[trigger] ancestors[k]).name@.len() > 0,
        forall|k: int| 0 <= k < trunks.len() ==> (#[trigger] trunks[k]).name@.len() > 0,
        0 <= i < candidates(head, ancestors, trunks).len(),
    ensures
        candidates(head, ancestors, trunks)[i].0.len() > 0,
    decreases ancestors.len() + trunks.len(),
{
    if trunks.len() > 0 {
        let t = trunks[trunks.len() - 1];
        assert(t == trunks.last());
        if i < candidates(head, ancestors, trunks.drop_last()).len() {
            lemma_candidates_named(head, ancestors, trunks.drop_last(), i);
        }
    } else {
        let a = ancestors[ancestors.len() - 1];
        assert(a == ancestors.last());
        if i < candidates(head, ancestors.drop_last(), trunks).len() {
            lemma_candidates_named(head, ancestors.drop_last(), trunks, i);
        }
    }
}

/// The candidates for a base are the ones that were looked for: the ancestors from
/// the listing of refs, the trunks from those sought.
pub open spec fn looked_for(
    ancestors: Seq<Ancestor>,
    trunks: Seq<Trunk>,
    listing: Seq<char>,
    origin: Ran,
    branch: Option<Seq<char>>,
    existing: Seq<Seq<char>>,
    remotes: Seq<Seq<char>>,
) -> bool {
    let a = others(lines(listing), branch, remotes, 4);
    let t = trunks_here(trunks_sought(origin), branch, existing, remotes);
    &&& ancestors.len() == a.len()
    &&& forall|k: int| 0 <= k < a.len() ==> (#[trigger] ancestors[k]).name@ == a[k]
    &&& trunks.len() == t.len()
    &&& forall|k: int| 0 <= k < t.len() ==> (#[trigger] trunks[k]).name@ == t[k]
}

/// The base that is found always has a name, on a detached HEAD too, unless git
/// says that `origin/HEAD` stands for a remote ref without one.
pub proof fn law_base_has_a_name(
    head: Option<Seq<char>>,
    branch: Option<Seq<char>>,
    ancestors: Seq<Ancestor>,
    trunks: Seq<Trunk>,
    listing: Seq<char>,
    origin: Ran,
    existing: Seq<Seq<char>>,
    remotes: Seq<Seq<char>>,
    present: Seq<bool>,
)
    requires
        looked_for(ancestors, trunks, listing, origin, branch, existing, remotes),
        answer_if_ok(origin) != Some("refs/remotes/"@),
    ensures
        base_name(
            fork_base(head, branch, ancestors, trunks),
            origin_head(origin),
            present,
        ).len() > 0,
{
    let a = others(lines(listing), branch, remotes, 4);
    let sought = trunks_sought(origin);
    let t = trunks_here(sought, branch, existing, remotes);
    assert forall|k: int| 0 <= k < ancestors.len() implies (#[trigger] ancestors[k]).name@.len()
        > 0 by {
        lemma_others_named(lines(listing), branch, remotes, 4, k);
    }
    assert forall|k: int| 0 <= k < trunks.len() implies (#[trigger] trunks[k]).name@.len() > 0 by {
        lemma_trunk_is_sought(sought, branch, existing, remotes, k);
        lemma_sought_named(origin, sought.index_of(t[k]));
    }
    lemma_origin_named(origin);
    let fork = fork_base(head, branch, ancestors, trunks);
    if let Some(f) = fork {
        let c = candidates(head->0, ancestors, trunks);
        law_base_is_nearest(c, 0);
        let k = c.index_of(best(c)->0);
        lemma_candidates_named(head->0, ancestors, trunks, k);
    }
    let names = fallback_names();
    lemma_present_is_one(names, present);
    reveal_strlit("origin/main");
    reveal_strlit("origin/master");
    reveal_strlit("main");
    reveal_strlit("master");
    reveal_strlit("HEAD");
    if let Some(n) = first_present(names, present) {
        let k = names.index_of(n);
        assert(names[k] == n);
        assert(k == 0 || k == 1 || k == 2 || k == 3);
    }
}

/// Where no ref is watched, the log is the plain one.
pub proof fn law_no_watched_ref_is_the_plain_log(branch: Option<Seq<char>>, limit: nat)
    ensures
        watched_log(branch, Seq::empty(), limit) == log_words(Seq::empty(), Seq::empty(), limit),
{
}

/// Where a ref is watched, the log is of HEAD first, then of each watched ref, and
/// of nothing else.
pub proof fn law_watched_refs_are_logged(branch: Option<Seq<char>>, live: Seq<Seq<char>>, limit: nat)
    requires
        live.len() > 0,
    ensures
        ({
            let asked = log_words(Seq::empty(), label_words(branch, live), limit);
            watched_log(branch, live, limit) == asked + (seq!["HEAD"@] + live)
        }),
{
    let asked = log_words(Seq::empty(), label_words(branch, live), limit);
    assert(watched_log(branch, live, limit) =~= asked + (seq!["HEAD"@] + live));
}

/// A discard touches nothing but the entry: each of its commands marks off the
/// paths it is about, and these are the entry's own and, for a rename, its old one.
pub proof fn law_discard_touches_only_the_entry(e: EntryV, c: int, d: int, i: int)
    requires
        0 <= c < discard_plan(e).len(),
        0 <= d < i < discard_plan(e)[c].len(),
        discard_plan(e)[c][d] == "--"@,
    ensures
        discard_plan(e)[c][i] == e.path || (e.kind == ChangeKind::Renamed && e.orig_path == Some(
            discard_plan(e)[c][i],
        )),
{
    reveal_strlit("--");
    reveal_strlit("clean");
    reveal_strlit("-f");
    reveal_strlit("restore");
    reveal_strlit("--staged");
    let w = discard_plan(e)[c];
    assert("-f"@[1] != "--"@[1]);
    assert(w[0] == "clean"@ || w[0] == "restore"@);
    assert(c == 0 || c == 1 || c == 2);
    assert(d != 0);
    assert(i == 2 || i == 3 || i == 4);
}

/// Every command of a discard marks its paths off.
pub proof fn law_discard_marks_its_paths(e: EntryV, c: int)
    requires
        0 <= c < discard_plan(e).len(),
    ensures
        exists|d: int| 0 < d < discard_plan(e)[c].len() - 1 && #[trigger] discard_plan(e)[c][d] == "--"@,
{
    let w = discard_plan(e)[c];
    assert(c == 0 || c == 1 || c == 2);
    assert(w[1] == "--"@ || w[2] == "--"@);
}

/// The labels that a log asks for are HEAD's, the current branch's and those of
/// the watched refs, and no others.
pub proof fn law_only_watched_refs_are_labelled(branch: Option<Seq<char>>, live: Seq<Seq<char>>, i: int)
    requires
        0 <= i < label_words(branch, live).len(),
    ensures
        ({
            let w = label_words(branch, live)[i];
            ||| w == "--decorate-refs=HEAD"@
            ||| branch matches Some(b) && w == "--decorate-refs=refs/heads/"@ + b
            ||| exists|k: int|
                0 <= k < live.len() && (w == "--decorate-refs=refs/heads/"@ + #[trigger] live[k] || w
                    == "--decorate-refs=refs/remotes/"@ + live[k])
        }),
{
    let own = match branch {
        Some(b) => seq!["--decorate-refs=HEAD"@, "--decorate-refs=refs/heads/"@ + b],
        None => seq!["--decorate-refs=HEAD"@],
    };
    if i < own.len() {
        assert(label_words(branch, live)[i] == own[i]);
    } else {
        assert(label_words(branch, live)[i] == ref_labels(live)[i - own.len()]);
        lemma_ref_label(live, i - own.len());
    }
}

proof fn lemma_ref_label(live: Seq<Seq<char>>, i: int)
    requires
        0 <= i < ref_labels(live).len(),
    ensures
        exists|k: int|
            0 <= k < live.len() && (ref_labels(live)[i] == "--decorate-refs=refs/heads/"@
                + #[trigger] live[k] || ref_labels(live)[i] == "--decorate-refs=refs/remotes/"@
                + live[k]),
    decreases live.len(),
{
    let init = live.drop_last();
    let s = ref_labels(init);
    if i < s.len() {
        lemma_ref_label(init, i);
        let k = choose|k: int|
            0 <= k < init.len() && (s[i] == "--decorate-refs=refs/heads/"@ + #[trigger] init[k]
                || s[i] == "--decorate-refs=refs/remotes/"@ + init[k]);
        assert(live[k] == init[k]);
        assert(ref_labels(live)[i] == s[i]);
    } else {
        assert(live[live.len() - 1] == live.last());
    }
}

} // verus!
