//! What git reports, as data.

use vstd::prelude::*;

use crate::text::{concat2, concat3, deep, occurs, occurs_at};

verus! {

/// Which comparison the viewer shows.
#[derive(Debug, Clone, Copy, PartialEq, Eq, Structural)]
pub enum Scope {
    Worktree,
    Branch,
}

#[derive(Debug, Clone, Copy, PartialEq, Eq, Structural)]
pub enum ChangeKind {
    Modified,
    Added,
    Deleted,
    Renamed,
    Untracked,
    Conflicted,
}

#[derive(Debug, Clone, Copy, PartialEq, Eq, Structural)]
pub enum StageState {
    Unstaged,
    Staged,
    Partial,
    Untracked,
    /// Branch scope and conflicts: staging does not apply.
    NA,
}

/// One entry of the log.
#[derive(Debug, Clone, PartialEq, Eq)]
pub struct CommitInfo {
    pub sha: String,
    pub short: String,
    pub author: String,
    pub date: String,
    pub subject: String,
    /// Everything after the subject, without trailing whitespace.
    pub body: String,
    /// The labelled refs that point at this commit.
    pub refs: Vec<String>,
}

#[verifier::ext_equal]
pub struct CommitV {
    pub sha: Seq<char>,
    pub short: Seq<char>,
    pub author: Seq<char>,
    pub date: Seq<char>,
    pub subject: Seq<char>,
    pub body: Seq<char>,
    pub refs: Seq<Seq<char>>,
}

impl DeepView for CommitInfo {
    type V = CommitV;

    open spec fn deep_view(&self) -> CommitV {
        CommitV {
            sha: self.sha@,
            short: self.short@,
            author: self.author@,
            date: self.date@,
            subject: self.subject@,
            body: self.body@,
            refs: deep(self.refs@),
        }
    }
}

/// A changed file.
#[derive(Debug, Clone, PartialEq, Eq)]
pub struct FileEntry {
    /// Relative to the checkout; the new path of a rename.
    pub path: String,
    pub orig_path: Option<String>,
    pub kind: ChangeKind,
    pub stage: StageState,
    /// `None` for a binary file.
    pub adds: Option<u32>,
    pub dels: Option<u32>,
}

#[verifier::ext_equal]
pub struct EntryV {
    pub path: Seq<char>,
    pub orig_path: Option<Seq<char>>,
    pub kind: ChangeKind,
    pub stage: StageState,
    pub adds: Option<u32>,
    pub dels: Option<u32>,
}

impl DeepView for FileEntry {
    type V = EntryV;

    open spec fn deep_view(&self) -> EntryV {
        EntryV {
            path: self.path@,
            orig_path: self.orig_path.deep_view(),
            kind: self.kind,
            stage: self.stage,
            adds: self.adds,
            dels: self.dels,
        }
    }
}

/// What a run of git left behind.
#[derive(Debug, Clone)]
pub struct GitOut {
    /// Exit status 0.
    pub ok: bool,
    pub stdout: Vec<u8>,
    pub stderr: Vec<u8>,
}

/// Output that does not have the shape git documents.
#[derive(Debug, Clone, Copy, PartialEq, Eq, Structural)]
pub enum ParseError {
    /// A status record without its two state letters.
    MissingXy,
    /// A status record without its path.
    TooShort,
    /// A status record of a rename that is not followed by the old path.
    MissingOrigField,
    /// An untracked record without a path.
    BadUntracked,
    /// A rename that is not followed by the old path.
    RenameMissingOrig,
    /// A rename that is not followed by the new path.
    RenameMissingNew,
    /// A change that is not followed by its path.
    MissingPath,
    /// More changed lines of one file than can be counted.
    TooManyLines,
}

impl ParseError {
    pub open spec fn words(self) -> Seq<char> {
        match self {
            ParseError::MissingXy => "porcelain record missing XY field"@,
            ParseError::TooShort => "porcelain record too short"@,
            ParseError::MissingOrigField => "rename record missing orig path field"@,
            ParseError::BadUntracked => "untracked record missing path"@,
            ParseError::RenameMissingOrig => "rename missing orig path"@,
            ParseError::RenameMissingNew => "rename missing new path"@,
            ParseError::MissingPath => "name-status missing path"@,
            ParseError::TooManyLines => "too many changed lines"@,
        }
    }

    pub fn message(self) -> (r: &'static str)
        ensures
            r@ == self.words(),
    {
        match self {
            ParseError::MissingXy => "porcelain record missing XY field",
            ParseError::TooShort => "porcelain record too short",
            ParseError::MissingOrigField => "rename record missing orig path field",
            ParseError::BadUntracked => "untracked record missing path",
            ParseError::RenameMissingOrig => "rename missing orig path",
            ParseError::RenameMissingNew => "rename missing new path",
            ParseError::MissingPath => "name-status missing path",
            ParseError::TooManyLines => "too many changed lines",
        }
    }
}

#[derive(Debug)]
pub enum GitError {
    /// Git could not be started.
    Spawn(String),
    /// Git exited with an error.
    Failed { args: Vec<String>, stderr: String },
    /// `git status` failed twice; the first line of what it said.
    Status(String),
    /// A fetch failed; the first line of what it said.
    Fetch(String),
    NotARepo(String),
    Parse(ParseError),
    /// A conflicted file is not discarded.
    Conflicted,
}

/// A list of words as `Debug` writes it.
pub uninterp spec fn debug_words(args: Seq<Seq<char>>) -> Seq<char>;

/// `format!` with `{:?}` of a list of strings: a function of the strings. How it
/// quotes them is left unsaid.
#[verifier::external_body]
fn debug_of(args: &Vec<String>) -> (r: String)
    ensures
        r@ == debug_words(deep(args@)),
{
    format!("{args:?}")
}

impl GitError {
    /// What went wrong, in words.
    pub open spec fn words(self) -> Seq<char> {
        match self {
            GitError::Spawn(what) => what@,
            GitError::Failed { args, stderr } => "git "@ + debug_words(deep(args@)) + " failed: "@
                + stderr@,
            GitError::Status(line) => "git status failed: "@ + line@,
            GitError::Fetch(line) => line@,
            GitError::NotARepo(dir) => dir@ + " is not inside a git repository"@,
            GitError::Parse(e) => e.words(),
            GitError::Conflicted => "resolve the conflict in the editor first"@,
        }
    }

    pub fn message(&self) -> (r: String)
        ensures
            r@ == self.words(),
    {
        match self {
            GitError::Spawn(what) => what.as_str().to_owned(),
            GitError::Failed { args, stderr } => {
                let head: String = concat3("git ", debug_of(args).as_str(), " failed: ");
                concat2(head.as_str(), stderr.as_str())
            },
            GitError::Status(line) => concat2("git status failed: ", line.as_str()),
            GitError::Fetch(line) => line.as_str().to_owned(),
            GitError::NotARepo(dir) => concat2(dir.as_str(), " is not inside a git repository"),
            GitError::Parse(e) => e.message().to_owned(),
            GitError::Conflicted => "resolve the conflict in the editor first".to_owned(),
        }
    }
}

/// What is said of a command that could not be started.
pub fn spawn_words(args: &Vec<String>) -> (r: String)
    ensures
        r@ == "spawning git "@ + debug_words(deep(args@)),
{
    concat2("spawning git ", debug_of(args).as_str())
}

/// A conflict is refused in words that name it.
pub proof fn law_a_conflict_is_named()
    ensures
        occurs(GitError::Conflicted.words(), "conflict"@),
{
    reveal_strlit("conflict");
    reveal_strlit("resolve the conflict in the editor first");
    assert(occurs_at(GitError::Conflicted.words(), "conflict"@, 12)) by {
        assert(GitError::Conflicted.words().subrange(12, 20) =~= "conflict"@);
    }
}

} // verus!
