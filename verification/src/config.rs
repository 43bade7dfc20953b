//! Settings.

use vstd::prelude::*;

use crate::text::{blank, deep, group_deep, is_blank};

verus! {

/// Which side the list pane sits on.
#[derive(Debug, Clone, Copy, PartialEq, Eq, Structural)]
pub enum ListSide {
    Right,
    Left,
}

/// The colour flavour of everything.
#[derive(Debug, Clone, Copy, PartialEq, Eq, Structural)]
pub enum Theme {
    Dark,
    Light,
}

impl Default for Theme {
    fn default() -> (r: Theme)
        ensures
            r == Theme::Dark,
    {
        Theme::Dark
    }
}

impl Theme {
    pub fn is_light(self) -> (r: bool)
        ensures
            r == (self == Theme::Light),
    {
        self == Theme::Light
    }
}

/// The scope that the view opens in.
#[derive(Debug, Clone, Copy, PartialEq, Eq, Structural)]
pub enum ScopePref {
    Worktree,
    Branch,
}

impl Default for ScopePref {
    fn default() -> (r: ScopePref)
        ensures
            r == ScopePref::Worktree,
    {
        ScopePref::Worktree
    }
}

/// Every setting. A missing file, or one that cannot be parsed, gives the
/// defaults.
#[derive(Debug, Clone)]
pub struct Config {
    /// The base of branch scope; empty for a detected one.
    pub base: String,
    pub list_side: ListSide,
    /// The editor's command line.
    pub editor: Vec<String>,
    /// Refresh interval; 0 for none.
    pub poll_ms: u64,
    pub show_untracked: bool,
    pub theme: Theme,
    pub default_scope: ScopePref,
    /// Unchanged lines kept around a change.
    pub context_lines: usize,
    /// Columns of a tab.
    pub tab_width: usize,
    /// Keys by action name.
    pub keybindings: Vec<(String, String)>,
    /// Share of the tab that the view takes.
    pub view_width_percent: u8,
    /// Share of the view that the list takes.
    pub list_width_percent: u8,
    /// Open files in an editor that already runs in the tab.
    pub reuse_tab_nvim: bool,
    /// Refs that the history shows beside HEAD.
    pub log_refs: Vec<String>,
    /// Fetch interval; 0 for none.
    pub fetch_interval_ms: u64,
}

impl Config {
    /// The settings of a user who has set nothing.
    pub open spec fn is_default(self) -> bool {
        &&& self.base@.len() == 0
        &&& self.list_side == ListSide::Right
        &&& deep(self.editor@) == seq!["nvim"@]
        &&& self.poll_ms == 2000
        &&& self.show_untracked
        &&& self.theme == Theme::Dark
        &&& self.default_scope == ScopePref::Worktree
        &&& self.context_lines == 3
        &&& self.tab_width == 4
        &&& self.keybindings@.len() == 0
        &&& self.view_width_percent == 50
        &&& self.list_width_percent == 25
        &&& self.reuse_tab_nvim
        &&& deep(self.log_refs@) == seq!["origin/staging"@]
        &&& self.fetch_interval_ms == 300_000
    }
}

impl Default for Config {
    fn default() -> (r: Config)
        ensures
            r.is_default(),
            r.within_bounds(),
    {
        broadcast use group_deep;

        let mut editor: Vec<String> = Vec::new();
        editor.push("nvim".to_owned());
        let mut log_refs: Vec<String> = Vec::new();
        log_refs.push("origin/staging".to_owned());
        assert(deep(editor@) =~= seq!["nvim"@]);
        assert(deep(log_refs@) =~= seq!["origin/staging"@]);
        assert(!is_blank("origin/staging"@)) by {
            reveal_strlit("origin/staging");
            assert(!crate::text::is_white("origin/staging"@[0]));
        }
        assert(named_only(deep(log_refs@)) =~= deep(log_refs@)) by {
            reveal_with_fuel(named_only, 2);
            assert(deep(log_refs@).last() == "origin/staging"@);
        }
        Config {
            base: String::new(),
            list_side: ListSide::Right,
            editor,
            poll_ms: 2000,
            show_untracked: true,
            theme: Theme::Dark,
            default_scope: ScopePref::Worktree,
            context_lines: 3,
            tab_width: 4,
            keybindings: Vec::new(),
            view_width_percent: 50,
            list_width_percent: 25,
            reuse_tab_nvim: true,
            log_refs,
            fetch_interval_ms: 300_000,
        }
    }
}

/// The refs that name something.
pub open spec fn named_only(refs: Seq<Seq<char>>) -> Seq<Seq<char>>
    decreases refs.len(),
{
    if refs.len() == 0 {
        Seq::empty()
    } else if is_blank(refs.last()) {
        named_only(refs.drop_last())
    } else {
        named_only(refs.drop_last()).push(refs.last())
    }
}

/// `n`, moved into `lo..=hi`.
pub open spec fn clamped(n: int, lo: int, hi: int) -> int {
    if n < lo {
        lo
    } else if n > hi {
        hi
    } else {
        n
    }
}

/// An interval that is off, or at least `least`.
pub open spec fn floored(n: int, least: int) -> int {
    if n > 0 && n < least {
        least
    } else {
        n
    }
}

impl Config {
    /// Every number in its range, and no ref without a name.
    pub open spec fn within_bounds(self) -> bool {
        &&& self.context_lines <= 20
        &&& 1 <= self.tab_width <= 16
        &&& 20 <= self.view_width_percent <= 80
        &&& 10 <= self.list_width_percent <= 80
        &&& self.poll_ms == 0 || self.poll_ms >= 250
        &&& self.fetch_interval_ms == 0 || self.fetch_interval_ms >= 30_000
        &&& named_only(deep(self.log_refs@)) == deep(self.log_refs@)
    }

    /// Move every number into its range and drop refs without a name; leave
    /// everything else alone.
    pub fn sanitize(self) -> (r: Config)
        ensures
            r.within_bounds(),
            r.context_lines == clamped(self.context_lines as int, 0, 20),
            r.tab_width == clamped(self.tab_width as int, 1, 16),
            r.view_width_percent == clamped(self.view_width_percent as int, 20, 80),
            r.list_width_percent == clamped(self.list_width_percent as int, 10, 80),
            r.poll_ms == floored(self.poll_ms as int, 250),
            r.fetch_interval_ms == floored(self.fetch_interval_ms as int, 30_000),
            deep(r.log_refs@) == named_only(deep(self.log_refs@)),
            r.base == self.base,
            r.list_side == self.list_side,
            r.editor == self.editor,
            r.show_untracked == self.show_untracked,
            r.theme == self.theme,
            r.default_scope == self.default_scope,
            r.keybindings == self.keybindings,
            r.reuse_tab_nvim == self.reuse_tab_nvim,
    {
        broadcast use group_deep;

        let mut refs: Vec<String> = Vec::new();
        let ghost all = deep(self.log_refs@);
        let mut i: usize = 0;
        while i < self.log_refs.len()
            invariant
                i <= self.log_refs@.len(),
                all == deep(self.log_refs@),
                deep(refs@) == named_only(all.take(i as int)),
            decreases self.log_refs@.len() - i,
        {
            assert(all.take(i + 1).drop_last() =~= all.take(i as int));
            assert(all[i as int] == self.log_refs@[i as int]@);
            if !blank(self.log_refs[i].as_str()) {
                refs.push(self.log_refs[i].clone());
            }
            i += 1;
        }
        proof {
            lemma_named_only_settles(all);
        }
        Config {
            context_lines: if self.context_lines > 20 { 20 } else { self.context_lines },
            tab_width: if self.tab_width < 1 {
                1
            } else if self.tab_width > 16 {
                16
            } else {
                self.tab_width
            },
            view_width_percent: if self.view_width_percent < 20 {
                20
            } else if self.view_width_percent > 80 {
                80
            } else {
                self.view_width_percent
            },
            list_width_percent: if self.list_width_percent < 10 {
                10
            } else if self.list_width_percent > 80 {
                80
            } else {
                self.list_width_percent
            },
            poll_ms: if self.poll_ms > 0 && self.poll_ms < 250 { 250 } else { self.poll_ms },
            fetch_interval_ms: if self.fetch_interval_ms > 0 && self.fetch_interval_ms < 30_000 {
                30_000
            } else {
                self.fetch_interval_ms
            },
            log_refs: refs,
            base: self.base,
            list_side: self.list_side,
            editor: self.editor,
            show_untracked: self.show_untracked,
            theme: self.theme,
            default_scope: self.default_scope,
            keybindings: self.keybindings,
            reuse_tab_nvim: self.reuse_tab_nvim,
        }
    }

    /// The settings in force, given what the file parsed to, if it did.
    pub fn parse(parsed: Option<Config>) -> (r: Config)
        ensures
            r.within_bounds(),
            parsed is None ==> r.is_default(),
            parsed matches Some(c) ==> r.context_lines == clamped(c.context_lines as int, 0, 20)
                && r.tab_width == clamped(c.tab_width as int, 1, 16) && r.poll_ms == floored(
                c.poll_ms as int,
                250,
            ) && r.keybindings == c.keybindings && r.base == c.base && r.editor == c.editor
                && r.list_side == c.list_side && r.theme == c.theme && r.default_scope
                == c.default_scope && r.show_untracked == c.show_untracked && r.reuse_tab_nvim
                == c.reuse_tab_nvim && r.view_width_percent == clamped(
                c.view_width_percent as int,
                20,
                80,
            ) && r.list_width_percent == clamped(c.list_width_percent as int, 10, 80)
                && r.fetch_interval_ms == floored(c.fetch_interval_ms as int, 30_000) && deep(
                r.log_refs@,
            ) == named_only(deep(c.log_refs@)),
    {
        match parsed {
            Some(c) => c.sanitize(),
            None => Config::default().sanitize(),
        }
    }
}

proof fn lemma_named_only_settles(refs: Seq<Seq<char>>)
    ensures
        named_only(named_only(refs)) == named_only(refs),
    decreases refs.len(),
{
    if refs.len() > 0 {
        lemma_named_only_settles(refs.drop_last());
        let init = named_only(refs.drop_last());
        if !is_blank(refs.last()) {
            assert(init.push(refs.last()).drop_last() =~= init);
        }
    }
}

/// Settings that are in range stay as they are.
pub proof fn law_sanitize_settles(n: int, lo: int, hi: int)
    requires
        lo <= hi,
    ensures
        lo <= clamped(n, lo, hi) <= hi,
        clamped(clamped(n, lo, hi), lo, hi) == clamped(n, lo, hi),
        lo <= n <= hi ==> clamped(n, lo, hi) == n,
{
}

} // verus!
