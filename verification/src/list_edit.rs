//! What follows once a file is to be edited, or a commit made: step by step, with
//! what came of each step handed back.

use vstd::prelude::*;

use crate::git_repo::words;
use crate::ipc::ToPreview;
use crate::list::App;
use crate::list_session::{Link, Session};
use crate::text::{concat2, concat3, deep};

verus! {

/// The next thing to do.
#[derive(Debug)]
pub enum Step {
    /// Have an nvim in another pane of the tab open the file.
    TryTab,
    /// Tell the diff pane.
    Tell(ToPreview),
    /// Give the diff pane the focus.
    Focus,
    Over,
}

/// The step that has the diff pane run the editor on a file.
pub open spec fn tells_edit(s: Step, file: Seq<char>) -> bool {
    s matches Step::Tell(ToPreview::Edit { file: f }) && f@ == file
}

impl Session {
    // ---- files --------------------------------------------------------------------------

    /// The session with the diff pane busy.
    pub open spec fn busied(self, after: Session, with: Seq<char>) -> bool {
        &&& after == (Session { app: after.app, ..self })
        &&& after.app == (App { busy: after.app.busy, ..self.app })
        &&& after.app.busy matches Some(b)
        &&& b@ == with
    }

    /// The session after it told the user something.
    pub open spec fn told(self, after: Session, msg: Seq<char>) -> bool {
        &&& after == (Session { app: after.app, ..self })
        &&& self.app.tells(after.app, msg)
    }

    fn be_busy(&mut self, with: String)
        ensures
            old(self).busied(*final(self), with@),
    {
        self.app.busy = Some(with);
    }

    fn tell(&mut self, msg: &str)
        ensures
            old(self).told(*final(self), msg@),
    {
        self.app.set_status(msg);
    }

    /// Whether an editor that already runs in the tab is to be looked for: where
    /// the settings say so, and the list runs in a pane of its own.
    pub open spec fn looks_in_tab(self, own_pane: bool) -> bool {
        self.app.cfg.reuse_tab_nvim && own_pane
    }

    /// A file is to be edited. It has to be there; then an editor in the tab is
    /// tried first.
    pub fn start_edit(&mut self, file: &str, there: bool, own_pane: bool) -> (r: Step)
        ensures
            if !there {
                r is Over && old(self).told(*final(self), "file no longer exists — nothing to edit"@)
            } else if old(self).looks_in_tab(own_pane) {
                r is TryTab && *final(self) == *old(self)
            } else {
                tells_edit(r, file@) && *final(self) == *old(self)
            },
    {
        if !there {
            self.tell("file no longer exists — nothing to edit");
            return Step::Over;
        }
        if self.app.cfg.reuse_tab_nvim && own_pane {
            return Step::TryTab;
        }
        Step::Tell(ToPreview::Edit { file: file.to_owned() })
    }

    /// An editor in the tab was tried. Where none took the file, the diff pane
    /// runs one.
    pub fn open_in_tab_nvim(&self, file: &str, took: bool) -> (r: Step)
        ensures
            if took {
                r is Over
            } else {
                tells_edit(r, file@)
            },
    {
        if took {
            Step::Over
        } else {
            Step::Tell(ToPreview::Edit { file: file.to_owned() })
        }
    }

    /// The diff pane was told to edit a file. It is busy with it, unless the line
    /// broke.
    pub fn edit_told(&mut self, file: &str) -> (r: Step)
        ensures
            if old(self).link == Link::Down {
                r is Over && *final(self) == *old(self)
            } else {
                r is Focus && old(self).busied(*final(self), "editing "@ + file@ + "…"@)
            },
    {
        if self.link == Link::Down {
            return Step::Over;
        }
        self.be_busy(concat3("editing ", file, "…"));
        Step::Focus
    }

    /// What came of having the running editor open another file: the file may be
    /// gone, and the editor may not listen.
    pub fn remote_open(&mut self, file: &str, there: bool, took: bool, server_there: bool) -> (r: Step)
        ensures
            if !there {
                r is Over && old(self).told(*final(self), "file no longer exists — nothing to edit"@)
            } else if took {
                r is Focus && old(self).busied(*final(self), "editing "@ + file@ + "…"@)
            } else if server_there {
                r is Over && old(self).told(*final(self), "could not switch the editor's file"@)
            } else {
                r is Over && old(self).told(*final(self), "editor is open — close it first"@)
            },
    {
        if !there {
            self.tell("file no longer exists — nothing to edit");
            return Step::Over;
        }
        if took {
            self.be_busy(concat3("editing ", file, "…"));
            return Step::Focus;
        }
        if server_there {
            self.tell("could not switch the editor's file");
        } else {
            self.tell("editor is open — close it first");
        }
        Step::Over
    }

    // ---- commits ------------------------------------------------------------------------

    /// Commit what is staged, if anything is.
    pub fn start_commit(&mut self, staged: Result<usize, String>) -> (r: Step)
        ensures
            *final(self) == (Session { app: final(self).app, ..*old(self) }),
            match staged {
                Ok(0) => r is Over && old(self).app.tells(
                    final(self).app,
                    "nothing staged — s to stage files"@,
                ),
                Err(e) => r is Over && old(self).app.tells(
                    final(self).app,
                    "commit preflight failed: "@ + e@,
                ),
                Ok(_) => {
                    &&& final(self).app == old(self).app
                    &&& r matches Step::Tell(ToPreview::GitInPane { argv })
                    &&& deep(argv@) == seq!["commit"@, "-e"@]
                },
            },
    {
        match staged {
            Err(e) => {
                let msg: String = concat2("commit preflight failed: ", e.as_str());
                self.app.set_status(msg.as_str());
                Step::Over
            },
            Ok(n) => {
                if n == 0 {
                    self.app.set_status("nothing staged — s to stage files");
                    Step::Over
                } else {
                    let argv: Vec<String> = words(&["commit", "-e"]);
                    assert(deep(argv@) =~= seq!["commit"@, "-e"@]);
                    Step::Tell(ToPreview::GitInPane { argv })
                }
            },
        }
    }

    /// The diff pane was told to commit. It is busy with it, unless the line broke.
    pub fn commit_told(&mut self) -> (r: Step)
        ensures
            if old(self).link == Link::Down {
                r is Over && *final(self) == *old(self)
            } else {
                r is Focus && old(self).busied(*final(self), "committing…"@)
            },
    {
        if self.link == Link::Down {
            return Step::Over;
        }
        self.be_busy("committing…".to_owned());
        Step::Focus
    }

    /// What came of a commit: its line in the log, if it was made.
    pub fn committed(&mut self, summary: Option<String>)
        ensures
            *final(self) == (Session { app: final(self).app, ..*old(self) }),
            old(self).app.tells(
                final(self).app,
                match summary {
                    Some(s) => "committed "@ + s@,
                    None => "commit aborted"@,
                },
            ),
    {
        match summary {
            Some(s) => {
                let msg: String = concat2("committed ", s.as_str());
                self.app.set_status(msg.as_str());
            },
            None => self.app.set_status("commit aborted"),
        }
    }
}

} // verus!
