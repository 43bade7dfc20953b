# gitview

A git viewer for two terminal panes: a list of what has changed, and the diff of
the selected file beside it. Notes can be written on the lines of a diff, sent to
a coding agent in another pane, and answered there.

`src/` is the library, verified with Verus. It does no I/O: it makes the argument
lists for git and for the terminal multiplexer, reads what they print, and decides
what happens next. `app/` is the program around it: processes, sockets, files,
threads and the terminal. `tests/` runs the library.

## Modules

Text and paths
: `text`, `path`, `hash`, `json`, `tabs`, `style`, `elide`

Git
: `git` (types), `git_parse` (what git prints), `git_stat`, `git_order`,
  `git_repo` (commands, answers, the base of a branch)

Diffs
: `emphasis` (changed words), `rows` (lines, folds), `render` (styled lines),
  `wrap` and `wrap_laws`

Review threads
: `thread` (turns, anchors, the store), `agentio` (an agent's state and replies),
  `reply` (one question, step by step), `ipc` (messages between the panes)

The diff pane
: `card`, `splice`, `layout` (note cards in the document), `docview` (cursor,
  selection, scrolling), `preview`, `notes`, `compose`, `textarea`,
  `preview_message`, `preview_session`, `preview_tick`, `preview_ui`

The list pane
: `list_rows`, `list`, `list_views`, `list_input`, `list_session`, `list_edit`
  (editing and committing, step by step), `list_tick`, `list_ui`, `list_draw`,
  `list_footer`

Views and popups
: `config`, `keymap` and `keymap_laws`, `orchestrate`, `host`, `opening`,
  `popups`, `probe`

## What is trusted

A few functions are called and not proved: `String::push`, `String::push_str`,
`String::from_utf8_lossy`, `str::to_uppercase`, `Debug` of a list of strings and
the clock of the standard library; `serde_json::from_str`; the line and word diffs
of `similar`; the widths of `unicode-width`. Each stands behind an item whose
comment says what is claimed.

Everything that git or an agent says comes in as an argument, and so do the
milliseconds that flashes and debounces go by. The clock is read in one place, for
the timestamps of turns and threads. Paths are held as texts and compared step by
step. Ratios and percentages that the multiplexer wants as floating-point numbers
are computed in `app/`.
