use gitview::card::{
    card_box, card_box_width, card_text_width, composer_card, elide_title, range_label, thread_card, Card,
    CardKind,
};
use gitview::config::Theme;
use gitview::elide::{elide_head, elide_tail, wrap_plain};
use gitview::git_repo::{conventional_rank, is_own_branch, is_trunk_name};
use gitview::keymap::{Key, KeyCode, KeyModifiers};
use gitview::path::{file_name_of, file_stem_of, is_same_file, join_path, steps_of};
use gitview::preview_message::message_lines;
use gitview::splice::splice_cards;
use gitview::style::{Line, Span, Style};
use gitview::text::{
    blank, contains_str, decimal_of, ends_with, is_whitespace, join_of, lines_of, padded_left,
    repeat_char, signed_of, split_of, starts_with, strip_prefix, trimmed, trimmed_end,
    trimmed_start,
};
use gitview::preview::{Composer, Outcome};
use gitview::textarea::TextArea;
use gitview::thread::{Anchor, Author, Thread};

#[test]
fn white_space_is_what_the_standard_library_says() {
    for c in '\0'..=char::MAX {
        assert_eq!(is_whitespace(c), c.is_whitespace(), "{c:?}");
    }
}

#[test]
fn texts_are_cut_as_the_standard_library_cuts_them() {
    for s in [
        "", "a", "a\n", "\n", "a\r\nb", "a\n\nb\r", "\r\n", " \ta b\u{3000}", "\u{85}x", "--",
    ] {
        let own: Vec<&str> = s.lines().collect();
        assert_eq!(lines_of(s), own, "{s:?}");
        let own: Vec<&str> = s.split('\n').collect();
        assert_eq!(split_of(s, '\n'), own, "{s:?}");
        assert_eq!(trimmed(s), s.trim());
        assert_eq!(trimmed_start(s), s.trim_start());
        assert_eq!(trimmed_end(s), s.trim_end());
        assert_eq!(blank(s), s.trim().is_empty());
        for p in ["", "a", "\n", "--", "b"] {
            assert_eq!(starts_with(s, p), s.starts_with(p));
            assert_eq!(ends_with(s, p), s.ends_with(p));
            assert_eq!(contains_str(s, p), s.contains(p));
            assert_eq!(strip_prefix(s, p).as_deref(), s.strip_prefix(p));
        }
    }
}

#[test]
fn numbers_are_written_in_decimal() {
    for n in [0, 7, 10, 4096, u64::MAX] {
        assert_eq!(decimal_of(n), n.to_string());
    }
    for n in [0, -1, 12, i64::MIN, i64::MAX] {
        assert_eq!(signed_of(n), n.to_string());
    }
    assert_eq!(padded_left("12", 5), "   12");
    assert_eq!(padded_left("123456", 5), "123456");
    assert_eq!(repeat_char('─', 3), "───");
    assert_eq!(join_of(&["a".into(), "b".into()], ", "), "a, b");
}

#[test]
fn paths_are_taken_apart_as_the_standard_library_takes_them() {
    for p in [
        "a", "a/b.rs", "/a/b/c.tar.gz", "a/b/", "a//b", "./a", "a/..", "/", "", ".hidden", "x/.h",
        "a.", "..",
    ] {
        let own = std::path::Path::new(p);
        let text = |s: Option<&str>| s.map(|s| s.to_string());
        assert_eq!(
            file_name_of(p),
            text(own.file_name().and_then(|s| s.to_str())),
            "{p}"
        );
        assert_eq!(
            file_stem_of(p),
            text(own.file_stem().and_then(|s| s.to_str())),
            "{p}"
        );
        for base in ["/repo", "/repo/", "rel", ""] {
            assert_eq!(
                join_path(base, p),
                std::path::Path::new(base).join(p).to_str().unwrap()
            );
        }
    }
    assert_eq!(steps_of("src/deep/a.rs"), vec!["src", "deep", "a.rs"]);
}

#[test]
fn a_long_text_is_cut_with_a_mark() {
    assert_eq!(elide_tail("abcdef", 4), "abc…");
    assert_eq!(elide_head("abcdef", 4), "…def");
    assert_eq!(elide_tail("abc", 4), "abc");
    assert_eq!(elide_head("abc", 3), "abc");
    for row in wrap_plain("the quick brown fox", 7) {
        assert!(row.chars().count() <= 7, "{row}");
    }
    assert_eq!(wrap_plain("", 7), vec![""]);
}

#[test]
fn a_branch_ranks_by_its_name() {
    assert!(conventional_rank("main") < conventional_rank("feature"));
    assert!(is_trunk_name("master"));
    assert!(!is_trunk_name("main-ish"));
    let remotes = vec!["origin".to_string()];
    assert!(is_own_branch("origin/x", Some("x"), &remotes));
    assert!(is_own_branch("x", Some("x"), &remotes));
    assert!(!is_own_branch("upstream/x", Some("x"), &remotes));
    assert!(!is_own_branch("x", None, &remotes));
}

// ---- cards ----------------------------------------------------------------------

fn flat(line: &Line) -> String {
    line.spans.iter().map(|s| s.content.as_str()).collect()
}

fn raw(text: &str) -> Vec<Span> {
    vec![Span::raw(text.into())]
}

#[test]
fn a_card_is_its_rows_between_two_borders() {
    let lines = card_box(" note ", vec![raw("a"), raw("b")], 80, Theme::Dark, false);
    assert_eq!(lines.len(), 4);
    let wide = flat(&lines[0]).chars().count();
    for l in &lines {
        assert_eq!(flat(l).chars().count(), wide);
    }
    assert_eq!(card_box_width(80), 60);
    assert_eq!(card_text_width(80), 56);
    assert!(card_box_width(30) <= 30);
}

#[test]
fn the_badge_of_a_title_is_the_last_to_go() {
    let title = vec![
        Span::raw(" lines 12-20 of a long file name here ".into()),
        Span::raw(" replied ".into()),
    ];
    let cut = elide_title(title.clone(), 34);
    let text: String = cut.iter().map(|s| s.content.as_str()).collect();
    assert!(text.chars().count() <= 34, "{text}");
    assert!(text.contains("replied"), "{text}");
    assert_eq!(elide_title(title.clone(), 100), title);
}

#[test]
fn a_range_reads_naturally() {
    assert_eq!(range_label("note", 0, 0), "note · whole file");
    assert_eq!(range_label("note", 7, 7), "note · line 7");
    assert_eq!(range_label("note", 7, 9), "note · lines 7-9");
}

#[test]
fn a_card_shows_what_was_asked_and_not_what_came_back() {
    let mut t = Thread::new(
        1,
        Anchor {
            file: "a.rs".into(),
            start: 1,
            end: 1,
            cached: false,
            snippet: String::new(),
            blob: None,
            head_sha: None,
        },
        "why?".into(),
    );
    t.push(Author::Agent, "because.".into());
    t.push(Author::Human, "and then?".into());
    let text: String = thread_card(raw("t"), &t, 80, Theme::Dark, false)
        .iter()
        .map(flat)
        .collect();
    assert!(text.contains("why?") && text.contains("and then?"), "{text}");
    assert!(!text.contains("because."), "{text}");
}

#[test]
fn cards_stand_below_their_lines_and_leave_the_rest_alone() {
    let line = |t: &str| Line::from_text(t.into());
    let base = vec![line("one"), line("two"), line("three")];
    let out = splice_cards(
        base,
        vec![
            Card {
                anchor: 2,
                lines: vec![line("[a]"), line("[b]")],
                kind: CardKind::Thread(9),
            },
            Card {
                anchor: 1,
                lines: vec![line("[c]")],
                kind: CardKind::Composer,
            },
        ],
    );
    let text: Vec<String> = out.doc.iter().map(flat).collect();
    assert_eq!(text, vec!["one", "[c]", "two", "[a]", "[b]", "three"]);
    assert_eq!(out.card_lines, vec![1, 3, 4]);
    assert_eq!(out.card_starts, vec![(9, 3, 2)]);
    assert_eq!(out.composer_span, Some((1, 1)));
}

#[test]
fn the_box_shows_its_text_with_the_caret() {
    let shown = |area: &TextArea| -> String {
        composer_card("note", area, 60, Theme::Dark)
            .iter()
            .map(flat)
            .collect::<Vec<_>>()
            .join("\n")
    };
    assert!(shown(&TextArea::new("why is this safe?")).contains("why is this safe?"));
    let text = shown(&TextArea::new("one\ntwo"));
    assert!(text.contains("one") && text.contains("two"));
    assert!(!text.contains("onetwo"));
    assert!(text.contains(" note "));
}

#[test]
fn a_commit_message_has_its_body_below_an_empty_line() {
    let text: Vec<String> = message_lines("abc", "subject", "t", "2024-01-01", "a\n\nb")
        .iter()
        .map(flat)
        .collect();
    assert_eq!(
        text,
        vec!["subject", "abc · t · 2024-01-01", "", "a", "", "b"]
    );
    let bare = message_lines("abc", "subject", "t", "2024-01-01", "");
    assert_eq!(bare.len(), 2);
    assert_eq!(bare[0].spans[0].style, Style::new().bold());
}

// ---- typing ----------------------------------------------------------------------

fn key(code: KeyCode, ctrl: bool, shift: bool) -> Key {
    Key {
        code,
        mods: KeyModifiers {
            ctrl,
            shift,
            ..KeyModifiers::none()
        },
    }
}

fn after(text: &str, keys: &[Key]) -> TextArea {
    let mut area = TextArea::new(text);
    for k in keys {
        assert!(area.key(*k, 10));
    }
    area
}

fn plain(code: KeyCode) -> Key {
    key(code, false, false)
}

fn ctrl(c: char) -> Key {
    key(KeyCode::Char(c), true, false)
}

fn typed(text: &str, key: Key) -> (Outcome, Option<String>) {
    let mut c = Composer {
        editing: None,
        input: TextArea::new(text),
    };
    let outcome = c.key(key, 10);
    (outcome, c.finish())
}

#[test]
fn enter_saves_and_an_empty_note_is_a_cancel() {
    let enter = plain(KeyCode::Enter);
    assert_eq!(typed("ab", enter), (Outcome::Save, Some("ab".into())));
    assert_eq!(typed(" \n", enter), (Outcome::Save, None));
    assert_eq!(
        typed("ab", plain(KeyCode::Esc)),
        (Outcome::Cancel, Some("ab".into()))
    );
    assert_eq!(
        typed("ab", ctrl('x')),
        (Outcome::Ignored, Some("ab".into()))
    );
    assert_eq!(
        typed("ab", plain(KeyCode::Char('c'))),
        (Outcome::Edited, Some("abc".into()))
    );
}

#[test]
fn a_text_is_edited_where_the_caret_is() {
    assert_eq!(after("ab", &[plain(KeyCode::Char('c'))]).text(), "abc");
    assert_eq!(after("ab", &[key(KeyCode::Enter, false, true)]).text(), "ab\n");
    assert_eq!(after("ab", &[ctrl('j')]).text(), "ab\n");
    assert_eq!(after("ab", &[ctrl('u')]).text(), "");
    assert_eq!(after("aé", &[plain(KeyCode::Backspace)]).text(), "a");
    assert_eq!(after("", &[plain(KeyCode::Backspace)]).text(), "");
    assert_eq!(after("one two ", &[ctrl('w')]).text(), "one ");
    assert_eq!(
        after("one two", &[key(KeyCode::Backspace, true, false)]).text(),
        "one "
    );
    let left = plain(KeyCode::Left);
    assert_eq!(after("abc", &[left, left, plain(KeyCode::Char('x'))]).text(), "axbc");
    assert_eq!(after("abc", &[left, left, plain(KeyCode::Delete)]).text(), "ac");
    let undone = after("abc", &[left, plain(KeyCode::Char('x')), plain(KeyCode::Backspace)]);
    assert_eq!((undone.text().as_str(), undone.caret), ("abc", 2));
}

/// The rows of a text at a width.
fn rows(area: &TextArea, width: usize) -> Vec<String> {
    area.layout(width)
        .iter()
        .map(|(from, to)| area.text[*from..*to].iter().collect())
        .collect()
}

/// The caret's row, and its place in it.
fn caret(area: &TextArea) -> (usize, usize) {
    let rows = area.layout(10);
    let at = rows.iter().rposition(|r| r.0 <= area.caret).unwrap();
    (at, area.caret - rows[at].0)
}

#[test]
fn the_caret_moves_over_wrapped_rows() {
    let text = "the quick brown fox\njumps";
    let area = TextArea::new(text);
    assert_eq!(rows(&area, 10), vec!["the quick ", "brown fox", "jumps"]);
    assert_eq!(caret(&area), (2, 5));
    assert!(!area.is_empty() && TextArea::new("").is_empty());
    let up = plain(KeyCode::Up);
    assert_eq!(caret(&after(text, &[up])), (1, 5));
    assert_eq!(caret(&after(text, &[up, up, plain(KeyCode::End)])), (0, 9));
    assert_eq!(caret(&after(text, &[up, ctrl('a')])), (1, 0));
    assert_eq!(
        caret(&after(text, &[up, ctrl('e'), plain(KeyCode::Down)])),
        (2, 5)
    );
    assert_eq!(after(text, &[up, up, up, plain(KeyCode::Home)]).caret, 0);
    let area = TextArea::new("a\n");
    assert_eq!(rows(&area, 10), vec!["a", ""]);
    assert_eq!(caret(&area), (1, 0));
    assert_eq!(
        rows(&TextArea::new("abcdefghijkl"), 5),
        vec!["abcde", "fghij", "kl"]
    );
}

#[test]
fn printed_paths_are_the_same_only_as_the_same_text() {
    let paths = ["a/b", "a/b.rs", "a b", "b/a", "..a/b", "a/b/c"];
    for a in paths {
        for b in paths {
            assert_eq!(is_same_file(a, b), a == b, "{a} {b}");
        }
    }
}

#[test]
fn paths_are_compared_as_the_standard_library_compares_them() {
    let paths = [
        "", ".", "/", "a", "./a", "/a", "//a", "a/", "a//b", "a/b", "a/./b", "a/b/.", "a/../b",
        "./a/b", "..", "a.rs", "a/b/c", "/.", "./.",
    ];
    for a in paths {
        for b in paths {
            let same = std::path::Path::new(a) == std::path::Path::new(b);
            assert_eq!(is_same_file(a, b), same, "{a:?} {b:?}");
        }
    }
}
