use gitview::config::Theme;
use gitview::emphasis::{coalesce, push_range, trim_edges, word_emphasis, CharRange, MIN_SIMILARITY};
use gitview::render::{build, DiffDoc};
use gitview::rows::Run;
use gitview::style::{Color, Line, Span, Style};
use gitview::tabs::expand_tabs;
use gitview::wrap::{wrap_diff_text, wrap_line_spans};

/// Each line as one run of the plain color.
fn plain(text: &str) -> Vec<Vec<Run>> {
    text.lines()
        .map(|l| {
            vec![Run {
                text: l.to_string(),
                color: (200, 200, 200),
            }]
        })
        .collect()
}

fn doc(old: &str, new: &str) -> DiffDoc {
    build(
        old,
        new,
        &plain(old),
        &plain(new),
        Theme::Dark,
        (200, 200, 200),
        3,
        4,
    )
}

#[test]
fn empty_when_content_equal() {
    let d = doc("same\n", "same\n");
    assert!(d.is_empty);
    assert!(!d.binary);
}

#[test]
fn binary_detected_by_nul() {
    let d = doc("ok\n", "bin\0ary\n");
    assert!(d.binary);
}

#[test]
fn first_change_is_first_inserted_line() {
    let d = doc("a\nb\nc\n", "a\nb\nX\nc\n");
    assert_eq!(d.first_change, Some(3));
}

#[test]
fn change_lines_carry_backgrounds_and_gutter_numbers() {
    let d = doc("alpha\nbeta\ngamma\n", "alpha\nBETA\ngamma\n");
    let flat: Vec<String> = d
        .text
        .iter()
        .map(|l| l.spans.iter().map(|s| s.content.as_str()).collect())
        .collect();
    let del = flat.iter().find(|l| l.contains("beta")).unwrap();
    let ins = flat.iter().find(|l| l.contains("BETA")).unwrap();
    assert!(del.starts_with('▌'), "deletion bar: {del:?}");
    assert!(ins.starts_with('▌'), "insertion bar: {ins:?}");
    assert!(
        del.trim_start_matches('▌').trim_start().starts_with('2'),
        "old line no: {del:?}"
    );
    // Deletion line has the red tint as line style.
    let del_line = d
        .text
        .iter()
        .find(|l| l.spans.iter().any(|s| s.content.contains("beta")));
    assert!(del_line.unwrap().style.bg.is_some());
}

#[test]
fn long_context_folds() {
    let old: String = (0..40).map(|i| format!("line {i}\n")).collect();
    let new = old.replace("line 20", "LINE 20");
    let d = doc(&old, &new);
    let flat: String = d
        .text
        .iter()
        .flat_map(|l| l.spans.iter().map(|s| s.content.as_str()))
        .collect();
    assert!(flat.contains("unchanged lines"), "should fold: {flat}");
}

#[test]
fn clicking_a_fold_expands_it() {
    let old: String = (0..40).map(|i| format!("line {i}\n")).collect();
    let new = old.replace("line 20", "LINE 20");
    let mut d = doc(&old, &new);
    let folded_len = d.text.len();
    // First rendered line is the leading fold.
    assert!(d.unfold_at(0), "line 0 should be a fold");
    assert!(d.text.len() > folded_len, "unfolding adds lines");
    // A content line is not a fold.
    assert!(!d.unfold_at(1));
}

#[test]
fn word_emphasis_marks_changed_words() {
    let (ratio, old_e, new_e) = word_emphasis("let x = foo(a);", "let x = bar(a);");
    assert!(ratio >= MIN_SIMILARITY);
    assert_eq!(old_e.len(), 1);
    assert_eq!(new_e.len(), 1);
    let seg = |text: &str, (a, b): CharRange| -> String {
        text.chars()
            .skip(a as usize)
            .take((b - a) as usize)
            .collect()
    };
    // similar tokenizes on whitespace, so the changed "word" is foo(a);
    assert!(seg("let x = foo(a);", old_e[0]).contains("foo"));
    assert!(seg("let x = bar(a);", new_e[0]).contains("bar"));
    // the shared prefix is never emphasized
    assert!(old_e[0].0 > 0);
}

#[test]
fn dissimilar_lines_get_no_emphasis() {
    let (ratio, _, _) = word_emphasis(
        "let start = scroll.min(len);",
        "return (row - inner.y) as usize;",
    );
    assert!(ratio < MIN_SIMILARITY);
}

// ---- wrapping ----

/// Concatenate a line's span contents, for content assertions that don't
/// care about styling.
fn flat(line: &Line) -> String {
    line.spans.iter().map(|s| s.content.as_str()).collect()
}

#[test]
fn wrap_leaves_a_short_line_untouched() {
    let text = vec![Line::from_text("short".into())];
    let w = wrap_diff_text(&text, 100);
    assert_eq!(w.text.len(), 1);
    assert_eq!(flat(&w.text[0]), "short");
    assert_eq!(w.row_to_line, vec![0]);
    assert_eq!(w.line_to_row, vec![0]);
}

#[test]
fn wrap_hard_breaks_a_word_longer_than_the_row() {
    // width 10, indent (GUTTER_CHARS) 6 -> continuation rows get 4 cols.
    let text = vec![Line::from_text("abcdefghijklmno".into())]; // 15 chars
    let w = wrap_diff_text(&text, 10);
    assert_eq!(w.text.len(), 3);
    assert_eq!(flat(&w.text[0]), "abcdefghij"); // first row: full width
    assert_eq!(flat(&w.text[1]), " ".repeat(6) + "klmn"); // then 4-col rows
    assert_eq!(flat(&w.text[2]), " ".repeat(6) + "o");
    // No content lost or duplicated across the hard break.
    let rebuilt: String = w
        .text
        .iter()
        .map(flat)
        .collect::<String>()
        .replace(' ', "");
    assert_eq!(rebuilt, "abcdefghijklmno");
}

#[test]
fn wrap_drops_a_space_that_does_not_fit_the_row() {
    // "a"*12 fills width 12 exactly; the following space has no room
    // left and is dropped rather than starting the next row.
    let text = vec![Line::from_text("aaaaaaaaaaaa b".into())];
    let w = wrap_diff_text(&text, 12);
    assert_eq!(w.text.len(), 2);
    assert_eq!(flat(&w.text[0]), "a".repeat(12));
    assert_eq!(flat(&w.text[1]), " ".repeat(6) + "b");
    let rebuilt: String = w.text.iter().map(flat).collect();
    assert!(!rebuilt.contains("12 b"), "sanity");
    assert!(
        !rebuilt.contains("a b"),
        "the space must not survive: {rebuilt:?}"
    );
}

#[test]
fn wrap_preserves_per_span_styles_across_a_wrap_point() {
    let style_a = Style::new().fg(Color::Red);
    let style_b = Style::new().fg(Color::Blue);
    let line = Line::from_spans(
        vec![
            Span::styled("hello ".into(), style_a),
            Span::styled("world".into(), style_b),
        ],
        Style::new(),
    );
    let w = wrap_diff_text(&vec![line], 8); // cont_width = 8-6 = 2
    assert_eq!(w.text.len(), 4, "{:#?}", w.text);
    // Row 0 keeps "hello " under style A.
    for span in &w.text[0].spans {
        assert_eq!(span.style, style_a);
    }
    assert_eq!(flat(&w.text[0]), "hello ");
    // "world" hard-breaks 2 cols at a time under style B, each
    // continuation row indented by the gutter width.
    let continuations: String = w.text[1..]
        .iter()
        .map(|l| {
            assert_eq!(l.spans[0].content.as_str(), " ".repeat(6), "leading indent");
            assert_eq!(l.spans[0].style, Style::default(), "indent has no fg");
            l.spans[1..]
                .iter()
                .map(|s| {
                    assert_eq!(s.style, style_b);
                    s.content.as_str()
                })
                .collect::<String>()
        })
        .collect();
    assert_eq!(continuations, "world");
}

#[test]
fn wrap_keeps_the_line_background_on_every_continuation_row() {
    let bg = Style::new().bg(Color::Rgb(10, 20, 30));
    let line = Line::from_spans(vec![Span::raw("abcdefghijklmno".into())], bg);
    let w = wrap_diff_text(&vec![line], 10);
    assert!(w.text.len() > 1);
    for l in &w.text {
        assert_eq!(
            l.style, bg,
            "every wrapped row keeps the source line's background"
        );
    }
}

#[test]
fn wrap_diff_text_maps_rows_back_to_their_source_line() {
    let text = vec![
        Line::from_text("short".into()),           // row 0
        Line::from_text("abcdefghijklmno".into()), // rows 1..=3 (hard-wrapped)
        Line::from_text("tail".into()),            // row 4
    ];
    let w = wrap_diff_text(&text, 10);
    assert_eq!(w.text.len(), 5);
    assert_eq!(w.row_to_line, vec![0, 1, 1, 1, 2]);
    assert_eq!(w.line_to_row, vec![0, 1, 4]);
}

// ---- words ----

#[test]
fn the_bound_on_likeness_is_seven_tenths() {
    assert_eq!(0.7f32.to_bits(), MIN_SIMILARITY);
    let (same, old_e, new_e) = word_emphasis("let x = 1;", "let x = 1;");
    assert_eq!(f32::from_bits(same), 1.0);
    assert!(old_e.is_empty() && new_e.is_empty());
}

#[test]
fn ranges_join_across_a_gap_of_space_and_lose_their_edges() {
    let mut ranges: Vec<CharRange> = vec![];
    push_range(&mut ranges, 0, 2);
    push_range(&mut ranges, 2, 1);
    push_range(&mut ranges, 4, 0);
    assert_eq!(ranges, vec![(0, 3)]);
    assert_eq!(trim_edges(&vec![(0, 5)], " ab  "), vec![(1, 3)]);
    assert_eq!(trim_edges(&vec![(0, 2)], "   "), vec![]);
    assert_eq!(coalesce(&vec![(0, 1), (2, 3)], "a b"), vec![(0, 3)]);
}

// ---- the document ----

#[test]
fn a_line_knows_its_numbers_on_both_sides() {
    let d = doc("alpha\nbeta\ngamma\n", "alpha\nBETA\ngamma\n");
    assert_eq!(d.numbers_of_line(0), Some((Some(1), Some(1))));
    assert_eq!(d.numbers_of_line(1), Some((Some(2), None)));
    assert_eq!(d.numbers_of_line(2), Some((None, Some(2))));
    assert_eq!(d.numbers_of_line(3), Some((Some(3), Some(3))));
    assert_eq!(d.numbers_of_line(4), None);
    assert_eq!(d.line_for_new(2), Some(2));
    assert_eq!(d.line_for_new(9), None);
    assert_eq!(d.marker_text_of_line(0).as_deref(), Some(" alpha"));
    assert_eq!(d.marker_text_of_line(1).as_deref(), Some("-beta"));
    assert_eq!(d.marker_text_of_line(2).as_deref(), Some("+BETA"));
}

#[test]
fn unfolding_brings_back_every_hidden_line() {
    let old: String = (0..40).map(|i| format!("line {i}\n")).collect();
    let new = old.replace("line 20", "LINE 20");
    let mut d = doc(&old, &new);
    assert!(d.unfold_at(0));
    let last = d.text.len() - 1;
    assert!(d.unfold_at(last));
    assert_eq!(d.text.len(), 41, "forty lines, one of them on both sides");
    assert!(!d.unfold_at(0), "nothing is left to unfold");
}

#[test]
fn wide_characters_take_two_cells() {
    let rows = wrap_line_spans(&Line::from_text("漢字漢字".into()), 4, 0);
    assert_eq!(rows.len(), 2);
    assert_eq!(flat(&rows[0]), "漢字");
    assert_eq!(flat(&rows[1]), "漢字");
}

#[test]
fn a_tab_is_shown_as_spaces_and_kept_in_the_snippet() {
    let d = doc("a\n", "a\n\tlet x;\n");
    assert_eq!(flat(&d.text[1]), "▌   2     let x;");
    assert_eq!(d.marker_text_of_line(1).as_deref(), Some("+\tlet x;"));
    assert_eq!(expand_tabs("\ta\tb", 2), "  a  b");
    assert_eq!(expand_tabs("no tab", 8), "no tab");
}
