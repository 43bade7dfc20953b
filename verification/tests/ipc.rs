use gitview::ipc::one_line;

#[test]
fn single_line_text_is_unchanged() {
    assert_eq!(one_line("just a note"), "just a note");
}

#[test]
fn line_breaks_become_a_visible_marker() {
    assert_eq!(one_line("first\nsecond"), "first ⏎ second");
}

#[test]
fn blank_lines_and_trailing_space_are_dropped() {
    assert_eq!(one_line("a\n\n\nb  \n"), "a ⏎ b");
    assert_eq!(one_line("\n\n"), "");
}

#[test]
fn the_result_never_contains_a_newline() {
    for text in ["a\nb", "\n", "", "a\r\nb", "x\n\ny"] {
        assert!(!one_line(text).contains('\n'), "{text:?}");
    }
}
