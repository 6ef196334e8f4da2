use migration_engine::markdown::prepare_markdown;

#[test]
fn text_without_common_indent_is_unchanged() {
    assert_eq!(prepare_markdown("a\nb"), "a\nb");
    assert_eq!(prepare_markdown(""), "");
    assert_eq!(prepare_markdown("plain"), "plain");
}

#[test]
fn common_indent_is_stripped() {
    assert_eq!(prepare_markdown("  a\n  b"), "a\nb\n");
    assert_eq!(prepare_markdown("    # Title\n    body"), "# Title\nbody\n");
}

#[test]
fn smallest_indent_wins() {
    assert_eq!(prepare_markdown("   x\n  y\n"), " x\ny\n");
}

#[test]
fn blank_lines_do_not_bound_the_indent() {
    assert_eq!(prepare_markdown("  a\n\n  b"), "a\n\nb\n");
}

#[test]
fn short_whitespace_lines_come_back_empty() {
    // a line of one space is shorter than the common indent of two
    assert_eq!(prepare_markdown("  a\n \n  b"), "a\n\nb\n");
}
