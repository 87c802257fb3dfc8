use xylitol::style::{CellStyle, Color, Span, StyledLine};
use xylitol::width::{marker_aware_width, truncate, wrap, wrap_plain};

#[test]
fn truncate_no_op_when_within_width() {
    let line = StyledLine::raw("hello");
    let out = truncate(&line, 10, "…");
    assert_eq!(out.plain_text(), "hello");
}

#[test]
fn truncate_ascii_adds_ellipsis() {
    let line = StyledLine::raw("hello world");
    let out = truncate(&line, 8, "…");
    assert_eq!(out.plain_text(), "hello w…");
    assert!(out.width() <= 8);
}

#[test]
fn truncate_no_ellipsis_marker() {
    let line = StyledLine::raw("abcdefghij");
    let out = truncate(&line, 4, "");
    assert_eq!(out.plain_text(), "abcd");
}

#[test]
fn truncate_cjk_never_splits_wide_char() {
    let line = StyledLine::raw("你好");
    let out = truncate(&line, 3, "");
    assert_eq!(out.plain_text(), "你");
    assert_eq!(out.width(), 2);
}

#[test]
fn truncate_preserves_style_on_kept_part() {
    let line = StyledLine::from_spans(vec![Span::styled(
        "red text",
        CellStyle::default().fg(Color::Red),
    )]);
    let out = truncate(&line, 4, "");
    assert_eq!(out.spans.len(), 1);
    assert_eq!(out.spans[0].style.fg, Some(Color::Red));
    assert_eq!(out.spans[0].text, "red ");
}

#[test]
fn wrap_short_line_one_row() {
    let line = StyledLine::raw("hello");
    let rows = wrap(&line, 80);
    assert_eq!(rows.len(), 1);
    assert_eq!(rows[0].plain_text(), "hello");
}

#[test]
fn wrap_long_line_splits_at_width() {
    let line = StyledLine::raw("abcdefghij");
    let rows = wrap(&line, 4);
    assert_eq!(rows.len(), 3);
    assert_eq!(rows[0].plain_text(), "abcd");
    assert_eq!(rows[1].plain_text(), "efgh");
    assert_eq!(rows[2].plain_text(), "ij");
}

#[test]
fn wrap_cjk_uses_display_width() {
    let line = StyledLine::raw("你好世界再见");
    let rows = wrap(&line, 4);
    assert_eq!(rows.len(), 3);
    assert_eq!(rows[0].plain_text(), "你好");
    assert_eq!(rows[1].plain_text(), "世界");
    assert_eq!(rows[2].plain_text(), "再见");
}

#[test]
fn wrap_preserves_span_style_across_break() {
    let line = StyledLine::from_spans(vec![Span::styled(
        "redtext",
        CellStyle::default().fg(Color::Red),
    )]);
    let rows = wrap(&line, 3);
    assert!(rows.len() >= 2);
    for row in &rows {
        for span in &row.spans {
            assert_eq!(span.style.fg, Some(Color::Red), "style carried to wrapped row");
        }
    }
}

#[test]
fn wrap_mixed_style_splits_spans_correctly() {
    let line = StyledLine::from_spans(vec![
        Span::styled("ab", CellStyle::default().bold()),
        Span::raw("cdef"),
    ]);
    let rows = wrap(&line, 3);
    assert_eq!(rows[0].plain_text(), "abc");
    assert_eq!(rows[1].plain_text(), "def");
    assert_eq!(rows[0].spans.len(), 2);
    assert!(rows[0].spans[0].style.bold);
}

#[test]
fn wrap_plain_multiline_splits_on_newline() {
    let rows = wrap_plain("a\nb\nc", 80);
    assert_eq!(rows.len(), 3);
    assert_eq!(rows[0].plain_text(), "a");
    assert_eq!(rows[1].plain_text(), "b");
    assert_eq!(rows[2].plain_text(), "c");
}

#[test]
fn wrap_plain_cjk() {
    let rows = wrap_plain("你好世界", 4);
    assert_eq!(rows.len(), 2);
    assert_eq!(rows[0].plain_text(), "你好");
    assert_eq!(rows[1].plain_text(), "世界");
}

#[test]
fn wrap_empty_returns_one_empty_row() {
    let rows = wrap_plain("", 80);
    assert_eq!(rows.len(), 1);
    assert!(rows[0].is_empty());
}

#[test]
fn marker_aware_width_plain_ascii() {
    assert_eq!(marker_aware_width("hello"), 5);
}

#[test]
fn marker_aware_width_cjk() {
    assert_eq!(marker_aware_width("你好"), 4);
}

#[test]
fn marker_aware_width_strips_sgr() {
    assert_eq!(marker_aware_width("\x1b[31mhi"), 2);
}

#[test]
fn marker_aware_width_strips_apc_cursor_marker() {
    const CURSOR_MARKER: &str = "\x1b_pi:c\x07";
    assert_eq!(marker_aware_width(&format!("ab{CURSOR_MARKER}cd")), 4);
}

#[test]
fn marker_aware_width_only_escapes() {
    assert_eq!(marker_aware_width("\x1b[1m\x1b[0m"), 0);
}

#[test]
fn wrap_keeps_all_text_in_order() {
    let line = StyledLine::from_spans(vec![
        Span::styled("héllo ", CellStyle::default().italic()),
        Span::raw("世界 and more"),
    ]);
    for w in 1..12 {
        let rows = wrap(&line, w);
        let joined: String = rows.iter().map(|r| r.plain_text()).collect();
        assert_eq!(joined, line.plain_text(), "width {w}");
        for r in &rows {
            let rw = r.width();
            assert!(rw <= w || r.plain_text().chars().count() == 1, "width {w}: {rw}");
        }
    }
}

#[test]
fn wrap_zero_width_returns_line() {
    let line = StyledLine::raw("abc");
    let rows = wrap(&line, 0);
    assert_eq!(rows.len(), 1);
    assert_eq!(rows[0], line);
}

#[test]
fn wrap_plain_wide_char_in_narrow_width_gets_own_row() {
    let rows = wrap_plain("a你", 1);
    assert_eq!(rows.len(), 2);
    assert_eq!(rows[0].plain_text(), "a");
    assert_eq!(rows[1].plain_text(), "你");
}

#[test]
fn truncation_keeps_a_fitting_prefix_then_the_ellipsis() {
    let line = StyledLine::from_spans(vec![
        Span::styled("abc", CellStyle::default().bold()),
        Span::raw("你好def"),
    ]);
    for w in 0..12 {
        let out = truncate(&line, w, "~");
        let text = out.plain_text();
        if line.width() <= w {
            assert_eq!(out, line);
        } else {
            let kept = text.strip_suffix('~').unwrap();
            assert!(line.plain_text().starts_with(kept), "w={w}: {text:?}");
            assert!(StyledLine::raw(kept).width() + 1 <= w.max(1), "w={w}: {text:?}");
        }
    }
}
