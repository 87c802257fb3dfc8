use xylitol::style::{CellStyle, Color, Span, StyledLine, CURSOR_MARKER};

#[test]
fn empty_style_emits_nothing() {
    assert_eq!(CellStyle::default().to_sgr(), "");
    assert!(CellStyle::default().is_empty());
}

#[test]
fn bold_emits_sgr_1() {
    assert_eq!(CellStyle::default().bold().to_sgr(), "\x1b[1m");
}

#[test]
fn bold_italic_combines_params() {
    let s = CellStyle::default().bold().italic();
    assert_eq!(s.to_sgr(), "\x1b[1;3m");
}

#[test]
fn fg_red_emits_31() {
    assert_eq!(CellStyle::default().fg(Color::Red).to_sgr(), "\x1b[31m");
}

#[test]
fn fg_indexed_256color() {
    assert_eq!(
        CellStyle::default().fg(Color::Indexed(202)).to_sgr(),
        "\x1b[38;5;202m"
    );
}

#[test]
fn fg_rgb_truecolor() {
    assert_eq!(
        CellStyle::default().fg(Color::Rgb(1, 2, 3)).to_sgr(),
        "\x1b[38;2;1;2;3m"
    );
}

#[test]
fn bg_and_fg_both() {
    let s = CellStyle::default().fg(Color::Red).bg(Color::Blue);
    assert_eq!(s.to_sgr(), "\x1b[31;44m");
}

#[test]
fn full_style_all_params() {
    let s = CellStyle {
        fg: Some(Color::Green),
        bg: Some(Color::Yellow),
        bold: true,
        italic: true,
        underline: true,
        dim: true,
        crossed_out: true,
        reverse: true,
    };
    assert_eq!(s.to_sgr(), "\x1b[32;43;1;2;3;4;7;9m");
}

#[test]
fn styled_line_to_ansi_single_span() {
    let line = StyledLine::from_spans(vec![Span::styled("hi", CellStyle::default().bold())]);
    assert_eq!(line.to_ansi(), "\x1b[1mhi");
}

#[test]
fn styled_line_to_ansi_multi_span_style_change() {
    let line = StyledLine::from_spans(vec![
        Span::styled("red ", CellStyle::default().fg(Color::Red)),
        Span::raw("plain"),
    ]);
    assert_eq!(line.to_ansi(), "\x1b[31mred plain");
}

#[test]
fn styled_line_empty_skips_sgr() {
    let line = StyledLine::from_spans(vec![
        Span::styled("", CellStyle::default().bold()),
        Span::raw("x"),
    ]);
    assert_eq!(line.to_ansi(), "x");
}

#[test]
fn styled_line_plain_text_concat() {
    let line = StyledLine::from_spans(vec![
        Span::raw("hello "),
        Span::styled("world", CellStyle::default().bold()),
    ]);
    assert_eq!(line.plain_text(), "hello world");
}

#[test]
fn styled_line_width_ascii() {
    let line = StyledLine::raw("hello");
    assert_eq!(line.width(), 5);
}

#[test]
fn styled_line_width_cjk_double() {
    let line = StyledLine::raw("你好");
    assert_eq!(line.width(), 4);
}

#[test]
fn styled_line_width_mixed() {
    let line = StyledLine::raw("a你b好c");
    assert_eq!(line.width(), 7);
}

#[test]
fn styled_line_equality_for_diff() {
    let a = StyledLine::from_spans(vec![Span::styled("x", CellStyle::default().bold())]);
    let b = StyledLine::from_spans(vec![Span::styled("x", CellStyle::default().bold())]);
    assert_eq!(a, b);
    let c = StyledLine::from_spans(vec![Span::raw("x")]);
    assert_ne!(a, c);
}

#[test]
fn line_reset_constant() {
    assert_eq!(StyledLine::LINE_RESET, "\x1b[0m\x1b]8;;\x07");
}

#[test]
fn style_sgr_each_color_and_flag() {
    assert_eq!(CellStyle::default().bg(Color::Indexed(7)).to_sgr(), "\x1b[48;5;7m");
    assert_eq!(CellStyle::default().bg(Color::Rgb(10, 20, 30)).to_sgr(), "\x1b[48;2;10;20;30m");
    assert_eq!(CellStyle::default().underline().to_sgr(), "\x1b[4m");
    assert_eq!(CellStyle::default().dim().to_sgr(), "\x1b[2m");
    assert_eq!(Color::White.sgr_fg(), "97");
    assert_eq!(Color::Black.sgr_bg(), "40");
    assert_eq!(Color::DarkGray.sgr_bg(), "100");
    assert_eq!(Color::Reset.sgr_fg(), "39");
    assert!(!CellStyle::default().bold().is_empty());
}

#[test]
fn styled_line_builders_and_emptiness() {
    let mut line = StyledLine::new();
    assert!(line.is_empty());
    line.push(Span::raw(""));
    assert!(line.is_empty(), "only empty spans");
    line.push(Span::new("ab", CellStyle::default().italic()));
    assert!(!line.is_empty());
    assert_eq!(line.to_ansi(), "\x1b[3mab");
    assert_eq!(line.try_width(), Some(2));
    assert_eq!(StyledLine::empty().spans.len(), 0);
    assert_eq!(StyledLine::default(), StyledLine::new());
    assert_eq!(line.duplicate(), line);
}

#[test]
fn styled_line_two_styled_spans_reset_between() {
    let line = StyledLine::from_spans(vec![
        Span::styled("a", CellStyle::default().bold()),
        Span::styled("b", CellStyle::default().fg(Color::Red)),
    ]);
    let ansi = line.to_ansi();
    assert!(ansi.starts_with("\x1b[1ma"), "{ansi:?}");
    assert!(ansi.ends_with("\x1b[31mb"), "{ansi:?}");
}

#[test]
fn cursor_marker_is_apc() {
    assert_eq!(CURSOR_MARKER, "\x1b_pi:c\x07");
}
