use xylitol::render::Renderer;
use xylitol::style::{CellStyle, Color, Span, StyledLine, CURSOR_MARKER};
use xylitol::virtual_terminal::{VCell, VStyle, VirtualTerminal};

#[test]
fn vt_parses_simple_text() {
    let mut vt = VirtualTerminal::new(10, 3);
    vt.feed("hi");
    assert_eq!(vt.row_text(0), "hi");
    assert_eq!(vt.cursor(), (2, 0));
}

#[test]
fn vt_parses_newline_and_cr() {
    let mut vt = VirtualTerminal::new(10, 3);
    vt.feed("a\nb\r");
    assert_eq!(vt.row_text(0), "a");
    assert_eq!(vt.row_text(1), "b");
    assert_eq!(vt.cursor(), (0, 1));
}

#[test]
fn vt_parses_sgr_reset() {
    let mut vt = VirtualTerminal::new(10, 3);
    vt.feed("\x1b[31mr\x1b[0mg");
    assert_eq!(vt.cell_at(0, 0).style.fg, Some(Color::Red));
    assert_eq!(vt.cell_at(1, 0).style.fg, None, "reset clears fg");
}

#[test]
fn vt_parses_clear_line() {
    let mut vt = VirtualTerminal::new(10, 3);
    vt.feed("hello");
    vt.feed("\r\x1b[2K");
    assert_eq!(vt.row_text(0), "", "2K clears the line");
}

#[test]
fn vt_parses_clear_screen() {
    let mut vt = VirtualTerminal::new(10, 3);
    vt.feed("hello\nworld");
    vt.feed("\x1b[2J\x1b[H");
    assert_eq!(vt.row_text(0), "");
    assert_eq!(vt.row_text(1), "");
    assert_eq!(vt.cursor(), (0, 0));
}

#[test]
fn vt_parses_256_color() {
    let mut vt = VirtualTerminal::new(10, 3);
    vt.feed("\x1b[38;5;202mx");
    assert_eq!(vt.cell_at(0, 0).style.fg, Some(Color::Indexed(202)));
}

#[test]
fn vt_parses_truecolor() {
    let mut vt = VirtualTerminal::new(10, 3);
    vt.feed("\x1b[38;2;1;2;3mx");
    assert_eq!(vt.cell_at(0, 0).style.fg, Some(Color::Rgb(1, 2, 3)));
}

#[test]
fn vt_cursor_moves_and_absolute_column() {
    let mut vt = VirtualTerminal::new(20, 5);
    vt.feed("abc\r\n\x1b[2Bx");
    assert_eq!(vt.cursor(), (1, 3));
    vt.feed("\x1b[1A\x1b[5G");
    assert_eq!(vt.cursor(), (4, 2));
    vt.feed("\x1b[3;2H");
    assert_eq!(vt.cursor(), (1, 2));
}

#[test]
fn vt_bold_and_background_attributes() {
    let mut vt = VirtualTerminal::new(10, 2);
    vt.feed("\x1b[1;44mA\x1b[22;49mB");
    let a = vt.cell_at(0, 0);
    assert!(a.style.bold);
    assert_eq!(a.style.bg, Some(Color::Blue));
    let b = vt.cell_at(1, 0);
    assert!(!b.style.bold);
    assert_eq!(b.style.bg, None);
}

#[test]
fn vt_strips_apc_and_osc_sequences() {
    let mut vt = VirtualTerminal::new(20, 2);
    vt.feed("ab\x1b_pi:c\x07cd\x1b]8;;\x07e");
    assert_eq!(vt.row_text(0), "abcde");
    for row in &vt.grid {
        for cell in row {
            assert!(cell.ch != '\x1b');
        }
    }
}

#[test]
fn vt_find_row_containing_first_match() {
    let mut vt = VirtualTerminal::new(20, 4);
    vt.feed("alpha\r\nbeta\r\nalphabet");
    assert_eq!(vt.find_row_containing("alpha"), Some(0));
    assert_eq!(vt.find_row_containing("bet"), Some(1));
    assert_eq!(vt.find_row_containing("zzz"), None);
}

#[test]
fn vt_cell_outside_grid_is_blank() {
    let vt = VirtualTerminal::new(4, 2);
    let c = vt.cell_at(50, 50);
    assert_eq!(c.ch, '\0');
    assert_eq!(c.style.fg, None);
}

#[test]
fn vt_reads_back_written_text_and_cursor() {
    let mut vt = VirtualTerminal::new(12, 2);
    vt.feed("hello  ");
    assert_eq!(vt.row_text(0), "hello");
    assert_eq!(vt.cursor(), (7, 0));
    let mut vt = VirtualTerminal::new(4, 1);
    vt.feed("abcd");
    assert_eq!(vt.row_text(0), "abcd");
    assert_eq!(vt.cursor(), (4, 0));
}

fn render_e2e(lines: Vec<StyledLine>, width: u16, height: u16) -> VirtualTerminal {
    let mut r = Renderer::new(true);
    let writes = r.render_now(lines, width, height, 1_000).unwrap();
    let mut vt = VirtualTerminal::new(width, height);
    for w in &writes {
        vt.feed(w);
    }
    vt
}

#[test]
fn plain_text_round_trips_to_grid() {
    let vt = render_e2e(
        vec![StyledLine::raw("hello"), StyledLine::raw("world")],
        80,
        24,
    );
    assert_eq!(vt.row_text(0), "hello");
    assert_eq!(vt.row_text(1), "world");
}

#[test]
fn styled_text_carries_color_to_grid() {
    let line = StyledLine::from_spans(vec![Span::styled(
        "red",
        CellStyle::default().fg(Color::Red),
    )]);
    let vt = render_e2e(vec![line], 80, 24);
    let cell = vt.cell_at(0, 0);
    assert_eq!(cell.ch, 'r');
    assert_eq!(cell.style.fg, Some(Color::Red));
}

#[test]
fn bold_round_trips() {
    let line = StyledLine::from_spans(vec![Span::styled("b", CellStyle::default().bold())]);
    let vt = render_e2e(vec![line], 80, 24);
    assert!(vt.cell_at(0, 0).style.bold);
}

#[test]
fn diff_update_reflects_in_grid() {
    let mut r = Renderer::new(true);
    let mut written = String::new();
    for w in r.render_now(vec![StyledLine::raw("a")], 80, 24, 1_000).unwrap() {
        written.push_str(&w);
    }
    for w in r
        .render_now(vec![StyledLine::raw("a"), StyledLine::raw("b")], 80, 24, 1_100)
        .unwrap()
    {
        written.push_str(&w);
    }
    let mut vt = VirtualTerminal::new(80, 24);
    vt.feed(&written);
    assert!(
        vt.find_row_containing("a").is_some(),
        "first-frame content present"
    );
    assert!(
        vt.find_row_containing("b").is_some(),
        "appended line appears in grid: rows={:?}",
        (0..3).map(|y| vt.row_text(y)).collect::<Vec<_>>()
    );
}

#[test]
fn in_place_edit_updates_grid() {
    let mut r = Renderer::new(true);
    let mut written = String::new();
    for w in r.render_now(vec![StyledLine::raw("old")], 80, 24, 1_000).unwrap() {
        written.push_str(&w);
    }
    for w in r.render_now(vec![StyledLine::raw("NEW")], 80, 24, 1_100).unwrap() {
        written.push_str(&w);
    }
    let mut vt = VirtualTerminal::new(80, 24);
    vt.feed(&written);
    assert_eq!(
        vt.row_text(0),
        "NEW",
        "in-place edit reflected; clear-line + rewrite"
    );
}

#[test]
fn cursor_marker_does_not_appear_in_grid() {
    let line = StyledLine::from_spans(vec![
        Span::raw("ab"),
        Span::raw(&format!("{CURSOR_MARKER}cd")),
    ]);
    let vt = render_e2e(vec![line], 80, 24);
    assert_eq!(vt.row_text(0), "abcd");
    for row in &vt.grid {
        for cell in row {
            assert!(cell.ch != '\x1b', "no ESC leak: {:?}", cell);
        }
    }
}

#[test]
fn styled_line_does_not_leak_style_to_next_row() {
    let first = StyledLine::from_spans(vec![Span::styled(
        "hot",
        CellStyle::default().fg(Color::Red).bold(),
    )]);
    let second = StyledLine::raw("cold");
    let vt = render_e2e(vec![first, second], 20, 4);
    assert_eq!(vt.cell_at(0, 0).style.fg, Some(Color::Red));
    assert!(vt.cell_at(0, 0).style.bold);
    let next = vt.cell_at(0, 1);
    assert_eq!(next.ch, 'c');
    assert_eq!(next.style.fg, None);
    assert!(!next.style.bold);
}

#[test]
fn serialized_style_reads_back_in_first_cell() {
    let styles = [
        CellStyle::default().fg(Color::Indexed(200)).bg(Color::Rgb(1, 2, 3)).bold(),
        CellStyle::default().fg(Color::LightCyan).bg(Color::Reset).italic().underline().dim(),
        CellStyle::default(),
    ];
    let expected = [
        VStyle {
            fg: Some(Color::Indexed(200)),
            bg: Some(Color::Rgb(1, 2, 3)),
            bold: true,
            italic: false,
            underline: false,
            dim: false,
        },
        VStyle { fg: Some(Color::LightCyan), bg: None, bold: false, italic: true, underline: true, dim: true },
        VStyle { fg: None, bg: None, bold: false, italic: false, underline: false, dim: false },
    ];
    for (s, e) in styles.iter().zip(expected.iter()) {
        let mut vt = VirtualTerminal::new(4, 2);
        let mut input = s.to_sgr();
        input.push('x');
        vt.feed(&input);
        assert_eq!(vt.cell_at(0, 0), VCell { ch: 'x', style: *e });
        assert_eq!(vt.cursor(), (1, 0));
    }
}
