use xylitol::render::{clear_on_shrink_from, RenderError, Renderer, MIN_RENDER_INTERVAL_MS};
use xylitol::style::{CellStyle, Span, StyledLine, CURSOR_MARKER};
use xylitol::virtual_terminal::VirtualTerminal;

struct Screen {
    r: Renderer,
    written: String,
    cols: u16,
    rows: u16,
    now: u64,
}

impl Screen {
    fn new(cols: u16, rows: u16) -> Self {
        Screen {
            r: Renderer::new(true),
            written: String::new(),
            cols,
            rows,
            now: 1_000,
        }
    }

    fn render(&mut self, lines: &[StyledLine]) -> Result<(), RenderError> {
        self.now += 100;
        let writes = self.r.render_now(lines.to_vec(), self.cols, self.rows, self.now)?;
        for w in writes {
            self.written.push_str(&w);
        }
        Ok(())
    }

    fn resize(&mut self, cols: u16, rows: u16) {
        self.cols = cols;
        self.rows = rows;
    }
}

fn raw(lines: &[&str]) -> Vec<StyledLine> {
    lines.iter().map(|l| StyledLine::raw(l)).collect()
}

fn numbered(n: usize, prefix: &str) -> Vec<StyledLine> {
    (0..n).map(|i| StyledLine::raw(&format!("{prefix}{i}"))).collect()
}

fn cud_counts(out: &str) -> Vec<usize> {
    out.match_indices("\x1b[")
        .filter_map(|(i, _)| {
            out[i + 2..]
                .split('B')
                .next()
                .and_then(|n| n.parse::<usize>().ok())
        })
        .collect()
}

#[test]
fn first_render_writes_all_lines_without_clearing() {
    let mut s = Screen::new(80, 24);
    s.render(&raw(&["hello", "world"])).unwrap();
    let out = s.written.clone();
    assert!(out.contains("\x1b[?2026h"), "sync begin");
    assert!(out.contains("hello"), "line 1");
    assert!(out.contains("world"), "line 2");
    assert!(!out.contains("\x1b[2J"), "first render must NOT clear screen");
    assert!(out.contains("\x1b[?2026l"), "sync end");
    assert_eq!(s.r.previous_line_count(), 24);
}

#[test]
fn unchanged_frame_writes_nothing() {
    let mut s = Screen::new(80, 24);
    s.render(&raw(&["a", "b"])).unwrap();
    let after_first = s.written.len();
    s.render(&raw(&["a", "b"])).unwrap();
    let after_second = s.written.len();
    assert_eq!(s.r.last_changed_range(), None, "no changed range");
    assert!(after_second >= after_first, "may emit cursor hide only");
    assert_eq!(&s.written[after_first..], "\x1b[?25l");
}

#[test]
fn append_only_writes_new_lines() {
    let mut s = Screen::new(80, 24);
    s.render(&raw(&["a", "b"])).unwrap();
    assert_eq!(s.r.last_changed_range(), Some((0, 23)));
    s.written.clear();
    s.render(&raw(&["a", "b", "c"])).unwrap();
    let out = s.written.clone();
    assert!(out.contains("c"), "new line written");
    assert!(!out.contains("\x1b[2J"), "no full clear on append");
    assert_eq!(s.r.last_changed_range(), Some((2, 2)));
}

#[test]
fn in_place_edit_rewrites_only_changed_line() {
    let mut s = Screen::new(80, 24);
    s.render(&raw(&["a", "b", "c"])).unwrap();
    s.written.clear();
    s.render(&raw(&["a", "CHANGED", "c"])).unwrap();
    let out = s.written.clone();
    assert!(out.contains("CHANGED"), "changed line written");
    assert!(!out.contains("\x1b[2J"), "no full clear on in-place edit");
    assert_eq!(s.r.last_changed_range(), Some((1, 1)), "only line 1 changed");
}

#[test]
fn width_change_triggers_full_redraw() {
    let mut s = Screen::new(80, 24);
    s.render(&raw(&["a", "b"])).unwrap();
    assert_eq!(s.r.last_full_redraw_reason(), Some("first render"));
    s.written.clear();
    s.resize(100, 24);
    s.render(&raw(&["a", "b"])).unwrap();
    assert!(s.written.contains("\x1b[2J"), "width change -> full clear");
    assert_eq!(s.r.last_full_redraw_reason(), Some("terminal width changed"));
}

#[test]
fn height_change_triggers_full_redraw() {
    let mut s = Screen::new(80, 24);
    s.render(&raw(&["a"])).unwrap();
    s.resize(80, 30);
    s.render(&raw(&["a"])).unwrap();
    assert_eq!(s.r.last_full_redraw_reason(), Some("terminal height changed"));
}

#[test]
fn shrink_triggers_clear_on_shrink_full_redraw() {
    let mut s = Screen::new(80, 8);
    s.r.set_clear_on_shrink(true);
    s.render(&numbered(30, "L")).unwrap();
    s.written.clear();
    s.render(&numbered(20, "L")).unwrap();
    let out = s.written.clone();
    assert!(out.contains("\x1b[2J"), "full screen clear on shrink: {out:?}");
    assert_eq!(
        s.r.last_full_redraw_reason(),
        Some("clearOnShrink (content shrank)")
    );
}

#[test]
fn shrink_with_clear_on_shrink_disabled_diffs_orphan_rows() {
    let mut s = Screen::new(80, 24);
    s.r.set_clear_on_shrink(false);
    s.render(&raw(&["a", "b", "c", "d"])).unwrap();
    s.written.clear();
    s.render(&raw(&["a", "b"])).unwrap();
    let out = s.written.clone();
    assert!(!out.contains("\x1b[2J"), "no full clear in diff path: {out:?}");
    let clear_count = out.matches("\x1b[2K").count();
    assert!(clear_count >= 2, "orphan rows cleared, got {clear_count}: {out:?}");
}

#[test]
fn deep_shrink_above_viewport_falls_back_to_full_redraw() {
    let mut s = Screen::new(80, 4);
    s.r.set_clear_on_shrink(false);
    s.render(&numbered(10, "L")).unwrap();
    assert_eq!(s.r.viewport_top(), 6);
    s.written.clear();
    s.render(&raw(&["L0", "L1"])).unwrap();
    assert_eq!(
        s.r.last_full_redraw_reason(),
        Some("firstChanged above viewport"),
        "deep shrink above viewport falls back to full redraw"
    );
}

#[test]
fn all_deletions_in_viewport_clears_in_place() {
    let height: u16 = 8;
    let mut s = Screen::new(80, height);
    s.r.set_clear_on_shrink(false);
    s.render(&numbered(30, "L")).unwrap();
    s.written.clear();
    s.render(&numbered(28, "L")).unwrap();
    let out = s.written.clone();
    assert!(!out.contains("\x1b[2J"), "in-place clear, no full redraw: {out:?}");
    assert!(s.r.last_full_redraw_reason().is_none());
    assert!(out.matches("\x1b[2K").count() >= 2, "orphan rows cleared: {out:?}");
    assert_eq!(
        s.r.hardware_cursor_row(),
        (height as usize).max(28).saturating_sub(1)
    );
}

#[test]
fn in_place_middle_change_keeps_cursor_at_content_tail() {
    let mut s = Screen::new(80, 24);
    s.render(&raw(&["L0", "L1", "L2", "L3", "L4"])).unwrap();
    s.written.clear();
    s.render(&raw(&["L0", "CHANGED", "L2", "L3", "L4"])).unwrap();
    assert!(s.written.contains("CHANGED"));
    assert_eq!(s.r.last_changed_range(), Some((1, 1)));
}

#[test]
fn hard_width_error_on_overflow() {
    let mut s = Screen::new(3, 24);
    let result = s.render(&raw(&["toolong"]));
    assert!(matches!(result, Err(RenderError::LineTooWide { .. })));
}

#[test]
fn hard_width_error_on_full_redraw_path_too() {
    let mut s = Screen::new(80, 24);
    s.render(&raw(&["short"])).unwrap();
    s.resize(2, 24);
    let result = s.render(&raw(&["short"]));
    assert!(
        matches!(result, Err(RenderError::LineTooWide { .. })),
        "full-redraw path also enforces width"
    );
}

#[test]
fn width_error_reports_row_width_and_text_and_changes_nothing() {
    let mut s = Screen::new(5, 4);
    s.render(&raw(&["ok"])).unwrap();
    let before = s.written.len();
    let count = s.r.previous_line_count();
    match s.render(&raw(&["fine", "你好世界", "also too long"])) {
        Err(RenderError::LineTooWide {
            row,
            line_width,
            terminal_width,
            line_text,
        }) => {
            assert_eq!(row, 1);
            assert_eq!(line_width, 8);
            assert_eq!(terminal_width, 5);
            assert_eq!(line_text, "你好世界");
        }
        Ok(()) => panic!("expected an error"),
    }
    assert_eq!(s.written.len(), before, "nothing written");
    assert_eq!(s.r.previous_line_count(), count);
}

#[test]
fn force_render_clears_previous_and_full_redraws() {
    let mut s = Screen::new(80, 24);
    s.render(&raw(&["a"])).unwrap();
    s.written.clear();
    s.r.request_render(true);
    s.render(&raw(&["a"])).unwrap();
    assert!(s.written.contains("\x1b[2J"), "force render -> full clear");
    assert_eq!(s.r.last_full_redraw_reason(), Some("forced full redraw"));
}

#[test]
fn cursor_marker_extracted_and_stripped() {
    let mut s = Screen::new(80, 24);
    let line = StyledLine::from_spans(vec![
        Span::raw("ab"),
        Span::raw(&format!("{CURSOR_MARKER}cd")),
    ]);
    s.render(&[line]).unwrap();
    let out = s.written.clone();
    assert!(!out.contains(CURSOR_MARKER), "marker stripped before write");
    assert!(out.contains("abcd"), "text preserved");
    assert!(out.contains("\x1b[3G"), "cursor placed after two columns: {out:?}");
    assert_eq!(s.r.hardware_cursor_row(), 0);
}

#[test]
fn styled_line_diffed_by_ansi_equality() {
    let mut s = Screen::new(80, 24);
    s.render(&[StyledLine::from_spans(vec![Span::styled("x", CellStyle::default())])])
        .unwrap();
    s.written.clear();
    s.render(&[StyledLine::from_spans(vec![Span::styled(
        "x",
        CellStyle::default().bold(),
    )])])
    .unwrap();
    assert_eq!(s.r.last_changed_range(), Some((0, 0)), "style change detected");
}

#[test]
fn append_past_viewport_scrolls_via_cursor_down_then_newline() {
    let mut s = Screen::new(40, 3);
    s.render(&raw(&["L0", "L1", "L2"])).unwrap();
    assert_eq!(s.r.hardware_cursor_row(), 2);
    assert_eq!(s.r.viewport_top(), 0);
    s.written.clear();
    s.render(&raw(&["L0", "L1", "L2", "L3", "L4"])).unwrap();
    let out = s.written.clone();
    for c in &cud_counts(&out) {
        assert!(*c <= 2, "CUD {c} exceeds height-1=2; out={out:?}");
    }
    assert!(out.contains("L3") && out.contains("L4"));
    assert_eq!(s.r.viewport_top(), 2);
}

#[test]
fn append_far_past_viewport_uses_relative_screen_diff() {
    let mut s = Screen::new(40, 4);
    s.render(&raw(&["L0", "L1", "L2", "L3"])).unwrap();
    s.written.clear();
    s.render(&raw(&["L0", "L1", "L2", "L3", "L4", "L5", "L6"])).unwrap();
    let out = s.written.clone();
    for c in &cud_counts(&out) {
        assert!(*c <= 3, "CUD {c} exceeds height-1=3; out={out:?}");
    }
    assert!(out.contains("L6"));
    assert_eq!(s.r.viewport_top(), 3);
}

#[test]
fn viewport_top_follows_formula_when_growing_from_below_height() {
    let height: u16 = 10;
    let mut s = Screen::new(80, height);
    s.render(&raw(&["line0"])).unwrap();
    for n in 2..=15 {
        s.render(&numbered(n, "line")).unwrap();
        let expected = (height as usize).max(n).saturating_sub(height as usize);
        assert_eq!(s.r.viewport_top(), expected, "n={n}");
    }
}

#[test]
fn viewport_top_follows_formula_when_growing_from_height_boundary() {
    let height: u16 = 10;
    let mut s = Screen::new(80, height);
    s.render(&numbered(10, "line")).unwrap();
    assert_eq!(s.r.viewport_top(), 0, "n=10 at height=10");
    for delta in 1..=5 {
        let n: usize = 10 + delta;
        s.render(&numbered(n, "line")).unwrap();
        let expected = (height as usize).max(n).saturating_sub(height as usize);
        assert_eq!(s.r.viewport_top(), expected, "n={n}");
    }
}

#[test]
fn frames_replayed_on_a_virtual_terminal_show_the_content() {
    let mut s = Screen::new(20, 4);
    s.render(&raw(&["alpha", "beta"])).unwrap();
    s.render(&raw(&["alpha", "BETA", "gamma"])).unwrap();
    let mut vt = VirtualTerminal::new(20, 4);
    vt.feed(&s.written);
    assert_eq!(vt.row_text(0), "alpha");
    assert_eq!(vt.row_text(1), "BETA");
    assert_eq!(vt.row_text(2), "gamma");
    assert_eq!(vt.row_text(3), "");
}

#[test]
fn stop_moves_below_content_once() {
    let mut s = Screen::new(20, 3);
    s.render(&raw(&["a"])).unwrap();
    let w = s.r.stop();
    assert_eq!(w, vec!["\x1b[1B\r\n".to_string(), "\x1b[?25h".to_string()]);
    assert!(s.r.is_stopped());
    assert!(s.r.stop().is_empty(), "second stop writes nothing");
    let writes = s.r.render_now(raw(&["b"]), 20, 3, 99_999).unwrap();
    assert!(writes.is_empty(), "stopped renderer writes nothing");
}

#[test]
fn try_render_respects_request_and_interval() {
    let mut r = Renderer::new(true);
    assert!(r.try_render(raw(&["x"]), 10, 2, 0).unwrap().is_none(), "nothing requested");
    r.request_render(false);
    assert!(r.render_requested());
    assert!(!r.try_render(raw(&["x"]), 10, 2, 100).unwrap().unwrap().is_empty());
    assert!(!r.render_requested());
    r.request_render(false);
    assert!(!r.render_due(100 + MIN_RENDER_INTERVAL_MS - 1));
    assert!(r
        .try_render(raw(&["y"]), 10, 2, 100 + MIN_RENDER_INTERVAL_MS - 1)
        .unwrap()
        .is_none());
    assert!(r.render_due(100 + MIN_RENDER_INTERVAL_MS));
    assert!(r
        .try_render(raw(&["y"]), 10, 2, 100 + MIN_RENDER_INTERVAL_MS)
        .unwrap()
        .is_some());
}

#[test]
fn clear_on_shrink_switch_values() {
    assert!(clear_on_shrink_from(None));
    assert!(clear_on_shrink_from(Some("1")));
    assert!(clear_on_shrink_from(Some("yes")));
    assert!(!clear_on_shrink_from(Some("0")));
    assert!(!clear_on_shrink_from(Some("false")));
}

#[test]
fn full_render_output_is_exact() {
    let mut s = Screen::new(10, 2);
    s.render(&raw(&["a"])).unwrap();
    assert_eq!(
        s.written,
        "\x1b[?2026ha\x1b[0m\x1b]8;;\x07\r\n\x1b[0m\x1b]8;;\x07\x1b[?2026l\x1b[?25l"
    );
}

#[test]
fn every_frame_content_is_one_synchronized_write() {
    let mut r = Renderer::new(false);
    let frames: Vec<Vec<StyledLine>> = vec![
        raw(&["a", "b"]),
        raw(&["a", "c"]),
        raw(&["a", "c", "d", "e", "f", "g"]),
        raw(&["a"]),
        raw(&["a"]),
    ];
    for (i, f) in frames.into_iter().enumerate() {
        let writes = r.render_now(f, 20, 3, 1_000 * (i as u64 + 1)).unwrap();
        assert_eq!(writes.last().map(|s| s.as_str()), Some("\x1b[?25l"));
        let content: Vec<&String> = writes.iter().filter(|w| w.contains("\x1b[?2026h")).collect();
        assert!(content.len() <= 1);
        for w in content {
            assert!(w.starts_with("\x1b[?2026h") && w.ends_with("\x1b[?2026l"), "{w:?}");
        }
        assert!(r.viewport_top() <= r.previous_line_count());
    }
}

fn replay_rows(vt: &VirtualTerminal, n: usize) -> Vec<String> {
    (0..n).map(|y| vt.row_text(y)).collect()
}

#[test]
fn first_frame_write_reads_back_on_a_fresh_terminal() {
    let mut r = Renderer::new(true);
    let writes = r
        .render_now(raw(&["hello  ", "world"]), 10, 4, 100)
        .unwrap();
    let mut vt = VirtualTerminal::new(10, 4);
    vt.feed(&writes[0]);
    assert_eq!(replay_rows(&vt, 4), vec!["hello", "world", "", ""]);
}

#[test]
fn every_frame_replayed_shows_the_latest_frame() {
    let cols = 12;
    let rows = 3;
    let mut r = Renderer::new(false);
    let mut vt = VirtualTerminal::new(cols, rows);
    let mut now = 1_000;
    let frames: Vec<Vec<&str>> = vec![
        vec!["one", "two"],
        vec!["one", "two", "three", "four", "five"],
        vec!["one", "TWO", "three", "four", "five", "six"],
        vec!["one", "TWO", "three", "FOUR", "five", "six"],
        vec!["one", "TWO", "three", "FOUR"],
        vec!["one", "TWO", "three", "FOUR", "5", "6", "7"],
        vec!["x"],
    ];
    for f in frames {
        now += 100;
        let writes = r.render_now(raw(&f), cols, rows, now).unwrap();
        for w in &writes {
            vt.feed(w);
        }
        let shown = replay_rows(&vt, f.len());
        let expected: Vec<String> = f.iter().map(|s| s.to_string()).collect();
        assert_eq!(shown, expected, "frame {f:?}");
    }
}

#[test]
fn forced_redraw_replayed_shows_the_frame() {
    let mut r = Renderer::new(true);
    let mut vt = VirtualTerminal::new(8, 2);
    for w in r.render_now(raw(&["a", "b", "c"]), 8, 2, 100).unwrap() {
        vt.feed(&w);
    }
    r.request_render(true);
    for w in r.render_now(raw(&["z"]), 8, 2, 200).unwrap() {
        vt.feed(&w);
    }
    assert_eq!(replay_rows(&vt, 3), vec!["z", "", ""]);
}

#[test]
fn styled_frames_replayed_show_their_text() {
    let cols = 16;
    let rows = 3;
    let mut r = Renderer::new(true);
    let mut vt = VirtualTerminal::new(cols, rows);
    let warm = CellStyle::default().fg(xylitol::style::Color::Yellow).bold();
    let cool = CellStyle::default().bg(xylitol::style::Color::Rgb(1, 2, 3));
    let frames: Vec<Vec<StyledLine>> = vec![
        vec![
            StyledLine::from_spans(vec![Span::styled("sun", warm), Span::raw(" up")]),
            StyledLine::raw("plain"),
        ],
        vec![
            StyledLine::from_spans(vec![Span::styled("sun", warm), Span::raw(" up")]),
            StyledLine::from_spans(vec![Span::styled("sea", cool), Span::styled("", warm)]),
            StyledLine::raw("tail"),
            StyledLine::raw("more"),
        ],
        vec![StyledLine::from_spans(vec![Span::styled("only", cool)])],
    ];
    let mut now = 1_000;
    for f in frames {
        now += 100;
        for w in r.render_now(f.clone(), cols, rows, now).unwrap() {
            vt.feed(&w);
        }
        for (y, line) in f.iter().enumerate() {
            assert_eq!(vt.row_text(y), line.plain_text(), "row {y}");
        }
    }
}
