//! The differential frame renderer.
//!
//! Keeps the serialized lines of the last frame and, for each new frame,
//! decides what to write: a first render (no clear, scrollback kept), a full
//! redraw (clear, used when the terminal size changed, when forced, when the
//! change is above the viewport, or when content shrank below the rows
//! already used), or a diff that rewrites only the changed range, scrolling
//! or clearing orphan rows as needed. All output of a frame is returned as
//! the writes to perform, in order; the caller owns the terminal and the
//! widget tree.
//!
//! Every line must fit the terminal width; a wider line is an error on
//! every path, and nothing is written for that frame.

use vstd::prelude::*;
use crate::style::{StyledLine, LineView, CURSOR_MARKER, line_width, line_ansi, concat_texts};
use crate::text::{chars_of, decimal, push_decimal, push_char, push_chars, string_of};
use crate::unicode::str_width;
use crate::width::{marker_aware_width, strip_escapes_from, lines_view};

verus! {

/// Minimum interval between rendered frames, in milliseconds (about 60 fps).
pub const MIN_RENDER_INTERVAL_MS: u64 = 16;

/// A frame that cannot be drawn: a line wider than the terminal.
#[derive(Debug)]
pub enum RenderError {
    LineTooWide { row: usize, line_width: usize, terminal_width: usize, line_text: String },
}

/// Whether the shrink-triggered full redraw is on, given the value of its
/// switch variable: on unless the value is `0` or `false`.
pub fn clear_on_shrink_from(value: Option<&str>) -> (b: bool)
    ensures
        b == !(value matches Some(v) && (v@ == "0"@ || v@ == "false"@)),
{
    match value {
        Some(v) => !(crate::text::same_text(v, "0") || crate::text::same_text(v, "false")),
        None => true,
    }
}

/// Why the last frame was a full redraw.
#[derive(Debug, Clone, Copy, PartialEq, Eq, Structural)]
pub enum RedrawReason {
    Forced,
    FirstRender,
    WidthChanged,
    HeightChanged,
    NoPreviousFrame,
    ClearOnShrink,
    AboveViewport,
    AllDeletionsFallback,
}

/// The text of a redraw reason.
pub open spec fn reason_text(r: RedrawReason) -> Seq<char> {
    match r {
        RedrawReason::Forced => "forced full redraw"@,
        RedrawReason::FirstRender => "first render"@,
        RedrawReason::WidthChanged => "terminal width changed"@,
        RedrawReason::HeightChanged => "terminal height changed"@,
        RedrawReason::NoPreviousFrame => "no previous frame"@,
        RedrawReason::ClearOnShrink => "clearOnShrink (content shrank)"@,
        RedrawReason::AboveViewport => "firstChanged above viewport"@,
        RedrawReason::AllDeletionsFallback => "all-deletions fallback"@,
    }
}

impl RedrawReason {
    /// The reason as text.
    pub fn as_str(self) -> (s: &'static str)
        ensures
            s@ == reason_text(self),
    {
        match self {
            RedrawReason::Forced => "forced full redraw",
            RedrawReason::FirstRender => "first render",
            RedrawReason::WidthChanged => "terminal width changed",
            RedrawReason::HeightChanged => "terminal height changed",
            RedrawReason::NoPreviousFrame => "no previous frame",
            RedrawReason::ClearOnShrink => "clearOnShrink (content shrank)",
            RedrawReason::AboveViewport => "firstChanged above viewport",
            RedrawReason::AllDeletionsFallback => "all-deletions fallback",
        }
    }
}

// ---------------------------------------------------------------------------
// Cursor-marker extraction and per-line post-processing.

/// Index of the first occurrence of `pat` in `s` at or after `i`.
pub open spec fn first_match(s: Seq<char>, pat: Seq<char>, i: int) -> Option<int>
    decreases s.len() + 1 - i,
{
    if i < 0 || i + pat.len() > s.len() {
        None
    } else if s.subrange(i, i + pat.len()) == pat {
        Some(i)
    } else {
        first_match(s, pat, i + 1)
    }
}

/// `s` from `i` on with every occurrence of `pat` (found left to right, not
/// overlapping) removed.
pub open spec fn remove_all_from(s: Seq<char>, pat: Seq<char>, i: int) -> Seq<char>
    decreases s.len() - i,
{
    if i < 0 || i >= s.len() || pat.len() == 0 {
        s.skip(i)
    } else if i + pat.len() <= s.len() && s.subrange(i, i + pat.len()) == pat {
        remove_all_from(s, pat, i + pat.len())
    } else {
        seq![s[i]] + remove_all_from(s, pat, i + 1)
    }
}

/// The serialized form of one line: its ANSI text with the cursor marker
/// removed, then the line reset; plus the marker's column (width of the
/// visible text before its first occurrence) if it occurs.
pub open spec fn serialize_line(line: LineView) -> (Seq<char>, Option<nat>) {
    let ansi = line_ansi(line);
    let mk = CURSOR_MARKER@;
    match first_match(ansi, mk, 0) {
        Some(k) => (
            remove_all_from(ansi, mk, 0) + StyledLine::LINE_RESET@,
            Some(str_width(strip_escapes_from(ansi.take(k), 0))),
        ),
        None => (ansi + StyledLine::LINE_RESET@, None),
    }
}

/// Post-processing of a frame's lines: every line serialized, and the
/// cursor position `(row, column)` of the last line holding the marker; or
/// the first line wider than `width` as `(row, line width, its text)`.
pub open spec fn processed(raw: Seq<LineView>, width: nat) -> Result<
    (Seq<Seq<char>>, Option<(nat, nat)>),
    (nat, nat, Seq<char>),
>
    decreases raw.len(),
{
    if raw.len() == 0 {
        Ok((seq![], None))
    } else {
        match processed(raw.drop_last(), width) {
            Err(e) => Err(e),
            Ok((out, cur)) => {
                let line = raw.last();
                let row = (raw.len() - 1) as nat;
                if line_width(line) > width {
                    Err((row, line_width(line), concat_texts(line)))
                } else {
                    let (text, col) = serialize_line(line);
                    Ok(
                        (
                            out.push(text),
                            match col {
                                Some(c) => Some((row, c)),
                                None => cur,
                            },
                        ),
                    )
                }
            },
        }
    }
}

proof fn lemma_first_match(s: Seq<char>, pat: Seq<char>, i: int)
    requires
        0 <= i,
    ensures
        first_match(s, pat, i) matches Some(k) ==> i <= k && k + pat.len() <= s.len()
            && s.subrange(k, k + pat.len()) == pat,
    decreases s.len() + 1 - i,
{
    if i + pat.len() <= s.len() && s.subrange(i, i + pat.len()) != pat {
        lemma_first_match(s, pat, i + 1);
    }
}

/// Where `pat` first occurs in `s` at or after `from`.
#[verifier::loop_isolation(false)]
fn find_pattern(s: &Vec<char>, pat: &Vec<char>, from: usize) -> (r: Option<usize>)
    requires
        from <= s@.len(),
    ensures
        match r {
            Some(k) => first_match(s@, pat@, from as int) == Some(k as int),
            None => first_match(s@, pat@, from as int).is_none(),
        },
{
    let mut i = from;
    while i <= s.len() && pat.len() <= s.len() - i
        invariant
            from <= i,
            first_match(s@, pat@, i as int) == first_match(s@, pat@, from as int),
        decreases s@.len() + 1 - i,
    {
        let mut m: usize = 0;
        while m < pat.len()
            invariant
                i <= s@.len(),
                pat@.len() <= s@.len() - i,
                m <= pat@.len(),
                forall|q: int| 0 <= q < m ==> s@[i + q] == pat@[q],
            decreases pat@.len() - m,
        {
            assert(i + m < s@.len());
            if s[i + m] != pat[m] {
                break;
            }
            m = m + 1;
        }
        if m == pat.len() {
            assert(s@.subrange(i as int, i + pat@.len()) =~= pat@);
            return Some(i);
        }
        assert(s@.subrange(i as int, i + pat@.len())[m as int] != pat@[m as int]);
        i = i + 1;
    }
    None
}

/// `s` with every occurrence of `pat` removed.
#[verifier::loop_isolation(false)]
fn remove_pattern(s: &Vec<char>, pat: &Vec<char>) -> (r: Vec<char>)
    requires
        pat@.len() > 0,
    ensures
        r@ == remove_all_from(s@, pat@, 0),
{
    let mut out: Vec<char> = Vec::new();
    let mut i: usize = 0;
    while i < s.len()
        invariant
            i <= s@.len(),
            pat@.len() > 0,
            out@ + remove_all_from(s@, pat@, i as int) == remove_all_from(s@, pat@, 0),
        decreases s@.len() - i,
    {
        let mut is_match = pat.len() <= s.len() - i;
        if is_match {
            let mut m: usize = 0;
            while m < pat.len()
                invariant
                    i < s@.len(),
                    pat@.len() <= s@.len() - i,
                    m <= pat@.len(),
                    forall|q: int| 0 <= q < m ==> s@[i + q] == pat@[q],
                decreases pat@.len() - m,
            {
                assert(i + m < s@.len());
                if s[i + m] != pat[m] {
                    break;
                }
                m = m + 1;
            }
            if m == pat.len() {
                assert(s@.subrange(i as int, i + pat@.len()) =~= pat@);
            } else {
                assert(s@.subrange(i as int, i + pat@.len())[m as int] != pat@[m as int]);
                is_match = false;
            }
        }
        if is_match {
            i = i + pat.len();
        } else {
            let ghost o0 = out@;
            out.push(s[i]);
            assert(out@ + remove_all_from(s@, pat@, i + 1) =~= o0 + remove_all_from(
                s@,
                pat@,
                i as int,
            ));
            i = i + 1;
        }
    }
    assert(remove_all_from(s@, pat@, i as int) =~= Seq::<char>::empty());
    assert(out@ =~= remove_all_from(s@, pat@, 0));
    out
}

/// One line serialized (see [`serialize_line`]).
fn serialize_one(line: &StyledLine) -> (r: (String, Option<usize>))
    ensures
        r.0@ == serialize_line(line@).0,
        match r.1 {
            Some(c) => serialize_line(line@).1 == Some(c as nat),
            None => serialize_line(line@).1.is_none(),
        },
{
    let ansi = line.to_ansi();
    let av = chars_of(ansi.as_str());
    let mk = chars_of(CURSOR_MARKER);
    match find_pattern(&av, &mk, 0) {
        Some(k) => {
            proof {
                lemma_first_match(av@, mk@, 0);
            }
            let mut before = String::new();
            push_chars(&mut before, &av, 0, k);
            assert(av@.subrange(0, k as int) == av@.take(k as int));
            let col = marker_aware_width(before.as_str());
            proof {
                reveal_strlit("\x1b_pi:c\x07");
            }
            let cleaned = remove_pattern(&av, &mk);
            let mut out = string_of(&cleaned);
            out.append(StyledLine::LINE_RESET);
            (out, Some(col))
        },
        None => {
            let mut out = ansi;
            out.append(StyledLine::LINE_RESET);
            (out, None)
        },
    }
}

// ---------------------------------------------------------------------------
// Renderer state.

/// The abstract renderer state.
pub struct RenderModel {
    /// Serialized lines of the last frame.
    pub previous_lines: Seq<Seq<char>>,
    pub previous_width: u16,
    pub previous_height: u16,
    /// Top visible row of the content.
    pub viewport_top: usize,
    /// Logical end-of-content row.
    pub cursor_row: usize,
    /// Row where the terminal cursor physically stopped.
    pub hw_row: usize,
    /// High-water mark of rows used since the last clearing redraw.
    pub max_lines: usize,
    pub render_requested: bool,
    pub last_render_at: Option<u64>,
    pub stopped: bool,
    pub force_clear: bool,
    pub last_changed: Option<(usize, usize)>,
    pub last_reason: Option<RedrawReason>,
    pub clear_on_shrink: bool,
}

/// Renderer state invariant: the viewport top never passes the rows used.
pub open spec fn render_wf(m: RenderModel) -> bool {
    &&& m.viewport_top <= m.max_lines
    &&& m.max_lines <= usize::MAX / 4
    &&& m.hw_row <= usize::MAX / 4
}

/// `ESC [ n f`.
pub open spec fn csi_n(n: nat, f: char) -> Seq<char> {
    "\x1b["@ + decimal(n) + seq![f]
}

/// `s` repeated `n` times.
pub open spec fn repeat(s: Seq<char>, n: nat) -> Seq<char>
    decreases n,
{
    if n == 0 {
        seq![]
    } else {
        repeat(s, (n - 1) as nat) + s
    }
}

/// Relative move of the cursor from row `from` to row `to`: CUD (`ESC[nB`)
/// down, CUU (`ESC[nA`) up, nothing when already there.
pub open spec fn move_rows(from: usize, to: usize) -> Seq<char> {
    if to > from {
        csi_n((to - from) as nat, 'B')
    } else if to < from {
        csi_n((from - to) as nat, 'A')
    } else {
        seq![]
    }
}

/// `a - b`, saturating at 0.
pub open spec fn sat_sub(a: usize, b: usize) -> usize {
    if a >= b {
        (a - b) as usize
    } else {
        0
    }
}

/// The larger of two values.
pub open spec fn max_us(a: usize, b: usize) -> usize {
    if a >= b {
        a
    } else {
        b
    }
}

/// The lines joined by CR LF.
pub open spec fn join_crlf(lines: Seq<Seq<char>>) -> Seq<char>
    decreases lines.len(),
{
    if lines.len() == 0 {
        seq![]
    } else if lines.len() == 1 {
        lines[0]
    } else {
        join_crlf(lines.drop_last()) + "\r\n"@ + lines.last()
    }
}

/// A full render: inside a synchronized update, optionally clear screen and
/// scrollback, then write every line; the cursor ends on the last line, the
/// viewport shows the tail, and the high-water mark resets on a clear.
pub open spec fn full_render(m: RenderModel, lines: Seq<Seq<char>>, clear: bool, height: usize, reason: RedrawReason) -> (
    RenderModel,
    Seq<char>,
) {
    let n = lines.len() as usize;
    let out = "\x1b[?2026h"@ + (if clear {
        "\x1b[2J\x1b[H\x1b[3J"@
    } else {
        Seq::<char>::empty()
    }) + join_crlf(lines) + "\x1b[?2026l"@;
    (
        RenderModel {
            cursor_row: sat_sub(n, 1),
            hw_row: sat_sub(n, 1),
            max_lines: if clear {
                n
            } else {
                max_us(m.max_lines, n)
            },
            viewport_top: sat_sub(n, height),
            last_reason: Some(reason),
            last_changed: Some((0usize, sat_sub(n, 1))),
            ..m
        },
        out,
    )
}

/// Line `i` of a frame, or the empty line past its end.
pub open spec fn line_at(lines: Seq<Seq<char>>, i: int) -> Seq<char> {
    if 0 <= i < lines.len() {
        lines[i]
    } else {
        seq![]
    }
}

/// Whether row `i` differs between two frames.
pub open spec fn differs(prev: Seq<Seq<char>>, new: Seq<Seq<char>>, i: int) -> bool {
    line_at(prev, i) != line_at(new, i)
}

/// The first differing row below `k`.
pub open spec fn first_in(prev: Seq<Seq<char>>, new: Seq<Seq<char>>, k: int) -> Option<int>
    decreases k,
{
    if k <= 0 {
        None
    } else {
        match first_in(prev, new, k - 1) {
            Some(f) => Some(f),
            None => if differs(prev, new, k - 1) {
                Some(k - 1)
            } else {
                None
            },
        }
    }
}

/// The last differing row below `k`.
pub open spec fn last_in(prev: Seq<Seq<char>>, new: Seq<Seq<char>>, k: int) -> Option<int>
    decreases k,
{
    if k <= 0 {
        None
    } else if differs(prev, new, k - 1) {
        Some(k - 1)
    } else {
        last_in(prev, new, k - 1)
    }
}

/// The number of rows two frames span.
pub open spec fn span_len(prev: Seq<Seq<char>>, new: Seq<Seq<char>>) -> int {
    if prev.len() >= new.len() {
        prev.len() as int
    } else {
        new.len() as int
    }
}

/// The first and last rows where two frames differ (a missing line counts
/// as empty), if any.
pub open spec fn changed_range(prev: Seq<Seq<char>>, new: Seq<Seq<char>>) -> Option<(int, int)> {
    let n = span_len(prev, new);
    match (first_in(prev, new, n), last_in(prev, new, n)) {
        (Some(f), Some(l)) => Some((f, l)),
        _ => None,
    }
}

/// The rows `first..=end` rewritten: each cleared and written, separated by
/// CR LF.
pub open spec fn rewrite_rows(new: Seq<Seq<char>>, first: int, end: int) -> Seq<char>
    decreases end - first,
{
    if end < first {
        seq![]
    } else if end == first {
        "\x1b[2K"@ + line_at(new, first)
    } else {
        rewrite_rows(new, first, end - 1) + "\r\n"@ + "\x1b[2K"@ + line_at(new, end)
    }
}

/// A diff frame whose changed range lies wholly below the new content (a
/// pure tail shrink), falling back to a clearing full render when the
/// orphans outnumber the screen rows or the new tail is above the viewport.
pub open spec fn diff_deletions(
    m: RenderModel,
    new: Seq<Seq<char>>,
    first: usize,
    last: usize,
    height: usize,
) -> (RenderModel, Seq<char>) {
    let n_prev = m.previous_lines.len() as usize;
    let n_new = new.len() as usize;
    let extras = sat_sub(n_prev, n_new);
    let target = sat_sub(n_new, 1);
    if extras > height || target < m.viewport_top {
        full_render(m, new, true, height, RedrawReason::AllDeletionsFallback)
    } else {
        let out = "\x1b[?2026h"@ + move_rows(m.hw_row, target) + repeat("\r\n\x1b[2K"@, extras as nat)
            + (if extras > 0 {
            csi_n(extras as nat, 'A')
        } else {
            Seq::<char>::empty()
        }) + "\x1b[?2026l"@;
        (
            RenderModel {
                hw_row: target,
                cursor_row: sat_sub(n_new, 1),
                viewport_top: max_us(m.viewport_top, sat_sub(n_new, height)),
                max_lines: max_us(m.max_lines, n_new),
                last_changed: Some((first, last)),
                last_reason: None,
                ..m
            },
            out,
        )
    }
}

/// The scroll before a range rewrite: when the row to reach lies below the
/// viewport, the cursor goes to the bottom screen row and one CR LF per row
/// to scroll follows; the viewport top moves down by as many rows and the
/// cursor stands on the row to reach. Otherwise nothing.
#[verifier::opaque]
pub open spec fn scroll_step(m: RenderModel, move_target: usize, height: usize) -> (RenderModel, Seq<char>) {
    let prev_bottom = (m.viewport_top + sat_sub(height, 1)) as usize;
    let d = sat_sub(m.hw_row, m.viewport_top);
    let current_screen_row = if d <= sat_sub(height, 1) {
        d
    } else {
        sat_sub(height, 1)
    };
    let to_bottom = sat_sub(sat_sub(height, 1), current_screen_row);
    let scroll = sat_sub(move_target, prev_bottom);
    if move_target > prev_bottom {
        (
            RenderModel { viewport_top: (m.viewport_top + scroll) as usize, hw_row: move_target, ..m },
            (if to_bottom > 0 {
                csi_n(to_bottom as nat, 'B')
            } else {
                Seq::<char>::empty()
            }) + repeat("\r\n"@, scroll as nat),
        )
    } else {
        (m, seq![])
    }
}

/// The clearing of orphan rows after a range rewrite that ends at
/// `render_end`, when content shrank from `n_prev` to `n_new` rows: down to
/// the new last row if the rewrite stopped above it, one cleared row per
/// orphan, then back up. Gives the row where the cursor stops and the
/// writes.
#[verifier::opaque]
pub open spec fn shrink_step(n_prev: usize, n_new: usize, render_end: usize) -> (usize, Seq<char>) {
    if n_prev > n_new {
        let go_down = render_end + 1 < n_new;
        (
            if go_down {
                (n_new - 1) as usize
            } else {
                render_end
            },
            (if go_down {
                csi_n(sat_sub((n_new - 1) as usize, render_end) as nat, 'B')
            } else {
                Seq::<char>::empty()
            }) + repeat("\r\n\x1b[2K"@, (n_prev - n_new) as nat) + csi_n((n_prev - n_new) as nat, 'A'),
        )
    } else {
        (render_end, seq![])
    }
}

/// A diff frame that rewrites rows `first..=last` (clipped to the new
/// content): scroll first if needed (see [`scroll_step`]), move to the first
/// row (for a pure append, to the row before it, then CR LF), rewrite the
/// rows, and when content shrank clear the orphan rows below the new tail
/// (see [`shrink_step`]).
pub open spec fn diff_normal(
    m: RenderModel,
    new: Seq<Seq<char>>,
    first: usize,
    last: usize,
    height: usize,
) -> (RenderModel, Seq<char>) {
    let n_prev = m.previous_lines.len() as usize;
    let n_new = new.len() as usize;
    let append_start = n_new > n_prev && first == n_prev && first > 0;
    let move_target: usize = if append_start {
        (first - 1) as usize
    } else {
        first
    };
    let (m1, scroll_out) = scroll_step(m, move_target, height);
    let render_end: usize = if last <= sat_sub(n_new, 1) {
        last
    } else {
        sat_sub(n_new, 1)
    };
    let (final_cursor, shrink_out) = shrink_step(n_prev, n_new, render_end);
    let out = "\x1b[?2026h"@ + scroll_out + move_rows(m1.hw_row, move_target) + (if append_start {
        "\r\n"@
    } else {
        "\r"@
    }) + rewrite_rows(new, first as int, render_end as int) + shrink_out + "\x1b[?2026l"@;
    (
        RenderModel {
            hw_row: final_cursor,
            cursor_row: sat_sub(n_new, 1),
            viewport_top: max_us(m1.viewport_top, sat_sub(final_cursor, sat_sub(height, 1))),
            max_lines: max_us(m.max_lines, n_new),
            last_changed: Some((first, last)),
            last_reason: None,
            ..m
        },
        out,
    )
}

/// A diff frame: nothing when no row changed; a clearing full render when
/// the first change is above the viewport; otherwise a tail-shrink or a
/// range rewrite.
pub open spec fn diff_render(m: RenderModel, new: Seq<Seq<char>>, height: usize) -> (
    RenderModel,
    Seq<char>,
) {
    match changed_range(m.previous_lines, new) {
        None => (RenderModel { last_changed: None, last_reason: None, ..m }, seq![]),
        Some((f, l)) => {
            let first = f as usize;
            let last = l as usize;
            if first < m.viewport_top {
                full_render(m, new, true, height, RedrawReason::AboveViewport)
            } else if first >= new.len() {
                diff_deletions(m, new, first, last, height)
            } else {
                diff_normal(m, new, first, last, height)
            }
        },
    }
}

/// The renderer's state: the last frame and the bookkeeping the
/// strategies need.
struct RenderState {
    previous_lines: Vec<String>,
    previous_width: u16,
    previous_height: u16,
    previous_viewport_top: usize,
    cursor_row: usize,
    hardware_cursor_row: usize,
    max_lines_rendered: usize,
    render_requested: bool,
    last_render_at: Option<u64>,
    stopped: bool,
    force_clear: bool,
    last_changed_range: Option<(usize, usize)>,
    last_full_redraw_reason: Option<RedrawReason>,
    clear_on_shrink: bool,
}

impl View for RenderState {
    type V = RenderModel;

    closed spec fn view(&self) -> RenderModel {
        RenderModel {
            previous_lines: crate::style::views(self.previous_lines@),
            previous_width: self.previous_width,
            previous_height: self.previous_height,
            viewport_top: self.previous_viewport_top,
            cursor_row: self.cursor_row,
            hw_row: self.hardware_cursor_row,
            max_lines: self.max_lines_rendered,
            render_requested: self.render_requested,
            last_render_at: self.last_render_at,
            stopped: self.stopped,
            force_clear: self.force_clear,
            last_changed: self.last_changed_range,
            last_reason: self.last_full_redraw_reason,
            clear_on_shrink: self.clear_on_shrink,
        }
    }
}

/// A renderer with no previous frame.
pub open spec fn fresh_model(clear_on_shrink: bool) -> RenderModel {
    RenderModel {
        previous_lines: seq![],
        previous_width: 0,
        previous_height: 0,
        viewport_top: 0,
        cursor_row: 0,
        hw_row: 0,
        max_lines: 0,
        render_requested: false,
        last_render_at: None,
        stopped: false,
        force_clear: false,
        last_changed: None,
        last_reason: None,
        clear_on_shrink,
    }
}

/// A render request: a forced one drops the previous frame (the next frame
/// is a clearing full redraw, as soon as possible); otherwise the request is
/// only recorded (requests coalesce).
pub open spec fn requested(m: RenderModel, force: bool) -> RenderModel {
    if force {
        RenderModel {
            previous_lines: seq![],
            previous_width: 0,
            previous_height: 0,
            cursor_row: 0,
            hw_row: 0,
            max_lines: 0,
            viewport_top: 0,
            force_clear: true,
            render_requested: true,
            last_render_at: None,
            ..m
        }
    } else {
        RenderModel { render_requested: true, ..m }
    }
}

/// Whether a pending render may run at `now` (milliseconds): not stopped,
/// requested, and at least [`MIN_RENDER_INTERVAL_MS`] since the last frame.
pub open spec fn render_due(m: RenderModel, now: u64) -> bool {
    &&& !m.stopped
    &&& m.render_requested
    &&& match m.last_render_at {
        Some(t) => (if now >= t {
            now - t
        } else {
            0
        }) >= MIN_RENDER_INTERVAL_MS,
        None => true,
    }
}

/// The frame's lines padded with empty lines up to the terminal height.
pub open spec fn padded(raw: Seq<LineView>, height: nat) -> Seq<LineView> {
    if raw.len() >= height {
        raw
    } else {
        raw + Seq::new((height - raw.len()) as nat, |i: int| Seq::<(Seq<char>, crate::style::CellStyle)>::empty())
    }
}

/// The writes that place the hardware cursor for the input method: at the
/// marker's row (clamped to the content) and column when there is one, then
/// the cursor is hidden; just hidden otherwise.
pub open spec fn cursor_writes(m: RenderModel, cursor: Option<(nat, nat)>, total: usize) -> (
    RenderModel,
    Seq<Seq<char>>,
) {
    match cursor {
        Some((row, col)) => if total == 0 {
            (m, seq!["\x1b[?25l"@])
        } else {
            let r: usize = if row <= total - 1 {
                row as usize
            } else {
                (total - 1) as usize
            };
            (
                RenderModel { hw_row: r, ..m },
                seq![move_rows(m.hw_row, r) + csi_n(col + 1, 'G'), "\x1b[?25l"@],
            )
        },
        None => (m, seq!["\x1b[?25l"@]),
    }
}

/// The strategy for a frame of serialized lines, and what it writes (at
/// most one write). Forced redraws clear; the first frame does not; a size
/// change (or no previous size) clears; so does content shrinking below the
/// rows already used when `clear_on_shrink` is on; anything else is a diff,
/// which writes nothing when no row changed.
pub open spec fn strategy(m: RenderModel, new: Seq<Seq<char>>, width: u16, height: u16) -> (
    RenderModel,
    Seq<Seq<char>>,
) {
    let h = height as usize;
    let width_changed = m.previous_width != 0 && m.previous_width != width;
    let height_changed = m.previous_height != 0 && m.previous_height != height;
    let n_new = new.len() as usize;
    let first_render = m.previous_lines.len() == 0 && !width_changed && !height_changed
        && !m.force_clear;
    let shrink = m.previous_lines.len() > n_new && n_new < m.max_lines && m.clear_on_shrink;
    if m.force_clear {
        let (a, o) = full_render(m, new, true, h, RedrawReason::Forced);
        (RenderModel { force_clear: false, ..a }, seq![o])
    } else if first_render {
        let (a, o) = full_render(m, new, false, h, RedrawReason::FirstRender);
        (a, seq![o])
    } else if width_changed || height_changed || m.previous_width == 0 {
        let reason = if width_changed {
            RedrawReason::WidthChanged
        } else if height_changed {
            RedrawReason::HeightChanged
        } else {
            RedrawReason::NoPreviousFrame
        };
        let (a, o) = full_render(m, new, true, h, reason);
        (a, seq![o])
    } else if shrink {
        let (a, o) = full_render(m, new, true, h, RedrawReason::ClearOnShrink);
        (a, seq![o])
    } else {
        let (a, o) = diff_render(m, new, h);
        if changed_range(m.previous_lines, new).is_none() {
            (a, Seq::<Seq<char>>::empty())
        } else {
            (a, seq![o])
        }
    }
}

/// One frame: post-process the lines padded to the terminal height, apply
/// the [`strategy`], place the cursor, and keep the frame as the previous
/// one, its size and its time. A line wider than the terminal is an error
/// and leaves the state as it was.
pub open spec fn frame(m: RenderModel, raw: Seq<LineView>, width: u16, height: u16, now: u64) -> Result<
    (RenderModel, Seq<Seq<char>>),
    (nat, nat, Seq<char>),
> {
    match processed(padded(raw, height as nat), width as nat) {
        Err(e) => Err(e),
        Ok((new, cursor)) => {
            let (m1, w1) = strategy(m, new, width, height);
            let (m2, w2) = cursor_writes(m1, cursor, new.len() as usize);
            Ok(
                (
                    RenderModel {
                        previous_lines: new,
                        previous_width: width,
                        previous_height: height,
                        render_requested: false,
                        last_render_at: Some(now),
                        ..m2
                    },
                    w1 + w2,
                ),
            )
        },
    }
}

/// The cursor position of a frame as numbers.
pub open spec fn cursor_view(c: Option<(usize, usize)>) -> Option<(nat, nat)> {
    match c {
        Some((r, k)) => Some((r as nat, k as nat)),
        None => None,
    }
}

/// `err` reports the too-wide line `e` = (row, width, text) of a frame for a
/// terminal `width` columns wide (a width past `usize::MAX` is reported as
/// `usize::MAX`).
pub open spec fn reports(err: RenderError, e: (nat, nat, Seq<char>), width: u16) -> bool {
    match err {
        RenderError::LineTooWide { row, line_width, terminal_width, line_text } => {
            &&& row == e.0
            &&& line_width == (if e.1 <= usize::MAX {
                e.1
            } else {
                usize::MAX as nat
            })
            &&& terminal_width == width
            &&& line_text@ == e.2
        },
    }
}

/// Leaving the screen: once, move below the content and start a new line
/// (when a frame was drawn), then show the cursor.
pub open spec fn stopped_writes(m: RenderModel) -> Seq<Seq<char>> {
    if m.stopped {
        seq![]
    } else if m.previous_lines.len() > 0 {
        seq![move_rows(m.hw_row, m.previous_lines.len() as usize) + "\r\n"@, "\x1b[?25h"@]
    } else {
        seq!["\x1b[?25h"@]
    }
}

proof fn lemma_full_render_wf(m: RenderModel, new: Seq<Seq<char>>, clear: bool, h: usize, reason: RedrawReason)
    requires
        render_wf(m),
        new.len() <= usize::MAX / 4,
    ensures
        render_wf(full_render(m, new, clear, h, reason).0),
{
}

proof fn lemma_diff_wf(m: RenderModel, new: Seq<Seq<char>>, h: usize)
    requires
        render_wf(m),
        new.len() <= usize::MAX / 4,
        h <= u16::MAX,
    ensures
        render_wf(diff_render(m, new, h).0),
{
    match changed_range(m.previous_lines, new) {
        None => {},
        Some((f, l)) => {
            let first = f as usize;
            let last = l as usize;
            if first < m.viewport_top {
                lemma_full_render_wf(m, new, true, h, RedrawReason::AboveViewport);
            } else if first >= new.len() {
                lemma_full_render_wf(m, new, true, h, RedrawReason::AllDeletionsFallback);
            } else {
                lemma_diff_normal_wf(m, new, first, last, h);
            }
        },
    }
}

proof fn lemma_diff_normal_wf(m: RenderModel, new: Seq<Seq<char>>, first: usize, last: usize, h: usize)
    requires
        render_wf(m),
        new.len() <= usize::MAX / 4,
        first < new.len(),
        h <= u16::MAX,
    ensures
        render_wf(diff_normal(m, new, first, last, h).0),
{
    reveal(scroll_step);
    reveal(shrink_step);
}

proof fn lemma_strategy_wf(m: RenderModel, new: Seq<Seq<char>>, width: u16, height: u16)
    requires
        render_wf(m),
        new.len() <= usize::MAX / 4,
    ensures
        render_wf(strategy(m, new, width, height).0),
{
    let h = height as usize;
    lemma_full_render_wf(m, new, true, h, RedrawReason::Forced);
    lemma_full_render_wf(m, new, false, h, RedrawReason::FirstRender);
    lemma_full_render_wf(m, new, true, h, RedrawReason::WidthChanged);
    lemma_full_render_wf(m, new, true, h, RedrawReason::HeightChanged);
    lemma_full_render_wf(m, new, true, h, RedrawReason::NoPreviousFrame);
    lemma_full_render_wf(m, new, true, h, RedrawReason::ClearOnShrink);
    lemma_diff_wf(m, new, h);
}

/// Every frame keeps the renderer state well formed: the viewport top never
/// passes the rows used, and the row counters stay in range.
pub proof fn law_frame_keeps_wf(m: RenderModel, raw: Seq<LineView>, width: u16, height: u16, now: u64)
    requires
        render_wf(m),
        raw.len() <= usize::MAX / 4,
    ensures
        frame(m, raw, width, height, now) matches Ok((m2, _)) ==> render_wf(m2),
{
    let p = padded(raw, height as nat);
    lemma_processed_len(p, width as nat);
    if let Ok((new, cursor)) = processed(p, width as nat) {
        lemma_strategy_wf(m, new, width, height);
    }
}

proof fn lemma_no_change(x: Seq<Seq<char>>, k: int)
    ensures
        first_in(x, x, k).is_none(),
        last_in(x, x, k).is_none(),
    decreases k,
{
    if k > 0 {
        lemma_no_change(x, k - 1);
    }
}

/// Rendering the same lines again at the same size writes no content: the
/// second frame finds no changed row, keeps the frame, and its only writes
/// are those that place the cursor. (A zero-width terminal, or no line at
/// all on a zero-height one, makes every frame a full one.)
pub proof fn law_unchanged_frame_writes_nothing(
    m: RenderModel,
    raw: Seq<LineView>,
    width: u16,
    height: u16,
    t1: u64,
    t2: u64,
)
    requires
        render_wf(m),
        raw.len() <= usize::MAX / 4,
        width > 0,
        raw.len() > 0 || height > 0,
    ensures
        match frame(m, raw, width, height, t1) {
            Ok((m1, _)) => match processed(padded(raw, height as nat), width as nat) {
                Ok((new, cursor)) => {
                    &&& frame(m1, raw, width, height, t2) matches Ok((m2, ws))
                    &&& m2.last_changed.is_none()
                    &&& m2.previous_lines == new
                    &&& ws == cursor_writes(
                        RenderModel { last_changed: None, last_reason: None, ..m1 },
                        cursor,
                        new.len() as usize,
                    ).1
                },
                Err(_) => true,
            },
            Err(_) => true,
        },
{
    let p = padded(raw, height as nat);
    lemma_processed_len(p, width as nat);
    if let Ok((new, cursor)) = processed(p, width as nat) {
        lemma_no_change(new, span_len(new, new));
    }
}

proof fn lemma_processed_err(s: Seq<LineView>, w: nat)
    ensures
        (processed(s, w) is Err) <==> (exists|i: int| 0 <= i < s.len() && line_width(#[trigger] s[i]) > w),
        processed(s, w) matches Err((row, lw, text)) ==> {
            &&& row < s.len()
            &&& lw == line_width(s[row as int])
            &&& lw > w
            &&& text == concat_texts(s[row as int])
            &&& forall|j: int| 0 <= j < row ==> line_width(#[trigger] s[j]) <= w
        },
    decreases s.len(),
{
    if s.len() > 0 {
        let d = s.drop_last();
        lemma_processed_err(d, w);
        assert forall|j: int| 0 <= j < d.len() implies #[trigger] d[j] == s[j] by {}
        if processed(d, w) is Ok && line_width(s.last()) <= w {
            assert forall|i: int| 0 <= i < s.len() implies line_width(#[trigger] s[i]) <= w by {
                if i < d.len() {
                    assert(d[i] == s[i]);
                }
            }
        }
        if processed(d, w) is Err {
            let i = choose|i: int| 0 <= i < d.len() && line_width(#[trigger] d[i]) > w;
            assert(s[i] == d[i]);
            if let Err((row, lw, text)) = processed(d, w) {
                assert(d[row as int] == s[row as int]);
                assert forall|j: int| 0 <= j < row implies line_width(#[trigger] s[j]) <= w by {
                    assert(d[j] == s[j]);
                }
            }
        } else {
            assert forall|j: int| 0 <= j < d.len() implies line_width(#[trigger] s[j]) <= w by {
                assert(d[j] == s[j]);
                if line_width(d[j]) > w {
                    assert(exists|i: int| 0 <= i < d.len() && line_width(#[trigger] d[i]) > w);
                }
            }
        }
    }
}

/// A frame fails exactly when one of its lines is wider than the terminal,
/// on every path; the error reports the first such line: its row, its
/// width and its text.
pub proof fn law_too_wide_line_fails(m: RenderModel, raw: Seq<LineView>, width: u16, height: u16, now: u64)
    ensures
        (frame(m, raw, width, height, now) is Err) <==> (exists|i: int|
            0 <= i < raw.len() && line_width(#[trigger] raw[i]) > width),
        frame(m, raw, width, height, now) matches Err((row, lw, text)) ==> {
            &&& row < raw.len()
            &&& lw == line_width(raw[row as int])
            &&& lw > width
            &&& text == concat_texts(raw[row as int])
            &&& forall|j: int| 0 <= j < row ==> line_width(#[trigger] raw[j]) <= width
        },
{
    let p = padded(raw, height as nat);
    lemma_processed_err(p, width as nat);
    assert forall|i: int| 0 <= i < raw.len() implies #[trigger] p[i] == raw[i] by {}
    assert forall|i: int| raw.len() <= i < p.len() implies line_width(#[trigger] p[i]) == 0 by {
        assert(p[i] == Seq::<(Seq<char>, crate::style::CellStyle)>::empty());
    }
    if exists|i: int| 0 <= i < raw.len() && line_width(#[trigger] raw[i]) > width {
        let i = choose|i: int| 0 <= i < raw.len() && line_width(#[trigger] raw[i]) > width;
        assert(p[i] == raw[i]);
    }
    if exists|i: int| 0 <= i < p.len() && line_width(#[trigger] p[i]) > width {
        let i = choose|i: int| 0 <= i < p.len() && line_width(#[trigger] p[i]) > width;
        if i < raw.len() {
            assert(p[i] == raw[i]);
        }
    }
    if let Err((row, lw, text)) = processed(p, width as nat) {
        if row >= raw.len() {
            assert(line_width(p[row as int]) == 0);
        }
        assert(p[row as int] == raw[row as int]);
        assert forall|j: int| 0 <= j < row implies line_width(#[trigger] raw[j]) <= width by {
            assert(p[j] == raw[j]);
        }
    }
}

/// After a forced render request, the next frame clears the screen and the
/// scrollback and then writes every line; its reason is a forced redraw.
pub proof fn law_forced_frame_clears(m: RenderModel, raw: Seq<LineView>, width: u16, height: u16, now: u64)
    ensures
        frame(requested(m, true), raw, width, height, now) matches Ok((m2, ws)) ==> {
            &&& m2.last_reason == Some(RedrawReason::Forced)
            &&& ws.len() >= 1
            &&& ws[0] == "\x1b[?2026h"@ + "\x1b[2J\x1b[H\x1b[3J"@ + join_crlf(m2.previous_lines)
                + "\x1b[?2026l"@
        },
{
}

/// A write opens and closes a synchronized update (so the terminal shows
/// it at once).
pub open spec fn synchronized(w: Seq<char>) -> bool {
    &&& w.len() >= 16
    &&& w.take(8) == "\x1b[?2026h"@
    &&& w.skip(w.len() - 8) == "\x1b[?2026l"@
}

proof fn lemma_sync_parts(mid: Seq<char>)
    ensures
        synchronized("\x1b[?2026h"@ + mid + "\x1b[?2026l"@),
{
    reveal_strlit("\x1b[?2026h");
    reveal_strlit("\x1b[?2026l");
    let w = "\x1b[?2026h"@ + mid + "\x1b[?2026l"@;
    assert(w.take(8) =~= "\x1b[?2026h"@);
    assert(w.skip(w.len() - 8) =~= "\x1b[?2026l"@);
}

/// Every frame writes its content as at most one synchronized update, then
/// only cursor placement, and always ends with the cursor hidden.
pub proof fn law_frame_writes_synchronized(m: RenderModel, raw: Seq<LineView>, width: u16, height: u16, now: u64)
    ensures
        frame(m, raw, width, height, now) matches Ok((m2, ws)) ==> match processed(
            padded(raw, height as nat),
            width as nat,
        ) {
            Ok((new, cursor)) => {
                let sw = strategy(m, new, width, height).1;
                &&& sw.len() <= 1
                &&& sw.len() == 1 ==> synchronized(sw[0])
                &&& ws.len() >= 1
                &&& ws.last() == "\x1b[?25l"@
            },
            Err(_) => true,
        },
{
    if let Ok((new, cursor)) = processed(padded(raw, height as nat), width as nat) {
        let h = height as usize;
        let n_prev = m.previous_lines.len() as usize;
        let n_new = new.len() as usize;
        let (a, o) = full_render(m, new, true, h, RedrawReason::Forced);
        assert(o == "\x1b[?2026h"@ + ("\x1b[2J\x1b[H\x1b[3J"@ + join_crlf(new)) + "\x1b[?2026l"@);
        lemma_sync_parts("\x1b[2J\x1b[H\x1b[3J"@ + join_crlf(new));
        assert(full_render(m, new, false, h, RedrawReason::FirstRender).1 == "\x1b[?2026h"@ + (
        Seq::<char>::empty() + join_crlf(new)) + "\x1b[?2026l"@);
        lemma_sync_parts(Seq::<char>::empty() + join_crlf(new));
        match changed_range(m.previous_lines, new) {
            None => {},
            Some((f, l)) => {
                let first = f as usize;
                let last = l as usize;
                if first < m.viewport_top {
                } else if first >= new.len() {
                    let extras = sat_sub(n_prev, n_new);
                    let target = sat_sub(n_new, 1);
                    let mid = move_rows(m.hw_row, target) + repeat("\r\n\x1b[2K"@, extras as nat) + (
                    if extras > 0 {
                        csi_n(extras as nat, 'A')
                    } else {
                        Seq::<char>::empty()
                    });
                    lemma_sync_parts(mid);
                    assert(diff_deletions(m, new, first, last, h).1 == "\x1b[?2026h"@ + mid
                        + "\x1b[?2026l"@ || extras > h || target < m.viewport_top);
                } else {
                    let append_start = n_new > n_prev && first == n_prev && first > 0;
                    let move_target: usize = if append_start {
                        (first - 1) as usize
                    } else {
                        first
                    };
                    let (m1, scroll_out) = scroll_step(m, move_target, h);
                    let render_end: usize = if last <= sat_sub(n_new, 1) {
                        last
                    } else {
                        sat_sub(n_new, 1)
                    };
                    let (fc, shrink_out) = shrink_step(n_prev, n_new, render_end);
                    let mid = scroll_out + move_rows(m1.hw_row, move_target) + (if append_start {
                        "\r\n"@
                    } else {
                        "\r"@
                    }) + rewrite_rows(new, first as int, render_end as int) + shrink_out;
                    lemma_sync_parts(mid);
                    assert(diff_normal(m, new, first, last, h).1 =~= "\x1b[?2026h"@ + mid
                        + "\x1b[?2026l"@);
                }
            },
        }
    }
}

proof fn lemma_views_push(v: Seq<String>, x: String)
    ensures
        crate::style::views(v.push(x)) == crate::style::views(v).push(x@),
{
    assert(crate::style::views(v.push(x)) =~= crate::style::views(v).push(x@));
}

proof fn lemma_processed_err_prefix(s: Seq<LineView>, k: int, width: nat)
    requires
        0 <= k <= s.len(),
        processed(s.take(k), width) is Err,
    ensures
        processed(s, width) == processed(s.take(k), width),
    decreases s.len() - k,
{
    if k < s.len() {
        assert(s.drop_last().take(k) =~= s.take(k));
        lemma_processed_err_prefix(s.drop_last(), k, width);
    } else {
        assert(s.take(k) =~= s);
    }
}

pub proof fn lemma_processed_len(s: Seq<LineView>, width: nat)
    ensures
        processed(s, width) matches Ok((out, _)) ==> out.len() == s.len(),
    decreases s.len(),
{
    if s.len() > 0 {
        lemma_processed_len(s.drop_last(), width);
    }
}

/// Post-processing of a frame's lines (see [`processed`]).
fn post_process(raw: &Vec<StyledLine>, width: u16) -> (r: Result<(Vec<String>, Option<(usize, usize)>), RenderError>)
    ensures
        match processed(lines_view(raw@), width as nat) {
            Ok((out, cur)) => r matches Ok((v, c)) && crate::style::views(v@) == out && cursor_view(c)
                == cur,
            Err(e) => r matches Err(err) && reports(err, e, width),
        },
{
    let ghost lv = lines_view(raw@);
    let mut out: Vec<String> = Vec::new();
    let mut cursor: Option<(usize, usize)> = None;
    let mut i: usize = 0;
    assert(lv.take(0) =~= Seq::<LineView>::empty());
    assert(crate::style::views(out@) =~= Seq::<Seq<char>>::empty());
    while i < raw.len()
        invariant
            lv == lines_view(raw@),
            i <= raw@.len(),
            processed(lv.take(i as int), width as nat) == Ok::<
                (Seq<Seq<char>>, Option<(nat, nat)>),
                (nat, nat, Seq<char>),
            >((crate::style::views(out@), cursor_view(cursor))),
        decreases raw@.len() - i,
    {
        let line = &raw[i];
        proof {
            assert(lv.take(i + 1).drop_last() =~= lv.take(i as int));
            assert(lv.take(i + 1).last() == raw@[i as int]@);
        }
        let lw_opt = line.try_width();
        let too_wide = match lw_opt {
            Some(lw) => lw > width as usize,
            None => true,
        };
        if too_wide {
            let lw = match lw_opt {
                Some(x) => x,
                None => usize::MAX,
            };
            let text = line.plain_text();
            proof {
                lemma_processed_err_prefix(lv, i + 1, width as nat);
            }
            return Err(RenderError::LineTooWide { row: i, line_width: lw, terminal_width: width as usize, line_text: text });
        }
        let (text, col) = serialize_one(line);
        let ghost o0 = out@;
        out.push(text);
        proof {
            lemma_views_push(o0, text);
        }
        match col {
            Some(c) => {
                cursor = Some((i, c));
            },
            None => {},
        }
        i = i + 1;
    }
    assert(lv.take(raw@.len() as int) =~= lv);
    Ok((out, cursor))
}

/// Appends `ESC [ n f`.
fn push_csi_n(buf: &mut String, n: u128, f: char)
    ensures
        final(buf)@ == old(buf)@ + csi_n(n as nat, f),
{
    buf.append("\x1b[");
    push_decimal(buf, n);
    push_char(buf, f);
}

/// Appends the relative row move from `from` to `to`.
fn push_move_rows(buf: &mut String, from: usize, to: usize)
    ensures
        final(buf)@ == old(buf)@ + move_rows(from, to),
{
    if to > from {
        push_csi_n(buf, (to - from) as u128, 'B');
    } else if to < from {
        push_csi_n(buf, (from - to) as u128, 'A');
    } else {
        assert(old(buf)@ + Seq::<char>::empty() =~= old(buf)@);
    }
}

/// Appends `s` `n` times.
fn push_repeat(buf: &mut String, s: &str, n: usize)
    ensures
        final(buf)@ == old(buf)@ + repeat(s@, n as nat),
{
    let mut i: usize = 0;
    assert(old(buf)@ + repeat(s@, 0) =~= old(buf)@);
    while i < n
        invariant
            i <= n,
            buf@ == old(buf)@ + repeat(s@, i as nat),
        decreases n - i,
    {
        buf.append(s);
        i = i + 1;
        assert(buf@ =~= old(buf)@ + repeat(s@, i as nat));
    }
}

/// Appends the lines joined by CR LF.
fn push_joined(buf: &mut String, lines: &Vec<String>)
    ensures
        final(buf)@ == old(buf)@ + join_crlf(crate::style::views(lines@)),
{
    let ghost v = crate::style::views(lines@);
    let mut i: usize = 0;
    assert(v.take(0) =~= Seq::<Seq<char>>::empty());
    assert(old(buf)@ + join_crlf(v.take(0)) =~= old(buf)@);
    while i < lines.len()
        invariant
            v == crate::style::views(lines@),
            i <= lines@.len(),
            buf@ == old(buf)@ + join_crlf(v.take(i as int)),
        decreases lines@.len() - i,
    {
        if i > 0 {
            buf.append("\r\n");
        }
        buf.append(lines[i].as_str());
        proof {
            assert(v.take(i + 1).drop_last() == v.take(i as int));
            assert(v.take(i + 1).last() == lines@[i as int]@);
            if i == 0 {
                assert(v.take(1).len() == 1);
            }
        }
        i = i + 1;
        assert(buf@ =~= old(buf)@ + join_crlf(v.take(i as int)));
    }
    assert(v.take(lines@.len() as int) =~= v);
}

/// Whether row `i` differs between the stored frame and a new one.
fn line_differs(prev: &Vec<String>, new: &Vec<String>, i: usize) -> (b: bool)
    ensures
        b == differs(crate::style::views(prev@), crate::style::views(new@), i as int),
{
    let ghost pv = crate::style::views(prev@);
    let ghost nv = crate::style::views(new@);
    if i < prev.len() {
        assert(pv[i as int] == prev@[i as int]@);
    }
    if i < new.len() {
        assert(nv[i as int] == new@[i as int]@);
    }
    if i < prev.len() && i < new.len() {
        !(prev[i] == new[i])
    } else if i < prev.len() {
        let e = prev[i].as_str().is_empty();
        if e {
            assert(pv[i as int] =~= Seq::<char>::empty());
        }
        !e
    } else if i < new.len() {
        let e = new[i].as_str().is_empty();
        if e {
            assert(nv[i as int] =~= Seq::<char>::empty());
        }
        !e
    } else {
        false
    }
}

/// The changed range between the stored frame and a new one.
fn find_changed(prev: &Vec<String>, new: &Vec<String>) -> (r: Option<(usize, usize)>)
    ensures
        match changed_range(crate::style::views(prev@), crate::style::views(new@)) {
            Some((f, l)) => r == Some((f as usize, l as usize)) && 0 <= f <= l < span_len(
                crate::style::views(prev@),
                crate::style::views(new@),
            ),
            None => r.is_none(),
        },
        r matches Some((a, b)) ==> a <= b,
{
    let ghost pv = crate::style::views(prev@);
    let ghost nv = crate::style::views(new@);
    let n = if prev.len() >= new.len() {
        prev.len()
    } else {
        new.len()
    };
    let mut first: Option<usize> = None;
    let mut last: Option<usize> = None;
    let mut i: usize = 0;
    while i < n
        invariant
            i <= n,
            n as int == span_len(pv, nv),
            pv == crate::style::views(prev@),
            nv == crate::style::views(new@),
            match first_in(pv, nv, i as int) {
                Some(f) => first == Some(f as usize) && 0 <= f < i,
                None => first.is_none(),
            },
            match last_in(pv, nv, i as int) {
                Some(l) => last == Some(l as usize) && 0 <= l < i,
                None => last.is_none(),
            },
            first.is_some() == last.is_some(),
            first.is_some() ==> first.unwrap() <= last.unwrap(),
        decreases n - i,
    {
        if line_differs(prev, new, i) {
            if first.is_none() {
                first = Some(i);
            }
            last = Some(i);
        }
        i = i + 1;
    }
    match (first, last) {
        (Some(f), Some(l)) => Some((f, l)),
        _ => None,
    }
}

impl RenderState {
    /// A renderer with no previous frame. `clear_on_shrink` turns on the
    /// full redraw when content shrinks below the rows already used.
    fn new(clear_on_shrink: bool) -> (r: Self)
        ensures
            r@ == fresh_model(clear_on_shrink),
            render_wf(r@),
    {
        let r = RenderState {
            previous_lines: Vec::new(),
            previous_width: 0,
            previous_height: 0,
            previous_viewport_top: 0,
            cursor_row: 0,
            hardware_cursor_row: 0,
            max_lines_rendered: 0,
            render_requested: false,
            last_render_at: None,
            stopped: false,
            force_clear: false,
            last_changed_range: None,
            last_full_redraw_reason: None,
            clear_on_shrink,
        };
        assert(crate::style::views(r.previous_lines@) =~= Seq::<Seq<char>>::empty());
        assert(r@ =~= fresh_model(clear_on_shrink));
        r
    }

    /// Turns the shrink-triggered full redraw on or off.
    fn set_clear_on_shrink(&mut self, on: bool)
        ensures
            final(self)@ == (RenderModel { clear_on_shrink: on, ..old(self)@ }),
            render_wf(old(self)@) ==> render_wf(final(self)@),
    {
        self.clear_on_shrink = on;
    }

    /// Records a render request; `force` drops the previous frame so the
    /// next frame fully redraws with a clear (see [`requested`]).
    fn request_render(&mut self, force: bool)
        ensures
            final(self)@ == requested(old(self)@, force),
            render_wf(old(self)@) ==> render_wf(final(self)@),
    {
        if force {
            self.previous_lines = Vec::new();
            self.previous_width = 0;
            self.previous_height = 0;
            self.cursor_row = 0;
            self.hardware_cursor_row = 0;
            self.max_lines_rendered = 0;
            self.previous_viewport_top = 0;
            self.force_clear = true;
            self.render_requested = true;
            self.last_render_at = None;
            assert(crate::style::views(self.previous_lines@) =~= Seq::<Seq<char>>::empty());
            assert(self@ =~= requested(old(self)@, force));
            return ;
        }
        if self.render_requested {
            return ;
        }
        self.render_requested = true;
    }

    /// Whether a pending render may run now (see [`render_due`]).
    fn render_due(&self, now: u64) -> (b: bool)
        ensures
            b == render_due(self@, now),
    {
        if self.stopped || !self.render_requested {
            return false;
        }
        match self.last_render_at {
            Some(t) => now.saturating_sub(t) >= MIN_RENDER_INTERVAL_MS,
            None => true,
        }
    }

    /// Rows changed by the last frame, if any.
    fn last_changed_range(&self) -> (r: Option<(usize, usize)>)
        ensures
            r == self@.last_changed,
    {
        self.last_changed_range
    }

    /// Why the last frame was a full redraw, if it was.
    fn last_full_redraw_reason(&self) -> (r: Option<&'static str>)
        ensures
            match self@.last_reason {
                Some(x) => r matches Some(t) && t@ == reason_text(x),
                None => r.is_none(),
            },
    {
        match self.last_full_redraw_reason {
            Some(x) => Some(x.as_str()),
            None => None,
        }
    }

    /// Number of lines of the last frame.
    fn previous_line_count(&self) -> (n: usize)
        ensures
            n as nat == self@.previous_lines.len(),
    {
        self.previous_lines.len()
    }

    /// Whether a render is pending.
    fn render_requested(&self) -> (b: bool)
        ensures
            b == self@.render_requested,
    {
        self.render_requested
    }

    /// The top visible content row.
    fn viewport_top(&self) -> (n: usize)
        ensures
            n == self@.viewport_top,
    {
        self.previous_viewport_top
    }

    /// Whether the renderer was stopped.
    fn is_stopped(&self) -> (b: bool)
        ensures
            b == self@.stopped,
    {
        self.stopped
    }

    /// Leaves the screen (once): the writes that move below the content and
    /// show the cursor (see [`stopped_writes`]).
    fn stop(&mut self) -> (writes: Vec<String>)
        ensures
            crate::style::views(writes@) == stopped_writes(old(self)@),
            final(self)@ == (RenderModel { stopped: true, ..old(self)@ }),
            render_wf(old(self)@) ==> render_wf(final(self)@),
    {
        let mut writes: Vec<String> = Vec::new();
        if self.stopped {
            assert(crate::style::views(writes@) =~= Seq::<Seq<char>>::empty());
            return writes;
        }
        self.stopped = true;
        if self.previous_lines.len() > 0 {
            let mut buf = String::new();
            push_move_rows(&mut buf, self.hardware_cursor_row, self.previous_lines.len());
            buf.append("\r\n");
            writes.push(buf);
        }
        writes.push(String::from_str("\x1b[?25h"));
        assert(crate::style::views(writes@) =~= stopped_writes(old(self)@));
        writes
    }

    fn full_render_exec(&mut self, lines: &Vec<String>, clear: bool, height: usize, reason: RedrawReason) -> (out: String)
        requires
            lines@.len() <= usize::MAX / 4,
        ensures
            (final(self)@, out@) == full_render(
                old(self)@,
                crate::style::views(lines@),
                clear,
                height,
                reason,
            ),
    {
        let mut buf = String::from_str("\x1b[?2026h");
        if clear {
            buf.append("\x1b[2J\x1b[H\x1b[3J");
        }
        push_joined(&mut buf, lines);
        buf.append("\x1b[?2026l");
        let n = lines.len();
        self.cursor_row = n.saturating_sub(1);
        self.hardware_cursor_row = self.cursor_row;
        self.max_lines_rendered = if clear {
            n
        } else if self.max_lines_rendered >= n {
            self.max_lines_rendered
        } else {
            n
        };
        self.previous_viewport_top = n.saturating_sub(height);
        self.last_full_redraw_reason = Some(reason);
        self.last_changed_range = Some((0, n.saturating_sub(1)));
        proof {
            let (m2, o) = full_render(old(self)@, crate::style::views(lines@), clear, height, reason);
            assert(self@ =~= m2);
            assert(buf@ =~= o);
        }
        buf
    }

    /// Appends the rewrite of rows `first..=end` of `new`.
    fn push_rewrite(buf: &mut String, new: &Vec<String>, first: usize, end: usize)
        requires
            first <= end < new@.len(),
        ensures
            final(buf)@ == old(buf)@ + rewrite_rows(
                crate::style::views(new@),
                first as int,
                end as int,
            ),
    {
        let ghost nv = crate::style::views(new@);
        let mut i = first;
        buf.append("\x1b[2K");
        buf.append(new[first].as_str());
        assert(nv[first as int] == new@[first as int]@);
        assert(buf@ =~= old(buf)@ + rewrite_rows(nv, first as int, first as int));
        while i < end
            invariant
                first <= i <= end < new@.len(),
                nv == crate::style::views(new@),
                buf@ == old(buf)@ + rewrite_rows(nv, first as int, i as int),
            decreases end - i,
        {
            i = i + 1;
            buf.append("\r\n");
            buf.append("\x1b[2K");
            buf.append(new[i].as_str());
            assert(nv[i as int] == new@[i as int]@);
            assert(buf@ =~= old(buf)@ + rewrite_rows(nv, first as int, i as int));
        }
    }

    /// The tail-shrink diff (see [`diff_deletions`]).
    fn diff_deletions_exec(&mut self, new: &Vec<String>, first: usize, last: usize, height: usize) -> (out: String)
        requires
            render_wf(old(self)@),
            new@.len() <= usize::MAX / 4,
        ensures
            (final(self)@, out@) == diff_deletions(
                old(self)@,
                crate::style::views(new@),
                first,
                last,
                height,
            ),
    {
        let ghost m = self@;
        let ghost nv = crate::style::views(new@);
        let n_prev = self.previous_lines.len();
        let n_new = new.len();
        let extras = n_prev.saturating_sub(n_new);
        let target = n_new.saturating_sub(1);
        if extras > height || target < self.previous_viewport_top {
            return self.full_render_exec(new, true, height, RedrawReason::AllDeletionsFallback);
        }
        let mut buf = String::from_str("\x1b[?2026h");
        push_move_rows(&mut buf, self.hardware_cursor_row, target);
        push_repeat(&mut buf, "\r\n\x1b[2K", extras);
        if extras > 0 {
            push_csi_n(&mut buf, extras as u128, 'A');
        }
        buf.append("\x1b[?2026l");
        self.hardware_cursor_row = target;
        self.cursor_row = n_new.saturating_sub(1);
        let floor = n_new.saturating_sub(height);
        if self.previous_viewport_top < floor {
            self.previous_viewport_top = floor;
        }
        if self.max_lines_rendered < n_new {
            self.max_lines_rendered = n_new;
        }
        self.last_changed_range = Some((first, last));
        self.last_full_redraw_reason = None;
        proof {
            let (m2, o) = diff_deletions(m, nv, first, last, height);
            assert(self@ =~= m2);
            assert(buf@ =~= o);
        }
        buf
    }

    /// Scrolls when the row to reach is below the viewport (see
    /// [`scroll_step`]).
    fn scroll_to(&mut self, buf: &mut String, move_target: usize, height: usize)
        requires
            render_wf(old(self)@),
            move_target <= usize::MAX / 4,
            height <= u16::MAX,
        ensures
            final(self)@ == scroll_step(old(self)@, move_target, height).0,
            final(buf)@ == old(buf)@ + scroll_step(old(self)@, move_target, height).1,
            final(self)@ == (RenderModel {
                viewport_top: final(self)@.viewport_top,
                hw_row: final(self)@.hw_row,
                ..old(self)@
            }),
    {
        reveal(scroll_step);
        let ghost b0 = buf@;
        let prev_bottom = self.previous_viewport_top + height.saturating_sub(1);
        if move_target > prev_bottom {
            let d = self.hardware_cursor_row.saturating_sub(self.previous_viewport_top);
            let hm1 = height.saturating_sub(1);
            let current_screen_row = if d <= hm1 {
                d
            } else {
                hm1
            };
            let to_bottom = hm1.saturating_sub(current_screen_row);
            if to_bottom > 0 {
                push_csi_n(buf, to_bottom as u128, 'B');
            } else {
                assert(b0 + Seq::<char>::empty() =~= b0);
            }
            let scroll = move_target - prev_bottom;
            push_repeat(buf, "\r\n", scroll);
            self.previous_viewport_top = self.previous_viewport_top + scroll;
            self.hardware_cursor_row = move_target;
            assert(self@ =~= scroll_step(old(self)@, move_target, height).0);
            assert(buf@ =~= b0 + scroll_step(old(self)@, move_target, height).1);
        } else {
            assert(b0 + Seq::<char>::empty() =~= b0);
        }
    }

    /// Appends the orphan-row clearing of a shrinking diff (see
    /// [`shrink_step`]); returns where the cursor stops.
    fn push_shrink(buf: &mut String, n_prev: usize, n_new: usize, render_end: usize) -> (fc: usize)
        requires
            render_end < n_new,
            n_new <= usize::MAX / 4,
        ensures
            fc == shrink_step(n_prev, n_new, render_end).0,
            final(buf)@ == old(buf)@ + shrink_step(n_prev, n_new, render_end).1,
    {
        reveal(shrink_step);
        let mut final_cursor = render_end;
        let ghost b0 = buf@;
        if n_prev > n_new {
            if render_end + 1 < n_new {
                let down = (n_new - 1).saturating_sub(render_end);
                push_csi_n(buf, down as u128, 'B');
                final_cursor = n_new - 1;
            } else {
                assert(b0 + Seq::<char>::empty() =~= b0);
            }
            let extras = n_prev - n_new;
            push_repeat(buf, "\r\n\x1b[2K", extras);
            push_csi_n(buf, extras as u128, 'A');
            assert(buf@ =~= b0 + shrink_step(n_prev, n_new, render_end).1);
        } else {
            assert(buf@ =~= b0 + Seq::<char>::empty());
        }
        final_cursor
    }

    /// The range-rewrite diff (see [`diff_normal`]).
    fn diff_normal_exec(&mut self, new: &Vec<String>, first: usize, last: usize, height: usize) -> (out: String)
        requires
            render_wf(old(self)@),
            new@.len() <= usize::MAX / 4,
            height <= u16::MAX,
            first < new@.len(),
            first <= last,
        ensures
            (final(self)@, out@) == diff_normal(
                old(self)@,
                crate::style::views(new@),
                first,
                last,
                height,
            ),
    {
        let ghost m = self@;
        let ghost nv = crate::style::views(new@);
        let n_prev = self.previous_lines.len();
        let n_new = new.len();
        let mut buf = String::from_str("\x1b[?2026h");
        let append_start = n_new > n_prev && first == n_prev && first > 0;
        let move_target = if append_start {
            first - 1
        } else {
            first
        };
        self.scroll_to(&mut buf, move_target, height);
        let ghost b1 = buf@;
        let ghost m1 = self@;
        push_move_rows(&mut buf, self.hardware_cursor_row, move_target);
        if append_start {
            buf.append("\r\n");
        } else {
            buf.append("\r");
        }
        let nm1 = n_new.saturating_sub(1);
        let render_end = if last <= nm1 {
            last
        } else {
            nm1
        };
        Self::push_rewrite(&mut buf, new, first, render_end);
        let final_cursor = Self::push_shrink(&mut buf, n_prev, n_new, render_end);
        buf.append("\x1b[?2026l");
        self.hardware_cursor_row = final_cursor;
        self.cursor_row = nm1;
        let floor = final_cursor.saturating_sub(height.saturating_sub(1));
        if self.previous_viewport_top < floor {
            self.previous_viewport_top = floor;
        }
        if self.max_lines_rendered < n_new {
            self.max_lines_rendered = n_new;
        }
        self.last_changed_range = Some((first, last));
        self.last_full_redraw_reason = None;
        proof {
            let (m2, o) = diff_normal(m, nv, first, last, height);
            assert(self@ =~= m2);
            assert(buf@ =~= o);
        }
        buf
    }

    /// A diff frame (see [`diff_render`]); `None` when nothing changed.
    fn diff_exec(&mut self, new: &Vec<String>, height: usize) -> (out: Option<String>)
        requires
            render_wf(old(self)@),
            new@.len() <= usize::MAX / 4,
            height <= u16::MAX,
        ensures
            final(self)@ == diff_render(old(self)@, crate::style::views(new@), height).0,
            match out {
                Some(o) => changed_range(old(self)@.previous_lines, crate::style::views(new@)).is_some()
                    && o@ == diff_render(old(self)@, crate::style::views(new@), height).1,
                None => changed_range(old(self)@.previous_lines, crate::style::views(new@)).is_none(),
            },
    {
        let ghost m = self@;
        let ghost nv = crate::style::views(new@);
        let (first, last) = match find_changed(&self.previous_lines, new) {
            Some(p) => p,
            None => {
                self.last_changed_range = None;
                self.last_full_redraw_reason = None;
                assert(self@ =~= diff_render(m, nv, height).0);
                return None;
            },
        };
        if first < self.previous_viewport_top {
            let o = self.full_render_exec(new, true, height, RedrawReason::AboveViewport);
            return Some(o);
        }
        if first >= new.len() {
            let o = self.diff_deletions_exec(new, first, last, height);
            return Some(o);
        }
        let o = self.diff_normal_exec(new, first, last, height);
        Some(o)
    }

    /// Places the hardware cursor (see [`cursor_writes`]), appending the
    /// writes.
    fn place_cursor(&mut self, cursor: Option<(usize, usize)>, total: usize, writes: &mut Vec<String>)
        ensures
            final(self)@ == cursor_writes(old(self)@, cursor_view(cursor), total).0,
            crate::style::views(final(writes)@) == crate::style::views(old(writes)@) + cursor_writes(
                old(self)@,
                cursor_view(cursor),
                total,
            ).1,
    {
        let ghost w0 = writes@;
        match cursor {
            Some((row, col)) => {
                if total > 0 {
                    let r = if row <= total - 1 {
                        row
                    } else {
                        total - 1
                    };
                    let mut buf = String::new();
                    push_move_rows(&mut buf, self.hardware_cursor_row, r);
                    push_csi_n(&mut buf, col as u128 + 1, 'G');
                    writes.push(buf);
                    self.hardware_cursor_row = r;
                }
            },
            None => {},
        }
        writes.push(String::from_str("\x1b[?25l"));
        proof {
            reveal_strlit("\x1b[?25l");
        }
        assert(crate::style::views(writes@) =~= crate::style::views(w0) + cursor_writes(
            old(self)@,
            cursor_view(cursor),
            total,
        ).1);
        assert(self@ =~= cursor_writes(old(self)@, cursor_view(cursor), total).0);
    }

    /// Applies the [`strategy`] to a frame of serialized lines.
    fn apply_strategy(&mut self, new: &Vec<String>, width: u16, height: u16) -> (writes: Vec<String>)
        requires
            render_wf(old(self)@),
            new@.len() <= usize::MAX / 4,
        ensures
            (final(self)@, crate::style::views(writes@)) == strategy(
                old(self)@,
                crate::style::views(new@),
                width,
                height,
            ),
    {
        let ghost m = self@;
        let ghost nv = crate::style::views(new@);
        let h = height as usize;
        let width_changed = self.previous_width != 0 && self.previous_width != width;
        let height_changed = self.previous_height != 0 && self.previous_height != height;
        let n_new = new.len();
        let first_render = self.previous_lines.len() == 0 && !width_changed && !height_changed
            && !self.force_clear;
        let shrink = self.previous_lines.len() > n_new && n_new < self.max_lines_rendered
            && self.clear_on_shrink;
        let mut writes: Vec<String> = Vec::new();
        if self.force_clear {
            let o = self.full_render_exec(new, true, h, RedrawReason::Forced);
            self.force_clear = false;
            writes.push(o);
        } else if first_render {
            let o = self.full_render_exec(new, false, h, RedrawReason::FirstRender);
            writes.push(o);
        } else if width_changed || height_changed || self.previous_width == 0 {
            let reason = if width_changed {
                RedrawReason::WidthChanged
            } else if height_changed {
                RedrawReason::HeightChanged
            } else {
                RedrawReason::NoPreviousFrame
            };
            let o = self.full_render_exec(new, true, h, reason);
            writes.push(o);
        } else if shrink {
            let o = self.full_render_exec(new, true, h, RedrawReason::ClearOnShrink);
            writes.push(o);
        } else {
            match self.diff_exec(new, h) {
                Some(o) => {
                    writes.push(o);
                },
                None => {},
            }
        }
        proof {
            let (m2, w2) = strategy(m, nv, width, height);
            assert(self@ =~= m2);
            assert(crate::style::views(writes@) =~= w2);
        }
        writes
    }

    /// One frame (see [`frame`]): the writes to perform, in order, or the
    /// too-wide line.
    fn do_render(&mut self, raw: Vec<StyledLine>, width: u16, height: u16, now_ms: u64) -> (r: Result<Vec<String>, RenderError>)
        requires
            render_wf(old(self)@),
            raw@.len() <= usize::MAX / 4,
        ensures
            match frame(old(self)@, lines_view(raw@), width, height, now_ms) {
                Ok((m, w)) => r matches Ok(v) && crate::style::views(v@) == w && final(self)@ == m,
                Err(e) => r matches Err(err) && reports(err, e, width) && final(self)@ == old(self)@,
            },
    {
        let ghost m = self@;
        let ghost rv = lines_view(raw@);
        let mut lines = raw;
        let h = height as usize;
        while lines.len() < h
            invariant
                rv.len() <= lines@.len(),
                lines_view(lines@) == rv + Seq::new(
                    (lines@.len() - rv.len()) as nat,
                    |i: int| Seq::<(Seq<char>, crate::style::CellStyle)>::empty(),
                ),
                h == height as usize,
                rv.len() >= h ==> lines@.len() == rv.len(),
                rv.len() < h ==> lines@.len() <= h,
            decreases h - lines@.len(),
        {
            let ghost l0 = lines@;
            let e = StyledLine::empty();
            lines.push(e);
            proof {
                assert(lines_view(lines@) =~= lines_view(l0).push(e@));
                assert(lines_view(lines@) =~= rv + Seq::new(
                    (lines@.len() - rv.len()) as nat,
                    |i: int| Seq::<(Seq<char>, crate::style::CellStyle)>::empty(),
                ));
            }
        }
        proof {
            if rv.len() >= h {
                assert(lines_view(lines@) =~= rv);
            }
            assert(lines_view(lines@) =~= padded(rv, height as nat));
        }
        proof {
            lemma_processed_len(lines_view(lines@), width as nat);
        }
        let (new, cursor) = match post_process(&lines, width) {
            Ok(p) => p,
            Err(e) => {
                return Err(e);
            },
        };
        let mut writes = self.apply_strategy(&new, width, height);
        let total = new.len();
        self.place_cursor(cursor, total, &mut writes);
        self.previous_lines = new;
        self.previous_width = width;
        self.previous_height = height;
        self.render_requested = false;
        self.last_render_at = Some(now_ms);
        proof {
            if let Ok((m3, w3)) = frame(m, rv, width, height, now_ms) {
                assert(self@ =~= m3);
                assert(crate::style::views(writes@) =~= w3);
            }
        }
        Ok(writes)
    }

    /// Renders a frame now, whatever the rate limit, unless the renderer was
    /// stopped (then nothing is written). Returns the writes to perform, in
    /// order (see [`frame`]), or the too-wide line, in which case nothing
    /// changed.
    fn render_now(&mut self, raw: Vec<StyledLine>, width: u16, height: u16, now_ms: u64) -> (r: Result<Vec<String>, RenderError>)
        requires
            render_wf(old(self)@),
            raw@.len() <= usize::MAX / 4,
        ensures
            render_wf(final(self)@),
            old(self)@.stopped ==> (r matches Ok(v) && v@.len() == 0 && final(self)@ == old(self)@),
            !old(self)@.stopped ==> match frame(old(self)@, lines_view(raw@), width, height, now_ms) {
                Ok((m, w)) => r matches Ok(v) && crate::style::views(v@) == w && final(self)@ == m,
                Err(e) => r matches Err(err) && reports(err, e, width) && final(self)@ == old(self)@,
            },
    {
        proof {
            law_frame_keeps_wf(self@, lines_view(raw@), width, height, now_ms);
        }
        if self.stopped {
            return Ok(Vec::new());
        }
        self.do_render(raw, width, height, now_ms)
    }

    /// Renders a frame only when one is due at `now_ms` (see
    /// [`render_due`]); otherwise writes nothing and changes nothing.
    fn try_render(&mut self, raw: Vec<StyledLine>, width: u16, height: u16, now_ms: u64) -> (r: Result<Vec<String>, RenderError>)
        requires
            render_wf(old(self)@),
            raw@.len() <= usize::MAX / 4,
        ensures
            render_wf(final(self)@),
            !render_due(old(self)@, now_ms) ==> (r matches Ok(v) && v@.len() == 0 && final(self)@
                == old(self)@),
            render_due(old(self)@, now_ms) ==> match frame(
                old(self)@,
                lines_view(raw@),
                width,
                height,
                now_ms,
            ) {
                Ok((m, w)) => r matches Ok(v) && crate::style::views(v@) == w && final(self)@ == m,
                Err(e) => r matches Err(err) && reports(err, e, width) && final(self)@ == old(self)@,
            },
    {
        proof {
            law_frame_keeps_wf(self@, lines_view(raw@), width, height, now_ms);
        }
        if !self.render_due(now_ms) {
            return Ok(Vec::new());
        }
        self.do_render(raw, width, height, now_ms)
    }

    /// The row where the terminal cursor physically stands.
    fn hardware_cursor_row(&self) -> (n: usize)
        ensures
            n == self@.hw_row,
    {
        self.hardware_cursor_row
    }
}

/// The differential frame renderer. Its state always keeps the viewport
/// within the rows used and its counters within machine bounds.
pub struct Renderer {
    st: RenderState,
}

impl View for Renderer {
    type V = RenderModel;

    closed spec fn view(&self) -> RenderModel {
        self.st@
    }
}

impl Renderer {
    #[verifier::type_invariant]
    spec fn well_formed(self) -> bool {
        render_wf(self.st@)
    }

    /// Takes the state out, leaving a fresh one in its place.
    fn take_state(&mut self) -> (st: RenderState)
        ensures
            st@ == old(self)@,
            render_wf(st@),
    {
        proof {
            use_type_invariant(&*self);
        }
        let mut st = RenderState::new(false);
        std::mem::swap(&mut st, &mut self.st);
        st
    }

    /// A renderer with no previous frame. `clear_on_shrink` turns on the
    /// full redraw when content shrinks below the rows already used.
    pub fn new(clear_on_shrink: bool) -> (r: Self)
        ensures
            r@ == fresh_model(clear_on_shrink),
            render_wf(r@),
    {
        Renderer { st: RenderState::new(clear_on_shrink) }
    }

    /// Turns the shrink-triggered full redraw on or off.
    pub fn set_clear_on_shrink(&mut self, on: bool)
        ensures
            final(self)@ == (RenderModel { clear_on_shrink: on, ..old(self)@ }),
    {
        let mut st = self.take_state();
        st.set_clear_on_shrink(on);
        self.st = st;
    }

    /// Records a render request; `force` drops the previous frame so the
    /// next frame fully redraws with a clear (see [`requested`]).
    pub fn request_render(&mut self, force: bool)
        ensures
            final(self)@ == requested(old(self)@, force),
    {
        let mut st = self.take_state();
        st.request_render(force);
        self.st = st;
    }

    /// Whether a pending render may run now (see [`render_due`]).
    pub fn render_due(&self, now: u64) -> (b: bool)
        ensures
            b == render_due(self@, now),
    {
        self.st.render_due(now)
    }

    /// Rows changed by the last frame, if any.
    pub fn last_changed_range(&self) -> (r: Option<(usize, usize)>)
        ensures
            r == self@.last_changed,
    {
        self.st.last_changed_range()
    }

    /// Why the last frame was a full redraw, if it was.
    pub fn last_full_redraw_reason(&self) -> (r: Option<&'static str>)
        ensures
            match self@.last_reason {
                Some(x) => r matches Some(t) && t@ == reason_text(x),
                None => r.is_none(),
            },
    {
        self.st.last_full_redraw_reason()
    }

    /// Number of lines of the last frame.
    pub fn previous_line_count(&self) -> (n: usize)
        ensures
            n as nat == self@.previous_lines.len(),
    {
        self.st.previous_line_count()
    }

    /// Whether a render is pending.
    pub fn render_requested(&self) -> (b: bool)
        ensures
            b == self@.render_requested,
    {
        self.st.render_requested()
    }

    /// The top visible content row.
    pub fn viewport_top(&self) -> (n: usize)
        ensures
            n == self@.viewport_top,
    {
        self.st.viewport_top()
    }

    /// Whether the renderer was stopped.
    pub fn is_stopped(&self) -> (b: bool)
        ensures
            b == self@.stopped,
    {
        self.st.is_stopped()
    }

    /// Leaves the screen (once): the writes that move below the content and
    /// show the cursor (see [`stopped_writes`]).
    pub fn stop(&mut self) -> (writes: Vec<String>)
        ensures
            crate::style::views(writes@) == stopped_writes(old(self)@),
            final(self)@ == (RenderModel { stopped: true, ..old(self)@ }),
    {
        let mut st = self.take_state();
        let w = st.stop();
        self.st = st;
        w
    }

    /// Renders a frame now, whatever the rate limit, unless the renderer was
    /// stopped (then nothing is written). Returns the writes to perform, in
    /// order (see [`frame`]), or the too-wide line, in which case nothing
    /// changed.
    pub fn render_now(&mut self, raw: Vec<StyledLine>, width: u16, height: u16, now_ms: u64) -> (r: Result<Vec<String>, RenderError>)
        requires
            raw@.len() <= usize::MAX / 4,
        ensures
            old(self)@.stopped ==> (r matches Ok(v) && v@.len() == 0 && final(self)@ == old(self)@),
            !old(self)@.stopped ==> match frame(old(self)@, lines_view(raw@), width, height, now_ms) {
                Ok((m, w)) => r matches Ok(v) && crate::style::views(v@) == w && final(self)@ == m,
                Err(e) => r matches Err(err) && reports(err, e, width) && final(self)@ == old(self)@,
            },
    {
        let mut st = self.take_state();
        let r = st.render_now(raw, width, height, now_ms);
        self.st = st;
        r
    }

    /// Renders a frame only when one is due at `now_ms` (see
    /// [`render_due`]) and says whether it did: `Some` of the writes of the
    /// rendered frame, or `None` (nothing written, nothing changed) when no
    /// frame was due; an error when the attempted frame has a too-wide
    /// line.
    pub fn try_render(&mut self, raw: Vec<StyledLine>, width: u16, height: u16, now_ms: u64) -> (r: Result<
        Option<Vec<String>>,
        RenderError,
    >)
        requires
            raw@.len() <= usize::MAX / 4,
        ensures
            !render_due(old(self)@, now_ms) ==> (r matches Ok(None) && final(self)@ == old(self)@),
            render_due(old(self)@, now_ms) ==> match frame(
                old(self)@,
                lines_view(raw@),
                width,
                height,
                now_ms,
            ) {
                Ok((m, w)) => r matches Ok(Some(v)) && crate::style::views(v@) == w && final(self)@ == m,
                Err(e) => r matches Err(err) && reports(err, e, width) && final(self)@ == old(self)@,
            },
    {
        if !self.st.render_due(now_ms) {
            return Ok(None);
        }
        let mut st = self.take_state();
        let r = st.try_render(raw, width, height, now_ms);
        self.st = st;
        match r {
            Ok(w) => Ok(Some(w)),
            Err(e) => Err(e),
        }
    }

    /// The row where the terminal cursor physically stands.
    pub fn hardware_cursor_row(&self) -> (n: usize)
        ensures
            n == self@.hw_row,
    {
        self.st.hardware_cursor_row()
    }
}

proof fn lemma_first_in(prev: Seq<Seq<char>>, new: Seq<Seq<char>>, k: int)
    ensures
        match first_in(prev, new, k) {
            Some(f) => 0 <= f < k && differs(prev, new, f) && forall|i: int| 0 <= i < f ==> !#[trigger] differs(prev, new, i),
            None => forall|i: int| 0 <= i < k ==> !#[trigger] differs(prev, new, i),
        },
    decreases k,
{
    if k > 0 {
        lemma_first_in(prev, new, k - 1);
    }
}

proof fn lemma_last_in(prev: Seq<Seq<char>>, new: Seq<Seq<char>>, k: int)
    ensures
        match last_in(prev, new, k) {
            Some(l) => 0 <= l < k && differs(prev, new, l) && forall|i: int| l < i < k ==> !#[trigger] differs(prev, new, i),
            None => forall|i: int| 0 <= i < k ==> !#[trigger] differs(prev, new, i),
        },
    decreases k,
{
    if k > 0 {
        lemma_last_in(prev, new, k - 1);
    }
}

/// A diff frame reports exactly the rows that changed: with no row
/// differing (a missing line counting as empty) it writes nothing and
/// reports no range; otherwise the range runs from the first to the last
/// differing row, and when the first lies in the viewport and the frame is
/// not a pure deletion that must fall back to a full redraw, the frame
/// reports that range and no full-redraw reason.
pub proof fn law_diff_reports_changed_rows(m: RenderModel, new: Seq<Seq<char>>, height: usize)
    requires
        m.previous_lines.len() <= usize::MAX,
        new.len() <= usize::MAX,
    ensures
        changed_range(m.previous_lines, new) is None <==> forall|i: int|
            0 <= i < span_len(m.previous_lines, new) ==> !#[trigger] differs(m.previous_lines, new, i),
        changed_range(m.previous_lines, new) is None ==> diff_render(m, new, height).1.len() == 0
            && diff_render(m, new, height).0.last_changed is None,
        changed_range(m.previous_lines, new) matches Some((f, l)) ==> {
            &&& 0 <= f <= l < span_len(m.previous_lines, new)
            &&& differs(m.previous_lines, new, f) && differs(m.previous_lines, new, l)
            &&& forall|i: int| 0 <= i < f ==> !#[trigger] differs(m.previous_lines, new, i)
            &&& forall|i: int| l < i < span_len(m.previous_lines, new) ==> !#[trigger] differs(m.previous_lines, new, i)
            &&& (f >= m.viewport_top && !(f >= new.len() && (sat_sub(m.previous_lines.len() as usize, new.len() as usize)
                > height || sat_sub(new.len() as usize, 1) < m.viewport_top))) ==> diff_render(m, new, height).0.last_changed
                == Some((f as usize, l as usize)) && diff_render(m, new, height).0.last_reason is None
        },
{
    reveal(diff_normal);
    let prev = m.previous_lines;
    let n = span_len(prev, new);
    lemma_first_in(prev, new, n);
    lemma_last_in(prev, new, n);
    if first_in(prev, new, n) is Some {
        let f = first_in(prev, new, n)->Some_0;
        assert(last_in(prev, new, n) is Some) by {
            if last_in(prev, new, n) is None {
                assert(!differs(prev, new, f));
            }
        }
    } else {
        if last_in(prev, new, n) is Some {
            let l = last_in(prev, new, n)->Some_0;
            assert(!differs(prev, new, l));
        }
    }
}

} // verus!
