//! In-memory virtual terminal: a cell grid fed by an ANSI stream.
//!
//! The round-trip partner of the line serializer: what the renderer writes
//! is parsed back into cells, cursor and style, so the visible result can be
//! checked cell by cell. It understands SGR, cursor moves (A/B/C/D/G/H/f),
//! line clear (K), screen clear (2J/3J), CR and LF, and skips OSC and APC
//! payloads. There is no scrollback and no alternate screen.

use vstd::prelude::*;
use crate::style::Color;
use crate::csi::{csi_nums, parse_csi_nums};
use crate::text::{chars_of, string_of, trim_end, skip_white_back};

verus! {

/// Style attributes of one grid cell.
#[derive(Clone, Copy, PartialEq, Eq, Debug, Structural)]
pub struct VStyle {
    pub fg: Option<Color>,
    pub bg: Option<Color>,
    pub bold: bool,
    pub italic: bool,
    pub underline: bool,
    pub dim: bool,
}

/// One cell of the grid; `'\0'` marks a cell never written.
#[derive(Clone, Copy, PartialEq, Eq, Debug, Structural)]
pub struct VCell {
    pub ch: char,
    pub style: VStyle,
}

/// The style with nothing set.
pub open spec fn plain_vstyle() -> VStyle {
    VStyle { fg: None, bg: None, bold: false, italic: false, underline: false, dim: false }
}

/// A cell never written: NUL in the plain style.
pub open spec fn blank_cell() -> VCell {
    VCell { ch: '\0', style: plain_vstyle() }
}

impl Default for VStyle {
    fn default() -> (r: Self)
        ensures
            r == plain_vstyle(),
    {
        VStyle { fg: None, bg: None, bold: false, italic: false, underline: false, dim: false }
    }
}

impl Default for VCell {
    fn default() -> (r: Self)
        ensures
            r == blank_cell(),
    {
        VCell { ch: '\0', style: VStyle::default() }
    }
}

/// The abstract state of a virtual terminal.
pub struct VtModel {
    pub width: u16,
    pub height: u16,
    pub grid: Seq<Seq<VCell>>,
    pub cx: u16,
    pub cy: u16,
    pub style: VStyle,
}

/// A row of `width` blank cells.
pub open spec fn blank_row(width: u16) -> Seq<VCell> {
    Seq::new(width as nat, |i: int| blank_cell())
}

/// The grid grown with blank rows until row `y` exists.
pub open spec fn with_row(m: VtModel, y: u16) -> VtModel {
    if m.grid.len() > y {
        m
    } else {
        VtModel {
            grid: m.grid + Seq::new((y + 1 - m.grid.len()) as nat, |i: int| blank_row(m.width)),
            ..m
        }
    }
}

/// A `width` x `height` terminal of blank rows, cursor at the origin,
/// plain style.
pub open spec fn fresh_vt(width: u16, height: u16) -> VtModel {
    VtModel {
        width,
        height,
        grid: Seq::new(height as nat, |i: int| blank_row(width)),
        cx: 0,
        cy: 0,
        style: plain_vstyle(),
    }
}

/// `c` written at the cursor (grid grown to the cursor row first; nothing is
/// written past the row's end) and the cursor one column right (saturating).
pub open spec fn put_char(m: VtModel, c: char) -> VtModel {
    let g = with_row(m, m.cy);
    let row = g.grid[m.cy as int];
    let grid = if m.cx < row.len() {
        g.grid.update(m.cy as int, row.update(m.cx as int, VCell { ch: c, style: m.style }))
    } else {
        g.grid
    };
    VtModel { grid, cx: if m.cx < u16::MAX { (m.cx + 1) as u16 } else { m.cx }, ..g }
}

/// Line feed: down one row (saturating), back to column 0, row created.
pub open spec fn line_feed(m: VtModel) -> VtModel {
    let y: u16 = if m.cy < u16::MAX { (m.cy + 1) as u16 } else { m.cy };
    with_row(VtModel { cy: y, cx: 0, ..m }, y)
}

/// A CSI final byte: an ASCII character in `@`..=`~`.
pub open spec fn is_final_byte(c: char) -> bool {
    '\u{40}' <= c && c <= '\u{7e}'
}

/// Index of the first final byte of `s` at or after `i`, or `s.len()`.
pub open spec fn final_index(s: Seq<char>, i: int) -> int
    decreases s.len() - i,
{
    if i >= s.len() {
        s.len() as int
    } else if is_final_byte(s[i]) {
        i
    } else {
        final_index(s, i + 1)
    }
}

/// Where a string sequence (OSC, APC) that starts at `i` ends: just past the
/// first BEL, or past the first ESC (and a `\` right after it), or the end.
pub open spec fn string_seq_end(s: Seq<char>, i: int) -> int
    decreases s.len() - i,
{
    if i >= s.len() {
        s.len() as int
    } else if s[i] == '\x07' {
        i + 1
    } else if s[i] == '\x1b' {
        if i + 1 < s.len() && s[i + 1] == '\\' {
            i + 2
        } else {
            i + 1
        }
    } else {
        string_seq_end(s, i + 1)
    }
}

/// The first parameter, or `d` when there is none.
pub open spec fn param_or(nums: Seq<i64>, k: int, d: i64) -> i64 {
    if k < nums.len() {
        nums[k]
    } else {
        d
    }
}

/// `n - 1`, saturating at `i64::MIN`.
pub open spec fn minus_one(n: i64) -> i64 {
    if n > i64::MIN {
        (n - 1) as i64
    } else {
        n
    }
}

/// The 16-color palette entry of an SGR color code (30-37, 40-47, 90-97,
/// 100-107); `Reset` for any other code.
pub open spec fn code_color(code: u8) -> Color {
    if code == 30 || code == 40 {
        Color::Black
    } else if code == 31 || code == 41 {
        Color::Red
    } else if code == 32 || code == 42 {
        Color::Green
    } else if code == 33 || code == 43 {
        Color::Yellow
    } else if code == 34 || code == 44 {
        Color::Blue
    } else if code == 35 || code == 45 {
        Color::Magenta
    } else if code == 36 || code == 46 {
        Color::Cyan
    } else if code == 37 || code == 47 {
        Color::Gray
    } else if code == 90 || code == 100 {
        Color::DarkGray
    } else if code == 91 || code == 101 {
        Color::LightRed
    } else if code == 92 || code == 102 {
        Color::LightGreen
    } else if code == 93 || code == 103 {
        Color::LightYellow
    } else if code == 94 || code == 104 {
        Color::LightBlue
    } else if code == 95 || code == 105 {
        Color::LightMagenta
    } else if code == 96 || code == 106 {
        Color::LightCyan
    } else if code == 97 || code == 107 {
        Color::White
    } else {
        Color::Reset
    }
}

/// The palette color of an SGR color code.
pub fn sgr_to_color(code: u8) -> (c: Color)
    ensures
        c == code_color(code),
{
    if code == 30 || code == 40 {
        Color::Black
    } else if code == 31 || code == 41 {
        Color::Red
    } else if code == 32 || code == 42 {
        Color::Green
    } else if code == 33 || code == 43 {
        Color::Yellow
    } else if code == 34 || code == 44 {
        Color::Blue
    } else if code == 35 || code == 45 {
        Color::Magenta
    } else if code == 36 || code == 46 {
        Color::Cyan
    } else if code == 37 || code == 47 {
        Color::Gray
    } else if code == 90 || code == 100 {
        Color::DarkGray
    } else if code == 91 || code == 101 {
        Color::LightRed
    } else if code == 92 || code == 102 {
        Color::LightGreen
    } else if code == 93 || code == 103 {
        Color::LightYellow
    } else if code == 94 || code == 104 {
        Color::LightBlue
    } else if code == 95 || code == 105 {
        Color::LightMagenta
    } else if code == 96 || code == 106 {
        Color::LightCyan
    } else if code == 97 || code == 107 {
        Color::White
    } else {
        Color::Reset
    }
}

/// One SGR parameter (at index `i`) applied to `st`, and how many following
/// parameters it consumed (2 for `38;5;n`/`48;5;n`, 4 for `38;2;r;g;b`/
/// `48;2;r;g;b`, otherwise 0). Unknown codes change nothing.
pub open spec fn sgr_one(st: VStyle, nums: Seq<i64>, i: int) -> (VStyle, int) {
    let n = nums[i];
    if n == 0 {
        (plain_vstyle(), 0)
    } else if n == 1 {
        (VStyle { bold: true, ..st }, 0)
    } else if n == 2 {
        (VStyle { dim: true, ..st }, 0)
    } else if n == 3 {
        (VStyle { italic: true, ..st }, 0)
    } else if n == 4 {
        (VStyle { underline: true, ..st }, 0)
    } else if n == 22 {
        (VStyle { bold: false, dim: false, ..st }, 0)
    } else if n == 23 {
        (VStyle { italic: false, ..st }, 0)
    } else if n == 24 {
        (VStyle { underline: false, ..st }, 0)
    } else if (30 <= n <= 37) || (90 <= n <= 97) {
        (VStyle { fg: Some(code_color(n as u8)), ..st }, 0)
    } else if n == 38 && i + 2 < nums.len() && nums[i + 1] == 5 {
        (VStyle { fg: Some(Color::Indexed(nums[i + 2] as u8)), ..st }, 2)
    } else if n == 38 && i + 4 < nums.len() && nums[i + 1] == 2 {
        (
            VStyle {
                fg: Some(Color::Rgb(nums[i + 2] as u8, nums[i + 3] as u8, nums[i + 4] as u8)),
                ..st
            },
            4,
        )
    } else if n == 39 {
        (VStyle { fg: None, ..st }, 0)
    } else if (40 <= n <= 47) || (100 <= n <= 107) {
        (VStyle { bg: Some(code_color(n as u8)), ..st }, 0)
    } else if n == 48 && i + 2 < nums.len() && nums[i + 1] == 5 {
        (VStyle { bg: Some(Color::Indexed(nums[i + 2] as u8)), ..st }, 2)
    } else if n == 48 && i + 4 < nums.len() && nums[i + 1] == 2 {
        (
            VStyle {
                bg: Some(Color::Rgb(nums[i + 2] as u8, nums[i + 3] as u8, nums[i + 4] as u8)),
                ..st
            },
            4,
        )
    } else if n == 49 {
        (VStyle { bg: None, ..st }, 0)
    } else {
        (st, 0)
    }
}

/// The SGR parameters from index `i` on, applied left to right.
pub open spec fn sgr_from(st: VStyle, nums: Seq<i64>, i: int) -> VStyle
    decreases nums.len() - i,
{
    if i < 0 || i >= nums.len() {
        st
    } else {
        let (st2, skip) = sgr_one(st, nums, i);
        sgr_from(st2, nums, i + 1 + skip)
    }
}

/// An SGR sequence applied to `st`: no parameters at all resets.
pub open spec fn apply_sgr(st: VStyle, nums: Seq<i64>) -> VStyle {
    if nums.len() == 0 {
        plain_vstyle()
    } else {
        sgr_from(st, nums, 0)
    }
}

/// Every cell of every row reset to blank; row lengths kept.
pub open spec fn cleared(grid: Seq<Seq<VCell>>) -> Seq<Seq<VCell>> {
    grid.map_values(|r: Seq<VCell>| Seq::new(r.len(), |i: int| blank_cell()))
}

/// A CSI sequence with final byte `f` and numeric parameters `nums` applied
/// to `m`; `None` when a downward or rightward move overflows the `u16`
/// cursor.
pub open spec fn csi_apply(m: VtModel, f: char, nums: Seq<i64>) -> Option<VtModel> {
    if f == 'A' {
        let n = param_or(nums, 0, 1) as u16;
        Some(VtModel { cy: if m.cy >= n { (m.cy - n) as u16 } else { 0 }, ..m })
    } else if f == 'B' {
        let n = param_or(nums, 0, 1) as u16;
        if m.cy + n > u16::MAX {
            None
        } else {
            let y = (m.cy + n) as u16;
            Some(with_row(VtModel { cy: y, ..m }, y))
        }
    } else if f == 'C' {
        let n = param_or(nums, 0, 1) as u16;
        if m.cx + n > u16::MAX {
            None
        } else {
            Some(VtModel { cx: (m.cx + n) as u16, ..m })
        }
    } else if f == 'D' {
        let n = param_or(nums, 0, 1) as u16;
        Some(VtModel { cx: if m.cx >= n { (m.cx - n) as u16 } else { 0 }, ..m })
    } else if f == 'G' {
        Some(VtModel { cx: minus_one(param_or(nums, 0, 1)) as u16, ..m })
    } else if f == 'H' || f == 'f' {
        let y = minus_one(param_or(nums, 0, 1)) as u16;
        let x = minus_one(param_or(nums, 1, 1)) as u16;
        Some(with_row(VtModel { cy: y, cx: x, ..m }, y))
    } else if f == 'J' {
        if param_or(nums, 0, 0) >= 2 {
            Some(VtModel { grid: cleared(m.grid), cx: 0, cy: 0, ..m })
        } else {
            Some(m)
        }
    } else if f == 'K' {
        if m.cy < m.grid.len() {
            let row = m.grid[m.cy as int];
            Some(
                VtModel {
                    grid: m.grid.update(m.cy as int, Seq::new(row.len(), |i: int| blank_cell())),
                    ..m
                },
            )
        } else {
            Some(m)
        }
    } else if f == 'm' {
        Some(VtModel { style: apply_sgr(m.style, nums), ..m })
    } else {
        Some(m)
    }
}

/// One element of the input at `i` (a character, or a whole escape
/// sequence) applied to `m`: the new state (`None` on cursor overflow) and
/// the index just past what was consumed.
pub open spec fn step(m: VtModel, s: Seq<char>, i: int) -> (Option<VtModel>, int) {
    let c = s[i];
    if c == '\x1b' {
        if i + 1 >= s.len() {
            (Some(m), i + 1)
        } else if s[i + 1] == '[' {
            let j = final_index(s, i + 2);
            if j < s.len() {
                (csi_apply(m, s[j], csi_nums(s.subrange(i + 2, j))), j + 1)
            } else {
                (Some(m), j)
            }
        } else if s[i + 1] == ']' || s[i + 1] == '_' {
            (Some(m), string_seq_end(s, i + 2))
        } else {
            (Some(m), i + 2)
        }
    } else if c == '\r' {
        (Some(VtModel { cx: 0, ..m }), i + 1)
    } else if c == '\n' {
        (Some(line_feed(m)), i + 1)
    } else {
        (Some(put_char(m, c)), i + 1)
    }
}

pub proof fn lemma_final_index_bounds(s: Seq<char>, i: int)
    requires
        0 <= i,
    ensures
        final_index(s, i) <= s.len() || final_index(s, i) == i,
        final_index(s, i) >= i || final_index(s, i) == s.len(),
        i <= s.len() ==> i <= final_index(s, i) <= s.len(),
        final_index(s, i) < s.len() ==> is_final_byte(s[final_index(s, i)]),
    decreases s.len() - i,
{
    if i < s.len() && !is_final_byte(s[i]) {
        lemma_final_index_bounds(s, i + 1);
    }
}

proof fn lemma_string_seq_end_bounds(s: Seq<char>, i: int)
    requires
        0 <= i <= s.len(),
    ensures
        i <= string_seq_end(s, i) <= s.len(),
    decreases s.len() - i,
{
    if i < s.len() && s[i] != '\x07' && s[i] != '\x1b' {
        lemma_string_seq_end_bounds(s, i + 1);
    }
}

/// The end of an escape sequence that starts at `i` lies past `i + 1` and
/// within the input.
pub proof fn lemma_escape_end(s: Seq<char>, i: int)
    requires
        0 <= i,
        i + 1 < s.len(),
    ensures
        i + 2 <= final_index(s, i + 2) <= s.len(),
        i + 2 <= string_seq_end(s, i + 2) <= s.len(),
        final_index(s, i + 2) < s.len() ==> is_final_byte(s[final_index(s, i + 2)]),
{
    lemma_final_index_bounds(s, i + 2);
    lemma_string_seq_end_bounds(s, i + 2);
}

/// Every step consumes at least one character and stays within the input.
pub proof fn lemma_step_progress(m: VtModel, s: Seq<char>, i: int)
    requires
        0 <= i < s.len(),
    ensures
        i < step(m, s, i).1 <= s.len(),
{
    if i + 2 <= s.len() {
        lemma_final_index_bounds(s, i + 2);
        lemma_string_seq_end_bounds(s, i + 2);
    }
}

/// The input from index `i` on fed to `m`; `None` if a cursor move
/// overflows along the way.
pub open spec fn feed_from(m: VtModel, s: Seq<char>, i: int) -> Option<VtModel>
    decreases s.len() - i,
{
    if i < 0 || i >= s.len() {
        Some(m)
    } else {
        let (r, j) = step(m, s, i);
        proof {
            lemma_step_progress(m, s, i);
        }
        if j <= i {
            None
        } else {
            match r {
                Some(m2) => feed_from(m2, s, j),
                None => None,
            }
        }
    }
}

/// A virtual terminal: a grid that parses an ANSI stream.
pub struct VirtualTerminal {
    pub width: u16,
    pub height: u16,
    /// Row-major grid: `grid[y][x]`. Grows downward as content arrives.
    pub grid: Vec<Vec<VCell>>,
    cursor_x: u16,
    cursor_y: u16,
    current_style: VStyle,
}

impl View for VirtualTerminal {
    type V = VtModel;

    closed spec fn view(&self) -> VtModel {
        VtModel {
            width: self.width,
            height: self.height,
            grid: self.grid@.map_values(|r: Vec<VCell>| r@),
            cx: self.cursor_x,
            cy: self.cursor_y,
            style: self.current_style,
        }
    }
}

/// The views of the rows of a grid.
pub open spec fn rows_view(g: Seq<Vec<VCell>>) -> Seq<Seq<VCell>> {
    g.map_values(|r: Vec<VCell>| r@)
}

proof fn lemma_rows_update(g: Seq<Vec<VCell>>, i: int, r: Vec<VCell>)
    requires
        0 <= i < g.len(),
    ensures
        rows_view(g.update(i, r)) == rows_view(g).update(i, r@),
{
    assert(rows_view(g.update(i, r)) =~= rows_view(g).update(i, r@));
}

proof fn lemma_rows_push(g: Seq<Vec<VCell>>, r: Vec<VCell>)
    ensures
        rows_view(g.push(r)) == rows_view(g).push(r@),
{
    assert(rows_view(g.push(r)) =~= rows_view(g).push(r@));
}

/// A fresh row of `width` blank cells.
fn new_blank_row(width: u16) -> (r: Vec<VCell>)
    ensures
        r@ == blank_row(width),
{
    let mut r: Vec<VCell> = Vec::new();
    let mut i: u16 = 0;
    while i < width
        invariant
            i <= width,
            r@ == Seq::new(i as nat, |k: int| blank_cell()),
        decreases width - i,
    {
        r.push(VCell::default());
        assert(r@ =~= Seq::new((i + 1) as nat, |k: int| blank_cell()));
        i = i + 1;
    }
    r
}

/// `row` with every cell blank.
fn blank_like(row: &Vec<VCell>) -> (r: Vec<VCell>)
    ensures
        r@ == Seq::new(row@.len(), |i: int| blank_cell()),
{
    let mut r: Vec<VCell> = Vec::new();
    let mut i: usize = 0;
    while i < row.len()
        invariant
            i <= row@.len(),
            r@ == Seq::new(i as nat, |k: int| blank_cell()),
        decreases row@.len() - i,
    {
        r.push(VCell::default());
        assert(r@ =~= Seq::new((i + 1) as nat, |k: int| blank_cell()));
        i = i + 1;
    }
    r
}

/// The first parameter at index `k`, or `d`.
fn param_at(nums: &Vec<i64>, k: usize, d: i64) -> (r: i64)
    ensures
        r == param_or(nums@, k as int, d),
{
    if k < nums.len() {
        nums[k]
    } else {
        d
    }
}

fn minus_one_exec(n: i64) -> (r: i64)
    ensures
        r == minus_one(n),
{
    if n > i64::MIN {
        n - 1
    } else {
        n
    }
}

/// One SGR parameter applied; returns the new style and how many following
/// parameters it consumed.
fn sgr_one_exec(st: VStyle, nums: &Vec<i64>, i: usize) -> (r: (VStyle, usize))
    requires
        i < nums@.len(),
    ensures
        (r.0, r.1 as int) == sgr_one(st, nums@, i as int),
{
    let n = nums[i];
    let len = nums.len();
    if n == 0 {
        (VStyle::default(), 0)
    } else if n == 1 {
        (VStyle { bold: true, ..st }, 0)
    } else if n == 2 {
        (VStyle { dim: true, ..st }, 0)
    } else if n == 3 {
        (VStyle { italic: true, ..st }, 0)
    } else if n == 4 {
        (VStyle { underline: true, ..st }, 0)
    } else if n == 22 {
        (VStyle { bold: false, dim: false, ..st }, 0)
    } else if n == 23 {
        (VStyle { italic: false, ..st }, 0)
    } else if n == 24 {
        (VStyle { underline: false, ..st }, 0)
    } else if (30 <= n && n <= 37) || (90 <= n && n <= 97) {
        (VStyle { fg: Some(sgr_to_color(n as u8)), ..st }, 0)
    } else if n == 38 && len - i > 2 && nums[i + 1] == 5 {
        (VStyle { fg: Some(Color::Indexed(nums[i + 2] as u8)), ..st }, 2)
    } else if n == 38 && len - i > 4 && nums[i + 1] == 2 {
        (
            VStyle {
                fg: Some(Color::Rgb(nums[i + 2] as u8, nums[i + 3] as u8, nums[i + 4] as u8)),
                ..st
            },
            4,
        )
    } else if n == 39 {
        (VStyle { fg: None, ..st }, 0)
    } else if (40 <= n && n <= 47) || (100 <= n && n <= 107) {
        (VStyle { bg: Some(sgr_to_color(n as u8)), ..st }, 0)
    } else if n == 48 && len - i > 2 && nums[i + 1] == 5 {
        (VStyle { bg: Some(Color::Indexed(nums[i + 2] as u8)), ..st }, 2)
    } else if n == 48 && len - i > 4 && nums[i + 1] == 2 {
        (
            VStyle {
                bg: Some(Color::Rgb(nums[i + 2] as u8, nums[i + 3] as u8, nums[i + 4] as u8)),
                ..st
            },
            4,
        )
    } else if n == 49 {
        (VStyle { bg: None, ..st }, 0)
    } else {
        (st, 0)
    }
}

/// An SGR parameter list applied to a style.
fn apply_sgr_exec(st: VStyle, nums: &Vec<i64>) -> (r: VStyle)
    ensures
        r == apply_sgr(st, nums@),
{
    if nums.len() == 0 {
        return VStyle::default();
    }
    let mut cur = st;
    let mut i: usize = 0;
    while i < nums.len()
        invariant
            0 <= i,
            sgr_from(cur, nums@, i as int) == sgr_from(st, nums@, 0),
        decreases nums@.len() - i,
    {
        let (st2, skip) = sgr_one_exec(cur, nums, i);
        assert(sgr_from(cur, nums@, i as int) == sgr_from(st2, nums@, i + 1 + skip));
        if skip >= nums.len() - i {
            assert(sgr_from(st2, nums@, i + 1 + skip) == st2);
            return st2;
        }
        cur = st2;
        i = i + 1 + skip;
    }
    cur
}

impl VirtualTerminal {
    /// A `width` x `height` grid of blank cells, cursor at the origin.
    pub fn new(width: u16, height: u16) -> (r: Self)
        ensures
            r@ == fresh_vt(width, height),
    {
        let mut grid: Vec<Vec<VCell>> = Vec::new();
        let mut i: u16 = 0;
        while i < height
            invariant
                i <= height,
                rows_view(grid@) == Seq::new(i as nat, |k: int| blank_row(width)),
            decreases height - i,
        {
            let ghost g0 = grid@;
            let row = new_blank_row(width);
            grid.push(row);
            proof {
                lemma_rows_push(g0, row);
            }
            assert(rows_view(grid@) =~= Seq::new((i + 1) as nat, |k: int| blank_row(width)));
            i = i + 1;
        }
        let r = VirtualTerminal {
            width,
            height,
            grid,
            cursor_x: 0,
            cursor_y: 0,
            current_style: VStyle::default(),
        };
        assert(r@.grid == rows_view(grid@));
        r
    }

    fn ensure_row(&mut self, y: u16)
        ensures
            final(self)@ == with_row(old(self)@, y),
            final(self).width == old(self).width,
            final(self).height == old(self).height,
    {
        let ghost target = with_row(old(self)@, y);
        let ghost n0 = self.grid@.len();
        while self.grid.len() <= y as usize
            invariant
                self.width == old(self).width,
                self.height == old(self).height,
                self.cursor_x == old(self).cursor_x,
                self.cursor_y == old(self).cursor_y,
                self.current_style == old(self).current_style,
                n0 == old(self).grid@.len(),
                n0 <= self.grid@.len(),
                self.grid@.len() <= n0 || self.grid@.len() <= y + 1,
                rows_view(self.grid@) == old(self)@.grid + Seq::new(
                    (self.grid@.len() - n0) as nat,
                    |i: int| blank_row(old(self).width),
                ),
            decreases y + 1 - self.grid@.len(),
        {
            let row = new_blank_row(self.width);
            let ghost g0 = self.grid@;
            self.grid.push(row);
            proof {
                lemma_rows_push(g0, row);
            }
            assert(rows_view(self.grid@) =~= old(self)@.grid + Seq::new(
                (self.grid@.len() - n0) as nat,
                |i: int| blank_row(old(self).width),
            ));
        }
        assert(self@ =~= target);
    }

    fn put_char(&mut self, ch: char)
        ensures
            final(self)@ == put_char(old(self)@, ch),
            final(self).width == old(self).width,
            final(self).height == old(self).height,
    {
        let x = self.cursor_x as usize;
        let y = self.cursor_y as usize;
        self.ensure_row(self.cursor_y);
        let ghost g = self@;
        if y < self.grid.len() && x < self.grid[y].len() {
            let cell = VCell { ch, style: self.current_style };
            let ghost g0 = self.grid@;
            self.grid[y][x] = cell;
            proof {
                lemma_rows_update(g0, y as int, self.grid@[y as int]);
                assert(self.grid@ == g0.update(y as int, self.grid@[y as int]));
            }
            assert(rows_view(self.grid@) =~= g.grid.update(
                y as int,
                g.grid[y as int].update(x as int, cell),
            ));
        }
        self.cursor_x = self.cursor_x.saturating_add(1);
        proof {
            let m = old(self)@;
            let gg = with_row(m, m.cy);
            assert(gg == g);
            assert(self@.grid =~= put_char(m, ch).grid);
        }
        assert(self@ =~= put_char(old(self)@, ch));
    }

    fn clear_all(&mut self)
        ensures
            final(self)@ == (VtModel { grid: cleared(old(self)@.grid), ..old(self)@ }),
            final(self).width == old(self).width,
            final(self).height == old(self).height,
    {
        let mut y: usize = 0;
        while y < self.grid.len()
            invariant
                self.width == old(self).width,
                self.height == old(self).height,
                self.cursor_x == old(self).cursor_x,
                self.cursor_y == old(self).cursor_y,
                self.current_style == old(self).current_style,
                self.grid@.len() == old(self).grid@.len(),
                0 <= y <= self.grid@.len(),
                forall|k: int|
                    0 <= k < y ==> #[trigger] rows_view(self.grid@)[k] == cleared(
                        old(self)@.grid,
                    )[k],
                forall|k: int|
                    y <= k < self.grid@.len() ==> #[trigger] rows_view(self.grid@)[k] == old(
                        self,
                    )@.grid[k],
            decreases self.grid@.len() - y,
        {
            let blank = blank_like(&self.grid[y]);
            let ghost g0 = self.grid@;
            self.grid[y] = blank;
            proof {
                lemma_rows_update(g0, y as int, blank);
                assert(rows_view(g0)[y as int] == old(self)@.grid[y as int]);
                assert(cleared(old(self)@.grid)[y as int] =~= blank@);
            }
            y = y + 1;
        }
        assert(rows_view(self.grid@) =~= cleared(old(self)@.grid));
        assert(self@ =~= VtModel { grid: cleared(old(self)@.grid), ..old(self)@ });
    }

    fn clear_row(&mut self, y: usize)
        requires
            y < old(self).grid@.len(),
        ensures
            final(self)@ == (VtModel {
                grid: old(self)@.grid.update(
                    y as int,
                    Seq::new(old(self)@.grid[y as int].len(), |i: int| blank_cell()),
                ),
                ..old(self)@
            }),
            final(self).width == old(self).width,
            final(self).height == old(self).height,
    {
        let blank = blank_like(&self.grid[y]);
        let ghost g0 = self.grid@;
        self.grid[y] = blank;
        proof {
            lemma_rows_update(g0, y as int, blank);
        }
        assert(self@ =~= VtModel {
            grid: old(self)@.grid.update(
                y as int,
                Seq::new(old(self)@.grid[y as int].len(), |i: int| blank_cell()),
            ),
            ..old(self)@
        });
    }

    /// Applies CSI final byte `f` with parameters `nums`.
    fn csi(&mut self, f: char, nums: &Vec<i64>)
        requires
            csi_apply(old(self)@, f, nums@).is_some(),
        ensures
            final(self)@ == csi_apply(old(self)@, f, nums@).unwrap(),
            final(self).width == old(self).width,
            final(self).height == old(self).height,
    {
        if f == 'A' {
            let n = param_at(nums, 0, 1) as u16;
            self.cursor_y = self.cursor_y.saturating_sub(n);
        } else if f == 'B' {
            let n = param_at(nums, 0, 1) as u16;
            self.cursor_y = self.cursor_y + n;
            self.ensure_row(self.cursor_y);
        } else if f == 'C' {
            let n = param_at(nums, 0, 1) as u16;
            self.cursor_x = self.cursor_x + n;
        } else if f == 'D' {
            let n = param_at(nums, 0, 1) as u16;
            self.cursor_x = self.cursor_x.saturating_sub(n);
        } else if f == 'G' {
            self.cursor_x = minus_one_exec(param_at(nums, 0, 1)) as u16;
        } else if f == 'H' || f == 'f' {
            self.cursor_y = minus_one_exec(param_at(nums, 0, 1)) as u16;
            self.cursor_x = minus_one_exec(param_at(nums, 1, 1)) as u16;
            self.ensure_row(self.cursor_y);
        } else if f == 'J' {
            if param_at(nums, 0, 0) >= 2 {
                self.clear_all();
                self.cursor_x = 0;
                self.cursor_y = 0;
            }
        } else if f == 'K' {
            let y = self.cursor_y as usize;
            if y < self.grid.len() {
                self.clear_row(y);
            }
        } else if f == 'm' {
            self.current_style = apply_sgr_exec(self.current_style, nums);
        }
        assert(self@ =~= csi_apply(old(self)@, f, nums@).unwrap());
    }

    /// Applies the element of `s` at `i`; returns the index just past it.
    fn step(&mut self, s: &Vec<char>, i: usize) -> (j: usize)
        requires
            i < s@.len(),
            step(old(self)@, s@, i as int).0.is_some(),
        ensures
            j as int == step(old(self)@, s@, i as int).1,
            final(self)@ == step(old(self)@, s@, i as int).0.unwrap(),
            final(self).width == old(self).width,
            final(self).height == old(self).height,
    {
        proof {
            lemma_step_progress(self@, s@, i as int);
        }
        let n = s.len();
        let c = s[i];
        if c == '\x1b' {
            if i + 1 >= s.len() {
                i + 1
            } else if s[i + 1] == '[' {
                let j = find_final(s, i + 2);
                proof {
                    lemma_final_index_bounds(s@, i + 2);
                }
                if j < s.len() {
                    let nums = parse_csi_nums(s, i + 2, j);
                    self.csi(s[j], &nums);
                    j + 1
                } else {
                    j
                }
            } else if s[i + 1] == ']' || s[i + 1] == '_' {
                skip_string_seq(s, i + 2)
            } else {
                i + 2
            }
        } else if c == '\r' {
            self.cursor_x = 0;
            assert(self@ =~= VtModel { cx: 0, ..old(self)@ });
            i + 1
        } else if c == '\n' {
            self.cursor_y = self.cursor_y.saturating_add(1);
            self.cursor_x = 0;
            self.ensure_row(self.cursor_y);
            assert(self@ =~= line_feed(old(self)@));
            i + 1
        } else {
            self.put_char(c);
            i + 1
        }
    }

    /// Feeds an ANSI stream: SGR, cursor moves (A/B/C/D/G/H/f), line clear
    /// (K), screen clear (2J/3J), CR, LF; OSC and APC payloads are skipped.
    ///
    /// The cursor is a `u16`: a downward or rightward CSI move past
    /// `u16::MAX` is an arithmetic overflow, excluded by the precondition.
    pub fn feed(&mut self, input: &str)
        requires
            feed_from(old(self)@, input@, 0).is_some(),
        ensures
            final(self)@ == feed_from(old(self)@, input@, 0).unwrap(),
    {
        let s = chars_of(input);
        let mut i: usize = 0;
        while i < s.len()
            invariant
                s@ == input@,
                i <= s@.len(),
                feed_from(self@, s@, i as int) == feed_from(old(self)@, s@, 0),
                feed_from(old(self)@, s@, 0).is_some(),
                self.width == old(self).width,
                self.height == old(self).height,
            decreases s@.len() - i,
        {
            proof {
                lemma_step_progress(self@, s@, i as int);
            }
            i = self.step(&s, i);
        }
    }

    /// Plain text of row `y`: its characters up to the first never-written
    /// cell, without trailing white space; empty for a row that does not
    /// exist.
    pub fn row_text(&self, y: usize) -> (t: String)
        ensures
            t@ == (if y < self@.grid.len() {
                trim_end(written_prefix(self@.grid[y as int]))
            } else {
                Seq::<char>::empty()
            }),
    {
        if y >= self.grid.len() {
            return String::new();
        }
        let row = &self.grid[y];
        assert(row@.subrange(0, row@.len() as int) == row@);
        let mut v: Vec<char> = Vec::new();
        let mut i: usize = 0;
        while i < row.len() && row[i].ch != '\0'
            invariant
                i <= row@.len(),
                written_prefix(row@) == v@ + written_prefix(row@.subrange(i as int, row@.len() as int)),
            decreases row@.len() - i,
        {
            v.push(row[i].ch);
            assert(row@.subrange(i as int, row@.len() as int).drop_first() == row@.subrange(
                i + 1,
                row@.len() as int,
            ));
            i = i + 1;
        }
        assert(written_prefix(row@.subrange(i as int, row@.len() as int)) == Seq::<char>::empty());
        assert(v@ == written_prefix(row@));
        let j = skip_white_back(&v, 0, v.len());
        assert(v@.subrange(0, v@.len() as int) == v@);
        let mut out: Vec<char> = Vec::new();
        let mut k: usize = 0;
        while k < j
            invariant
                k <= j <= v@.len(),
                out@ == v@.subrange(0, k as int),
            decreases j - k,
        {
            out.push(v[k]);
            assert(v@.subrange(0, k + 1) == v@.subrange(0, k as int).push(v@[k as int]));
            k = k + 1;
        }
        string_of(&out)
    }

    /// The cell at `(x, y)`, or a blank cell when out of bounds.
    pub fn cell_at(&self, x: usize, y: usize) -> (c: VCell)
        ensures
            c == (if y < self@.grid.len() && x < self@.grid[y as int].len() {
                self@.grid[y as int][x as int]
            } else {
                blank_cell()
            }),
    {
        if y < self.grid.len() && x < self.grid[y].len() {
            self.grid[y][x]
        } else {
            VCell::default()
        }
    }

    /// The cursor position `(x, y)`.
    pub fn cursor(&self) -> (p: (u16, u16))
        ensures
            p == (self@.cx, self@.cy),
    {
        (self.cursor_x, self.cursor_y)
    }

    /// The first row whose text contains `needle`, if any.
    pub fn find_row_containing(&self, needle: &str) -> (r: Option<usize>)
        ensures
            match r {
                Some(y) => y < self@.grid.len() && contains(row_text_of(self@, y as int), needle@)
                    && forall|k: int|
                    0 <= k < y ==> !contains(#[trigger] row_text_of(self@, k), needle@),
                None => forall|k: int|
                    0 <= k < self@.grid.len() ==> !contains(#[trigger] row_text_of(self@, k), needle@),
            },
    {
        let nv = chars_of(needle);
        let mut y: usize = 0;
        while y < self.grid.len()
            invariant
                nv@ == needle@,
                y <= self@.grid.len(),
                forall|k: int| 0 <= k < y ==> !contains(#[trigger] row_text_of(self@, k), needle@),
            decreases self@.grid.len() - y,
        {
            let t = self.row_text(y);
            let tv = chars_of(t.as_str());
            if contains_at_some(&tv, &nv) {
                return Some(y);
            }
            y = y + 1;
        }
        None
    }
}

/// The characters of a row up to its first never-written cell.
pub open spec fn written_prefix(row: Seq<VCell>) -> Seq<char>
    decreases row.len(),
{
    if row.len() == 0 || row[0].ch == '\0' {
        seq![]
    } else {
        seq![row[0].ch] + written_prefix(row.drop_first())
    }
}

/// The text of row `y` of a model (see [`VirtualTerminal::row_text`]).
pub open spec fn row_text_of(m: VtModel, y: int) -> Seq<char> {
    trim_end(written_prefix(m.grid[y]))
}

/// Whether `needle` occurs in `hay` as a contiguous run.
pub open spec fn contains(hay: Seq<char>, needle: Seq<char>) -> bool {
    exists|k: int| 0 <= k && k + needle.len() <= hay.len() && #[trigger] hay.subrange(k, k + needle.len()) == needle
}

/// Whether `needle` occurs in `hay`.
#[verifier::loop_isolation(false)]
fn contains_at_some(hay: &Vec<char>, needle: &Vec<char>) -> (b: bool)
    ensures
        b == contains(hay@, needle@),
{
    if needle.len() > hay.len() {
        return false;
    }
    let mut k: usize = 0;
    while k <= hay.len() - needle.len()
        invariant
            needle@.len() <= hay@.len(),
            forall|q: int| 0 <= q < k ==> #[trigger] hay@.subrange(q, q + needle@.len()) != needle@,
        decreases hay@.len() - k,
    {
        let mut m: usize = 0;
        while m < needle.len()
            invariant
                k <= hay@.len() - needle@.len(),
                needle@.len() <= hay@.len(),
                m <= needle@.len(),
                forall|q: int| 0 <= q < m ==> hay@[k + q] == needle@[q],
            decreases needle@.len() - m,
        {
            assert(k + m < hay@.len());
            let idx = k + m;
            if hay[idx] != needle[m] {
                break;
            }
            m = m + 1;
        }
        if m == needle.len() {
            assert(hay@.subrange(k as int, k + needle@.len()) =~= needle@);
            return true;
        }
        assert(hay@.subrange(k as int, k + needle@.len())[m as int] != needle@[m as int]);
        k = k + 1;
    }
    false
}

/// Index of the first final byte at or after `i`, or `s.len()`.
pub fn find_final(s: &Vec<char>, i: usize) -> (j: usize)
    requires
        i <= s@.len(),
    ensures
        j as int == final_index(s@, i as int),
{
    let mut j = i;
    while j < s.len() && !('\u{40}' <= s[j] && s[j] <= '\u{7e}')
        invariant
            i <= j <= s@.len(),
            final_index(s@, j as int) == final_index(s@, i as int),
        decreases s@.len() - j,
    {
        j = j + 1;
    }
    j
}

/// Index just past the string sequence starting at `i`.
pub fn skip_string_seq(s: &Vec<char>, i: usize) -> (j: usize)
    requires
        i <= s@.len(),
    ensures
        j as int == string_seq_end(s@, i as int),
{
    let mut j = i;
    while j < s.len()
        invariant
            i <= j <= s@.len(),
            string_seq_end(s@, j as int) == string_seq_end(s@, i as int),
        decreases s@.len() - j,
    {
        if s[j] == '\x07' {
            return j + 1;
        }
        if s[j] == '\x1b' {
            if j + 1 < s.len() && s[j + 1] == '\\' {
                return j + 2;
            }
            return j + 1;
        }
        j = j + 1;
    }
    j
}

/// Printable text: no escape, carriage return, line feed or NUL.
pub open spec fn printable(t: Seq<char>) -> bool {
    forall|i: int|
        0 <= i < t.len() ==> #[trigger] t[i] != '\x1b' && t[i] != '\r' && t[i] != '\n' && t[i] != '\0'
}

/// Row `y` of `mm` holds `t[..i]` from its start, then never-written
/// cells; the cursor stands just after the text.
pub open spec fn text_written(m: VtModel, mm: VtModel, t: Seq<char>, i: int) -> bool {
    &&& mm.width == m.width
    &&& mm.cx == i
    &&& mm.cy == m.cy
    &&& mm.grid.len() == m.grid.len()
    &&& mm.grid[m.cy as int].len() == m.width
    &&& forall|j: int| 0 <= j < i ==> (#[trigger] mm.grid[m.cy as int][j]).ch == t[j]
    &&& forall|j: int| i <= j < m.width ==> (#[trigger] mm.grid[m.cy as int][j]).ch == '\0'
}

pub proof fn lemma_row_update(row: Seq<VCell>, i: int, cell: VCell)
    requires
        0 <= i < row.len(),
    ensures
        row.update(i, cell).len() == row.len(),
        forall|j: int| 0 <= j < row.len() ==> #[trigger] row.update(i, cell)[j] == if j == i {
            cell
        } else {
            row[j]
        },
{
}

/// Writing a character inside an existing row updates that one cell and
/// moves the cursor right.
pub proof fn lemma_put_char_in_row(mm: VtModel, c: char)
    requires
        mm.cy < mm.grid.len(),
        mm.cx < mm.grid[mm.cy as int].len(),
    ensures
        put_char(mm, c).grid == mm.grid.update(
            mm.cy as int,
            mm.grid[mm.cy as int].update(mm.cx as int, VCell { ch: c, style: mm.style }),
        ),
        put_char(mm, c).cy == mm.cy,
        put_char(mm, c).grid.len() == mm.grid.len(),
        put_char(mm, c).grid[mm.cy as int] == mm.grid[mm.cy as int].update(mm.cx as int, VCell { ch: c, style: mm.style }),
        put_char(mm, c).width == mm.width,
        put_char(mm, c).cx == (if mm.cx < u16::MAX {
            (mm.cx + 1) as u16
        } else {
            mm.cx
        }),
{
    assert(with_row(mm, mm.cy) == mm);
}

proof fn lemma_feed_text(m: VtModel, mm: VtModel, t: Seq<char>, i: int)
    requires
        m.cy < m.grid.len(),
        t.len() <= m.width,
        printable(t),
        0 <= i <= t.len(),
        text_written(m, mm, t, i),
    ensures
        feed_from(mm, t, i) matches Some(m2) && text_written(m, m2, t, t.len() as int),
    decreases t.len() - i,
{
    if i < t.len() {
        let c = t[i];
        assert(c != '\x1b' && c != '\r' && c != '\n');
        lemma_put_char_in_row(mm, c);
        let m1 = put_char(mm, c);
        assert(step(mm, t, i) == (Some(m1), i + 1));
        let row = mm.grid[m.cy as int];
        let row1 = m1.grid[m.cy as int];
        let cell = VCell { ch: c, style: mm.style };
        lemma_row_update(row, i, cell);
        assert forall|j: int| 0 <= j < i + 1 implies (#[trigger] m1.grid[m.cy as int][j]).ch == t[j] by {
            if j < i {
                assert(row1[j] == row[j]);
            }
        }
        assert forall|j: int| i + 1 <= j < m.width implies (#[trigger] m1.grid[m.cy as int][j]).ch == '\0' by {
            assert(row1[j] == row[j]);
        }
        assert(text_written(m, m1, t, i + 1));
        lemma_feed_text(m, m1, t, i + 1);
    }
}

/// The written prefix of a row holding `t` then a never-written cell (or
/// nothing) is `t`.
pub proof fn lemma_written_prefix_is(row: Seq<VCell>, t: Seq<char>)
    requires
        t.len() <= row.len(),
        forall|j: int| 0 <= j < t.len() ==> (#[trigger] row[j]).ch == t[j] && t[j] != '\0',
        t.len() == row.len() || row[t.len() as int].ch == '\0',
    ensures
        written_prefix(row) == t,
    decreases t.len(),
{
    if t.len() == 0 {
        if row.len() > 0 {
            assert(row[0].ch == '\0');
        }
    } else {
        assert(row[0].ch == t[0]);
        assert forall|j: int| 0 <= j < t.drop_first().len() implies (#[trigger] row.drop_first()[j]).ch
            == t.drop_first()[j] && t.drop_first()[j] != '\0' by {
            assert(row.drop_first()[j] == row[j + 1]);
            assert(t.drop_first()[j] == t[j + 1]);
        }
        if t.len() < row.len() {
            assert(row.drop_first()[t.drop_first().len() as int] == row[t.len() as int]);
        }
        lemma_written_prefix_is(row.drop_first(), t.drop_first());
        assert(t =~= seq![t[0]] + t.drop_first());
    }
}

/// The grid shows what was written: printable text that fits the row, fed
/// with the cursor at the start of a blank row, reads back as that text
/// (without trailing white space), and the cursor ends just after it.
pub proof fn law_vt_reads_back_text(m: VtModel, t: Seq<char>)
    requires
        m.cx == 0,
        m.cy < m.grid.len(),
        m.grid[m.cy as int] == blank_row(m.width),
        t.len() <= m.width,
        printable(t),
    ensures
        feed_from(m, t, 0) matches Some(m2) && row_text_of(m2, m.cy as int) == trim_end(t) && m2.cx
            == t.len() && m2.cy == m.cy,
{
    assert(text_written(m, m, t, 0));
    lemma_feed_text(m, m, t, 0);
    let m2 = feed_from(m, t, 0).unwrap();
    let row = m2.grid[m.cy as int];
    lemma_written_prefix_is(row, t);
}

} // verus!
