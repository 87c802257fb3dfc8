//! Every frame keeps the screen: a virtual terminal fed the renderer's
//! writes, frame after frame, shows the last frame's lines.

use vstd::prelude::*;
use crate::csi::{is_digit, lemma_csi_nums_decimal, lemma_csi_nums_empty, lemma_decimal_digits};
use crate::text::decimal;
use crate::render::{
    RenderModel,
    move_rows,
    csi_n,
    repeat,
    rewrite_rows,
    line_at,
    scroll_step,
    shrink_step,
    sat_sub,
    differs,
    first_in,
    last_in,
    changed_range,
    span_len,
    diff_normal,
    max_us,
    full_render,
    join_crlf,
    RedrawReason,
    diff_deletions,
    diff_render,
    strategy,
    frame,
    fresh_model,
    requested,
    processed,
    padded,
    cursor_writes,
    serialize_line,
    lemma_processed_len,
};
use crate::style::{LineView, line_width};
use crate::text::trim_end;
use crate::marker::{shown_text, lemma_line_of_serialized, lemma_processed_fitting};
use crate::csi::csi_nums;
use crate::style::StyledLine;
use crate::virtual_terminal::{fresh_vt, row_text_of, plain_vstyle, sgr_from};
use crate::virtual_terminal::{
    VtModel,
    VCell,
    feed_from,
    csi_apply,
    param_or,
    line_feed,
    with_row,
    blank_row,
    blank_cell,
    is_final_byte,
    written_prefix,
    printable,
    cleared,
};
use crate::replay::{
    lemma_feed_unfold,
    lemma_feed_line,
    lemma_walk,
    lemma_join_take,
    lines_shown,
    crlf_prefix,
    at,
    lemma_at_split,
    lemma_at_char,
    lemma_at_join,
    lemma_at_whole,
    lemma_feed_csi_at,
    line_of,
    lemma_line_of_len,
    lemma_line_text_unique,
};

verus! {

/// The cursor moved to row `y` (created blank if needed), same column.
pub open spec fn go_row(v: VtModel, y: u16) -> VtModel {
    with_row(VtModel { cy: y, ..v }, y)
}

pub proof fn lemma_feed_cr(v: VtModel, s: Seq<char>, p: int)
    requires
        0 <= p < s.len(),
        s[p] == '\r',
    ensures
        feed_from(v, s, p) == feed_from(VtModel { cx: 0, ..v }, s, p + 1),
{
    lemma_feed_unfold(v, s, p);
}

pub proof fn lemma_feed_lf(v: VtModel, s: Seq<char>, p: int)
    requires
        0 <= p < s.len(),
        s[p] == '\n',
    ensures
        feed_from(v, s, p) == feed_from(line_feed(v), s, p + 1),
{
    lemma_feed_unfold(v, s, p);
}

/// The cursor moved between rows by [`move_rows`].
pub proof fn lemma_feed_move(v: VtModel, s: Seq<char>, p: int, from: usize, to: usize)
    requires
        v.cy == from,
        from < v.grid.len(),
        to <= u16::MAX,
        at(s, p, move_rows(from, to)),
    ensures
        feed_from(v, s, p) == feed_from(go_row(v, to as u16), s, p + move_rows(from, to).len()),
{
    reveal_strlit("\x1b[");
    if to > from {
        let n = (to - from) as nat;
        lemma_csi_nums_decimal(n);
        assert forall|q: int| 0 <= q < decimal(n).len() implies !is_final_byte(#[trigger] decimal(n)[q]) by {
            assert(is_digit(decimal(n)[q]));
        }
        assert(param_or(seq![n as i64], 0, 1) == n);
        assert(move_rows(from, to) == "\x1b["@ + decimal(n) + seq!['B']);
        lemma_feed_csi_at(v, s, p, decimal(n), 'B');
        assert(csi_apply(v, 'B', seq![n as i64]) == Some(go_row(v, to as u16)));
        assert(move_rows(from, to).len() == decimal(n).len() + 3);
    } else if to < from {
        let n = (from - to) as nat;
        lemma_csi_nums_decimal(n);
        assert forall|q: int| 0 <= q < decimal(n).len() implies !is_final_byte(#[trigger] decimal(n)[q]) by {
            assert(is_digit(decimal(n)[q]));
        }
        assert(param_or(seq![n as i64], 0, 1) == n);
        assert(move_rows(from, to) == "\x1b["@ + decimal(n) + seq!['A']);
        lemma_feed_csi_at(v, s, p, decimal(n), 'A');
        assert(go_row(v, to as u16) == VtModel { cy: to as u16, ..v });
        assert(csi_apply(v, 'A', seq![n as i64]) == Some(go_row(v, to as u16)));
        assert(move_rows(from, to).len() == decimal(n).len() + 3);
    } else {
        assert(go_row(v, to as u16) == v);
    }
}

/// `ESC [ 2 K` clears the cursor's row.
pub proof fn lemma_feed_clear_line(v: VtModel, s: Seq<char>, p: int)
    requires
        v.cy < v.grid.len(),
        at(s, p, "\x1b[2K"@),
    ensures
        feed_from(v, s, p) == feed_from(
            VtModel {
                grid: v.grid.update(v.cy as int, Seq::new(v.grid[v.cy as int].len(), |i: int| blank_cell())),
                ..v
            },
            s,
            p + 4,
        ),
{
    reveal_strlit("\x1b[2K");
    reveal_strlit("\x1b[");
    assert("\x1b[2K"@ =~= "\x1b["@ + seq!['2'] + seq!['K']);
    lemma_feed_csi_at(v, s, p, seq!['2'], 'K');
}

/// Every row of the grid is `w` cells wide.
pub open spec fn rows_wide(v: VtModel, w: u16) -> bool {
    forall|k: int| 0 <= k < v.grid.len() ==> (#[trigger] v.grid[k]).len() == w
}

/// `u` keeps the rows of `v` outside `lo..=hi`: the same width, no fewer
/// rows, old rows unchanged and new rows blank.
pub open spec fn kept(v: VtModel, u: VtModel, lo: int, hi: int) -> bool {
    &&& u.width == v.width
    &&& v.grid.len() <= u.grid.len()
    &&& forall|j: int| 0 <= j < v.grid.len() && !(lo <= j <= hi) ==> #[trigger] u.grid[j] == v.grid[j]
    &&& forall|j: int| v.grid.len() <= j < u.grid.len() && !(lo <= j <= hi) ==> #[trigger] u.grid[j] == blank_row(v.width)
    &&& rows_wide(u, v.width)
}

pub proof fn lemma_go_row(v: VtModel, y: u16)
    requires
        rows_wide(v, v.width),
    ensures
        kept(v, go_row(v, y), 0, -1),
        go_row(v, y).cy == y,
        go_row(v, y).cx == v.cx,
        y < go_row(v, y).grid.len(),
{
    let u = go_row(v, y);
    assert forall|k: int| 0 <= k < u.grid.len() implies (#[trigger] u.grid[k]).len() == v.width by {
        if k >= v.grid.len() {
            assert(u.grid[k] == blank_row(v.width));
        }
    }
}

/// `k` carriage-return line-feed pairs: the cursor goes `k` rows down to
/// column 0, rows created blank as needed.
pub proof fn lemma_feed_newlines(v: VtModel, s: Seq<char>, p: int, k: nat) -> (u: VtModel)
    requires
        rows_wide(v, v.width),
        v.cy + k <= u16::MAX,
        at(s, p, repeat("\r\n"@, k)),
    ensures
        feed_from(v, s, p) == feed_from(u, s, p + repeat("\r\n"@, k).len()),
        kept(v, u, 0, -1),
        u.cy == v.cy + k,
        u.cy < u.grid.len() || (k == 0 && u == v),
        k > 0 ==> u.cx == 0,
    decreases k,
{
    reveal_strlit("\r\n");
    if k == 0 {
        v
    } else {
        let r = repeat("\r\n"@, (k - 1) as nat);
        lemma_at_split(s, p, r, "\r\n"@);
        let u1 = lemma_feed_newlines(v, s, p, (k - 1) as nat);
        let q = p + r.len();
        lemma_at_char(s, q, "\r\n"@, 0);
        lemma_at_char(s, q, "\r\n"@, 1);
        lemma_feed_cr(u1, s, q);
        let u2 = VtModel { cx: 0, ..u1 };
        lemma_feed_lf(u2, s, q + 1);
        let u3 = line_feed(u2);
        assert(u3 == go_row(u2, (u1.cy + 1) as u16));
        lemma_go_row(u2, (u1.cy + 1) as u16);
        assert forall|j: int| v.grid.len() <= j < u3.grid.len() implies #[trigger] u3.grid[j] == blank_row(v.width) by {
            if j < u1.grid.len() {
                assert(u3.grid[j] == u1.grid[j]);
            }
        }
        u3
    }
}

/// `k` times: down a row to column 0 and clear it. The rows below the
/// cursor, `k` of them, end blank; the cursor on the last.
pub proof fn lemma_feed_clear_rows(v: VtModel, s: Seq<char>, p: int, k: nat) -> (u: VtModel)
    requires
        rows_wide(v, v.width),
        v.cy + k <= u16::MAX,
        at(s, p, repeat("\r\n\x1b[2K"@, k)),
    ensures
        feed_from(v, s, p) == feed_from(u, s, p + repeat("\r\n\x1b[2K"@, k).len()),
        kept(v, u, v.cy + 1, v.cy + k),
        forall|j: int| v.cy + 1 <= j <= v.cy + k ==> #[trigger] u.grid[j] == blank_row(v.width),
        u.cy == v.cy + k,
        u.cy < u.grid.len() || (k == 0 && u == v),
    decreases k,
{
    reveal_strlit("\r\n\x1b[2K");
    reveal_strlit("\r\n");
    reveal_strlit("\x1b[2K");
    if k == 0 {
        v
    } else {
        let x = "\r\n\x1b[2K"@;
        assert(x =~= "\r\n"@ + "\x1b[2K"@);
        let r = repeat(x, (k - 1) as nat);
        lemma_at_split(s, p, r, x);
        let u1 = lemma_feed_clear_rows(v, s, p, (k - 1) as nat);
        let q = p + r.len();
        lemma_at_split(s, q, "\r\n"@, "\x1b[2K"@);
        lemma_at_char(s, q, "\r\n"@, 0);
        lemma_at_char(s, q, "\r\n"@, 1);
        lemma_feed_cr(u1, s, q);
        let u2 = VtModel { cx: 0, ..u1 };
        lemma_feed_lf(u2, s, q + 1);
        let y = (u1.cy + 1) as u16;
        let u3 = line_feed(u2);
        assert(u3 == go_row(u2, y));
        lemma_go_row(u2, y);
        lemma_feed_clear_line(u3, s, q + 2);
        let u4 = VtModel {
            grid: u3.grid.update(y as int, Seq::new(u3.grid[y as int].len(), |i: int| blank_cell())),
            ..u3
        };
        assert(u3.grid[y as int].len() == v.width);
        assert(u4.grid[y as int] =~= blank_row(v.width));
        assert forall|j: int| 0 <= j < u4.grid.len() implies (#[trigger] u4.grid[j]).len() == v.width by {
            if j != y {
                assert(u4.grid[j] == u3.grid[j]);
            }
        }
        assert forall|j: int| v.cy + 1 <= j <= v.cy + k implies #[trigger] u4.grid[j] == blank_row(v.width) by {
            if j != y {
                assert(u4.grid[j] == u3.grid[j]);
                assert(u3.grid[j] == u1.grid[j]);
            }
        }
        assert forall|j: int| 0 <= j < v.grid.len() && !(v.cy + 1 <= j <= v.cy + k) implies #[trigger] u4.grid[j]
            == v.grid[j] by {
            assert(u4.grid[j] == u3.grid[j]);
            assert(u3.grid[j] == u1.grid[j]);
        }
        assert forall|j: int| v.grid.len() <= j < u4.grid.len() && !(v.cy + 1 <= j <= v.cy + k) implies #[trigger] u4.grid[j]
            == blank_row(v.width) by {
            assert(u4.grid[j] == u3.grid[j]);
            if j < u1.grid.len() {
                assert(u3.grid[j] == u1.grid[j]);
            }
        }
        u4
    }
}

/// `ESC [ 2 K` then a serialized line, with the cursor at the start of an
/// existing row: that row shows the line's text.
proof fn lemma_feed_clear_and_write(v: VtModel, s: Seq<char>, p: int, line: Seq<char>, t: Seq<char>) -> (u: VtModel)
    requires
        rows_wide(v, v.width),
        v.cx == 0,
        v.cy < v.grid.len(),
        line_of(line, t),
        t.len() <= v.width,
        printable(t),
        at(s, p, "\x1b[2K"@ + line),
    ensures
        feed_from(v, s, p) == feed_from(u, s, p + ("\x1b[2K"@ + line).len()),
        kept(v, u, v.cy as int, v.cy as int),
        u.grid.len() == v.grid.len(),
        written_prefix(u.grid[v.cy as int]) == t,
        u.cy == v.cy,
{
    reveal_strlit("\x1b[2K");
    lemma_at_split(s, p, "\x1b[2K"@, line);
    lemma_feed_clear_line(v, s, p);
    let y = v.cy as int;
    let u1 = VtModel { grid: v.grid.update(y, Seq::new(v.grid[y].len(), |i: int| blank_cell())), ..v };
    assert(u1.grid[y] =~= blank_row(v.width));
    let u = lemma_feed_line(u1, v.width, t, s, p + 4, line);
    assert forall|j: int| 0 <= j < u.grid.len() implies (#[trigger] u.grid[j]).len() == v.width by {
        if j != y {
            assert(u.grid[j] == u1.grid[j]);
        }
    }
    assert forall|j: int| 0 <= j < v.grid.len() && !(y <= j <= y) implies #[trigger] u.grid[j] == v.grid[j] by {
        assert(u.grid[j] == u1.grid[j]);
    }
    u
}

/// [`rewrite_rows`] fed with the cursor at the start of row `first`: rows
/// `first..=end` show their texts, the cursor ends on row `end`.
pub proof fn lemma_feed_rewrite(
    v: VtModel,
    s: Seq<char>,
    p: int,
    new: Seq<Seq<char>>,
    texts: Seq<Seq<char>>,
    first: int,
    end: int,
) -> (u: VtModel)
    requires
        rows_wide(v, v.width),
        v.cy == first,
        v.cx == 0,
        first < v.grid.len(),
        0 <= first <= end < new.len(),
        end <= u16::MAX,
        new.len() == texts.len(),
        forall|y: int|
            first <= y <= end ==> line_of(#[trigger] new[y], texts[y]) && texts[y].len()
                <= v.width && printable(texts[y]),
        at(s, p, rewrite_rows(new, first, end)),
    ensures
        feed_from(v, s, p) == feed_from(u, s, p + rewrite_rows(new, first, end).len()),
        kept(v, u, first, end),
        forall|j: int| first <= j <= end ==> j < u.grid.len() && written_prefix(#[trigger] u.grid[j]) == texts[j],
        u.cy == end,
        u.cy < u.grid.len(),
    decreases end - first,
{
    reveal_strlit("\x1b[2K");
    reveal_strlit("\r\n");
    if end == first {
        assert(line_at(new, first) == new[first]);
        let u = lemma_feed_clear_and_write(v, s, p, new[first], texts[first]);
        u
    } else {
        let r = rewrite_rows(new, first, end - 1);
        let tail = "\x1b[2K"@ + line_at(new, end);
        assert(rewrite_rows(new, first, end) == r + "\r\n"@ + tail) by {
            assert(r + "\r\n"@ + "\x1b[2K"@ + line_at(new, end) =~= r + "\r\n"@ + tail);
        }
        lemma_at_split(s, p, r + "\r\n"@, tail);
        lemma_at_split(s, p, r, "\r\n"@);
        let u1 = lemma_feed_rewrite(v, s, p, new, texts, first, end - 1);
        let q = p + r.len();
        lemma_at_char(s, q, "\r\n"@, 0);
        lemma_at_char(s, q, "\r\n"@, 1);
        lemma_feed_cr(u1, s, q);
        let u2 = VtModel { cx: 0, ..u1 };
        lemma_feed_lf(u2, s, q + 1);
        let y = end as u16;
        let u3 = line_feed(u2);
        assert(u3 == go_row(u2, y));
        lemma_go_row(u2, y);
        assert(line_at(new, end) == new[end]);
        let u4 = lemma_feed_clear_and_write(u3, s, q + 2, new[end], texts[end]);
        assert(p + rewrite_rows(new, first, end).len() == q + 2 + tail.len());
        assert forall|j: int| first <= j <= end implies j < u4.grid.len() && written_prefix(#[trigger] u4.grid[j])
            == texts[j] by {
            if j < end {
                assert(u4.grid[j] == u3.grid[j]);
                assert(u3.grid[j] == u1.grid[j]);
            }
        }
        assert forall|j: int| 0 <= j < v.grid.len() && !(first <= j <= end) implies #[trigger] u4.grid[j]
            == v.grid[j] by {
            assert(u4.grid[j] == u3.grid[j]);
            assert(u3.grid[j] == u1.grid[j]);
        }
        assert forall|j: int| v.grid.len() <= j < u4.grid.len() && !(first <= j <= end) implies #[trigger] u4.grid[j]
            == blank_row(v.width) by {
            assert(u4.grid[j] == u3.grid[j]);
            if j < u1.grid.len() {
                assert(u3.grid[j] == u1.grid[j]);
            }
        }
        u4
    }
}

/// The scroll and the move before a range rewrite, with the terminal
/// cursor on the renderer's cursor row inside the viewport: the cursor ends
/// on `mt`.
pub proof fn lemma_feed_scroll(v: VtModel, s: Seq<char>, p: int, m: RenderModel, mt: usize, h: usize) -> (u: VtModel)
    requires
        rows_wide(v, v.width),
        v.cy == m.hw_row,
        v.cy < v.grid.len(),
        h >= 1,
        m.viewport_top <= m.hw_row < m.viewport_top + h,
        m.viewport_top + h <= u16::MAX,
        mt <= u16::MAX,
        at(s, p, scroll_step(m, mt, h).1 + move_rows(scroll_step(m, mt, h).0.hw_row, mt)),
    ensures
        feed_from(v, s, p) == feed_from(
            u,
            s,
            p + (scroll_step(m, mt, h).1 + move_rows(scroll_step(m, mt, h).0.hw_row, mt)).len(),
        ),
        kept(v, u, 0, -1),
        u.cy == mt,
        mt < u.grid.len(),
        scroll_step(m, mt, h).0 == (if mt > m.viewport_top + h - 1 {
            RenderModel { viewport_top: (mt - h + 1) as usize, hw_row: mt, ..m }
        } else {
            m
        }),
{
    reveal(scroll_step);
    let (m1, so) = scroll_step(m, mt, h);
    let pb = (m.viewport_top + h - 1) as usize;
    assert(sat_sub(h, 1) == h - 1);
    if mt > pb {
        let scroll = (mt - pb) as nat;
        let to_bottom = (pb - m.hw_row) as usize;
        assert(so == (if to_bottom > 0 {
            csi_n(to_bottom as nat, 'B')
        } else {
            Seq::<char>::empty()
        }) + repeat("\r\n"@, scroll));
        assert(move_rows(m.hw_row, pb) == (if to_bottom > 0 {
            csi_n(to_bottom as nat, 'B')
        } else {
            Seq::<char>::empty()
        }));
        assert(m1.hw_row == mt);
        assert(move_rows(mt, mt) == Seq::<char>::empty());
        assert(so + move_rows(m1.hw_row, mt) =~= move_rows(m.hw_row, pb) + repeat("\r\n"@, scroll));
        lemma_at_split(s, p, move_rows(m.hw_row, pb), repeat("\r\n"@, scroll));
        lemma_feed_move(v, s, p, m.hw_row, pb);
        let u1 = go_row(v, pb as u16);
        lemma_go_row(v, pb as u16);
        let u2 = lemma_feed_newlines(u1, s, p + move_rows(m.hw_row, pb).len(), scroll);
        assert forall|j: int| v.grid.len() <= j < u2.grid.len() implies #[trigger] u2.grid[j] == blank_row(v.width) by {
            if j < u1.grid.len() {
                assert(u2.grid[j] == u1.grid[j]);
            }
        }
        u2
    } else {
        assert(so =~= Seq::<char>::empty());
        assert(so + move_rows(m1.hw_row, mt) =~= move_rows(m.hw_row, mt));
        lemma_feed_move(v, s, p, m.hw_row, mt);
        lemma_go_row(v, mt as u16);
        go_row(v, mt as u16)
    }
}

/// The clearing of orphan rows after a range rewrite that ended on row
/// `re`: rows `nn..np` end blank and the cursor on the row
/// [`shrink_step`] gives.
pub proof fn lemma_feed_shrink(v: VtModel, s: Seq<char>, p: int, np: usize, nn: usize, re: usize) -> (u: VtModel)
    requires
        rows_wide(v, v.width),
        v.cy == re,
        re < v.grid.len(),
        1 <= nn,
        re <= nn - 1,
        np <= u16::MAX,
        at(s, p, shrink_step(np, nn, re).1),
    ensures
        feed_from(v, s, p) == feed_from(u, s, p + shrink_step(np, nn, re).1.len()),
        u.cy == shrink_step(np, nn, re).0,
        u.cy < u.grid.len(),
        kept(v, u, nn as int, np - 1),
        np > nn ==> np <= u.grid.len(),
        forall|j: int| nn <= j < np ==> j < u.grid.len() && #[trigger] u.grid[j] == blank_row(v.width),
        shrink_step(np, nn, re).0 == (if np > nn {
            (nn - 1) as usize
        } else {
            re
        }),
{
    reveal(shrink_step);
    if np > nn {
        let go_down = re + 1 < nn;
        let a = if go_down {
            csi_n(sat_sub((nn - 1) as usize, re) as nat, 'B')
        } else {
            Seq::<char>::empty()
        };
        let k = (np - nn) as nat;
        let b = repeat("\r\n\x1b[2K"@, k);
        let c = csi_n(k, 'A');
        assert(shrink_step(np, nn, re).1 == a + b + c);
        assert(a == move_rows(re, (nn - 1) as usize));
        assert(c == move_rows((np - 1) as usize, (nn - 1) as usize));
        lemma_at_split(s, p, a + b, c);
        lemma_at_split(s, p, a, b);
        lemma_feed_move(v, s, p, re, (nn - 1) as usize);
        let u1 = go_row(v, (nn - 1) as u16);
        lemma_go_row(v, (nn - 1) as u16);
        let u2 = lemma_feed_clear_rows(u1, s, p + a.len(), k);
        lemma_feed_move(u2, s, p + a.len() + b.len(), (np - 1) as usize, (nn - 1) as usize);
        let u3 = go_row(u2, (nn - 1) as u16);
        lemma_go_row(u2, (nn - 1) as u16);
        assert(u3.grid == u2.grid);
        assert forall|j: int| 0 <= j < v.grid.len() && !(nn <= j <= np - 1) implies #[trigger] u3.grid[j]
            == v.grid[j] by {
            assert(u2.grid[j] == u1.grid[j]);
        }
        assert forall|j: int| v.grid.len() <= j < u3.grid.len() && !(nn <= j <= np - 1) implies #[trigger] u3.grid[j]
            == blank_row(v.width) by {
            if j < u1.grid.len() {
                assert(u2.grid[j] == u1.grid[j]);
            }
        }
        u3
    } else {
        assert(shrink_step(np, nn, re).1 =~= Seq::<char>::empty());
        v
    }
}

/// A private-mode switch (synchronized output on or off, cursor hidden)
/// leaves the terminal as it was.
pub proof fn lemma_feed_mode(v: VtModel, s: Seq<char>, p: int, x: Seq<char>)
    requires
        x == "\x1b[?2026h"@ || x == "\x1b[?2026l"@ || x == "\x1b[?25l"@,
        at(s, p, x),
    ensures
        feed_from(v, s, p) == feed_from(v, s, p + x.len()),
{
    reveal_strlit("\x1b[?2026h");
    reveal_strlit("\x1b[?2026l");
    reveal_strlit("\x1b[?25l");
    reveal_strlit("\x1b[");
    if x == "\x1b[?2026h"@ {
        let params = seq!['?', '2', '0', '2', '6'];
        assert(x =~= "\x1b["@ + params + seq!['h']);
        lemma_feed_csi_at(v, s, p, params, 'h');
    } else if x == "\x1b[?2026l"@ {
        let params = seq!['?', '2', '0', '2', '6'];
        assert(x =~= "\x1b["@ + params + seq!['l']);
        lemma_feed_csi_at(v, s, p, params, 'l');
    } else {
        let params = seq!['?', '2', '5'];
        assert(x =~= "\x1b["@ + params + seq!['l']);
        lemma_feed_csi_at(v, s, p, params, 'l');
    }
}

/// Row `j` of `a`, or a blank row past its end.
pub open spec fn row_or_blank(a: VtModel, j: int) -> Seq<VCell> {
    if j < a.grid.len() {
        a.grid[j]
    } else {
        blank_row(a.width)
    }
}

pub proof fn lemma_kept_rows(a: VtModel, b: VtModel, lo: int, hi: int)
    requires
        kept(a, b, lo, hi),
    ensures
        forall|j: int| 0 <= j < b.grid.len() && !(lo <= j <= hi) ==> #[trigger] b.grid[j] == row_or_blank(a, j),
        forall|j: int| 0 <= j && !(lo <= j <= hi) ==> #[trigger] row_or_blank(b, j) == row_or_blank(a, j),
{
}

/// A carriage return, or a carriage return and a line feed when `down`.
pub proof fn lemma_feed_return(v: VtModel, s: Seq<char>, p: int, down: bool) -> (u: VtModel)
    requires
        rows_wide(v, v.width),
        v.cy < v.grid.len(),
        down ==> v.cy + 1 <= u16::MAX,
        at(s, p, if down { "\r\n"@ } else { "\r"@ }),
    ensures
        feed_from(v, s, p) == feed_from(u, s, p + (if down { "\r\n"@ } else { "\r"@ }).len()),
        kept(v, u, 0, -1),
        u.cx == 0,
        u.cy == v.cy + (if down { 1int } else { 0int }),
        u.cy < u.grid.len(),
{
    reveal_strlit("\r\n");
    reveal_strlit("\r");
    if down {
        assert(repeat("\r\n"@, 1) =~= "\r\n"@) by {
            assert(repeat("\r\n"@, 0) == Seq::<char>::empty());
        }
        lemma_feed_newlines(v, s, p, 1)
    } else {
        lemma_at_char(s, p, "\r"@, 0);
        lemma_feed_cr(v, s, p);
        VtModel { cx: 0, ..v }
    }
}

pub proof fn lemma_first_in(prev: Seq<Seq<char>>, new: Seq<Seq<char>>, k: int)
    ensures
        first_in(prev, new, k) matches Some(f) ==> 0 <= f < k && differs(prev, new, f) && forall|i: int|
            0 <= i < f ==> !#[trigger] differs(prev, new, i),
        first_in(prev, new, k) is None ==> forall|i: int| 0 <= i < k ==> !#[trigger] differs(prev, new, i),
    decreases k,
{
    if k > 0 {
        lemma_first_in(prev, new, k - 1);
    }
}

pub proof fn lemma_last_in(prev: Seq<Seq<char>>, new: Seq<Seq<char>>, k: int)
    ensures
        last_in(prev, new, k) matches Some(l) ==> 0 <= l < k && differs(prev, new, l) && forall|i: int|
            l < i < k ==> !#[trigger] differs(prev, new, i),
        last_in(prev, new, k) is None ==> forall|i: int| 0 <= i < k ==> !#[trigger] differs(prev, new, i),
    decreases k,
{
    if k > 0 {
        lemma_last_in(prev, new, k - 1);
    }
}

/// Rows that hold the same serialized line hold the same text.
proof fn lemma_same_line_same_text(
    prev: Seq<Seq<char>>,
    new: Seq<Seq<char>>,
    texts: Seq<Seq<char>>,
    ntexts: Seq<Seq<char>>,
    w: u16,
    k: int,
)
    requires
        serialized_lines(prev, texts),
        serialized_lines(new, ntexts),
        texts_fit(texts, w),
        texts_fit(ntexts, w),
        0 <= k < prev.len(),
        k < new.len(),
        prev[k] == new[k],
    ensures
        texts[k] == ntexts[k],
{
    assert(line_of(prev[k], texts[k]));
    assert(line_of(new[k], ntexts[k]));
    lemma_line_text_unique(new[k], texts[k], ntexts[k]);
}

/// The texts fit rows `w` wide and hold only printable characters.
pub open spec fn texts_fit(texts: Seq<Seq<char>>, w: u16) -> bool {
    forall|k: int| 0 <= k < texts.len() ==> (#[trigger] texts[k]).len() <= w && printable(texts[k])
}

/// Serialized lines: each the ANSI form of styled spans whose text is the
/// matching text, then the line reset.
pub open spec fn serialized_lines(lines: Seq<Seq<char>>, texts: Seq<Seq<char>>) -> bool {
    &&& lines.len() == texts.len()
    &&& forall|k: int| 0 <= k < lines.len() ==> line_of(#[trigger] lines[k], texts[k])
}

/// The terminal shows `texts` on its first rows and nothing below them;
/// its cursor stands on row `hw`, inside the viewport of `h` rows from row
/// `vt` (at column 0 when nothing is shown).
pub open spec fn shows_frame(v: VtModel, texts: Seq<Seq<char>>, hw: usize, vt: usize, h: u16) -> bool {
    &&& rows_wide(v, v.width)
    &&& texts.len() <= v.grid.len()
    &&& forall|k: int| 0 <= k < texts.len() ==> written_prefix(#[trigger] v.grid[k]) == texts[k]
    &&& forall|k: int| texts.len() <= k < v.grid.len() ==> #[trigger] v.grid[k] == blank_row(v.width)
    &&& v.cy == hw
    &&& v.cy < v.grid.len()
    &&& texts.len() == 0 ==> v.cx == 0
    &&& texts.len() > 0 ==> vt <= hw && hw < vt + h
}

/// The last row a range rewrite writes.
pub open spec fn rewrite_end(last: usize, nn: usize) -> usize {
    if last <= sat_sub(nn, 1) {
        last
    } else {
        sat_sub(nn, 1)
    }
}

/// The scroll and the move before a range rewrite.
pub open spec fn scroll_and_move(m: RenderModel, mt: usize, hu: usize) -> Seq<char> {
    scroll_step(m, mt, hu).1 + move_rows(scroll_step(m, mt, hu).0.hw_row, mt)
}

/// A carriage return, followed by a line feed when `down`.
pub open spec fn return_seq(down: bool) -> Seq<char> {
    if down {
        "\r\n"@
    } else {
        "\r"@
    }
}

/// The start of a range rewrite (synchronized output on, the scroll, the
/// move to the row to reach, the return): the cursor ends at the start of
/// row `first`, no row changed.
proof fn lemma_rewrite_start(
    v: VtModel,
    w: Seq<char>,
    m: RenderModel,
    mt: usize,
    hu: usize,
    append: bool,
    first: usize,
) -> (u: VtModel)
    requires
        rows_wide(v, v.width),
        v.cy == m.hw_row,
        v.cy < v.grid.len(),
        hu >= 1,
        m.viewport_top <= m.hw_row < m.viewport_top + hu,
        m.viewport_top + hu <= u16::MAX,
        mt < u16::MAX,
        first == mt + (if append { 1int } else { 0int }),
        m.viewport_top <= first,
        at(w, 0, "\x1b[?2026h"@),
        at(w, 8, scroll_and_move(m, mt, hu)),
        at(w, 8 + scroll_and_move(m, mt, hu).len() as int, return_seq(append)),
    ensures
        feed_from(v, w, 0) == feed_from(u, w, 8 + scroll_and_move(m, mt, hu).len() as int + return_seq(append).len() as int),
        u.width == v.width,
        v.grid.len() <= u.grid.len(),
        rows_wide(u, v.width),
        u.cy == first,
        u.cx == 0,
        first < u.grid.len(),
        forall|k: int| 0 <= k ==> #[trigger] row_or_blank(u, k) == row_or_blank(v, k),
        scroll_step(m, mt, hu).0.viewport_top <= first,
{
    reveal_strlit("\x1b[?2026h");
    lemma_feed_mode(v, w, 0, "\x1b[?2026h"@);
    let u1 = lemma_feed_scroll(v, w, 8, m, mt, hu);
    let p2 = 8 + scroll_and_move(m, mt, hu).len() as int;
    let u2 = lemma_feed_return(u1, w, p2, append);
    lemma_kept_rows(v, u1, 0, -1);
    lemma_kept_rows(u1, u2, 0, -1);
    u2
}

/// The end of a range rewrite (the rows rewritten, the orphans cleared,
/// synchronized output off).
proof fn lemma_rewrite_finish(
    v: VtModel,
    w: Seq<char>,
    p: int,
    new: Seq<Seq<char>>,
    ntexts: Seq<Seq<char>>,
    first: usize,
    re: usize,
    np: usize,
    nn: usize,
) -> (u: VtModel)
    requires
        rows_wide(v, v.width),
        v.cy == first,
        v.cx == 0,
        first < v.grid.len(),
        first <= re,
        re < nn,
        nn == new.len(),
        nn <= u16::MAX,
        np <= u16::MAX,
        serialized_lines(new, ntexts),
        texts_fit(ntexts, v.width),
        at(w, p, rewrite_rows(new, first as int, re as int)),
        at(w, p + rewrite_rows(new, first as int, re as int).len(), shrink_step(np, nn, re).1),
        at(
            w,
            p + rewrite_rows(new, first as int, re as int).len() + shrink_step(np, nn, re).1.len(),
            "\x1b[?2026l"@,
        ),
        p + rewrite_rows(new, first as int, re as int).len() + shrink_step(np, nn, re).1.len() + 8 == w.len(),
    ensures
        feed_from(v, w, p) == Some(u),
        u.width == v.width,
        v.grid.len() <= u.grid.len(),
        rows_wide(u, v.width),
        forall|k: int|
            0 <= k && !(first <= k <= re) && !(nn <= k < np) ==> #[trigger] row_or_blank(u, k) == row_or_blank(v, k),
        forall|k: int| first <= k <= re ==> k < u.grid.len() && written_prefix(#[trigger] u.grid[k]) == ntexts[k],
        np > nn ==> np <= u.grid.len(),
        re < u.grid.len(),
        forall|k: int| nn <= k < np ==> k < u.grid.len() && #[trigger] u.grid[k] == blank_row(v.width),
        u.cy == shrink_step(np, nn, re).0,
        u.cy < u.grid.len(),
        shrink_step(np, nn, re).0 == (if np > nn {
            (nn - 1) as usize
        } else {
            re
        }),
{
    reveal_strlit("\x1b[?2026l");
    let rw = rewrite_rows(new, first as int, re as int);
    let u3 = lemma_feed_rewrite(v, w, p, new, ntexts, first as int, re as int);
    let u4 = lemma_feed_shrink(u3, w, p + rw.len(), np, nn, re);
    assert(u3.width == v.width);
    assert forall|k: int| nn <= k < np implies k < u4.grid.len() && #[trigger] u4.grid[k] == blank_row(v.width) by {
        assert(u4.grid[k] == blank_row(u3.width));
    }
    let p5 = p + rw.len() + shrink_step(np, nn, re).1.len();
    lemma_feed_mode(u4, w, p5, "\x1b[?2026l"@);
    lemma_kept_rows(v, u3, first as int, re as int);
    lemma_kept_rows(u3, u4, nn as int, np - 1);
    assert forall|k: int| first <= k <= re implies k < u4.grid.len() && written_prefix(#[trigger] u4.grid[k])
        == ntexts[k] by {
        assert(u4.grid[k] == u3.grid[k]);
    }
    assert forall|k: int| 0 <= k && !(first <= k <= re) && !(nn <= k < np) implies #[trigger] row_or_blank(u4, k)
        == row_or_blank(v, k) by {
        assert(row_or_blank(u4, k) == row_or_blank(u3, k));
    }
    u4
}

/// What a range rewrite does to the terminal: rows `first..=end` show their
/// new texts, the orphan rows `nn..np` are cleared, the others are kept.
#[verifier::rlimit(40)]
proof fn lemma_diff_normal_feed(
    v: VtModel,
    m: RenderModel,
    texts: Seq<Seq<char>>,
    new: Seq<Seq<char>>,
    ntexts: Seq<Seq<char>>,
    first: usize,
    last: usize,
    h: u16,
) -> (u: VtModel)
    requires
        shows_frame(v, texts, m.hw_row, m.viewport_top, h),
        serialized_lines(new, ntexts),
        texts_fit(ntexts, v.width),
        texts.len() >= 1,
        m.previous_lines.len() >= 1,
        h >= 1,
        first <= last,
        first <= m.previous_lines.len(),
        m.viewport_top <= first < new.len(),
        m.previous_lines.len() <= u16::MAX,
        new.len() <= u16::MAX,
        m.viewport_top + h <= u16::MAX,
    ensures
        feed_from(v, diff_normal(m, new, first, last, h as usize).1, 0) == Some(u),
        u.width == v.width,
        v.grid.len() <= u.grid.len(),
        rows_wide(u, v.width),
        forall|k: int|
            0 <= k && !(first <= k <= rewrite_end(last, new.len() as usize)) && !(new.len() <= k
                < m.previous_lines.len()) ==> #[trigger] row_or_blank(u, k) == row_or_blank(v, k),
        forall|k: int|
            first <= k <= rewrite_end(last, new.len() as usize) ==> k < u.grid.len() && written_prefix(
                #[trigger] u.grid[k],
            ) == ntexts[k],
        forall|k: int|
            new.len() <= k < m.previous_lines.len() ==> k < u.grid.len() && #[trigger] u.grid[k] == blank_row(
                v.width,
            ),
        u.cy == diff_normal(m, new, first, last, h as usize).0.hw_row,
        u.cy < u.grid.len(),
        diff_normal(m, new, first, last, h as usize).0.hw_row == (if m.previous_lines.len() > new.len() {
            (new.len() - 1) as usize
        } else {
            rewrite_end(last, new.len() as usize)
        }),
        diff_normal(m, new, first, last, h as usize).0.viewport_top <= diff_normal(
            m,
            new,
            first,
            last,
            h as usize,
        ).0.hw_row,
        diff_normal(m, new, first, last, h as usize).0.hw_row < diff_normal(
            m,
            new,
            first,
            last,
            h as usize,
        ).0.viewport_top + h,
{
    reveal_strlit("\x1b[?2026h");
    reveal_strlit("\x1b[?2026l");
    let prev = m.previous_lines;
    let np = prev.len() as usize;
    let nn = new.len() as usize;
    let hu = h as usize;
    let append_start = nn > np && first == np && first > 0;
    let mt: usize = if append_start {
        (first - 1) as usize
    } else {
        first
    };
    let re = rewrite_end(last, nn);
    let bsu = "\x1b[?2026h"@;
    let esu = "\x1b[?2026l"@;
    let so = scroll_step(m, mt, hu).1;
    let mv = move_rows(scroll_step(m, mt, hu).0.hw_row, mt);
    let sm = scroll_and_move(m, mt, hu);
    let crx = return_seq(append_start);
    let rw = rewrite_rows(new, first as int, re as int);
    let sho = shrink_step(np, nn, re).1;
    let w = diff_normal(m, new, first, last, hu).1;
    assert(w == bsu + so + mv + crx + rw + sho + esu);
    lemma_at_whole(w);
    lemma_at_split(w, 0, bsu + so + mv + crx + rw + sho, esu);
    lemma_at_split(w, 0, bsu + so + mv + crx + rw, sho);
    lemma_at_split(w, 0, bsu + so + mv + crx, rw);
    lemma_at_split(w, 0, bsu + so + mv, crx);
    lemma_at_split(w, 0, bsu + so, mv);
    lemma_at_split(w, 0, bsu, so);
    lemma_at_join(w, 8, so, mv);
    let u2 = lemma_rewrite_start(v, w, m, mt, hu, append_start, first);
    let p3 = 8 + sm.len() as int + crx.len() as int;
    let u4 = lemma_rewrite_finish(u2, w, p3, new, ntexts, first, re, np, nn);
    let dn = diff_normal(m, new, first, last, hu).0;
    assert(dn.hw_row == shrink_step(np, nn, re).0);
    assert(dn.viewport_top == max_us(scroll_step(m, mt, hu).0.viewport_top, sat_sub(dn.hw_row, sat_sub(hu, 1))));
    u4
}

/// A range rewrite shows the new frame.
pub proof fn lemma_diff_normal_shows(
    v: VtModel,
    m: RenderModel,
    texts: Seq<Seq<char>>,
    new: Seq<Seq<char>>,
    ntexts: Seq<Seq<char>>,
    first: usize,
    last: usize,
    h: u16,
) -> (u: VtModel)
    requires
        shows_frame(v, texts, m.hw_row, m.viewport_top, h),
        serialized_lines(m.previous_lines, texts),
        texts_fit(texts, v.width),
        serialized_lines(new, ntexts),
        texts_fit(ntexts, v.width),
        m.previous_lines.len() >= 1,
        h >= 1,
        changed_range(m.previous_lines, new) == Some((first as int, last as int)),
        m.viewport_top <= first < new.len(),
        m.previous_lines.len() <= u16::MAX,
        new.len() <= u16::MAX,
        m.viewport_top + h <= u16::MAX,
    ensures
        feed_from(v, diff_normal(m, new, first, last, h as usize).1, 0) == Some(u),
        u.width == v.width,
        shows_frame(
            u,
            ntexts,
            diff_normal(m, new, first, last, h as usize).0.hw_row,
            diff_normal(m, new, first, last, h as usize).0.viewport_top,
            h,
        ),
{
    reveal_strlit("\x1b[0m\x1b]8;;\x07");
    let prev = m.previous_lines;
    let np = prev.len() as usize;
    let nn = new.len() as usize;
    let n = span_len(prev, new);
    lemma_first_in(prev, new, n);
    lemma_last_in(prev, new, n);
    if first > np {
        assert(line_at(new, np as int) == new[np as int]);
        assert(differs(prev, new, np as int));
    }
    let u = lemma_diff_normal_feed(v, m, texts, new, ntexts, first, last, h);
    let re = rewrite_end(last, nn);
    // A row below the rewrite that stays in the new frame was in the old one
    // unchanged.
    assert forall|k: int| 0 <= k < nn && !(first <= k <= re) implies k < np && #[trigger] texts[k] == ntexts[k] by {
        if k >= first {
            assert(re == last);
        }
        assert(!differs(prev, new, k));
        assert(line_at(new, k) == new[k]);
        if k >= np {
            lemma_line_of_len(new[k], ntexts[k]);
            assert(line_at(prev, k) == Seq::<char>::empty());
        }
        assert(line_at(prev, k) == prev[k]);
        lemma_same_line_same_text(prev, new, texts, ntexts, v.width, k);
    }
    assert(nn <= u.grid.len()) by {
        if !(np > nn) && re < nn - 1 {
            assert(texts[nn - 1] == ntexts[nn - 1]);
        }
    }
    assert forall|k: int| 0 <= k < nn implies written_prefix(#[trigger] u.grid[k]) == ntexts[k] by {
        if !(first <= k <= re) {
            assert(texts[k] == ntexts[k]);
            assert(row_or_blank(u, k) == row_or_blank(v, k));
        }
    }
    assert forall|k: int| nn <= k < u.grid.len() implies #[trigger] u.grid[k] == blank_row(u.width) by {
        if !(k < np) {
            assert(row_or_blank(u, k) == row_or_blank(v, k));
        }
    }
    u
}

proof fn lemma_cleared_blank(v: VtModel)
    requires
        rows_wide(v, v.width),
    ensures
        cleared(v.grid).len() == v.grid.len(),
        forall|k: int| 0 <= k < v.grid.len() ==> #[trigger] cleared(v.grid)[k] == blank_row(v.width),
{
    assert forall|k: int| 0 <= k < v.grid.len() implies #[trigger] cleared(v.grid)[k] == blank_row(v.width) by {
        assert(cleared(v.grid)[k] =~= blank_row(v.width));
    }
}

/// `ESC[2J ESC[H ESC[3J`: every row blank, the cursor at the origin.
pub proof fn lemma_feed_clear_screen(v: VtModel, s: Seq<char>, p: int) -> (u: VtModel)
    requires
        rows_wide(v, v.width),
        at(s, p, "\x1b[2J\x1b[H\x1b[3J"@),
    ensures
        feed_from(v, s, p) == feed_from(u, s, p + 11),
        u.width == v.width,
        u.cx == 0,
        u.cy == 0,
        1 <= u.grid.len(),
        forall|k: int| 0 <= k < u.grid.len() ==> #[trigger] u.grid[k] == blank_row(v.width),
{
    reveal_strlit("\x1b[2J\x1b[H\x1b[3J");
    reveal_strlit("\x1b[");
    let x = "\x1b[2J\x1b[H\x1b[3J"@;
    let a = "\x1b["@ + seq!['2'] + seq!['J'];
    let b = "\x1b["@ + Seq::<char>::empty() + seq!['H'];
    let c = "\x1b["@ + seq!['3'] + seq!['J'];
    assert(x =~= a + b + c);
    lemma_at_split(s, p, a + b, c);
    lemma_at_split(s, p, a, b);
    assert(decimal(2) == seq!['2']);
    assert(decimal(3) == seq!['3']);
    lemma_csi_nums_decimal(2);
    lemma_csi_nums_decimal(3);
    lemma_csi_nums_empty();
    lemma_feed_csi_at(v, s, p, seq!['2'], 'J');
    lemma_cleared_blank(v);
    let u1 = VtModel { grid: cleared(v.grid), cx: 0, cy: 0, ..v };
    assert(rows_wide(u1, v.width));
    lemma_feed_csi_at(u1, s, p + 4, Seq::<char>::empty(), 'H');
    assert(param_or(Seq::<i64>::empty(), 0, 1) == 1);
    let u2 = with_row(VtModel { cy: 0, cx: 0, ..u1 }, 0);
    assert(csi_apply(u1, 'H', Seq::<i64>::empty()) == Some(u2));
    assert forall|k: int| 0 <= k < u2.grid.len() implies #[trigger] u2.grid[k] == blank_row(v.width) by {
        if k < u1.grid.len() {
            assert(u2.grid[k] == u1.grid[k]);
        }
    }
    lemma_feed_csi_at(u2, s, p + 7, seq!['3'], 'J');
    lemma_cleared_blank(u2);
    let u3 = VtModel { grid: cleared(u2.grid), cx: 0, cy: 0, ..u2 };
    assert(csi_apply(u2, 'J', seq![3i64]) == Some(u3));
    u3
}

/// A full render shows the frame: on a cleared screen, or, without the
/// clear, from the origin of a blank screen.
pub proof fn lemma_full_render_shows(
    v: VtModel,
    m: RenderModel,
    new: Seq<Seq<char>>,
    ntexts: Seq<Seq<char>>,
    clear: bool,
    h: u16,
    reason: RedrawReason,
) -> (u: VtModel)
    requires
        rows_wide(v, v.width),
        !clear ==> v.cx == 0 && v.cy == 0 && 1 <= v.grid.len() && forall|k: int|
            0 <= k < v.grid.len() ==> #[trigger] v.grid[k] == blank_row(v.width),
        serialized_lines(new, ntexts),
        texts_fit(ntexts, v.width),
        1 <= new.len() <= u16::MAX,
        h >= 1,
    ensures
        feed_from(v, full_render(m, new, clear, h as usize, reason).1, 0) == Some(u),
        u.width == v.width,
        shows_frame(
            u,
            ntexts,
            full_render(m, new, clear, h as usize, reason).0.hw_row,
            full_render(m, new, clear, h as usize, reason).0.viewport_top,
            h,
        ),
{
    reveal_strlit("\x1b[?2026h");
    reveal_strlit("\x1b[?2026l");
    reveal_strlit("\x1b[2J\x1b[H\x1b[3J");
    let bsu = "\x1b[?2026h"@;
    let esu = "\x1b[?2026l"@;
    let clr = if clear {
        "\x1b[2J\x1b[H\x1b[3J"@
    } else {
        Seq::<char>::empty()
    };
    let j = join_crlf(new);
    let out = full_render(m, new, clear, h as usize, reason).1;
    assert(out == bsu + clr + j + esu);
    lemma_at_whole(out);
    lemma_at_split(out, 0, bsu + clr + j, esu);
    lemma_at_split(out, 0, bsu + clr, j);
    lemma_at_split(out, 0, bsu, clr);
    lemma_feed_mode(v, out, 0, bsu);
    let v1 = if clear {
        lemma_feed_clear_screen(v, out, 8)
    } else {
        v
    };
    let base = 8 + clr.len() as int;
    assert(feed_from(v, out, 0) == feed_from(v1, out, base));
    assert(lines_shown(v1, v.width, ntexts, 0));
    let n = new.len() as int;
    lemma_join_take(new, n - 1);
    assert(new.take(n) =~= new);
    let all = crlf_prefix(new, n - 1) + new.last();
    assert forall|x: int| 0 <= x < all.len() implies out[base + x] == #[trigger] all[x] by {
        lemma_at_char(out, base, j, x);
    }
    assert forall|k: int| 0 <= k < new.len() implies line_of(#[trigger] new[k], ntexts[k]) by {}
    assert forall|k: int| 0 <= k < ntexts.len() implies (#[trigger] ntexts[k]).len() <= v.width && printable(ntexts[k]) by {}
    assert(crlf_prefix(new, 0).len() == 0);
    let vf = lemma_walk(v1, v.width, ntexts, new, out, base, 0);
    let e0 = base + all.len();
    lemma_feed_mode(vf, out, e0, esu);
    assert(e0 + 8 == out.len());
    assert(rows_wide(vf, v.width));
    vf
}

/// A pure tail shrink cleared in place shows the new frame.
pub proof fn lemma_diff_deletions_shows(
    v: VtModel,
    m: RenderModel,
    texts: Seq<Seq<char>>,
    new: Seq<Seq<char>>,
    ntexts: Seq<Seq<char>>,
    first: usize,
    last: usize,
    h: u16,
) -> (u: VtModel)
    requires
        shows_frame(v, texts, m.hw_row, m.viewport_top, h),
        serialized_lines(m.previous_lines, texts),
        texts_fit(texts, v.width),
        serialized_lines(new, ntexts),
        texts_fit(ntexts, v.width),
        m.previous_lines.len() >= 1,
        new.len() >= 1,
        h >= 1,
        changed_range(m.previous_lines, new) == Some((first as int, last as int)),
        first >= new.len(),
        !(sat_sub((m.previous_lines.len() as usize), (new.len() as usize)) > h as usize || sat_sub(
            new.len() as usize,
            1,
        ) < m.viewport_top),
        m.previous_lines.len() <= u16::MAX,
        new.len() <= u16::MAX,
    ensures
        feed_from(v, diff_deletions(m, new, first, last, h as usize).1, 0) == Some(u),
        u.width == v.width,
        shows_frame(
            u,
            ntexts,
            diff_deletions(m, new, first, last, h as usize).0.hw_row,
            diff_deletions(m, new, first, last, h as usize).0.viewport_top,
            h,
        ),
{
    reveal_strlit("\x1b[?2026h");
    reveal_strlit("\x1b[?2026l");
    reveal_strlit("\x1b[0m\x1b]8;;\x07");
    reveal(shrink_step);
    let prev = m.previous_lines;
    let np = prev.len() as usize;
    let nn = new.len() as usize;
    let n = span_len(prev, new);
    lemma_first_in(prev, new, n);
    assert(np > nn);
    let target = (nn - 1) as usize;
    let extras = (np - nn) as usize;
    let bsu = "\x1b[?2026h"@;
    let esu = "\x1b[?2026l"@;
    let mv = move_rows(m.hw_row, target);
    let sh = shrink_step(np, nn, target).1;
    let out = diff_deletions(m, new, first, last, h as usize).1;
    assert(sh == Seq::<char>::empty() + repeat("\r\n\x1b[2K"@, extras as nat) + csi_n(extras as nat, 'A'));
    assert(out =~= bsu + mv + sh + esu);
    lemma_at_whole(out);
    lemma_at_split(out, 0, bsu + mv + sh, esu);
    lemma_at_split(out, 0, bsu + mv, sh);
    lemma_at_split(out, 0, bsu, mv);
    lemma_feed_mode(v, out, 0, bsu);
    lemma_feed_move(v, out, 8, m.hw_row, target);
    let u1 = go_row(v, target as u16);
    lemma_go_row(v, target as u16);
    let u2 = lemma_feed_shrink(u1, out, 8 + mv.len() as int, np, nn, target);
    let p3 = 8 + mv.len() as int + sh.len() as int;
    lemma_feed_mode(u2, out, p3, esu);
    assert(p3 + 8 == out.len());
    lemma_kept_rows(v, u1, 0, -1);
    lemma_kept_rows(u1, u2, nn as int, np - 1);
    assert forall|k: int| 0 <= k < nn implies #[trigger] texts[k] == ntexts[k] by {
        assert(!differs(prev, new, k));
        assert(line_at(prev, k) == prev[k]);
        assert(line_at(new, k) == new[k]);
        lemma_same_line_same_text(prev, new, texts, ntexts, v.width, k);
    }
    assert forall|k: int| 0 <= k < nn implies written_prefix(#[trigger] u2.grid[k]) == ntexts[k] by {
        assert(row_or_blank(u2, k) == row_or_blank(u1, k));
        assert(row_or_blank(u1, k) == row_or_blank(v, k));
    }
    assert forall|k: int| nn <= k < u2.grid.len() implies #[trigger] u2.grid[k] == blank_row(u2.width) by {
        if k >= np {
            assert(row_or_blank(u2, k) == row_or_blank(u1, k));
            assert(row_or_blank(u1, k) == row_or_blank(v, k));
        }
    }
    u2
}

/// The writes fed to the terminal one after the other; `None` if a cursor
/// move overflows along the way.
pub open spec fn feed_writes(v: VtModel, ws: Seq<Seq<char>>) -> Option<VtModel>
    decreases ws.len(),
{
    if ws.len() == 0 {
        Some(v)
    } else {
        match feed_writes(v, ws.drop_last()) {
            Some(u) => feed_from(u, ws.last(), 0),
            None => None,
        }
    }
}

proof fn lemma_rows_differ_past_end(prev: Seq<Seq<char>>, new: Seq<Seq<char>>, ntexts: Seq<Seq<char>>)
    requires
        serialized_lines(new, ntexts),
        prev.len() < new.len(),
    ensures
        differs(prev, new, prev.len() as int),
{
    assert(line_at(new, prev.len() as int) == new[prev.len() as int]);
    lemma_line_of_len(new[prev.len() as int], ntexts[prev.len() as int]);
}

/// A diff frame shows the new frame (whichever way it goes).
pub proof fn lemma_diff_render_shows(
    v: VtModel,
    m: RenderModel,
    texts: Seq<Seq<char>>,
    new: Seq<Seq<char>>,
    ntexts: Seq<Seq<char>>,
    h: u16,
) -> (u: VtModel)
    requires
        shows_frame(v, texts, m.hw_row, m.viewport_top, h),
        serialized_lines(m.previous_lines, texts),
        texts_fit(texts, v.width),
        serialized_lines(new, ntexts),
        texts_fit(ntexts, v.width),
        m.previous_lines.len() >= 1,
        new.len() >= 1,
        h >= 1,
        m.previous_lines.len() <= u16::MAX,
        new.len() <= u16::MAX,
        m.viewport_top + h <= u16::MAX,
    ensures
        feed_from(v, diff_render(m, new, h as usize).1, 0) == Some(u),
        u.width == v.width,
        shows_frame(u, ntexts, diff_render(m, new, h as usize).0.hw_row, diff_render(m, new, h as usize).0.viewport_top, h),
{
    let prev = m.previous_lines;
    let hu = h as usize;
    match changed_range(prev, new) {
        None => {
            let n = span_len(prev, new);
            lemma_first_in(prev, new, n);
            lemma_last_in(prev, new, n);
            assert(forall|k: int| 0 <= k < n ==> !#[trigger] differs(prev, new, k));
            if prev.len() < new.len() {
                lemma_rows_differ_past_end(prev, new, ntexts);
            }
            if new.len() < prev.len() {
                lemma_rows_differ_past_end(new, prev, texts);
                assert(differs(prev, new, new.len() as int));
            }
            assert(prev.len() == new.len());
            assert(texts =~= ntexts) by {
                assert forall|k: int| 0 <= k < texts.len() implies texts[k] == ntexts[k] by {
                    assert(!differs(prev, new, k));
                    assert(line_at(prev, k) == prev[k]);
                    assert(line_at(new, k) == new[k]);
                    lemma_same_line_same_text(prev, new, texts, ntexts, v.width, k);
                }
            }
            assert(diff_render(m, new, hu).1 =~= Seq::<char>::empty());
            v
        },
        Some((f, l)) => {
            let first = f as usize;
            let last = l as usize;
            let n = span_len(prev, new);
            lemma_first_in(prev, new, n);
            lemma_last_in(prev, new, n);
            if first < m.viewport_top {
                lemma_full_render_shows(v, m, new, ntexts, true, h, RedrawReason::AboveViewport)
            } else if first >= new.len() {
                let np = prev.len() as usize;
                let nn = new.len() as usize;
                if sat_sub(np, nn) > hu || sat_sub(nn, 1) < m.viewport_top {
                    lemma_full_render_shows(v, m, new, ntexts, true, h, RedrawReason::AllDeletionsFallback)
                } else {
                    lemma_diff_deletions_shows(v, m, texts, new, ntexts, first, last, h)
                }
            } else {
                lemma_diff_normal_shows(v, m, texts, new, ntexts, first, last, h)
            }
        },
    }
}

/// The terminal shows the renderer's last frame (unless a forced redraw is
/// pending, which clears the screen whatever it shows): its serialized
/// lines' texts, shown on their rows, the cursor where the renderer
/// believes it is.
pub open spec fn displays(v: VtModel, m: RenderModel, texts: Seq<Seq<char>>) -> bool {
    &&& rows_wide(v, v.width)
    &&& v.cy < v.grid.len()
    &&& !m.force_clear ==> {
        &&& serialized_lines(m.previous_lines, texts)
        &&& texts_fit(texts, v.width)
        &&& shows_frame(v, texts, m.hw_row, m.viewport_top, m.previous_height)
        &&& texts.len() == 0 ==> m.hw_row == 0
    }
}

proof fn lemma_feed_one(v: VtModel, o: Seq<char>)
    ensures
        feed_writes(v, seq![o]) == feed_from(v, o, 0),
{
    assert(seq![o].drop_last() =~= Seq::<Seq<char>>::empty());
    assert(feed_writes(v, Seq::<Seq<char>>::empty()) == Some(v));
    assert(seq![o].last() == o);
    assert(seq![o].len() == 1);
}

/// Whatever strategy a frame takes, its writes show the frame.
pub proof fn lemma_strategy_shows(
    v: VtModel,
    m: RenderModel,
    texts: Seq<Seq<char>>,
    new: Seq<Seq<char>>,
    ntexts: Seq<Seq<char>>,
    width: u16,
    height: u16,
) -> (u: VtModel)
    requires
        displays(v, m, texts),
        v.width == width,
        serialized_lines(new, ntexts),
        texts_fit(ntexts, width),
        1 <= new.len() <= u16::MAX,
        height >= 1,
        m.previous_lines.len() <= u16::MAX,
        m.viewport_top + height <= u16::MAX,
    ensures
        feed_writes(v, strategy(m, new, width, height).1) == Some(u),
        u.width == v.width,
        shows_frame(
            u,
            ntexts,
            strategy(m, new, width, height).0.hw_row,
            strategy(m, new, width, height).0.viewport_top,
            height,
        ),
{
    let hu = height as usize;
    let width_changed = m.previous_width != 0 && m.previous_width != width;
    let height_changed = m.previous_height != 0 && m.previous_height != height;
    let n_new = new.len() as usize;
    let first_render = m.previous_lines.len() == 0 && !width_changed && !height_changed && !m.force_clear;
    let shrink = m.previous_lines.len() > n_new && n_new < m.max_lines && m.clear_on_shrink;
    if m.force_clear {
        let o = full_render(m, new, true, hu, RedrawReason::Forced).1;
        lemma_feed_one(v, o);
        lemma_full_render_shows(v, m, new, ntexts, true, height, RedrawReason::Forced)
    } else if first_render {
        let o = full_render(m, new, false, hu, RedrawReason::FirstRender).1;
        lemma_feed_one(v, o);
        assert(texts.len() == 0);
        lemma_full_render_shows(v, m, new, ntexts, false, height, RedrawReason::FirstRender)
    } else if width_changed || height_changed || m.previous_width == 0 {
        let reason = if width_changed {
            RedrawReason::WidthChanged
        } else if height_changed {
            RedrawReason::HeightChanged
        } else {
            RedrawReason::NoPreviousFrame
        };
        let o = full_render(m, new, true, hu, reason).1;
        lemma_feed_one(v, o);
        lemma_full_render_shows(v, m, new, ntexts, true, height, reason)
    } else if shrink {
        let o = full_render(m, new, true, hu, RedrawReason::ClearOnShrink).1;
        lemma_feed_one(v, o);
        lemma_full_render_shows(v, m, new, ntexts, true, height, RedrawReason::ClearOnShrink)
    } else {
        assert(m.previous_lines.len() >= 1);
        assert(m.previous_height == height);
        let o = diff_render(m, new, hu).1;
        let u = lemma_diff_render_shows(v, m, texts, new, ntexts, height);
        if changed_range(m.previous_lines, new).is_none() {
            assert(o =~= Seq::<char>::empty());
        } else {
            lemma_feed_one(v, o);
        }
        u
    }
}

/// The texts of a frame's lines padded to the terminal height, cursor
/// markers removed.
pub open spec fn frame_texts(raw: Seq<LineView>, height: u16) -> Seq<Seq<char>> {
    Seq::new(padded(raw, height as nat).len(), |k: int| shown_text(padded(raw, height as nat)[k]))
}

/// Lines whose text, cursor markers removed, is printable (in any styles),
/// each fitting `width` cells.
pub open spec fn printable_fitting(raw: Seq<LineView>, width: u16) -> bool {
    forall|k: int|
        0 <= k < raw.len() ==> printable(shown_text(#[trigger] raw[k])) && shown_text(raw[k]).len() <= width
            && line_width(raw[k]) <= width
}

/// The frame's cursor marker, if it has one, stands on a row of the
/// viewport the frame leaves.
pub open spec fn marker_on_screen(m: RenderModel, raw: Seq<LineView>, width: u16, height: u16) -> bool {
    match processed(padded(raw, height as nat), width as nat) {
        Ok((new, Some((row, _)))) => {
            let top = strategy(m, new, width, height).0.viewport_top;
            top <= row && row < top + height
        },
        _ => true,
    }
}

proof fn lemma_feed_writes_push(v: VtModel, ws: Seq<Seq<char>>, x: Seq<char>)
    ensures
        feed_writes(v, ws.push(x)) == match feed_writes(v, ws) {
            Some(u) => feed_from(u, x, 0),
            None => None,
        },
{
    assert(ws.push(x).drop_last() =~= ws);
    assert(ws.push(x).last() == x);
}

/// A fresh terminal shows a fresh renderer's (empty) frame.
pub proof fn law_fresh_terminal_displays_fresh_renderer(width: u16, height: u16, clear_on_shrink: bool)
    requires
        height >= 1,
    ensures
        displays(fresh_vt(width, height), fresh_model(clear_on_shrink), Seq::<Seq<char>>::empty()),
{
    let v = fresh_vt(width, height);
    assert(rows_wide(v, width));
    assert(serialized_lines(Seq::<Seq<char>>::empty(), Seq::<Seq<char>>::empty()));
}

/// A render request keeps the terminal showing the renderer's frame: a
/// plain request changes nothing the terminal depends on, a forced one
/// makes the next frame clear the screen.
pub proof fn law_request_keeps_display(v: VtModel, m: RenderModel, texts: Seq<Seq<char>>, force: bool)
    requires
        displays(v, m, texts),
    ensures
        displays(v, requested(m, force), texts),
{
}

/// The hardware cursor placed by a move between rows then an absolute
/// column: the terminal's cursor row is the target, its rows unchanged.
proof fn lemma_place_cursor(u: VtModel, from: usize, r: usize, col: nat) -> (g2: VtModel)
    requires
        u.cy == from,
        from < u.grid.len(),
        r < u.grid.len(),
        r <= u16::MAX,
    ensures
        feed_from(u, move_rows(from, r) + csi_n(col + 1, 'G'), 0) == Some(g2),
        g2.grid == u.grid,
        g2.cy == r,
        g2.width == u.width,
{
    let w0 = move_rows(from, r) + csi_n(col + 1, 'G');
    let g = go_row(u, r as u16);
    lemma_at_whole(w0);
    lemma_at_split(w0, 0, move_rows(from, r), csi_n(col + 1, 'G'));
    lemma_feed_move(u, w0, 0, from, r);
    let q = move_rows(from, r).len() as int;
    let d = decimal(col + 1);
    lemma_decimal_digits(col + 1);
    assert forall|i: int| 0 <= i < d.len() implies !is_final_byte(#[trigger] d[i]) by {
        assert(is_digit(d[i]));
    }
    lemma_feed_csi_at(g, w0, q, d, 'G');
    let g2 = csi_apply(g, 'G', csi_nums(d)).unwrap();
    reveal_strlit("\x1b[");
    assert(csi_n(col + 1, 'G').len() == d.len() + 3);
    assert(q + d.len() + 3 == w0.len());
    g2
}

/// Every frame keeps the terminal showing the renderer's frame: from a
/// terminal that shows the renderer's last frame, a frame of lines of
/// printable text (in any styles, cursor markers removed) that fit the
/// terminal's width, its writes fed in order, leaves row `k` reading as
/// line `k`'s text without its markers (and without trailing white space)
/// and the terminal showing the new frame; whatever strategy the renderer
/// chose (first render, full redraw, range rewrite, tail clear, or
/// nothing), and wherever the hardware cursor is then placed for a marker
/// on the screen.
pub proof fn law_frames_keep_screen(
    v: VtModel,
    m: RenderModel,
    texts: Seq<Seq<char>>,
    raw: Seq<LineView>,
    width: u16,
    height: u16,
    now: u64,
)
    requires
        displays(v, m, texts),
        v.width == width,
        height >= 1,
        printable_fitting(raw, width),
        marker_on_screen(m, raw, width, height),
        raw.len() <= u16::MAX,
        m.previous_lines.len() <= u16::MAX,
        m.viewport_top + height <= u16::MAX,
    ensures
        frame(m, raw, width, height, now) is Ok,
        ({
            let m2 = frame(m, raw, width, height, now)->Ok_0.0;
            let ws = frame(m, raw, width, height, now)->Ok_0.1;
            &&& feed_writes(v, ws) is Some
            &&& displays(feed_writes(v, ws).unwrap(), m2, frame_texts(raw, height))
            &&& forall|k: int|
                0 <= k < raw.len() ==> #[trigger] row_text_of(feed_writes(v, ws).unwrap(), k) == trim_end(
                    shown_text(raw[k]),
                )
        }),
{
    let p = padded(raw, height as nat);
    let n = p.len() as int;
    assert(n >= 1 && n <= u16::MAX);
    assert forall|k: int| 0 <= k < n implies (#[trigger] p[k] == if k < raw.len() {
        raw[k]
    } else {
        Seq::<(Seq<char>, crate::style::CellStyle)>::empty()
    }) by {}
    assert forall|k: int| 0 <= k < n implies printable(shown_text(#[trigger] p[k])) && shown_text(p[k]).len()
        <= width && line_width(p[k]) <= width by {
        if k >= raw.len() {
            assert(p[k].len() == 0);
            assert(shown_text(p[k]) =~= Seq::<char>::empty());
        }
    }
    lemma_processed_fitting(p, width as nat);
    let lines = processed(p, width as nat)->Ok_0.0;
    let cursor = processed(p, width as nat)->Ok_0.1;
    let nt = frame_texts(raw, height);
    assert forall|k: int| 0 <= k < lines.len() implies line_of(#[trigger] lines[k], nt[k]) by {
        lemma_line_of_serialized(p[k]);
    }
    assert(serialized_lines(lines, nt));
    assert(texts_fit(nt, width));
    let st = strategy(m, lines, width, height);
    let u = lemma_strategy_shows(v, m, texts, lines, nt, width, height);
    let m1 = st.0;
    let cw = cursor_writes(m1, cursor, lines.len() as usize);
    let hide = "\x1b[?25l"@;
    reveal_strlit("\x1b[?25l");
    lemma_at_whole(hide);
    let fr = frame(m, raw, width, height, now);
    assert(fr is Ok);
    assert(fr->Ok_0.1 == st.1 + cw.1);
    let uf = match cursor {
        Some((row, col)) => {
            let r = row as usize;
            let w0 = move_rows(m1.hw_row, r) + csi_n(col + 1, 'G');
            assert(cw == (RenderModel { hw_row: r, ..m1 }, seq![w0, hide]));
            assert(st.1 + seq![w0, hide] == st.1.push(w0).push(hide));
            lemma_feed_writes_push(v, st.1.push(w0), hide);
            lemma_feed_writes_push(v, st.1, w0);
            let g2 = lemma_place_cursor(u, m1.hw_row, r, col);
            lemma_feed_mode(g2, hide, 0, hide);
            assert(feed_writes(v, fr->Ok_0.1) == Some(g2));
            g2
        },
        None => {
            assert(cw == (m1, seq![hide]));
            assert(st.1 + seq![hide] == st.1.push(hide));
            lemma_feed_writes_push(v, st.1, hide);
            lemma_feed_mode(u, hide, 0, hide);
            assert(feed_writes(v, fr->Ok_0.1) == Some(u));
            u
        },
    };
    assert(displays(uf, fr->Ok_0.0, nt));
    assert forall|k: int| 0 <= k < raw.len() implies #[trigger] row_text_of(uf, k) == trim_end(shown_text(raw[k]))
        by {
        assert(written_prefix(uf.grid[k]) == nt[k]);
    }
}

/// Every serialized line ends with the line reset, so none is empty.
proof fn lemma_processed_nonempty(s: Seq<LineView>, width: nat)
    ensures
        processed(s, width) matches Ok((out, _)) ==> forall|k: int| 0 <= k < out.len() ==> (#[trigger] out[k]).len() >= 10,
    decreases s.len(),
{
    reveal_strlit("\x1b[0m\x1b]8;;\x07");
    if s.len() > 0 {
        lemma_processed_nonempty(s.drop_last(), width);
        if processed(s, width) is Ok {
            let out0 = processed(s.drop_last(), width)->Ok_0.0;
            let line = serialize_line(s.last()).0;
            assert(line.len() >= 10);
            let out = processed(s, width)->Ok_0.0;
            assert(out == out0.push(line));
            assert forall|k: int| 0 <= k < out.len() implies (#[trigger] out[k]).len() >= 10 by {
                if k < out0.len() {
                    assert(out[k] == out0[k]);
                }
            }
        }
    }
}

/// When a frame does not shrink the content, a viewport that showed the
/// tail of the previous frame shows the tail of the new one: its top row is
/// the frame's line count (padded to the height) minus the height, or 0
/// when the frame fits on the screen.
pub proof fn law_growing_frame_keeps_viewport_at_tail(
    m: RenderModel,
    raw: Seq<LineView>,
    width: u16,
    height: u16,
    now: u64,
)
    requires
        height >= 1,
        m.previous_lines.len() <= padded(raw, height as nat).len(),
        padded(raw, height as nat).len() <= usize::MAX,
        m.viewport_top == sat_sub(m.previous_lines.len() as usize, height as usize),
    ensures
        frame(m, raw, width, height, now) is Ok ==> frame(m, raw, width, height, now)->Ok_0.0.viewport_top
            == sat_sub(padded(raw, height as nat).len() as usize, height as usize),
{
    reveal(scroll_step);
    reveal(shrink_step);
    let p = padded(raw, height as nat);
    lemma_processed_len(p, width as nat);
    lemma_processed_nonempty(p, width as nat);
    if processed(p, width as nat) is Ok {
        let new = processed(p, width as nat)->Ok_0.0;
        let prev = m.previous_lines;
        let np = prev.len() as usize;
        let nn = new.len() as usize;
        let hu = height as usize;
        let n = span_len(prev, new);
        lemma_first_in(prev, new, n);
        lemma_last_in(prev, new, n);
        if nn > np {
            assert(line_at(new, nn - 1) == new[nn - 1]);
            assert(new[nn - 1].len() >= 10);
            assert(differs(prev, new, nn - 1));
            assert(last_in(prev, new, n) == Some(nn - 1));
            assert(line_at(new, np as int) == new[np as int]);
            assert(differs(prev, new, np as int));
        }
    }
}

/// Styles do not cross lines: every serialized line of a frame ends with
/// the line reset, and the line reset brings any terminal back to the plain
/// style, changing nothing else.
pub proof fn law_styles_do_not_cross_lines(raw: Seq<LineView>, width: nat, v: VtModel)
    ensures
        processed(raw, width) is Ok ==> forall|k: int|
            0 <= k < processed(raw, width)->Ok_0.0.len() ==> (#[trigger] processed(raw, width)->Ok_0.0[k]).len()
                >= 10 && processed(raw, width)->Ok_0.0[k].skip(
                processed(raw, width)->Ok_0.0[k].len() - 10,
            ) == StyledLine::LINE_RESET@,
        feed_from(v, StyledLine::LINE_RESET@, 0) == Some(VtModel { style: plain_vstyle(), ..v }),
    decreases raw.len(),
{
    reveal_strlit("\x1b[0m\x1b]8;;\x07");
    let r = StyledLine::LINE_RESET@;
    if raw.len() > 0 {
        law_styles_do_not_cross_lines(raw.drop_last(), width, v);
        if processed(raw, width) is Ok {
            let out0 = processed(raw.drop_last(), width)->Ok_0.0;
            let line = serialize_line(raw.last()).0;
            let out = processed(raw, width)->Ok_0.0;
            assert(out == out0.push(line));
            assert(line.skip(line.len() - 10) =~= r);
            assert forall|k: int| 0 <= k < out.len() implies (#[trigger] out[k]).len() >= 10 && out[k].skip(
                out[k].len() - 10,
            ) == r by {
                if k < out0.len() {
                    assert(out[k] == out0[k]);
                }
            }
        }
    }
    // The reset itself: SGR 0, then an empty hyperlink target.
    lemma_at_whole(r);
    let sgr0 = "\x1b["@ + decimal(0) + seq!['m'];
    reveal_strlit("\x1b[");
    assert(decimal(0) == seq!['0']);
    assert(r.subrange(0, 4) =~= sgr0);
    assert(at(r, 0, sgr0));
    lemma_csi_nums_decimal(0);
    assert(!is_final_byte('0'));
    lemma_feed_csi_at(v, r, 0, decimal(0), 'm');
    assert(seq![0i64][0] == 0);
    assert(crate::virtual_terminal::sgr_one(v.style, seq![0i64], 0) == (plain_vstyle(), 0int));
    assert(sgr_from(plain_vstyle(), seq![0i64], 1) == plain_vstyle());
    assert(sgr_from(v.style, seq![0i64], 0) == plain_vstyle());
    let v1 = VtModel { style: plain_vstyle(), ..v };
    assert(csi_apply(v, 'm', seq![0i64]) == Some(v1));
    assert forall|q: int| 4 + 2 <= q < 9 implies #[trigger] r[q] != '\x07' && r[q] != '\x1b' by {}
    crate::replay::lemma_feed_osc(v1, r, 4, 9);
}

} // verus!
