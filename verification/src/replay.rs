//! What the renderer writes, read back on a virtual terminal: how positioned
//! pieces of the output (text, SGR and other escapes, serialized lines, line
//! breaks) act on the terminal, and a first frame fed to a fresh terminal
//! showing each line's text on its row.

use vstd::prelude::*;
use crate::render::{frame, fresh_model, processed, padded, join_crlf, first_match};
use crate::style::{
    LineView,
    StyledLine,
    CellStyle,
    Color,
    CURSOR_MARKER,
    line_width,
    empty_style,
    sgr_params,
    join,
    fg_param,
    bg_param,
    rgb_params,
    flag_param,
};
use crate::text::trim_end;
use crate::marker::{shown_text, lemma_line_of_serialized, lemma_processed_fitting};
use crate::csi::{csi_nums, is_digit, lemma_decimal_digits};
use crate::text::decimal;
use crate::virtual_terminal::{
    VtModel,
    VCell,
    feed_from,
    step,
    put_char,
    line_feed,
    with_row,
    blank_row,
    fresh_vt,
    written_prefix,
    row_text_of,
    printable,
    final_index,
    csi_apply,
    string_seq_end,
    is_final_byte,
    lemma_put_char_in_row,
    lemma_row_update,
    lemma_final_index_bounds,
    lemma_written_prefix_is,
};

verus! {

/// A byte that neither moves the cursor nor clears as a CSI final byte.
pub open spec fn screen_neutral_final(c: char) -> bool {
    is_final_byte(c) && c != 'A' && c != 'B' && c != 'C' && c != 'D' && c != 'G' && c != 'H'
        && c != 'f' && c != 'J' && c != 'K'
}

/// The same cells and cursor (the style may differ).
pub open spec fn same_screen(a: VtModel, b: VtModel) -> bool {
    &&& a.width == b.width
    &&& a.grid == b.grid
    &&& a.cx == b.cx
    &&& a.cy == b.cy
}

pub proof fn lemma_feed_unfold(m: VtModel, s: Seq<char>, i: int)
    requires
        0 <= i < s.len(),
        step(m, s, i).0 is Some,
        step(m, s, i).1 > i,
    ensures
        feed_from(m, s, i) == feed_from(step(m, s, i).0.unwrap(), s, step(m, s, i).1),
{
}

pub proof fn lemma_final_at(s: Seq<char>, k: int, e: int)
    requires
        0 <= k <= e < s.len(),
        forall|q: int| k <= q < e ==> !is_final_byte(#[trigger] s[q]),
        is_final_byte(s[e]),
    ensures
        final_index(s, k) == e,
    decreases e - k,
{
    if k < e {
        lemma_final_at(s, k + 1, e);
    }
}

/// A CSI sequence from `i` to its final byte at `e` that neither moves nor
/// clears leaves the screen as it was.
pub proof fn lemma_feed_csi_neutral(m: VtModel, s: Seq<char>, i: int, e: int)
    requires
        0 <= i,
        i + 2 <= e < s.len(),
        s[i] == '\x1b',
        s[i + 1] == '[',
        forall|q: int| i + 2 <= q < e ==> !is_final_byte(#[trigger] s[q]),
        screen_neutral_final(s[e]),
    ensures
        step(m, s, i).0 matches Some(m2) && same_screen(m2, m) && step(m, s, i).1 == e + 1
            && feed_from(m, s, i) == feed_from(m2, s, e + 1),
{
    lemma_final_at(s, i + 2, e);
    lemma_feed_unfold(m, s, i);
}

pub proof fn lemma_string_end_at(s: Seq<char>, k: int, e: int)
    requires
        0 <= k <= e < s.len(),
        forall|q: int| k <= q < e ==> #[trigger] s[q] != '\x07' && s[q] != '\x1b',
        s[e] == '\x07',
    ensures
        string_seq_end(s, k) == e + 1,
    decreases e - k,
{
    if k < e {
        lemma_string_end_at(s, k + 1, e);
    }
}

/// An OSC sequence from `i`, ended by the BEL at `e`, is skipped.
pub proof fn lemma_feed_osc(m: VtModel, s: Seq<char>, i: int, e: int)
    requires
        0 <= i,
        i + 2 <= e < s.len(),
        s[i] == '\x1b',
        s[i + 1] == ']',
        forall|q: int| i + 2 <= q < e ==> #[trigger] s[q] != '\x07' && s[q] != '\x1b',
        s[e] == '\x07',
    ensures
        feed_from(m, s, i) == feed_from(m, s, e + 1),
{
    lemma_string_end_at(s, i + 2, e);
    lemma_feed_unfold(m, s, i);
}

/// Row `y` of `v` holds `t[..i]` from its start and then never-written
/// cells; the cursor is on row `y` just after the text; other rows are
/// those of `m`.
pub open spec fn row_written(m: VtModel, v: VtModel, y: int, t: Seq<char>, i: int) -> bool {
    &&& v.width == m.width
    &&& v.cx == i
    &&& v.cy == y
    &&& v.grid.len() == m.grid.len()
    &&& v.grid[y].len() == m.width
    &&& forall|k: int| 0 <= k < v.grid.len() && k != y ==> v.grid[k] == m.grid[k]
    &&& forall|j: int| 0 <= j < i ==> (#[trigger] v.grid[y][j]).ch == t[j]
    &&& forall|j: int| i <= j < m.width ==> (#[trigger] v.grid[y][j]).ch == '\0'
}

/// Rows before `j` show `texts`, row `j` exists and it and the rows after
/// it are blank; the cursor is at the start of row `j`.
pub open spec fn lines_shown(v: VtModel, vw: u16, texts: Seq<Seq<char>>, j: int) -> bool {
    &&& v.width == vw
    &&& v.cx == 0
    &&& v.cy == j
    &&& 0 <= j < v.grid.len()
    &&& forall|k: int| 0 <= k < j ==> #[trigger] v.grid[k].len() == vw
    &&& forall|k: int| 0 <= k < j ==> written_prefix(#[trigger] v.grid[k]) == texts[k]
    &&& forall|k: int| j <= k < v.grid.len() ==> #[trigger] v.grid[k] == blank_row(vw)
}

/// A serialized line: printable characters and SGR sequences showing `t`,
/// then the line reset.
pub open spec fn line_of(line: Seq<char>, t: Seq<char>) -> bool {
    exists|a: Seq<char>| #![trigger shown_from(a, 0)] a + StyledLine::LINE_RESET@ == line && shown_from(a, 0) == Some(t)
}

/// A serialized line ends with the ten characters of the line reset.
pub proof fn lemma_line_of_len(line: Seq<char>, t: Seq<char>)
    requires
        line_of(line, t),
    ensures
        line.len() >= 10,
{
    reveal_strlit("\x1b[0m\x1b]8;;\x07");
    let a = choose|a: Seq<char>| #![trigger shown_from(a, 0)] a + StyledLine::LINE_RESET@ == line && shown_from(a, 0) == Some(t);
}

/// A serialized line determines its text.
pub proof fn lemma_line_text_unique(line: Seq<char>, t1: Seq<char>, t2: Seq<char>)
    requires
        line_of(line, t1),
        line_of(line, t2),
    ensures
        t1 == t2,
{
    let r = StyledLine::LINE_RESET@;
    let a1 = choose|a: Seq<char>| #![trigger shown_from(a, 0)] a + r == line && shown_from(a, 0) == Some(t1);
    let a2 = choose|a: Seq<char>| #![trigger shown_from(a, 0)] a + r == line && shown_from(a, 0) == Some(t2);
    assert((a1 + r).len() == a1.len() + r.len());
    assert((a2 + r).len() == a2.len() + r.len());
    assert forall|i: int| 0 <= i < a1.len() implies a1[i] == a2[i] by {
        assert((a1 + r)[i] == a1[i]);
        assert((a2 + r)[i] == a2[i]);
    }
    assert(a1 =~= a2);
}


/// One serialized line fed from `q` with the cursor at the start of a blank
/// row: that row then shows the line's text `t` and the other rows are
/// unchanged.
pub proof fn lemma_feed_line(v: VtModel, vw: u16, t: Seq<char>, s: Seq<char>, q: int, line: Seq<char>) -> (v3: VtModel)
    requires
        v.width == vw,
        v.cx == 0,
        v.cy < v.grid.len(),
        v.grid[v.cy as int] == blank_row(vw),
        t.len() <= vw,
        printable(t),
        line_of(line, t),
        at(s, q, line),
    ensures
        feed_from(v, s, q) == feed_from(v3, s, q + line.len()),
        v3.width == vw,
        v3.cy == v.cy,
        v3.grid.len() == v.grid.len(),
        forall|k: int| 0 <= k < v.grid.len() && k != v.cy ==> v3.grid[k] == v.grid[k],
        v3.grid[v.cy as int].len() == vw,
        written_prefix(v3.grid[v.cy as int]) == t,
{
    let y = v.cy as int;
    reveal_strlit("\x1b[0m\x1b]8;;\x07");
    let reset = StyledLine::LINE_RESET@;
    assert(reset.len() == 10);
    assert(reset[0] == '\x1b' && reset[1] == '[' && reset[2] == '0' && reset[3] == 'm');
    assert(reset[4] == '\x1b' && reset[5] == ']' && reset[6] == '8' && reset[7] == ';');
    assert(reset[8] == ';' && reset[9] == '\x07');
    let a = choose|a: Seq<char>| #![trigger shown_from(a, 0)] a + StyledLine::LINE_RESET@ == line && shown_from(a, 0) == Some(t);
    lemma_at_split(s, q, a, reset);
    assert(row_written(v, v, y, t, 0));
    assert(t.subrange(0, t.len() as int) =~= t);
    let u = lemma_feed_shown(v, v, s, q, a, 0, t, t, y, 0);
    let r = q + a.len();
    assert forall|k: int| 0 <= k < 10 implies s[r + k] == reset[k] by {
        lemma_at_char(s, r, reset, k);
    }
    lemma_feed_csi_neutral(u, s, r, r + 3);
    let u2 = step(u, s, r).0.unwrap();
    lemma_feed_osc(u2, s, r + 4, r + 9);
    lemma_written_prefix_is(u2.grid[y], t);
    u2
}

/// A carriage return then a line feed from `r`, after line `j` was
/// written: the cursor goes to the start of row `j + 1`, created blank if
/// needed.
pub proof fn lemma_feed_crlf(
    v: VtModel,
    v3: VtModel,
    vw: u16,
    texts: Seq<Seq<char>>,
    s: Seq<char>,
    r: int,
    j: int,
) -> (v5: VtModel)
    requires
        lines_shown(v, vw, texts, j),
        0 <= j < texts.len(),
        j < u16::MAX,
        v3.width == vw,
        v3.cy == j,
        v3.grid.len() == v.grid.len(),
        forall|k: int| 0 <= k < v.grid.len() && k != j ==> v3.grid[k] == v.grid[k],
        v3.grid[j].len() == vw,
        written_prefix(v3.grid[j]) == texts[j],
        0 <= r,
        r + 2 <= s.len(),
        s[r] == '\r',
        s[r + 1] == '\n',
    ensures
        feed_from(v3, s, r) == feed_from(v5, s, r + 2),
        lines_shown(v5, vw, texts, j + 1),
{
    let v4 = VtModel { cx: 0, ..v3 };
    assert(step(v3, s, r) == (Some(v4), r + 1));
    lemma_feed_unfold(v3, s, r);
    let v5 = line_feed(v4);
    assert(step(v4, s, r + 1) == (Some(v5), r + 2));
    lemma_feed_unfold(v4, s, r + 1);
    let y = (j + 1) as u16;
    let g = VtModel { cy: y, cx: 0, ..v4 };
    assert(v5 == with_row(g, y));
    assert forall|k: int| 0 <= k < j + 1 implies #[trigger] v5.grid[k].len() == vw && written_prefix(v5.grid[k])
        == texts[k] by {
        assert(v5.grid[k] == v3.grid[k]);
        if k < j {
            assert(v3.grid[k] == v.grid[k]);
        }
    }
    assert forall|k: int| j + 1 <= k < v5.grid.len() implies #[trigger] v5.grid[k] == blank_row(vw) by {
        if k < v3.grid.len() {
            assert(v5.grid[k] == v3.grid[k]);
            assert(v3.grid[k] == v.grid[k]);
        }
    }
    v5
}

/// The lines before `j`, each followed by CR LF.
pub open spec fn crlf_prefix(lines: Seq<Seq<char>>, j: int) -> Seq<char>
    decreases j,
{
    if j <= 0 {
        seq![]
    } else {
        crlf_prefix(lines, j - 1) + lines[j - 1] + "\r\n"@
    }
}

pub proof fn lemma_join_take(lines: Seq<Seq<char>>, j: int)
    requires
        0 <= j < lines.len(),
    ensures
        join_crlf(lines.take(j + 1)) == crlf_prefix(lines, j) + lines[j],
    decreases j,
{
    if j == 0 {
        assert(lines.take(1).len() == 1);
        assert(lines.take(1)[0] == lines[0]);
        assert(crlf_prefix(lines, 0) + lines[0] =~= lines[0]);
    } else {
        lemma_join_take(lines, j - 1);
        assert(lines.take(j + 1).drop_last() =~= lines.take(j));
        assert(lines.take(j + 1).last() == lines[j]);
        assert(crlf_prefix(lines, j) + lines[j] =~= join_crlf(lines.take(j)) + "\r\n"@ + lines[j]);
    }
}

pub proof fn lemma_crlf_prefix_grows(lines: Seq<Seq<char>>, a: int, b: int)
    requires
        0 <= a <= b,
    ensures
        crlf_prefix(lines, a).len() <= crlf_prefix(lines, b).len(),
        forall|x: int| 0 <= x < crlf_prefix(lines, a).len() ==> #[trigger] crlf_prefix(lines, b)[x] == crlf_prefix(
            lines,
            a,
        )[x],
    decreases b - a,
{
    if a < b {
        lemma_crlf_prefix_grows(lines, a, b - 1);
    }
}

/// The first lines of a frame are on their rows: for every `k < upto`,
/// row `k` exists and shows `texts[k]`.
pub open spec fn rows_show(v: VtModel, texts: Seq<Seq<char>>, upto: int) -> bool {
    &&& upto <= v.grid.len()
    &&& forall|k: int| 0 <= k < upto ==> written_prefix(#[trigger] v.grid[k]) == texts[k]
}

/// The joined lines fed from line `j` (with the rows before it shown and
/// the cursor at the start of blank row `j`) show every line.
pub proof fn lemma_walk(
    v: VtModel,
    vw: u16,
    texts: Seq<Seq<char>>,
    lines: Seq<Seq<char>>,
    s: Seq<char>,
    base: int,
    j: int,
) -> (vf: VtModel)
    requires
        lines.len() == texts.len(),
        1 <= lines.len() <= u16::MAX,
        0 <= j < lines.len(),
        lines_shown(v, vw, texts, j),
        forall|k: int| 0 <= k < lines.len() ==> line_of(#[trigger] lines[k], texts[k]),
        forall|k: int| 0 <= k < texts.len() ==> (#[trigger] texts[k]).len() <= vw && printable(texts[k]),
        0 <= base,
        base + (crlf_prefix(lines, lines.len() - 1) + lines.last()).len() <= s.len(),
        forall|x: int|
            0 <= x < (crlf_prefix(lines, lines.len() - 1) + lines.last()).len() ==> s[base + x] == #[trigger] (
            crlf_prefix(lines, lines.len() - 1) + lines.last())[x],
    ensures
        feed_from(v, s, base + crlf_prefix(lines, j).len()) == feed_from(
            vf,
            s,
            base + (crlf_prefix(lines, lines.len() - 1) + lines.last()).len(),
        ),
        vf.width == vw,
        rows_show(vf, texts, lines.len() as int),
        vf.cy == lines.len() - 1,
        forall|k: int| 0 <= k < vf.grid.len() ==> (#[trigger] vf.grid[k]).len() == vw,
        forall|k: int| lines.len() <= k < vf.grid.len() ==> #[trigger] vf.grid[k] == blank_row(vw),
    decreases lines.len() - j,
{
    let n = lines.len() as int;
    let all = crlf_prefix(lines, n - 1) + lines.last();
    let cp = crlf_prefix(lines, j);
    let q = base + cp.len();
    let t = texts[j];
    let line = lines[j];
    assert(line_of(line, t));
    lemma_crlf_prefix_grows(lines, j, n - 1);
    if j + 1 < n {
        lemma_crlf_prefix_grows(lines, j + 1, n - 1);
    }
    // The line sits at `q` in `s`.
    assert(s.subrange(q, q + line.len()) =~= line) by {
        assert forall|y: int| 0 <= y < line.len() implies s.subrange(q, q + line.len())[y] == line[y] by {
            if j + 1 < n {
                let cp1 = crlf_prefix(lines, j + 1);
                assert(cp1 == cp + line + "\r\n"@);
                assert(cp1[cp.len() + y] == line[y]);
                assert(all[cp.len() + y] == cp1[cp.len() + y]);
            } else {
                assert(all[cp.len() + y] == line[y]);
            }
            assert(s[base + cp.len() + y] == all[cp.len() + y]);
        }
    }
    assert(v.grid[j] == blank_row(vw));
    let v3 = lemma_feed_line(v, vw, t, s, q, line);
    if j + 1 < n {
        let cp1 = crlf_prefix(lines, j + 1);
        assert(cp1 == cp + line + "\r\n"@);
        reveal_strlit("\r\n");
        let r = q + line.len();
        assert(all[r - base] == cp1[r - base]);
        assert(all[r - base + 1] == cp1[r - base + 1]);
        assert(s[r] == '\r' && s[r + 1] == '\n');
        let v5 = lemma_feed_crlf(v, v3, vw, texts, s, r, j);
        assert(base + cp1.len() == r + 2);
        let vf = lemma_walk(v5, vw, texts, lines, s, base, j + 1);
        vf
    } else {
        assert(q + line.len() == base + all.len());
        assert forall|k: int| 0 <= k < n implies written_prefix(#[trigger] v3.grid[k]) == texts[k] by {
            if k != j {
                assert(v3.grid[k] == v.grid[k]);
            }
        }
        assert forall|k: int| 0 <= k < v3.grid.len() implies (#[trigger] v3.grid[k]).len() == vw by {
            if k != j {
                assert(v3.grid[k] == v.grid[k]);
            }
        }
        assert forall|k: int| n <= k < v3.grid.len() implies #[trigger] v3.grid[k] == blank_row(vw) by {
            assert(v3.grid[k] == v.grid[k]);
        }
        v3
    }
}

/// The first frame shows its lines: when a fresh renderer draws a frame of
/// lines of printable text (in any styles, cursor markers removed) that fit
/// the terminal, its first write, fed to a fresh terminal of the same size,
/// leaves row `k` reading as line `k`'s text without its markers (and
/// without trailing white space), and the padding rows below the content
/// empty.
pub proof fn law_first_frame_shows_lines(
    raw: Seq<LineView>,
    width: u16,
    height: u16,
    now: u64,
    clear_on_shrink: bool,
)
    requires
        height >= 1,
        raw.len() <= u16::MAX,
        forall|k: int|
            0 <= k < raw.len() ==> printable(shown_text(#[trigger] raw[k])) && shown_text(raw[k]).len() <= width
                && line_width(raw[k]) <= width,
    ensures
        frame(fresh_model(clear_on_shrink), raw, width, height, now) is Ok,
        ({
            let ws = frame(fresh_model(clear_on_shrink), raw, width, height, now)->Ok_0.1;
            let shown = feed_from(fresh_vt(width, height), ws[0], 0);
            &&& ws.len() >= 1
            &&& shown is Some
            &&& forall|k: int|
                0 <= k < raw.len() ==> #[trigger] row_text_of(shown.unwrap(), k) == trim_end(shown_text(raw[k]))
            &&& forall|k: int| raw.len() <= k < height ==> #[trigger] row_text_of(shown.unwrap(), k) == Seq::<
                char,
            >::empty()
        }),
{
    let p = padded(raw, height as nat);
    let n = p.len() as int;
    assert(n >= 1 && n <= u16::MAX);
    assert forall|k: int| 0 <= k < n implies (#[trigger] p[k] == if k < raw.len() {
        raw[k]
    } else {
        Seq::<(Seq<char>, crate::style::CellStyle)>::empty()
    }) by {}
    assert forall|k: int| 0 <= k < n implies printable(shown_text(#[trigger] p[k])) && shown_text(p[k]).len()
        <= width && line_width(p[k]) <= width by {
        if k >= raw.len() {
            assert(p[k].len() == 0);
            assert(shown_text(p[k]) =~= Seq::<char>::empty());
        }
    }
    lemma_processed_fitting(p, width as nat);
    let lines = processed(p, width as nat)->Ok_0.0;
    let texts = Seq::new(n as nat, |k: int| shown_text(p[k]));
    assert forall|k: int| 0 <= k < lines.len() implies line_of(#[trigger] lines[k], texts[k]) by {
        lemma_line_of_serialized(p[k]);
    }
    let m0 = fresh_model(clear_on_shrink);
    let out = "\x1b[?2026h"@ + Seq::<char>::empty() + join_crlf(lines) + "\x1b[?2026l"@;
    let fr = frame(m0, raw, width, height, now);
    assert(fr is Ok);
    let ws = fr->Ok_0.1;
    assert(ws[0] == out);
    reveal_strlit("\x1b[?2026h");
    reveal_strlit("\x1b[?2026l");
    let bsu = "\x1b[?2026h"@;
    let esu = "\x1b[?2026l"@;
    lemma_join_take(lines, n - 1);
    assert(lines.take(n) =~= lines);
    let all = crlf_prefix(lines, n - 1) + lines.last();
    assert(join_crlf(lines) == all);
    assert(out =~= bsu + all + esu);
    // Begin synchronized update: the screen is untouched.
    let vt0 = fresh_vt(width, height);
    assert(out[0] == '\x1b' && out[1] == '[' && out[7] == 'h');
    assert forall|q: int| 2 <= q < 7 implies !is_final_byte(#[trigger] out[q]) by {
        assert(out[q] == bsu[q]);
    }
    lemma_feed_csi_neutral(vt0, out, 0, 7);
    let vt1 = step(vt0, out, 0).0.unwrap();
    assert forall|k: int| 0 <= k < vt1.grid.len() implies #[trigger] vt1.grid[k] == blank_row(width) by {}
    assert(lines_shown(vt1, width, texts, 0));
    // The lines.
    assert forall|x: int| 0 <= x < all.len() implies out[8 + x] == #[trigger] all[x] by {}
    assert forall|k: int| 0 <= k < texts.len() implies (#[trigger] texts[k]).len() <= width && printable(texts[k]) by {}
    assert(crlf_prefix(lines, 0).len() == 0);
    let vf = lemma_walk(vt1, width, texts, lines, out, 8, 0);
    // End synchronized update: the screen is untouched.
    let e0: int = 8 + all.len() as int;
    assert(out[e0] == '\x1b' && out[e0 + 1] == '[' && out[e0 + 7] == 'l');
    assert forall|q: int| e0 + 2 <= q < e0 + 7 implies !is_final_byte(#[trigger] out[q]) by {
        assert(out[q] == esu[q - e0]);
    }
    lemma_feed_csi_neutral(vf, out, e0, e0 + 7);
    let vf2 = step(vf, out, e0).0.unwrap();
    assert(feed_from(vt0, out, 0) == Some(vf2));
    assert forall|k: int| 0 <= k < raw.len() implies #[trigger] row_text_of(vf2, k) == trim_end(
        shown_text(raw[k]),
    ) by {
        assert(written_prefix(vf2.grid[k]) == texts[k]);
    }
    assert forall|k: int| raw.len() <= k < height implies #[trigger] row_text_of(vf2, k)
        == Seq::<char>::empty() by {
        assert(written_prefix(vf2.grid[k]) == texts[k]);
        assert(p[k].len() == 0);
        assert(texts[k] == Seq::<char>::empty());
    }
}

/// `x` stands at index `p` of `s`.
pub open spec fn at(s: Seq<char>, p: int, x: Seq<char>) -> bool {
    &&& 0 <= p
    &&& p + x.len() <= s.len()
    &&& s.subrange(p, p + x.len()) == x
}

pub proof fn lemma_at_split(s: Seq<char>, p: int, a: Seq<char>, b: Seq<char>)
    requires
        at(s, p, a + b),
    ensures
        at(s, p, a),
        at(s, p + a.len(), b),
{
    let ab = a + b;
    assert(s.subrange(p, p + a.len()) =~= a) by {
        assert forall|k: int| 0 <= k < a.len() implies s.subrange(p, p + a.len())[k] == a[k] by {
            assert(s.subrange(p, p + ab.len())[k] == ab[k]);
        }
    }
    assert(s.subrange(p + a.len(), p + a.len() + b.len()) =~= b) by {
        assert forall|k: int| 0 <= k < b.len() implies s.subrange(p + a.len(), p + a.len() + b.len())[k]
            == b[k] by {
            assert(s.subrange(p, p + ab.len())[a.len() + k] == ab[a.len() + k]);
        }
    }
}

pub proof fn lemma_at_char(s: Seq<char>, p: int, x: Seq<char>, k: int)
    requires
        at(s, p, x),
        0 <= k < x.len(),
    ensures
        s[p + k] == x[k],
{
    assert(s.subrange(p, p + x.len())[k] == x[k]);
}

pub proof fn lemma_at_join(s: Seq<char>, p: int, a: Seq<char>, b: Seq<char>)
    requires
        at(s, p, a),
        at(s, p + a.len(), b),
    ensures
        at(s, p, a + b),
{
    assert(s.subrange(p, p + (a + b).len()) =~= a + b) by {
        assert forall|k: int| 0 <= k < (a + b).len() implies s.subrange(p, p + (a + b).len())[k] == (a + b)[k] by {
            if k < a.len() {
                lemma_at_char(s, p, a, k);
            } else {
                lemma_at_char(s, p + a.len(), b, k - a.len());
            }
        }
    }
}

pub proof fn lemma_at_whole(s: Seq<char>)
    ensures
        at(s, 0, s),
{
    assert(s.subrange(0, s.len() as int) =~= s);
}

/// A CSI sequence `ESC [ params f` at `p`.
pub proof fn lemma_feed_csi_at(v: VtModel, s: Seq<char>, p: int, params: Seq<char>, f: char)
    requires
        at(s, p, "\x1b["@ + params + seq![f]),
        forall|q: int| 0 <= q < params.len() ==> !is_final_byte(#[trigger] params[q]),
        is_final_byte(f),
    ensures
        step(v, s, p) == (csi_apply(v, f, csi_nums(params)), p + params.len() + 3),
        csi_apply(v, f, csi_nums(params)) is Some ==> feed_from(v, s, p) == feed_from(
            csi_apply(v, f, csi_nums(params)).unwrap(),
            s,
            p + params.len() + 3,
        ),
        csi_apply(v, f, csi_nums(params)) is None ==> feed_from(v, s, p) is None,
{
    reveal_strlit("\x1b[");
    let x = "\x1b["@ + params + seq![f];
    let e = p + 2 + params.len();
    lemma_at_char(s, p, x, 0);
    lemma_at_char(s, p, x, 1);
    lemma_at_char(s, p, x, params.len() as int + 2);
    assert forall|q: int| p + 2 <= q < e implies !is_final_byte(#[trigger] s[q]) by {
        lemma_at_char(s, p, x, q - p);
        assert(x[q - p] == params[q - p - 2]);
    }
    lemma_final_at(s, p + 2, e);
    assert(s.subrange(p + 2, e) =~= params) by {
        assert forall|q: int| 0 <= q < params.len() implies s.subrange(p + 2, e)[q] == params[q] by {
            lemma_at_char(s, p, x, q + 2);
        }
    }
    if csi_apply(v, f, csi_nums(params)) is Some {
        lemma_feed_unfold(v, s, p);
    }
}

/// The cursor after `CSI n D`: `n` columns to the left, stopping at column 0;
/// nothing else changes.
pub open spec fn moved_left(m: VtModel, n: nat) -> VtModel {
    VtModel { cx: (if m.cx >= n { m.cx - n } else { 0 }) as u16, ..m }
}

/// `CSI n D` (n written in decimal, up to the largest column) moves the
/// cursor `n` columns left, saturating at column 0, and leaves the row, the
/// grid and the style as they were; the input after it then acts on that
/// state. Fed alone, it yields exactly that state.
pub proof fn law_csi_left_moves_back(m: VtModel, s: Seq<char>, p: int, n: nat)
    requires
        n <= u16::MAX,
        at(s, p, "\x1b["@ + decimal(n) + seq!['D']),
    ensures
        feed_from(m, s, p) == feed_from(moved_left(m, n), s, p + decimal(n).len() + 3),
        feed_from(m, "\x1b["@ + decimal(n) + seq!['D'], 0) == Some(moved_left(m, n)),
{
    crate::csi::lemma_csi_nums_decimal(n);
    let d = decimal(n);
    assert forall|q: int| 0 <= q < d.len() implies !is_final_byte(#[trigger] d[q]) by {
        assert(is_digit(d[q]));
    }
    assert(csi_nums(d) == seq![n as i64]);
    assert(csi_apply(m, 'D', csi_nums(d)) == Some(moved_left(m, n)));
    lemma_feed_csi_at(m, s, p, d, 'D');
    let w = "\x1b["@ + d + seq!['D'];
    lemma_at_whole(w);
    lemma_feed_csi_at(m, w, 0, d, 'D');
    reveal_strlit("\x1b[");
    assert(w.len() == d.len() + 3);
}

/// `CSI D` with no parameter moves the cursor one column left, saturating at
/// column 0.
pub proof fn law_csi_left_defaults_to_one(m: VtModel)
    ensures
        feed_from(m, "\x1b[D"@, 0) == Some(moved_left(m, 1)),
{
    reveal_strlit("\x1b[D");
    reveal_strlit("\x1b[");
    let w = "\x1b[D"@;
    assert(w =~= "\x1b["@ + Seq::<char>::empty() + seq!['D']);
    crate::csi::lemma_csi_nums_empty();
    lemma_at_whole(w);
    lemma_feed_csi_at(m, w, 0, Seq::<char>::empty(), 'D');
}

/// Characters of SGR parameters: ASCII digits and `;`.
pub open spec fn sgr_safe(s: Seq<char>) -> bool {
    forall|i: int| 0 <= i < s.len() ==> is_digit(#[trigger] s[i]) || s[i] == ';'
}

pub proof fn lemma_sgr_safe_concat(a: Seq<char>, b: Seq<char>)
    requires
        sgr_safe(a),
        sgr_safe(b),
    ensures
        sgr_safe(a + b),
{
    assert forall|i: int| 0 <= i < (a + b).len() implies is_digit(#[trigger] (a + b)[i]) || (a + b)[i] == ';' by {
        if i < a.len() {
            assert((a + b)[i] == a[i]);
        } else {
            assert((a + b)[i] == b[i - a.len()]);
        }
    }
}

proof fn lemma_sgr_safe_decimal(n: nat)
    ensures
        sgr_safe(decimal(n)),
{
    lemma_decimal_digits(n);
}

proof fn lemma_rgb_safe(r: u8, g: u8, b: u8)
    ensures
        sgr_safe(rgb_params(r, g, b)),
{
    reveal_strlit(";");
    lemma_sgr_safe_decimal(r as nat);
    lemma_sgr_safe_decimal(g as nat);
    lemma_sgr_safe_decimal(b as nat);
    lemma_sgr_safe_concat(decimal(r as nat), ";"@);
    lemma_sgr_safe_concat(decimal(r as nat) + ";"@, decimal(g as nat));
    lemma_sgr_safe_concat(decimal(r as nat) + ";"@ + decimal(g as nat), ";"@);
    lemma_sgr_safe_concat(decimal(r as nat) + ";"@ + decimal(g as nat) + ";"@, decimal(b as nat));
}

proof fn lemma_fg_param_safe(c: Color)
    ensures
        sgr_safe(fg_param(c)),
{
    match c {
        Color::Black => {
            reveal_strlit("30");
        },
        Color::Red => {
            reveal_strlit("31");
        },
        Color::Green => {
            reveal_strlit("32");
        },
        Color::Yellow => {
            reveal_strlit("33");
        },
        Color::Blue => {
            reveal_strlit("34");
        },
        Color::Magenta => {
            reveal_strlit("35");
        },
        Color::Cyan => {
            reveal_strlit("36");
        },
        Color::Gray => {
            reveal_strlit("37");
        },
        Color::DarkGray => {
            reveal_strlit("90");
        },
        Color::LightRed => {
            reveal_strlit("91");
        },
        Color::LightGreen => {
            reveal_strlit("92");
        },
        Color::LightYellow => {
            reveal_strlit("93");
        },
        Color::LightBlue => {
            reveal_strlit("94");
        },
        Color::LightMagenta => {
            reveal_strlit("95");
        },
        Color::LightCyan => {
            reveal_strlit("96");
        },
        Color::White => {
            reveal_strlit("97");
        },
        Color::Indexed(n) => {
            reveal_strlit("38;5;");
            lemma_sgr_safe_decimal(n as nat);
            lemma_sgr_safe_concat("38;5;"@, decimal(n as nat));
        },
        Color::Rgb(r, g, b) => {
            reveal_strlit("38;2;");
            lemma_rgb_safe(r, g, b);
            lemma_sgr_safe_concat("38;2;"@, rgb_params(r, g, b));
        },
        Color::Reset => {
            reveal_strlit("39");
        },
    }
}

proof fn lemma_bg_param_safe(c: Color)
    ensures
        sgr_safe(bg_param(c)),
{
    match c {
        Color::Black => {
            reveal_strlit("40");
        },
        Color::Red => {
            reveal_strlit("41");
        },
        Color::Green => {
            reveal_strlit("42");
        },
        Color::Yellow => {
            reveal_strlit("43");
        },
        Color::Blue => {
            reveal_strlit("44");
        },
        Color::Magenta => {
            reveal_strlit("45");
        },
        Color::Cyan => {
            reveal_strlit("46");
        },
        Color::Gray => {
            reveal_strlit("47");
        },
        Color::DarkGray => {
            reveal_strlit("100");
        },
        Color::LightRed => {
            reveal_strlit("101");
        },
        Color::LightGreen => {
            reveal_strlit("102");
        },
        Color::LightYellow => {
            reveal_strlit("103");
        },
        Color::LightBlue => {
            reveal_strlit("104");
        },
        Color::LightMagenta => {
            reveal_strlit("105");
        },
        Color::LightCyan => {
            reveal_strlit("106");
        },
        Color::White => {
            reveal_strlit("107");
        },
        Color::Indexed(n) => {
            reveal_strlit("48;5;");
            lemma_sgr_safe_decimal(n as nat);
            lemma_sgr_safe_concat("48;5;"@, decimal(n as nat));
        },
        Color::Rgb(r, g, b) => {
            reveal_strlit("48;2;");
            lemma_rgb_safe(r, g, b);
            lemma_sgr_safe_concat("48;2;"@, rgb_params(r, g, b));
        },
        Color::Reset => {
            reveal_strlit("49");
        },
    }
}

proof fn lemma_join_safe(parts: Seq<Seq<char>>)
    requires
        forall|k: int| 0 <= k < parts.len() ==> sgr_safe(#[trigger] parts[k]),
    ensures
        sgr_safe(join(parts, ";"@)),
    decreases parts.len(),
{
    reveal_strlit(";");
    if parts.len() == 1 {
        assert(sgr_safe(parts[0]));
    } else if parts.len() > 1 {
        let q = parts.drop_last();
        assert forall|k: int| 0 <= k < q.len() implies sgr_safe(#[trigger] q[k]) by {
            assert(q[k] == parts[k]);
        }
        lemma_join_safe(q);
        assert(sgr_safe(parts.last()));
        lemma_sgr_safe_concat(join(q, ";"@), ";"@);
        lemma_sgr_safe_concat(join(q, ";"@) + ";"@, parts.last());
    }
}

/// Every part is made of digits and separators.
pub open spec fn all_safe(parts: Seq<Seq<char>>) -> bool {
    forall|k: int| 0 <= k < parts.len() ==> sgr_safe(#[trigger] parts[k])
}

proof fn lemma_all_safe_concat(a: Seq<Seq<char>>, b: Seq<Seq<char>>)
    requires
        all_safe(a),
        all_safe(b),
    ensures
        all_safe(a + b),
{
    assert forall|k: int| 0 <= k < (a + b).len() implies sgr_safe(#[trigger] (a + b)[k]) by {
        if k < a.len() {
            assert((a + b)[k] == a[k]);
        } else {
            assert((a + b)[k] == b[k - a.len()]);
        }
    }
}

proof fn lemma_flag_safe(on: bool, p: Seq<char>)
    requires
        sgr_safe(p),
    ensures
        all_safe(flag_param(on, p)),
        flag_param(on, p).len() == (if on { 1int } else { 0int }),
{
}

/// The SGR parameters of a style are digits and separators, and there is
/// at least one unless the style is empty.
pub proof fn lemma_sgr_params(st: CellStyle)
    ensures
        sgr_safe(join(sgr_params(st), ";"@)),
        st != empty_style() ==> sgr_params(st).len() > 0,
{
    reveal_strlit("1");
    reveal_strlit("2");
    reveal_strlit("3");
    reveal_strlit("4");
    reveal_strlit("7");
    reveal_strlit("9");
    let fgp = match st.fg {
        Some(c) => seq![fg_param(c)],
        None => Seq::<Seq<char>>::empty(),
    };
    let bgp = match st.bg {
        Some(c) => seq![bg_param(c)],
        None => Seq::<Seq<char>>::empty(),
    };
    if let Some(c) = st.fg {
        lemma_fg_param_safe(c);
    }
    if let Some(c) = st.bg {
        lemma_bg_param_safe(c);
    }
    assert(all_safe(fgp));
    assert(all_safe(bgp));
    let f1 = flag_param(st.bold, "1"@);
    let f2 = flag_param(st.dim, "2"@);
    let f3 = flag_param(st.italic, "3"@);
    let f4 = flag_param(st.underline, "4"@);
    let f7 = flag_param(st.reverse, "7"@);
    let f9 = flag_param(st.crossed_out, "9"@);
    lemma_flag_safe(st.bold, "1"@);
    lemma_flag_safe(st.dim, "2"@);
    lemma_flag_safe(st.italic, "3"@);
    lemma_flag_safe(st.underline, "4"@);
    lemma_flag_safe(st.reverse, "7"@);
    lemma_flag_safe(st.crossed_out, "9"@);
    lemma_all_safe_concat(fgp, bgp);
    lemma_all_safe_concat(fgp + bgp, f1);
    lemma_all_safe_concat(fgp + bgp + f1, f2);
    lemma_all_safe_concat(fgp + bgp + f1 + f2, f3);
    lemma_all_safe_concat(fgp + bgp + f1 + f2 + f3, f4);
    lemma_all_safe_concat(fgp + bgp + f1 + f2 + f3 + f4, f7);
    lemma_all_safe_concat(fgp + bgp + f1 + f2 + f3 + f4 + f7, f9);
    let ps = fgp + bgp + f1 + f2 + f3 + f4 + f7 + f9;
    assert(sgr_params(st) == ps);
    lemma_join_safe(ps);
}

/// Every escape in `s` opens a CSI sequence: it is followed by `[`.
pub open spec fn escapes_open_csi(s: Seq<char>) -> bool {
    forall|i: int| 0 <= i < s.len() && #[trigger] s[i] == '\x1b' ==> i + 1 < s.len() && s[i + 1] == '['
}


pub proof fn lemma_printable_part(t: Seq<char>, a: int, b: int)
    requires
        printable(t),
        0 <= a <= b <= t.len(),
    ensures
        printable(t.subrange(a, b)),
{
    assert forall|i: int| 0 <= i < t.subrange(a, b).len() implies #[trigger] t.subrange(a, b)[i] != '\x1b'
        && t.subrange(a, b)[i] != '\r' && t.subrange(a, b)[i] != '\n' && t.subrange(a, b)[i] != '\0' by {
        assert(t.subrange(a, b)[i] == t[a + i]);
    }
}


/// Text whose escapes all open CSI sequences holds no cursor marker.
pub proof fn lemma_no_marker_in_ansi(s: Seq<char>, i: int)
    requires
        escapes_open_csi(s),
    ensures
        first_match(s, CURSOR_MARKER@, i) is None,
    decreases s.len() + 1 - i,
{
    reveal_strlit("\x1b_pi:c\x07");
    let mk = CURSOR_MARKER@;
    if i < 0 || i + mk.len() > s.len() {
    } else {
        if s.subrange(i, i + mk.len()) == mk {
            assert(s.subrange(i, i + mk.len())[0] == s[i]);
            assert(s.subrange(i, i + mk.len())[1] == s[i + 1]);
        }
        lemma_no_marker_in_ansi(s, i + 1);
    }
}


/// What a run of printable characters and SGR sequences shows on a
/// terminal row, read from index `i` on: its characters; `None` when it
/// holds anything else.
pub open spec fn shown_from(a: Seq<char>, i: int) -> Option<Seq<char>>
    decreases a.len() - i,
{
    if i < 0 || i >= a.len() {
        Some(seq![])
    } else if a[i] == '\x1b' {
        let e = final_index(a, i + 2);
        if i + 1 < a.len() && a[i + 1] == '[' && e < a.len() && a[e] == 'm' && sgr_safe(a.subrange(i + 2, e)) {
            proof {
                lemma_final_index_bounds(a, i + 2);
            }
            shown_from(a, e + 1)
        } else {
            None
        }
    } else if a[i] != '\r' && a[i] != '\n' && a[i] != '\0' {
        match shown_from(a, i + 1) {
            Some(t) => Some(seq![a[i]] + t),
            None => None,
        }
    } else {
        None
    }
}

/// A run of printable characters and SGR sequences at `p`, from its index
/// `i` on, fed with the cursor at column `k` of row `y` (which holds
/// `t[..k]` then unwritten cells), where what it shows is the part of `t`
/// from `k` on: the row then holds `t` up to the end of that part.
pub proof fn lemma_feed_shown(
    m: VtModel,
    v: VtModel,
    s: Seq<char>,
    p: int,
    a: Seq<char>,
    i: int,
    x: Seq<char>,
    t: Seq<char>,
    y: int,
    k: int,
) -> (u: VtModel)
    requires
        0 <= y < m.grid.len(),
        t.len() <= m.width,
        printable(t),
        at(s, p, a),
        0 <= i <= a.len(),
        shown_from(a, i) == Some(x),
        0 <= k,
        k + x.len() <= t.len(),
        x == t.subrange(k, k + x.len()),
        row_written(m, v, y, t, k),
    ensures
        feed_from(v, s, p + i) == feed_from(u, s, p + a.len()),
        row_written(m, u, y, t, k + x.len()),
    decreases a.len() - i,
{
    if i >= a.len() {
        v
    } else if a[i] == '\x1b' {
        let e = final_index(a, i + 2);
        lemma_final_index_bounds(a, i + 2);
        let params = a.subrange(i + 2, e);
        reveal_strlit("\x1b[");
        let piece = "\x1b["@ + params + seq!['m'];
        assert(at(s, p + i, piece)) by {
            assert(s.subrange(p + i, p + i + piece.len()) =~= piece) by {
                assert forall|j: int| 0 <= j < piece.len() implies s.subrange(p + i, p + i + piece.len())[j]
                    == piece[j] by {
                    lemma_at_char(s, p, a, i + j);
                    if 2 <= j < piece.len() - 1 {
                        assert(piece[j] == params[j - 2]);
                    }
                }
            }
        }
        assert forall|q: int| 0 <= q < params.len() implies !is_final_byte(#[trigger] params[q]) by {
            assert(is_digit(params[q]) || params[q] == ';');
        }
        lemma_feed_csi_at(v, s, p + i, params, 'm');
        let v1 = csi_apply(v, 'm', csi_nums(params)).unwrap();
        assert(row_written(m, v1, y, t, k));
        lemma_feed_shown(m, v1, s, p, a, e + 1, x, t, y, k)
    } else {
        let c = a[i];
        let x1 = shown_from(a, i + 1).unwrap();
        assert(x == seq![c] + x1);
        assert(t[k] == c) by {
            assert(x[0] == c);
            assert(t.subrange(k, k + x.len())[0] == t[k]);
        }
        lemma_at_char(s, p, a, i);
        assert(c != '\x1b' && c != '\r' && c != '\n');
        let row = v.grid[y];
        let cell = VCell { ch: c, style: v.style };
        lemma_row_update(row, k, cell);
        lemma_put_char_in_row(v, c);
        let v1 = put_char(v, c);
        assert(step(v, s, p + i) == (Some(v1), p + i + 1));
        lemma_feed_unfold(v, s, p + i);
        assert forall|j: int| 0 <= j < v1.grid.len() && j != y implies v1.grid[j] == m.grid[j] by {
            assert(v1.grid[j] == v.grid[j]);
        }
        assert forall|j: int| 0 <= j < k + 1 implies (#[trigger] v1.grid[y][j]).ch == t[j] by {
            if j < k {
                assert(v1.grid[y][j] == row[j]);
            }
        }
        assert forall|j: int| k + 1 <= j < m.width implies (#[trigger] v1.grid[y][j]).ch == '\0' by {
            assert(v1.grid[y][j] == row[j]);
        }
        assert(x1 =~= t.subrange(k + 1, k + 1 + x1.len())) by {
            assert forall|j: int| 0 <= j < x1.len() implies x1[j] == t.subrange(k + 1, k + 1 + x1.len())[j] by {
                assert(x[j + 1] == x1[j]);
                assert(t.subrange(k, k + x.len())[j + 1] == t[k + 1 + j]);
            }
        }
        lemma_feed_shown(m, v1, s, p, a, i + 1, x1, t, y, k + 1)
    }
}

proof fn lemma_final_shift(a: Seq<char>, b: Seq<char>, x: int)
    requires
        0 <= x,
    ensures
        final_index(a + b, a.len() + x) == a.len() + final_index(b, x),
    decreases b.len() - x,
{
    if x < b.len() {
        assert((a + b)[a.len() + x] == b[x]);
        if !is_final_byte(b[x]) {
            lemma_final_shift(a, b, x + 1);
        }
    }
}

proof fn lemma_final_within(a: Seq<char>, b: Seq<char>, i: int)
    requires
        0 <= i,
        final_index(a, i) < a.len(),
    ensures
        final_index(a + b, i) == final_index(a, i),
    decreases a.len() - i,
{
    assert((a + b)[i] == a[i]);
    if !is_final_byte(a[i]) {
        lemma_final_within(a, b, i + 1);
    }
}

/// What a string shows past a prefix is what its rest shows.
pub proof fn lemma_shown_shift(a: Seq<char>, b: Seq<char>, j: int)
    requires
        0 <= j,
    ensures
        shown_from(a + b, a.len() + j) == shown_from(b, j),
    decreases b.len() - j,
{
    let ab = a + b;
    let i = a.len() + j;
    if j < b.len() {
        assert(ab[i] == b[j]);
        if b[j] == '\x1b' {
            lemma_final_shift(a, b, j + 2);
            lemma_final_index_bounds(b, j + 2);
            let e = final_index(b, j + 2);
            if j + 1 < b.len() {
                assert(ab[i + 1] == b[j + 1]);
            }
            if e < b.len() {
                assert(ab[a.len() + e] == b[e]);
                if j + 2 <= e {
                    assert(ab.subrange(i + 2, a.len() + e) =~= b.subrange(j + 2, e));
                }
                lemma_shown_shift(a, b, e + 1);
            }
        } else {
            lemma_shown_shift(a, b, j + 1);
        }
    }
}

/// What a concatenation shows: what the first part shows from `i`, then
/// what the second part shows.
pub proof fn lemma_shown_concat(a: Seq<char>, b: Seq<char>, i: int)
    requires
        0 <= i <= a.len(),
        shown_from(a, i) is Some,
    ensures
        shown_from(a + b, i) == match shown_from(b, 0) {
            Some(t2) => Some(shown_from(a, i).unwrap() + t2),
            None => None::<Seq<char>>,
        },
    decreases a.len() - i,
{
    let ab = a + b;
    if i == a.len() {
        lemma_shown_shift(a, b, 0);
        assert(shown_from(a, i).unwrap() == Seq::<char>::empty());
        if let Some(t2) = shown_from(b, 0) {
            assert(Seq::<char>::empty() + t2 =~= t2);
        }
    } else {
        assert(ab[i] == a[i]);
        if a[i] == '\x1b' {
            let e = final_index(a, i + 2);
            lemma_final_index_bounds(a, i + 2);
            lemma_final_within(a, b, i + 2);
            assert(ab[i + 1] == a[i + 1]);
            assert(ab[e] == a[e]);
            assert(ab.subrange(i + 2, e) =~= a.subrange(i + 2, e));
            lemma_shown_concat(a, b, e + 1);
        } else {
            lemma_shown_concat(a, b, i + 1);
            if let Some(t2) = shown_from(b, 0) {
                let t1 = shown_from(a, i + 1).unwrap();
                assert(seq![a[i]] + (t1 + t2) =~= (seq![a[i]] + t1) + t2);
            }
        }
    }
}

pub proof fn lemma_shown_printable(t: Seq<char>, i: int)
    requires
        printable(t),
        0 <= i <= t.len(),
    ensures
        shown_from(t, i) == Some(t.skip(i)),
    decreases t.len() - i,
{
    if i < t.len() {
        lemma_shown_printable(t, i + 1);
        assert(seq![t[i]] + t.skip(i + 1) =~= t.skip(i));
    } else {
        assert(t.skip(i) =~= Seq::<char>::empty());
    }
}

} // verus!
