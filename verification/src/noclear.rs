//! A diff frame never clears the screen: its writes hold no `ESC [ 2 J`,
//! given lines that hold none themselves (every serialized line of
//! printable text is such a line).

use vstd::prelude::*;
use crate::render::{
    RenderModel,
    csi_n,
    repeat,
    move_rows,
    rewrite_rows,
    line_at,
    scroll_step,
    shrink_step,
    sat_sub,
    diff_normal,
    diff_deletions,
    diff_render,
    changed_range,
};
use crate::style::StyledLine;
use crate::text::decimal;
use crate::csi::{lemma_decimal_digits, is_digit};
use crate::virtual_terminal::{final_index, lemma_final_index_bounds};
use crate::replay::{shown_from, line_of, sgr_safe};

verus! {

/// A screen clear (`ESC [ 2 J`) starts at index `i` of `s`.
pub open spec fn clears_at(s: Seq<char>, i: int) -> bool {
    &&& 0 <= i
    &&& i + 3 < s.len()
    &&& s[i] == '\x1b'
    &&& s[i + 1] == '['
    &&& s[i + 2] == '2'
    &&& s[i + 3] == 'J'
}

/// `s` holds no screen clear.
pub open spec fn clear_free(s: Seq<char>) -> bool {
    forall|i: int| !#[trigger] clears_at(s, i)
}

/// `s` holds no screen clear and is empty or starts with an escape or a
/// carriage return, so nothing before it can run into a clear.
pub open spec fn clean_piece(s: Seq<char>) -> bool {
    &&& clear_free(s)
    &&& (s.len() == 0 || s[0] == '\x1b' || s[0] == '\r')
}

/// No escape among the last three characters of `s`.
pub open spec fn tail_free(s: Seq<char>) -> bool {
    forall|i: int| s.len() - 3 <= i < s.len() && 0 <= i ==> #[trigger] s[i] != '\x1b'
}

proof fn lemma_concat(a: Seq<char>, b: Seq<char>)
    requires
        clear_free(a),
        clear_free(b),
        tail_free(a) || b.len() == 0 || (b[0] != '[' && b[0] != '2' && b[0] != 'J'),
    ensures
        clear_free(a + b),
{
    let s = a + b;
    assert forall|i: int| !#[trigger] clears_at(s, i) by {
        if clears_at(s, i) {
            if i + 3 < a.len() {
                assert(clears_at(a, i));
            } else if i >= a.len() {
                assert(clears_at(b, i - a.len()));
            } else {
                assert(s[i] == a[i]);
                assert(s[a.len() as int] == b[0]);
            }
        }
    }
}

proof fn lemma_clean_concat(a: Seq<char>, b: Seq<char>)
    requires
        clean_piece(a),
        clean_piece(b),
    ensures
        clean_piece(a + b),
{
    lemma_concat(a, b);
    if a.len() == 0 {
        assert(a + b =~= b);
    } else {
        assert((a + b)[0] == a[0]);
    }
}

proof fn lemma_csi_clean(n: nat, f: char)
    requires
        f == 'A' || f == 'B',
    ensures
        clean_piece(csi_n(n, f)),
{
    reveal_strlit("\x1b[");
    lemma_decimal_digits(n);
    let d = decimal(n);
    let s = csi_n(n, f);
    assert(s == "\x1b["@ + d + seq![f]);
    assert forall|i: int| !#[trigger] clears_at(s, i) by {
        if clears_at(s, i) {
            if i == 0 {
                if s.len() > 4 {
                    assert(s[3] == d[1]);
                    assert(is_digit(d[1]));
                } else {
                    assert(s[3] == f);
                }
            } else {
                if i < d.len() + 2 {
                    assert(s[i] == d[i - 2]);
                    assert(is_digit(d[i - 2]));
                }
            }
        }
    }
}

proof fn lemma_repeat_clean(s: Seq<char>, n: nat)
    requires
        clean_piece(s),
    ensures
        clean_piece(repeat(s, n)),
    decreases n,
{
    if n > 0 {
        lemma_repeat_clean(s, (n - 1) as nat);
        lemma_clean_concat(repeat(s, (n - 1) as nat), s);
    } else {
        assert(clear_free(Seq::<char>::empty()));
    }
}

proof fn lemma_literals()
    ensures
        clean_piece("\x1b[?2026h"@),
        clean_piece("\x1b[?2026l"@),
        clean_piece("\r\n"@),
        clean_piece("\r"@),
        clean_piece("\r\n\x1b[2K"@),
        clean_piece("\x1b[2K"@),
        tail_free("\x1b[2K"@),
        clean_piece(Seq::<char>::empty()),
{
    reveal_strlit("\x1b[?2026h");
    reveal_strlit("\x1b[?2026l");
    reveal_strlit("\r\n");
    reveal_strlit("\r");
    reveal_strlit("\r\n\x1b[2K");
    reveal_strlit("\x1b[2K");
    assert forall|i: int| !#[trigger] clears_at("\x1b[?2026h"@, i) by {}
    assert forall|i: int| !#[trigger] clears_at("\x1b[?2026l"@, i) by {}
    assert forall|i: int| !#[trigger] clears_at("\r\n\x1b[2K"@, i) by {}
    assert forall|i: int| !#[trigger] clears_at("\x1b[2K"@, i) by {}
}

proof fn lemma_move_clean(from: usize, to: usize)
    ensures
        clean_piece(move_rows(from, to)),
{
    lemma_literals();
    if to > from {
        lemma_csi_clean((to - from) as nat, 'B');
    } else if to < from {
        lemma_csi_clean((from - to) as nat, 'A');
    }
}

/// A row rewrite: the line clear, then a line holding no screen clear.
proof fn lemma_row_clean(line: Seq<char>)
    requires
        clear_free(line),
    ensures
        clean_piece("\x1b[2K"@ + line),
{
    lemma_literals();
    lemma_concat("\x1b[2K"@, line);
    reveal_strlit("\x1b[2K");
    assert(("\x1b[2K"@ + line)[0] == '\x1b');
}

proof fn lemma_rewrite_clean(new: Seq<Seq<char>>, first: int, end: int)
    requires
        forall|k: int| 0 <= k < new.len() ==> clear_free(#[trigger] new[k]),
    ensures
        clean_piece(rewrite_rows(new, first, end)),
    decreases end - first,
{
    lemma_literals();
    assert forall|k: int| clear_free(#[trigger] line_at(new, k)) by {
        if !(0 <= k < new.len()) {
            assert(line_at(new, k) == Seq::<char>::empty());
        }
    }
    if end == first {
        lemma_row_clean(line_at(new, first));
    } else if end > first {
        lemma_rewrite_clean(new, first, end - 1);
        lemma_row_clean(line_at(new, end));
        lemma_clean_concat(rewrite_rows(new, first, end - 1), "\r\n"@);
        lemma_clean_concat(rewrite_rows(new, first, end - 1) + "\r\n"@, "\x1b[2K"@ + line_at(new, end));
        assert(rewrite_rows(new, first, end - 1) + "\r\n"@ + "\x1b[2K"@ + line_at(new, end) =~= rewrite_rows(
            new,
            first,
            end - 1,
        ) + "\r\n"@ + ("\x1b[2K"@ + line_at(new, end)));
    }
}

proof fn lemma_scroll_clean(m: RenderModel, t: usize, h: usize)
    ensures
        clean_piece(scroll_step(m, t, h).1),
{
    reveal(scroll_step);
    lemma_literals();
    let d = sat_sub(m.hw_row, m.viewport_top);
    let csr = if d <= sat_sub(h, 1) {
        d
    } else {
        sat_sub(h, 1)
    };
    let to_bottom = sat_sub(sat_sub(h, 1), csr);
    if to_bottom > 0 {
        lemma_csi_clean(to_bottom as nat, 'B');
    }
    let prev_bottom = (m.viewport_top + sat_sub(h, 1)) as usize;
    lemma_repeat_clean("\r\n"@, sat_sub(t, prev_bottom) as nat);
    lemma_clean_concat(
        if to_bottom > 0 {
            csi_n(to_bottom as nat, 'B')
        } else {
            Seq::<char>::empty()
        },
        repeat("\r\n"@, sat_sub(t, prev_bottom) as nat),
    );
}

proof fn lemma_shrink_clean(n_prev: usize, n_new: usize, render_end: usize)
    ensures
        clean_piece(shrink_step(n_prev, n_new, render_end).1),
{
    reveal(shrink_step);
    lemma_literals();
    if n_prev > n_new {
        let go_down = render_end + 1 < n_new;
        let a = if go_down {
            csi_n(sat_sub((n_new - 1) as usize, render_end) as nat, 'B')
        } else {
            Seq::<char>::empty()
        };
        if go_down {
            lemma_csi_clean(sat_sub((n_new - 1) as usize, render_end) as nat, 'B');
        }
        lemma_repeat_clean("\r\n\x1b[2K"@, (n_prev - n_new) as nat);
        lemma_csi_clean((n_prev - n_new) as nat, 'A');
        lemma_clean_concat(a, repeat("\r\n\x1b[2K"@, (n_prev - n_new) as nat));
        lemma_clean_concat(a + repeat("\r\n\x1b[2K"@, (n_prev - n_new) as nat), csi_n((n_prev - n_new) as nat, 'A'));
    }
}

proof fn lemma_diff_normal_clean(m: RenderModel, new: Seq<Seq<char>>, first: usize, last: usize, h: usize)
    requires
        forall|k: int| 0 <= k < new.len() ==> clear_free(#[trigger] new[k]),
    ensures
        clear_free(diff_normal(m, new, first, last, h).1),
{
    reveal(diff_normal);
    lemma_literals();
    let n_prev = m.previous_lines.len() as usize;
    let n_new = new.len() as usize;
    let append_start = n_new > n_prev && first == n_prev && first > 0;
    let move_target: usize = if append_start {
        (first - 1) as usize
    } else {
        first
    };
    let (m1, scroll_out) = scroll_step(m, move_target, h);
    let render_end: usize = if last <= sat_sub(n_new, 1) {
        last
    } else {
        sat_sub(n_new, 1)
    };
    let (fc, shrink_out) = shrink_step(n_prev, n_new, render_end);
    lemma_scroll_clean(m, move_target, h);
    lemma_move_clean(m1.hw_row, move_target);
    lemma_rewrite_clean(new, first as int, render_end as int);
    lemma_shrink_clean(n_prev, n_new, render_end);
    let br = if append_start {
        "\r\n"@
    } else {
        "\r"@
    };
    let p1 = "\x1b[?2026h"@ + scroll_out;
    lemma_clean_concat("\x1b[?2026h"@, scroll_out);
    let p2 = p1 + move_rows(m1.hw_row, move_target);
    lemma_clean_concat(p1, move_rows(m1.hw_row, move_target));
    let p3 = p2 + br;
    lemma_clean_concat(p2, br);
    let p4 = p3 + rewrite_rows(new, first as int, render_end as int);
    lemma_clean_concat(p3, rewrite_rows(new, first as int, render_end as int));
    let p5 = p4 + shrink_out;
    lemma_clean_concat(p4, shrink_out);
    lemma_clean_concat(p5, "\x1b[?2026l"@);
}

proof fn lemma_diff_deletions_clean(m: RenderModel, new: Seq<Seq<char>>, first: usize, last: usize, h: usize)
    requires
        first >= new.len(),
        !(sat_sub(m.previous_lines.len() as usize, new.len() as usize) > h || sat_sub(new.len() as usize, 1)
            < m.viewport_top),
    ensures
        clear_free(diff_deletions(m, new, first, last, h).1),
{
    lemma_literals();
    let n_prev = m.previous_lines.len() as usize;
    let n_new = new.len() as usize;
    let extras = sat_sub(n_prev, n_new);
    let target = sat_sub(n_new, 1);
    lemma_move_clean(m.hw_row, target);
    lemma_repeat_clean("\r\n\x1b[2K"@, extras as nat);
    let up = if extras > 0 {
        csi_n(extras as nat, 'A')
    } else {
        Seq::<char>::empty()
    };
    if extras > 0 {
        lemma_csi_clean(extras as nat, 'A');
    }
    let p1 = "\x1b[?2026h"@ + move_rows(m.hw_row, target);
    lemma_clean_concat("\x1b[?2026h"@, move_rows(m.hw_row, target));
    let p2 = p1 + repeat("\r\n\x1b[2K"@, extras as nat);
    lemma_clean_concat(p1, repeat("\r\n\x1b[2K"@, extras as nat));
    let p3 = p2 + up;
    lemma_clean_concat(p2, up);
    lemma_clean_concat(p3, "\x1b[?2026l"@);
}

/// A run of printable characters and SGR sequences holds no screen clear
/// from index `i` on.
proof fn lemma_shown_clear_free(a: Seq<char>, i: int)
    requires
        0 <= i,
        shown_from(a, i) is Some,
    ensures
        forall|j: int| j >= i ==> !#[trigger] clears_at(a, j),
    decreases a.len() - i,
{
    if i < a.len() {
        if a[i] == '\x1b' {
            let e = final_index(a, i + 2);
            lemma_final_index_bounds(a, i + 2);
            lemma_shown_clear_free(a, e + 1);
            assert forall|j: int| j >= i implies !#[trigger] clears_at(a, j) by {
                if clears_at(a, j) && j <= e {
                    if j == i {
                        if e == i + 2 {
                        } else {
                            assert(a.subrange(i + 2, e)[1] == a[i + 3]);
                            assert(is_digit(a[i + 3]) || a[i + 3] == ';');
                        }
                    } else {
                        if j < e {
                            assert(a.subrange(i + 2, e)[j - i - 2] == a[j]);
                            assert(is_digit(a[j]) || a[j] == ';');
                        }
                    }
                }
            }
        } else {
            lemma_shown_clear_free(a, i + 1);
        }
    }
}

/// A serialized line showing some text holds no screen clear.
pub proof fn lemma_serialized_clear_free(line: Seq<char>, t: Seq<char>)
    requires
        line_of(line, t),
    ensures
        clear_free(line),
{
    let r = StyledLine::LINE_RESET@;
    let a = choose|a: Seq<char>| #![trigger shown_from(a, 0)] a + r == line && shown_from(a, 0) == Some(t);
    lemma_shown_clear_free(a, 0);
    reveal_strlit("\x1b[0m\x1b]8;;\x07");
    assert forall|i: int| !#[trigger] clears_at(r, i) by {}
    lemma_concat(a, r);
}

/// A diff frame never clears the screen: when the lines hold no screen
/// clear (as every serialized line does, see
/// [`lemma_serialized_clear_free`]), a frame whose first changed row lies
/// in the viewport and that is not a deletion falling back to a full
/// redraw writes no `ESC [ 2 J`.
pub proof fn law_diff_writes_no_clear(m: RenderModel, new: Seq<Seq<char>>, height: usize)
    requires
        forall|k: int| 0 <= k < new.len() ==> clear_free(#[trigger] new[k]),
        changed_range(m.previous_lines, new) matches Some((f, l)) && f >= m.viewport_top && f <= usize::MAX
            && l <= usize::MAX && !(f >= new.len() && (sat_sub(m.previous_lines.len() as usize, new.len() as usize)
            > height || sat_sub(new.len() as usize, 1) < m.viewport_top)),
    ensures
        clear_free(diff_render(m, new, height).1),
{
    let (f, l) = changed_range(m.previous_lines, new)->Some_0;
    let first = f as usize;
    let last = l as usize;
    if first >= new.len() {
        lemma_diff_deletions_clean(m, new, first, last, height);
    } else {
        lemma_diff_normal_clean(m, new, first, last, height);
    }
}

} // verus!
