//! Cursor markers in serialized lines: removing the markers from a line's
//! ANSI form leaves a run of printable characters and SGR sequences that
//! shows the spans' texts with their markers removed.

use vstd::prelude::*;
use crate::render::{first_match, remove_all_from, serialize_line, processed};
use crate::style::{
    LineView,
    StyledLine,
    CellStyle,
    CURSOR_MARKER,
    line_ansi,
    line_width,
    empty_style,
    sgr_of,
    sgr_params,
    join,
    span_ansi,
};
use crate::csi::is_digit;
use crate::virtual_terminal::{printable, is_final_byte};
use crate::replay::{
    shown_from,
    line_of,
    escapes_open_csi,
    sgr_safe,
    lemma_sgr_params,
    lemma_final_at,
    lemma_shown_shift,
    lemma_shown_concat,
    lemma_shown_printable,
    lemma_printable_part,
    lemma_no_marker_in_ansi,
};

verus! {

/// The text a line shows: its spans' texts, each with every cursor marker
/// removed.
pub open spec fn shown_text(l: LineView) -> Seq<char>
    decreases l.len(),
{
    if l.len() == 0 {
        seq![]
    } else {
        shown_text(l.drop_last()) + remove_all_from(l.last().0, CURSOR_MARKER@, 0)
    }
}

/// Every escape in `s` either opens a CSI sequence or has room after it for
/// a whole cursor marker: no marker can start in `s` and end past it.
pub open spec fn marker_cut_safe(s: Seq<char>) -> bool {
    forall|i: int|
        0 <= i < s.len() && #[trigger] s[i] == '\x1b' ==> (i + 1 < s.len() && s[i + 1] == '[') || i
            + CURSOR_MARKER@.len() <= s.len()
}

proof fn lemma_cut_safe_concat(a: Seq<char>, b: Seq<char>)
    requires
        marker_cut_safe(a),
        marker_cut_safe(b),
    ensures
        marker_cut_safe(a + b),
{
    let ab = a + b;
    assert forall|i: int| 0 <= i < ab.len() && #[trigger] ab[i] == '\x1b' implies (i + 1 < ab.len() && ab[i + 1]
        == '[') || i + CURSOR_MARKER@.len() <= ab.len() by {
        if i < a.len() {
            assert(a[i] == '\x1b');
            if i + 1 < a.len() {
                assert(ab[i + 1] == a[i + 1]);
            }
        } else {
            assert(b[i - a.len()] == '\x1b');
            if i - a.len() + 1 < b.len() {
                assert(ab[i + 1] == b[i - a.len() + 1]);
            }
        }
    }
}

/// Removing markers from the second part of a concatenation, counted from
/// the start of the whole.
proof fn lemma_remove_shift(a: Seq<char>, b: Seq<char>, j: int)
    requires
        0 <= j <= b.len(),
    ensures
        remove_all_from(a + b, CURSOR_MARKER@, a.len() + j) == remove_all_from(b, CURSOR_MARKER@, j),
    decreases b.len() - j,
{
    reveal_strlit("\x1b_pi:c\x07");
    let mk = CURSOR_MARKER@;
    let n = mk.len() as int;
    let ab = a + b;
    let i = a.len() + j;
    if j >= b.len() {
        assert(ab.skip(i) =~= b.skip(j));
    } else {
        assert(ab[i] == b[j]);
        if j + n <= b.len() {
            assert(ab.subrange(i, i + n) =~= b.subrange(j, j + n));
        }
        if j + n <= b.len() && b.subrange(j, j + n) == mk {
            lemma_remove_shift(a, b, j + n);
        } else {
            lemma_remove_shift(a, b, j + 1);
        }
    }
}

/// No marker can straddle the cut after a marker-cut-safe part, so markers
/// are removed from each part on its own.
proof fn lemma_remove_concat(a: Seq<char>, b: Seq<char>, i: int)
    requires
        marker_cut_safe(a),
        0 <= i <= a.len(),
    ensures
        remove_all_from(a + b, CURSOR_MARKER@, i) == remove_all_from(a, CURSOR_MARKER@, i) + remove_all_from(
            b,
            CURSOR_MARKER@,
            0,
        ),
    decreases a.len() - i,
{
    reveal_strlit("\x1b_pi:c\x07");
    let mk = CURSOR_MARKER@;
    let n = mk.len() as int;
    let ab = a + b;
    let rb = remove_all_from(b, mk, 0);
    if i == a.len() {
        lemma_remove_shift(a, b, 0);
        assert(a.skip(i) =~= Seq::<char>::empty());
        assert(Seq::<char>::empty() + rb =~= rb);
    } else {
        assert(ab[i] == a[i]);
        if i + n <= a.len() {
            assert(ab.subrange(i, i + n) =~= a.subrange(i, i + n));
        }
        if i + n <= a.len() && a.subrange(i, i + n) == mk {
            lemma_remove_concat(a, b, i + n);
        } else {
            if i + n <= ab.len() && ab.subrange(i, i + n) == mk {
                assert(ab.subrange(i, i + n)[0] == ab[i]);
                assert(a[i] == '\x1b');
                assert(i + n > a.len());
                assert(ab.subrange(i, i + n)[1] == ab[i + 1]);
                assert(ab[i + 1] == a[i + 1]);
                assert(false);
            }
            lemma_remove_concat(a, b, i + 1);
            let ra = remove_all_from(a, mk, i + 1);
            assert(seq![a[i]] + (ra + rb) =~= (seq![a[i]] + ra) + rb);
        }
    }
}

/// With no marker from `i` on, removing markers keeps the rest as it is.
proof fn lemma_remove_none(s: Seq<char>, i: int)
    requires
        0 <= i <= s.len(),
        first_match(s, CURSOR_MARKER@, i) is None,
    ensures
        remove_all_from(s, CURSOR_MARKER@, i) == s.skip(i),
    decreases s.len() - i,
{
    reveal_strlit("\x1b_pi:c\x07");
    let mk = CURSOR_MARKER@;
    if i < s.len() {
        assert(first_match(s, mk, i + 1) is None);
        lemma_remove_none(s, i + 1);
        assert(seq![s[i]] + s.skip(i + 1) =~= s.skip(i));
    }
}

/// When removing the markers from `t` (from `i` on) leaves printable text,
/// every escape of `t` from `i` on starts a whole marker.
proof fn lemma_removed_escapes(t: Seq<char>, i: int)
    requires
        0 <= i <= t.len(),
        printable(remove_all_from(t, CURSOR_MARKER@, i)),
    ensures
        forall|j: int| i <= j < t.len() && #[trigger] t[j] == '\x1b' ==> j + CURSOR_MARKER@.len() <= t.len(),
    decreases t.len() - i,
{
    reveal_strlit("\x1b_pi:c\x07");
    let mk = CURSOR_MARKER@;
    let n = mk.len() as int;
    if i < t.len() {
        if i + n <= t.len() && t.subrange(i, i + n) == mk {
            lemma_removed_escapes(t, i + n);
            assert forall|j: int| i <= j < t.len() && #[trigger] t[j] == '\x1b' implies j + n <= t.len() by {
                if j < i + n {
                    assert(t.subrange(i, i + n)[j - i] == t[j]);
                    assert(mk[1] != '\x1b' && mk[2] != '\x1b' && mk[3] != '\x1b' && mk[4] != '\x1b' && mk[5]
                        != '\x1b' && mk[6] != '\x1b');
                }
            }
        } else {
            let r = remove_all_from(t, mk, i + 1);
            let whole = seq![t[i]] + r;
            assert(remove_all_from(t, mk, i) == whole);
            assert(whole[0] == t[i]);
            assert forall|q: int| 0 <= q < r.len() implies #[trigger] r[q] != '\x1b' && r[q] != '\r' && r[q] != '\n'
                && r[q] != '\0' by {
                assert(whole[q + 1] == r[q]);
            }
            lemma_removed_escapes(t, i + 1);
        }
    }
}

/// An SGR sequence: its only escape opens it, and what follows is its
/// parameters and the final `m`.
proof fn lemma_sgr_escapes(st: CellStyle)
    requires
        st != empty_style(),
    ensures
        escapes_open_csi(sgr_of(st)),
        marker_cut_safe(sgr_of(st)),
        sgr_of(st) == "\x1b["@ + join(sgr_params(st), ";"@) + "m"@,
        sgr_safe(join(sgr_params(st), ";"@)),
{
    reveal_strlit("\x1b[");
    reveal_strlit("m");
    lemma_sgr_params(st);
    let params = join(sgr_params(st), ";"@);
    let g = sgr_of(st);
    assert(g == "\x1b["@ + params + "m"@);
    assert forall|i: int| 0 <= i < g.len() && #[trigger] g[i] == '\x1b' implies i + 1 < g.len() && g[i + 1]
        == '[' by {
        if i > 0 && i < params.len() + 2 {
            assert(g[i] == params[i - 2]);
            assert(is_digit(params[i - 2]) || params[i - 2] == ';');
        }
    }
}

/// A span's ANSI form, its markers removed, shows the span's text with its
/// markers removed.
proof fn lemma_shown_marked_span(sp: (Seq<char>, CellStyle))
    requires
        printable(remove_all_from(sp.0, CURSOR_MARKER@, 0)),
    ensures
        marker_cut_safe(span_ansi(sp)),
        shown_from(remove_all_from(span_ansi(sp), CURSOR_MARKER@, 0), 0) == Some(
            remove_all_from(sp.0, CURSOR_MARKER@, 0),
        ),
{
    let mk = CURSOR_MARKER@;
    let t = sp.0;
    let rt = remove_all_from(t, mk, 0);
    lemma_removed_escapes(t, 0);
    assert(marker_cut_safe(t));
    lemma_shown_printable(rt, 0);
    assert(rt.skip(0) =~= rt);
    let sa = span_ansi(sp);
    if t.len() == 0 {
        assert(sa =~= Seq::<char>::empty());
        assert(t.skip(0) =~= Seq::<char>::empty());
        assert(sa.skip(0) =~= Seq::<char>::empty());
    } else if sp.1 == empty_style() {
        assert(sa == t);
    } else {
        let g = sgr_of(sp.1);
        lemma_sgr_escapes(sp.1);
        let params = join(sgr_params(sp.1), ";"@);
        lemma_no_marker_in_ansi(g, 0);
        lemma_remove_none(g, 0);
        assert(g.skip(0) =~= g);
        lemma_remove_concat(g, t, 0);
        lemma_cut_safe_concat(g, t);
        assert(sa == g + t);
        let x = g + rt;
        assert(remove_all_from(sa, mk, 0) == x);
        reveal_strlit("\x1b[");
        reveal_strlit("m");
        let e: int = params.len() as int + 2;
        assert(g.len() == e + 1);
        assert forall|q: int| 2 <= q < e implies !is_final_byte(#[trigger] x[q]) by {
            assert(x[q] == g[q]);
            assert(g[q] == params[q - 2]);
            assert(is_digit(params[q - 2]) || params[q - 2] == ';');
        }
        assert(x[e] == g[e]);
        assert(x[0] == g[0] && x[1] == g[1]);
        lemma_final_at(x, 2, e);
        assert(x.subrange(2, e) =~= params);
        lemma_shown_shift(g, rt, 0);
        assert(shown_from(x, 0) == shown_from(x, e + 1));
    }
}

/// A line's ANSI form, its markers removed, shows the line's
/// [`shown_text`].
pub proof fn lemma_shown_marked_line(l: LineView)
    requires
        printable(shown_text(l)),
    ensures
        marker_cut_safe(line_ansi(l)),
        shown_from(remove_all_from(line_ansi(l), CURSOR_MARKER@, 0), 0) == Some(shown_text(l)),
    decreases l.len(),
{
    let mk = CURSOR_MARKER@;
    if l.len() == 0 {
        assert(line_ansi(l) =~= Seq::<char>::empty());
        assert(line_ansi(l).skip(0) =~= Seq::<char>::empty());
        assert(shown_text(l) =~= Seq::<char>::empty());
    } else {
        let l0 = l.drop_last();
        let sp = l.last();
        let c0 = shown_text(l0);
        let rt = remove_all_from(sp.0, mk, 0);
        let c = shown_text(l);
        assert(c == c0 + rt);
        lemma_printable_part(c, 0, c0.len() as int);
        assert(c.subrange(0, c0.len() as int) =~= c0);
        lemma_printable_part(c, c0.len() as int, c.len() as int);
        assert(c.subrange(c0.len() as int, c.len() as int) =~= rt);
        lemma_shown_marked_line(l0);
        lemma_shown_marked_span(sp);
        let a0 = line_ansi(l0);
        let sa = span_ansi(sp);
        assert(line_ansi(l) == a0 + sa);
        lemma_cut_safe_concat(a0, sa);
        lemma_remove_concat(a0, sa, 0);
        lemma_shown_concat(remove_all_from(a0, mk, 0), remove_all_from(sa, mk, 0), 0);
    }
}

/// A line whose [`shown_text`] is printable serializes to a line showing
/// that text, whether or not it holds a cursor marker.
pub proof fn lemma_line_of_serialized(l: LineView)
    requires
        printable(shown_text(l)),
    ensures
        line_of(serialize_line(l).0, shown_text(l)),
{
    let mk = CURSOR_MARKER@;
    lemma_shown_marked_line(l);
    let ansi = line_ansi(l);
    if first_match(ansi, mk, 0) is None {
        lemma_remove_none(ansi, 0);
        assert(ansi.skip(0) =~= ansi);
    }
    let a = remove_all_from(ansi, mk, 0);
    assert(serialize_line(l).0 == a + StyledLine::LINE_RESET@);
    assert(shown_from(a, 0) == Some(shown_text(l)));
}

/// Lines that fit serialize one by one, and the cursor, if any, stands on
/// one of them.
pub proof fn lemma_processed_fitting(p: Seq<LineView>, width: nat)
    requires
        forall|k: int| 0 <= k < p.len() ==> line_width(#[trigger] p[k]) <= width,
    ensures
        processed(p, width) matches Ok((out, cur)) && out.len() == p.len() && (forall|k: int|
            0 <= k < p.len() ==> #[trigger] out[k] == serialize_line(p[k]).0) && (cur matches Some((r, _)) ==> r
            < p.len()),
    decreases p.len(),
{
    if p.len() > 0 {
        let q = p.drop_last();
        assert forall|k: int| 0 <= k < q.len() implies line_width(#[trigger] q[k]) <= width by {
            assert(q[k] == p[k]);
        }
        lemma_processed_fitting(q, width);
        let line = p.last();
        assert(line == p[p.len() - 1]);
        let out0 = processed(q, width)->Ok_0.0;
        let out = out0.push(serialize_line(line).0);
        assert(processed(p, width)->Ok_0.0 == out);
        assert forall|k: int| 0 <= k < p.len() implies #[trigger] out[k] == serialize_line(p[k]).0 by {
            if k < q.len() {
                assert(q[k] == p[k]);
            }
        }
    }
}

} // verus!
