//! Width utilities over styled lines: escape-aware width of serialized text,
//! truncation and character-level wrapping that keep each piece's style.
//!
//! Zero-width characters (combining marks, and the characters of the cursor
//! marker) pass through without counting; wide characters are never split.

use vstd::prelude::*;
use crate::style::{Span, StyledLine, LineView, CellStyle, line_width, empty_style, concat_texts};
use crate::text::chars_of;
use crate::unicode::{char_width, char_display_width, str_width, str_display_width};
use crate::virtual_terminal::{final_index, string_seq_end};

verus! {

/// The visible characters of `s` from index `i` on: escape sequences (CSI up
/// to its final byte; OSC and APC up to BEL or ESC with an optional `\`; any
/// other two-character escape) removed.
pub open spec fn strip_escapes_from(s: Seq<char>, i: int) -> Seq<char>
    decreases s.len() - i,
{
    if i < 0 || i >= s.len() {
        seq![]
    } else if s[i] != '\x1b' {
        seq![s[i]] + strip_escapes_from(s, i + 1)
    } else if i + 1 >= s.len() {
        seq![]
    } else {
        let j = if s[i + 1] == '[' {
            let f = final_index(s, i + 2);
            if f < s.len() {
                f + 1
            } else {
                f
            }
        } else if s[i + 1] == ']' || s[i + 1] == '_' {
            string_seq_end(s, i + 2)
        } else {
            i + 2
        };
        if j <= i {
            seq![]
        } else {
            proof {
                crate::virtual_terminal::lemma_escape_end(s, i);
            }
            strip_escapes_from(s, j)
        }
    }
}

/// Display width of text that may hold ANSI escape sequences: the width of
/// what remains once the escapes are removed.
pub fn marker_aware_width(s: &str) -> (w: usize)
    ensures
        w as nat == str_width(strip_escapes_from(s@, 0)),
{
    let v = chars_of(s);
    let mut clean: Vec<char> = Vec::new();
    let mut i: usize = 0;
    while i < v.len()
        invariant
            v@ == s@,
            i <= v@.len(),
            clean@ + strip_escapes_from(v@, i as int) == strip_escapes_from(v@, 0),
        decreases v@.len() - i,
    {
        let ch = v[i];
        if ch != '\x1b' {
            clean.push(ch);
            i = i + 1;
        } else if i + 1 >= v.len() {
            i = i + 1;
        } else {
            proof {
                crate::virtual_terminal::lemma_escape_end(v@, i as int);
            }
            let next = v[i + 1];
            if next == '[' {
                let f = crate::virtual_terminal::find_final(&v, i + 2);
                if f < v.len() {
                    i = f + 1;
                } else {
                    i = f;
                }
            } else if next == ']' || next == '_' {
                i = crate::virtual_terminal::skip_string_seq(&v, i + 2);
            } else {
                i = i + 2;
            }
        }
    }
    let cs = crate::text::string_of(&clean);
    str_display_width(cs.as_str())
}

/// An OSC sequence: `ESC ]`, the payload, and its terminator (BEL, or
/// `ESC \`).
pub open spec fn osc_seq(payload: Seq<char>, bel: bool) -> Seq<char> {
    seq!['\x1b', ']'] + payload + if bel {
        seq!['\x07']
    } else {
        seq!['\x1b', '\\']
    }
}

/// `s` from `i` on and `u` from `j` on are the same characters.
pub open spec fn same_suffix(s: Seq<char>, i: int, u: Seq<char>, j: int) -> bool {
    &&& 0 <= i <= s.len()
    &&& 0 <= j <= u.len()
    &&& s.subrange(i, s.len() as int) == u.subrange(j, u.len() as int)
}

proof fn lemma_suffix_at(s: Seq<char>, i: int, u: Seq<char>, j: int, q: int)
    requires
        same_suffix(s, i, u, j),
        0 <= q < s.len() - i,
    ensures
        s[i + q] == u[j + q],
        s.len() - i == u.len() - j,
{
    assert(s.subrange(i, s.len() as int).len() == u.subrange(j, u.len() as int).len());
    assert(s.subrange(i, s.len() as int)[q] == u.subrange(j, u.len() as int)[q]);
}

proof fn lemma_suffix_later(s: Seq<char>, i: int, u: Seq<char>, j: int, d: int)
    requires
        same_suffix(s, i, u, j),
        0 <= d <= s.len() - i,
    ensures
        same_suffix(s, i + d, u, j + d),
        s.len() - i == u.len() - j,
{
    assert(s.subrange(i, s.len() as int).len() == u.subrange(j, u.len() as int).len());
    let ls = s.subrange(i + d, s.len() as int);
    let lu = u.subrange(j + d, u.len() as int);
    assert(ls =~= lu) by {
        assert forall|q: int| 0 <= q < ls.len() implies #[trigger] ls[q] == lu[q] by {
            lemma_suffix_at(s, i, u, j, d + q);
        }
    }
}

proof fn lemma_final_index_suffix(s: Seq<char>, i: int, u: Seq<char>, j: int)
    requires
        same_suffix(s, i, u, j),
    ensures
        final_index(s, i) - i == final_index(u, j) - j,
    decreases s.len() - i,
{
    lemma_suffix_later(s, i, u, j, 0);
    if i < s.len() {
        lemma_suffix_at(s, i, u, j, 0);
        lemma_suffix_later(s, i, u, j, 1);
        lemma_final_index_suffix(s, i + 1, u, j + 1);
    }
}

proof fn lemma_string_end_suffix(s: Seq<char>, i: int, u: Seq<char>, j: int)
    requires
        same_suffix(s, i, u, j),
    ensures
        string_seq_end(s, i) - i == string_seq_end(u, j) - j,
    decreases s.len() - i,
{
    lemma_suffix_later(s, i, u, j, 0);
    if i < s.len() {
        lemma_suffix_at(s, i, u, j, 0);
        if i + 1 < s.len() {
            lemma_suffix_at(s, i, u, j, 1);
        }
        lemma_suffix_later(s, i, u, j, 1);
        lemma_string_end_suffix(s, i + 1, u, j + 1);
    }
}

/// What remains of an escaped text from a point on depends only on the
/// characters from that point on.
proof fn lemma_strip_suffix(s: Seq<char>, i: int, u: Seq<char>, j: int)
    requires
        same_suffix(s, i, u, j),
    ensures
        strip_escapes_from(s, i) == strip_escapes_from(u, j),
    decreases s.len() - i,
{
    lemma_suffix_later(s, i, u, j, 0);
    if i < s.len() {
        lemma_suffix_at(s, i, u, j, 0);
        if i + 1 < s.len() {
            lemma_suffix_at(s, i, u, j, 1);
        }
        if s[i] != '\x1b' {
            lemma_suffix_later(s, i, u, j, 1);
            lemma_strip_suffix(s, i + 1, u, j + 1);
        } else if i + 1 < s.len() {
            crate::virtual_terminal::lemma_escape_end(s, i);
            crate::virtual_terminal::lemma_escape_end(u, j);
            lemma_suffix_later(s, i, u, j, 2);
            lemma_final_index_suffix(s, i + 2, u, j + 2);
            lemma_string_end_suffix(s, i + 2, u, j + 2);
            let k = if s[i + 1] == '[' {
                let f = final_index(s, i + 2);
                if f < s.len() {
                    f + 1
                } else {
                    f
                }
            } else if s[i + 1] == ']' || s[i + 1] == '_' {
                string_seq_end(s, i + 2)
            } else {
                i + 2
            };
            assert(i < k <= s.len());
            lemma_suffix_later(s, i, u, j, k - i);
            lemma_strip_suffix(s, k, u, j + (k - i));
        }
    }
}

/// Characters without an escape before index `k` come out as they are.
proof fn lemma_strip_plain_prefix(s: Seq<char>, i: int, k: int)
    requires
        0 <= i <= k <= s.len(),
        forall|q: int| i <= q < k ==> s[q] != '\x1b',
    ensures
        strip_escapes_from(s, i) == s.subrange(i, k) + strip_escapes_from(s, k),
    decreases k - i,
{
    if i < k {
        lemma_strip_plain_prefix(s, i + 1, k);
        assert(s.subrange(i, k) =~= seq![s[i]] + s.subrange(i + 1, k));
    } else {
        assert(s.subrange(i, k) =~= Seq::<char>::empty());
    }
}

proof fn lemma_string_end_skips_payload(s: Seq<char>, i: int, e: int)
    requires
        0 <= i <= e < s.len(),
        forall|q: int| i <= q < e ==> s[q] != '\x07' && s[q] != '\x1b',
    ensures
        string_seq_end(s, i) == string_seq_end(s, e),
    decreases e - i,
{
    if i < e {
        lemma_string_end_skips_payload(s, i + 1, e);
    }
}

/// An OSC sequence (`ESC ]`, a payload without BEL or ESC, then BEL or
/// `ESC \`) contributes no columns: inserted after escape-free text, at any
/// place before the rest of the input, it leaves the visible text, and so
/// the width [`marker_aware_width`] returns, as they were.
pub proof fn law_osc_has_no_width(a: Seq<char>, payload: Seq<char>, bel: bool, b: Seq<char>)
    requires
        forall|q: int| 0 <= q < a.len() ==> a[q] != '\x1b',
        forall|q: int| 0 <= q < payload.len() ==> payload[q] != '\x07' && payload[q] != '\x1b',
    ensures
        strip_escapes_from(a + osc_seq(payload, bel) + b, 0) == strip_escapes_from(a + b, 0),
        str_width(strip_escapes_from(a + osc_seq(payload, bel) + b, 0)) == str_width(
            strip_escapes_from(a + b, 0),
        ),
{
    let o = osc_seq(payload, bel);
    let s = a + o + b;
    let t = a + b;
    let n = a.len() as int;
    let e = n + 2 + payload.len();
    assert(o.len() == payload.len() + if bel { 3int } else { 4int });
    assert forall|q: int| 0 <= q < n implies s[q] != '\x1b' by {
        assert(s[q] == a[q]);
    }
    assert forall|q: int| 0 <= q < n implies t[q] != '\x1b' by {
        assert(t[q] == a[q]);
    }
    lemma_strip_plain_prefix(s, 0, n);
    lemma_strip_plain_prefix(t, 0, n);
    assert(s.subrange(0, n) =~= a);
    assert(t.subrange(0, n) =~= a);
    assert(s[n] == o[0]);
    assert(s[n + 1] == o[1]);
    assert forall|q: int| n + 2 <= q < e implies s[q] != '\x07' && s[q] != '\x1b' by {
        assert(s[q] == o[q - n]);
        assert(o[q - n] == payload[q - n - 2]);
    }
    assert(s[e] == o[e - n]);
    lemma_string_end_skips_payload(s, n + 2, e);
    if bel {
        assert(o[e - n] == '\x07');
        assert(string_seq_end(s, e) == e + 1);
    } else {
        assert(o[e - n] == '\x1b');
        assert(s[e + 1] == o[e + 1 - n]);
        assert(o[e + 1 - n] == '\\');
        assert(string_seq_end(s, e) == e + 2);
    }
    let m = n + o.len();
    assert(string_seq_end(s, n + 2) == m);
    assert(strip_escapes_from(s, n) == strip_escapes_from(s, m));
    let sm = s.subrange(m, s.len() as int);
    let tn = t.subrange(n, t.len() as int);
    assert(sm =~= tn) by {
        assert forall|q: int| 0 <= q < sm.len() implies #[trigger] sm[q] == tn[q] by {
            assert(s[m + q] == b[q]);
            assert(t[n + q] == b[q]);
        }
    }
    lemma_strip_suffix(s, m, t, n);
}

/// Columns a character takes when laid out: its width, or 0 for a control
/// character.
pub open spec fn cols(c: char) -> nat {
    match char_width(c) {
        Some(w) => w,
        None => 0,
    }
}

/// Columns of a character (`UnicodeWidthChar::width`, 0 for controls).
fn cols_exec(c: char) -> (w: usize)
    ensures
        w as nat == cols(c),
        w <= 3,
{
    match char_display_width(c) {
        Some(w) => w,
        None => 0,
    }
}

/// Index (within `t`) of the first character of positive width that would
/// take the running total past `budget`, starting from `used` columns.
pub open spec fn first_over(t: Seq<char>, used: nat, budget: nat) -> Option<int>
    decreases t.len(),
{
    if t.len() == 0 {
        None
    } else if cols(t[0]) > 0 && used + cols(t[0]) > budget {
        Some(0)
    } else {
        match first_over(t.drop_first(), used + cols(t[0]), budget) {
            Some(k) => Some(k + 1),
            None => None,
        }
    }
}

/// Total columns of a text.
pub open spec fn text_cols(t: Seq<char>) -> nat
    decreases t.len(),
{
    if t.len() == 0 {
        0
    } else {
        cols(t[0]) + text_cols(t.drop_first())
    }
}

/// The spans kept by truncation to `budget` columns, `used` columns already
/// taken: whole spans while everything fits, then the part of the span
/// before the first overflowing character; empty pieces are dropped.
pub open spec fn trunc_from(spans: LineView, used: nat, budget: nat) -> LineView
    decreases spans.len(),
{
    if spans.len() == 0 {
        seq![]
    } else {
        let t = spans[0].0;
        let st = spans[0].1;
        match first_over(t, used, budget) {
            Some(k) => if k > 0 {
                seq![(t.take(k), st)]
            } else {
                seq![]
            },
            None => (if t.len() > 0 {
                seq![(t, st)]
            } else {
                Seq::<(Seq<char>, CellStyle)>::empty()
            }) + trunc_from(spans.drop_first(), used + text_cols(t), budget),
        }
    }
}

/// The result of [`truncate`]: the line itself if it fits; otherwise the
/// kept spans (within `max_width` minus the ellipsis width, saturating) and
/// then the ellipsis as an unstyled span when it is not empty.
pub open spec fn truncated(line: LineView, max_width: nat, ellipsis: Seq<char>) -> LineView {
    if line_width(line) <= max_width {
        line
    } else {
        let ew: nat = if ellipsis.len() == 0 {
            0
        } else {
            str_width(ellipsis)
        };
        let budget: nat = if max_width >= ew {
            (max_width - ew) as nat
        } else {
            0
        };
        trunc_from(line, 0, budget) + if ellipsis.len() > 0 {
            seq![(ellipsis, empty_style())]
        } else {
            Seq::<(Seq<char>, CellStyle)>::empty()
        }
    }
}

proof fn lemma_first_over_step(t: Seq<char>, i: int, used0: nat, used: nat, budget: nat)
    requires
        0 <= i < t.len(),
        first_over(t, used0, budget) == (match first_over(t.skip(i), used, budget) {
            Some(k) => Some(k + i),
            None => None::<int>,
        }),
        !(cols(t[i]) > 0 && used + cols(t[i]) > budget),
    ensures
        first_over(t, used0, budget) == (match first_over(t.skip(i + 1), used + cols(t[i]), budget) {
            Some(k) => Some(k + i + 1),
            None => None::<int>,
        }),
{
    assert(t.skip(i).drop_first() == t.skip(i + 1));
    assert(t.skip(i)[0] == t[i]);
}

proof fn lemma_text_cols_step(t: Seq<char>, i: int)
    requires
        0 <= i < t.len(),
    ensures
        text_cols(t.skip(i)) == cols(t[i]) + text_cols(t.skip(i + 1)),
{
    assert(t.skip(i).drop_first() == t.skip(i + 1));
}

/// [`truncate`] for any line: `None` when the line's width does not fit
/// in a `usize`, otherwise the truncated line.
pub fn try_truncate(line: &StyledLine, max_width: usize, ellipsis: &str) -> (r: Option<StyledLine>)
    ensures
        match r {
            Some(t) => line_width(line@) <= usize::MAX && t@ == truncated(line@, max_width as nat, ellipsis@),
            None => line_width(line@) > usize::MAX,
        },
{
    match line.try_width() {
        Some(_) => Some(truncate(line, max_width, ellipsis)),
        None => None,
    }
}

/// Truncates `line` to at most `max_width` columns, appending `ellipsis`
/// when anything was cut (pass `""` for no marker). Wide characters are
/// never split and zero-width characters are kept in place.
pub fn truncate(line: &StyledLine, max_width: usize, ellipsis: &str) -> (r: StyledLine)
    requires
        line_width(line@) <= usize::MAX,
    ensures
        r@ == truncated(line@, max_width as nat, ellipsis@),
{
    if line.width() <= max_width {
        return line.duplicate();
    }
    let ew: usize = if ellipsis.is_empty() {
        0
    } else {
        str_display_width(ellipsis)
    };
    let budget = max_width.saturating_sub(ew);
    let mut out = StyledLine::new();
    let mut used: usize = 0;
    let mut si: usize = 0;
    let ghost spans = line@;
    assert(spans.skip(0) =~= spans);
    assert(out@ + trunc_from(spans, 0, budget as nat) =~= trunc_from(spans, 0, budget as nat));
    while si < line.spans.len()
        invariant_except_break
            trunc_from(spans, 0, budget as nat) == out@ + trunc_from(
                spans.skip(si as int),
                used as nat,
                budget as nat,
            ),
        invariant
            spans == line@,
            si <= spans.len(),
            used <= budget,
        ensures
            out@ == trunc_from(spans, 0, budget as nat),
        decreases spans.len() - si,
    {
        let span = &line.spans[si];
        let tv = chars_of(span.text.as_str());
        let ghost t = tv@;
        assert(spans.skip(si as int)[0] == (t, span.style));
        assert(spans.skip(si as int).drop_first() == spans.skip(si + 1));
        let mut piece: Vec<char> = Vec::new();
        let mut ci: usize = 0;
        let ghost used0 = used;
        let mut cut = false;
        assert(t.skip(0) =~= t);
        assert(piece@ =~= t.take(0));
        while ci < tv.len()
            invariant_except_break
                !cut,
            invariant
                t == tv@,
                ci <= t.len(),
                used <= budget,
                piece@ == t.take(ci as int),
                first_over(t, used0 as nat, budget as nat) == (match first_over(
                    t.skip(ci as int),
                    used as nat,
                    budget as nat,
                ) {
                    Some(k) => Some(k + ci),
                    None => None::<int>,
                }),
                text_cols(t) + used0 == text_cols(t.skip(ci as int)) + used,
            ensures
                cut ==> ci < t.len() && cols(t[ci as int]) > 0 && used + cols(t[ci as int])
                    > budget,
                !cut ==> ci == t.len(),
            decreases t.len() - ci,
        {
            let ch = tv[ci];
            let cw = cols_exec(ch);
            proof {
                lemma_text_cols_step(t, ci as int);
            }
            if cw != 0 && cw > budget - used {
                assert(t.skip(ci as int)[0] == ch);
                cut = true;
                break;
            }
            proof {
                lemma_first_over_step(t, ci as int, used0 as nat, used as nat, budget as nat);
            }
            piece.push(ch);
            assert(piece@ == t.take(ci + 1));
            used = used + cw;
            ci = ci + 1;
        }
        if cut {
            assert(t.skip(ci as int)[0] == t[ci as int]);
            assert(first_over(t.skip(ci as int), used as nat, budget as nat) == Some(0int));
            assert(first_over(t, used0 as nat, budget as nat) == Some(ci as int));
            if piece.len() > 0 {
                let s = crate::text::string_of(&piece);
                out.push(Span { text: s, style: span.style });
            }
            proof {
                assert(out@ =~= trunc_from(spans, 0, budget as nat)) by {
                    if piece@.len() == 0 {
                        assert(trunc_from(spans.skip(si as int), used0 as nat, budget as nat)
                            =~= Seq::<(Seq<char>, CellStyle)>::empty());
                    } else {
                        assert(trunc_from(spans.skip(si as int), used0 as nat, budget as nat)
                            =~= seq![(t.take(ci as int), span.style)]);
                    }
                }
            }
            break;
        }
        assert(t.skip(t.len() as int) =~= Seq::<char>::empty());
        assert(t.take(t.len() as int) =~= t);
        assert(piece@ == t);
        assert(first_over(t, used0 as nat, budget as nat).is_none());
        if piece.len() > 0 {
            let s = crate::text::string_of(&piece);
            out.push(Span { text: s, style: span.style });
        }
        proof {
            let rest = trunc_from(spans.skip(si + 1), used as nat, budget as nat);
            assert(trunc_from(spans.skip(si as int), used0 as nat, budget as nat) == (if t.len()
                > 0 {
                seq![(t, span.style)]
            } else {
                Seq::<(Seq<char>, CellStyle)>::empty()
            }) + rest);
            assert(text_cols(t) + used0 == used);
        }
        si = si + 1;
        proof {
            assert(trunc_from(spans, 0, budget as nat) =~= out@ + trunc_from(
                spans.skip(si as int),
                used as nat,
                budget as nat,
            ));
        }
    }
    let ghost kept = out@;
    assert(kept == trunc_from(line@, 0, budget as nat));
    if !ellipsis.is_empty() {
        out.push(Span::raw(ellipsis));
    }
    assert(out@ =~= truncated(line@, max_width as nat, ellipsis@));
    out
}

/// Wrapping state: finished rows, the row being built, and its width.
pub struct WrapState {
    pub rows: Seq<LineView>,
    pub cur: LineView,
    pub cur_w: nat,
}

/// One character laid out, `piece` being the current span's pending text:
/// zero-width characters join the piece; a character that would take a
/// non-empty row past `width` first closes the row (flushing the piece);
/// otherwise it joins the piece and the row grows.
pub open spec fn wrap_char(ws: WrapState, piece: Seq<char>, c: char, st: CellStyle, width: nat) -> (
    WrapState,
    Seq<char>,
) {
    let cw = cols(c);
    if cw == 0 {
        (ws, piece.push(c))
    } else if ws.cur_w + cw > width && ws.cur_w > 0 {
        let cur2 = if piece.len() > 0 {
            ws.cur.push((piece, st))
        } else {
            ws.cur
        };
        (WrapState { rows: ws.rows.push(cur2), cur: seq![], cur_w: cw }, seq![c])
    } else {
        (WrapState { cur_w: ws.cur_w + cw, ..ws }, piece.push(c))
    }
}

/// The characters of `t` laid out in order.
pub open spec fn wrap_text(ws: WrapState, piece: Seq<char>, t: Seq<char>, st: CellStyle, width: nat) -> (
    WrapState,
    Seq<char>,
)
    decreases t.len(),
{
    if t.len() == 0 {
        (ws, piece)
    } else {
        let (w1, p1) = wrap_text(ws, piece, t.drop_last(), st, width);
        wrap_char(w1, p1, t.last(), st, width)
    }
}

/// One span laid out; its last piece, if not empty, joins the current row.
pub open spec fn wrap_span(ws: WrapState, sp: (Seq<char>, CellStyle), width: nat) -> WrapState {
    let (w1, p) = wrap_text(ws, seq![], sp.0, sp.1, width);
    if p.len() > 0 {
        WrapState { cur: w1.cur.push((p, sp.1)), ..w1 }
    } else {
        w1
    }
}

/// The spans laid out in order from an empty state.
pub open spec fn wrap_spans(spans: LineView, width: nat) -> WrapState
    decreases spans.len(),
{
    if spans.len() == 0 {
        WrapState { rows: seq![], cur: seq![], cur_w: 0 }
    } else {
        wrap_span(wrap_spans(spans.drop_last(), width), spans.last(), width)
    }
}

/// The rows [`wrap`] produces: the line itself for width 0; otherwise the
/// closed rows and then the last row (possibly empty).
pub open spec fn wrapped(line: LineView, width: nat) -> Seq<LineView> {
    if width == 0 {
        seq![line]
    } else {
        let w = wrap_spans(line, width);
        w.rows.push(w.cur)
    }
}

/// The views of a list of lines.
pub open spec fn lines_view(v: Seq<StyledLine>) -> Seq<LineView> {
    v.map_values(|l: StyledLine| l@)
}

proof fn lemma_lines_push(v: Seq<StyledLine>, x: StyledLine)
    ensures
        lines_view(v.push(x)) == lines_view(v).push(x@),
{
    assert(lines_view(v.push(x)) =~= lines_view(v).push(x@));
}

/// Wraps `line` to at most `width` columns, breaking before the character
/// that would overflow a non-empty row (so a character wider than `width`
/// still gets a row of its own). A span split across a break leaves one
/// piece per row, each with the span's style. Width 0 returns the line
/// unchanged; there is always at least one row.
pub fn wrap(line: &StyledLine, width: usize) -> (rows: Vec<StyledLine>)
    ensures
        lines_view(rows@) == wrapped(line@, width as nat),
{
    if width == 0 {
        let mut rows: Vec<StyledLine> = Vec::new();
        let l = line.duplicate();
        rows.push(l);
        assert(lines_view(rows@) =~= seq![line@]);
        return rows;
    }
    let mut rows: Vec<StyledLine> = Vec::new();
    let mut cur = StyledLine::new();
    let mut cur_w: usize = 0;
    let mut si: usize = 0;
    let ghost spans = line@;
    assert(spans.take(0) =~= Seq::<(Seq<char>, CellStyle)>::empty());
    assert(lines_view(rows@) =~= Seq::<LineView>::empty());
    while si < line.spans.len()
        invariant
            spans == line@,
            si <= spans.len(),
            width > 0,
            cur_w <= width || cur_w <= 3,
            wrap_spans(spans.take(si as int), width as nat) == (WrapState {
                rows: lines_view(rows@),
                cur: cur@,
                cur_w: cur_w as nat,
            }),
        decreases spans.len() - si,
    {
        let span = &line.spans[si];
        let tv = chars_of(span.text.as_str());
        let ghost t = tv@;
        let ghost w0 = WrapState { rows: lines_view(rows@), cur: cur@, cur_w: cur_w as nat };
        assert(spans.take(si + 1).drop_last() == spans.take(si as int));
        assert(spans.take(si + 1).last() == (t, span.style));
        let mut piece: Vec<char> = Vec::new();
        let mut ci: usize = 0;
        assert(t.take(0) =~= Seq::<char>::empty());
        while ci < tv.len()
            invariant
                t == tv@,
                ci <= t.len(),
                width > 0,
                cur_w <= width || cur_w <= 3,
                wrap_text(w0, seq![], t.take(ci as int), span.style, width as nat) == (WrapState {
                    rows: lines_view(rows@),
                    cur: cur@,
                    cur_w: cur_w as nat,
                }, piece@),
            decreases t.len() - ci,
        {
            let ch = tv[ci];
            let cw = cols_exec(ch);
            assert(t.take(ci + 1).drop_last() == t.take(ci as int));
            assert(t.take(ci + 1).last() == ch);
            if cw == 0 {
                piece.push(ch);
            } else if cur_w > 0 && (cur_w > width || cw > width - cur_w) {
                if piece.len() > 0 {
                    let ps = crate::text::string_of(&piece);
                    cur.push(Span { text: ps, style: span.style });
                }
                let ghost r0 = rows@;
                let done = cur;
                rows.push(done);
                proof {
                    lemma_lines_push(r0, done);
                }
                cur = StyledLine::new();
                piece = Vec::new();
                piece.push(ch);
                assert(piece@ =~= seq![ch]);
                cur_w = cw;
            } else {
                piece.push(ch);
                cur_w = cur_w + cw;
            }
            ci = ci + 1;
        }
        assert(t.take(t.len() as int) =~= t);
        if piece.len() > 0 {
            let ps = crate::text::string_of(&piece);
            cur.push(Span { text: ps, style: span.style });
        }
        si = si + 1;
    }
    assert(spans.take(spans.len() as int) =~= spans);
    let ghost r0 = rows@;
    let last = cur;
    rows.push(last);
    proof {
        lemma_lines_push(r0, last);
    }
    rows
}

/// Plain-text wrapping state: finished rows, the current row, its width.
pub struct PlainWrap {
    pub rows: Seq<Seq<char>>,
    pub cur: Seq<char>,
    pub cur_w: nat,
}

/// One character of plain text laid out: a newline closes the row; a
/// zero-width character joins it; a character that would take a non-empty
/// row past `width` starts a new row.
pub open spec fn plain_char(w: PlainWrap, c: char, width: nat) -> PlainWrap {
    if c == '\n' {
        PlainWrap { rows: w.rows.push(w.cur), cur: seq![], cur_w: 0 }
    } else if cols(c) == 0 {
        PlainWrap { cur: w.cur.push(c), ..w }
    } else if w.cur_w + cols(c) > width && w.cur_w > 0 {
        PlainWrap { rows: w.rows.push(w.cur), cur: seq![c], cur_w: cols(c) }
    } else {
        PlainWrap { cur: w.cur.push(c), cur_w: w.cur_w + cols(c), ..w }
    }
}

/// The characters of `t` laid out in order from an empty state.
pub open spec fn plain_text_wrap(t: Seq<char>, width: nat) -> PlainWrap
    decreases t.len(),
{
    if t.len() == 0 {
        PlainWrap { rows: seq![], cur: seq![], cur_w: 0 }
    } else {
        plain_char(plain_text_wrap(t.drop_last(), width), t.last(), width)
    }
}

/// The rows [`wrap_plain`] produces, each one unstyled span (possibly
/// empty): the whole text for width 0; otherwise the closed rows and the
/// last row.
pub open spec fn wrapped_plain(t: Seq<char>, width: nat) -> Seq<LineView> {
    if width == 0 {
        seq![seq![(t, empty_style())]]
    } else {
        let w = plain_text_wrap(t, width);
        w.rows.push(w.cur).map_values(|r: Seq<char>| seq![(r, empty_style())])
    }
}

/// Wraps plain text to `width` columns as unstyled lines: `\n` always breaks;
/// otherwise as [`wrap`]. There is always at least one row.
pub fn wrap_plain(text: &str, width: usize) -> (rows: Vec<StyledLine>)
    ensures
        lines_view(rows@) == wrapped_plain(text@, width as nat),
{
    let mut out: Vec<StyledLine> = Vec::new();
    if width == 0 {
        out.push(StyledLine::raw(text));
        assert(lines_view(out@) =~= wrapped_plain(text@, width as nat));
        return out;
    }
    let tv = chars_of(text);
    let mut rows: Vec<Vec<char>> = Vec::new();
    let mut cur: Vec<char> = Vec::new();
    let mut cur_w: usize = 0;
    let mut i: usize = 0;
    assert(tv@.take(0) =~= Seq::<char>::empty());
    assert(rows@.map_values(|r: Vec<char>| r@) =~= Seq::<Seq<char>>::empty());
    while i < tv.len()
        invariant
            tv@ == text@,
            i <= tv@.len(),
            width > 0,
            cur_w <= width || cur_w <= 3,
            plain_text_wrap(tv@.take(i as int), width as nat) == (PlainWrap {
                rows: rows@.map_values(|r: Vec<char>| r@),
                cur: cur@,
                cur_w: cur_w as nat,
            }),
        decreases tv@.len() - i,
    {
        let ch = tv[i];
        assert(tv@.take(i + 1).drop_last() == tv@.take(i as int));
        assert(tv@.take(i + 1).last() == ch);
        let ghost r0 = rows@;
        if ch == '\n' {
            let done = cur;
            rows.push(done);
            assert(rows@.map_values(|r: Vec<char>| r@) =~= r0.map_values(|r: Vec<char>| r@).push(
                done@,
            ));
            cur = Vec::new();
            cur_w = 0;
        } else {
            let cw = cols_exec(ch);
            if cw == 0 {
                cur.push(ch);
            } else if cur_w > 0 && (cur_w > width || cw > width - cur_w) {
                let done = cur;
                rows.push(done);
                assert(rows@.map_values(|r: Vec<char>| r@) =~= r0.map_values(|r: Vec<char>| r@).push(
                    done@,
                ));
                cur = Vec::new();
                cur.push(ch);
                assert(cur@ =~= seq![ch]);
                cur_w = cw;
            } else {
                cur.push(ch);
                cur_w = cur_w + cw;
            }
        }
        i = i + 1;
    }
    assert(tv@.take(tv@.len() as int) =~= tv@);
    let ghost r0 = rows@;
    let last = cur;
    rows.push(last);
    assert(rows@.map_values(|r: Vec<char>| r@) =~= r0.map_values(|r: Vec<char>| r@).push(last@));
    let mut k: usize = 0;
    while k < rows.len()
        invariant
            k <= rows@.len(),
            lines_view(out@) == rows@.map_values(|r: Vec<char>| r@).take(k as int).map_values(
                |r: Seq<char>| seq![(r, empty_style())],
            ),
        decreases rows@.len() - k,
    {
        let s = crate::text::string_of(&rows[k]);
        let ghost o0 = out@;
        let l = StyledLine::raw(s.as_str());
        out.push(l);
        proof {
            lemma_lines_push(o0, l);
            assert(lines_view(out@) =~= rows@.map_values(|r: Vec<char>| r@).take(k + 1).map_values(
                |r: Seq<char>| seq![(r, empty_style())],
            ));
        }
        k = k + 1;
    }
    assert(rows@.map_values(|r: Vec<char>| r@).take(rows@.len() as int) =~= rows@.map_values(
        |r: Vec<char>| r@,
    ));
    out
}

/// Number of newlines in `t`.
pub open spec fn newline_count(t: Seq<char>) -> nat
    decreases t.len(),
{
    if t.len() == 0 {
        0
    } else {
        newline_count(t.drop_last()) + if t.last() == '\n' {
            1nat
        } else {
            0nat
        }
    }
}

/// The lines of `t`: the pieces between newlines, empty ones included (one
/// more than there are newlines).
pub open spec fn split_lines(t: Seq<char>) -> Seq<Seq<char>>
    decreases t.len(),
{
    if t.len() == 0 {
        seq![seq![]]
    } else {
        let r = split_lines(t.drop_last());
        if t.last() == '\n' {
            r.push(seq![])
        } else {
            r.update(r.len() - 1, r.last().push(t.last()))
        }
    }
}

/// Lines joined with a newline between each two.
pub open spec fn join_lines(rows: Seq<Seq<char>>) -> Seq<char>
    decreases rows.len(),
{
    if rows.len() == 0 {
        seq![]
    } else if rows.len() == 1 {
        rows[0]
    } else {
        join_lines(rows.drop_last()) + seq!['\n'] + rows.last()
    }
}

proof fn lemma_split_lines(t: Seq<char>)
    ensures
        split_lines(t).len() == newline_count(t) + 1,
        join_lines(split_lines(t)) == t,
    decreases t.len(),
{
    if t.len() > 0 {
        let p = t.drop_last();
        let c = t.last();
        lemma_split_lines(p);
        let r = split_lines(p);
        assert(p.push(c) =~= t);
        if c == '\n' {
            let r2 = r.push(seq![]);
            assert(r2.drop_last() =~= r);
            assert(join_lines(r2) =~= p + seq!['\n'] + Seq::<char>::empty());
        } else {
            let r2 = r.update(r.len() - 1, r.last().push(c));
            if r.len() == 1 {
                assert(join_lines(r2) == r2[0]);
                assert(join_lines(r) == r[0]);
            } else {
                assert(r2.drop_last() =~= r.drop_last());
                assert(join_lines(r2) =~= join_lines(r.drop_last()) + seq!['\n'] + r.last().push(c));
            }
            assert(join_lines(r2) =~= p.push(c));
        }
    }
}

proof fn lemma_plain_rows_per_newline(t: Seq<char>, width: nat)
    ensures
        plain_text_wrap(t, width).rows.len() >= newline_count(t),
    decreases t.len(),
{
    if t.len() > 0 {
        lemma_plain_rows_per_newline(t.drop_last(), width);
    }
}

proof fn lemma_plain_fitting(t: Seq<char>, width: nat)
    requires
        text_cols(t) <= width,
    ensures
        plain_text_wrap(t, width).rows.push(plain_text_wrap(t, width).cur) == split_lines(t),
        plain_text_wrap(t, width).cur_w <= text_cols(t),
    decreases t.len(),
{
    if t.len() > 0 {
        let p = t.drop_last();
        let c = t.last();
        assert(p.push(c) =~= t);
        lemma_text_cols_push(p, c);
        lemma_plain_fitting(p, width);
        let w0 = plain_text_wrap(p, width);
        let r = split_lines(p);
        if c != '\n' {
            assert(w0.rows.push(w0.cur.push(c)) =~= r.update(r.len() - 1, r.last().push(c)));
        }
    } else {
        assert(Seq::<Seq<char>>::empty().push(Seq::<char>::empty()) =~= seq![Seq::<char>::empty()]);
    }
}

/// Every newline ends a row: a wrap of plain text to a positive width has at
/// least one row more than the text has newlines (an empty line between two
/// newlines keeps its empty row), and more only where a row was too wide.
/// When the whole text fits the width, the rows are exactly its lines, one
/// per newline plus one, and joining them with newlines gives back the text.
pub proof fn law_wrap_plain_breaks_at_newlines(t: Seq<char>, width: nat)
    requires
        width > 0,
    ensures
        wrapped_plain(t, width).len() >= newline_count(t) + 1,
        text_cols(t) <= width ==> wrapped_plain(t, width) == split_lines(t).map_values(
            |r: Seq<char>| seq![(r, empty_style())],
        ),
        split_lines(t).len() == newline_count(t) + 1,
        join_lines(split_lines(t)) == t,
{
    lemma_plain_rows_per_newline(t, width);
    lemma_split_lines(t);
    if text_cols(t) <= width {
        lemma_plain_fitting(t, width);
    }
}

/// The text of a list of rows, row after row.
pub open spec fn rows_text(rows: Seq<LineView>) -> Seq<char>
    decreases rows.len(),
{
    if rows.len() == 0 {
        seq![]
    } else {
        rows_text(rows.drop_last()) + concat_texts(rows.last())
    }
}

proof fn lemma_concat_push(spans: LineView, x: (Seq<char>, CellStyle))
    ensures
        concat_texts(spans.push(x)) == concat_texts(spans) + x.0,
{
    assert(spans.push(x).drop_last() =~= spans);
}

proof fn lemma_rows_push(rows: Seq<LineView>, r: LineView)
    ensures
        rows_text(rows.push(r)) == rows_text(rows) + concat_texts(r),
{
    assert(rows.push(r).drop_last() =~= rows);
}

/// The text laid out so far: the closed rows, the current row, the piece.
pub open spec fn laid_text(ws: WrapState, piece: Seq<char>) -> Seq<char> {
    rows_text(ws.rows) + concat_texts(ws.cur) + piece
}

proof fn lemma_wrap_char_keeps_text(ws: WrapState, piece: Seq<char>, c: char, st: CellStyle, width: nat)
    ensures
        ({
            let (w1, p1) = wrap_char(ws, piece, c, st, width);
            laid_text(w1, p1) == laid_text(ws, piece).push(c)
        }),
{
    let cw = cols(c);
    let (w1, p1) = wrap_char(ws, piece, c, st, width);
    if cw == 0 {
        assert(laid_text(w1, p1) =~= laid_text(ws, piece).push(c));
    } else if ws.cur_w + cw > width && ws.cur_w > 0 {
        let cur2 = if piece.len() > 0 {
            ws.cur.push((piece, st))
        } else {
            ws.cur
        };
        if piece.len() > 0 {
            lemma_concat_push(ws.cur, (piece, st));
        } else {
            assert(concat_texts(ws.cur) + piece =~= concat_texts(ws.cur));
        }
        lemma_rows_push(ws.rows, cur2);
        assert(concat_texts(Seq::<(Seq<char>, CellStyle)>::empty()) =~= Seq::<char>::empty());
        assert(laid_text(w1, p1) =~= laid_text(ws, piece).push(c));
    } else {
        assert(laid_text(w1, p1) =~= laid_text(ws, piece).push(c));
    }
}

proof fn lemma_wrap_text_keeps_text(ws: WrapState, piece: Seq<char>, t: Seq<char>, st: CellStyle, width: nat)
    ensures
        ({
            let (w1, p1) = wrap_text(ws, piece, t, st, width);
            laid_text(w1, p1) == laid_text(ws, piece) + t
        }),
    decreases t.len(),
{
    if t.len() > 0 {
        lemma_wrap_text_keeps_text(ws, piece, t.drop_last(), st, width);
        let (w1, p1) = wrap_text(ws, piece, t.drop_last(), st, width);
        lemma_wrap_char_keeps_text(w1, p1, t.last(), st, width);
        assert(t =~= t.drop_last().push(t.last()));
        assert(laid_text(ws, piece) + t =~= (laid_text(ws, piece) + t.drop_last()).push(t.last()));
    } else {
        assert(laid_text(ws, piece) + t =~= laid_text(ws, piece));
    }
}

proof fn lemma_wrap_spans_keep_text(spans: LineView, width: nat)
    ensures
        rows_text(wrap_spans(spans, width).rows) + concat_texts(wrap_spans(spans, width).cur)
            == concat_texts(spans),
    decreases spans.len(),
{
    if spans.len() > 0 {
        lemma_wrap_spans_keep_text(spans.drop_last(), width);
        let ws = wrap_spans(spans.drop_last(), width);
        let sp = spans.last();
        lemma_wrap_text_keeps_text(ws, seq![], sp.0, sp.1, width);
        let (w1, p) = wrap_text(ws, seq![], sp.0, sp.1, width);
        if p.len() > 0 {
            lemma_concat_push(w1.cur, (p, sp.1));
        }
        let w2 = wrap_spans(spans, width);
        assert(rows_text(w2.rows) + concat_texts(w2.cur) =~= concat_texts(spans));
    } else {
        assert(rows_text(Seq::<LineView>::empty()) + concat_texts(Seq::<(Seq<char>, CellStyle)>::empty())
            =~= concat_texts(spans));
    }
}

/// Wrapping loses, adds and reorders nothing: the rows' texts, one after
/// the other, are the line's text.
pub proof fn law_wrap_keeps_text(line: LineView, width: nat)
    ensures
        rows_text(wrapped(line, width)) == concat_texts(line),
{
    if width == 0 {
        lemma_rows_push(Seq::<LineView>::empty(), line);
        assert(seq![line] =~= Seq::<LineView>::empty().push(line));
        assert(rows_text(Seq::<LineView>::empty()) + concat_texts(line) =~= concat_texts(line));
    } else {
        lemma_wrap_spans_keep_text(line, width);
        let w = wrap_spans(line, width);
        lemma_rows_push(w.rows, w.cur);
    }
}

/// Each character of `t` paired with the style `st`.
pub open spec fn tagged(t: Seq<char>, st: CellStyle) -> Seq<(char, CellStyle)> {
    t.map_values(|c: char| (c, st))
}

/// The characters of a line, each with the style of the span it stands in.
pub open spec fn styled_chars(line: LineView) -> Seq<(char, CellStyle)>
    decreases line.len(),
{
    if line.len() == 0 {
        seq![]
    } else {
        styled_chars(line.drop_last()) + tagged(line.last().0, line.last().1)
    }
}

/// The styled characters of a list of rows, row after row.
pub open spec fn rows_styled(rows: Seq<LineView>) -> Seq<(char, CellStyle)>
    decreases rows.len(),
{
    if rows.len() == 0 {
        seq![]
    } else {
        rows_styled(rows.drop_last()) + styled_chars(rows.last())
    }
}

/// The styled characters laid out so far: closed rows, current row, and
/// the pending piece in the style `st` of the span it comes from.
pub open spec fn laid_styled(ws: WrapState, piece: Seq<char>, st: CellStyle) -> Seq<(char, CellStyle)> {
    rows_styled(ws.rows) + styled_chars(ws.cur) + tagged(piece, st)
}

proof fn lemma_styled_push(spans: LineView, x: (Seq<char>, CellStyle))
    ensures
        styled_chars(spans.push(x)) == styled_chars(spans) + tagged(x.0, x.1),
{
    assert(spans.push(x).drop_last() =~= spans);
}

proof fn lemma_rows_styled_push(rows: Seq<LineView>, r: LineView)
    ensures
        rows_styled(rows.push(r)) == rows_styled(rows) + styled_chars(r),
{
    assert(rows.push(r).drop_last() =~= rows);
}

proof fn lemma_wrap_char_keeps_styles(ws: WrapState, piece: Seq<char>, c: char, st: CellStyle, width: nat)
    ensures
        ({
            let (w1, p1) = wrap_char(ws, piece, c, st, width);
            laid_styled(w1, p1, st) == laid_styled(ws, piece, st).push((c, st))
        }),
{
    let cw = cols(c);
    let (w1, p1) = wrap_char(ws, piece, c, st, width);
    assert(tagged(piece.push(c), st) =~= tagged(piece, st).push((c, st)));
    if cw == 0 {
        assert(laid_styled(w1, p1, st) =~= laid_styled(ws, piece, st).push((c, st)));
    } else if ws.cur_w + cw > width && ws.cur_w > 0 {
        let cur2 = if piece.len() > 0 {
            ws.cur.push((piece, st))
        } else {
            ws.cur
        };
        if piece.len() > 0 {
            lemma_styled_push(ws.cur, (piece, st));
        } else {
            assert(tagged(piece, st) =~= Seq::<(char, CellStyle)>::empty());
            assert(styled_chars(ws.cur) + tagged(piece, st) =~= styled_chars(ws.cur));
        }
        lemma_rows_styled_push(ws.rows, cur2);
        assert(styled_chars(Seq::<(Seq<char>, CellStyle)>::empty()) =~= Seq::<(char, CellStyle)>::empty());
        assert(tagged(seq![c], st) =~= seq![(c, st)]);
        assert(laid_styled(w1, p1, st) =~= laid_styled(ws, piece, st).push((c, st)));
    } else {
        assert(laid_styled(w1, p1, st) =~= laid_styled(ws, piece, st).push((c, st)));
    }
}

proof fn lemma_wrap_text_keeps_styles(ws: WrapState, piece: Seq<char>, t: Seq<char>, st: CellStyle, width: nat)
    ensures
        ({
            let (w1, p1) = wrap_text(ws, piece, t, st, width);
            laid_styled(w1, p1, st) == laid_styled(ws, piece, st) + tagged(t, st)
        }),
    decreases t.len(),
{
    if t.len() > 0 {
        lemma_wrap_text_keeps_styles(ws, piece, t.drop_last(), st, width);
        let (w1, p1) = wrap_text(ws, piece, t.drop_last(), st, width);
        lemma_wrap_char_keeps_styles(w1, p1, t.last(), st, width);
        assert(tagged(t, st) =~= tagged(t.drop_last(), st).push((t.last(), st)));
        assert(laid_styled(ws, piece, st) + tagged(t, st) =~= (laid_styled(ws, piece, st) + tagged(
            t.drop_last(),
            st,
        )).push((t.last(), st)));
    } else {
        assert(tagged(t, st) =~= Seq::<(char, CellStyle)>::empty());
        assert(laid_styled(ws, piece, st) + tagged(t, st) =~= laid_styled(ws, piece, st));
    }
}

proof fn lemma_wrap_spans_keep_styles(spans: LineView, width: nat)
    ensures
        rows_styled(wrap_spans(spans, width).rows) + styled_chars(wrap_spans(spans, width).cur)
            == styled_chars(spans),
    decreases spans.len(),
{
    if spans.len() > 0 {
        lemma_wrap_spans_keep_styles(spans.drop_last(), width);
        let ws = wrap_spans(spans.drop_last(), width);
        let sp = spans.last();
        lemma_wrap_text_keeps_styles(ws, seq![], sp.0, sp.1, width);
        assert(tagged(Seq::<char>::empty(), sp.1) =~= Seq::<(char, CellStyle)>::empty());
        let (w1, p) = wrap_text(ws, seq![], sp.0, sp.1, width);
        if p.len() > 0 {
            lemma_styled_push(w1.cur, (p, sp.1));
        } else {
            assert(tagged(p, sp.1) =~= Seq::<(char, CellStyle)>::empty());
        }
        let w2 = wrap_spans(spans, width);
        assert(rows_styled(ws.rows) + styled_chars(ws.cur) + tagged(Seq::<char>::empty(), sp.1)
            =~= styled_chars(spans.drop_last()));
        assert(rows_styled(w2.rows) + styled_chars(w2.cur) =~= styled_chars(spans));
    } else {
        assert(rows_styled(Seq::<LineView>::empty()) + styled_chars(Seq::<(Seq<char>, CellStyle)>::empty())
            =~= styled_chars(spans));
    }
}

/// Wrapping keeps styles: the rows, flattened into characters each paired
/// with the style of its piece, are the line flattened the same way. Every
/// piece of every row carries exactly the style of the span its characters
/// came from.
pub proof fn law_wrap_keeps_styles(line: LineView, width: nat)
    ensures
        rows_styled(wrapped(line, width)) == styled_chars(line),
{
    if width == 0 {
        lemma_rows_styled_push(Seq::<LineView>::empty(), line);
        assert(seq![line] =~= Seq::<LineView>::empty().push(line));
        assert(rows_styled(Seq::<LineView>::empty()) + styled_chars(line) =~= styled_chars(line));
    } else {
        lemma_wrap_spans_keep_styles(line, width);
        let w = wrap_spans(line, width);
        lemma_rows_styled_push(w.rows, w.cur);
    }
}

/// Number of characters of `t` that take columns.
pub open spec fn wide_count(t: Seq<char>) -> nat
    decreases t.len(),
{
    if t.len() == 0 {
        0
    } else {
        wide_count(t.drop_last()) + if cols(t.last()) > 0 {
            1nat
        } else {
            0nat
        }
    }
}

/// A row fits `width` columns, or holds a single character that takes
/// columns (one wider than `width`, which gets a row of its own).
pub open spec fn row_fits(r: LineView, width: nat) -> bool {
    text_cols(concat_texts(r)) <= width || wide_count(concat_texts(r)) == 1
}

proof fn lemma_text_cols_push(t: Seq<char>, c: char)
    ensures
        text_cols(t.push(c)) == text_cols(t) + cols(c),
    decreases t.len(),
{
    let tc = t.push(c);
    if t.len() > 0 {
        assert(tc[0] == t[0]);
        assert(tc.drop_first() =~= t.drop_first().push(c));
        lemma_text_cols_push(t.drop_first(), c);
        assert(text_cols(tc) == cols(tc[0]) + text_cols(tc.drop_first()));
        assert(text_cols(t) == cols(t[0]) + text_cols(t.drop_first()));
    } else {
        assert(tc[0] == c);
        assert(tc.drop_first() =~= Seq::<char>::empty());
        assert(text_cols(tc) == cols(tc[0]) + text_cols(tc.drop_first()));
        assert(text_cols(Seq::<char>::empty()) == 0);
    }
}

proof fn lemma_no_cols_no_wide(t: Seq<char>)
    requires
        text_cols(t) == 0,
    ensures
        wide_count(t) == 0,
    decreases t.len(),
{
    if t.len() > 0 {
        lemma_text_cols_push(t.drop_last(), t.last());
        assert(t.drop_last().push(t.last()) =~= t);
        lemma_no_cols_no_wide(t.drop_last());
    }
}

/// The layout invariant: the width counter is the current row's columns,
/// which fit or belong to a single wide character, and every closed row
/// fits.
pub open spec fn layout_ok(ws: WrapState, piece: Seq<char>, width: nat) -> bool {
    let t = concat_texts(ws.cur) + piece;
    &&& ws.cur_w == text_cols(t)
    &&& (ws.cur_w <= width || wide_count(t) == 1)
    &&& forall|i: int| 0 <= i < ws.rows.len() ==> row_fits(#[trigger] ws.rows[i], width)
}

proof fn lemma_wrap_char_layout(ws: WrapState, piece: Seq<char>, c: char, st: CellStyle, width: nat)
    requires
        layout_ok(ws, piece, width),
    ensures
        ({
            let (w1, p1) = wrap_char(ws, piece, c, st, width);
            layout_ok(w1, p1, width)
        }),
{
    let cw = cols(c);
    let t = concat_texts(ws.cur) + piece;
    let (w1, p1) = wrap_char(ws, piece, c, st, width);
    lemma_text_cols_push(t, c);
    assert(concat_texts(ws.cur) + piece.push(c) =~= t.push(c));
    assert(t.push(c).drop_last() =~= t);
    assert(t.push(c).last() == c);
    if cw == 0 {
        assert(wide_count(t.push(c)) == wide_count(t));
        assert(concat_texts(w1.cur) + p1 == t.push(c));
        assert(w1.cur_w == text_cols(t.push(c)));
        assert(w1.rows == ws.rows);
        assert(w1.cur_w <= width || wide_count(concat_texts(w1.cur) + p1) == 1);
        assert(layout_ok(w1, p1, width));
    } else if ws.cur_w + cw > width && ws.cur_w > 0 {
        let cur2 = if piece.len() > 0 {
            ws.cur.push((piece, st))
        } else {
            ws.cur
        };
        if piece.len() > 0 {
            lemma_concat_push(ws.cur, (piece, st));
        } else {
            assert(t =~= concat_texts(ws.cur));
        }
        assert(row_fits(cur2, width));
        assert forall|i: int| 0 <= i < w1.rows.len() implies row_fits(#[trigger] w1.rows[i], width) by {
            if i < ws.rows.len() {
                assert(w1.rows[i] == ws.rows[i]);
            }
        }
        let t1 = concat_texts(w1.cur) + p1;
        assert(concat_texts(Seq::<(Seq<char>, CellStyle)>::empty()) =~= Seq::<char>::empty());
        assert(t1 =~= seq![c]);
        assert(seq![c] =~= Seq::<char>::empty().push(c));
        lemma_text_cols_push(Seq::<char>::empty(), c);
        assert(seq![c].drop_last() =~= Seq::<char>::empty());
        assert(w1.cur_w == text_cols(t1));
        assert(t1.drop_last() =~= Seq::<char>::empty());
        assert(t1.last() == c);
        assert(wide_count(Seq::<char>::empty()) == 0);
        assert(wide_count(t1) == 1);
        assert(layout_ok(w1, p1, width));
    } else {
        if ws.cur_w + cw > width {
            assert(ws.cur_w == 0);
            lemma_no_cols_no_wide(t);
            assert(wide_count(t.push(c)) == 1);
        }
        assert(concat_texts(w1.cur) + p1 == t.push(c));
        assert(w1.cur_w == text_cols(t.push(c)));
        assert(w1.rows == ws.rows);
        assert(layout_ok(w1, p1, width));
    }
}

proof fn lemma_wrap_text_layout(ws: WrapState, piece: Seq<char>, t: Seq<char>, st: CellStyle, width: nat)
    requires
        layout_ok(ws, piece, width),
    ensures
        ({
            let (w1, p1) = wrap_text(ws, piece, t, st, width);
            layout_ok(w1, p1, width)
        }),
    decreases t.len(),
{
    if t.len() > 0 {
        lemma_wrap_text_layout(ws, piece, t.drop_last(), st, width);
        let (w1, p1) = wrap_text(ws, piece, t.drop_last(), st, width);
        lemma_wrap_char_layout(w1, p1, t.last(), st, width);
    }
}

proof fn lemma_wrap_spans_layout(spans: LineView, width: nat)
    ensures
        layout_ok(wrap_spans(spans, width), seq![], width),
    decreases spans.len(),
{
    if spans.len() > 0 {
        lemma_wrap_spans_layout(spans.drop_last(), width);
        let ws = wrap_spans(spans.drop_last(), width);
        let sp = spans.last();
        assert(concat_texts(ws.cur) + Seq::<char>::empty() =~= concat_texts(ws.cur));
        lemma_wrap_text_layout(ws, seq![], sp.0, sp.1, width);
        let (w1, p) = wrap_text(ws, seq![], sp.0, sp.1, width);
        if p.len() > 0 {
            lemma_concat_push(w1.cur, (p, sp.1));
        }
        let w2 = wrap_spans(spans, width);
        assert(concat_texts(w2.cur) + Seq::<char>::empty() =~= concat_texts(w1.cur) + p);
    } else {
        assert(concat_texts(Seq::<(Seq<char>, CellStyle)>::empty()) + Seq::<char>::empty()
            =~= Seq::<char>::empty());
    }
}

/// Every row of a wrap to a positive width fits it, except a row that
/// holds a single character wider than the width.
pub proof fn law_wrap_rows_fit(line: LineView, width: nat)
    requires
        width > 0,
    ensures
        forall|i: int| 0 <= i < wrapped(line, width).len() ==> row_fits(#[trigger] wrapped(line, width)[i], width),
{
    lemma_wrap_spans_layout(line, width);
    let w = wrap_spans(line, width);
    assert(concat_texts(w.cur) + Seq::<char>::empty() =~= concat_texts(w.cur));
    assert(row_fits(w.cur, width));
    assert forall|i: int| 0 <= i < wrapped(line, width).len() implies row_fits(#[trigger] wrapped(line, width)[i], width) by {
        if i < w.rows.len() {
            assert(wrapped(line, width)[i] == w.rows[i]);
        }
    }
}

proof fn lemma_concat_cons(x: (Seq<char>, CellStyle), rest: LineView)
    ensures
        concat_texts(seq![x] + rest) == x.0 + concat_texts(rest),
    decreases rest.len(),
{
    if rest.len() > 0 {
        assert((seq![x] + rest).drop_last() =~= seq![x] + rest.drop_last());
        assert((seq![x] + rest).last() == rest.last());
        lemma_concat_cons(x, rest.drop_last());
        assert(x.0 + concat_texts(rest) =~= x.0 + concat_texts(rest.drop_last()) + rest.last().0);
    } else {
        assert(seq![x] + rest =~= seq![x]);
        assert(seq![x].drop_last() =~= Seq::<(Seq<char>, CellStyle)>::empty());
        assert(seq![x].last() == x);
        assert(concat_texts(Seq::<(Seq<char>, CellStyle)>::empty()) =~= Seq::<char>::empty());
        assert(concat_texts(seq![x]) == concat_texts(seq![x].drop_last()) + x.0);
        assert(concat_texts(seq![x]) =~= x.0);
        assert(x.0 + concat_texts(rest) =~= x.0);
    }
}

proof fn lemma_text_cols_append(a: Seq<char>, b: Seq<char>)
    ensures
        text_cols(a + b) == text_cols(a) + text_cols(b),
    decreases a.len(),
{
    if a.len() > 0 {
        assert((a + b)[0] == a[0]);
        assert((a + b).drop_first() =~= a.drop_first() + b);
        lemma_text_cols_append(a.drop_first(), b);
    } else {
        assert(a + b =~= b);
    }
}

proof fn lemma_first_over_fits(t: Seq<char>, used: nat, budget: nat)
    requires
        used <= budget,
    ensures
        match first_over(t, used, budget) {
            Some(k) => 0 <= k < t.len() && used + text_cols(t.take(k)) <= budget,
            None => used + text_cols(t) <= budget,
        },
    decreases t.len(),
{
    if t.len() > 0 {
        if !(cols(t[0]) > 0 && used + cols(t[0]) > budget) {
            lemma_first_over_fits(t.drop_first(), used + cols(t[0]), budget);
            if let Some(k) = first_over(t.drop_first(), used + cols(t[0]), budget) {
                assert(t.take(k + 1)[0] == t[0]);
                assert(t.take(k + 1).drop_first() =~= t.drop_first().take(k));
            }
        } else {
            assert(t.take(0) =~= Seq::<char>::empty());
        }
    }
}

proof fn lemma_trunc_from(spans: LineView, used: nat, budget: nat)
    requires
        used <= budget,
    ensures
        used + text_cols(concat_texts(trunc_from(spans, used, budget))) <= budget,
        concat_texts(trunc_from(spans, used, budget)).is_prefix_of(concat_texts(spans)),
    decreases spans.len(),
{
    if spans.len() == 0 {
        assert(concat_texts(trunc_from(spans, used, budget)) =~= Seq::<char>::empty());
    } else {
        let t = spans[0].0;
        let st = spans[0].1;
        let rest = spans.drop_first();
        assert(spans =~= seq![spans[0]] + rest);
        lemma_concat_cons(spans[0], rest);
        lemma_first_over_fits(t, used, budget);
        match first_over(t, used, budget) {
            Some(k) => {
                if k > 0 {
                    assert(seq![(t.take(k), st)] =~= seq![(t.take(k), st)] + Seq::<(Seq<char>, CellStyle)>::empty());
                    lemma_concat_cons((t.take(k), st), Seq::<(Seq<char>, CellStyle)>::empty());
                    assert(t.take(k) + concat_texts(Seq::<(Seq<char>, CellStyle)>::empty()) =~= t.take(k));
                    assert((t + concat_texts(rest)).subrange(0, k) =~= t.take(k));
                } else {
                    assert(concat_texts(Seq::<(Seq<char>, CellStyle)>::empty()) =~= Seq::<char>::empty());
                }
            },
            None => {
                lemma_trunc_from(rest, used + text_cols(t), budget);
                let tail = trunc_from(rest, used + text_cols(t), budget);
                let ct = concat_texts(tail);
                if t.len() > 0 {
                    lemma_concat_cons((t, st), tail);
                    assert(concat_texts(trunc_from(spans, used, budget)) == t + ct);
                } else {
                    assert(Seq::<(Seq<char>, CellStyle)>::empty() + tail =~= tail);
                    assert(t + ct =~= ct);
                }
                lemma_text_cols_append(t, ct);
                assert((t + concat_texts(rest)).subrange(0, (t + ct).len() as int) =~= t + ct);
            },
        }
    }
}

/// Truncation keeps a line that fits as it is; otherwise it keeps a prefix
/// of the line's text whose characters fit the columns left beside the
/// ellipsis, then the ellipsis.
pub proof fn law_truncate_keeps_fitting_prefix(line: LineView, max_width: nat, ellipsis: Seq<char>)
    ensures
        line_width(line) <= max_width ==> truncated(line, max_width, ellipsis) == line,
        line_width(line) > max_width ==> ({
            let ew: nat = if ellipsis.len() == 0 {
                0
            } else {
                str_width(ellipsis)
            };
            let budget: nat = if max_width >= ew {
                (max_width - ew) as nat
            } else {
                0
            };
            let kept = trunc_from(line, 0, budget);
            &&& concat_texts(kept).is_prefix_of(concat_texts(line))
            &&& text_cols(concat_texts(kept)) <= budget
            &&& truncated(line, max_width, ellipsis) == kept + if ellipsis.len() > 0 {
                seq![(ellipsis, empty_style())]
            } else {
                Seq::<(Seq<char>, CellStyle)>::empty()
            }
        }),
{
    let ew: nat = if ellipsis.len() == 0 {
        0
    } else {
        str_width(ellipsis)
    };
    let budget: nat = if max_width >= ew {
        (max_width - ew) as nat
    } else {
        0
    };
    lemma_trunc_from(line, 0, budget);
}

} // verus!
