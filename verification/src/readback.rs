//! The virtual terminal reads back what the style serializer writes: a
//! cell style's SGR sequence, fed to a fresh terminal before a character,
//! leaves that character in the first cell with the style's colors and
//! attributes (those a cell keeps).

use vstd::prelude::*;
use crate::style::{CellStyle, Color, sgr_of, sgr_params, fg_param, bg_param, flag_param, join};
use crate::csi::{csi_nums, split_semi, parsed_pieces, lemma_csi_nums_decimal};
use crate::text::decimal;
use crate::virtual_terminal::{
    VtModel,
    VStyle,
    VCell,
    sgr_from,
    sgr_one,
    code_color,
    plain_vstyle,
    fresh_vt,
    feed_from,
    put_char,
    csi_apply,
    is_final_byte,
    lemma_put_char_in_row,
};
use crate::replay::{lemma_at_whole, lemma_feed_csi_at, lemma_feed_unfold};

verus! {

proof fn lemma_split_nonempty(s: Seq<char>)
    ensures
        split_semi(s).len() >= 1,
    decreases s.len(),
{
    if s.len() > 0 {
        lemma_split_nonempty(s.drop_last());
    }
}

/// Splitting at a `;` between two parts splits each part on its own.
proof fn lemma_split_concat(a: Seq<char>, b: Seq<char>)
    ensures
        split_semi(a + ";"@ + b) == split_semi(a) + split_semi(b),
    decreases b.len(),
{
    reveal_strlit(";");
    let s = a + ";"@ + b;
    if b.len() == 0 {
        assert(s.drop_last() =~= a);
        assert(s.last() == ';');
        assert(split_semi(b) == seq![Seq::<char>::empty()]);
        assert(split_semi(a).push(Seq::<char>::empty()) =~= split_semi(a) + split_semi(b));
    } else {
        let b0 = b.drop_last();
        assert(s.drop_last() =~= a + ";"@ + b0);
        assert(s.last() == b.last());
        lemma_split_concat(a, b0);
        lemma_split_nonempty(b0);
        lemma_split_nonempty(a);
        let r = split_semi(a) + split_semi(b0);
        if b.last() == ';' {
            assert(r.push(Seq::<char>::empty()) =~= split_semi(a) + split_semi(b0).push(Seq::<char>::empty()));
        } else {
            let q = split_semi(b0);
            assert(r.last() == q.last());
            assert(r.update(r.len() - 1, r.last().push(b.last())) =~= split_semi(a) + q.update(
                q.len() - 1,
                q.last().push(b.last()),
            ));
        }
    }
}

proof fn lemma_parsed_concat(p: Seq<Seq<char>>, q: Seq<Seq<char>>)
    ensures
        parsed_pieces(p + q) == parsed_pieces(p) + parsed_pieces(q),
    decreases q.len(),
{
    if q.len() == 0 {
        assert(p + q =~= p);
        assert(parsed_pieces(p) + Seq::<i64>::empty() =~= parsed_pieces(p));
    } else {
        lemma_parsed_concat(p, q.drop_last());
        assert((p + q).drop_last() =~= p + q.drop_last());
        assert((p + q).last() == q.last());
        let t = match crate::csi::parse_i64(q.last()) {
            Some(v) => seq![v],
            None => Seq::<i64>::empty(),
        };
        assert(parsed_pieces(p) + parsed_pieces(q.drop_last()) + t =~= parsed_pieces(p) + (parsed_pieces(
            q.drop_last(),
        ) + t));
    }
}

/// The numbers of two parameter strings joined by `;`.
proof fn lemma_csi_concat(a: Seq<char>, b: Seq<char>)
    ensures
        csi_nums(a + ";"@ + b) == csi_nums(a) + csi_nums(b),
{
    lemma_split_concat(a, b);
    lemma_parsed_concat(split_semi(a), split_semi(b));
}

/// The numbers of each part, one after another.
pub open spec fn nums_of_parts(parts: Seq<Seq<char>>) -> Seq<i64>
    decreases parts.len(),
{
    if parts.len() == 0 {
        seq![]
    } else {
        nums_of_parts(parts.drop_last()) + csi_nums(parts.last())
    }
}

proof fn lemma_nums_of_parts_concat(a: Seq<Seq<char>>, b: Seq<Seq<char>>)
    ensures
        nums_of_parts(a + b) == nums_of_parts(a) + nums_of_parts(b),
    decreases b.len(),
{
    if b.len() == 0 {
        assert(a + b =~= a);
        assert(nums_of_parts(a) + Seq::<i64>::empty() =~= nums_of_parts(a));
    } else {
        lemma_nums_of_parts_concat(a, b.drop_last());
        assert((a + b).drop_last() =~= a + b.drop_last());
        assert((a + b).last() == b.last());
        assert(nums_of_parts(a) + nums_of_parts(b.drop_last()) + csi_nums(b.last()) =~= nums_of_parts(a)
            + (nums_of_parts(b.drop_last()) + csi_nums(b.last())));
    }
}

/// The numbers of parts joined by `;` are those of each part in turn.
proof fn lemma_csi_join(parts: Seq<Seq<char>>)
    requires
        parts.len() >= 1,
    ensures
        csi_nums(join(parts, ";"@)) == nums_of_parts(parts),
    decreases parts.len(),
{
    if parts.len() == 1 {
        assert(parts.drop_last() =~= Seq::<Seq<char>>::empty());
        assert(nums_of_parts(parts.drop_last()) == Seq::<i64>::empty());
        assert(parts.last() == parts[0]);
        assert(join(parts, ";"@) == parts[0]);
        assert(Seq::<i64>::empty() + csi_nums(parts[0]) =~= csi_nums(parts[0]));
    } else {
        lemma_csi_join(parts.drop_last());
        lemma_csi_concat(join(parts.drop_last(), ";"@), parts.last());
    }
}

/// The code of a 16-color foreground; background codes are ten more.
pub open spec fn color_code(c: Color) -> int {
    match c {
        Color::Black => 30,
        Color::Red => 31,
        Color::Green => 32,
        Color::Yellow => 33,
        Color::Blue => 34,
        Color::Magenta => 35,
        Color::Cyan => 36,
        Color::Gray => 37,
        Color::DarkGray => 90,
        Color::LightRed => 91,
        Color::LightGreen => 92,
        Color::LightYellow => 93,
        Color::LightBlue => 94,
        Color::LightMagenta => 95,
        Color::LightCyan => 96,
        Color::White => 97,
        _ => 0,
    }
}

/// The SGR numbers that set `c` as foreground (`base` 30) or background
/// (`base` 40).
pub open spec fn color_nums(c: Color, base: int) -> Seq<i64> {
    match c {
        Color::Indexed(n) => seq![(base + 8) as i64, 5, n as i64],
        Color::Rgb(r, g, b) => seq![(base + 8) as i64, 2, r as i64, g as i64, b as i64],
        Color::Reset => seq![(base + 9) as i64],
        _ => seq![(color_code(c) + base - 30) as i64],
    }
}

/// A color as a cell keeps it: the terminal default is no color.
pub open spec fn kept_color(c: Option<Color>) -> Option<Color> {
    match c {
        Some(Color::Reset) => None,
        _ => c,
    }
}

/// The cell style a style reads back as: its colors (the default color as
/// none) and the bold, italic, underline and dim attributes.
pub open spec fn read_back(st: CellStyle) -> VStyle {
    VStyle {
        fg: kept_color(st.fg),
        bg: kept_color(st.bg),
        bold: st.bold,
        italic: st.italic,
        underline: st.underline,
        dim: st.dim,
    }
}

proof fn lemma_lit(n: nat, s: Seq<char>)
    requires
        s == decimal(n),
        n <= i64::MAX,
    ensures
        csi_nums(s) == seq![n as i64],
{
    lemma_csi_nums_decimal(n);
}

proof fn lemma_two_digits(n: nat)
    requires
        10 <= n < 100,
    ensures
        decimal(n) == seq![(48 + n / 10) as char, (48 + n % 10) as char],
{
    assert(decimal(n / 10) == seq![crate::text::digit_char(n / 10)]);
}

proof fn lemma_three_digits(n: nat)
    requires
        100 <= n < 110,
    ensures
        decimal(n) == seq!['1', '0', (48 + n % 10) as char],
{
    lemma_two_digits(n / 10);
    assert(n / 10 == 10);
}

/// The numbers of a color's foreground or background parameters.
proof fn lemma_color_nums(c: Color, fg: bool)
    ensures
        csi_nums(if fg {
            fg_param(c)
        } else {
            bg_param(c)
        }) == color_nums(c, if fg {
            30
        } else {
            40
        }),
{
    reveal_strlit(";");
    let base: int = if fg {
        30
    } else {
        40
    };
    let p = if fg {
        fg_param(c)
    } else {
        bg_param(c)
    };
    match c {
        Color::Indexed(n) => {
            reveal_strlit("38;5;");
            reveal_strlit("48;5;");
            let lead = decimal((base + 8) as nat);
            lemma_two_digits((base + 8) as nat);
            assert(p =~= lead + ";"@ + (decimal(5) + ";"@ + decimal(n as nat)));
            lemma_csi_concat(lead, decimal(5) + ";"@ + decimal(n as nat));
            lemma_csi_concat(decimal(5), decimal(n as nat));
            lemma_lit((base + 8) as nat, lead);
            lemma_lit(5, decimal(5));
            lemma_lit(n as nat, decimal(n as nat));
            assert(csi_nums(p) =~= color_nums(c, base));
        },
        Color::Rgb(r, g, b) => {
            reveal_strlit("38;2;");
            reveal_strlit("48;2;");
            let lead = decimal((base + 8) as nat);
            lemma_two_digits((base + 8) as nat);
            let d2 = decimal(2);
            let dr = decimal(r as nat);
            let dg = decimal(g as nat);
            let db = decimal(b as nat);
            assert(p =~= lead + ";"@ + (d2 + ";"@ + (dr + ";"@ + (dg + ";"@ + db))));
            lemma_csi_concat(lead, d2 + ";"@ + (dr + ";"@ + (dg + ";"@ + db)));
            lemma_csi_concat(d2, dr + ";"@ + (dg + ";"@ + db));
            lemma_csi_concat(dr, dg + ";"@ + db);
            lemma_csi_concat(dg, db);
            lemma_lit((base + 8) as nat, lead);
            lemma_lit(2, d2);
            lemma_lit(r as nat, dr);
            lemma_lit(g as nat, dg);
            lemma_lit(b as nat, db);
            assert(csi_nums(p) =~= color_nums(c, base));
        },
        _ => {
            let code: nat = match c {
                Color::Reset => (base + 9) as nat,
                _ => (color_code(c) + base - 30) as nat,
            };
            if code < 100 {
                lemma_two_digits(code);
            } else {
                lemma_three_digits(code);
            }
            reveal_strlit("30");
            reveal_strlit("31");
            reveal_strlit("32");
            reveal_strlit("33");
            reveal_strlit("34");
            reveal_strlit("35");
            reveal_strlit("36");
            reveal_strlit("37");
            reveal_strlit("39");
            reveal_strlit("90");
            reveal_strlit("91");
            reveal_strlit("92");
            reveal_strlit("93");
            reveal_strlit("94");
            reveal_strlit("95");
            reveal_strlit("96");
            reveal_strlit("97");
            reveal_strlit("40");
            reveal_strlit("41");
            reveal_strlit("42");
            reveal_strlit("43");
            reveal_strlit("44");
            reveal_strlit("45");
            reveal_strlit("46");
            reveal_strlit("47");
            reveal_strlit("49");
            reveal_strlit("100");
            reveal_strlit("101");
            reveal_strlit("102");
            reveal_strlit("103");
            reveal_strlit("104");
            reveal_strlit("105");
            reveal_strlit("106");
            reveal_strlit("107");
            assert(p =~= decimal(code));
            lemma_lit(code, p);
        },
    }
}

/// Parameters from index `j` of the second part of a concatenation read as
/// from the same index of that part alone.
proof fn lemma_sgr_shift(st: VStyle, pre: Seq<i64>, t: Seq<i64>, j: int)
    requires
        0 <= j,
    ensures
        sgr_from(st, pre + t, pre.len() + j) == sgr_from(st, t, j),
    decreases t.len() - j,
{
    let x = pre + t;
    let i = pre.len() + j;
    if j < t.len() {
        assert forall|q: int| j <= q < t.len() implies x[pre.len() + q] == #[trigger] t[q] by {}
        assert(sgr_one(st, x, i) == sgr_one(st, t, j));
        let (st2, skip) = sgr_one(st, t, j);
        lemma_sgr_shift(st2, pre, t, j + 1 + skip);
    }
}

/// A whole group of parameters at the front: read, then the rest.
proof fn lemma_sgr_group(st: VStyle, g: Seq<i64>, t: Seq<i64>, eff: VStyle)
    requires
        g.len() >= 1,
        sgr_one(st, g + t, 0) == (eff, g.len() - 1),
    ensures
        sgr_from(st, g + t, 0) == sgr_from(eff, t, 0),
{
    lemma_sgr_shift(eff, g, t, 0);
}

/// The numbers of an optional flag parameter.
pub open spec fn flag_nums(on: bool, code: i64) -> Seq<i64> {
    if on {
        seq![code]
    } else {
        seq![]
    }
}

/// The SGR numbers of an optional color.
pub open spec fn opt_color_nums(c: Option<Color>, base: int) -> Seq<i64> {
    match c {
        Some(x) => color_nums(x, base),
        None => seq![],
    }
}

proof fn lemma_code_color(c: Color, base: int)
    requires
        base == 30 || base == 40,
        !(c is Indexed || c is Rgb || c is Reset),
    ensures
        code_color((color_code(c) + base - 30) as u8) == c,
        (30 <= color_code(c) + base - 30 <= 37) || (90 <= color_code(c) + base - 30 <= 97) || (40
            <= color_code(c) + base - 30 <= 47) || (100 <= color_code(c) + base - 30 <= 107),
        base == 30 ==> ((30 <= color_code(c) <= 37) || (90 <= color_code(c) <= 97)),
{
}

/// A color group read at the front.
proof fn lemma_color_group(st: VStyle, c: Color, base: int, t: Seq<i64>)
    requires
        base == 30 || base == 40,
    ensures
        sgr_from(st, color_nums(c, base) + t, 0) == sgr_from(
            if base == 30 {
                VStyle { fg: kept_color(Some(c)), ..st }
            } else {
                VStyle { bg: kept_color(Some(c)), ..st }
            },
            t,
            0,
        ),
{
    let g = color_nums(c, base);
    let x = g + t;
    assert forall|k: int| 0 <= k < g.len() implies x[k] == g[k] by {}
    let eff = if base == 30 {
        VStyle { fg: kept_color(Some(c)), ..st }
    } else {
        VStyle { bg: kept_color(Some(c)), ..st }
    };
    match c {
        Color::Indexed(n) => {
            assert((n as i64) as u8 == n);
        },
        Color::Rgb(r, gg, b) => {
            assert((r as i64) as u8 == r);
            assert((gg as i64) as u8 == gg);
            assert((b as i64) as u8 == b);
        },
        Color::Reset => {},
        _ => {
            lemma_code_color(c, base);
        },
    }
    assert(sgr_one(st, x, 0) == (eff, g.len() - 1));
    lemma_sgr_group(st, g, t, eff);
}

/// A flag group read at the front.
proof fn lemma_flag_group(st: VStyle, on: bool, code: i64, t: Seq<i64>)
    requires
        code == 1 || code == 2 || code == 3 || code == 4 || code == 7 || code == 9,
    ensures
        sgr_from(st, flag_nums(on, code) + t, 0) == sgr_from(
            if !on {
                st
            } else if code == 1 {
                VStyle { bold: true, ..st }
            } else if code == 2 {
                VStyle { dim: true, ..st }
            } else if code == 3 {
                VStyle { italic: true, ..st }
            } else if code == 4 {
                VStyle { underline: true, ..st }
            } else {
                st
            },
            t,
            0,
        ),
{
    if on {
        let g = seq![code];
        assert((g + t)[0] == code);
        lemma_sgr_group(
            st,
            g,
            t,
            if code == 1 {
                VStyle { bold: true, ..st }
            } else if code == 2 {
                VStyle { dim: true, ..st }
            } else if code == 3 {
                VStyle { italic: true, ..st }
            } else if code == 4 {
                VStyle { underline: true, ..st }
            } else {
                st
            },
        );
    } else {
        assert(flag_nums(on, code) + t =~= t);
    }
}

proof fn lemma_flag_part(on: bool, code: nat, lit: Seq<char>)
    requires
        lit == decimal(code),
        code < 10,
    ensures
        nums_of_parts(flag_param(on, lit)) == flag_nums(on, code as i64),
{
    if on {
        lemma_lit(code, lit);
        let ps = seq![lit];
        assert(ps.drop_last() =~= Seq::<Seq<char>>::empty());
        assert(nums_of_parts(ps.drop_last()) == Seq::<i64>::empty());
        assert(ps.last() == lit);
        assert(Seq::<i64>::empty() + csi_nums(lit) =~= csi_nums(lit));
        assert(nums_of_parts(ps) == csi_nums(lit));
    } else {
        assert(nums_of_parts(Seq::<Seq<char>>::empty()) =~= flag_nums(on, code as i64));
    }
}

proof fn lemma_color_part(c: Option<Color>, fg: bool)
    ensures
        nums_of_parts(
            match c {
                Some(x) => seq![
                    if fg {
                        fg_param(x)
                    } else {
                        bg_param(x)
                    },
                ],
                None => Seq::<Seq<char>>::empty(),
            },
        ) == opt_color_nums(
            c,
            if fg {
                30
            } else {
                40
            },
        ),
{
    if let Some(x) = c {
        lemma_color_nums(x, fg);
        let p = if fg {
            fg_param(x)
        } else {
            bg_param(x)
        };
        let ps = seq![p];
        assert(ps.drop_last() =~= Seq::<Seq<char>>::empty());
        assert(nums_of_parts(ps.drop_last()) == Seq::<i64>::empty());
        assert(ps.last() == p);
        assert(Seq::<i64>::empty() + csi_nums(p) =~= csi_nums(p));
        assert(nums_of_parts(ps) == csi_nums(p));
    } else {
        assert(nums_of_parts(Seq::<Seq<char>>::empty()) =~= Seq::<i64>::empty());
    }
}

proof fn lemma_flag_parts(st: CellStyle)
    ensures
        nums_of_parts(flag_param(st.bold, "1"@)) == flag_nums(st.bold, 1),
        nums_of_parts(flag_param(st.dim, "2"@)) == flag_nums(st.dim, 2),
        nums_of_parts(flag_param(st.italic, "3"@)) == flag_nums(st.italic, 3),
        nums_of_parts(flag_param(st.underline, "4"@)) == flag_nums(st.underline, 4),
        nums_of_parts(flag_param(st.reverse, "7"@)) == flag_nums(st.reverse, 7),
        nums_of_parts(flag_param(st.crossed_out, "9"@)) == flag_nums(st.crossed_out, 9),
{
    reveal_strlit("1");
    reveal_strlit("2");
    reveal_strlit("3");
    reveal_strlit("4");
    reveal_strlit("7");
    reveal_strlit("9");
    assert("1"@ =~= decimal(1));
    assert("2"@ =~= decimal(2));
    assert("3"@ =~= decimal(3));
    assert("4"@ =~= decimal(4));
    assert("7"@ =~= decimal(7));
    assert("9"@ =~= decimal(9));
    lemma_flag_part(st.bold, 1, "1"@);
    lemma_flag_part(st.dim, 2, "2"@);
    lemma_flag_part(st.italic, 3, "3"@);
    lemma_flag_part(st.underline, 4, "4"@);
    lemma_flag_part(st.reverse, 7, "7"@);
    lemma_flag_part(st.crossed_out, 9, "9"@);
}

proof fn lemma_nums_eight(
    p0: Seq<Seq<char>>,
    p1: Seq<Seq<char>>,
    p2: Seq<Seq<char>>,
    p3: Seq<Seq<char>>,
    p4: Seq<Seq<char>>,
    p5: Seq<Seq<char>>,
    p6: Seq<Seq<char>>,
    p7: Seq<Seq<char>>,
)
    ensures
        nums_of_parts(p0 + p1 + p2 + p3 + p4 + p5 + p6 + p7) == nums_of_parts(p0) + (nums_of_parts(p1) + (
        nums_of_parts(p2) + (nums_of_parts(p3) + (nums_of_parts(p4) + (nums_of_parts(p5) + (nums_of_parts(
            p6,
        ) + nums_of_parts(p7))))))),
{
    let q6 = p6 + p7;
    let q5 = p5 + q6;
    let q4 = p4 + q5;
    let q3 = p3 + q4;
    let q2 = p2 + q3;
    let q1 = p1 + q2;
    let q0 = p0 + q1;
    assert(nums_of_parts(q6) == nums_of_parts(p6) + nums_of_parts(p7)) by {
        lemma_nums_of_parts_concat(p6, p7);
    }
    assert(nums_of_parts(q5) == nums_of_parts(p5) + nums_of_parts(q6)) by {
        lemma_nums_of_parts_concat(p5, q6);
    }
    assert(nums_of_parts(q4) == nums_of_parts(p4) + nums_of_parts(q5)) by {
        lemma_nums_of_parts_concat(p4, q5);
    }
    assert(nums_of_parts(q3) == nums_of_parts(p3) + nums_of_parts(q4)) by {
        lemma_nums_of_parts_concat(p3, q4);
    }
    assert(nums_of_parts(q2) == nums_of_parts(p2) + nums_of_parts(q3)) by {
        lemma_nums_of_parts_concat(p2, q3);
    }
    assert(nums_of_parts(q1) == nums_of_parts(p1) + nums_of_parts(q2)) by {
        lemma_nums_of_parts_concat(p1, q2);
    }
    assert(nums_of_parts(q0) == nums_of_parts(p0) + nums_of_parts(q1)) by {
        lemma_nums_of_parts_concat(p0, q1);
    }
    assert(p0 + p1 + p2 + p3 + p4 + p5 + p6 + p7 =~= q0);
}

/// The numbers of a style's SGR parameters: its foreground and background
/// groups, then its flags.
proof fn lemma_style_nums(st: CellStyle)
    ensures
        nums_of_parts(sgr_params(st)) == opt_color_nums(st.fg, 30) + (opt_color_nums(st.bg, 40) + (flag_nums(
            st.bold,
            1,
        ) + (flag_nums(st.dim, 2) + (flag_nums(st.italic, 3) + (flag_nums(st.underline, 4) + (flag_nums(
            st.reverse,
            7,
        ) + flag_nums(st.crossed_out, 9))))))),
{
    let fgp = match st.fg {
        Some(c) => seq![fg_param(c)],
        None => Seq::<Seq<char>>::empty(),
    };
    let bgp = match st.bg {
        Some(c) => seq![bg_param(c)],
        None => Seq::<Seq<char>>::empty(),
    };
    let f1 = flag_param(st.bold, "1"@);
    let f2 = flag_param(st.dim, "2"@);
    let f3 = flag_param(st.italic, "3"@);
    let f4 = flag_param(st.underline, "4"@);
    let f7 = flag_param(st.reverse, "7"@);
    let f9 = flag_param(st.crossed_out, "9"@);
    assert(sgr_params(st) == fgp + bgp + f1 + f2 + f3 + f4 + f7 + f9);
    lemma_color_part(st.fg, true);
    lemma_color_part(st.bg, false);
    lemma_flag_parts(st);
    assert(nums_of_parts(fgp) == opt_color_nums(st.fg, 30));
    assert(nums_of_parts(bgp) == opt_color_nums(st.bg, 40));
    lemma_nums_eight(fgp, bgp, f1, f2, f3, f4, f7, f9);
}

/// The cell style the SGR numbers of a style set on a plain terminal.
proof fn lemma_style_applies(st: CellStyle)
    ensures
        sgr_from(plain_vstyle(), nums_of_parts(sgr_params(st)), 0) == read_back(st),
{
    lemma_style_nums(st);
    let n7 = flag_nums(st.reverse, 7);
    let n9 = flag_nums(st.crossed_out, 9);
    let s0 = plain_vstyle();
    let t1 = flag_nums(st.underline, 4) + (n7 + n9);
    let t2 = flag_nums(st.italic, 3) + t1;
    let t3 = flag_nums(st.dim, 2) + t2;
    let t4 = flag_nums(st.bold, 1) + t3;
    let t5 = opt_color_nums(st.bg, 40) + t4;
    let s1 = match st.fg {
        Some(c) => {
            lemma_color_group(s0, c, 30, t5);
            VStyle { fg: kept_color(Some(c)), ..s0 }
        },
        None => {
            assert(opt_color_nums(st.fg, 30) + t5 =~= t5);
            s0
        },
    };
    let s2 = match st.bg {
        Some(c) => {
            lemma_color_group(s1, c, 40, t4);
            VStyle { bg: kept_color(Some(c)), ..s1 }
        },
        None => {
            assert(opt_color_nums(st.bg, 40) + t4 =~= t4);
            s1
        },
    };
    lemma_flag_group(s2, st.bold, 1, t3);
    let s3 = if st.bold {
        VStyle { bold: true, ..s2 }
    } else {
        s2
    };
    lemma_flag_group(s3, st.dim, 2, t2);
    let s4 = if st.dim {
        VStyle { dim: true, ..s3 }
    } else {
        s3
    };
    lemma_flag_group(s4, st.italic, 3, t1);
    let s5 = if st.italic {
        VStyle { italic: true, ..s4 }
    } else {
        s4
    };
    lemma_flag_group(s5, st.underline, 4, n7 + n9);
    let s6 = if st.underline {
        VStyle { underline: true, ..s5 }
    } else {
        s5
    };
    lemma_flag_group(s6, st.reverse, 7, n9);
    lemma_flag_group(s6, st.crossed_out, 9, Seq::<i64>::empty());
    assert(n9 + Seq::<i64>::empty() =~= n9);
    assert(sgr_from(s6, Seq::<i64>::empty(), 0) == s6);
}

/// A style written by the serializer reads back: fed to a fresh terminal
/// (at least one column and one row) followed by a character other than an
/// escape, carriage return or line feed, the style's SGR sequence leaves
/// the character in the first cell with the style's colors (the terminal
/// default as no color) and its bold, italic, underline and dim
/// attributes, the cursor just after it, and the grid its full size.
pub proof fn law_style_reads_back(width: u16, height: u16, st: CellStyle, c: char)
    requires
        width >= 1,
        height >= 1,
        c != '\x1b' && c != '\r' && c != '\n',
    ensures
        feed_from(fresh_vt(width, height), sgr_of(st) + seq![c], 0) matches Some(u) && u.grid[0][0] == (VCell {
            ch: c,
            style: read_back(st),
        }) && u.cx == 1 && u.cy == 0 && u.width == width && u.height == height && u.grid.len() == height && (
        forall|k: int| 0 <= k < height ==> (#[trigger] u.grid[k]).len() == width),
{
    let v = fresh_vt(width, height);
    let s = sgr_of(st) + seq![c];
    crate::replay::lemma_sgr_params(st);
    let parts = sgr_params(st);
    let v1 = if parts.len() == 0 {
        assert(sgr_of(st) =~= Seq::<char>::empty());
        assert(read_back(st) == plain_vstyle()) by {
            assert(st.fg.is_none() && st.bg.is_none() && !st.bold && !st.dim && !st.italic && !st.underline) by {
                if st.fg.is_some() || st.bg.is_some() || st.bold || st.dim || st.italic || st.underline {
                    lemma_style_nums(st);
                }
            }
        }
        v
    } else {
        reveal_strlit("\x1b[");
        reveal_strlit("m");
        let params = join(parts, ";"@);
        assert(sgr_of(st) == "\x1b["@ + params + "m"@);
        assert("m"@ == seq!['m']);
        lemma_at_whole(s);
        assert(s =~= ("\x1b["@ + params + seq!['m']) + seq![c]);
        crate::replay::lemma_at_split(s, 0, "\x1b["@ + params + seq!['m'], seq![c]);
        assert forall|q: int| 0 <= q < params.len() implies !is_final_byte(#[trigger] params[q]) by {
            assert(crate::csi::is_digit(params[q]) || params[q] == ';');
        }
        lemma_feed_csi_at(v, s, 0, params, 'm');
        lemma_csi_join(parts);
        lemma_style_applies(st);
        let nums = csi_nums(params);
        if nums.len() == 0 {
            lemma_style_nums(st);
            assert(sgr_from(plain_vstyle(), nums, 0) == plain_vstyle());
        }
        let v1 = VtModel { style: read_back(st), ..v };
        assert(csi_apply(v, 'm', nums) == Some(v1));
        assert(params.len() + 3 == s.len() - 1);
        v1
    };
    assert(feed_from(v, s, 0) == feed_from(v1, s, s.len() - 1));
    let i = s.len() - 1;
    assert(s[i] == c);
    lemma_feed_unfold(v1, s, i);
    lemma_put_char_in_row(v1, c);
    let u = put_char(v1, c);
    assert(feed_from(v1, s, i) == feed_from(u, s, i + 1));
    assert(u.grid[0][0] == VCell { ch: c, style: v1.style });
    assert forall|k: int| 0 <= k < height implies (#[trigger] u.grid[k]).len() == width by {
        if k != 0 {
            assert(u.grid[k] == v1.grid[k]);
        }
    }
}

} // verus!
