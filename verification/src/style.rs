//! Style vocabulary, SGR serialization and the styled-line model.
//!
//! Widgets produce `StyledLine`s (runs of same-style text); the renderer
//! diffs lines by their ANSI form, so every line has one canonical string
//! built here.

use vstd::prelude::*;
use crate::text::{decimal, push_decimal, push_char};
use crate::unicode::{str_width, str_display_width};

verus! {

/// A terminal color: the SGR color encodings the renderer emits.
#[derive(Clone, Copy, PartialEq, Eq, Debug, Structural)]
pub enum Color {
    Black,
    Red,
    Green,
    Yellow,
    Blue,
    Magenta,
    Cyan,
    Gray,
    DarkGray,
    LightRed,
    LightGreen,
    LightYellow,
    LightBlue,
    LightMagenta,
    LightCyan,
    White,
    /// 256-color palette index (SGR 38;5;n / 48;5;n).
    Indexed(u8),
    /// 24-bit true color (SGR 38;2;r;g;b / 48;2;r;g;b).
    Rgb(u8, u8, u8),
    /// Terminal default.
    Reset,
}

/// `a;b;c` with each part in decimal.
pub open spec fn rgb_params(r: u8, g: u8, b: u8) -> Seq<char> {
    decimal(r as nat) + ";"@ + decimal(g as nat) + ";"@ + decimal(b as nat)
}

/// SGR parameters that set `c` as the foreground.
pub open spec fn fg_param(c: Color) -> Seq<char> {
    match c {
        Color::Black => "30"@,
        Color::Red => "31"@,
        Color::Green => "32"@,
        Color::Yellow => "33"@,
        Color::Blue => "34"@,
        Color::Magenta => "35"@,
        Color::Cyan => "36"@,
        Color::Gray => "37"@,
        Color::DarkGray => "90"@,
        Color::LightRed => "91"@,
        Color::LightGreen => "92"@,
        Color::LightYellow => "93"@,
        Color::LightBlue => "94"@,
        Color::LightMagenta => "95"@,
        Color::LightCyan => "96"@,
        Color::White => "97"@,
        Color::Indexed(n) => "38;5;"@ + decimal(n as nat),
        Color::Rgb(r, g, b) => "38;2;"@ + rgb_params(r, g, b),
        Color::Reset => "39"@,
    }
}

/// SGR parameters that set `c` as the background (16 colors shifted by
/// ten, 256/true color under 48).
pub open spec fn bg_param(c: Color) -> Seq<char> {
    match c {
        Color::Black => "40"@,
        Color::Red => "41"@,
        Color::Green => "42"@,
        Color::Yellow => "43"@,
        Color::Blue => "44"@,
        Color::Magenta => "45"@,
        Color::Cyan => "46"@,
        Color::Gray => "47"@,
        Color::DarkGray => "100"@,
        Color::LightRed => "101"@,
        Color::LightGreen => "102"@,
        Color::LightYellow => "103"@,
        Color::LightBlue => "104"@,
        Color::LightMagenta => "105"@,
        Color::LightCyan => "106"@,
        Color::White => "107"@,
        Color::Indexed(n) => "48;5;"@ + decimal(n as nat),
        Color::Rgb(r, g, b) => "48;2;"@ + rgb_params(r, g, b),
        Color::Reset => "49"@,
    }
}

fn push_rgb(s: &mut String, r: u8, g: u8, b: u8)
    ensures
        final(s)@ == old(s)@ + rgb_params(r, g, b),
{
    push_decimal(s, r as u128);
    push_char(s, ';');
    push_decimal(s, g as u128);
    push_char(s, ';');
    push_decimal(s, b as u128);
    proof {
        assert(";"@ == seq![';']) by {
            reveal_strlit(";");
        }
    }
}

impl Color {
    /// The SGR parameter string for a foreground set of this color.
    pub fn sgr_fg(self) -> (s: String)
        ensures
            s@ == fg_param(self),
    {
        match self {
            Color::Black => String::from_str("30"),
            Color::Red => String::from_str("31"),
            Color::Green => String::from_str("32"),
            Color::Yellow => String::from_str("33"),
            Color::Blue => String::from_str("34"),
            Color::Magenta => String::from_str("35"),
            Color::Cyan => String::from_str("36"),
            Color::Gray => String::from_str("37"),
            Color::DarkGray => String::from_str("90"),
            Color::LightRed => String::from_str("91"),
            Color::LightGreen => String::from_str("92"),
            Color::LightYellow => String::from_str("93"),
            Color::LightBlue => String::from_str("94"),
            Color::LightMagenta => String::from_str("95"),
            Color::LightCyan => String::from_str("96"),
            Color::White => String::from_str("97"),
            Color::Indexed(n) => {
                let mut s = String::from_str("38;5;");
                push_decimal(&mut s, n as u128);
                s
            },
            Color::Rgb(r, g, b) => {
                let mut s = String::from_str("38;2;");
                push_rgb(&mut s, r, g, b);
                s
            },
            Color::Reset => String::from_str("39"),
        }
    }

    /// The SGR parameter string for a background set of this color.
    pub fn sgr_bg(self) -> (s: String)
        ensures
            s@ == bg_param(self),
    {
        match self {
            Color::Black => String::from_str("40"),
            Color::Red => String::from_str("41"),
            Color::Green => String::from_str("42"),
            Color::Yellow => String::from_str("43"),
            Color::Blue => String::from_str("44"),
            Color::Magenta => String::from_str("45"),
            Color::Cyan => String::from_str("46"),
            Color::Gray => String::from_str("47"),
            Color::DarkGray => String::from_str("100"),
            Color::LightRed => String::from_str("101"),
            Color::LightGreen => String::from_str("102"),
            Color::LightYellow => String::from_str("103"),
            Color::LightBlue => String::from_str("104"),
            Color::LightMagenta => String::from_str("105"),
            Color::LightCyan => String::from_str("106"),
            Color::White => String::from_str("107"),
            Color::Indexed(n) => {
                let mut s = String::from_str("48;5;");
                push_decimal(&mut s, n as u128);
                s
            },
            Color::Rgb(r, g, b) => {
                let mut s = String::from_str("48;2;");
                push_rgb(&mut s, r, g, b);
                s
            },
            Color::Reset => String::from_str("49"),
        }
    }
}


/// Text attributes: the SGR subset the renderer emits.
///
/// The all-`None`/`false` style is the terminal's current style; lines end
/// with a full reset so styles never cross lines.
#[derive(Clone, Copy, PartialEq, Eq, Debug, Structural)]
pub struct CellStyle {
    pub fg: Option<Color>,
    pub bg: Option<Color>,
    pub bold: bool,
    pub italic: bool,
    pub underline: bool,
    pub dim: bool,
    pub crossed_out: bool,
    pub reverse: bool,
}

/// The style with nothing set.
pub open spec fn empty_style() -> CellStyle {
    CellStyle {
        fg: None,
        bg: None,
        bold: false,
        italic: false,
        underline: false,
        dim: false,
        crossed_out: false,
        reverse: false,
    }
}

/// One parameter if `on`, none otherwise.
pub open spec fn flag_param(on: bool, p: Seq<char>) -> Seq<Seq<char>> {
    if on {
        seq![p]
    } else {
        seq![]
    }
}

/// The SGR parameters of a style, in emission order: foreground,
/// background, bold (1), dim (2), italic (3), underline (4), reverse (7),
/// crossed out (9).
pub open spec fn sgr_params(st: CellStyle) -> Seq<Seq<char>> {
    let fg = match st.fg {
        Some(c) => seq![fg_param(c)],
        None => Seq::<Seq<char>>::empty(),
    };
    let bg = match st.bg {
        Some(c) => seq![bg_param(c)],
        None => Seq::<Seq<char>>::empty(),
    };
    fg + bg + flag_param(st.bold, "1"@) + flag_param(st.dim, "2"@) + flag_param(st.italic, "3"@)
        + flag_param(st.underline, "4"@) + flag_param(st.reverse, "7"@) + flag_param(
        st.crossed_out,
        "9"@,
    )
}

/// The parts separated by `sep`.
pub open spec fn join(parts: Seq<Seq<char>>, sep: Seq<char>) -> Seq<char>
    decreases parts.len(),
{
    if parts.len() == 0 {
        seq![]
    } else if parts.len() == 1 {
        parts[0]
    } else {
        join(parts.drop_last(), sep) + sep + parts.last()
    }
}

/// The escape sequence that applies `st` from a reset state: `ESC [`, the
/// parameters joined by `;`, then `m`; nothing at all for the empty style.
pub open spec fn sgr_of(st: CellStyle) -> Seq<char> {
    let params = sgr_params(st);
    if params.len() == 0 {
        seq![]
    } else {
        "\x1b["@ + join(params, ";"@) + "m"@
    }
}

/// The views of a list of strings.
pub open spec fn views(v: Seq<String>) -> Seq<Seq<char>> {
    v.map_values(|p: String| p@)
}

/// `parts` joined by the single character `sep`.
pub fn join_with(parts: &Vec<String>, sep: char) -> (s: String)
    ensures
        s@ == join(views(parts@), seq![sep]),
{
    let mut s = String::new();
    let mut i: usize = 0;
    while i < parts.len()
        invariant
            0 <= i <= parts@.len(),
            s@ == join(views(parts@).take(i as int), seq![sep]),
        decreases parts@.len() - i,
    {
        let ghost before = views(parts@).take(i as int);
        if i > 0 {
            push_char(&mut s, sep);
        }
        s.append(parts[i].as_str());
        proof {
            let after = views(parts@).take(i + 1);
            assert(after.drop_last() == before);
            assert(after.last() == parts@[i as int]@);
            if i == 0 {
                assert(after.len() == 1);
            }
        }
        i = i + 1;
    }
    proof {
        assert(views(parts@).take(parts@.len() as int) == views(parts@));
    }
    s
}

impl Default for CellStyle {
    fn default() -> (r: Self)
        ensures
            r == empty_style(),
    {
        CellStyle::empty()
    }
}

impl CellStyle {
    /// The empty style (terminal default).
    pub fn empty() -> (r: Self)
        ensures
            r == empty_style(),
    {
        CellStyle {
            fg: None,
            bg: None,
            bold: false,
            italic: false,
            underline: false,
            dim: false,
            crossed_out: false,
            reverse: false,
        }
    }

    /// Whether this style emits no SGR escape at all.
    pub fn is_empty(self) -> (b: bool)
        ensures
            b == (self == empty_style()),
    {
        self == CellStyle::empty()
    }

    /// This style with foreground `c`.
    pub fn fg(self, c: Color) -> (r: Self)
        ensures
            r == (CellStyle { fg: Some(c), ..self }),
    {
        CellStyle { fg: Some(c), ..self }
    }

    /// This style with background `c`.
    pub fn bg(self, c: Color) -> (r: Self)
        ensures
            r == (CellStyle { bg: Some(c), ..self }),
    {
        CellStyle { bg: Some(c), ..self }
    }

    /// This style, bold.
    pub fn bold(self) -> (r: Self)
        ensures
            r == (CellStyle { bold: true, ..self }),
    {
        CellStyle { bold: true, ..self }
    }

    /// This style, italic.
    pub fn italic(self) -> (r: Self)
        ensures
            r == (CellStyle { italic: true, ..self }),
    {
        CellStyle { italic: true, ..self }
    }

    /// This style, underlined.
    pub fn underline(self) -> (r: Self)
        ensures
            r == (CellStyle { underline: true, ..self }),
    {
        CellStyle { underline: true, ..self }
    }

    /// This style, dim.
    pub fn dim(self) -> (r: Self)
        ensures
            r == (CellStyle { dim: true, ..self }),
    {
        CellStyle { dim: true, ..self }
    }

    /// The SGR escape that applies this style from a reset state; empty for
    /// the empty style. No reset is emitted here.
    pub fn to_sgr(self) -> (s: String)
        ensures
            s@ == sgr_of(self),
    {
        let mut params: Vec<String> = Vec::new();
        let fg = match self.fg {
            Some(c) => Some(c.sgr_fg()),
            None => None,
        };
        push_opt(&mut params, fg);
        let bg = match self.bg {
            Some(c) => Some(c.sgr_bg()),
            None => None,
        };
        push_opt(&mut params, bg);
        push_flag(&mut params, self.bold, "1");
        push_flag(&mut params, self.dim, "2");
        push_flag(&mut params, self.italic, "3");
        push_flag(&mut params, self.underline, "4");
        push_flag(&mut params, self.reverse, "7");
        push_flag(&mut params, self.crossed_out, "9");
        assert(views(params@) =~= sgr_params(self));
        if params.len() == 0 {
            String::new()
        } else {
            let mut s = String::from_str("\x1b[");
            let body = join_with(&params, ';');
            s.append(body.as_str());
            s.append("m");
            proof {
                assert(";"@ == seq![';']) by {
                    reveal_strlit(";");
                }
            }
            s
        }
    }
}

fn push_opt(params: &mut Vec<String>, p: Option<String>)
    ensures
        views(final(params)@) == views(old(params)@) + match p {
            Some(x) => seq![x@],
            None => Seq::<Seq<char>>::empty(),
        },
{
    if let Some(x) = p {
        params.push(x);
    }
    assert(views(params@) =~= views(old(params)@) + match p {
        Some(x) => seq![x@],
        None => Seq::<Seq<char>>::empty(),
    });
}

fn push_flag(params: &mut Vec<String>, on: bool, p: &str)
    ensures
        views(final(params)@) == views(old(params)@) + flag_param(on, p@),
{
    if on {
        params.push(String::from_str(p));
    }
    assert(views(params@) =~= views(old(params)@) + flag_param(on, p@));
}

/// A run of text with one style.
#[derive(Clone, PartialEq, Eq, Debug)]
pub struct Span {
    pub text: String,
    pub style: CellStyle,
}

impl View for Span {
    type V = (Seq<char>, CellStyle);

    open spec fn view(&self) -> (Seq<char>, CellStyle) {
        (self.text@, self.style)
    }
}

impl Span {
    /// A span of `text` in `style`.
    pub fn new(text: &str, style: CellStyle) -> (r: Self)
        ensures
            r@ == (text@, style),
    {
        Span { text: String::from_str(text), style }
    }

    /// An unstyled span.
    pub fn raw(text: &str) -> (r: Self)
        ensures
            r@ == (text@, empty_style()),
    {
        Span { text: String::from_str(text), style: CellStyle::empty() }
    }

    /// A styled span.
    pub fn styled(text: &str, style: CellStyle) -> (r: Self)
        ensures
            r@ == (text@, style),
    {
        Self::new(text, style)
    }

    /// A span with the same text and style.
    pub fn duplicate(&self) -> (r: Self)
        ensures
            r@ == self@,
    {
        Span { text: self.text.clone(), style: self.style }
    }
}

/// The abstract content of a line: its spans as (text, style) pairs.
pub type LineView = Seq<(Seq<char>, CellStyle)>;

/// All span texts, concatenated.
pub open spec fn concat_texts(spans: LineView) -> Seq<char>
    decreases spans.len(),
{
    if spans.len() == 0 {
        seq![]
    } else {
        concat_texts(spans.drop_last()) + spans.last().0
    }
}

/// The ANSI form of one span: nothing for empty text, otherwise the style's
/// SGR (unless the style is empty) followed by the text.
pub open spec fn span_ansi(sp: (Seq<char>, CellStyle)) -> Seq<char> {
    if sp.0.len() == 0 {
        seq![]
    } else if sp.1 == empty_style() {
        sp.0
    } else {
        sgr_of(sp.1) + sp.0
    }
}

/// The ANSI form of a line: its spans' forms in order, no trailing reset.
pub open spec fn line_ansi(spans: LineView) -> Seq<char>
    decreases spans.len(),
{
    if spans.len() == 0 {
        seq![]
    } else {
        line_ansi(spans.drop_last()) + span_ansi(spans.last())
    }
}

/// Display width of a line: the sum of its span texts' widths.
pub open spec fn line_width(spans: LineView) -> nat
    decreases spans.len(),
{
    if spans.len() == 0 {
        0
    } else {
        line_width(spans.drop_last()) + str_width(spans.last().0)
    }
}

/// One terminal line: a sequence of spans.
#[derive(Clone, PartialEq, Eq, Debug)]
pub struct StyledLine {
    pub spans: Vec<Span>,
}

impl View for StyledLine {
    type V = LineView;

    open spec fn view(&self) -> LineView {
        self.spans@.map_values(|s: Span| s@)
    }
}

impl Default for StyledLine {
    fn default() -> (r: Self)
        ensures
            r@ == Seq::<(Seq<char>, CellStyle)>::empty(),
    {
        StyledLine::empty()
    }
}

/// Zero-width APC marker a focused widget embeds at its cursor position; the
/// renderer strips it and places the hardware cursor there.
pub const CURSOR_MARKER: &'static str = "\x1b_pi:c\x07";

impl StyledLine {
    /// The escape sequence appended after each rendered line: SGR reset and
    /// OSC 8 hyperlink reset.
    pub const LINE_RESET: &'static str = "\x1b[0m\x1b]8;;\x07";

    /// A line with no spans.
    pub fn new() -> (r: Self)
        ensures
            r@ == Seq::<(Seq<char>, CellStyle)>::empty(),
    {
        StyledLine { spans: Vec::new() }
    }

    /// A line made of `spans`.
    pub fn from_spans(spans: Vec<Span>) -> (r: Self)
        ensures
            r.spans@ == spans@,
    {
        StyledLine { spans }
    }

    /// A line of one unstyled span.
    pub fn raw(text: &str) -> (r: Self)
        ensures
            r@ == seq![(text@, empty_style())],
    {
        let mut spans = Vec::new();
        spans.push(Span::raw(text));
        let r = StyledLine { spans };
        assert(r@ =~= seq![(text@, empty_style())]);
        r
    }

    /// A line with no spans (renders as a blank row).
    pub fn empty() -> (r: Self)
        ensures
            r@ == Seq::<(Seq<char>, CellStyle)>::empty(),
    {
        let r = StyledLine { spans: Vec::new() };
        assert(r@ =~= Seq::<(Seq<char>, CellStyle)>::empty());
        r
    }

    /// Whether every span's text is empty (true for a line with no spans).
    pub fn is_empty(&self) -> (b: bool)
        ensures
            b == (forall|i: int| 0 <= i < self@.len() ==> (#[trigger] self@[i]).0.len() == 0),
    {
        let mut i: usize = 0;
        while i < self.spans.len()
            invariant
                0 <= i <= self.spans@.len(),
                forall|k: int| 0 <= k < i ==> (#[trigger] self@[k]).0.len() == 0,
            decreases self.spans@.len() - i,
        {
            if !self.spans[i].text.as_str().is_empty() {
                assert(self@[i as int].0.len() != 0);
                return false;
            }
            i = i + 1;
        }
        true
    }

    /// Appends a span.
    pub fn push(&mut self, span: Span)
        ensures
            final(self)@ == old(self)@.push(span@),
    {
        self.spans.push(span);
        assert(self@ =~= old(self)@.push(span@));
    }

    /// A line with the same spans.
    pub fn duplicate(&self) -> (r: Self)
        ensures
            r@ == self@,
    {
        let mut out = StyledLine::new();
        let mut i: usize = 0;
        while i < self.spans.len()
            invariant
                0 <= i <= self.spans@.len(),
                out@ == self@.take(i as int),
            decreases self.spans@.len() - i,
        {
            out.push(self.spans[i].duplicate());
            assert(self@.take(i + 1) == self@.take(i as int).push(self@[i as int]));
            i = i + 1;
        }
        assert(self@.take(self@.len() as int) == self@);
        out
    }

    /// The concatenated text of all spans, without styling.
    pub fn plain_text(&self) -> (s: String)
        ensures
            s@ == concat_texts(self@),
    {
        let mut s = String::new();
        let mut i: usize = 0;
        while i < self.spans.len()
            invariant
                0 <= i <= self.spans@.len(),
                s@ == concat_texts(self@.take(i as int)),
            decreases self.spans@.len() - i,
        {
            s.append(self.spans[i].text.as_str());
            assert(self@.take(i + 1).drop_last() == self@.take(i as int));
            i = i + 1;
        }
        assert(self@.take(self@.len() as int) == self@);
        s
    }

    /// Display width of the line (sum of the span texts' widths).
    pub fn width(&self) -> (w: usize)
        requires
            line_width(self@) <= usize::MAX,
        ensures
            w as nat == line_width(self@),
    {
        let mut w: usize = 0;
        let mut i: usize = 0;
        while i < self.spans.len()
            invariant
                0 <= i <= self.spans@.len(),
                w as nat == line_width(self@.take(i as int)),
                line_width(self@) <= usize::MAX,
            decreases self.spans@.len() - i,
        {
            let sw = str_display_width(self.spans[i].text.as_str());
            assert(self@.take(i + 1).drop_last() == self@.take(i as int));
            proof {
                lemma_line_width_prefix(self@, i + 1);
            }
            w = w + sw;
            i = i + 1;
        }
        assert(self@.take(self@.len() as int) == self@);
        w
    }

    /// Display width of the line, or `None` when it does not fit in a
    /// `usize`.
    pub fn try_width(&self) -> (w: Option<usize>)
        ensures
            w == (if line_width(self@) <= usize::MAX {
                Some(line_width(self@) as usize)
            } else {
                None::<usize>
            }),
    {
        let mut w: usize = 0;
        let mut i: usize = 0;
        while i < self.spans.len()
            invariant
                0 <= i <= self.spans@.len(),
                w as nat == line_width(self@.take(i as int)),
            decreases self.spans@.len() - i,
        {
            let sw = str_display_width(self.spans[i].text.as_str());
            assert(self@.take(i + 1).drop_last() == self@.take(i as int));
            match w.checked_add(sw) {
                Some(n) => {
                    w = n;
                },
                None => {
                    proof {
                        lemma_line_width_prefix(self@, i + 1);
                    }
                    return None;
                },
            }
            i = i + 1;
        }
        assert(self@.take(self@.len() as int) == self@);
        Some(w)
    }

    /// The ANSI form of the line: each non-empty span's SGR (when styled)
    /// then its text; no trailing reset.
    pub fn to_ansi(&self) -> (s: String)
        ensures
            s@ == line_ansi(self@),
    {
        let mut out = String::new();
        let mut i: usize = 0;
        while i < self.spans.len()
            invariant
                0 <= i <= self.spans@.len(),
                out@ == line_ansi(self@.take(i as int)),
            decreases self.spans@.len() - i,
        {
            let span = &self.spans[i];
            if !span.text.as_str().is_empty() {
                if !span.style.is_empty() {
                    let sgr = span.style.to_sgr();
                    out.append(sgr.as_str());
                }
                out.append(span.text.as_str());
            }
            assert(self@.take(i + 1).drop_last() == self@.take(i as int));
            i = i + 1;
        }
        assert(self@.take(self@.len() as int) == self@);
        out
    }
}

/// The width of a prefix never exceeds the width of the whole line.
pub proof fn lemma_line_width_prefix(spans: LineView, n: int)
    requires
        0 <= n <= spans.len(),
    ensures
        line_width(spans.take(n)) <= line_width(spans),
    decreases spans.len() - n,
{
    if n < spans.len() {
        lemma_line_width_prefix(spans, n + 1);
        assert(spans.take(n + 1).drop_last() == spans.take(n));
    } else {
        assert(spans.take(n) == spans);
    }
}

} // verus!
