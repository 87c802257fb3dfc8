//! External editor (Ctrl+G): which command to run and how its command line
//! and its output are read. Spawning and the temporary file stay with the
//! caller.

use vstd::prelude::*;
use crate::style::views;
use crate::text::{chars_of, trim, trim_str, is_white_space, is_whitespace, string_of};

verus! {

/// The message returned when neither `$VISUAL` nor `$EDITOR` names an editor.
pub open spec fn no_editor_message() -> Seq<char> {
    "set $VISUAL or $EDITOR to use external editor (Ctrl+G)"@
}

/// The editor command chosen from `$VISUAL` and `$EDITOR`: the first of them
/// (in that order) that is set and not blank, trimmed; `None` if neither.
pub open spec fn chosen_editor(visual: Option<Seq<char>>, editor: Option<Seq<char>>) -> Option<
    Seq<char>,
> {
    if visual.is_some() && trim(visual.unwrap()).len() > 0 {
        Some(trim(visual.unwrap()))
    } else if editor.is_some() && trim(editor.unwrap()).len() > 0 {
        Some(trim(editor.unwrap()))
    } else {
        None
    }
}

/// Strict resolve: non-blank `$VISUAL`, else non-blank `$EDITOR`, trimmed.
/// There is no default editor: with neither, the error asks to set one.
pub fn resolve_external_editor_command_from(visual: Option<&str>, editor: Option<&str>) -> (r:
    Result<String, String>)
    ensures
        match chosen_editor(
            match visual {
                Some(v) => Some(v@),
                None => None,
            },
            match editor {
                Some(e) => Some(e@),
                None => None,
            },
        ) {
            Some(cmd) => r matches Ok(s) && s@ == cmd,
            None => r matches Err(m) && m@ == no_editor_message(),
        },
{
    if let Some(raw) = visual {
        let t = trim_str(raw);
        if !t.as_str().is_empty() {
            return Ok(t);
        }
    }
    if let Some(raw) = editor {
        let t = trim_str(raw);
        if !t.as_str().is_empty() {
            return Ok(t);
        }
    }
    Err(String::from_str("set $VISUAL or $EDITOR to use external editor (Ctrl+G)"))
}

/// The white-space separated words of `s` (`str::split_whitespace`).
pub open spec fn words(s: Seq<char>) -> Seq<Seq<char>>
    decreases s.len(),
{
    if s.len() == 0 {
        seq![]
    } else {
        let w = words(s.drop_last());
        let c = s.last();
        if is_white_space(c) {
            w
        } else if s.len() >= 2 && !is_white_space(s[s.len() - 2]) && w.len() > 0 {
            w.update(w.len() - 1, w.last().push(c))
        } else {
            w.push(seq![c])
        }
    }
}

/// The words of an editor command line.
pub fn split_words(cmd: &str) -> (ws: Vec<String>)
    ensures
        views(ws@) == words(cmd@),
{
    let v = chars_of(cmd);
    let mut out: Vec<String> = Vec::new();
    let mut cur: Vec<char> = Vec::new();
    let mut i: usize = 0;
    while i < v.len()
        invariant
            i <= v@.len(),
            v@ == cmd@,
            cur@.len() > 0 ==> i > 0 && !is_white_space(v@[i - 1]),
            i > 0 && !is_white_space(v@[i - 1]) ==> cur@.len() > 0,
            words(v@.take(i as int)) == if cur@.len() > 0 {
                views(out@).push(cur@)
            } else {
                views(out@)
            },
        decreases v@.len() - i,
    {
        let c = v[i];
        let ghost pre = v@.take(i as int);
        let ghost nxt = v@.take(i + 1);
        assert(nxt.drop_last() == pre);
        assert(nxt.last() == c);
        if i > 0 {
            assert(nxt[nxt.len() - 2] == v@[i - 1]);
        }
        if is_whitespace(c) {
            assert(words(nxt) == words(pre));
            if cur.len() > 0 {
                let w = string_of(&cur);
                let ghost o0 = out@;
                out.push(w);
                proof {
                    lemma_views_push(o0, w);
                }
                cur = Vec::new();
            }
        } else {
            let ghost c0 = cur@;
            cur.push(c);
            proof {
                if c0.len() > 0 {
                    let w = views(out@).push(c0);
                    assert(words(pre) == w);
                    assert(words(nxt) == w.update(w.len() - 1, w.last().push(c)));
                    assert(w.update(w.len() - 1, w.last().push(c)) =~= views(out@).push(cur@));
                } else {
                    assert(words(pre) == views(out@));
                    assert(cur@ =~= seq![c]);
                    assert(words(nxt) == views(out@).push(seq![c]));
                }
            }
        }
        i = i + 1;
    }
    assert(v@.take(v@.len() as int) == v@);
    if cur.len() > 0 {
        let w = string_of(&cur);
        let ghost o0 = out@;
        out.push(w);
        proof {
            lemma_views_push(o0, w);
        }
    }
    out
}

proof fn lemma_views_push(v: Seq<String>, x: String)
    ensures
        views(v.push(x)) == views(v).push(x@),
{
    assert(views(v.push(x)) =~= views(v).push(x@));
}

/// The program and its leading arguments from an editor command line (the
/// caller appends the file path); `Err` when the line has no word.
pub fn editor_argv(cmd: &str) -> (r: Result<(String, Vec<String>), String>)
    ensures
        match r {
            Ok((prog, args)) => words(cmd@).len() > 0 && prog@ == words(cmd@)[0]
                && views(args@) == words(cmd@).drop_first(),
            Err(m) => words(cmd@).len() == 0 && m@ == "empty editor command"@,
        },
{
    let ws = split_words(cmd);
    if ws.len() == 0 {
        return Err(String::from_str("empty editor command"));
    }
    let prog = ws[0].clone();
    let mut args: Vec<String> = Vec::new();
    let mut i: usize = 1;
    while i < ws.len()
        invariant
            1 <= i <= ws@.len(),
            views(args@) == views(ws@).subrange(
                1,
                i as int,
            ),
        decreases ws@.len() - i,
    {
        let ghost a0 = args@;
        let x = ws[i].clone();
        args.push(x);
        proof {
            lemma_views_push(a0, x);
        }
        assert(views(args@) =~= views(ws@).subrange(
            1,
            i + 1,
        ));
        i = i + 1;
    }
    assert(views(ws@).subrange(1, ws@.len() as int) =~= views(ws@).drop_first());
    Ok((prog, args))
}

/// The edited text as read back: one trailing newline removed, if present.
pub fn strip_trailing_newline(content: &str) -> (s: String)
    ensures
        s@ == (if content@.len() > 0 && content@.last() == '\n' {
            content@.drop_last()
        } else {
            content@
        }),
{
    let v = chars_of(content);
    let n = v.len();
    let mut out = String::new();
    let end = if n > 0 && v[n - 1] == '\n' {
        n - 1
    } else {
        n
    };
    crate::text::push_chars(&mut out, &v, 0, end);
    assert(v@.subrange(0, n as int) == v@);
    out
}

/// The value of a flag variable is on: `1`, or `true` in any ASCII case.
pub open spec fn flag_on(value: Option<Seq<char>>) -> bool {
    match value {
        Some(v) => v == "1"@ || (v.len() == 4 && ascii_lower(v[0]) == 't' && ascii_lower(v[1]) == 'r'
            && ascii_lower(v[2]) == 'u' && ascii_lower(v[3]) == 'e'),
        None => false,
    }
}

/// The ASCII lower case of a character (others unchanged).
pub open spec fn ascii_lower(c: char) -> char {
    if 'A' <= c && c <= 'Z' {
        ((c as u32) + 32) as char
    } else {
        c
    }
}

/// Whether a flag variable's value turns the flag on (see [`flag_on`]).
pub fn env_flag_value(value: Option<&str>) -> (b: bool)
    ensures
        b == flag_on(
            match value {
                Some(v) => Some(v@),
                None => None,
            },
        ),
{
    match value {
        None => false,
        Some(v) => {
            let cs = chars_of(v);
            proof {
                reveal_strlit("1");
            }
            if cs.len() == 1 && cs[0] == '1' {
                assert(cs@ =~= "1"@);
                return true;
            }
            if cs.len() != 4 {
                assert(cs@ != "1"@);
                return false;
            }
            assert(cs@ != "1"@);
            lower(cs[0]) == 't' && lower(cs[1]) == 'r' && lower(cs[2]) == 'u' && lower(cs[3]) == 'e'
        },
    }
}

pub(crate) fn lower(c: char) -> (r: char)
    ensures
        r == ascii_lower(c),
{
    if 'A' <= c && c <= 'Z' {
        let u = (c as u32) + 32;
        assert(u <= 'z' as u32);
        (u as u8) as char
    } else {
        c
    }
}

/// Whether Ctrl+G runs the real editor: never when the stub flag is on,
/// always when the real-editor flag is on, otherwise only when standard
/// input is a terminal.
pub fn prefer_real_editor(stub_flag: bool, real_flag: bool, stdin_is_terminal: bool) -> (b: bool)
    ensures
        b == (!stub_flag && (real_flag || stdin_is_terminal)),
{
    if stub_flag {
        return false;
    }
    if real_flag {
        return true;
    }
    stdin_is_terminal
}

/// Bytes of a character in UTF-8.
pub open spec fn utf8_char_len(c: char) -> nat {
    if (c as u32) < 0x80 {
        1
    } else if (c as u32) < 0x800 {
        2
    } else if (c as u32) < 0x10000 {
        3
    } else {
        4
    }
}

/// Bytes of a text in UTF-8 (`str::len`).
pub open spec fn utf8_len(s: Seq<char>) -> nat
    decreases s.len(),
{
    if s.len() == 0 {
        0
    } else {
        utf8_len(s.drop_last()) + utf8_char_len(s.last())
    }
}

/// What Ctrl+G does.
#[derive(Debug, Clone, PartialEq, Eq)]
pub enum CtrlGPlan {
    /// Not the external-editor key, or an overlay has the focus.
    NotHandled,
    /// The stub editor opens and the notice is shown.
    Stub { notice: String },
    /// No editor command: the error is shown.
    NoEditor { error: String },
    /// Run `command` on the editor text (with the terminal suspended).
    Run { command: String, text: String },
}

/// A Ctrl+G plan as values.
pub enum CtrlGPlanView {
    NotHandled,
    Stub { notice: Seq<char> },
    NoEditor { error: Seq<char> },
    Run { command: Seq<char>, text: Seq<char> },
}

impl View for CtrlGPlan {
    type V = CtrlGPlanView;

    open spec fn view(&self) -> CtrlGPlanView {
        match self {
            CtrlGPlan::NotHandled => CtrlGPlanView::NotHandled,
            CtrlGPlan::Stub { notice } => CtrlGPlanView::Stub { notice: notice@ },
            CtrlGPlan::NoEditor { error } => CtrlGPlanView::NoEditor { error: error@ },
            CtrlGPlan::Run { command, text } => CtrlGPlanView::Run { command: command@, text: text@ },
        }
    }
}

/// Ctrl+G on the editor text: not handled for another key or in an
/// overlay; the stub, with a notice giving the text's length in bytes, when
/// the real editor is not preferred; the resolve error when no editor is
/// set; otherwise run the resolved command on the text.
pub open spec fn ctrl_g_spec(
    bound: bool,
    overlay: bool,
    prefer_real: bool,
    text: Seq<char>,
    cmd: Result<Seq<char>, Seq<char>>,
) -> CtrlGPlanView {
    if !bound || overlay {
        CtrlGPlanView::NotHandled
    } else if !prefer_real {
        CtrlGPlanView::Stub {
            notice: "external editor stub (Ctrl+G) · "@ + crate::text::decimal(utf8_len(text)) + " chars · $EDITOR not spawned"@,
        }
    } else {
        match cmd {
            Err(m) => CtrlGPlanView::NoEditor { error: m },
            Ok(c) => CtrlGPlanView::Run { command: c, text },
        }
    }
}

/// The UTF-8 length of a text.
fn utf8_length(text: &str) -> (n: u128)
    ensures
        n as nat == utf8_len(text@),
{
    let v = chars_of(text);
    let mut n: u128 = 0;
    let mut i: usize = 0;
    while i < v.len()
        invariant
            i <= v@.len(),
            n as nat == utf8_len(v@.take(i as int)),
            n <= 4 * i,
        decreases v@.len() - i,
    {
        assert(v@.take(i + 1).drop_last() == v@.take(i as int));
        let c = v[i] as u32;
        let k: u128 = if c < 0x80 {
            1
        } else if c < 0x800 {
            2
        } else if c < 0x10000 {
            3
        } else {
            4
        };
        n = n + k;
        i = i + 1;
    }
    assert(v@.take(v@.len() as int) == v@);
    n
}

/// Plans Ctrl+G as [`ctrl_g_spec`] says. `bound` is whether the key is the
/// external-editor key, `prefer_real` whether the real editor runs, and
/// `cmd` the resolved editor command (or why there is none).
pub fn ctrl_g_plan(bound: bool, overlay: bool, prefer_real: bool, editor_text: &str, cmd: Result<String, String>) -> (r:
    CtrlGPlan)
    ensures
        r@ == ctrl_g_spec(
            bound,
            overlay,
            prefer_real,
            editor_text@,
            match cmd {
                Ok(c) => Ok(c@),
                Err(m) => Err(m@),
            },
        ),
{
    if !bound || overlay {
        return CtrlGPlan::NotHandled;
    }
    if !prefer_real {
        let mut notice = String::new();
        notice.append("external editor stub (Ctrl+G) · ");
        crate::text::push_decimal(&mut notice, utf8_length(editor_text));
        notice.append(" chars · $EDITOR not spawned");
        return CtrlGPlan::Stub { notice };
    }
    match cmd {
        Err(m) => CtrlGPlan::NoEditor { error: m },
        Ok(c) => CtrlGPlan::Run { command: c, text: editor_text.to_string() },
    }
}

/// The editor text and the error note after the external editor ran: the
/// edited text; or, when it exited non-zero or failed, the text before and
/// a note saying so.
pub open spec fn editor_result_spec(before: Seq<char>, res: Result<Option<Seq<char>>, Seq<char>>) -> (
    Seq<char>,
    Option<Seq<char>>,
) {
    match res {
        Ok(Some(t)) => (t, None),
        Ok(None) => (before, Some("external editor exited non-zero — keeping original text"@)),
        Err(e) => (before, Some("external editor failed: "@ + e)),
    }
}

/// Applies the external editor's outcome as [`editor_result_spec`] says.
pub fn apply_editor_result(before: &str, res: Result<Option<String>, String>) -> (r: (String, Option<String>))
    ensures
        (r.0@, match r.1 {
            Some(n) => Some(n@),
            None => None,
        }) == editor_result_spec(
            before@,
            match res {
                Ok(Some(t)) => Ok(Some(t@)),
                Ok(None) => Ok(None),
                Err(e) => Err(e@),
            },
        ),
{
    match res {
        Ok(Some(t)) => (t, None),
        Ok(None) => (
            before.to_string(),
            Some("external editor exited non-zero — keeping original text".to_string()),
        ),
        Err(e) => {
            let mut n = String::new();
            n.append("external editor failed: ");
            n.append(e.as_str());
            (before.to_string(), Some(n))
        },
    }
}

} // verus!
