//! Host-side decisions: the terminal size policy, the queued side effects
//! of a host step, the `!`/`!!` bash-line parser, and what a key does to
//! the editor and the queued effects while the agent is busy or idle.

use vstd::prelude::*;
use crate::text::{chars_of, trim, skip_white, skip_white_back, push_chars, trim_end, trim_str};
use crate::keybindings::{KeybindingsManager, KeybindingsModel, KeyPattern, lookup};
use crate::style::{join, views};

verus! {

/// Minimum usable terminal width.
pub const MIN_COLS: u16 = 40;

/// Minimum usable terminal height.
pub const MIN_ROWS: u16 = 6;

/// Prompt shown when the terminal is too small.
pub const TOO_SMALL_HINT: &'static str = "请放大终端";

/// Whether the terminal is below the product minimum.
pub fn is_too_small(cols: u16, rows: u16) -> (b: bool)
    ensures
        b == (cols < MIN_COLS || rows < MIN_ROWS),
{
    cols < MIN_COLS || rows < MIN_ROWS
}

/// Layout mode after applying the size policy.
#[derive(Debug, Clone, Copy, PartialEq, Eq, Structural)]
pub enum LayoutMode {
    /// Normal UI root (transcript / editor / footer).
    Ready,
    TooSmall,
}

/// The layout mode for a terminal size.
pub fn layout_mode_for(cols: u16, rows: u16) -> (m: LayoutMode)
    ensures
        m == (if cols < MIN_COLS || rows < MIN_ROWS {
            LayoutMode::TooSmall
        } else {
            LayoutMode::Ready
        }),
{
    if is_too_small(cols, rows) {
        LayoutMode::TooSmall
    } else {
        LayoutMode::Ready
    }
}

/// An interactive bash run requested with `!cmd` (or `!!cmd`, which keeps
/// the output out of the model context).
#[derive(Debug, Clone, PartialEq, Eq)]
pub struct PendingBash {
    pub command: String,
    pub exclude_from_context: bool,
}

/// A slash command queued for the async effects drain.
#[derive(Debug, Clone, PartialEq, Eq)]
pub enum PendingSlash {
    Exit,
    OpenModels,
    SetModel(String),
    DebugScene(String),
    OpenTree,
    ForkAtLeaf,
    Compact { instructions: Option<String> },
    Export { path: String },
    Import { path: String },
    SessionDump,
    OpenSessionResume,
    SessionNew,
    SessionClone,
    SessionName { name: Option<String> },
    Reload,
    HistoryCopyLast,
    Theme { arg: Option<String> },
    OpenMcp,
    Usage(String),
}

/// Side effects queued by a synchronous host step and consumed by the
/// effects drain.
#[derive(Debug)]
pub struct PendingOps {
    pub submit: Option<String>,
    pub steer: Option<String>,
    pub follow_up: Option<String>,
    pub abort: bool,
    /// Alt+Up: restore queued messages to the editor and clear both queues.
    pub dequeue: bool,
    pub slash: Option<PendingSlash>,
    pub bash: Option<PendingBash>,
    /// Refresh the footer token estimate.
    pub footer_token_refresh: bool,
}

impl Default for PendingOps {
    fn default() -> (r: Self)
        ensures
            r.submit.is_none() && r.steer.is_none() && r.follow_up.is_none() && !r.abort
                && !r.dequeue && r.slash.is_none() && r.bash.is_none() && !r.footer_token_refresh,
    {
        PendingOps {
            submit: None,
            steer: None,
            follow_up: None,
            abort: false,
            dequeue: false,
            slash: None,
            bash: None,
            footer_token_refresh: false,
        }
    }
}

impl PendingOps {
    /// The queued prompt submission, leaving none queued.
    pub fn take_submit(&mut self) -> (r: Option<String>)
        ensures
            r == old(self).submit,
            final(self).submit.is_none(),
            final(self).steer == old(self).steer,
            final(self).follow_up == old(self).follow_up,
            final(self).abort == old(self).abort,
            final(self).dequeue == old(self).dequeue,
            final(self).slash == old(self).slash,
            final(self).bash == old(self).bash,
            final(self).footer_token_refresh == old(self).footer_token_refresh,
    {
        self.submit.take()
    }

    /// The queued steering message, leaving none queued.
    pub fn take_steer(&mut self) -> (r: Option<String>)
        ensures
            r == old(self).steer,
            final(self).steer.is_none(),
            final(self).submit == old(self).submit,
            final(self).follow_up == old(self).follow_up,
            final(self).abort == old(self).abort,
            final(self).dequeue == old(self).dequeue,
            final(self).slash == old(self).slash,
            final(self).bash == old(self).bash,
            final(self).footer_token_refresh == old(self).footer_token_refresh,
    {
        self.steer.take()
    }

    /// The queued follow-up message, leaving none queued.
    pub fn take_follow_up(&mut self) -> (r: Option<String>)
        ensures
            r == old(self).follow_up,
            final(self).follow_up.is_none(),
            final(self).submit == old(self).submit,
            final(self).steer == old(self).steer,
            final(self).abort == old(self).abort,
            final(self).dequeue == old(self).dequeue,
            final(self).slash == old(self).slash,
            final(self).bash == old(self).bash,
            final(self).footer_token_refresh == old(self).footer_token_refresh,
    {
        self.follow_up.take()
    }

    /// Whether an abort was queued; clears the flag.
    pub fn take_abort(&mut self) -> (r: bool)
        ensures
            r == old(self).abort,
            !final(self).abort,
            final(self).submit == old(self).submit,
            final(self).steer == old(self).steer,
            final(self).follow_up == old(self).follow_up,
            final(self).dequeue == old(self).dequeue,
            final(self).slash == old(self).slash,
            final(self).bash == old(self).bash,
            final(self).footer_token_refresh == old(self).footer_token_refresh,
    {
        let r = self.abort;
        self.abort = false;
        r
    }

    /// Whether a dequeue was queued; clears the flag.
    pub fn take_dequeue(&mut self) -> (r: bool)
        ensures
            r == old(self).dequeue,
            !final(self).dequeue,
            final(self).submit == old(self).submit,
            final(self).steer == old(self).steer,
            final(self).follow_up == old(self).follow_up,
            final(self).abort == old(self).abort,
            final(self).slash == old(self).slash,
            final(self).bash == old(self).bash,
            final(self).footer_token_refresh == old(self).footer_token_refresh,
    {
        let r = self.dequeue;
        self.dequeue = false;
        r
    }

    /// The queued slash command, leaving none queued.
    pub fn take_slash(&mut self) -> (r: Option<PendingSlash>)
        ensures
            r == old(self).slash,
            final(self).slash.is_none(),
            final(self).submit == old(self).submit,
            final(self).steer == old(self).steer,
            final(self).follow_up == old(self).follow_up,
            final(self).abort == old(self).abort,
            final(self).dequeue == old(self).dequeue,
            final(self).bash == old(self).bash,
            final(self).footer_token_refresh == old(self).footer_token_refresh,
    {
        self.slash.take()
    }

    /// The queued bash run, leaving none queued.
    pub fn take_bash(&mut self) -> (r: Option<PendingBash>)
        ensures
            r == old(self).bash,
            final(self).bash.is_none(),
            final(self).submit == old(self).submit,
            final(self).steer == old(self).steer,
            final(self).follow_up == old(self).follow_up,
            final(self).abort == old(self).abort,
            final(self).dequeue == old(self).dequeue,
            final(self).slash == old(self).slash,
            final(self).footer_token_refresh == old(self).footer_token_refresh,
    {
        self.bash.take()
    }

    /// Whether a footer token refresh was queued; clears the flag.
    pub fn take_footer_token_refresh(&mut self) -> (r: bool)
        ensures
            r == old(self).footer_token_refresh,
            !final(self).footer_token_refresh,
            final(self).submit == old(self).submit,
            final(self).steer == old(self).steer,
            final(self).follow_up == old(self).follow_up,
            final(self).abort == old(self).abort,
            final(self).dequeue == old(self).dequeue,
            final(self).slash == old(self).slash,
            final(self).bash == old(self).bash,
    {
        let r = self.footer_token_refresh;
        self.footer_token_refresh = false;
        r
    }
}

/// How an editor line reads as a bash request.
#[derive(Debug, Clone, PartialEq, Eq)]
pub enum BangParse {
    /// Not a `!` line.
    NotBang,
    /// `!` or `!!` with nothing after it.
    Empty { exclude_from_context: bool },
    /// `!cmd` / `!!cmd`.
    Cmd { command: String, exclude_from_context: bool },
}

/// The parts of a bang line: for the trimmed text, whether it starts with
/// `!!`, and the trimmed rest after the `!`/`!!` prefix; `None` when the
/// trimmed text does not start with `!`.
pub open spec fn bang_parts(text: Seq<char>) -> Option<(bool, Seq<char>)> {
    let t = trim(text);
    if t.len() >= 2 && t[0] == '!' && t[1] == '!' {
        Some((true, trim(t.subrange(2, t.len() as int))))
    } else if t.len() >= 1 && t[0] == '!' {
        Some((false, trim(t.subrange(1, t.len() as int))))
    } else {
        None
    }
}

/// Reads an editor line as a bash request: after trimming, `!!` runs the
/// rest outside the model context, `!` inside it; the command is the rest,
/// trimmed; an empty command is reported as such.
pub fn parse_bang_command(text: &str) -> (r: BangParse)
    ensures
        match bang_parts(text@) {
            None => r == BangParse::NotBang,
            Some((excl, cmd)) => if cmd.len() == 0 {
                r == (BangParse::Empty { exclude_from_context: excl })
            } else {
                r matches BangParse::Cmd { command, exclude_from_context } && command@ == cmd
                    && exclude_from_context == excl
            },
        },
{
    let v = chars_of(text);
    let i = skip_white(&v, 0);
    let j = skip_white_back(&v, i, v.len());
    proof {
        assert(v@.subrange(0, v@.len() as int) == v@);
        assert(trim(text@) == v@.subrange(i as int, j as int));
    }
    let ghost t = v@.subrange(i as int, j as int);
    let (excl, start) = if j - i >= 2 && v[i] == '!' && v[i + 1] == '!' {
        (true, i + 2)
    } else if j - i >= 1 && v[i] == '!' {
        (false, i + 1)
    } else {
        return BangParse::NotBang;
    };
    let a = skip_white(&v, start);
    let a2 = if a > j { j } else { a };
    let b = skip_white_back(&v, a2, j);
    proof {
        let rest = t.subrange(start - i, t.len() as int);
        assert(rest == v@.subrange(start as int, j as int));
        lemma_trim_range(v@, start as int, j as int, a2 as int, b as int);
    }
    if b == a2 {
        BangParse::Empty { exclude_from_context: excl }
    } else {
        let mut command = String::new();
        push_chars(&mut command, &v, a2, b);
        BangParse::Cmd { command, exclude_from_context: excl }
    }
}

/// Trimming a range `v[s..e]`: skipping white space from `s` lands at `a`
/// (capped at `e`), and from the back at `b`.
proof fn lemma_trim_range(v: Seq<char>, s: int, e: int, a: int, b: int)
    requires
        0 <= s <= e <= v.len(),
        s <= a <= e,
        a <= b <= e,
        forall|k: int| s <= k < a ==> crate::text::is_white_space(#[trigger] v[k]),
        a < e ==> !crate::text::is_white_space(v[a]),
        trim_end(v.subrange(a, e)) == v.subrange(a, b),
    ensures
        trim(v.subrange(s, e)) == v.subrange(a, b),
    decreases a - s,
{
    if a > s {
        assert(v.subrange(s, e).drop_first() == v.subrange(s + 1, e));
        lemma_trim_range(v, s + 1, e, a, b);
    } else {
        if a < e {
            assert(v.subrange(s, e)[0] == v[a]);
        }
    }
}

/// Number of `/` in `s`.
pub open spec fn slash_count(s: Seq<char>) -> nat
    decreases s.len(),
{
    if s.len() == 0 {
        0
    } else {
        slash_count(s.drop_last()) + if s.last() == '/' {
            1nat
        } else {
            0nat
        }
    }
}

/// The first white-space separated word of `s` (empty when there is none).
pub open spec fn first_word(s: Seq<char>) -> Seq<char> {
    let w = crate::editor::words(s);
    if w.len() > 0 {
        w[0]
    } else {
        seq![]
    }
}

/// Whether a line typed while idle is an unknown slash command rather than
/// a prompt: its first word starts with `/` and holds no other `/` (an
/// absolute path such as `/tmp/x.png` is prompt text).
pub fn looks_like_unknown_slash_command(text: &str) -> (b: bool)
    ensures
        b == (first_word(text@).len() > 0 && first_word(text@)[0] == '/' && slash_count(
            first_word(text@),
        ) <= 1),
{
    let ws = crate::editor::split_words(text);
    if ws.len() == 0 {
        return false;
    }
    assert(ws@[0]@ == crate::style::views(ws@)[0]);
    let first = chars_of(ws[0].as_str());
    if first.len() == 0 || first[0] != '/' {
        return false;
    }
    let mut n: usize = 0;
    let mut i: usize = 0;
    while i < first.len()
        invariant
            i <= first@.len(),
            n as nat == slash_count(first@.take(i as int)),
            n <= i,
        decreases first@.len() - i,
    {
        assert(first@.take(i + 1).drop_last() == first@.take(i as int));
        if first[i] == '/' {
            n = n + 1;
        }
        i = i + 1;
    }
    assert(first@.take(first@.len() as int) == first@);
    n <= 1
}

/// The title of the notice that ends a `/reload`.
pub fn reload_notice_title(cancelled: bool) -> (s: &'static str)
    ensures
        s@ == (if cancelled {
            "Reload cancelled:"@
        } else {
            "Reload:"@
        }),
{
    if cancelled {
        "Reload cancelled:"
    } else {
        "Reload:"
    }
}

/// The text of an optional string.
pub open spec fn text_of(o: Option<String>) -> Option<Seq<char>> {
    match o {
        Some(t) => Some(t@),
        None => None,
    }
}

/// The queued side effects as values.
pub struct PendingView {
    pub submit: Option<Seq<char>>,
    pub steer: Option<Seq<char>>,
    pub follow_up: Option<Seq<char>>,
    pub abort: bool,
    pub dequeue: bool,
    pub slash: Option<PendingSlash>,
    pub bash: Option<(Seq<char>, bool)>,
    pub footer_token_refresh: bool,
}

impl View for PendingOps {
    type V = PendingView;

    open spec fn view(&self) -> PendingView {
        PendingView {
            submit: text_of(self.submit),
            steer: text_of(self.steer),
            follow_up: text_of(self.follow_up),
            abort: self.abort,
            dequeue: self.dequeue,
            slash: self.slash,
            bash: match self.bash {
                Some(b) => Some((b.command@, b.exclude_from_context)),
                None => None,
            },
            footer_token_refresh: self.footer_token_refresh,
        }
    }
}

/// Whether `key` is one of the keys bound to `id`.
pub open spec fn bound(kb: KeybindingsModel, key: KeyPattern, id: Seq<char>) -> bool {
    lookup(kb.entries, id) matches Some(ps) && ps.contains(key)
}

/// Whether an editor line is an unknown slash command: its trimmed text
/// starts with `/` and it looks like a command rather than a path.
pub open spec fn unknown_slash(text: Seq<char>) -> bool {
    &&& trim(text).len() > 0
    &&& trim(text)[0] == '/'
    &&& first_word(text).len() > 0
    &&& first_word(text)[0] == '/'
    &&& slash_count(first_word(text)) <= 1
}

/// Whether the agent lets a slash command run while it is busy.
#[derive(Debug, Clone, Copy, PartialEq, Eq, Structural)]
pub enum BusySlashPolicy {
    Allow,
    Reject,
}

/// The host state a key press while busy depends on.
#[derive(Debug, Clone, Copy, PartialEq, Eq, Structural)]
pub struct BusyInputState {
    /// The agent or a bash run is busy.
    pub busy: bool,
    /// An overlay (picker, dialog) has the focus.
    pub overlay: bool,
    /// An interactive bash run is active.
    pub bash_active: bool,
}

/// What a key press does besides the queued effects.
pub struct KeyOutcome {
    /// The key was handled here.
    pub consumed: bool,
    /// The editor's new text, when it changes.
    pub editor_text: Option<String>,
    /// Text added to the editor's send history.
    pub remembered: Option<String>,
    /// A notice for the transcript.
    pub notice: Option<String>,
    /// The host quits.
    pub quit: bool,
    /// Streaming output is flushed into the transcript and late agent
    /// events are dropped until the stream ends (an abort).
    pub flush_streaming: bool,
    /// The queued messages were taken back into the editor.
    pub queued_taken: bool,
}

/// A key outcome as values.
pub struct KeyOutcomeView {
    pub consumed: bool,
    pub editor_text: Option<Seq<char>>,
    pub remembered: Option<Seq<char>>,
    pub notice: Option<Seq<char>>,
    pub quit: bool,
    pub flush_streaming: bool,
    pub queued_taken: bool,
}

impl View for KeyOutcome {
    type V = KeyOutcomeView;

    open spec fn view(&self) -> KeyOutcomeView {
        KeyOutcomeView {
            consumed: self.consumed,
            editor_text: text_of(self.editor_text),
            remembered: text_of(self.remembered),
            notice: text_of(self.notice),
            quit: self.quit,
            flush_streaming: self.flush_streaming,
            queued_taken: self.queued_taken,
        }
    }
}

/// A key not handled here.
pub open spec fn key_ignored() -> KeyOutcomeView {
    KeyOutcomeView {
        consumed: false,
        editor_text: None,
        remembered: None,
        notice: None,
        quit: false,
        flush_streaming: false,
        queued_taken: false,
    }
}

/// A key handled with no other effect.
pub open spec fn key_taken() -> KeyOutcomeView {
    KeyOutcomeView { consumed: true, ..key_ignored() }
}

/// A key handled that clears the editor.
pub open spec fn key_clears() -> KeyOutcomeView {
    KeyOutcomeView { editor_text: Some(seq![]), ..key_taken() }
}

/// A key press while the agent is busy (outside an overlay): the interrupt
/// or clear key queues an abort, drops an untaken steer and flushes the
/// stream; the dequeue key takes the queued messages back into the editor,
/// joined by blank lines with the current text (when it holds more than
/// white space) last, and drops queued steer and follow-up; the follow-up
/// key queues the editor text as a follow-up; Enter runs an allowed slash
/// command (`/exit` quits), reports a refused one, reports an unknown
/// command as not steered, refuses a `!` line, and otherwise queues the
/// text as a steer. Keys on an empty editor are swallowed; other keys, or
/// any key when idle or in an overlay, are not handled.
pub open spec fn busy_input_spec(
    st: BusyInputState,
    key: KeyPattern,
    kb: KeybindingsModel,
    text: Seq<char>,
    slash: Option<(PendingSlash, BusySlashPolicy, Seq<char>)>,
    queued: Seq<Seq<char>>,
    p: PendingView,
) -> (KeyOutcomeView, PendingView) {
    let blank = trim(text).len() == 0;
    if !st.busy || st.overlay {
        (key_ignored(), p)
    } else if bound(kb, key, "app.interrupt"@) || bound(kb, key, "app.clear"@) {
        (KeyOutcomeView { flush_streaming: true, ..key_taken() }, PendingView { abort: true, steer: None, ..p })
    } else if bound(kb, key, "app.message.dequeue"@) {
        if queued.len() == 0 {
            (key_taken(), p)
        } else {
            let parts = if blank {
                queued
            } else {
                queued.push(text)
            };
            (
                KeyOutcomeView { editor_text: Some(join(parts, "\n\n"@)), queued_taken: true, ..key_taken() },
                PendingView { steer: None, follow_up: None, dequeue: true, ..p },
            )
        }
    } else if bound(kb, key, "app.message.followUp"@) {
        if blank {
            (key_taken(), p)
        } else {
            (KeyOutcomeView { remembered: Some(text), ..key_clears() }, PendingView { follow_up: Some(text), ..p })
        }
    } else if bound(kb, key, "tui.input.submit"@) {
        if blank {
            (key_taken(), p)
        } else {
            match slash {
                Some((s, BusySlashPolicy::Allow, _)) => if s == PendingSlash::Exit {
                    (KeyOutcomeView { quit: true, ..key_clears() }, p)
                } else {
                    (key_clears(), PendingView { slash: Some(s), ..p })
                },
                Some((s, BusySlashPolicy::Reject, label)) => (
                    KeyOutcomeView {
                        notice: Some(
                            match s {
                                PendingSlash::Usage(m) => m@,
                                _ => "agent busy — "@ + label + " refused"@,
                            },
                        ),
                        ..key_clears()
                    },
                    p,
                ),
                None => if unknown_slash(text) {
                    (
                        KeyOutcomeView {
                            notice: Some("agent busy — unknown command not steered: "@ + first_word(text)),
                            ..key_clears()
                        },
                        p,
                    )
                } else if bang_parts(text) is Some {
                    (
                        KeyOutcomeView {
                            notice: Some(
                                if st.bash_active {
                                    "bash already running — wait or Esc to cancel (second ! rejected)"@
                                } else {
                                    "agent busy — wait or Esc (! command cannot steer; rejected)"@
                                },
                            ),
                            ..key_taken()
                        },
                        p,
                    )
                } else {
                    (KeyOutcomeView { remembered: Some(text), ..key_clears() }, PendingView { steer: Some(text), ..p })
                },
            }
        }
    } else {
        (key_ignored(), p)
    }
}

fn no_key_effect(consumed: bool) -> (r: KeyOutcome)
    ensures
        r@ == (KeyOutcomeView { consumed, ..key_ignored() }),
{
    KeyOutcome {
        consumed,
        editor_text: None,
        remembered: None,
        notice: None,
        quit: false,
        flush_streaming: false,
        queued_taken: false,
    }
}

fn cleared_editor(remembered: Option<String>, notice: Option<String>, quit: bool) -> (r: KeyOutcome)
    ensures
        r@ == (KeyOutcomeView {
            remembered: text_of(remembered),
            notice: text_of(notice),
            quit,
            ..key_clears()
        }),
{
    KeyOutcome {
        consumed: true,
        editor_text: Some(String::new()),
        remembered,
        notice,
        quit,
        flush_streaming: false,
        queued_taken: false,
    }
}

/// `a`, `b` and `c` one after another.
fn concat3(a: &str, b: &str, c: &str) -> (r: String)
    ensures
        r@ == a@ + b@ + c@,
{
    let mut r = String::new();
    r.append(a);
    r.append(b);
    r.append(c);
    r
}

/// Whether the text is empty after trimming white space.
fn is_blank(text: &str) -> (b: bool)
    ensures
        b == (trim(text@).len() == 0),
{
    let t = chars_of(trim_str(text).as_str());
    t.len() == 0
}

/// The first word of a line known to start with one.
fn first_word_of(text: &str) -> (w: String)
    requires
        first_word(text@).len() > 0,
    ensures
        w@ == first_word(text@),
{
    let ws = crate::editor::split_words(text);
    assert(ws@[0]@ == views(ws@)[0]);
    ws[0].clone()
}

/// Whether the trimmed text starts with `/` and looks like an unknown
/// command.
fn is_unknown_slash(text: &str) -> (b: bool)
    ensures
        b == unknown_slash(text@),
{
    let t = chars_of(trim_str(text).as_str());
    t.len() > 0 && t[0] == '/' && looks_like_unknown_slash_command(text)
}

/// Strings joined by a blank line.
fn join_blank_lines(parts: &Vec<String>) -> (s: String)
    ensures
        s@ == join(views(parts@), "\n\n"@),
{
    let mut s = String::new();
    let mut i: usize = 0;
    while i < parts.len()
        invariant
            0 <= i <= parts@.len(),
            s@ == join(views(parts@).take(i as int), "\n\n"@),
        decreases parts@.len() - i,
    {
        let ghost before = views(parts@).take(i as int);
        if i > 0 {
            s.append("\n\n");
        }
        s.append(parts[i].as_str());
        proof {
            let after = views(parts@).take(i + 1);
            assert(after.drop_last() == before);
            assert(after.last() == parts@[i as int]@);
            if i == 0 {
                assert(after.len() == 1);
            }
        }
        i = i + 1;
    }
    proof {
        assert(views(parts@).take(parts@.len() as int) == views(parts@));
    }
    s
}

/// A key press while the agent is busy: the queued effects change as
/// [`busy_input_spec`] says, and the outcome says what happens to the
/// editor, the transcript and the host. `slash` is the editor line read as
/// a slash command, if it is one, with its busy policy and the label a
/// refusal names; `queued` the messages queued for the agent.
pub fn busy_input(
    st: &BusyInputState,
    key: KeyPattern,
    kb: &KeybindingsManager,
    editor_text: &str,
    slash: Option<(PendingSlash, BusySlashPolicy, String)>,
    queued: Vec<String>,
    pending: &mut PendingOps,
) -> (r: KeyOutcome)
    ensures
        (r@, final(pending)@) == busy_input_spec(
            *st,
            key,
            kb@,
            editor_text@,
            match slash {
                Some((s, pol, label)) => Some((s, pol, label@)),
                None => None,
            },
            views(queued@),
            old(pending)@,
        ),
{
    if !st.busy || st.overlay {
        return no_key_effect(false);
    }
    if kb.matches(key, "app.interrupt") || kb.matches(key, "app.clear") {
        pending.abort = true;
        pending.steer = None;
        let mut r = no_key_effect(true);
        r.flush_streaming = true;
        return r;
    }
    let blank = is_blank(editor_text);
    if kb.matches(key, "app.message.dequeue") {
        if queued.len() == 0 {
            return no_key_effect(true);
        }
        let mut parts = queued;
        if !blank {
            parts.push(editor_text.to_string());
        }
        proof {
            if !blank {
                assert(views(parts@) =~= views(queued@).push(editor_text@));
            }
        }
        let joined = join_blank_lines(&parts);
        pending.steer = None;
        pending.follow_up = None;
        pending.dequeue = true;
        let mut r = no_key_effect(true);
        r.editor_text = Some(joined);
        r.queued_taken = true;
        return r;
    }
    if kb.matches(key, "app.message.followUp") {
        if blank {
            return no_key_effect(true);
        }
        pending.follow_up = Some(editor_text.to_string());
        return cleared_editor(Some(editor_text.to_string()), None, false);
    }
    if kb.matches(key, "tui.input.submit") {
        if blank {
            return no_key_effect(true);
        }
        match slash {
            Some((s, pol, label)) => {
                match pol {
                    BusySlashPolicy::Allow => {
                        if matches!(s, PendingSlash::Exit) {
                            return cleared_editor(None, None, true);
                        }
                        pending.slash = Some(s);
                        return cleared_editor(None, None, false);
                    },
                    BusySlashPolicy::Reject => {
                        let note = match s {
                            PendingSlash::Usage(m) => m,
                            _ => concat3("agent busy — ", label.as_str(), " refused"),
                        };
                        return cleared_editor(None, Some(note), false);
                    },
                }
            },
            None => {},
        }
        if is_unknown_slash(editor_text) {
            let w = first_word_of(editor_text);
            let note = concat3("agent busy — unknown command not steered: ", w.as_str(), "");
            proof {
                reveal_strlit("");
                assert(note@ =~= "agent busy — unknown command not steered: "@ + first_word(editor_text@));
            }
            return cleared_editor(None, Some(note), false);
        }
        match parse_bang_command(editor_text) {
            BangParse::NotBang => {},
            _ => {
                let note = if st.bash_active {
                    "bash already running — wait or Esc to cancel (second ! rejected)".to_string()
                } else {
                    "agent busy — wait or Esc (! command cannot steer; rejected)".to_string()
                };
                let mut r = no_key_effect(true);
                r.notice = Some(note);
                return r;
            },
        }
        pending.steer = Some(editor_text.to_string());
        return cleared_editor(Some(editor_text.to_string()), None, false);
    }
    no_key_effect(false)
}

/// The notice for an unknown slash command typed while idle.
pub open spec fn unknown_command_notice(word: Seq<char>) -> Seq<char> {
    "unknown command: "@ + word
        + " (try /exit, /model, /theme, /mcp, /session, /session-resume, /session-new, /session-clone, /session-name, /session-tree, /session-fork, /session-compact, /session-export, /session-import, /reload, /trust, /history-copy-last)"@
}

/// Enter while idle (outside an overlay, on a line holding more than white
/// space): a slash command is queued (`/exit` quits), an unknown command is
/// reported, a `!` line queues a bash run (an empty one is reported), and
/// any other line is submitted as a prompt. The editor is cleared whenever
/// the key is handled; runs and prompts go to the send history. Steering
/// and follow-ups are for busy time only.
pub open spec fn idle_enter_spec(
    busy: bool,
    overlay: bool,
    submit_key: bool,
    text: Seq<char>,
    slash: Option<PendingSlash>,
    p: PendingView,
) -> (KeyOutcomeView, PendingView) {
    if busy || !submit_key || overlay || trim(text).len() == 0 {
        (key_ignored(), p)
    } else {
        match slash {
            Some(s) => if s == PendingSlash::Exit {
                (KeyOutcomeView { quit: true, ..key_clears() }, p)
            } else {
                (key_clears(), PendingView { slash: Some(s), ..p })
            },
            None => if unknown_slash(text) {
                (KeyOutcomeView { notice: Some(unknown_command_notice(first_word(text))), ..key_clears() }, p)
            } else {
                match bang_parts(text) {
                    None => (KeyOutcomeView { remembered: Some(text), ..key_clears() }, PendingView { submit: Some(text), ..p }),
                    Some((excl, cmd)) => if cmd.len() == 0 {
                        (KeyOutcomeView { notice: Some("empty bash command (try !ls or !!ls)"@), ..key_clears() }, p)
                    } else {
                        (
                            KeyOutcomeView { remembered: Some(text), ..key_clears() },
                            PendingView { bash: Some((cmd, excl)), ..p },
                        )
                    },
                }
            },
        }
    }
}

/// Enter while idle: the queued effects change as [`idle_enter_spec`]
/// says. `busy` is whether a run is active or the agent busy, `submit_key`
/// whether the key is bound to submitting, and `slash` the editor line read
/// as a slash command, if it is one.
pub fn idle_enter(
    busy: bool,
    overlay: bool,
    submit_key: bool,
    editor_text: &str,
    slash: Option<PendingSlash>,
    pending: &mut PendingOps,
) -> (r: KeyOutcome)
    ensures
        (r@, final(pending)@) == idle_enter_spec(busy, overlay, submit_key, editor_text@, slash, old(pending)@),
{
    if busy || !submit_key || overlay || is_blank(editor_text) {
        return no_key_effect(false);
    }
    match slash {
        Some(s) => {
            if matches!(s, PendingSlash::Exit) {
                return cleared_editor(None, None, true);
            }
            pending.slash = Some(s);
            return cleared_editor(None, None, false);
        },
        None => {},
    }
    if is_unknown_slash(editor_text) {
        let w = first_word_of(editor_text);
        let note = concat3(
            "unknown command: ",
            w.as_str(),
            " (try /exit, /model, /theme, /mcp, /session, /session-resume, /session-new, /session-clone, /session-name, /session-tree, /session-fork, /session-compact, /session-export, /session-import, /reload, /trust, /history-copy-last)",
        );
        return cleared_editor(None, Some(note), false);
    }
    match parse_bang_command(editor_text) {
        BangParse::NotBang => {
            pending.submit = Some(editor_text.to_string());
            cleared_editor(Some(editor_text.to_string()), None, false)
        },
        BangParse::Empty { .. } => {
            cleared_editor(None, Some("empty bash command (try !ls or !!ls)".to_string()), false)
        },
        BangParse::Cmd { command, exclude_from_context } => {
            pending.bash = Some(PendingBash { command, exclude_from_context });
            cleared_editor(Some(editor_text.to_string()), None, false)
        },
    }
}

/// The host session's own state as values.
pub struct HostView {
    pub quit: bool,
    /// The UI model shows a busy phase.
    pub ui_busy: bool,
    pub run_active: bool,
    pub bash_active: bool,
    pub reload_active: bool,
    /// The reload's cancel token, if any: whether it was cancelled.
    pub reload_cancel: Option<bool>,
    pub reload_armed: bool,
    pub suppress_idle_esc: bool,
    pub suppress_xy_until_stream_end: bool,
    pub mcp_blocks_agent: bool,
    pub gated_submit: Option<Seq<char>>,
    pub paste_image: bool,
    pub pending: PendingView,
}

/// The host session's state and queued effects: whether it quits, what is
/// running (agent run, bash run, reload), the reload's cancel token, the
/// suppression latches, and the effects queued for the effects drain. The
/// terminal, the UI model and its widgets stay with the caller, which tells
/// the session when the UI model turns busy or idle.
pub struct HostSession {
    quit: bool,
    ui_busy: bool,
    run_active: bool,
    bash_active: bool,
    reload_active: bool,
    reload_cancel: Option<bool>,
    reload_armed: bool,
    suppress_idle_esc: bool,
    suppress_xy_until_stream_end: bool,
    mcp_blocks_agent: bool,
    gated_submit: Option<String>,
    paste_image: bool,
    pending: PendingOps,
}

impl View for HostSession {
    type V = HostView;

    closed spec fn view(&self) -> HostView {
        HostView {
            quit: self.quit,
            ui_busy: self.ui_busy,
            run_active: self.run_active,
            bash_active: self.bash_active,
            reload_active: self.reload_active,
            reload_cancel: self.reload_cancel,
            reload_armed: self.reload_armed,
            suppress_idle_esc: self.suppress_idle_esc,
            suppress_xy_until_stream_end: self.suppress_xy_until_stream_end,
            mcp_blocks_agent: self.mcp_blocks_agent,
            gated_submit: text_of(self.gated_submit),
            paste_image: self.paste_image,
            pending: self.pending@,
        }
    }
}

/// Nothing queued.
pub open spec fn no_pending() -> PendingView {
    PendingView {
        submit: None,
        steer: None,
        follow_up: None,
        abort: false,
        dequeue: false,
        slash: None,
        bash: None,
        footer_token_refresh: false,
    }
}

/// A fresh session: idle, nothing running, nothing queued.
pub open spec fn fresh_host() -> HostView {
    HostView {
        quit: false,
        ui_busy: false,
        run_active: false,
        bash_active: false,
        reload_active: false,
        reload_cancel: None,
        reload_armed: false,
        suppress_idle_esc: false,
        suppress_xy_until_stream_end: false,
        mcp_blocks_agent: false,
        gated_submit: None,
        paste_image: false,
        pending: no_pending(),
    }
}

/// Busy: the UI model shows a busy phase, or an agent or bash run is
/// active.
pub open spec fn host_busy(h: HostView) -> bool {
    h.ui_busy || h.run_active || h.bash_active
}

impl HostSession {
    /// A fresh session (see [`fresh_host`]).
    pub fn new() -> (r: Self)
        ensures
            r@ == fresh_host(),
    {
        HostSession {
            quit: false,
            ui_busy: false,
            run_active: false,
            bash_active: false,
            reload_active: false,
            reload_cancel: None,
            reload_armed: false,
            suppress_idle_esc: false,
            suppress_xy_until_stream_end: false,
            mcp_blocks_agent: false,
            gated_submit: None,
            paste_image: false,
            pending: PendingOps::default(),
        }
    }

    /// Whether the host quits.
    pub fn should_quit(&self) -> (b: bool)
        ensures
            b == self@.quit,
    {
        self.quit
    }

    /// Asks the host to quit.
    pub fn request_quit(&mut self)
        ensures
            final(self)@ == (HostView { quit: true, ..old(self)@ }),
    {
        self.quit = true;
    }

    /// Records whether the UI model shows a busy phase.
    pub fn set_ui_busy(&mut self, busy: bool)
        ensures
            final(self)@ == (HostView { ui_busy: busy, ..old(self)@ }),
    {
        self.ui_busy = busy;
    }

    /// Whether the host is busy (see [`host_busy`]).
    pub fn is_busy(&self) -> (b: bool)
        ensures
            b == host_busy(self@),
    {
        self.ui_busy || self.run_active || self.bash_active
    }

    /// Whether an agent run is active.
    pub fn run_active(&self) -> (b: bool)
        ensures
            b == self@.run_active,
    {
        self.run_active
    }

    /// Whether a bash run is active.
    pub fn bash_active(&self) -> (b: bool)
        ensures
            b == self@.bash_active,
    {
        self.bash_active
    }

    /// Whether a reload is in flight.
    pub fn reload_active(&self) -> (b: bool)
        ensures
            b == self@.reload_active,
    {
        self.reload_active
    }

    /// Whether the host wants busy ticks: busy, reloading, or a frame is
    /// requested.
    pub fn wants_busy_tick(&self, render_requested: bool) -> (b: bool)
        ensures
            b == (host_busy(self@) || self@.reload_active || render_requested),
    {
        self.is_busy() || self.reload_active || render_requested
    }

    /// Queues a reload.
    pub fn arm_reload(&mut self)
        ensures
            final(self)@ == (HostView { reload_armed: true, ..old(self)@ }),
    {
        self.reload_armed = true;
    }

    /// Whether a reload was queued; clears it.
    pub fn take_reload(&mut self) -> (b: bool)
        ensures
            b == old(self)@.reload_armed,
            final(self)@ == (HostView { reload_armed: false, ..old(self)@ }),
    {
        let b = self.reload_armed;
        self.reload_armed = false;
        b
    }

    /// Starts a reload: in flight, with a fresh cancel token.
    pub fn begin_reload(&mut self)
        ensures
            final(self)@ == (HostView { reload_active: true, reload_cancel: Some(false), ..old(self)@ }),
    {
        self.reload_active = true;
        self.reload_cancel = Some(false);
    }

    /// The reload's cancel token, if any: whether it was cancelled.
    pub fn reload_cancel_token(&self) -> (t: Option<bool>)
        ensures
            t == self@.reload_cancel,
    {
        self.reload_cancel
    }

    /// Cancels the reload's token, if there is one.
    pub fn request_reload_cancel(&mut self)
        ensures
            final(self)@ == (HostView {
                reload_cancel: match old(self)@.reload_cancel {
                    Some(_) => Some(true),
                    None => None,
                },
                ..old(self)@
            }),
    {
        if self.reload_cancel.is_some() {
            self.reload_cancel = Some(true);
        }
    }

    /// Ends a reload: no longer in flight, the token dropped, and the UI
    /// idle unless an agent or bash run is active.
    pub fn end_reload(&mut self)
        ensures
            final(self)@ == reload_ended(old(self)@),
    {
        self.reload_active = false;
        self.reload_cancel = None;
        if !self.run_active && !self.bash_active {
            self.ui_busy = false;
        }
    }

    /// A bash run starts: active, no abort queued, Esc no longer
    /// suppressed.
    pub fn begin_bash_exec(&mut self)
        ensures
            final(self)@ == (HostView {
                bash_active: true,
                suppress_idle_esc: false,
                pending: PendingView { abort: false, ..old(self)@.pending },
                ..old(self)@
            }),
    {
        self.pending.abort = false;
        self.suppress_idle_esc = false;
        self.bash_active = true;
    }

    /// A bash run ends (cancelled or not): inactive, no abort queued, and
    /// the UI idle unless an agent run is active.
    pub fn end_bash_exec(&mut self)
        ensures
            final(self)@ == bash_ended(old(self)@),
    {
        self.bash_active = false;
        self.pending.abort = false;
        if !self.run_active {
            self.ui_busy = false;
        }
    }

    /// An agent run starts: active, and neither Esc nor late agent events
    /// suppressed.
    pub fn on_run_started(&mut self)
        ensures
            final(self)@ == (HostView {
                run_active: true,
                suppress_idle_esc: false,
                suppress_xy_until_stream_end: false,
                ..old(self)@
            }),
    {
        self.suppress_idle_esc = false;
        self.suppress_xy_until_stream_end = false;
        self.run_active = true;
    }

    /// The agent's stream closed: no run active, late events no longer
    /// dropped.
    pub fn on_run_stream_closed(&mut self)
        ensures
            final(self)@ == (HostView { run_active: false, suppress_xy_until_stream_end: false, ..old(self)@ }),
    {
        self.run_active = false;
        self.suppress_xy_until_stream_end = false;
    }

    /// Holds a prompt until the agent is assembled.
    pub fn set_gated_submit(&mut self, prompt: String)
        ensures
            final(self)@ == (HostView { gated_submit: Some(prompt@), ..old(self)@ }),
    {
        self.gated_submit = Some(prompt);
    }

    /// The held prompt, leaving none held.
    pub fn take_gated_submit(&mut self) -> (r: Option<String>)
        ensures
            text_of(r) == old(self)@.gated_submit,
            final(self)@ == (HostView { gated_submit: None, ..old(self)@ }),
    {
        self.gated_submit.take()
    }

    /// Whether a prompt is held.
    pub fn has_gated_submit(&self) -> (b: bool)
        ensures
            b == self@.gated_submit.is_some(),
    {
        self.gated_submit.is_some()
    }

    /// Withdraws the assembling wait: the UI goes idle unless an agent or
    /// bash run is active.
    pub fn end_gated_assemble_idle(&mut self)
        ensures
            final(self)@ == (HostView {
                ui_busy: if old(self)@.run_active || old(self)@.bash_active {
                    old(self)@.ui_busy
                } else {
                    false
                },
                ..old(self)@
            }),
    {
        if !self.run_active && !self.bash_active {
            self.ui_busy = false;
        }
    }

    /// Queues pasting the clipboard image.
    pub fn request_paste_image(&mut self)
        ensures
            final(self)@ == (HostView { paste_image: true, ..old(self)@ }),
    {
        self.paste_image = true;
    }

    /// Whether pasting the clipboard image was queued; clears it.
    pub fn take_paste_image(&mut self) -> (b: bool)
        ensures
            b == old(self)@.paste_image,
            final(self)@ == (HostView { paste_image: false, ..old(self)@ }),
    {
        let b = self.paste_image;
        self.paste_image = false;
        b
    }

    /// Records whether MCP servers block the agent.
    pub fn set_mcp_blocks_agent(&mut self, blocks: bool)
        ensures
            final(self)@ == (HostView { mcp_blocks_agent: blocks, ..old(self)@ }),
    {
        self.mcp_blocks_agent = blocks;
    }

    /// Whether MCP servers block the agent.
    pub fn mcp_blocks_agent(&self) -> (b: bool)
        ensures
            b == self@.mcp_blocks_agent,
    {
        self.mcp_blocks_agent
    }

    /// Whether an abort was queued; clears it.
    pub fn take_abort(&mut self) -> (b: bool)
        ensures
            b == old(self)@.pending.abort,
            final(self)@ == (HostView { pending: PendingView { abort: false, ..old(self)@.pending }, ..old(self)@ }),
    {
        self.pending.take_abort()
    }

    /// A key press while busy, on this session's queued effects (see
    /// [`busy_input`]).
    pub fn handle_busy_key(
        &mut self,
        key: KeyPattern,
        kb: &KeybindingsManager,
        editor_text: &str,
        slash: Option<(PendingSlash, BusySlashPolicy, String)>,
        queued: Vec<String>,
    ) -> (r: KeyOutcome)
        ensures
            ({
                let (o, p) = busy_input_spec(
                    BusyInputState { busy: host_busy(old(self)@), overlay: false, bash_active: old(self)@.bash_active },
                    key,
                    kb@,
                    editor_text@,
                    match slash {
                        Some((s, pol, label)) => Some((s, pol, label@)),
                        None => None,
                    },
                    views(queued@),
                    old(self)@.pending,
                );
                &&& r@ == o
                &&& final(self)@ == (HostView {
                    pending: p,
                    suppress_xy_until_stream_end: old(self)@.suppress_xy_until_stream_end || o.flush_streaming,
                    quit: old(self)@.quit || o.quit,
                    ..old(self)@
                })
            }),
    {
        let st = BusyInputState { busy: self.is_busy(), overlay: false, bash_active: self.bash_active };
        let r = busy_input(&st, key, kb, editor_text, slash, queued, &mut self.pending);
        if r.flush_streaming {
            self.suppress_xy_until_stream_end = true;
        }
        if r.quit {
            self.quit = true;
        }
        r
    }
}

/// The session after a reload ends: not in flight, its token dropped, the
/// UI idle unless an agent or bash run is active.
pub open spec fn reload_ended(h: HostView) -> HostView {
    HostView {
        reload_active: false,
        reload_cancel: None,
        ui_busy: if h.run_active || h.bash_active {
            h.ui_busy
        } else {
            false
        },
        ..h
    }
}

/// The session after a bash run ends: not active, no abort queued, the UI
/// idle unless an agent run is active.
pub open spec fn bash_ended(h: HostView) -> HostView {
    HostView {
        bash_active: false,
        ui_busy: if h.run_active {
            h.ui_busy
        } else {
            false
        },
        pending: PendingView { abort: false, ..h.pending },
        ..h
    }
}

/// Whatever happened during them, a reload ends inactive with its token
/// gone, and a bash run ends inactive with no abort queued; with no agent
/// run active the session is then idle (after the reload, also with no bash
/// run active). Everything else is kept.
pub proof fn law_host_runs_end_clean(h: HostView)
    ensures
        !reload_ended(h).reload_active,
        reload_ended(h).reload_cancel.is_none(),
        !h.run_active && !h.bash_active ==> !host_busy(reload_ended(h)),
        reload_ended(h).pending == h.pending && reload_ended(h).quit == h.quit,
        !bash_ended(h).bash_active,
        !bash_ended(h).pending.abort,
        !h.run_active ==> !host_busy(bash_ended(h)),
        bash_ended(h).reload_active == h.reload_active && bash_ended(h).quit == h.quit,
{
}

} // verus!
