//! Decisions of slash commands: the `/theme` argument, whether `/reload`
//! may start, what `/history-copy-last` copies, and what follows a
//! compaction's reply. Asking the agent and running them belong to the
//! caller.

use vstd::prelude::*;
use crate::editor::{ascii_lower, lower};
use crate::text::{chars_of, trim, trim_str, string_of};
use crate::host::PendingSlash;

verus! {

/// A text with its ASCII letters lowered (`str::to_ascii_lowercase`).
pub open spec fn ascii_lowered(s: Seq<char>) -> Seq<char> {
    s.map_values(|c: char| ascii_lower(c))
}

fn lowered(s: &str) -> (r: String)
    ensures
        r@ == ascii_lowered(s@),
{
    let v = chars_of(s);
    let mut out: Vec<char> = Vec::new();
    let mut i: usize = 0;
    while i < v.len()
        invariant
            i <= v@.len(),
            out@ == ascii_lowered(v@.take(i as int)),
        decreases v@.len() - i,
    {
        out.push(lower(v[i]));
        proof {
            assert(ascii_lowered(v@.take(i + 1)) =~= ascii_lowered(v@.take(i as int)).push(ascii_lower(v@[i as int])));
        }
        i = i + 1;
    }
    assert(v@.take(v@.len() as int) =~= v@);
    string_of(&out)
}

/// The message for an unknown `/theme` argument.
pub open spec fn unknown_theme_message(arg: Seq<char>) -> Seq<char> {
    "unknown theme `"@ + arg + "` (usage: /theme [dark|light|toggle])"@
}

/// The theme a `/theme` argument names: `dark` or `light` (in any ASCII
/// case) as lowered; `toggle` or `cycle` the other one of the current
/// preference (dark when none); anything else is an error.
pub open spec fn theme_for(current: Option<Seq<char>>, arg: Seq<char>) -> Result<Seq<char>, Seq<char>> {
    let a = ascii_lowered(arg);
    if a == "dark"@ || a == "light"@ {
        Ok(a)
    } else if a == "toggle"@ || a == "cycle"@ {
        let cur = match current {
            Some(c) => c,
            None => "dark"@,
        };
        if ascii_lowered(cur) == "light"@ {
            Ok("dark"@)
        } else {
            Ok("light"@)
        }
    } else {
        Err(unknown_theme_message(arg))
    }
}

/// Resolves a `/theme` argument as [`theme_for`] says.
pub fn resolve_theme_arg(current: Option<&str>, arg: &str) -> (r: Result<String, String>)
    ensures
        match theme_for(
            match current {
                Some(c) => Some(c@),
                None => None,
            },
            arg@,
        ) {
            Ok(t) => r matches Ok(s) && s@ == t,
            Err(m) => r matches Err(s) && s@ == m,
        },
{
    let a = lowered(arg);
    proof {
        reveal_strlit("dark");
        reveal_strlit("light");
    }
    if crate::text::same_text(a.as_str(), "dark") || crate::text::same_text(a.as_str(), "light") {
        return Ok(a);
    }
    if crate::text::same_text(a.as_str(), "toggle") || crate::text::same_text(a.as_str(), "cycle") {
        let cur = match current {
            Some(c) => lowered(c),
            None => lowered("dark"),
        };
        proof {
            assert(ascii_lowered("dark"@) =~= "dark"@);
        }
        if crate::text::same_text(cur.as_str(), "light") {
            return Ok("dark".to_string());
        } else {
            return Ok("light".to_string());
        }
    }
    let mut m = String::new();
    m.append("unknown theme `");
    m.append(arg);
    m.append("` (usage: /theme [dark|light|toggle])");
    Err(m)
}

/// What `/theme` does.
#[derive(Debug, Clone, PartialEq, Eq)]
pub enum ThemePlan {
    /// No argument: open the theme picker.
    OpenPicker,
    /// Apply this theme.
    Apply(String),
    /// Report this error.
    Error(String),
}

/// `/theme` with its optional argument: without one (or a blank one) the
/// picker opens; otherwise the trimmed argument is resolved.
pub fn theme_plan(current: Option<&str>, arg: Option<&str>) -> (r: ThemePlan)
    ensures
        match arg {
            Some(a) if trim(a@).len() > 0 => match theme_for(
                match current {
                    Some(c) => Some(c@),
                    None => None,
                },
                trim(a@),
            ) {
                Ok(t) => r matches ThemePlan::Apply(s) && s@ == t,
                Err(m) => r matches ThemePlan::Error(s) && s@ == m,
            },
            _ => r == ThemePlan::OpenPicker,
        },
{
    match arg {
        Some(a) => {
            let t = trim_str(a);
            if chars_of(t.as_str()).len() == 0 {
                return ThemePlan::OpenPicker;
            }
            match resolve_theme_arg(current, t.as_str()) {
                Ok(s) => ThemePlan::Apply(s),
                Err(m) => ThemePlan::Error(m),
            }
        },
        None => ThemePlan::OpenPicker,
    }
}

/// Whether `/reload` starts.
#[derive(Debug, Clone, Copy, PartialEq, Eq, Structural)]
pub enum ReloadGate {
    /// A run or a bash run is active: refused with a notice.
    Busy,
    /// A reload is already running: wait.
    Reloading,
    /// Arm the reload.
    Arm,
}

/// `/reload` is refused while a run or bash run is active, waits while a
/// reload is running, and is armed otherwise.
pub fn reload_gate(run_active: bool, bash_active: bool, reload_active: bool) -> (g: ReloadGate)
    ensures
        g == (if run_active || bash_active {
            ReloadGate::Busy
        } else if reload_active {
            ReloadGate::Reloading
        } else {
            ReloadGate::Arm
        }),
{
    if run_active || bash_active {
        ReloadGate::Busy
    } else if reload_active {
        ReloadGate::Reloading
    } else {
        ReloadGate::Arm
    }
}

/// A transcript entry as the copy command sees it: whether it is the
/// assistant's, and its text.
pub struct CopyEntry {
    pub assistant: bool,
    pub text: String,
}

/// The index of the last assistant entry, before `k`, whose text holds more
/// than white space.
pub open spec fn last_assistant_before(es: Seq<CopyEntry>, k: int) -> Option<int>
    decreases k,
{
    if k <= 0 {
        None
    } else if es[k - 1].assistant && trim(es[k - 1].text@).len() > 0 {
        Some(k - 1)
    } else {
        last_assistant_before(es, k - 1)
    }
}

/// The text `/history-copy-last` copies and the notice it shows once
/// copied: the last assistant message with more than white space and
/// `Copied last assistant message (n chars)`; `None` when there is none.
pub fn copy_last_plan(entries: &Vec<CopyEntry>) -> (r: Option<(String, String)>)
    ensures
        match last_assistant_before(entries@, entries@.len() as int) {
            Some(i) => r matches Some((t, n)) && t@ == entries@[i].text@ && n@ == "Copied last assistant message ("@
                + crate::text::decimal(entries@[i].text@.len()) + " chars)"@,
            None => r.is_none(),
        },
{
    let mut k = entries.len();
    while k > 0
        invariant
            k <= entries@.len(),
            last_assistant_before(entries@, entries@.len() as int) == last_assistant_before(entries@, k as int),
        decreases k,
    {
        let e = &entries[k - 1];
        if e.assistant && chars_of(trim_str(e.text.as_str()).as_str()).len() > 0 {
            let t = e.text.clone();
            let count = chars_of(e.text.as_str()).len();
            let mut n = String::new();
            n.append("Copied last assistant message (");
            crate::text::push_decimal(&mut n, count as u128);
            n.append(" chars)");
            return Some((t, n));
        }
        k = k - 1;
    }
    None
}

/// What `/session-compact` does after the agent's reply.
#[derive(Debug, Clone, PartialEq, Eq)]
pub enum CompactNext {
    /// Show the latest compaction, then refresh the token estimate.
    ShowCompaction,
    /// Report that nothing was compacted, then refresh the token estimate.
    Unchanged,
    /// Report the failure.
    Failed(String),
}

/// The reply to a compaction: `Ok(Some(did))` when the agent says whether
/// it compacted, `Ok(None)` for any other answer, or the error. A
/// compaction (or an answer that does not say) shows the latest
/// compaction; "nothing to compact" is reported as such; an error as
/// `/session-compact failed: ` and the error.
pub fn compact_next(reply: Result<Option<bool>, String>) -> (r: CompactNext)
    ensures
        match reply {
            Ok(Some(false)) => r == CompactNext::Unchanged,
            Ok(_) => r == CompactNext::ShowCompaction,
            Err(e) => r matches CompactNext::Failed(m) && m@ == "/session-compact failed: "@ + e@,
        },
{
    match reply {
        Ok(Some(false)) => CompactNext::Unchanged,
        Ok(_) => CompactNext::ShowCompaction,
        Err(e) => {
            let mut m = String::new();
            m.append("/session-compact failed: ");
            m.append(e.as_str());
            CompactNext::Failed(m)
        },
    }
}

/// What the host knows when a slash command runs: whether it is busy, and
/// the session's current leaf entry, if any.
pub struct SlashContext {
    pub busy: bool,
    pub leaf_entry_id: Option<String>,
}

/// A slash context as values.
pub struct SlashContextView {
    pub busy: bool,
    pub leaf_entry_id: Option<Seq<char>>,
}

impl View for SlashContext {
    type V = SlashContextView;

    open spec fn view(&self) -> SlashContextView {
        SlashContextView {
            busy: self.busy,
            leaf_entry_id: match self.leaf_entry_id {
                Some(l) => Some(l@),
                None => None,
            },
        }
    }
}

/// What a slash command does next.
#[derive(Debug, Clone, PartialEq, Eq)]
pub enum SlashPlan {
    /// Quit the host.
    Quit,
    /// Show this note and do nothing else.
    Note(String),
    /// Ask for the models and open the picker.
    OpenModels,
    /// Set the model.
    SetModel(String),
    /// List the debug scenes.
    ListDebugScenes,
    /// Load the debug scene (trimmed, lowered).
    LoadDebugScene(String),
    /// Open the session tree.
    OpenTree,
    /// Fork the session at this leaf entry.
    ForkAt(String),
    /// Compact the session with these instructions.
    Compact(Option<String>),
    /// Export the session to this path.
    Export(String),
    /// Ask to confirm importing this path.
    ConfirmImport(String),
    /// Show the session's statistics.
    SessionDump,
    /// Open the session-resume picker.
    OpenResume,
    /// Start a new session.
    SessionNew,
    /// Clone the session.
    SessionClone,
    /// Show the session name (`None`) or set it.
    SessionName(Option<String>),
    /// Reload the runtime.
    Reload,
    /// Copy the last assistant message.
    CopyLast,
    /// Run `/theme` with this argument (see [`theme_plan`]).
    Theme(Option<String>),
    /// Open the MCP panel.
    OpenMcp,
}

/// A slash plan as values.
pub enum SlashPlanView {
    Quit,
    Note(Seq<char>),
    OpenModels,
    SetModel(Seq<char>),
    ListDebugScenes,
    LoadDebugScene(Seq<char>),
    OpenTree,
    ForkAt(Seq<char>),
    Compact(Option<Seq<char>>),
    Export(Seq<char>),
    ConfirmImport(Seq<char>),
    SessionDump,
    OpenResume,
    SessionNew,
    SessionClone,
    SessionName(Option<Seq<char>>),
    Reload,
    CopyLast,
    Theme(Option<Seq<char>>),
    OpenMcp,
}

/// An optional text as values.
pub open spec fn opt_text(o: Option<String>) -> Option<Seq<char>> {
    match o {
        Some(t) => Some(t@),
        None => None,
    }
}

impl View for SlashPlan {
    type V = SlashPlanView;

    open spec fn view(&self) -> SlashPlanView {
        match self {
            SlashPlan::Quit => SlashPlanView::Quit,
            SlashPlan::Note(n) => SlashPlanView::Note(n@),
            SlashPlan::OpenModels => SlashPlanView::OpenModels,
            SlashPlan::SetModel(m) => SlashPlanView::SetModel(m@),
            SlashPlan::ListDebugScenes => SlashPlanView::ListDebugScenes,
            SlashPlan::LoadDebugScene(s) => SlashPlanView::LoadDebugScene(s@),
            SlashPlan::OpenTree => SlashPlanView::OpenTree,
            SlashPlan::ForkAt(l) => SlashPlanView::ForkAt(l@),
            SlashPlan::Compact(i) => SlashPlanView::Compact(opt_text(*i)),
            SlashPlan::Export(p) => SlashPlanView::Export(p@),
            SlashPlan::ConfirmImport(p) => SlashPlanView::ConfirmImport(p@),
            SlashPlan::SessionDump => SlashPlanView::SessionDump,
            SlashPlan::OpenResume => SlashPlanView::OpenResume,
            SlashPlan::SessionNew => SlashPlanView::SessionNew,
            SlashPlan::SessionClone => SlashPlanView::SessionClone,
            SlashPlan::SessionName(n) => SlashPlanView::SessionName(opt_text(*n)),
            SlashPlan::Reload => SlashPlanView::Reload,
            SlashPlan::CopyLast => SlashPlanView::CopyLast,
            SlashPlan::Theme(a) => SlashPlanView::Theme(opt_text(*a)),
            SlashPlan::OpenMcp => SlashPlanView::OpenMcp,
        }
    }
}

/// The note for a fork with no leaf entry.
pub open spec fn no_leaf_note() -> Seq<char> {
    "fork failed: no leaf (send a message first, or /session-tree then Shift+F)"@
}

/// What a slash command does: `/exit` quits; while busy, the models picker,
/// session tree, fork, import, resume picker, new and cloned sessions,
/// reload and theme are refused with a note; a fork needs a leaf entry; a
/// debug scene argument (trimmed, lowered) that is empty or `list` lists
/// the scenes; a usage message is shown as a note; everything else goes
/// ahead.
pub open spec fn slash_spec(ctx: SlashContextView, cmd: PendingSlash) -> SlashPlanView {
    let busy = ctx.busy;
    match cmd {
        PendingSlash::Exit => SlashPlanView::Quit,
        PendingSlash::OpenModels => if busy {
            SlashPlanView::Note("models picker unavailable while busy"@)
        } else {
            SlashPlanView::OpenModels
        },
        PendingSlash::SetModel(m) => SlashPlanView::SetModel(m@),
        PendingSlash::DebugScene(sc) => {
            let s = ascii_lowered(trim(sc@));
            if s.len() == 0 || s == "list"@ {
                SlashPlanView::ListDebugScenes
            } else {
                SlashPlanView::LoadDebugScene(s)
            }
        },
        PendingSlash::OpenTree => if busy {
            SlashPlanView::Note("session tree unavailable while busy"@)
        } else {
            SlashPlanView::OpenTree
        },
        PendingSlash::ForkAtLeaf => if busy {
            SlashPlanView::Note("fork unavailable while busy"@)
        } else {
            match ctx.leaf_entry_id {
                Some(l) => SlashPlanView::ForkAt(l),
                None => SlashPlanView::Note(no_leaf_note()),
            }
        },
        PendingSlash::Compact { instructions } => SlashPlanView::Compact(opt_text(instructions)),
        PendingSlash::Export { path } => SlashPlanView::Export(path@),
        PendingSlash::Import { path } => if busy {
            SlashPlanView::Note("session import unavailable while busy"@)
        } else {
            SlashPlanView::ConfirmImport(path@)
        },
        PendingSlash::SessionDump => SlashPlanView::SessionDump,
        PendingSlash::OpenSessionResume => if busy {
            SlashPlanView::Note("session resume unavailable while busy"@)
        } else {
            SlashPlanView::OpenResume
        },
        PendingSlash::SessionNew => if busy {
            SlashPlanView::Note("session new unavailable while busy"@)
        } else {
            SlashPlanView::SessionNew
        },
        PendingSlash::SessionClone => if busy {
            SlashPlanView::Note("session clone unavailable while busy"@)
        } else {
            SlashPlanView::SessionClone
        },
        PendingSlash::SessionName { name } => SlashPlanView::SessionName(opt_text(name)),
        PendingSlash::Reload => if busy {
            SlashPlanView::Note("agent busy — /reload refused"@)
        } else {
            SlashPlanView::Reload
        },
        PendingSlash::HistoryCopyLast => SlashPlanView::CopyLast,
        PendingSlash::Theme { arg } => if busy {
            SlashPlanView::Note("agent busy — /theme refused"@)
        } else {
            SlashPlanView::Theme(opt_text(arg))
        },
        PendingSlash::OpenMcp => SlashPlanView::OpenMcp,
        PendingSlash::Usage(m) => SlashPlanView::Note(m@),
    }
}

fn busy_or(busy: bool, note: &str, plan: SlashPlan) -> (r: SlashPlan)
    ensures
        r@ == if busy {
            SlashPlanView::Note(note@)
        } else {
            plan@
        },
{
    if busy {
        SlashPlan::Note(note.to_string())
    } else {
        plan
    }
}

/// What a slash command does, as [`slash_spec`] says.
pub fn slash_step(ctx: &SlashContext, cmd: PendingSlash) -> (r: SlashPlan)
    ensures
        r@ == slash_spec(ctx@, cmd),
{
    let busy = ctx.busy;
    match cmd {
        PendingSlash::Exit => SlashPlan::Quit,
        PendingSlash::OpenModels => busy_or(busy, "models picker unavailable while busy", SlashPlan::OpenModels),
        PendingSlash::SetModel(m) => SlashPlan::SetModel(m),
        PendingSlash::DebugScene(sc) => {
            let t = trim_str(sc.as_str());
            let s = lowered(t.as_str());
            proof {
                reveal_strlit("list");
            }
            if chars_of(s.as_str()).len() == 0 || crate::text::same_text(s.as_str(), "list") {
                SlashPlan::ListDebugScenes
            } else {
                SlashPlan::LoadDebugScene(s)
            }
        },
        PendingSlash::OpenTree => busy_or(busy, "session tree unavailable while busy", SlashPlan::OpenTree),
        PendingSlash::ForkAtLeaf => {
            if busy {
                SlashPlan::Note("fork unavailable while busy".to_string())
            } else {
                match &ctx.leaf_entry_id {
                    Some(l) => SlashPlan::ForkAt(l.clone()),
                    None => SlashPlan::Note(
                        "fork failed: no leaf (send a message first, or /session-tree then Shift+F)".to_string(),
                    ),
                }
            }
        },
        PendingSlash::Compact { instructions } => SlashPlan::Compact(instructions),
        PendingSlash::Export { path } => SlashPlan::Export(path),
        PendingSlash::Import { path } => {
            if busy {
                SlashPlan::Note("session import unavailable while busy".to_string())
            } else {
                SlashPlan::ConfirmImport(path)
            }
        },
        PendingSlash::SessionDump => SlashPlan::SessionDump,
        PendingSlash::OpenSessionResume => busy_or(
            busy,
            "session resume unavailable while busy",
            SlashPlan::OpenResume,
        ),
        PendingSlash::SessionNew => busy_or(busy, "session new unavailable while busy", SlashPlan::SessionNew),
        PendingSlash::SessionClone => busy_or(busy, "session clone unavailable while busy", SlashPlan::SessionClone),
        PendingSlash::SessionName { name } => SlashPlan::SessionName(name),
        PendingSlash::Reload => busy_or(busy, "agent busy — /reload refused", SlashPlan::Reload),
        PendingSlash::HistoryCopyLast => SlashPlan::CopyLast,
        PendingSlash::Theme { arg } => {
            if busy {
                SlashPlan::Note("agent busy — /theme refused".to_string())
            } else {
                SlashPlan::Theme(arg)
            }
        },
        PendingSlash::OpenMcp => SlashPlan::OpenMcp,
        PendingSlash::Usage(m) => SlashPlan::Note(m),
    }
}

} // verus!
