//! The `/reload` loop's decisions: while the runtime reloads, ticks and
//! terminal input keep stepping the host; a failed step or closed input
//! cancels the reload, and the first step failure is what the reload
//! reports. Waiting for events and doing the actions belong to the caller.

use vstd::prelude::*;
use crate::host::reload_notice_title;

verus! {

/// Whether the reload is still waiting for the runtime.
#[derive(Debug, Clone, Copy, PartialEq, Eq, Structural)]
pub enum ReloadPhase {
    Waiting,
    Over,
}

/// The loop's state: the phase, whether cancelling was asked, and the
/// first failure of a host step.
#[derive(Debug, Clone, PartialEq, Eq)]
pub struct ReloadState {
    pub phase: ReloadPhase,
    pub cancel_requested: bool,
    pub step_error: Option<String>,
}

/// The loop's state as values.
pub struct ReloadStateView {
    pub phase: ReloadPhase,
    pub cancel_requested: bool,
    pub step_error: Option<Seq<char>>,
}

impl View for ReloadState {
    type V = ReloadStateView;

    open spec fn view(&self) -> ReloadStateView {
        ReloadStateView {
            phase: self.phase,
            cancel_requested: self.cancel_requested,
            step_error: match self.step_error {
                Some(e) => Some(e@),
                None => None,
            },
        }
    }
}

/// What happened during the reload.
#[derive(Debug, PartialEq, Eq)]
pub enum ReloadEvent {
    /// A tick stepped the host: `Err` with the step's failure.
    Tick(Result<(), String>),
    /// A terminal event stepped the host: `Err` with the step's failure.
    Input(Result<(), String>),
    /// Reading the terminal failed.
    InputError(String),
    /// The terminal input ended.
    InputClosed,
    /// The runtime reload finished: whether it was cancelled and whether a
    /// step of it failed; or its error.
    Finished(Result<(bool, bool), String>),
}

/// A toast shown at the end of a reload.
#[derive(Debug, Clone, Copy, PartialEq, Eq, Structural)]
pub enum ReloadToast {
    Cancelled,
    Failed,
}

/// What the host does next.
#[derive(Debug, Clone, PartialEq, Eq)]
pub enum ReloadAction {
    /// Draw the frame.
    Render,
    /// Cancel the reload, then draw when `render`.
    Cancel { render: bool },
    /// End the reload and report the host step's failure.
    Fail(String),
    /// Report: the title line, the runtime's failure line when it failed,
    /// and the toast, if any.
    Report { title: String, runtime_failure: Option<String>, toast: Option<ReloadToast> },
    /// The event does not apply.
    Ignore,
}

/// An action as values.
pub enum ReloadActionView {
    Render,
    Cancel { render: bool },
    Fail(Seq<char>),
    Report { title: Seq<char>, runtime_failure: Option<Seq<char>>, toast: Option<ReloadToast> },
    Ignore,
}

impl View for ReloadAction {
    type V = ReloadActionView;

    open spec fn view(&self) -> ReloadActionView {
        match self {
            ReloadAction::Render => ReloadActionView::Render,
            ReloadAction::Cancel { render } => ReloadActionView::Cancel { render: *render },
            ReloadAction::Fail(e) => ReloadActionView::Fail(e@),
            ReloadAction::Report { title, runtime_failure, toast } => ReloadActionView::Report {
                title: title@,
                runtime_failure: match runtime_failure {
                    Some(f) => Some(f@),
                    None => None,
                },
                toast: *toast,
            },
            ReloadAction::Ignore => ReloadActionView::Ignore,
        }
    }
}

/// The event with its strings as values.
pub open spec fn reload_event_view(ev: ReloadEvent) -> (int, Option<Seq<char>>, Option<(bool, bool)>) {
    match ev {
        ReloadEvent::Tick(Ok(())) => (0, None, None),
        ReloadEvent::Tick(Err(e)) => (0, Some(e@), None),
        ReloadEvent::Input(Ok(())) => (1, None, None),
        ReloadEvent::Input(Err(e)) => (1, Some(e@), None),
        ReloadEvent::InputError(e) => (2, Some(e@), None),
        ReloadEvent::InputClosed => (3, None, None),
        ReloadEvent::Finished(Ok(r)) => (4, None, Some(r)),
        ReloadEvent::Finished(Err(e)) => (4, Some(e@), None),
    }
}

/// The first failure kept: an earlier one stays.
pub open spec fn keep_first(e: Option<Seq<char>>, new: Seq<char>) -> Option<Seq<char>> {
    match e {
        Some(x) => Some(x),
        None => Some(new),
    }
}

/// One step of the reload loop. While waiting: a tick or terminal event
/// that stepped the host draws, and a failed step is kept (the first one
/// only) and cancels; a failed read is kept and cancels; closed input
/// cancels; when the runtime finishes (the loop is then over and the kept
/// failure handed on), a kept step failure ends the reload with it, otherwise the report's title says whether it was cancelled, a
/// runtime error becomes `runtime: failed — ` and the error, and a toast
/// marks a cancelled or failed reload. Once over, nothing applies.
pub open spec fn reload_step_spec(s: ReloadStateView, ev: ReloadEvent) -> (ReloadStateView, ReloadActionView) {
    if s.phase == ReloadPhase::Over {
        (s, ReloadActionView::Ignore)
    } else {
        let (kind, err, rep) = reload_event_view(ev);
        if kind == 0 || kind == 1 {
            match err {
                None => (s, ReloadActionView::Render),
                Some(e) => (
                    ReloadStateView { cancel_requested: true, step_error: keep_first(s.step_error, e), ..s },
                    ReloadActionView::Cancel { render: true },
                ),
            }
        } else if kind == 2 {
            (
                ReloadStateView { cancel_requested: true, step_error: keep_first(s.step_error, err.unwrap()), ..s },
                ReloadActionView::Cancel { render: false },
            )
        } else if kind == 3 {
            (ReloadStateView { cancel_requested: true, ..s }, ReloadActionView::Cancel { render: false })
        } else {
            let over = ReloadStateView { phase: ReloadPhase::Over, step_error: None, ..s };
            match s.step_error {
                Some(e) => (over, ReloadActionView::Fail(e)),
                None => match rep {
                    Some((cancelled, failed)) => (
                        over,
                        ReloadActionView::Report {
                            title: if cancelled {
                                "Reload cancelled:"@
                            } else {
                                "Reload:"@
                            },
                            runtime_failure: None,
                            toast: if cancelled {
                                Some(ReloadToast::Cancelled)
                            } else if failed {
                                Some(ReloadToast::Failed)
                            } else {
                                None
                            },
                        },
                    ),
                    None => (
                        over,
                        ReloadActionView::Report {
                            title: "Reload:"@,
                            runtime_failure: Some("runtime: failed — "@ + err.unwrap()),
                            toast: Some(ReloadToast::Failed),
                        },
                    ),
                },
            }
        }
    }
}

fn kept_first(e: Option<String>, new: String) -> (r: Option<String>)
    ensures
        (match r {
            Some(x) => Some(x@),
            None => None,
        }) == keep_first(
            match e {
                Some(x) => Some(x@),
                None => None,
            },
            new@,
        ),
{
    match e {
        Some(x) => Some(x),
        None => Some(new),
    }
}

/// One step of the reload loop, as [`reload_step_spec`] says.
pub fn reload_step(s: ReloadState, ev: ReloadEvent) -> (r: (ReloadState, ReloadAction))
    ensures
        (r.0@, r.1@) == reload_step_spec(s@, ev),
{
    if s.phase == ReloadPhase::Over {
        return (s, ReloadAction::Ignore);
    }
    match ev {
        ReloadEvent::Tick(Ok(())) | ReloadEvent::Input(Ok(())) => (s, ReloadAction::Render),
        ReloadEvent::Tick(Err(e)) | ReloadEvent::Input(Err(e)) => (
            ReloadState { phase: s.phase, cancel_requested: true, step_error: kept_first(s.step_error, e) },
            ReloadAction::Cancel { render: true },
        ),
        ReloadEvent::InputError(e) => (
            ReloadState { phase: s.phase, cancel_requested: true, step_error: kept_first(s.step_error, e) },
            ReloadAction::Cancel { render: false },
        ),
        ReloadEvent::InputClosed => (
            ReloadState { phase: s.phase, cancel_requested: true, step_error: s.step_error },
            ReloadAction::Cancel { render: false },
        ),
        ReloadEvent::Finished(res) => {
            let cancel_requested = s.cancel_requested;
            match s.step_error {
                Some(e) => (
                    ReloadState { phase: ReloadPhase::Over, cancel_requested, step_error: None },
                    ReloadAction::Fail(e),
                ),
                None => {
                    let over = ReloadState { phase: ReloadPhase::Over, cancel_requested, step_error: None };
                    match res {
                        Ok((cancelled, failed)) => {
                            let title = reload_notice_title(cancelled).to_string();
                            let toast = if cancelled {
                                Some(ReloadToast::Cancelled)
                            } else if failed {
                                Some(ReloadToast::Failed)
                            } else {
                                None
                            };
                            (over, ReloadAction::Report { title, runtime_failure: None, toast })
                        },
                        Err(e) => {
                            let mut line = String::new();
                            line.append("runtime: failed — ");
                            line.append(e.as_str());
                            (
                                over,
                                ReloadAction::Report {
                                    title: "Reload:".to_string(),
                                    runtime_failure: Some(line),
                                    toast: Some(ReloadToast::Failed),
                                },
                            )
                        },
                    }
                },
            }
        },
    }
}

/// The events applied in order: the state after them and the actions.
pub open spec fn reload_run(s: ReloadStateView, evs: Seq<ReloadEvent>) -> (ReloadStateView, Seq<ReloadActionView>)
    decreases evs.len(),
{
    if evs.len() == 0 {
        (s, seq![])
    } else {
        let (s1, acts) = reload_run(s, evs.drop_last());
        let (s2, a) = reload_step_spec(s1, evs.last());
        (s2, acts.push(a))
    }
}

/// The failure an event carries as a host step or input failure, if any.
pub open spec fn step_failure(ev: ReloadEvent) -> Option<Seq<char>> {
    match ev {
        ReloadEvent::Tick(Err(e)) => Some(e@),
        ReloadEvent::Input(Err(e)) => Some(e@),
        ReloadEvent::InputError(e) => Some(e@),
        _ => None,
    }
}

/// The first step failure: the one already kept, else the first among the
/// events.
pub open spec fn first_failure(kept: Option<Seq<char>>, evs: Seq<ReloadEvent>) -> Option<Seq<char>>
    decreases evs.len(),
{
    if evs.len() == 0 {
        kept
    } else {
        match first_failure(kept, evs.drop_last()) {
            Some(e) => Some(e),
            None => step_failure(evs.last()),
        }
    }
}

/// Whether an event asks to cancel the reload.
pub open spec fn asks_cancel(ev: ReloadEvent) -> bool {
    step_failure(ev) is Some || ev == ReloadEvent::InputClosed
}

/// The reload as a whole: while the runtime has not finished, the loop
/// keeps waiting, keeps the first step failure, and has asked to cancel
/// exactly when some event failed or the input closed; when the runtime
/// then finishes, the reload is over with no failure kept (so it is
/// inactive on every way out), and it ends by reporting the first step
/// failure if there was one, otherwise by the report, whose title says
/// whether the runtime was cancelled.
pub proof fn law_reload_run(s: ReloadStateView, evs: Seq<ReloadEvent>, done: Result<(bool, bool), String>)
    requires
        s.phase == ReloadPhase::Waiting,
        forall|i: int| 0 <= i < evs.len() ==> !(#[trigger] evs[i] is Finished),
    ensures
        reload_run(s, evs).0.phase == ReloadPhase::Waiting,
        reload_run(s, evs).0.step_error == first_failure(s.step_error, evs),
        reload_run(s, evs).0.cancel_requested == (s.cancel_requested || exists|i: int|
            0 <= i < evs.len() && asks_cancel(#[trigger] evs[i])),
        ({
            let w = reload_run(s, evs).0;
            let (fin, act) = reload_step_spec(w, ReloadEvent::Finished(done));
            &&& fin.phase == ReloadPhase::Over
            &&& fin.step_error.is_none()
            &&& match first_failure(s.step_error, evs) {
                Some(e) => act == ReloadActionView::Fail(e),
                None => act is Report && match done {
                    Ok((cancelled, _)) => act->title == if cancelled {
                        "Reload cancelled:"@
                    } else {
                        "Reload:"@
                    },
                    Err(_) => act->title == "Reload:"@,
                },
            }
        }),
    decreases evs.len(),
{
    if evs.len() > 0 {
        let e0 = evs.drop_last();
        assert forall|i: int| 0 <= i < e0.len() implies !(#[trigger] e0[i] is Finished) by {
            assert(e0[i] == evs[i]);
        }
        law_reload_run(s, e0, done);
        let last = evs.last();
        assert(!(last is Finished)) by {
            assert(evs[evs.len() - 1] == last);
        }
        let c0 = exists|i: int| 0 <= i < e0.len() && asks_cancel(#[trigger] e0[i]);
        let c1 = exists|i: int| 0 <= i < evs.len() && asks_cancel(#[trigger] evs[i]);
        assert(c1 == (c0 || asks_cancel(last))) by {
            if c1 {
                let i = choose|i: int| 0 <= i < evs.len() && asks_cancel(#[trigger] evs[i]);
                if i < e0.len() {
                    assert(e0[i] == evs[i]);
                }
            }
            if c0 {
                let i = choose|i: int| 0 <= i < e0.len() && asks_cancel(#[trigger] e0[i]);
                assert(e0[i] == evs[i]);
            }
            if asks_cancel(last) {
                assert(evs[evs.len() - 1] == last);
            }
        }
    }
}

/// How reloading the keybindings went, with the file's path.
#[derive(Debug, Clone, PartialEq, Eq)]
pub enum KeybindingsReload {
    Applied { path: String },
    NoFile { path: String },
    Failed { path: String, error: String },
}

/// The notice line for reloading the keybindings.
pub open spec fn keybindings_line_spec(o: KeybindingsReload) -> Seq<char> {
    match o {
        KeybindingsReload::Applied { path } => "keybindings: ok — "@ + path@,
        KeybindingsReload::NoFile { path } => "keybindings: ok (no file) — "@ + path@,
        KeybindingsReload::Failed { path, error } => "keybindings: failed — "@ + path@ + " ("@ + error@ + ")"@,
    }
}

/// The notice line for reloading the keybindings, as
/// [`keybindings_line_spec`] says.
pub fn keybindings_line(o: &KeybindingsReload) -> (r: String)
    ensures
        r@ == keybindings_line_spec(*o),
{
    let mut r = String::new();
    match o {
        KeybindingsReload::Applied { path } => {
            r.append("keybindings: ok — ");
            r.append(path.as_str());
        },
        KeybindingsReload::NoFile { path } => {
            r.append("keybindings: ok (no file) — ");
            r.append(path.as_str());
        },
        KeybindingsReload::Failed { path, error } => {
            r.append("keybindings: failed — ");
            r.append(path.as_str());
            r.append(" (");
            r.append(error.as_str());
            r.append(")");
        },
    }
    r
}

/// How reloading the themes went: the kept preference, the failure, or no
/// preference at all.
#[derive(Debug, Clone, PartialEq, Eq)]
pub enum ThemesReload {
    Kept(String),
    Failed(String),
    NoPreference,
}

/// The notice line for reloading the themes.
pub open spec fn themes_line_spec(o: ThemesReload) -> Seq<char> {
    match o {
        ThemesReload::Kept(p) => "themes: ok — kept `"@ + p@ + "`"@,
        ThemesReload::Failed(e) => "themes: failed — "@ + e@,
        ThemesReload::NoPreference => "themes: unchanged (no preference; kept current)"@,
    }
}

/// The notice line for reloading the themes, as [`themes_line_spec`] says.
pub fn themes_line(o: &ThemesReload) -> (r: String)
    ensures
        r@ == themes_line_spec(*o),
{
    let mut r = String::new();
    match o {
        ThemesReload::Kept(p) => {
            r.append("themes: ok — kept `");
            r.append(p.as_str());
            r.append("`");
        },
        ThemesReload::Failed(e) => {
            r.append("themes: failed — ");
            r.append(e.as_str());
        },
        ThemesReload::NoPreference => {
            r.append("themes: unchanged (no preference; kept current)");
        },
    }
    r
}

/// The lines of the reload notice: the title, the keybindings line, then
/// the runtime report's lines (or `runtime: failed — ` and its error), then
/// the themes line.
pub open spec fn reload_notice_lines(
    title: Seq<char>,
    keybindings: KeybindingsReload,
    runtime: Result<Seq<Seq<char>>, Seq<char>>,
    themes: ThemesReload,
) -> Seq<Seq<char>> {
    seq![title, keybindings_line_spec(keybindings)] + match runtime {
        Ok(lines) => lines,
        Err(e) => seq!["runtime: failed — "@ + e],
    } + seq![themes_line_spec(themes)]
}

/// The reload notice: its lines (see [`reload_notice_lines`]) joined by
/// line breaks. `runtime` is the runtime report's lines, or its error.
pub fn reload_notice(
    title: &str,
    keybindings: &KeybindingsReload,
    runtime: Result<Vec<String>, String>,
    themes: &ThemesReload,
) -> (r: String)
    ensures
        r@ == crate::style::join(
            reload_notice_lines(
                title@,
                *keybindings,
                match runtime {
                    Ok(v) => Ok(crate::style::views(v@)),
                    Err(e) => Err(e@),
                },
                *themes,
            ),
            seq!['\n'],
        ),
{
    let mut lines: Vec<String> = Vec::new();
    lines.push(title.to_string());
    lines.push(keybindings_line(keybindings));
    let ghost head = crate::style::views(lines@);
    let ghost rt: Result<Seq<Seq<char>>, Seq<char>> = match runtime {
        Ok(ref v) => Ok(crate::style::views(v@)),
        Err(ref e) => Err(e@),
    };
    let ghost body: Seq<Seq<char>> = match rt {
        Ok(b) => b,
        Err(e) => seq!["runtime: failed — "@ + e],
    };
    match runtime {
        Ok(v) => {
            let mut i: usize = 0;
            while i < v.len()
                invariant
                    i <= v@.len(),
                    body == crate::style::views(v@),
                    crate::style::views(lines@) == head + body.take(i as int),
                decreases v@.len() - i,
            {
                let ghost before = lines@;
                lines.push(v[i].clone());
                proof {
                    assert(crate::style::views(lines@) =~= crate::style::views(before).push(v@[i as int]@));
                    assert(body.take(i + 1) =~= body.take(i as int).push(body[i as int]));
                }
                i = i + 1;
            }
            assert(body.take(v@.len() as int) =~= body);
        },
        Err(e) => {
            let mut line = String::new();
            line.append("runtime: failed — ");
            line.append(e.as_str());
            let ghost before = lines@;
            lines.push(line);
            assert(crate::style::views(lines@) =~= crate::style::views(before).push(line@));
            assert(head + body =~= crate::style::views(before).push(line@));
        },
    }
    let ghost before = lines@;
    lines.push(themes_line(themes));
    proof {
        assert(crate::style::views(lines@) =~= crate::style::views(before).push(themes_line_spec(*themes)));
        assert(crate::style::views(lines@) =~= reload_notice_lines(title@, *keybindings, rt, *themes));
    }
    crate::style::join_with(&lines, '\n')
}

} // verus!
