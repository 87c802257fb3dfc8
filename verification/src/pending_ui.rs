//! Decisions of the pending-UI drain: pasting from the clipboard (an image
//! path, else the clipboard text), the busy gate of the session-resume
//! picker's switch, rename and delete requests, and what their replies
//! show. Asking the
//! driver and drawing belong to the caller.

use vstd::prelude::*;
use crate::text::chars_of;

verus! {

/// What pasting does once the clipboard image was asked for.
#[derive(Debug, Clone, PartialEq, Eq)]
pub enum PasteStep {
    /// Insert this text at the editor's cursor.
    Insert(String),
    /// No image: ask for the clipboard text.
    ReadText,
    /// Show this error note.
    ErrorNote(String),
}

/// A paste step as values.
pub enum PasteStepView {
    Insert(Seq<char>),
    ReadText,
    ErrorNote(Seq<char>),
}

impl View for PasteStep {
    type V = PasteStepView;

    open spec fn view(&self) -> PasteStepView {
        match self {
            PasteStep::Insert(t) => PasteStepView::Insert(t@),
            PasteStep::ReadText => PasteStepView::ReadText,
            PasteStep::ErrorNote(n) => PasteStepView::ErrorNote(n@),
        }
    }
}

/// After the image: a staged image's path is inserted; no image, or an
/// error, falls back to the clipboard text.
pub fn paste_after_image(image: Result<Option<String>, String>) -> (r: PasteStep)
    ensures
        match image {
            Ok(Some(path)) => r@ == PasteStepView::Insert(path@),
            _ => r@ == PasteStepView::ReadText,
        },
{
    match image {
        Ok(Some(path)) => PasteStep::Insert(path),
        _ => PasteStep::ReadText,
    }
}

/// After the text: non-empty text is inserted; none (or empty) is reported
/// as nothing to paste; an error as `clipboard: ` and the error.
pub fn paste_after_text(text: Result<Option<String>, String>) -> (r: PasteStep)
    ensures
        match text {
            Ok(Some(t)) => if t@.len() > 0 {
                r@ == PasteStepView::Insert(t@)
            } else {
                r@ == PasteStepView::ErrorNote("clipboard: no image or text"@)
            },
            Ok(None) => r@ == PasteStepView::ErrorNote("clipboard: no image or text"@),
            Err(e) => r@ == PasteStepView::ErrorNote("clipboard: "@ + e@),
        },
{
    match text {
        Ok(Some(t)) => {
            if chars_of(t.as_str()).len() > 0 {
                PasteStep::Insert(t)
            } else {
                PasteStep::ErrorNote("clipboard: no image or text".to_string())
            }
        },
        Ok(None) => PasteStep::ErrorNote("clipboard: no image or text".to_string()),
        Err(e) => {
            let mut n = String::new();
            n.append("clipboard: ");
            n.append(e.as_str());
            PasteStep::ErrorNote(n)
        },
    }
}

/// Whether a resume-picker action may go ahead.
#[derive(Debug, Clone, Copy, PartialEq, Eq, Structural)]
pub enum ResumeGate {
    /// Busy: show the busy-switch toast instead.
    Busy,
    /// The session to delete is the active one.
    ActiveSession,
    /// Ask the driver.
    Proceed,
}

/// Gate of a resume-picker deletion: refused while busy, and for the
/// active session.
pub fn resume_delete_gate(busy: bool, active: Option<&str>, id: &str) -> (g: ResumeGate)
    ensures
        g == (if busy {
            ResumeGate::Busy
        } else if active matches Some(a) && a@ == id@ {
            ResumeGate::ActiveSession
        } else {
            ResumeGate::Proceed
        }),
{
    if busy {
        return ResumeGate::Busy;
    }
    match active {
        Some(a) => if crate::text::same_text(a, id) {
            ResumeGate::ActiveSession
        } else {
            ResumeGate::Proceed
        },
        None => ResumeGate::Proceed,
    }
}

/// A request the session-resume picker queued.
#[derive(Debug, Clone, PartialEq, Eq)]
pub enum ResumeRequest {
    /// Switch to the session.
    Switch(String),
    /// Rename the session (id, new name).
    Rename(String, String),
    /// Delete the session.
    Delete(String),
}

/// Gate of any resume-picker request: while busy every request (switch,
/// rename or delete) is consumed without asking the driver and the
/// busy-switch toast is shown instead; otherwise a deletion of the active
/// session is refused (`Cannot delete the active session` as the picker's
/// status and as a notice), and anything else asks the driver.
pub fn resume_request_gate(busy: bool, active: Option<&str>, req: &ResumeRequest) -> (g: ResumeGate)
    ensures
        busy ==> g == ResumeGate::Busy,
        !busy ==> g == match req {
            ResumeRequest::Delete(id) => if active matches Some(a) && a@ == id@ {
                ResumeGate::ActiveSession
            } else {
                ResumeGate::Proceed
            },
            _ => ResumeGate::Proceed,
        },
{
    match req {
        ResumeRequest::Delete(id) => resume_delete_gate(busy, active, id.as_str()),
        _ => if busy {
            ResumeGate::Busy
        } else {
            ResumeGate::Proceed
        },
    }
}

/// The status line and notice for refusing to delete the active session.
pub fn active_session_notice() -> (s: &'static str)
    ensures
        s@ == "Cannot delete the active session"@,
{
    "Cannot delete the active session"
}

/// What the picker shows after a rename or a deletion: the notice, the
/// picker's status line, and whether the entry is updated (renamed or
/// removed).
pub struct ResumeDone {
    pub notice: String,
    pub status: Option<String>,
    pub applied: bool,
}

/// After a rename: the stored name is applied and announced; a failure is
/// both noted and put in the picker's status line.
pub fn resume_rename_done(res: Result<String, String>) -> (r: ResumeDone)
    ensures
        match res {
            Ok(stored) => r.applied && r.notice@ == "Session renamed: "@ + stored@ && r.status.is_none(),
            Err(e) => !r.applied && r.notice@ == "rename failed: "@ + e@ && (r.status matches Some(s) && s@
                == "rename failed: "@ + e@),
        },
{
    match res {
        Ok(stored) => {
            let mut n = String::new();
            n.append("Session renamed: ");
            n.append(stored.as_str());
            ResumeDone { notice: n, status: None, applied: true }
        },
        Err(e) => {
            let mut n = String::new();
            n.append("rename failed: ");
            n.append(e.as_str());
            let mut st = String::new();
            st.append("rename failed: ");
            st.append(e.as_str());
            ResumeDone { notice: n, status: Some(st), applied: false }
        },
    }
}

/// After a deletion of `id`: the entry is removed and the deletion
/// announced; a failure is both noted and put in the status line.
pub fn resume_delete_done(id: &str, res: Result<(), String>) -> (r: ResumeDone)
    ensures
        match res {
            Ok(()) => r.applied && r.notice@ == "Deleted session "@ + id@ && r.status.is_none(),
            Err(e) => !r.applied && r.notice@ == "delete failed: "@ + e@ && (r.status matches Some(s) && s@
                == "delete failed: "@ + e@),
        },
{
    match res {
        Ok(()) => {
            let mut n = String::new();
            n.append("Deleted session ");
            n.append(id);
            ResumeDone { notice: n, status: None, applied: true }
        },
        Err(e) => {
            let mut n = String::new();
            n.append("delete failed: ");
            n.append(e.as_str());
            let mut st = String::new();
            st.append("delete failed: ");
            st.append(e.as_str());
            ResumeDone { notice: n, status: Some(st), applied: false }
        },
    }
}

/// The kinds of queued UI work the drain handles, in the order it handles
/// them.
#[derive(Debug, Clone, Copy, PartialEq, Eq, Structural)]
pub enum UiOp {
    PasteImage,
    TreeOpen,
    TreeTravel,
    TreeFork,
    TreeLabel,
    ModelSelect,
    ThemeSelect,
    ImportDecision,
    ResumeSelect,
    ResumeRename,
    ResumeDelete,
}

/// Which kinds of UI work are queued.
#[derive(Debug, Clone, Copy, PartialEq, Eq, Structural)]
pub struct PendingUiFlags {
    pub paste_image: bool,
    pub tree_open: bool,
    pub tree_travel: bool,
    pub tree_fork: bool,
    pub tree_label: bool,
    pub model_select: bool,
    pub theme_select: bool,
    pub import_decision: bool,
    pub resume_select: bool,
    pub resume_rename: bool,
    pub resume_delete: bool,
}

/// `op` if `on`, nothing otherwise.
pub open spec fn op_if(on: bool, op: UiOp) -> Seq<UiOp> {
    if on {
        seq![op]
    } else {
        seq![]
    }
}

/// The queued work in drain order: paste, tree open, travel, fork, label,
/// model, theme, import, then the resume picker's switch, rename and
/// delete.
pub open spec fn drain_order(f: PendingUiFlags) -> Seq<UiOp> {
    op_if(f.paste_image, UiOp::PasteImage) + op_if(f.tree_open, UiOp::TreeOpen) + op_if(
        f.tree_travel,
        UiOp::TreeTravel,
    ) + op_if(f.tree_fork, UiOp::TreeFork) + op_if(f.tree_label, UiOp::TreeLabel) + op_if(
        f.model_select,
        UiOp::ModelSelect,
    ) + op_if(f.theme_select, UiOp::ThemeSelect) + op_if(f.import_decision, UiOp::ImportDecision) + op_if(
        f.resume_select,
        UiOp::ResumeSelect,
    ) + op_if(f.resume_rename, UiOp::ResumeRename) + op_if(f.resume_delete, UiOp::ResumeDelete)
}

fn push_if(v: &mut Vec<UiOp>, on: bool, op: UiOp)
    ensures
        final(v)@ == old(v)@ + op_if(on, op),
{
    if on {
        v.push(op);
    } else {
        assert(old(v)@ + op_if(on, op) =~= old(v)@);
    }
}

/// The queued UI work in drain order (see [`drain_order`]).
pub fn pending_ui_ops(f: PendingUiFlags) -> (v: Vec<UiOp>)
    ensures
        v@ == drain_order(f),
{
    let mut v: Vec<UiOp> = Vec::new();
    assert(v@ =~= Seq::<UiOp>::empty());
    push_if(&mut v, f.paste_image, UiOp::PasteImage);
    assert(v@ =~= op_if(f.paste_image, UiOp::PasteImage));
    push_if(&mut v, f.tree_open, UiOp::TreeOpen);
    push_if(&mut v, f.tree_travel, UiOp::TreeTravel);
    push_if(&mut v, f.tree_fork, UiOp::TreeFork);
    push_if(&mut v, f.tree_label, UiOp::TreeLabel);
    push_if(&mut v, f.model_select, UiOp::ModelSelect);
    push_if(&mut v, f.theme_select, UiOp::ThemeSelect);
    push_if(&mut v, f.import_decision, UiOp::ImportDecision);
    push_if(&mut v, f.resume_select, UiOp::ResumeSelect);
    push_if(&mut v, f.resume_rename, UiOp::ResumeRename);
    push_if(&mut v, f.resume_delete, UiOp::ResumeDelete);
    v
}

/// Whether the drain goes on after `op`: a fork whose reading of the
/// parent session's entries failed stops it, leaving the rest queued.
pub fn drain_continues(op: UiOp, fork_read_failed: bool) -> (b: bool)
    ensures
        b == !(op == UiOp::TreeFork && fork_read_failed),
{
    !(matches!(op, UiOp::TreeFork) && fork_read_failed)
}

/// What an import does next.
#[derive(Debug, Clone, PartialEq, Eq)]
pub enum ImportNext {
    /// Switch to the imported session and rebuild the transcript.
    SwitchTo(String),
    /// Show the notice and close the confirmation.
    NoticeAndClose(String),
}

/// The import confirmation's outcome: a rejection is announced as
/// cancelled; an accepted import's reply switches to the new session, is
/// announced as complete for any other answer, or reports the failure;
/// the confirmation closes in all but the switch.
pub fn import_next(accepted: bool, reply: Result<Option<String>, String>) -> (r: ImportNext)
    ensures
        !accepted ==> (r matches ImportNext::NoticeAndClose(n) && n@ == "Import cancelled"@),
        accepted ==> match reply {
            Ok(Some(id)) => r matches ImportNext::SwitchTo(s) && s@ == id@,
            Ok(None) => r matches ImportNext::NoticeAndClose(n) && n@ == "import complete"@,
            Err(e) => r matches ImportNext::NoticeAndClose(n) && n@ == "/session-import failed: "@ + e@,
        },
{
    if !accepted {
        return ImportNext::NoticeAndClose("Import cancelled".to_string());
    }
    match reply {
        Ok(Some(id)) => ImportNext::SwitchTo(id),
        Ok(None) => ImportNext::NoticeAndClose("import complete".to_string()),
        Err(e) => {
            let mut n = String::new();
            n.append("/session-import failed: ");
            n.append(e.as_str());
            ImportNext::NoticeAndClose(n)
        },
    }
}

/// The notices after choosing a model in the picker: a failed switch is
/// reported as `/model failed: ` and the error (and the picker stays); a
/// switch that went through closes the picker, with `thinking level
/// failed: ` and the error when setting the chosen thinking level failed.
/// Returns the notice, if any, and whether the picker closes.
pub fn model_select_next(set_model: Result<(), String>, set_thinking: Result<(), String>) -> (r: (Option<String>, bool))
    ensures
        match set_model {
            Err(e) => !r.1 && (r.0 matches Some(n) && n@ == "/model failed: "@ + e@),
            Ok(()) => r.1 && match set_thinking {
                Ok(()) => r.0.is_none(),
                Err(e) => r.0 matches Some(n) && n@ == "thinking level failed: "@ + e@,
            },
        },
{
    match set_model {
        Err(e) => {
            let mut n = String::new();
            n.append("/model failed: ");
            n.append(e.as_str());
            (Some(n), false)
        },
        Ok(()) => match set_thinking {
            Ok(()) => (None, true),
            Err(e) => {
                let mut n = String::new();
                n.append("thinking level failed: ");
                n.append(e.as_str());
                (Some(n), true)
            },
        },
    }
}

} // verus!
