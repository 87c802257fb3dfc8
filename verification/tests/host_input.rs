use xylitol::driver::{ForkPosition, ScriptedDriver};
use xylitol::pending_ui::{drain_continues, import_next, model_select_next, pending_ui_ops, resume_request_gate, ImportNext, PendingUiFlags, ResumeRequest, UiOp};
use xylitol::reload::{keybindings_line, reload_notice, themes_line, KeybindingsReload, ThemesReload};
use xylitol::slash::{slash_step, SlashContext, SlashPlan};
use xylitol::slash::{compact_next, CompactNext, copy_last_plan, reload_gate, resolve_theme_arg, theme_plan, CopyEntry, ReloadGate, ThemePlan};
use xylitol::pending_ui::{paste_after_image, paste_after_text, resume_delete_done, resume_delete_gate, resume_rename_done, PasteStep, ResumeGate};
use xylitol::reload::{reload_step, ReloadAction, ReloadEvent, ReloadPhase, ReloadState, ReloadToast};
use xylitol::bang::{bang_step, BangAction, BangEvent, BangPhase, BangState};
use xylitol::editor::{apply_editor_result, ctrl_g_plan, CtrlGPlan};
use xylitol::fork::{fork_plan, ForkEntry, ForkPlan};
use xylitol::host::{
    HostSession,
    busy_input, idle_enter, BusyInputState, BusySlashPolicy, PendingOps, PendingSlash,
};
use xylitol::keybindings::{Key, KeyPattern, KeybindingsManager};
use xylitol::style::StyledLine;
use xylitol::width::try_truncate;

const ALT: u8 = 4;

fn manager() -> KeybindingsManager {
    let mut kb = KeybindingsManager::default();
    kb.rebuild(vec![
        ("app.interrupt".to_string(), vec![KeyPattern::bare(Key::Esc)]),
        (
            "app.message.dequeue".to_string(),
            vec![KeyPattern { code: Key::Up, modifiers: ALT }],
        ),
        (
            "app.message.followUp".to_string(),
            vec![KeyPattern { code: Key::Enter, modifiers: ALT }],
        ),
    ]);
    kb
}

fn busy() -> BusyInputState {
    BusyInputState { busy: true, overlay: false, bash_active: false }
}

#[test]
fn busy_esc_queues_abort_and_drops_steer() {
    let kb = manager();
    let mut p = PendingOps::default();
    p.steer = Some("old".to_string());
    let r = busy_input(&busy(), KeyPattern::bare(Key::Esc), &kb, "text", None, vec![], &mut p);
    assert!(r.consumed && r.flush_streaming);
    assert!(p.abort);
    assert_eq!(p.steer, None);
}

#[test]
fn busy_enter_steers_the_editor_text() {
    let kb = manager();
    let mut p = PendingOps::default();
    let r = busy_input(&busy(), KeyPattern::bare(Key::Enter), &kb, "go on", None, vec![], &mut p);
    assert!(r.consumed);
    assert_eq!(r.editor_text, Some(String::new()));
    assert_eq!(r.remembered, Some("go on".to_string()));
    assert_eq!(p.steer, Some("go on".to_string()));
}

#[test]
fn busy_dequeue_joins_queued_and_current_text() {
    let kb = manager();
    let mut p = PendingOps::default();
    p.follow_up = Some("f".to_string());
    let r = busy_input(
        &busy(),
        KeyPattern { code: Key::Up, modifiers: ALT },
        &kb,
        "draft",
        None,
        vec!["a".to_string(), "b".to_string()],
        &mut p,
    );
    assert_eq!(r.editor_text, Some("a\n\nb\n\ndraft".to_string()));
    assert!(r.queued_taken && p.dequeue);
    assert_eq!(p.follow_up, None);
}

#[test]
fn busy_follow_up_queues_text() {
    let kb = manager();
    let mut p = PendingOps::default();
    let r = busy_input(
        &busy(),
        KeyPattern { code: Key::Enter, modifiers: ALT },
        &kb,
        "later",
        None,
        vec![],
        &mut p,
    );
    assert_eq!(p.follow_up, Some("later".to_string()));
    assert_eq!(r.editor_text, Some(String::new()));
}

#[test]
fn busy_refuses_rejected_slash_unknown_command_and_bang() {
    let kb = manager();
    let mut p = PendingOps::default();
    let r = busy_input(
        &busy(),
        KeyPattern::bare(Key::Enter),
        &kb,
        "/session-new",
        Some((PendingSlash::SessionNew, BusySlashPolicy::Reject, "/session-new".to_string())),
        vec![],
        &mut p,
    );
    assert_eq!(r.notice, Some("agent busy — /session-new refused".to_string()));
    let r = busy_input(&busy(), KeyPattern::bare(Key::Enter), &kb, "/nope x", None, vec![], &mut p);
    assert_eq!(r.notice, Some("agent busy — unknown command not steered: /nope".to_string()));
    let st = BusyInputState { busy: true, overlay: false, bash_active: true };
    let r = busy_input(&st, KeyPattern::bare(Key::Enter), &kb, "!ls", None, vec![], &mut p);
    assert_eq!(
        r.notice,
        Some("bash already running — wait or Esc to cancel (second ! rejected)".to_string())
    );
    assert_eq!(r.editor_text, None);
    assert_eq!(p.steer, None);
}

#[test]
fn busy_allowed_exit_quits_and_keys_are_ignored_when_idle() {
    let kb = manager();
    let mut p = PendingOps::default();
    let r = busy_input(
        &busy(),
        KeyPattern::bare(Key::Enter),
        &kb,
        "/exit",
        Some((PendingSlash::Exit, BusySlashPolicy::Allow, String::new())),
        vec![],
        &mut p,
    );
    assert!(r.quit);
    let idle = BusyInputState { busy: false, overlay: false, bash_active: false };
    let r = busy_input(&idle, KeyPattern::bare(Key::Esc), &kb, "x", None, vec![], &mut p);
    assert!(!r.consumed);
    assert!(!p.abort);
}

#[test]
fn idle_enter_submits_queues_bash_and_reports() {
    let mut p = PendingOps::default();
    let r = idle_enter(false, false, true, "hello", None, &mut p);
    assert!(r.consumed);
    assert_eq!(p.submit, Some("hello".to_string()));
    let r = idle_enter(false, false, true, "!!ls -la", None, &mut p);
    assert_eq!(r.remembered, Some("!!ls -la".to_string()));
    let b = p.bash.take().unwrap();
    assert_eq!(b.command, "ls -la");
    assert!(b.exclude_from_context);
    let r = idle_enter(false, false, true, "!", None, &mut p);
    assert_eq!(r.notice, Some("empty bash command (try !ls or !!ls)".to_string()));
    let r = idle_enter(false, false, true, "/bogus", None, &mut p);
    assert!(r.notice.unwrap().starts_with("unknown command: /bogus (try /exit"));
    let r = idle_enter(false, false, true, "/model", Some(PendingSlash::OpenModels), &mut p);
    assert!(r.consumed);
    assert_eq!(p.slash, Some(PendingSlash::OpenModels));
    let r = idle_enter(true, false, true, "hello", None, &mut p);
    assert!(!r.consumed);
    let r = idle_enter(false, false, true, "   ", None, &mut p);
    assert!(!r.consumed);
}

#[test]
fn bang_esc_cancels_and_finished_run_ends_clean() {
    let s0 = BangState {
        phase: BangPhase::Ready,
        bash_active: false,
        sink_registered: false,
        chunks_done: false,
    };
    let (s1, a) = bang_step(s0, BangEvent::Start);
    assert_eq!(a, BangAction::Begin);
    assert!(s1.bash_active && s1.sink_registered);
    let (s2, a) = bang_step(s1, BangEvent::Chunk);
    assert_eq!(a, BangAction::AppendChunk);
    let (s3, a) = bang_step(s2, BangEvent::Input { abort: true });
    assert_eq!(a, BangAction::Cancel);
    assert_eq!(s3.phase, BangPhase::Cancelled);
    assert!(!s3.bash_active && !s3.sink_registered);
    let (s4, a) = bang_step(s3, BangEvent::Tick);
    assert_eq!(a, BangAction::Ignore);
    assert_eq!(s4, s3);
    let (_, a) = bang_step(s1, BangEvent::BashFailed("boom".to_string()));
    assert_eq!(
        a,
        BangAction::Finish {
            push_result: false,
            notice: Some("bash failed: boom".to_string()),
            quit: false
        }
    );
}

#[test]
fn fork_before_user_message_strips_steer_tag() {
    let es = vec![
        ForkEntry { entry_id: None, user_text: None },
        ForkEntry { entry_id: Some("a1".to_string()), user_text: None },
        ForkEntry { entry_id: Some("u1".to_string()), user_text: Some("[steer] hi".to_string()) },
    ];
    assert_eq!(fork_plan(&es, "u1"), ForkPlan::Before { prefill: "hi".to_string() });
    assert_eq!(fork_plan(&es, "a1"), ForkPlan::At);
    assert_eq!(
        fork_plan(&es, "zz"),
        ForkPlan::NotFound("fork failed: entry not found: zz".to_string())
    );
}

#[test]
fn ctrl_g_plans_and_results() {
    assert_eq!(
        ctrl_g_plan(true, false, false, "héllo", Ok("vim".to_string())),
        CtrlGPlan::Stub {
            notice: "external editor stub (Ctrl+G) · 6 chars · $EDITOR not spawned".to_string()
        }
    );
    assert_eq!(
        ctrl_g_plan(true, false, true, "x", Err("no editor".to_string())),
        CtrlGPlan::NoEditor { error: "no editor".to_string() }
    );
    assert_eq!(
        ctrl_g_plan(true, false, true, "x", Ok("vim".to_string())),
        CtrlGPlan::Run { command: "vim".to_string(), text: "x".to_string() }
    );
    assert_eq!(ctrl_g_plan(false, false, true, "x", Ok("vim".to_string())), CtrlGPlan::NotHandled);
    assert_eq!(apply_editor_result("old", Ok(Some("new".to_string()))), ("new".to_string(), None));
    assert_eq!(
        apply_editor_result("old", Ok(None)),
        (
            "old".to_string(),
            Some("external editor exited non-zero — keeping original text".to_string())
        )
    );
    assert_eq!(
        apply_editor_result("old", Err("spawn".to_string())).1,
        Some("external editor failed: spawn".to_string())
    );
}

#[test]
fn try_truncate_cuts_with_ellipsis() {
    let line = StyledLine::raw("hello world");
    let t = try_truncate(&line, 5, "…").unwrap();
    assert_eq!(t.plain_text(), "hell…");
}

#[test]
fn reload_keeps_first_step_failure_and_reports() {
    let s0 = ReloadState { phase: ReloadPhase::Waiting, cancel_requested: false, step_error: None };
    let (s1, a) = reload_step(s0, ReloadEvent::Tick(Ok(())));
    assert_eq!(a, ReloadAction::Render);
    let (s2, a) = reload_step(s1, ReloadEvent::Input(Err("first".to_string())));
    assert_eq!(a, ReloadAction::Cancel { render: true });
    assert!(s2.cancel_requested);
    let (s3, _) = reload_step(s2, ReloadEvent::InputError("second".to_string()));
    assert_eq!(s3.step_error, Some("first".to_string()));
    let (s4, a) = reload_step(s3, ReloadEvent::Finished(Ok((false, false))));
    assert_eq!(a, ReloadAction::Fail("first".to_string()));
    assert_eq!(s4.phase, ReloadPhase::Over);

    let w = ReloadState { phase: ReloadPhase::Waiting, cancel_requested: false, step_error: None };
    let (_, a) = reload_step(w, ReloadEvent::Finished(Ok((true, false))));
    assert_eq!(
        a,
        ReloadAction::Report {
            title: "Reload cancelled:".to_string(),
            runtime_failure: None,
            toast: Some(ReloadToast::Cancelled)
        }
    );
    let w = ReloadState { phase: ReloadPhase::Waiting, cancel_requested: false, step_error: None };
    let (_, a) = reload_step(w, ReloadEvent::Finished(Err("boom".to_string())));
    assert_eq!(
        a,
        ReloadAction::Report {
            title: "Reload:".to_string(),
            runtime_failure: Some("runtime: failed — boom".to_string()),
            toast: Some(ReloadToast::Failed)
        }
    );
}

#[test]
fn paste_falls_back_to_clipboard_text() {
    assert_eq!(paste_after_image(Ok(Some("/tmp/a.png".to_string()))), PasteStep::Insert("/tmp/a.png".to_string()));
    assert_eq!(paste_after_image(Ok(None)), PasteStep::ReadText);
    assert_eq!(paste_after_image(Err("x".to_string())), PasteStep::ReadText);
    assert_eq!(paste_after_text(Ok(Some("hi".to_string()))), PasteStep::Insert("hi".to_string()));
    assert_eq!(
        paste_after_text(Ok(Some(String::new()))),
        PasteStep::ErrorNote("clipboard: no image or text".to_string())
    );
    assert_eq!(paste_after_text(Err("denied".to_string())), PasteStep::ErrorNote("clipboard: denied".to_string()));
}

#[test]
fn resume_picker_gates_and_reports() {
    assert_eq!(resume_delete_gate(true, Some("a"), "b"), ResumeGate::Busy);
    assert_eq!(resume_delete_gate(false, Some("a"), "a"), ResumeGate::ActiveSession);
    assert_eq!(resume_delete_gate(false, Some("a"), "b"), ResumeGate::Proceed);
    let d = resume_delete_done("s1", Ok(()));
    assert!(d.applied);
    assert_eq!(d.notice, "Deleted session s1");
    let d = resume_delete_done("s1", Err("io".to_string()));
    assert_eq!(d.status, Some("delete failed: io".to_string()));
    let r = resume_rename_done(Ok("New".to_string()));
    assert_eq!(r.notice, "Session renamed: New");
    let r = resume_rename_done(Err("bad".to_string()));
    assert!(!r.applied);
    assert_eq!(r.notice, "rename failed: bad");
}

#[test]
fn theme_argument_resolves() {
    assert_eq!(resolve_theme_arg(None, "DARK"), Ok("dark".to_string()));
    assert_eq!(resolve_theme_arg(Some("Light"), "toggle"), Ok("dark".to_string()));
    assert_eq!(resolve_theme_arg(None, "cycle"), Ok("light".to_string()));
    assert_eq!(
        resolve_theme_arg(None, "neon"),
        Err("unknown theme `neon` (usage: /theme [dark|light|toggle])".to_string())
    );
    assert_eq!(theme_plan(None, Some("  ")), ThemePlan::OpenPicker);
    assert_eq!(theme_plan(None, Some(" light ")), ThemePlan::Apply("light".to_string()));
}

#[test]
fn reload_gate_and_copy_last() {
    assert_eq!(reload_gate(true, false, false), ReloadGate::Busy);
    assert_eq!(reload_gate(false, false, true), ReloadGate::Reloading);
    assert_eq!(reload_gate(false, false, false), ReloadGate::Arm);
    let es = vec![
        CopyEntry { assistant: true, text: "héllo".to_string() },
        CopyEntry { assistant: false, text: "user".to_string() },
        CopyEntry { assistant: true, text: "   ".to_string() },
    ];
    assert_eq!(
        copy_last_plan(&es),
        Some(("héllo".to_string(), "Copied last assistant message (5 chars)".to_string()))
    );
    assert_eq!(copy_last_plan(&vec![]), None);
}

#[test]
fn compaction_reply_decides_next_step() {
    assert_eq!(compact_next(Ok(Some(true))), CompactNext::ShowCompaction);
    assert_eq!(compact_next(Ok(Some(false))), CompactNext::Unchanged);
    assert_eq!(compact_next(Ok(None)), CompactNext::ShowCompaction);
    assert_eq!(
        compact_next(Err("busy".to_string())),
        CompactNext::Failed("/session-compact failed: busy".to_string())
    );
}

#[test]
fn c1780_busy_resume_requests_are_refused() {
    for req in [
        ResumeRequest::Switch("s2".to_string()),
        ResumeRequest::Rename("s2".to_string(), "n".to_string()),
        ResumeRequest::Delete("s2".to_string()),
    ] {
        assert_eq!(resume_request_gate(true, Some("s1"), &req), ResumeGate::Busy);
        assert_eq!(resume_request_gate(false, Some("s1"), &req), ResumeGate::Proceed);
    }
    assert_eq!(
        resume_request_gate(false, Some("s1"), &ResumeRequest::Delete("s1".to_string())),
        ResumeGate::ActiveSession
    );
}

#[test]
fn drain_order_and_replies() {
    let f = PendingUiFlags {
        paste_image: true,
        tree_open: false,
        tree_travel: false,
        tree_fork: true,
        tree_label: false,
        model_select: false,
        theme_select: false,
        import_decision: true,
        resume_select: false,
        resume_rename: false,
        resume_delete: true,
    };
    assert_eq!(
        pending_ui_ops(f),
        vec![UiOp::PasteImage, UiOp::TreeFork, UiOp::ImportDecision, UiOp::ResumeDelete]
    );
    assert!(!drain_continues(UiOp::TreeFork, true));
    assert!(drain_continues(UiOp::TreeFork, false));
    assert_eq!(import_next(false, Ok(None)), ImportNext::NoticeAndClose("Import cancelled".to_string()));
    assert_eq!(import_next(true, Ok(Some("s9".to_string()))), ImportNext::SwitchTo("s9".to_string()));
    assert_eq!(
        import_next(true, Err("bad".to_string())),
        ImportNext::NoticeAndClose("/session-import failed: bad".to_string())
    );
    assert_eq!(model_select_next(Err("x".to_string()), Ok(())), (Some("/model failed: x".to_string()), false));
    assert_eq!(
        model_select_next(Ok(()), Err("y".to_string())),
        (Some("thinking level failed: y".to_string()), true)
    );
}

#[test]
fn slash_commands_plan() {
    let idle = SlashContext { busy: false, leaf_entry_id: Some("e7".to_string()) };
    let busy = SlashContext { busy: true, leaf_entry_id: None };
    assert_eq!(slash_step(&idle, PendingSlash::Exit), SlashPlan::Quit);
    assert_eq!(slash_step(&idle, PendingSlash::ForkAtLeaf), SlashPlan::ForkAt("e7".to_string()));
    assert_eq!(
        slash_step(&busy, PendingSlash::SessionNew),
        SlashPlan::Note("session new unavailable while busy".to_string())
    );
    assert_eq!(slash_step(&busy, PendingSlash::SessionDump), SlashPlan::SessionDump);
    assert_eq!(
        slash_step(&idle, PendingSlash::DebugScene("  LIST ".to_string())),
        SlashPlan::ListDebugScenes
    );
    assert_eq!(
        slash_step(&idle, PendingSlash::DebugScene(" Busy ".to_string())),
        SlashPlan::LoadDebugScene("busy".to_string())
    );
    let noleaf = SlashContext { busy: false, leaf_entry_id: None };
    assert_eq!(
        slash_step(&noleaf, PendingSlash::ForkAtLeaf),
        SlashPlan::Note(
            "fork failed: no leaf (send a message first, or /session-tree then Shift+F)".to_string()
        )
    );
    assert_eq!(slash_step(&idle, PendingSlash::Usage("usage: x".to_string())), SlashPlan::Note("usage: x".to_string()));
}

#[test]
fn reload_notice_lines_joined() {
    let kb = KeybindingsReload::Failed { path: "/k.json".to_string(), error: "bad".to_string() };
    assert_eq!(keybindings_line(&kb), "keybindings: failed — /k.json (bad)");
    assert_eq!(themes_line(&ThemesReload::Kept("dark".to_string())), "themes: ok — kept `dark`");
    let n = reload_notice(
        "Reload:",
        &KeybindingsReload::NoFile { path: "/k.json".to_string() },
        Err("boom".to_string()),
        &ThemesReload::NoPreference,
    );
    assert_eq!(
        n,
        "Reload:\nkeybindings: ok (no file) — /k.json\nruntime: failed — boom\nthemes: unchanged (no preference; kept current)"
    );
    let n = reload_notice(
        "Reload cancelled:",
        &KeybindingsReload::Applied { path: "/k".to_string() },
        Ok(vec!["a".to_string(), "b".to_string()]),
        &ThemesReload::Failed("t".to_string()),
    );
    assert_eq!(n, "Reload cancelled:\nkeybindings: ok — /k\na\nb\nthemes: failed — t");
}

#[test]
fn forks_are_recorded() {
    let mut d = ScriptedDriver::new();
    assert_eq!(d.fork_session("e1", ForkPosition::Before).unwrap(), "forked-child");
    d.fork_session("e2", ForkPosition::At).unwrap();
    assert_eq!(
        d.fork_calls(),
        vec![("e1".to_string(), ForkPosition::Before), ("e2".to_string(), ForkPosition::At)]
    );
}

#[test]
fn host_session_flags_follow_runs() {
    let mut h = HostSession::new();
    assert!(!h.is_busy());
    h.on_run_started();
    assert!(h.is_busy() && h.run_active());
    let d = ScriptedDriver::new();
    let gate = resume_request_gate(h.is_busy(), Some("scripted"), &ResumeRequest::Switch("other".to_string()));
    assert_eq!(gate, ResumeGate::Busy);
    assert!(d.switch_calls().is_empty());
    h.on_run_stream_closed();
    h.begin_bash_exec();
    assert!(h.bash_active());
    h.end_bash_exec();
    assert!(!h.is_busy());
    h.arm_reload();
    assert!(h.take_reload());
    assert!(!h.take_reload());
    h.begin_reload();
    assert_eq!(h.reload_cancel_token(), Some(false));
    h.request_reload_cancel();
    assert_eq!(h.reload_cancel_token(), Some(true));
    h.end_reload();
    assert!(!h.reload_active());
    assert_eq!(h.reload_cancel_token(), None);
    h.set_gated_submit("later".to_string());
    assert!(h.has_gated_submit());
    assert_eq!(h.take_gated_submit(), Some("later".to_string()));
    h.request_quit();
    assert!(h.should_quit());
}

#[test]
fn host_session_busy_key_queues_abort() {
    let kb = manager();
    let mut h = HostSession::new();
    h.on_run_started();
    let r = h.handle_busy_key(KeyPattern::bare(Key::Esc), &kb, "", None, vec![]);
    assert!(r.consumed);
    assert!(h.take_abort());
    assert!(!h.take_abort());
}
