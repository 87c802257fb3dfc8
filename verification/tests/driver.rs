use xylitol::driver::{
    bash_output_chunks, paste_extension_of, BashResult, ModelInfo, QueueStats, ScriptedDriver,
    SessionListEntry,
    ThinkingLevel,
};

#[test]
fn c1470_scripted_driver_cycle_wraps_support_list() {
    let mut driver = ScriptedDriver::new();
    driver.set_thinking_levels(vec![ThinkingLevel::Off, ThinkingLevel::High]);
    assert_eq!(driver.thinking_level(), ThinkingLevel::Off);
    assert_eq!(driver.cycle_thinking_level().unwrap(), ThinkingLevel::High);
    assert_eq!(
        driver.cycle_thinking_level().unwrap(),
        ThinkingLevel::Off,
        "must wrap"
    );
    assert!(driver.set_thinking_level(ThinkingLevel::Xhigh).is_err());
    assert_eq!(driver.thinking_level(), ThinkingLevel::Off);
}

#[test]
fn thinking_levels_standard_cycle_and_errors() {
    let mut d = ScriptedDriver::new();
    assert_eq!(d.thinking_level(), ThinkingLevel::Off);
    assert_eq!(d.cycle_thinking_level().unwrap(), ThinkingLevel::Minimal);
    assert_eq!(d.cycle_thinking_level().unwrap(), ThinkingLevel::Low);
    assert_eq!(
        d.set_thinking_level(ThinkingLevel::Xhigh).unwrap_err(),
        "thinking level `xhigh` is not supported by the current model"
    );
    d.set_thinking_level(ThinkingLevel::High).unwrap();
    assert_eq!(d.cycle_thinking_level().unwrap(), ThinkingLevel::Off, "wraps");
    d.set_thinking_levels(vec![ThinkingLevel::Medium, ThinkingLevel::Xhigh]);
    assert_eq!(d.thinking_level(), ThinkingLevel::Medium, "falls to first supported");
    d.set_thinking_levels(Vec::new());
    assert_eq!(
        d.cycle_thinking_level().unwrap_err(),
        "current model has no thinking levels"
    );
    d.set_thinking_level(ThinkingLevel::Xhigh).unwrap();
    assert_eq!(d.thinking_level(), ThinkingLevel::Xhigh);
    assert_eq!(ThinkingLevel::Xhigh.as_str(), "xhigh");
    assert_eq!(ThinkingLevel::standard().len(), 5);
}

#[test]
fn steer_follow_up_and_clear_queue() {
    let mut d = ScriptedDriver::new();
    d.steer("a").unwrap();
    d.steer("b").unwrap();
    d.follow_up("c").unwrap();
    assert_eq!(
        d.queue_stats(),
        QueueStats {
            steer_count: 2,
            follow_up_count: 1
        }
    );
    assert_eq!(d.steer_calls, vec!["a".to_string(), "b".to_string()]);
    assert_eq!(d.follow_up_calls, vec!["c".to_string()]);
    d.clear_queue(true, false).unwrap();
    assert_eq!(d.queue_stats().steer_count, 0);
    assert_eq!(d.queue_stats().follow_up_count, 1);
    d.clear_queue(false, true).unwrap();
    assert_eq!(d.queue_stats().follow_up_count, 0);
    assert_eq!(d.clear_calls, vec![(true, false), (false, true)]);
}

#[test]
fn bash_runs_use_queue_then_default_and_hang_cancels() {
    let mut d = ScriptedDriver::new();
    d.push_bash_result(BashResult {
        output: "abcdef".into(),
        exit_code: Some(0),
        cancelled: false,
        timed_out: false,
        truncated: false,
        full_output_path: None,
    });
    let r = d.execute_bash("echo", false).unwrap().unwrap();
    assert_eq!(r.output, "abcdef");
    let r = d.execute_bash("ls", true).unwrap().unwrap();
    assert_eq!(r.output, "ok");
    assert_eq!(r.exit_code, Some(0));
    d.set_hang_bash_until_abort(true);
    assert!(d.execute_bash("sleep 9", false).unwrap().is_none());
    assert!(d.complete_pending_bash().is_none());
    d.abort();
    let r = d.complete_pending_bash().unwrap();
    assert!(r.cancelled);
    assert_eq!(r.exit_code, None);
    assert_eq!(r.output, "");
    assert_eq!(d.abort_count(), 1);
    assert_eq!(
        d.bash_calls(),
        vec![
            ("echo".to_string(), false),
            ("ls".to_string(), true),
            ("sleep 9".to_string(), false)
        ]
    );
}

#[test]
fn session_operations_are_recorded() {
    let mut d = ScriptedDriver::new();
    assert_eq!(d.session_id(), Some("scripted".to_string()));
    assert_eq!(d.switch_session("s2").unwrap(), "s2");
    assert_eq!(d.session_id(), Some("s2".to_string()));
    assert_eq!(d.switch_calls(), vec!["s2".to_string()]);
    d.set_leaf_entry_id(Some("leaf".to_string()));
    assert_eq!(d.leaf_entry_id(), Some("leaf".to_string()));
    assert_eq!(d.new_session().unwrap(), "new-1");
    assert_eq!(d.new_session().unwrap(), "new-2");
    assert_eq!(d.new_session_calls(), 2);
    assert_eq!(d.session_id(), Some("new-2".to_string()));
    assert_eq!(d.leaf_entry_id(), None);
    assert_eq!(d.get_session_name().unwrap(), None);
    assert!(!d.compact(None).unwrap());
    d.compact(Some("keep code".to_string())).unwrap();
    assert_eq!(d.compact_calls(), 2);
    assert_eq!(d.compact_instructions(), vec![None, Some("keep code".to_string())]);
    assert_eq!(d.export_html("/tmp/a.html").unwrap(), "/tmp/a.html");
    assert_eq!(d.export_jsonl("/tmp/a.jsonl").unwrap(), "/tmp/a.jsonl");
    assert_eq!(d.import_jsonl("/tmp/b.jsonl").unwrap(), "imported");
    assert_eq!(d.export_html_calls(), vec!["/tmp/a.html".to_string()]);
    assert_eq!(d.export_jsonl_calls(), vec!["/tmp/a.jsonl".to_string()]);
    assert_eq!(d.import_jsonl_calls(), vec!["/tmp/b.jsonl".to_string()]);
}

#[test]
fn labels_are_trimmed_and_blank_is_none() {
    let mut d = ScriptedDriver::new();
    d.append_entry_label("e1", Some("  important ")).unwrap();
    d.append_entry_label("e2", Some("   ")).unwrap();
    d.append_entry_label("e3", None).unwrap();
    assert_eq!(
        d.label_calls(),
        vec![
            ("e1".to_string(), Some("important".to_string())),
            ("e2".to_string(), None),
            ("e3".to_string(), None)
        ]
    );
}

#[test]
fn clipboard_values_are_used_once() {
    let mut d = ScriptedDriver::new();
    d.set_next_copy_pending_osc52(Some("\x1b]52;c;aGk=\x07".to_string()));
    assert_eq!(
        d.copy_text_to_clipboard("hi").unwrap(),
        Some("\x1b]52;c;aGk=\x07".to_string())
    );
    assert_eq!(d.copy_text_to_clipboard("again").unwrap(), None);
    assert_eq!(d.copy_text_calls(), vec!["hi".to_string(), "again".to_string()]);
    d.set_clipboard_text("pasted".to_string());
    assert_eq!(d.read_clipboard_text().unwrap(), Some("pasted".to_string()));
    assert_eq!(d.read_clipboard_text().unwrap(), None);
    d.set_dollar_skill_catalog_for_driver(vec![("lint".to_string(), "run lints".to_string())]);
    assert_eq!(
        d.dollar_skill_catalog(),
        vec![("lint".to_string(), "run lints".to_string())]
    );
}

fn entry(id: &str, name: Option<&str>) -> SessionListEntry {
    SessionListEntry {
        id: id.to_string(),
        name: name.map(|n| n.to_string()),
        first_message: Some(format!("{id} preview")),
        message_count: 2,
        modified_unix: Some(1_700_000_000),
        parent_session_id: None,
        tree_prefix: String::new(),
        cwd: Some(".".into()),
        path: None,
    }
}

#[test]
fn fresh_driver_offers_the_default_models() {
    let d = ScriptedDriver::new();
    let current = d.current_model().unwrap();
    assert_eq!(current.id, "fake");
    assert_eq!(current.display_name, "Fake");
    assert_eq!(current.context_window, 8_000);
    let ids: Vec<String> = d.available_models().into_iter().map(|m| m.id).collect();
    assert_eq!(ids, vec!["fake", "ornith-fast", "ornith-think"]);
    let think = &d.available_models()[2];
    assert!(think.thinking);
    assert_eq!(think.context_window, 32_000);
}

#[test]
fn empty_model_list_offers_the_current_model() {
    let mut d = ScriptedDriver::new();
    d.set_available_models(Vec::new());
    d.set_current_model(ModelInfo {
        id: "solo".into(),
        display_name: "Solo".into(),
        thinking: true,
        thinking_levels: vec![ThinkingLevel::Off, ThinkingLevel::High],
        context_window: 128,
    });
    let offered = d.available_models();
    assert_eq!(offered.len(), 1);
    assert_eq!(offered[0].id, "solo");
    assert_eq!(offered[0].thinking_levels, vec![ThinkingLevel::Off, ThinkingLevel::High]);
    assert_eq!(d.cycle_model().unwrap().id, "solo");
}

#[test]
fn select_model_names_the_model_by_its_id() {
    let mut d = ScriptedDriver::new();
    let m = d.select_model("ornith-think").unwrap();
    assert_eq!(m.id, "ornith-think");
    assert_eq!(m.display_name, "ornith-think");
    assert!(!m.thinking);
    assert!(m.thinking_levels.is_empty());
    assert_eq!(m.context_window, 8_000);
    assert_eq!(d.current_model().unwrap().id, "ornith-think");
}

#[test]
fn delete_session_drops_matching_entries_and_records_the_call() {
    let mut d = ScriptedDriver::new();
    d.set_session_list(vec![
        entry("older", Some("Old chat")),
        entry("newer", None),
        entry("older", None),
    ]);
    assert_eq!(d.list_sessions().unwrap().len(), 3);
    d.delete_session("older").unwrap();
    let left = d.list_sessions().unwrap();
    assert_eq!(left.len(), 1);
    assert_eq!(left[0].id, "newer");
    assert_eq!(left[0].first_message.as_deref(), Some("newer preview"));
    d.delete_session("missing").unwrap();
    assert_eq!(d.list_sessions().unwrap().len(), 1);
    assert_eq!(d.delete_session_calls(), vec!["older", "missing"]);
    assert_eq!(d.list_sessions_calls(), 3);
}

#[test]
fn clipboard_image_is_taken_once_with_its_extension() {
    let mut d = ScriptedDriver::new();
    assert!(matches!(d.take_clipboard_image(), Ok(None)));
    d.set_clipboard_image(vec![1, 2, 3], "image/jpeg".to_string());
    match d.take_clipboard_image() {
        Ok(Some((bytes, ext))) => {
            assert_eq!(bytes, vec![1, 2, 3]);
            assert_eq!(ext, "jpg");
        }
        other => panic!("expected an image, got {other:?}"),
    }
    assert!(matches!(d.take_clipboard_image(), Ok(None)));
    d.note_staged_paste_path("/tmp/xylitol-paste-1.jpg".to_string());
    assert_eq!(d.staged_paste_paths(), vec!["/tmp/xylitol-paste-1.jpg"]);
}

#[test]
fn clipboard_image_error_wins_once() {
    let mut d = ScriptedDriver::new();
    d.set_clipboard_image(vec![9], "image/gif".to_string());
    d.set_clipboard_image_error("no clipboard".to_string());
    match d.take_clipboard_image() {
        Err(e) => assert_eq!(e, "no clipboard"),
        other => panic!("expected the error, got {other:?}"),
    }
    match d.take_clipboard_image() {
        Ok(Some((_, ext))) => assert_eq!(ext, "gif"),
        other => panic!("expected the image, got {other:?}"),
    }
}

#[test]
fn paste_extension_by_mime_type() {
    assert_eq!(paste_extension_of("image/jpeg"), "jpg");
    assert_eq!(paste_extension_of("image/jpg"), "jpg");
    assert_eq!(paste_extension_of("image/webp"), "webp");
    assert_eq!(paste_extension_of("image/gif"), "gif");
    assert_eq!(paste_extension_of("image/png"), "png");
    assert_eq!(paste_extension_of("application/octet-stream"), "png");
}

#[test]
fn bash_output_streams_in_two_halves() {
    assert!(bash_output_chunks(&Vec::new()).is_empty());
    assert_eq!(bash_output_chunks(&b"x".to_vec()), vec![b"x".to_vec()]);
    assert_eq!(
        bash_output_chunks(&b"hello\n".to_vec()),
        vec![b"hel".to_vec(), b"lo\n".to_vec()]
    );
    assert_eq!(
        bash_output_chunks(&b"hello".to_vec()),
        vec![b"hel".to_vec(), b"lo".to_vec()]
    );
}

#[test]
fn hung_bash_stays_pending_until_an_abort_after_the_call() {
    let mut d = ScriptedDriver::new();
    d.set_hang_bash_until_abort(true);
    d.abort();
    assert!(d.execute_bash("sleep 1", false).unwrap().is_none());
    assert!(d.complete_pending_bash().is_none());
    assert!(d.complete_pending_bash().is_none());
    d.abort();
    let r = d.complete_pending_bash().unwrap();
    assert!(r.cancelled);
    assert_eq!(r.output, "");
    assert!(d.complete_pending_bash().is_none());
    assert_eq!(d.abort_count(), 2);
}

#[test]
fn queued_bash_results_come_back_in_push_order() {
    let mut d = ScriptedDriver::new();
    for out in ["one", "two", "three"] {
        d.push_bash_result(BashResult {
            output: out.into(),
            exit_code: Some(0),
            cancelled: false,
            timed_out: false,
            truncated: false,
            full_output_path: None,
        });
    }
    let outs: Vec<String> = (0..4).map(|_| d.execute_bash("x", false).unwrap().unwrap().output).collect();
    assert_eq!(outs, vec!["one", "two", "three", "ok"]);
}

#[test]
fn compaction_instructions_are_recorded_in_call_order() {
    let mut d = ScriptedDriver::new();
    d.compact(None).unwrap();
    d.compact(Some("please focus on errors".to_string())).unwrap();
    assert_eq!(d.compact_instructions(), vec![None, Some("please focus on errors".to_string())]);
    assert_eq!(d.compact_calls(), 2);
}
