use xylitol::keybindings::{
    default_bindings, Key, KeyPattern, KeybindingsManager, MOD_CONTROL, MOD_NONE, MOD_SHIFT,
};

fn key(code: Key, mods: u8) -> KeyPattern {
    KeyPattern {
        code,
        modifiers: mods,
    }
}

fn ctrl_char(c: char) -> KeyPattern {
    key(Key::Char(c), MOD_CONTROL)
}

fn bare_char(c: char) -> KeyPattern {
    key(Key::Char(c), MOD_NONE)
}

fn ov(items: Vec<(&str, Vec<KeyPattern>)>) -> Vec<(String, Vec<KeyPattern>)> {
    items.into_iter().map(|(k, v)| (k.to_string(), v)).collect()
}

#[test]
fn matches_default_submit_on_enter() {
    let kb = KeybindingsManager::default();
    assert!(kb.matches(key(Key::Enter, MOD_NONE), "tui.input.submit"));
}

#[test]
fn matches_app_clear_on_ctrl_c() {
    let kb = KeybindingsManager::default();
    assert!(kb.matches(ctrl_char('c'), "app.clear"));
    assert!(!kb.matches(bare_char('c'), "app.clear"));
}

#[test]
fn no_match_for_unbound_key() {
    let kb = KeybindingsManager::default();
    assert!(!kb.matches(bare_char('q'), "tui.input.submit"));
}

#[test]
fn unknown_id_never_matches() {
    let kb = KeybindingsManager::default();
    assert!(!kb.matches(bare_char('a'), "does.not.exist"));
    assert!(kb.get_keys("does.not.exist").is_empty());
}

#[test]
fn matches_cursor_movement_defaults() {
    let kb = KeybindingsManager::default();
    assert!(kb.matches(key(Key::Left, MOD_NONE), "tui.editor.cursorLeft"));
    assert!(kb.matches(key(Key::Right, MOD_NONE), "tui.editor.cursorRight"));
    assert!(kb.matches(key(Key::Home, MOD_NONE), "tui.editor.cursorLineStart"));
    assert!(kb.matches(key(Key::End, MOD_NONE), "tui.editor.cursorLineEnd"));
    assert!(kb.matches(
        key(Key::Backspace, MOD_NONE),
        "tui.editor.deleteCharBackward"
    ));
}

#[test]
fn user_override_replaces_default() {
    let mut kb = KeybindingsManager::default();
    kb.rebuild(ov(vec![("tui.input.submit", vec![KeyPattern::ctrl(Key::Enter)])]));
    assert!(!kb.matches(key(Key::Enter, MOD_NONE), "tui.input.submit"));
    assert!(kb.matches(key(Key::Enter, MOD_CONTROL), "tui.input.submit"));
}

#[test]
fn user_override_multiple_keys() {
    let mut kb = KeybindingsManager::default();
    kb.rebuild(ov(vec![(
        "app.clear",
        vec![KeyPattern::bare(Key::Esc), KeyPattern::ctrl(Key::Char('c'))],
    )]));
    assert!(kb.matches(key(Key::Esc, MOD_NONE), "app.clear"));
    assert!(kb.matches(ctrl_char('c'), "app.clear"));
}

#[test]
fn no_conflicts_with_defaults() {
    let kb = KeybindingsManager::default();
    assert!(kb.get_conflicts().is_empty(), "defaults have no overlaps");
}

#[test]
fn detects_user_introduced_conflict() {
    let mut kb = KeybindingsManager::default();
    kb.rebuild(ov(vec![
        ("tui.input.submit", vec![KeyPattern::bare(Key::Enter)]),
        ("app.force_redraw", vec![KeyPattern::bare(Key::Enter)]),
    ]));
    let conflicts = kb.get_conflicts();
    assert_eq!(conflicts.len(), 1, "one conflicting pattern");
    assert_eq!(conflicts[0].pattern, KeyPattern::bare(Key::Enter));
    assert!(conflicts[0].ids.contains(&"tui.input.submit".to_string()));
    assert!(conflicts[0].ids.contains(&"app.force_redraw".to_string()));
}

#[test]
fn conflict_clears_after_rebuild_without_overlap() {
    let mut kb = KeybindingsManager::default();
    kb.rebuild(ov(vec![("app.force_redraw", vec![KeyPattern::bare(Key::Enter)])]));
    assert!(!kb.get_conflicts().is_empty());
    kb.rebuild(Vec::new());
    assert!(kb.get_conflicts().is_empty());
}

#[test]
fn pattern_eq_ignores_kind_compares_code_modifiers() {
    let a = key(Key::Char('a'), MOD_NONE);
    let b = key(Key::Char('a'), MOD_NONE);
    assert_eq!(a, b);
}

#[test]
fn pattern_distinguishes_modifiers() {
    let bare = KeyPattern::bare(Key::Char('c'));
    let ctrl = KeyPattern::ctrl(Key::Char('c'));
    assert_ne!(bare, ctrl);
    assert_ne!(KeyPattern::shift(Key::Tab), KeyPattern::bare(Key::Tab));
    assert_eq!(KeyPattern::shift(Key::Tab).modifiers, MOD_SHIFT);
}

#[test]
fn conflict_ids_are_sorted_and_complete() {
    let mut kb = KeybindingsManager::default();
    kb.rebuild(ov(vec![
        ("zeta.action", vec![ctrl_char('x')]),
        ("alpha.action", vec![ctrl_char('x'), ctrl_char('c')]),
        ("mid.action", vec![ctrl_char('x')]),
    ]));
    let conflicts = kb.get_conflicts();
    assert_eq!(conflicts.len(), 2);
    let x = conflicts.iter().find(|c| c.pattern == ctrl_char('x')).unwrap();
    assert_eq!(
        x.ids,
        vec![
            "alpha.action".to_string(),
            "mid.action".to_string(),
            "zeta.action".to_string()
        ]
    );
    let c = conflicts.iter().find(|c| c.pattern == ctrl_char('c')).unwrap();
    assert_eq!(c.ids, vec!["alpha.action".to_string(), "app.clear".to_string()]);
}

#[test]
fn later_override_of_same_id_wins_and_resolved_lists_all() {
    let mut kb = KeybindingsManager::default();
    kb.rebuild(ov(vec![
        ("app.exit", vec![ctrl_char('q')]),
        ("app.exit", vec![ctrl_char('w')]),
        ("custom.thing", vec![]),
    ]));
    assert_eq!(kb.get_keys("app.exit"), vec![ctrl_char('w')]);
    assert!(!kb.matches(ctrl_char('d'), "app.exit"));
    let resolved = kb.get_resolved();
    assert_eq!(resolved.len(), default_bindings().len() + 1);
    assert!(resolved.iter().any(|(id, keys)| id == "custom.thing" && keys.is_empty()));
}

#[test]
fn default_table_has_descriptions() {
    let bs = default_bindings();
    assert_eq!(bs[0].id, "tui.input.submit");
    assert_eq!(bs[0].description, "submit the current input");
    assert!(bs.iter().all(|b| b.default.len() == 1));
}
