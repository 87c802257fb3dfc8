use xylitol::editor::{
    editor_argv, env_flag_value, prefer_real_editor, resolve_external_editor_command_from,
    split_words, strip_trailing_newline,
};

#[test]
fn resolve_prefers_visual_then_editor() {
    assert_eq!(
        resolve_external_editor_command_from(Some("vim"), Some("nano")).unwrap(),
        "vim"
    );
    assert_eq!(
        resolve_external_editor_command_from(None, Some("nano")).unwrap(),
        "nano"
    );
    assert_eq!(
        resolve_external_editor_command_from(Some("  "), Some("emacs")).unwrap(),
        "emacs"
    );
}

#[test]
fn resolve_missing_is_err_no_default() {
    let err = resolve_external_editor_command_from(None, None).unwrap_err();
    assert!(err.contains("$VISUAL") || err.contains("$EDITOR"), "{err}");
    let err = resolve_external_editor_command_from(Some(""), Some("   ")).unwrap_err();
    assert!(err.contains("Ctrl+G"), "{err}");
}

#[test]
fn resolve_trims_the_chosen_command() {
    assert_eq!(
        resolve_external_editor_command_from(Some("  code -w \n"), None).unwrap(),
        "code -w"
    );
    assert_eq!(
        resolve_external_editor_command_from(None, None).unwrap_err(),
        "set $VISUAL or $EDITOR to use external editor (Ctrl+G)"
    );
}

#[test]
fn editor_argv_splits_program_and_arguments() {
    let (prog, args) = editor_argv("  code  --wait -n ").unwrap();
    assert_eq!(prog, "code");
    assert_eq!(args, vec!["--wait".to_string(), "-n".to_string()]);
    let (prog, args) = editor_argv("vim").unwrap();
    assert_eq!(prog, "vim");
    assert!(args.is_empty());
    assert_eq!(editor_argv(" \t ").unwrap_err(), "empty editor command");
}

#[test]
fn split_words_matches_split_whitespace() {
    for s in ["", "a", "  a b  ", "a\tb\nc", "x  y"] {
        let expected: Vec<String> = s.split_whitespace().map(|w| w.to_string()).collect();
        assert_eq!(split_words(s), expected, "{s:?}");
    }
}

#[test]
fn strip_trailing_newline_removes_only_one() {
    assert_eq!(strip_trailing_newline("text\n"), "text");
    assert_eq!(strip_trailing_newline("text\n\n"), "text\n");
    assert_eq!(strip_trailing_newline("text"), "text");
    assert_eq!(strip_trailing_newline(""), "");
}

#[test]
fn env_flag_value_accepts_one_and_true() {
    assert!(env_flag_value(Some("1")));
    assert!(env_flag_value(Some("true")));
    assert!(env_flag_value(Some("TRUE")));
    assert!(env_flag_value(Some("TrUe")));
    assert!(!env_flag_value(Some("0")));
    assert!(!env_flag_value(Some("yes")));
    assert!(!env_flag_value(Some("true ")));
    assert!(!env_flag_value(None));
}

#[test]
fn prefer_real_editor_stub_wins() {
    assert!(!prefer_real_editor(true, true, true));
    assert!(prefer_real_editor(false, true, false));
    assert!(prefer_real_editor(false, false, true));
    assert!(!prefer_real_editor(false, false, false));
}
