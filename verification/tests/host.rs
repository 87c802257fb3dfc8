use xylitol::host::{
    is_too_small, layout_mode_for, looks_like_unknown_slash_command, parse_bang_command,
    reload_notice_title, BangParse, LayoutMode, PendingBash, PendingOps, PendingSlash, MIN_COLS,
    MIN_ROWS, TOO_SMALL_HINT,
};

#[test]
fn bang_parse_helpers() {
    assert_eq!(parse_bang_command("hi"), BangParse::NotBang);
    assert_eq!(
        parse_bang_command("!"),
        BangParse::Empty {
            exclude_from_context: false
        }
    );
    assert_eq!(
        parse_bang_command("!!"),
        BangParse::Empty {
            exclude_from_context: true
        }
    );
    assert_eq!(
        parse_bang_command("  ! ls -la "),
        BangParse::Cmd {
            command: "ls -la".into(),
            exclude_from_context: false
        }
    );
}

#[test]
fn bang_parse_double_bang_command_and_blank() {
    assert_eq!(
        parse_bang_command("!!git status"),
        BangParse::Cmd {
            command: "git status".into(),
            exclude_from_context: true
        }
    );
    assert_eq!(
        parse_bang_command("  !!   "),
        BangParse::Empty {
            exclude_from_context: true
        }
    );
    assert_eq!(parse_bang_command(""), BangParse::NotBang);
    assert_eq!(parse_bang_command("echo !x"), BangParse::NotBang);
}

#[test]
fn too_small_below_minimum_either_way() {
    assert!(is_too_small(MIN_COLS - 1, MIN_ROWS));
    assert!(is_too_small(MIN_COLS, MIN_ROWS - 1));
    assert!(!is_too_small(MIN_COLS, MIN_ROWS));
    assert!(!is_too_small(120, 40));
    assert_eq!(TOO_SMALL_HINT, "请放大终端");
}

#[test]
fn layout_mode_follows_size() {
    assert_eq!(layout_mode_for(10, 3), LayoutMode::TooSmall);
    assert_ne!(layout_mode_for(80, 24), LayoutMode::TooSmall);
}

#[test]
fn pending_ops_take_once() {
    let mut p = PendingOps::default();
    p.submit = Some("hi".to_string());
    p.abort = true;
    p.bash = Some(PendingBash {
        command: "ls".to_string(),
        exclude_from_context: true,
    });
    assert_eq!(p.take_submit(), Some("hi".to_string()));
    assert_eq!(p.take_submit(), None);
    assert!(p.take_abort());
    assert!(!p.take_abort());
    let b = p.take_bash().unwrap();
    assert_eq!(b.command, "ls");
    assert!(b.exclude_from_context);
    assert!(p.take_bash().is_none());
    assert!(p.take_steer().is_none());
    assert!(p.take_follow_up().is_none());
    assert!(!p.take_dequeue());
    assert!(p.take_slash().is_none());
    assert!(!p.take_footer_token_refresh());
}

#[test]
fn pending_ops_take_leaves_others() {
    let mut p = PendingOps::default();
    p.steer = Some("s".to_string());
    p.follow_up = Some("f".to_string());
    p.dequeue = true;
    p.footer_token_refresh = true;
    p.slash = Some(PendingSlash::Exit);
    assert_eq!(p.take_steer(), Some("s".to_string()));
    assert_eq!(p.follow_up, Some("f".to_string()));
    assert!(p.take_dequeue());
    assert!(p.footer_token_refresh);
    assert_eq!(p.take_slash(), Some(PendingSlash::Exit));
    assert_eq!(p.take_follow_up(), Some("f".to_string()));
    assert!(p.take_footer_token_refresh());
}

#[test]
fn unknown_slash_is_single_token() {
    assert!(looks_like_unknown_slash_command("/frobnicate now"));
    assert!(looks_like_unknown_slash_command("  /x"));
    assert!(looks_like_unknown_slash_command("/"));
    assert!(!looks_like_unknown_slash_command("/tmp/xylitol-paste-1.png what is this"));
    assert!(!looks_like_unknown_slash_command("//unc"));
    assert!(!looks_like_unknown_slash_command("hello /x"));
    assert!(!looks_like_unknown_slash_command("   "));
}

#[test]
fn reload_notice_title_by_outcome() {
    assert_eq!(reload_notice_title(true), "Reload cancelled:");
    assert_eq!(reload_notice_title(false), "Reload:");
}
