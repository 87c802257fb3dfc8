use xylitol::outcome::{ctrl_outcome, enter_outcome, InputOutcome, InputResult, UxOutcome};

#[test]
fn outcomes_compare_equal() {
    assert_eq!(UxOutcome::Abort, UxOutcome::Abort);
    assert_eq!(
        UxOutcome::Submit("hi".into()),
        UxOutcome::Submit("hi".into())
    );
    assert_ne!(UxOutcome::Abort, UxOutcome::Quit);
}

#[test]
fn submit_and_slash_carry_payload() {
    match UxOutcome::Submit("hello".into()) {
        UxOutcome::Submit(s) => assert_eq!(s, "hello"),
        other => panic!("expected Submit, got {other:?}"),
    }
    match UxOutcome::Slash("model".into()) {
        UxOutcome::Slash(s) => assert_eq!(s, "model"),
        other => panic!("expected Slash, got {other:?}"),
    }
}

#[test]
fn debug_formats_readable() {
    assert_eq!(format!("{:?}", UxOutcome::Abort), "Abort");
    assert_eq!(
        format!("{:?}", UxOutcome::Submit("x".into())),
        "Submit(\"x\")"
    );
}

#[test]
fn input_result_defaults_to_not_handled() {
    assert_eq!(InputResult::default(), InputResult::NotHandled);
    assert_ne!(InputResult::Handled, InputResult::NotHandled);
}

#[test]
fn enter_submits_trimmed_or_routes_slash() {
    match enter_outcome("  hello world \n") {
        InputOutcome::Submit(s) => assert_eq!(s, "hello world"),
        _ => panic!("expected Submit"),
    }
    match enter_outcome(" /model gpt ") {
        InputOutcome::Slash(s) => assert_eq!(s, "model gpt"),
        _ => panic!("expected Slash"),
    }
    match enter_outcome("/") {
        InputOutcome::Slash(s) => assert_eq!(s, ""),
        _ => panic!("expected Slash"),
    }
    assert!(matches!(enter_outcome("   "), InputOutcome::Idle));
    assert!(matches!(enter_outcome(""), InputOutcome::Idle));
}

#[test]
fn ctrl_chords_abort_quit_or_nothing() {
    assert!(matches!(ctrl_outcome(Some('c')), InputOutcome::Abort));
    assert!(matches!(ctrl_outcome(Some('d')), InputOutcome::Quit));
    assert!(matches!(ctrl_outcome(Some('x')), InputOutcome::Idle));
    assert!(matches!(ctrl_outcome(None), InputOutcome::Idle));
}
