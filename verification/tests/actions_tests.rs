use niritiling::faults::is_fatal_error;
use niritiling::performer::maximize_plan;
use niritiling::performer::ActionStep;

#[test]
fn acting_on_an_unfocused_window_saves_and_restores_focus() {
    let steps = maximize_plan(Some(7), 9);
    assert_eq!(
        steps,
        vec![
            ActionStep::FocusWindow { id: 9 },
            ActionStep::ToggleMaximize,
            ActionStep::FocusWindow { id: 7 },
        ]
    );
}

#[test]
fn acting_on_the_focused_window_skips_all_focus_steps() {
    let steps = maximize_plan(Some(9), 9);
    assert_eq!(steps, vec![ActionStep::ToggleMaximize]);
}

#[test]
fn acting_with_no_prior_focus_does_not_restore() {
    let steps = maximize_plan(None, 9);
    assert_eq!(
        steps,
        vec![ActionStep::FocusWindow { id: 9 }, ActionStep::ToggleMaximize]
    );
}

#[test]
fn connection_errors_are_fatal() {
    assert!(is_fatal_error(b"error while sending: connection reset by peer"));
    assert!(is_fatal_error(b"connection"));
}

#[test]
fn socket_errors_are_fatal() {
    assert!(is_fatal_error(b"reading event from niri: socket closed"));
    assert!(is_fatal_error(b"broken socket"));
}

#[test]
fn other_errors_are_not_fatal() {
    assert!(!is_fatal_error(b"unexpected response shape"));
    assert!(!is_fatal_error(b""));
    assert!(!is_fatal_error(b"connec"));
    assert!(!is_fatal_error(b"sock et"));
}
