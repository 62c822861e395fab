use niritiling::evaluator::evaluate_workspace;
use niritiling::model::WindowInfo;
use niritiling::snapshot::Snapshot;

fn win(
    id: u64,
    workspace_id: Option<u64>,
    is_floating: bool,
    pos: Option<(usize, usize)>,
    tile_width: u32,
) -> WindowInfo {
    WindowInfo { id, workspace_id, is_floating, pos_in_scrolling_layout: pos, tile_width }
}

fn snapshot_one_output(windows: Vec<WindowInfo>, ws: u64, width: u32) -> Snapshot {
    Snapshot::build(
        windows,
        vec![(String::from("DP-1"), Some(width))],
        vec![(ws, Some(String::from("DP-1")))],
    )
}

#[test]
fn missing_window_is_not_maximized() {
    let snap = snapshot_one_output(vec![], 5, 1000);
    assert!(!snap.is_maximized(1));
}

#[test]
fn window_without_workspace_is_not_maximized() {
    let snap = snapshot_one_output(vec![win(1, None, false, Some((0, 0)), 5000)], 5, 1000);
    assert!(!snap.is_maximized(1));
}

#[test]
fn workspace_without_output_is_not_maximized() {
    let snap = Snapshot::build(
        vec![win(1, Some(5), false, Some((0, 0)), 5000)],
        vec![(String::from("DP-1"), Some(1000))],
        vec![],
    );
    assert!(!snap.is_maximized(1));
}

#[test]
fn output_without_width_is_not_maximized() {
    let snap = Snapshot::build(
        vec![win(1, Some(5), false, Some((0, 0)), 5000)],
        vec![(String::from("DP-1"), None)],
        vec![(5, Some(String::from("DP-1")))],
    );
    assert!(!snap.is_maximized(1));
}

#[test]
fn non_positive_output_width_is_dropped_and_not_maximized() {
    let snap = Snapshot::build(
        vec![win(1, Some(5), false, Some((0, 0)), 5000)],
        vec![(String::from("DP-1"), Some(0))],
        vec![(5, Some(String::from("DP-1")))],
    );
    assert!(!snap.is_maximized(1));
}

#[test]
fn ratio_exactly_nine_tenths_is_not_maximized() {
    let snap = snapshot_one_output(vec![win(1, Some(5), false, Some((0, 0)), 9000)], 5, 10000);
    assert!(!snap.is_maximized(1));
}

#[test]
fn ratio_just_over_nine_tenths_is_maximized() {
    let snap = snapshot_one_output(
        vec![win(1, Some(5), false, Some((0, 0)), 9000001)],
        5,
        10000000,
    );
    assert!(snap.is_maximized(1));
}

#[test]
fn empty_workspace_needs_no_action() {
    let snap = snapshot_one_output(vec![win(1, Some(6), false, Some((0, 0)), 900)], 5, 1000);
    assert!(evaluate_workspace(&snap, 5).is_empty());
}

#[test]
fn single_unmaximized_window_gets_one_maximize() {
    let snap = snapshot_one_output(vec![win(1, Some(5), false, Some((0, 0)), 500)], 5, 1000);
    assert_eq!(evaluate_workspace(&snap, 5), vec![1]);
}

#[test]
fn single_already_maximized_window_is_left_alone() {
    let snap = snapshot_one_output(vec![win(1, Some(5), false, Some((0, 0)), 950)], 5, 1000);
    assert!(evaluate_workspace(&snap, 5).is_empty());
}

#[test]
fn floating_windows_are_not_evaluated() {
    let snap = snapshot_one_output(vec![win(1, Some(5), true, Some((0, 0)), 500)], 5, 1000);
    assert!(evaluate_workspace(&snap, 5).is_empty());
}

#[test]
fn two_maximized_columns_get_one_toggle_each() {
    let snap = snapshot_one_output(
        vec![
            win(1, Some(5), false, Some((0, 0)), 950),
            win(2, Some(5), false, Some((1, 0)), 950),
        ],
        5,
        1000,
    );
    assert_eq!(evaluate_workspace(&snap, 5), vec![1, 2]);
}

#[test]
fn only_the_maximized_column_is_toggled() {
    let snap = snapshot_one_output(
        vec![
            win(1, Some(5), false, Some((0, 0)), 400),
            win(2, Some(5), false, Some((1, 0)), 950),
        ],
        5,
        1000,
    );
    assert_eq!(evaluate_workspace(&snap, 5), vec![2]);
}

#[test]
fn stacked_windows_in_one_column_count_as_one_column() {
    let snap = snapshot_one_output(
        vec![
            win(1, Some(5), false, Some((0, 0)), 500),
            win(2, Some(5), false, Some((0, 1)), 500),
        ],
        5,
        1000,
    );
    assert_eq!(evaluate_workspace(&snap, 5), vec![1]);
}

#[test]
fn column_representative_is_the_first_window_listed() {
    let snap = snapshot_one_output(
        vec![
            win(1, Some(5), false, Some((0, 0)), 950),
            win(2, Some(5), false, Some((0, 1)), 950),
            win(3, Some(5), false, Some((1, 0)), 400),
        ],
        5,
        1000,
    );
    assert_eq!(evaluate_workspace(&snap, 5), vec![1]);
}

#[test]
fn windows_without_positions_occupy_no_column() {
    let snap = snapshot_one_output(
        vec![
            win(1, Some(5), false, None, 500),
            win(2, Some(5), false, None, 500),
        ],
        5,
        1000,
    );
    assert!(evaluate_workspace(&snap, 5).is_empty());
}

#[test]
fn second_window_in_new_column_unmaximizes_the_first() {
    let mut tracker = niritiling::tracker::Tracker::new();
    let w1 = win(1, Some(5), false, Some((0, 0)), 950);
    let affected = tracker.reduce(niritiling::tracker::Event::WindowsChanged {
        windows: vec![w1],
    });
    assert_eq!(affected, vec![5]);
    let snap1 = snapshot_one_output(vec![w1], 5, 1000);
    assert!(snap1.is_maximized(1));
    assert!(evaluate_workspace(&snap1, 5).is_empty());

    let w2 = win(2, Some(5), false, Some((1, 0)), 500);
    let affected2 = tracker.reduce(niritiling::tracker::Event::WindowOpenedOrChanged {
        window: w2,
    });
    assert_eq!(affected2, vec![5]);
    let snap2 = snapshot_one_output(vec![w1, w2], 5, 1000);
    assert_eq!(evaluate_workspace(&snap2, 5), vec![1]);
}
