use niritiling::model::WindowInfo;
use niritiling::model::WindowPosition;
use niritiling::tracker::Event;
use niritiling::tracker::Tracker;

fn win(
    id: u64,
    workspace_id: Option<u64>,
    is_floating: bool,
    pos: Option<(usize, usize)>,
    tile_width: u32,
) -> WindowInfo {
    WindowInfo { id, workspace_id, is_floating, pos_in_scrolling_layout: pos, tile_width }
}

#[test]
fn full_snapshot_tracks_exactly_the_tiled_placed_windows() {
    let mut tracker = Tracker::new();
    let windows = vec![
        win(1, Some(5), false, Some((0, 0)), 900),
        win(2, Some(5), true, Some((1, 0)), 900),
        win(3, None, false, Some((2, 0)), 900),
        win(4, Some(6), false, None, 900),
        win(5, Some(7), false, Some((3, 1)), 900),
    ];
    let mut affected = tracker.reduce(Event::WindowsChanged { windows });
    affected.sort_unstable();
    assert_eq!(affected, vec![5, 7]);
    assert_eq!(
        tracker.get(1),
        Some(WindowPosition { workspace_id: 5, column: 0, tile: 0 })
    );
    assert_eq!(tracker.get(2), None);
    assert_eq!(tracker.get(3), None);
    assert_eq!(tracker.get(4), None);
    assert_eq!(
        tracker.get(5),
        Some(WindowPosition { workspace_id: 7, column: 3, tile: 1 })
    );
}

#[test]
fn full_snapshot_later_duplicate_id_wins() {
    let mut tracker = Tracker::new();
    let windows = vec![
        win(1, Some(5), false, Some((0, 0)), 900),
        win(1, Some(6), false, Some((2, 1)), 900),
    ];
    tracker.reduce(Event::WindowsChanged { windows });
    assert_eq!(
        tracker.get(1),
        Some(WindowPosition { workspace_id: 6, column: 2, tile: 1 })
    );
}

#[test]
fn full_snapshot_applied_twice_affects_nothing_the_second_time() {
    let mut tracker = Tracker::new();
    let windows = vec![
        win(1, Some(5), false, Some((0, 0)), 900),
        win(2, Some(6), false, Some((1, 0)), 800),
    ];
    let first = tracker.reduce(Event::WindowsChanged { windows: windows.clone() });
    assert_eq!(first.len(), 2);
    let second = tracker.reduce(Event::WindowsChanged { windows });
    assert!(second.is_empty());
}

#[test]
fn full_snapshot_reports_workspaces_that_lost_windows() {
    let mut tracker = Tracker::new();
    tracker.reduce(Event::WindowsChanged {
        windows: vec![win(1, Some(5), false, Some((0, 0)), 900)],
    });
    let affected = tracker.reduce(Event::WindowsChanged { windows: vec![] });
    assert_eq!(affected, vec![5]);
    assert_eq!(tracker.get(1), None);
}

#[test]
fn window_that_becomes_floating_is_dropped_and_its_workspace_affected() {
    let mut tracker = Tracker::new();
    tracker.reduce(Event::WindowsChanged {
        windows: vec![win(1, Some(5), false, Some((0, 0)), 900)],
    });
    let affected = tracker.reduce(Event::WindowOpenedOrChanged {
        window: win(1, Some(5), true, Some((0, 0)), 900),
    });
    assert_eq!(affected, vec![5]);
    assert_eq!(tracker.get(1), None);
}

#[test]
fn untracked_floating_window_affects_nothing() {
    let mut tracker = Tracker::new();
    let affected = tracker.reduce(Event::WindowOpenedOrChanged {
        window: win(9, Some(5), true, Some((0, 0)), 900),
    });
    assert!(affected.is_empty());
    assert_eq!(tracker.get(9), None);
}

#[test]
fn opened_window_is_tracked_and_its_workspace_affected() {
    let mut tracker = Tracker::new();
    let affected = tracker.reduce(Event::WindowOpenedOrChanged {
        window: win(1, Some(5), false, Some((2, 0)), 900),
    });
    assert_eq!(affected, vec![5]);
    assert_eq!(
        tracker.get(1),
        Some(WindowPosition { workspace_id: 5, column: 2, tile: 0 })
    );
}

#[test]
fn window_moving_workspace_affects_old_and_new_workspace() {
    let mut tracker = Tracker::new();
    tracker.reduce(Event::WindowOpenedOrChanged {
        window: win(1, Some(5), false, Some((0, 0)), 900),
    });
    let affected = tracker.reduce(Event::WindowOpenedOrChanged {
        window: win(1, Some(6), false, Some((0, 0)), 900),
    });
    assert_eq!(affected, vec![6, 5]);
    assert_eq!(
        tracker.get(1),
        Some(WindowPosition { workspace_id: 6, column: 0, tile: 0 })
    );
}

#[test]
fn unchanged_window_affects_nothing() {
    let mut tracker = Tracker::new();
    tracker.reduce(Event::WindowOpenedOrChanged {
        window: win(1, Some(5), false, Some((0, 0)), 900),
    });
    let affected = tracker.reduce(Event::WindowOpenedOrChanged {
        window: win(1, Some(5), false, Some((0, 0)), 900),
    });
    assert!(affected.is_empty());
}

#[test]
fn tiled_window_without_position_is_left_as_tracked() {
    let mut tracker = Tracker::new();
    tracker.reduce(Event::WindowOpenedOrChanged {
        window: win(1, Some(5), false, Some((1, 0)), 900),
    });
    let affected = tracker.reduce(Event::WindowOpenedOrChanged {
        window: win(1, Some(5), false, None, 900),
    });
    assert!(affected.is_empty());
    assert_eq!(
        tracker.get(1),
        Some(WindowPosition { workspace_id: 5, column: 1, tile: 0 })
    );
}

#[test]
fn layout_change_updates_slot_and_affects_the_workspace() {
    let mut tracker = Tracker::new();
    tracker.reduce(Event::WindowOpenedOrChanged {
        window: win(1, Some(5), false, Some((0, 0)), 900),
    });
    let affected = tracker.reduce(Event::WindowLayoutsChanged {
        changes: vec![(1, Some((2, 1))), (7, Some((0, 0))), (1, None)],
    });
    assert_eq!(affected, vec![5]);
    assert_eq!(
        tracker.get(1),
        Some(WindowPosition { workspace_id: 5, column: 2, tile: 1 })
    );
    assert_eq!(tracker.get(7), None);
}

#[test]
fn layout_change_with_same_slot_affects_nothing() {
    let mut tracker = Tracker::new();
    tracker.reduce(Event::WindowOpenedOrChanged {
        window: win(1, Some(5), false, Some((0, 0)), 900),
    });
    let affected = tracker.reduce(Event::WindowLayoutsChanged {
        changes: vec![(1, Some((0, 0)))],
    });
    assert!(affected.is_empty());
}

#[test]
fn closing_a_tracked_window_removes_it_and_affects_its_workspace() {
    let mut tracker = Tracker::new();
    tracker.reduce(Event::WindowOpenedOrChanged {
        window: win(1, Some(5), false, Some((0, 0)), 900),
    });
    let affected = tracker.reduce(Event::WindowClosed { id: 1 });
    assert_eq!(affected, vec![5]);
    assert_eq!(tracker.get(1), None);
}

#[test]
fn closing_an_untracked_window_affects_nothing() {
    let mut tracker = Tracker::new();
    let affected = tracker.reduce(Event::WindowClosed { id: 42 });
    assert!(affected.is_empty());
}

#[test]
fn ignored_events_affect_nothing() {
    let mut tracker = Tracker::new();
    let affected = tracker.reduce(Event::Ignored);
    assert!(affected.is_empty());
}
