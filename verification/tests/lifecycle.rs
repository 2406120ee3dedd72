use strata_core::lifecycle::{stopped_on_purpose, CANCELLED, SUPERSEDED_RUN, SUPERSEDED_SCAN};

#[test]
fn the_three_stop_words_are_stops_and_nothing_else_is() {
    assert!(stopped_on_purpose(CANCELLED));
    assert!(stopped_on_purpose(SUPERSEDED_RUN));
    assert!(stopped_on_purpose(SUPERSEDED_SCAN));
    assert!(stopped_on_purpose("cancelled"));
    assert!(!stopped_on_purpose("Cancelled"));
    assert!(!stopped_on_purpose("superseded"));
    assert!(!stopped_on_purpose("division by zero"));
    assert!(!stopped_on_purpose(""));
}

use strata_core::lifecycle::{Action, Lifecycle, QueryEnd, RunTag, Settled, WsId};

#[test]
fn a_new_dispatch_retires_the_snapshot_the_workspace_owned() {
    let mut lc = Lifecycle::new();
    assert!(!lc.busy());
    assert!(lc.begin_query(WsId(1), 10, RunTag(100), 5).is_empty());
    assert!(lc.is_running(WsId(1)));
    assert!(lc.busy());
    let (verdict, actions) = lc.settle_query(WsId(1), 10, 5, QueryEnd::Finished { snapshot: Some(5) });
    assert_eq!(verdict, Settled::Deliver);
    assert!(actions.is_empty());
    assert!(lc.snapshot_live(5), "the delivered snapshot is live");
    assert!(!lc.is_running(WsId(1)));

    let actions = lc.begin_query(WsId(1), 11, RunTag(101), 6);
    assert_eq!(actions, vec![Action::Retire { snapshot: 5 }]);
    assert!(!lc.snapshot_live(5));
}

#[test]
fn a_held_snapshot_is_retired_when_the_last_hold_goes() {
    let mut lc = Lifecycle::new();
    lc.begin_query(WsId(1), 10, RunTag(100), 5);
    lc.settle_query(WsId(1), 10, 5, QueryEnd::Finished { snapshot: Some(5) });
    lc.pin(5);
    lc.pin(5);
    assert!(lc.begin_query(WsId(1), 11, RunTag(101), 6).is_empty(), "deferred, not skipped");
    assert!(lc.snapshot_live(5), "a reader still holds it");
    assert_eq!(lc.release(5), Some(vec![]));
    assert_eq!(lc.release(5), Some(vec![Action::Retire { snapshot: 5 }]));
    assert_eq!(lc.release(5), None, "nobody holds it any more");
}

#[test]
fn a_superseded_run_settles_without_touching_the_newer_one() {
    let mut lc = Lifecycle::new();
    lc.begin_query(WsId(1), 10, RunTag(100), 5);
    let actions = lc.begin_query(WsId(1), 11, RunTag(101), 6);
    assert_eq!(actions, vec![Action::Abort { dispatch: 10 }, Action::Retire { snapshot: 5 }]);
    let (verdict, actions) = lc.settle_query(WsId(1), 10, 5, QueryEnd::Finished { snapshot: Some(5) });
    assert_eq!(verdict, Settled::Superseded);
    assert_eq!(actions, vec![Action::Retire { snapshot: 5 }]);
    assert!(lc.is_running(WsId(1)), "the newer run is still going");
    assert_eq!(lc.abandon(WsId(1), 10), vec![], "abandoning the superseded dispatch does nothing");
    assert_eq!(lc.cancel(WsId(1), RunTag(100)), None, "a stale tag cancels nothing");
    assert_eq!(lc.cancel(WsId(1), RunTag(101)), Some(vec![Action::Abort { dispatch: 11 }, Action::Retire { snapshot: 6 }]));
    assert!(!lc.is_running(WsId(1)));
}

#[test]
fn a_statement_leaves_the_workspaces_snapshot_alone() {
    let mut lc = Lifecycle::new();
    lc.begin_query(WsId(1), 10, RunTag(100), 5);
    lc.settle_query(WsId(1), 10, 5, QueryEnd::Finished { snapshot: Some(5) });
    assert!(lc.begin_call(WsId(1), 11, RunTag(101)).is_empty());
    assert!(lc.settle_call(WsId(1), 11));
    assert!(lc.snapshot_live(5));
    assert_eq!(lc.cleanup(WsId(1)), vec![Action::Retire { snapshot: 5 }]);
}

#[test]
fn background_work_raises_the_close_confirms_flag_and_releases_it() {
    let mut lc = Lifecycle::new();
    assert!(!lc.has_background_work());
    lc.begin_background();
    lc.begin_background();
    lc.end_background();
    assert!(lc.has_background_work(), "still flagged while the other is going");
    assert!(lc.busy());
    lc.end_background();
    assert!(!lc.has_background_work(), "cleared once both released");
    assert!(!lc.busy());
}

#[test]
fn a_re_scan_supersedes_its_own_entry_and_nobody_elses() {
    let mut lc = Lifecycle::new();
    assert!(lc.begin_profile("orders".to_string(), 1).is_empty());
    assert!(lc.begin_profile("users".to_string(), 2).is_empty());
    assert_eq!(lc.begin_profile("orders".to_string(), 3), vec![Action::AbortProfile { dispatch: 1 }]);
    assert!(!lc.settle_profile(&"orders".to_string(), 1), "the older scan is no longer the latest");
    assert!(lc.settle_profile(&"orders".to_string(), 3));
    assert!(lc.has_background_work(), "users is still scanning");
    assert_eq!(lc.cancel_profile(&"users".to_string()), Some(Action::AbortProfile { dispatch: 2 }));
    assert!(!lc.has_background_work());
}

#[test]
fn shutdown_forgets_runs_scans_and_owned_snapshots() {
    let mut lc = Lifecycle::new();
    lc.begin_query(WsId(1), 10, RunTag(100), 5);
    lc.settle_query(WsId(1), 10, 5, QueryEnd::Finished { snapshot: Some(5) });
    lc.begin_query(WsId(2), 11, RunTag(101), 6);
    lc.begin_profile("orders".to_string(), 12);
    assert!(lc.busy());
    lc.shutdown();
    assert!(!lc.is_running(WsId(2)));
    assert!(!lc.busy());
    assert!(lc.cleanup(WsId(1)).is_empty(), "no workspace owns a snapshot any more");
}

#[test]
fn a_dropped_run_future_does_not_leave_the_workspace_running() {
    let mut lc = Lifecycle::new();
    let ws = WsId(1);
    lc.begin_query(ws, 10, RunTag(1), 5);
    assert!(lc.is_running(ws), "the dispatch published");
    assert!(lc.busy(), "and the window sees work in flight");
    let actions = lc.abandon(ws, 10);
    assert_eq!(actions, vec![Action::Abort { dispatch: 10 }, Action::Retire { snapshot: 5 }]);
    assert!(!lc.is_running(ws), "dropping the caller must retract the dispatch, not strand it");
    assert!(!lc.busy(), "and the close-while-running flag must go back down");
}

#[test]
fn a_dropped_superseded_run_leaves_the_newer_dispatch_alone() {
    let mut lc = Lifecycle::new();
    let ws = WsId(1);
    lc.begin_query(ws, 10, RunTag(1), 5);
    lc.begin_query(ws, 11, RunTag(2), 6);
    assert!(lc.abandon(ws, 10).is_empty());
    assert!(lc.is_running(ws), "the superseded caller going away must not cancel the run that replaced it");
}
