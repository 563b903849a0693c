use mbwatch::watcher::{WatcherAction, WatcherEvent, WatcherState, RETRY_DELAY_SECONDS};

fn drive(events: &[WatcherEvent]) -> Option<(WatcherState, Vec<WatcherAction>)> {
    let (mut state, first) = WatcherState::start();
    let mut actions = vec![first];
    for event in events {
        let (next, action) = state.on(*event)?;
        state = next;
        actions.push(action);
    }
    Some((state, actions))
}

fn syncs(actions: &[WatcherAction]) -> usize {
    actions.iter().filter(|a| **a == WatcherAction::Sync).count()
}

#[test]
fn watcher_starts_by_connecting_at_once() {
    assert_eq!(
        WatcherState::start(),
        (WatcherState::Connecting, WatcherAction::Connect { after_seconds: 0 })
    );
}

#[test]
fn retry_delay_is_ten_seconds() {
    assert_eq!(RETRY_DELAY_SECONDS, 10);
}

#[test]
fn one_notification_then_one_error_gives_one_sync_and_a_reconnect() {
    let events = [
        WatcherEvent::Connected,
        WatcherEvent::Changed,
        WatcherEvent::Synced,
        WatcherEvent::WaitFailed,
    ];
    let (state, actions) = drive(&events).unwrap();
    assert_eq!(
        actions,
        vec![
            WatcherAction::Connect { after_seconds: 0 },
            WatcherAction::Wait,
            WatcherAction::Sync,
            WatcherAction::Wait,
            WatcherAction::Connect { after_seconds: 10 },
        ]
    );
    assert_eq!(syncs(&actions), 1);
    assert_eq!(state, WatcherState::Reconnecting);
    assert!(!state.finished());
}

#[test]
fn server_without_idle_ends_the_watcher_without_a_sync() {
    let (state, actions) = drive(&[WatcherEvent::Unsupported]).unwrap();
    assert_eq!(state, WatcherState::Unsupported);
    assert_eq!(actions, vec![WatcherAction::Connect { after_seconds: 0 }, WatcherAction::Stop]);
    assert_eq!(syncs(&actions), 0);
    assert!(state.finished());
    assert_eq!(drive(&[WatcherEvent::Unsupported, WatcherEvent::Changed]), None);
}

#[test]
fn first_connect_failure_ends_the_watcher() {
    let (state, actions) = drive(&[WatcherEvent::ConnectFailed]).unwrap();
    assert_eq!(state, WatcherState::Failed);
    assert_eq!(actions.last(), Some(&WatcherAction::Stop));
    assert!(state.finished());
}

#[test]
fn later_connect_failures_are_tried_again() {
    let events = [
        WatcherEvent::Connected,
        WatcherEvent::WaitFailed,
        WatcherEvent::ConnectFailed,
        WatcherEvent::ConnectFailed,
        WatcherEvent::Connected,
        WatcherEvent::Changed,
    ];
    let (state, actions) = drive(&events).unwrap();
    assert_eq!(state, WatcherState::Syncing);
    assert_eq!(
        &actions[2..],
        &[
            WatcherAction::Connect { after_seconds: 10 },
            WatcherAction::Connect { after_seconds: 10 },
            WatcherAction::Connect { after_seconds: 10 },
            WatcherAction::Wait,
            WatcherAction::Sync,
        ]
    );
}

#[test]
fn reconnect_to_a_server_without_idle_ends_the_watcher() {
    let events = [WatcherEvent::Connected, WatcherEvent::WaitFailed, WatcherEvent::Unsupported];
    let (state, actions) = drive(&events).unwrap();
    assert_eq!(state, WatcherState::Unsupported);
    assert_eq!(actions.last(), Some(&WatcherAction::Stop));
}

#[test]
fn sync_that_cannot_start_ends_the_watcher() {
    let events = [WatcherEvent::Connected, WatcherEvent::Changed, WatcherEvent::SyncFailed];
    let (state, actions) = drive(&events).unwrap();
    assert_eq!(state, WatcherState::Failed);
    assert_eq!(actions.last(), Some(&WatcherAction::Stop));
}

#[test]
fn every_notification_gives_one_sync() {
    let mut events = vec![WatcherEvent::Connected];
    for round in 0..5 {
        events.push(WatcherEvent::Changed);
        events.push(WatcherEvent::Synced);
        if round % 2 == 0 {
            events.push(WatcherEvent::WaitFailed);
            events.push(WatcherEvent::Connected);
        }
    }
    let (state, actions) = drive(&events).unwrap();
    assert_eq!(syncs(&actions), 5);
    assert_eq!(state, WatcherState::Idling);
}

#[test]
fn events_out_of_turn_are_not_taken() {
    assert_eq!(WatcherState::Connecting.on(WatcherEvent::Changed), None);
    assert_eq!(WatcherState::Connecting.on(WatcherEvent::Synced), None);
    assert_eq!(WatcherState::Idling.on(WatcherEvent::Connected), None);
    assert_eq!(WatcherState::Idling.on(WatcherEvent::Synced), None);
    assert_eq!(WatcherState::Syncing.on(WatcherEvent::Changed), None);
    assert_eq!(WatcherState::Syncing.on(WatcherEvent::WaitFailed), None);
    assert_eq!(WatcherState::Reconnecting.on(WatcherEvent::WaitFailed), None);
}

#[test]
fn ended_watcher_takes_no_event() {
    let all = [
        WatcherEvent::Connected,
        WatcherEvent::Unsupported,
        WatcherEvent::ConnectFailed,
        WatcherEvent::Changed,
        WatcherEvent::WaitFailed,
        WatcherEvent::Synced,
        WatcherEvent::SyncFailed,
    ];
    for event in all {
        assert_eq!(WatcherState::Failed.on(event), None);
        assert_eq!(WatcherState::Unsupported.on(event), None);
    }
}
