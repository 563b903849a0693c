//! The watcher of one channel: a state machine that is told what happened and
//! answers what to do next.
//!
//! The caller does the work: it connects, waits for a notification, runs the
//! synchronisation, and reports how each of these went.

use vstd::prelude::*;

verus! {

/// The seconds to let pass before a new attempt to connect.
pub const RETRY_DELAY_SECONDS: u64 = 10;

/// Where a watcher stands.
#[derive(Clone, Copy, Debug, PartialEq, Eq, Structural)]
pub enum WatcherState {
    /// The first attempt to connect is under way.
    Connecting,
    /// A later attempt to connect is under way, after a session was lost.
    Reconnecting,
    /// A session is open and the watcher waits for a notification.
    Idling,
    /// The synchronisation runs.
    Syncing,
    /// The server cannot announce changes. The watcher has ended.
    Unsupported,
    /// The first attempt to connect failed, or the synchronisation could not
    /// be started. The watcher has ended.
    Failed,
}

/// What happened to the work that the watcher asked for.
#[derive(Clone, Copy, Debug, PartialEq, Eq, Structural)]
pub enum WatcherEvent {
    /// A session is open and the mailbox is selected.
    Connected,
    /// The server answered, and cannot announce changes.
    Unsupported,
    /// No session could be opened.
    ConnectFailed,
    /// The server announced a change of the mailbox.
    Changed,
    /// The wait for a notification ended with an error.
    WaitFailed,
    /// The synchronisation ran to its end, with whatever exit status.
    Synced,
    /// The synchronisation could not be started.
    SyncFailed,
}

/// What the caller has to do next.
#[derive(Clone, Copy, Debug, PartialEq, Eq, Structural)]
pub enum WatcherAction {
    /// Let `after_seconds` pass, then open a session.
    Connect { after_seconds: u64 },
    /// Wait until the server announces a change.
    Wait,
    /// Run the synchronisation of the channel's mailbox.
    Sync,
    /// Nothing: the watcher has ended.
    Stop,
}

impl WatcherState {
    /// Whether the watcher has ended.
    pub open spec fn is_terminal(self) -> bool {
        self == WatcherState::Unsupported || self == WatcherState::Failed
    }

    /// The state that an event leads to and the action that it calls for, or
    /// nothing where the event cannot happen in this state.
    ///
    /// A new session is waited on. A notification starts the synchronisation,
    /// and its end leads back to the wait. A failed wait leads to a new
    /// attempt to connect after [`RETRY_DELAY_SECONDS`], and so does every
    /// failure of such a later attempt. The watcher ends when the server cannot
    /// announce changes, when the first attempt to connect fails, and when the
    /// synchronisation cannot be started.
    pub open spec fn step(self, event: WatcherEvent) -> Option<(WatcherState, WatcherAction)> {
        match (self, event) {
            (WatcherState::Connecting, WatcherEvent::Connected)
            | (WatcherState::Reconnecting, WatcherEvent::Connected)
            | (WatcherState::Syncing, WatcherEvent::Synced) => Some(
                (WatcherState::Idling, WatcherAction::Wait),
            ),
            (WatcherState::Connecting, WatcherEvent::Unsupported)
            | (WatcherState::Reconnecting, WatcherEvent::Unsupported) => Some(
                (WatcherState::Unsupported, WatcherAction::Stop),
            ),
            (WatcherState::Connecting, WatcherEvent::ConnectFailed)
            | (WatcherState::Syncing, WatcherEvent::SyncFailed) => Some(
                (WatcherState::Failed, WatcherAction::Stop),
            ),
            (WatcherState::Reconnecting, WatcherEvent::ConnectFailed)
            | (WatcherState::Idling, WatcherEvent::WaitFailed) => Some(
                (
                    WatcherState::Reconnecting,
                    WatcherAction::Connect { after_seconds: RETRY_DELAY_SECONDS },
                ),
            ),
            (WatcherState::Idling, WatcherEvent::Changed) => Some(
                (WatcherState::Syncing, WatcherAction::Sync),
            ),
            _ => None,
        }
    }

    /// The state in which every watcher begins, and its first action: to
    /// connect at once.
    pub fn start() -> (begin: (WatcherState, WatcherAction))
        ensures
            begin == (WatcherState::Connecting, WatcherAction::Connect { after_seconds: 0 }),
    {
        (WatcherState::Connecting, WatcherAction::Connect { after_seconds: 0 })
    }

    /// Tells whether the watcher has ended.
    pub fn finished(self) -> (ended: bool)
        ensures
            ended == self.is_terminal(),
    {
        match self {
            WatcherState::Unsupported | WatcherState::Failed => true,
            _ => false,
        }
    }

    /// Takes an event: returns the next state and what to do next, or nothing
    /// where the event cannot happen in this state.
    pub fn on(self, event: WatcherEvent) -> (next: Option<(WatcherState, WatcherAction)>)
        ensures
            next == self.step(event),
    {
        match self {
            WatcherState::Connecting => match event {
                WatcherEvent::Connected => Some((WatcherState::Idling, WatcherAction::Wait)),
                WatcherEvent::Unsupported => Some((WatcherState::Unsupported, WatcherAction::Stop)),
                WatcherEvent::ConnectFailed => Some((WatcherState::Failed, WatcherAction::Stop)),
                _ => None,
            },
            WatcherState::Reconnecting => match event {
                WatcherEvent::Connected => Some((WatcherState::Idling, WatcherAction::Wait)),
                WatcherEvent::Unsupported => Some((WatcherState::Unsupported, WatcherAction::Stop)),
                WatcherEvent::ConnectFailed => Some(
                    (
                        WatcherState::Reconnecting,
                        WatcherAction::Connect { after_seconds: RETRY_DELAY_SECONDS },
                    ),
                ),
                _ => None,
            },
            WatcherState::Idling => match event {
                WatcherEvent::Changed => Some((WatcherState::Syncing, WatcherAction::Sync)),
                WatcherEvent::WaitFailed => Some(
                    (
                        WatcherState::Reconnecting,
                        WatcherAction::Connect { after_seconds: RETRY_DELAY_SECONDS },
                    ),
                ),
                _ => None,
            },
            WatcherState::Syncing => match event {
                WatcherEvent::Synced => Some((WatcherState::Idling, WatcherAction::Wait)),
                WatcherEvent::SyncFailed => Some((WatcherState::Failed, WatcherAction::Stop)),
                _ => None,
            },
            WatcherState::Unsupported | WatcherState::Failed => None,
        }
    }
}

/// What a sequence of events leads to from `state` on: the state at its end
/// and the actions that it called for, one for each event, or nothing where
/// one of the events cannot happen when its turn comes.
pub open spec fn run(state: WatcherState, events: Seq<WatcherEvent>) -> Option<
    (WatcherState, Seq<WatcherAction>),
>
    decreases events.len(),
{
    if events.len() == 0 {
        Some((state, Seq::empty()))
    } else {
        match state.step(events[0]) {
            None => None,
            Some((next, action)) => match run(next, events.drop_first()) {
                None => None,
                Some((end, actions)) => Some((end, seq![action] + actions)),
            },
        }
    }
}

/// How many of `events` announce a change of the mailbox.
pub open spec fn changes(events: Seq<WatcherEvent>) -> nat
    decreases events.len(),
{
    if events.len() == 0 {
        0
    } else {
        changes(events.drop_first()) + if events[0] == WatcherEvent::Changed {
            1nat
        } else {
            0nat
        }
    }
}

/// How many of `actions` run the synchronisation.
pub open spec fn syncs(actions: Seq<WatcherAction>) -> nat
    decreases actions.len(),
{
    if actions.len() == 0 {
        0
    } else {
        syncs(actions.drop_first()) + if actions[0] == WatcherAction::Sync {
            1nat
        } else {
            0nat
        }
    }
}

/// A watcher is told to stop exactly when it has ended.
pub proof fn lemma_stop_means_ended(state: WatcherState, event: WatcherEvent)
    ensures
        state.step(event) matches Some((next, action)) ==> (action == WatcherAction::Stop
            <==> next.is_terminal()),
{
}

/// A watcher that has ended takes no event: it never leaves its last state
/// and never asks for work again.
pub proof fn lemma_ended_is_final(state: WatcherState, event: WatcherEvent)
    requires
        state.is_terminal(),
    ensures
        state.step(event) is None,
{
}

/// A watcher that has not ended is never stuck: whatever it asked for, the
/// report that the work was done is taken.
pub proof fn lemma_watcher_goes_on(state: WatcherState)
    requires
        !state.is_terminal(),
    ensures
        state.step(WatcherEvent::Connected) is Some || state.step(WatcherEvent::Changed) is Some
            || state.step(WatcherEvent::Synced) is Some,
{
}

/// A run calls for one action for each of its events.
pub proof fn lemma_one_action_per_event(state: WatcherState, events: Seq<WatcherEvent>)
    ensures
        run(state, events) matches Some((_, actions)) ==> actions.len() == events.len(),
    decreases events.len(),
{
    if events.len() > 0 {
        if let Some((next, _)) = state.step(events[0]) {
            lemma_one_action_per_event(next, events.drop_first());
        }
    }
}

/// Every notification is answered by one synchronisation, and nothing else
/// ever starts one: a run asks for as many synchronisations as it holds
/// notifications.
pub proof fn lemma_one_sync_per_change(state: WatcherState, events: Seq<WatcherEvent>)
    ensures
        run(state, events) matches Some((_, actions)) ==> syncs(actions) == changes(events),
    decreases events.len(),
{
    if events.len() > 0 {
        if let Some((next, action)) = state.step(events[0]) {
            let rest = events.drop_first();
            lemma_one_sync_per_change(next, rest);
            if let Some((_, actions)) = run(next, rest) {
                assert((seq![action] + actions).drop_first() =~= actions);
            }
        }
    }
}

/// The synchronisations of a channel never overlap: when a run has asked for
/// one, the next thing that can happen is that it ended or could not start.
pub proof fn lemma_sync_runs_alone(state: WatcherState, events: Seq<WatcherEvent>, i: int)
    requires
        0 <= i,
        i + 1 < events.len(),
        run(state, events) matches Some((_, actions)) && actions[i] == WatcherAction::Sync,
    ensures
        events[i + 1] == WatcherEvent::Synced || events[i + 1] == WatcherEvent::SyncFailed,
    decreases events.len(),
{
    let (next, action) = state.step(events[0])->0;
    let rest = events.drop_first();
    let (end, actions) = run(next, rest)->0;
    lemma_one_action_per_event(next, rest);
    if i == 0 {
        assert(rest[0] == events[1]);
        assert(next == WatcherState::Syncing);
    } else {
        assert((seq![action] + actions)[i] == actions[i - 1]);
        assert(rest[i] == events[i + 1]);
        lemma_sync_runs_alone(next, rest, i - 1);
    }
}

/// A watcher whose server cannot announce changes ends at once, without a
/// single synchronisation.
pub proof fn lemma_unsupported_never_syncs(events: Seq<WatcherEvent>)
    requires
        events.len() > 0,
        events[0] == WatcherEvent::Unsupported,
        run(WatcherState::Connecting, events) is Some,
    ensures
        events.len() == 1,
        run(WatcherState::Connecting, events) == Some(
            (WatcherState::Unsupported, seq![WatcherAction::Stop]),
        ),
{
    let rest = events.drop_first();
    assert(WatcherState::Connecting.step(events[0]) == Some(
        (WatcherState::Unsupported, WatcherAction::Stop),
    ));
    assert(run(WatcherState::Unsupported, rest) is Some);
    if rest.len() > 0 {
        lemma_ended_is_final(WatcherState::Unsupported, rest[0]);
    }
    assert(seq![WatcherAction::Stop] + Seq::<WatcherAction>::empty() =~= seq![WatcherAction::Stop]);
}

/// A watcher that lost its session keeps trying: from its first session on,
/// only a synchronisation that cannot be started makes it fail.
pub proof fn lemma_fails_only_at_start(state: WatcherState, event: WatcherEvent)
    requires
        state.step(event) matches Some((next, _)) && next == WatcherState::Failed,
    ensures
        (state == WatcherState::Connecting && event == WatcherEvent::ConnectFailed) || (state
            == WatcherState::Syncing && event == WatcherEvent::SyncFailed),
{
}

} // verus!
