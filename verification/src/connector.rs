//! Opening a session: what to ask of the transport, in which order, and
//! whether the server that answered can be watched.
//!
//! The library opens no connection. It says where to connect and how, names
//! the next step, and judges the capability list that the server sent.

use crate::config::{ImapStoreConfig, StoreView};
use crate::credential::ResolutionError;
use crate::watcher::WatcherEvent;
use vstd::prelude::*;
use vstd::utf8::is_ascii_chars;

verus! {

/// `imap::types::Capabilities`: the capability list that a server sent, as the
/// `imap` crate holds it. Nothing inside it is visible here.
#[verifier::external_type_specification]
#[verifier::external_body]
pub struct ExCapabilities(imap::types::Capabilities);

/// The names that a capability list holds: those for which its method
/// `has_str` answers yes. Nothing more is known of the set than that the list
/// alone decides it.
pub uninterp spec fn advertised(capabilities: imap::types::Capabilities) -> Set<Seq<char>>;

/// The name of the capability that lets a server announce changes.
pub open spec fn idle_capability() -> Seq<char> {
    "IDLE"@
}

/// `Capabilities::has_str` of `imap`: whether the list holds `name`. The
/// method cuts longer names behind their fifth byte, so the name has to be
/// ASCII.
#[verifier::external_body]
fn has_capability(capabilities: &imap::types::Capabilities, name: &str) -> (has: bool)
    requires
        is_ascii_chars(name@),
    ensures
        has == advertised(*capabilities).contains(name@),
{
    capabilities.has_str(name)
}

/// Whether a server with this capability list announces changes of a mailbox
/// by itself: only such a server can be watched.
pub fn supports_idle(capabilities: &imap::types::Capabilities) -> (supported: bool)
    ensures
        supported == advertised(*capabilities).contains(idle_capability()),
{
    proof {
        reveal_strlit("IDLE");
    }
    has_capability(capabilities, "IDLE")
}

/// Why no session could be opened.
#[derive(Clone, Copy, Debug, PartialEq, Eq, Structural)]
pub enum ConnectError {
    /// The transport to the server could not be opened or secured.
    Transport,
    /// The store has no password.
    Credential(ResolutionError),
    /// The server refused the user or the password.
    Login,
    /// The server did not tell its capabilities.
    Capabilities,
    /// The mailbox could not be selected.
    Select,
}

/// What it takes to open a session on a mailbox of a store.
#[derive(Debug, PartialEq, Eq)]
pub struct SessionRequest {
    pub host: String,
    pub port: u16,
    pub user: String,
    pub mailbox: String,
    /// Whether the server's certificate has to be verified.
    pub verify_certificate: bool,
}

/// What a [`SessionRequest`] holds.
pub struct RequestView {
    pub host: Seq<char>,
    pub port: u16,
    pub user: Seq<char>,
    pub mailbox: Seq<char>,
    pub verify_certificate: bool,
}

impl View for SessionRequest {
    type V = RequestView;

    open spec fn view(&self) -> RequestView {
        RequestView {
            host: self.host@,
            port: self.port,
            user: self.user@,
            mailbox: self.mailbox@,
            verify_certificate: self.verify_certificate,
        }
    }
}

impl StoreView {
    /// The request for a session on `mailbox`: the store's host and user, its
    /// port or the default one, and a certificate check unless the store names
    /// a certificate file of its own.
    pub open spec fn request(self, mailbox: Seq<char>) -> RequestView {
        RequestView {
            host: self.host,
            port: self.port(),
            user: self.user,
            mailbox,
            verify_certificate: self.cert_file is None,
        }
    }
}

impl ImapStoreConfig {
    /// What it takes to open a session on `mailbox` of this store.
    pub fn session_request(&self, mailbox: &str) -> (request: SessionRequest)
        ensures
            request@ == self@.request(mailbox@),
    {
        SessionRequest {
            host: self.host.clone(),
            port: self.port(),
            user: self.user.clone(),
            mailbox: mailbox.to_owned(),
            verify_certificate: self.cert_file.is_none(),
        }
    }
}

/// How far an attempt to open a session has come.
#[derive(Clone, Copy, Debug, PartialEq, Eq, Structural)]
pub enum ConnectState {
    /// The transport is being opened.
    Opening,
    /// The password is being found and the user logged in.
    Authenticating,
    /// The server is being asked for its capabilities.
    Inspecting,
    /// The mailbox is being selected.
    Selecting,
    /// The session is open on the mailbox. The attempt has ended.
    Ready,
    /// The server cannot announce changes. The attempt has ended, and no
    /// mailbox was selected.
    Unsupported,
    /// A step failed. The attempt has ended.
    Failed(ConnectError),
}

/// How the step that was asked for went.
#[derive(Clone, Copy, Debug, PartialEq, Eq, Structural)]
pub enum ConnectEvent {
    /// The step was done.
    Done,
    /// The step failed.
    Failed,
    /// The user could not be logged in, for want of a password.
    NoPassword(ResolutionError),
    /// The server told its capabilities; `idle` says whether it can announce
    /// changes.
    Capabilities { idle: bool },
}

/// The step that the caller has to take next.
#[derive(Clone, Copy, Debug, PartialEq, Eq, Structural)]
pub enum ConnectAction {
    /// Open the transport that the session request describes.
    Open,
    /// Find the password and log the user in.
    Login,
    /// Ask the server for its capabilities.
    Inspect,
    /// Select the mailbox.
    Select,
    /// Nothing: the attempt has ended.
    Finish,
}

impl ConnectState {
    /// Whether the attempt has ended.
    pub open spec fn is_terminal(self) -> bool {
        self == ConnectState::Ready || self == ConnectState::Unsupported
            || self is Failed
    }

    /// The state that an event leads to and the step that it calls for, or
    /// nothing where the event cannot happen in this state.
    ///
    /// The steps follow each other in one order: open, log in, inspect,
    /// select. A step that fails ends the attempt with the error of that step.
    /// A server that cannot announce changes ends the attempt too, before any
    /// mailbox is selected.
    pub open spec fn step(self, event: ConnectEvent) -> Option<(ConnectState, ConnectAction)> {
        match (self, event) {
            (ConnectState::Opening, ConnectEvent::Done) => Some(
                (ConnectState::Authenticating, ConnectAction::Login),
            ),
            (ConnectState::Opening, ConnectEvent::Failed) => Some(
                (ConnectState::Failed(ConnectError::Transport), ConnectAction::Finish),
            ),
            (ConnectState::Authenticating, ConnectEvent::Done) => Some(
                (ConnectState::Inspecting, ConnectAction::Inspect),
            ),
            (ConnectState::Authenticating, ConnectEvent::Failed) => Some(
                (ConnectState::Failed(ConnectError::Login), ConnectAction::Finish),
            ),
            (ConnectState::Authenticating, ConnectEvent::NoPassword(error)) => Some(
                (ConnectState::Failed(ConnectError::Credential(error)), ConnectAction::Finish),
            ),
            (ConnectState::Inspecting, ConnectEvent::Capabilities { idle }) => if idle {
                Some((ConnectState::Selecting, ConnectAction::Select))
            } else {
                Some((ConnectState::Unsupported, ConnectAction::Finish))
            },
            (ConnectState::Inspecting, ConnectEvent::Failed) => Some(
                (ConnectState::Failed(ConnectError::Capabilities), ConnectAction::Finish),
            ),
            (ConnectState::Selecting, ConnectEvent::Done) => Some(
                (ConnectState::Ready, ConnectAction::Finish),
            ),
            (ConnectState::Selecting, ConnectEvent::Failed) => Some(
                (ConnectState::Failed(ConnectError::Select), ConnectAction::Finish),
            ),
            _ => None,
        }
    }

    /// What an attempt that has ended tells the watcher, and nothing while the
    /// attempt goes on.
    pub open spec fn report(self) -> Option<WatcherEvent> {
        match self {
            ConnectState::Ready => Some(WatcherEvent::Connected),
            ConnectState::Unsupported => Some(WatcherEvent::Unsupported),
            ConnectState::Failed(_) => Some(WatcherEvent::ConnectFailed),
            _ => None,
        }
    }

    /// The state in which every attempt begins, and its first step.
    pub fn start() -> (begin: (ConnectState, ConnectAction))
        ensures
            begin == (ConnectState::Opening, ConnectAction::Open),
    {
        (ConnectState::Opening, ConnectAction::Open)
    }

    /// Takes an event: returns the next state and the next step, or nothing
    /// where the event cannot happen in this state.
    pub fn on(self, event: ConnectEvent) -> (next: Option<(ConnectState, ConnectAction)>)
        ensures
            next == self.step(event),
    {
        match self {
            ConnectState::Opening => match event {
                ConnectEvent::Done => Some((ConnectState::Authenticating, ConnectAction::Login)),
                ConnectEvent::Failed => Some(
                    (ConnectState::Failed(ConnectError::Transport), ConnectAction::Finish),
                ),
                _ => None,
            },
            ConnectState::Authenticating => match event {
                ConnectEvent::Done => Some((ConnectState::Inspecting, ConnectAction::Inspect)),
                ConnectEvent::Failed => Some(
                    (ConnectState::Failed(ConnectError::Login), ConnectAction::Finish),
                ),
                ConnectEvent::NoPassword(error) => Some(
                    (ConnectState::Failed(ConnectError::Credential(error)), ConnectAction::Finish),
                ),
                _ => None,
            },
            ConnectState::Inspecting => match event {
                ConnectEvent::Capabilities { idle } => if idle {
                    Some((ConnectState::Selecting, ConnectAction::Select))
                } else {
                    Some((ConnectState::Unsupported, ConnectAction::Finish))
                },
                ConnectEvent::Failed => Some(
                    (ConnectState::Failed(ConnectError::Capabilities), ConnectAction::Finish),
                ),
                _ => None,
            },
            ConnectState::Selecting => match event {
                ConnectEvent::Done => Some((ConnectState::Ready, ConnectAction::Finish)),
                ConnectEvent::Failed => Some(
                    (ConnectState::Failed(ConnectError::Select), ConnectAction::Finish),
                ),
                _ => None,
            },
            _ => None,
        }
    }

    /// Tells the watcher how the attempt ended, once it has.
    pub fn outcome(self) -> (event: Option<WatcherEvent>)
        ensures
            event == self.report(),
            event is Some <==> self.is_terminal(),
    {
        match self {
            ConnectState::Ready => Some(WatcherEvent::Connected),
            ConnectState::Unsupported => Some(WatcherEvent::Unsupported),
            ConnectState::Failed(_) => Some(WatcherEvent::ConnectFailed),
            _ => None,
        }
    }
}

/// The event that a capability list is to an attempt.
pub fn capabilities_event(capabilities: &imap::types::Capabilities) -> (event: ConnectEvent)
    ensures
        event == (ConnectEvent::Capabilities {
            idle: advertised(*capabilities).contains(idle_capability()),
        }),
{
    ConnectEvent::Capabilities { idle: supports_idle(capabilities) }
}

/// What a sequence of events leads to from `state` on: the state at its end
/// and the steps that it called for, one for each event, or nothing where one
/// of the events cannot happen when its turn comes.
pub open spec fn attempt(state: ConnectState, events: Seq<ConnectEvent>) -> Option<
    (ConnectState, Seq<ConnectAction>),
>
    decreases events.len(),
{
    if events.len() == 0 {
        Some((state, Seq::empty()))
    } else {
        match state.step(events[0]) {
            None => None,
            Some((next, action)) => match attempt(next, events.drop_first()) {
                None => None,
                Some((end, actions)) => Some((end, seq![action] + actions)),
            },
        }
    }
}

/// An attempt that has ended takes no event.
pub proof fn lemma_ended_attempt_is_final(state: ConnectState, event: ConnectEvent)
    requires
        state.is_terminal(),
    ensures
        state.step(event) is None,
{
}

/// An attempt is told to finish exactly when it has ended.
pub proof fn lemma_finish_means_ended(state: ConnectState, event: ConnectEvent)
    ensures
        state.step(event) matches Some((next, action)) ==> (action == ConnectAction::Finish
            <==> next.is_terminal()),
{
}

/// An attempt that has ended stays where it is: whatever sequence of events
/// it accepts from there is empty.
pub proof fn lemma_ended_attempt_stays(state: ConnectState, events: Seq<ConnectEvent>)
    requires
        state.is_terminal(),
        attempt(state, events) is Some,
    ensures
        events.len() == 0,
        attempt(state, events) == Some((state, Seq::<ConnectAction>::empty())),
{
    if events.len() > 0 {
        lemma_ended_attempt_is_final(state, events[0]);
    }
}

/// An attempt that has ended without failure has opened the transport and
/// logged the user in before anything else: its first two events say so, and
/// the rest of it is an attempt that begins with the capability list.
pub proof fn lemma_attempt_logs_in_first(events: Seq<ConnectEvent>)
    requires
        attempt(ConnectState::Opening, events) matches Some((end, _)) && (end
            == ConnectState::Ready || end == ConnectState::Unsupported),
    ensures
        events.len() >= 2,
        events[0] == ConnectEvent::Done,
        events[1] == ConnectEvent::Done,
        attempt(ConnectState::Inspecting, events.skip(2)) matches Some((end, actions))
            && attempt(ConnectState::Opening, events) == Some(
            (end, seq![ConnectAction::Login, ConnectAction::Inspect] + actions),
        ),
{
    assert(events.len() > 0);
    let e1 = events.drop_first();
    let (s1, a1) = ConnectState::Opening.step(events[0])->0;
    let (_, r1) = attempt(s1, e1)->0;
    assert(s1 == ConnectState::Authenticating) by {
        if s1 != ConnectState::Authenticating {
            lemma_ended_attempt_stays(s1, e1);
        }
    }
    assert(e1.len() > 0);
    let e2 = e1.drop_first();
    let (s2, a2) = s1.step(e1[0])->0;
    let (_, r2) = attempt(s2, e2)->0;
    assert(s2 == ConnectState::Inspecting) by {
        if s2 != ConnectState::Inspecting {
            lemma_ended_attempt_stays(s2, e2);
        }
    }
    assert(e2 =~= events.skip(2));
    assert(e1[0] == events[1]);
    assert(seq![a1] + (seq![a2] + r2) =~= seq![ConnectAction::Login, ConnectAction::Inspect] + r2);
}

/// A session is ready only after all four steps, in their order: the
/// transport was opened, the user logged in, the server said that it can
/// announce changes, and the mailbox was selected.
pub proof fn lemma_ready_takes_every_step(events: Seq<ConnectEvent>)
    requires
        attempt(ConnectState::Opening, events) matches Some((end, _)) && end == ConnectState::Ready,
    ensures
        events == seq![
            ConnectEvent::Done,
            ConnectEvent::Done,
            ConnectEvent::Capabilities { idle: true },
            ConnectEvent::Done,
        ],
        attempt(ConnectState::Opening, events) == Some(
            (
                ConnectState::Ready,
                seq![
                    ConnectAction::Login,
                    ConnectAction::Inspect,
                    ConnectAction::Select,
                    ConnectAction::Finish,
                ],
            ),
        ),
{
    lemma_attempt_logs_in_first(events);
    let e2 = events.skip(2);
    let (s3, a3) = ConnectState::Inspecting.step(e2[0])->0;
    let e3 = e2.drop_first();
    let (_, r3) = attempt(s3, e3)->0;
    assert(s3 == ConnectState::Selecting) by {
        if s3 != ConnectState::Selecting {
            lemma_ended_attempt_stays(s3, e3);
        }
    }
    let (s4, a4) = s3.step(e3[0])->0;
    let e4 = e3.drop_first();
    let (_, r4) = attempt(s4, e4)->0;
    lemma_ended_attempt_stays(s4, e4);
    assert(events =~= seq![events[0], events[1], e2[0], e3[0]]);
    assert(seq![ConnectAction::Login, ConnectAction::Inspect] + (seq![a3] + (seq![a4] + r4))
        =~= seq![ConnectAction::Login, ConnectAction::Inspect, a3, a4]);
}

/// No mailbox is selected on a server that cannot announce changes: the
/// attempt ends as unsupported right after the capability list.
pub proof fn lemma_unsupported_selects_nothing(events: Seq<ConnectEvent>)
    requires
        attempt(ConnectState::Opening, events) matches Some((end, _)) && end
            == ConnectState::Unsupported,
    ensures
        events == seq![
            ConnectEvent::Done,
            ConnectEvent::Done,
            ConnectEvent::Capabilities { idle: false },
        ],
        attempt(ConnectState::Opening, events) == Some(
            (
                ConnectState::Unsupported,
                seq![ConnectAction::Login, ConnectAction::Inspect, ConnectAction::Finish],
            ),
        ),
{
    lemma_attempt_logs_in_first(events);
    let e2 = events.skip(2);
    let (s3, a3) = ConnectState::Inspecting.step(e2[0])->0;
    let e3 = e2.drop_first();
    let (_, r3) = attempt(s3, e3)->0;
    assert(s3 == ConnectState::Unsupported) by {
        if s3 == ConnectState::Selecting {
            let (s4, _) = s3.step(e3[0])->0;
            lemma_ended_attempt_stays(s4, e3.drop_first());
        } else {
            lemma_ended_attempt_stays(s3, e3);
        }
    }
    lemma_ended_attempt_stays(s3, e3);
    assert(events =~= seq![events[0], events[1], e2[0]]);
    assert(seq![ConnectAction::Login, ConnectAction::Inspect] + (seq![a3] + r3)
        =~= seq![ConnectAction::Login, ConnectAction::Inspect, a3]);
}

} // verus!
