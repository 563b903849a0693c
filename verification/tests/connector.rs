use mbwatch::connector::{
    capabilities_event, supports_idle, ConnectAction, ConnectError, ConnectEvent, ConnectState,
    SessionRequest,
};
use mbwatch::credential::ResolutionError;
use mbwatch::parse::from_text;
use mbwatch::watcher::WatcherEvent;
use std::io::{Cursor, Read, Write};

struct Script {
    replies: Cursor<Vec<u8>>,
}

impl Read for Script {
    fn read(&mut self, buf: &mut [u8]) -> std::io::Result<usize> {
        self.replies.read(buf)
    }
}

impl Write for Script {
    fn write(&mut self, buf: &[u8]) -> std::io::Result<usize> {
        Ok(buf.len())
    }

    fn flush(&mut self) -> std::io::Result<()> {
        Ok(())
    }
}

fn capabilities(list: &str) -> imap::types::Capabilities {
    let replies = format!("* CAPABILITY {}\r\na1 OK done\r\n", list).into_bytes();
    let mut client = imap::Client::new(Script { replies: Cursor::new(replies) });
    client.capabilities().unwrap()
}

fn drive(events: &[ConnectEvent]) -> Option<(ConnectState, Vec<ConnectAction>)> {
    let (mut state, first) = ConnectState::start();
    let mut actions = vec![first];
    for event in events {
        let (next, action) = state.on(*event)?;
        state = next;
        actions.push(action);
    }
    Some((state, actions))
}

#[test]
fn server_with_idle_is_supported() {
    assert!(supports_idle(&capabilities("IMAP4rev1 IDLE")));
    assert!(supports_idle(&capabilities("IMAP4rev1 AUTH=PLAIN IDLE NAMESPACE")));
}

#[test]
fn server_without_idle_is_not_supported() {
    assert!(!supports_idle(&capabilities("IMAP4rev1")));
    assert!(!supports_idle(&capabilities("IMAP4rev1 AUTH=PLAIN NAMESPACE UIDPLUS")));
    assert!(!supports_idle(&capabilities("IMAP4rev1 IDLEX AUTH=IDLE")));
}

#[test]
fn capability_list_becomes_an_event() {
    assert_eq!(
        capabilities_event(&capabilities("IMAP4rev1 IDLE")),
        ConnectEvent::Capabilities { idle: true }
    );
    assert_eq!(
        capabilities_event(&capabilities("IMAP4rev1 STARTTLS")),
        ConnectEvent::Capabilities { idle: false }
    );
}

#[test]
fn session_request_takes_the_defaults() {
    let config = from_text("IMAPStore a\nHost imap.example.com\nUser alice\n").unwrap();
    assert_eq!(
        config.imap_stores[0].session_request("INBOX"),
        SessionRequest {
            host: "imap.example.com".to_string(),
            port: 993,
            user: "alice".to_string(),
            mailbox: "INBOX".to_string(),
            verify_certificate: true,
        }
    );
}

#[test]
fn session_request_skips_the_check_for_a_certificate_file() {
    let config =
        from_text("IMAPStore a\nHost h\nPort 143\nUser u\nCertificateFile /etc/ssl/a.pem\n").unwrap();
    let request = config.imap_stores[0].session_request("Archive");
    assert_eq!(request.port, 143);
    assert_eq!(request.mailbox, "Archive");
    assert!(!request.verify_certificate);
}

#[test]
fn attempt_takes_four_steps_to_a_session() {
    let events = [
        ConnectEvent::Done,
        ConnectEvent::Done,
        ConnectEvent::Capabilities { idle: true },
        ConnectEvent::Done,
    ];
    let (state, actions) = drive(&events).unwrap();
    assert_eq!(state, ConnectState::Ready);
    assert_eq!(
        actions,
        vec![
            ConnectAction::Open,
            ConnectAction::Login,
            ConnectAction::Inspect,
            ConnectAction::Select,
            ConnectAction::Finish,
        ]
    );
    assert_eq!(state.outcome(), Some(WatcherEvent::Connected));
}

#[test]
fn attempt_ends_before_select_without_idle() {
    let events = [ConnectEvent::Done, ConnectEvent::Done, ConnectEvent::Capabilities { idle: false }];
    let (state, actions) = drive(&events).unwrap();
    assert_eq!(state, ConnectState::Unsupported);
    assert_eq!(
        actions,
        vec![ConnectAction::Open, ConnectAction::Login, ConnectAction::Inspect, ConnectAction::Finish]
    );
    assert_eq!(state.outcome(), Some(WatcherEvent::Unsupported));
}

#[test]
fn attempt_fails_with_the_error_of_the_step() {
    let failed = |events: &[ConnectEvent]| drive(events).unwrap().0;
    assert_eq!(failed(&[ConnectEvent::Failed]), ConnectState::Failed(ConnectError::Transport));
    assert_eq!(
        failed(&[ConnectEvent::Done, ConnectEvent::Failed]),
        ConnectState::Failed(ConnectError::Login)
    );
    assert_eq!(
        failed(&[ConnectEvent::Done, ConnectEvent::NoPassword(ResolutionError::Unsuccessful)]),
        ConnectState::Failed(ConnectError::Credential(ResolutionError::Unsuccessful))
    );
    assert_eq!(
        failed(&[ConnectEvent::Done, ConnectEvent::Done, ConnectEvent::Failed]),
        ConnectState::Failed(ConnectError::Capabilities)
    );
    assert_eq!(
        failed(&[
            ConnectEvent::Done,
            ConnectEvent::Done,
            ConnectEvent::Capabilities { idle: true },
            ConnectEvent::Failed
        ]),
        ConnectState::Failed(ConnectError::Select)
    );
    assert_eq!(
        ConnectState::Failed(ConnectError::Select).outcome(),
        Some(WatcherEvent::ConnectFailed)
    );
}

#[test]
fn attempt_takes_no_event_out_of_turn() {
    assert_eq!(ConnectState::Opening.on(ConnectEvent::Capabilities { idle: true }), None);
    assert_eq!(ConnectState::Opening.on(ConnectEvent::NoPassword(ResolutionError::NotRun)), None);
    assert_eq!(ConnectState::Inspecting.on(ConnectEvent::Done), None);
    assert_eq!(ConnectState::Selecting.on(ConnectEvent::Capabilities { idle: true }), None);
    assert_eq!(ConnectState::Ready.on(ConnectEvent::Done), None);
    assert_eq!(ConnectState::Unsupported.on(ConnectEvent::Done), None);
    assert_eq!(ConnectState::Failed(ConnectError::Login).on(ConnectEvent::Failed), None);
}

#[test]
fn attempt_under_way_has_no_outcome() {
    assert_eq!(ConnectState::Opening.outcome(), None);
    assert_eq!(ConnectState::Authenticating.outcome(), None);
    assert_eq!(ConnectState::Inspecting.outcome(), None);
    assert_eq!(ConnectState::Selecting.outcome(), None);
}
