use sky_daemon::envelope::Envelope;
use sky_daemon::envelope_type;
use sky_daemon::outbox::{Outbox, Outgoing};
use sky_daemon::payloads::{AckPayload, CommandPayload, EventKind, EventPayload};
use sky_daemon::session::{Session, SessionAction, SessionEvent, Verdict, AGENT_VERSION};

const NOW: i64 = 1_700_000_000;
const SECOND: u128 = 1_000_000_000;

fn session() -> Session {
    Session::new("node-secret".to_string())
}

fn opened() -> Session {
    let mut s = session();
    assert!(matches!(s.react(&mut Outbox::new(), SessionEvent::Opened, NOW, 0), SessionAction::SendHello(_)));
    s
}

fn line(text: &str) -> EventPayload {
    EventPayload { server_id: "server-1".to_string(), kind: EventKind::ConsoleLine, message: text.to_string() }
}

fn head(outbox: &Outbox) -> Option<&str> {
    match outbox.head() {
        Some(Outgoing::Event(event)) => Some(event.message.as_str()),
        _ => None,
    }
}

fn message(kind: &str, nonce: &str) -> Envelope {
    Envelope::sealed(b"node-secret", kind, NOW, nonce.to_string(), "{}".to_string())
}

#[test]
fn hello_names_the_node_its_version_and_what_it_can_do() {
    let hello = session().hello();
    assert_eq!(hello.node_token, "node-secret");
    assert_eq!(hello.agent_version, AGENT_VERSION);
    assert_eq!(hello.agent_version, "0.4.9");
    assert_eq!(hello.capabilities, vec!["pull_image".to_string()]);
}

#[test]
fn sends_signed_hello_and_heartbeat() {
    let mut s = session();
    let mut outbox = Outbox::new();
    let first = match s.react(&mut outbox, SessionEvent::Opened, NOW, 0) {
        SessionAction::SendHello(hello) => hello,
        _ => panic!("expected the hello to be sent"),
    };
    let mut fields = serde_json::Map::new();
    fields.insert("node_token".to_string(), first.node_token.into());
    fields.insert("agent_version".to_string(), first.agent_version.into());
    fields.insert("capabilities".to_string(), first.capabilities.into());
    let json = serde_json::Value::Object(fields).to_string();
    let hello = s.send_signed(envelope_type::HELLO, &json).unwrap();
    assert_eq!(hello.kind, envelope_type::HELLO);
    assert!(hello.verify(b"node-secret"));
    let value = hello.decode_payload(|text| serde_json::from_str::<serde_json::Value>(text)).unwrap();
    assert_eq!(value["node_token"], "node-secret");
    assert!(matches!(s.react(&mut outbox, SessionEvent::HelloDelivered, NOW, 0), SessionAction::Wait));
    assert!(matches!(s.react(&mut outbox, SessionEvent::HeartbeatDue, NOW, 0), SessionAction::SendHeartbeat));
    let heartbeat = s.send_signed(envelope_type::HEARTBEAT, "{\"containers\":[]}").unwrap();
    assert_eq!(heartbeat.kind, envelope_type::HEARTBEAT);
    assert!(heartbeat.verify(b"node-secret"));
    assert_ne!(hello.nonce, heartbeat.nonce);
}

#[test]
fn payload_that_is_no_json_is_not_sent() {
    assert!(session().send_signed(envelope_type::EVENT, "nonsense").is_err());
}

#[test]
fn a_genuine_command_is_decoded_dispatched_and_answered() {
    let mut s = opened();
    match s.react(&mut Outbox::new(), SessionEvent::Text(Some(message("command", "n1"))), NOW, 0) {
        SessionAction::Decode(payload) => assert_eq!(payload, "{}"),
        _ => panic!("expected the payload to be decoded"),
    }
    let cmd = CommandPayload { command_id: "cmd-1".to_string(), ..Default::default() };
    match s.react(&mut Outbox::new(), SessionEvent::Decoded(Some(cmd)), NOW, 1) {
        SessionAction::Dispatch(cmd) => assert_eq!(cmd.command_id, "cmd-1"),
        _ => panic!("expected the command to be dispatched"),
    }
    let ack = AckPayload { command_id: "cmd-1".to_string(), ok: true, ..Default::default() };
    let mut outbox = Outbox::new();
    assert!(matches!(s.react(&mut outbox, SessionEvent::Executed(ack), NOW, 2), SessionAction::SendNext));
    match outbox.head() {
        Some(Outgoing::Ack(ack)) => {
            assert!(ack.ok);
            assert_eq!(ack.command_id, "cmd-1");
        }
        _ => panic!("expected the answer to be sent"),
    }
}

#[test]
fn rejects_command_signed_with_wrong_secret() {
    let mut s = session();
    let forged = Envelope::sealed(b"wrong-secret", "command", NOW, "n".to_string(), "{}".to_string());
    match s.react(&mut Outbox::new(), SessionEvent::Text(Some(forged)), NOW, 0) {
        SessionAction::Fail(error) => assert_eq!(
            error,
            "rejecting envelope with invalid signature or stale timestamp (type=command)"
        ),
        _ => panic!("a forged command must end the connection"),
    }
}

#[test]
fn a_stale_command_ends_the_connection() {
    let mut s = session();
    assert_eq!(s.judge(&message("command", "n1"), NOW + 31, 0), Verdict::Unverified);
    assert_eq!(s.judge(&message("command", "n1"), NOW + 30, 0), Verdict::Command);
}

#[test]
fn a_replayed_command_ends_the_connection() {
    let mut s = session();
    assert_eq!(s.judge(&message("command", "n1"), NOW, 0), Verdict::Command);
    match s.react(&mut Outbox::new(), SessionEvent::Text(Some(message("command", "n1"))), NOW + 1, SECOND) {
        SessionAction::Fail(error) => assert_eq!(error, "rejecting replayed nonce (type=command)"),
        _ => panic!("a replayed command must end the connection"),
    }
}

#[test]
fn a_replay_is_refused_for_as_long_as_it_is_fresh() {
    // Signed by a clock that is ahead, so that it stays fresh for a minute.
    let mut s = session();
    let ahead = Envelope::sealed(b"node-secret", "command", NOW + 30, "n".to_string(), "{}".to_string());
    assert_eq!(s.judge(&ahead, NOW, 0), Verdict::Command);
    assert_eq!(s.judge(&message("event", "other"), NOW + 20, 20 * SECOND), Verdict::NotCommand);
    assert_eq!(s.judge(&ahead, NOW + 60, 61 * SECOND), Verdict::Replayed);
    assert_eq!(s.judge(&ahead, NOW + 61, 61 * SECOND), Verdict::Unverified);
}

#[test]
fn a_forged_message_does_not_use_up_a_nonce() {
    let mut s = session();
    let forged = Envelope::sealed(b"wrong-secret", "command", NOW, "n".to_string(), "{}".to_string());
    assert_eq!(s.judge(&forged, NOW, 0), Verdict::Unverified);
    assert_eq!(s.judge(&message("command", "n"), NOW, 0), Verdict::Command);
}

#[test]
fn what_is_no_command_is_passed_over() {
    let mut s = session();
    assert!(matches!(s.react(&mut Outbox::new(), SessionEvent::Text(Some(message("event", "a"))), NOW, 0), SessionAction::Wait));
    assert!(matches!(s.react(&mut Outbox::new(), SessionEvent::Text(None), NOW, 0), SessionAction::Wait));
    assert!(matches!(s.react(&mut Outbox::new(), SessionEvent::OtherFrame, NOW, 0), SessionAction::Wait));
    assert!(matches!(s.react(&mut Outbox::new(), SessionEvent::Report(None), NOW, 0), SessionAction::Wait));
}

#[test]
fn an_undecodable_command_does_not_end_the_connection() {
    let mut s = session();
    assert!(matches!(s.react(&mut Outbox::new(), SessionEvent::Decoded(None), NOW, 0), SessionAction::Wait));
}

#[test]
fn timers_reports_and_endings_are_acted_on() {
    let mut s = opened();
    assert!(matches!(s.react(&mut Outbox::new(), SessionEvent::HeartbeatDue, NOW, 0), SessionAction::SendHeartbeat));
    assert!(matches!(s.react(&mut Outbox::new(), SessionEvent::Cancelled, NOW, 0), SessionAction::Stop));
    assert!(matches!(s.react(&mut Outbox::new(), SessionEvent::Closed, NOW, 0), SessionAction::Stop));
    match s.react(&mut Outbox::new(), SessionEvent::Failed("reset".to_string()), NOW, 0) {
        SessionAction::Fail(error) => assert_eq!(error, "reset"),
        _ => panic!("expected the connection to fail"),
    }
    let mut outbox = Outbox::new();
    let action = s.react(&mut outbox, SessionEvent::Report(Some(line("Server started!"))), NOW, 0);
    assert!(matches!(action, SessionAction::SendNext));
    match outbox.head() {
        Some(Outgoing::Event(event)) => {
            assert_eq!(event.server_id, "server-1");
            assert_eq!(event.message, "Server started!");
        }
        _ => panic!("expected the event to be sent"),
    }
}

#[test]
fn nothing_is_sent_before_the_hello_and_the_hello_is_sent_once() {
    let mut s = session();
    let mut outbox = Outbox::new();
    let action = s.react(&mut outbox, SessionEvent::Report(Some(line("early"))), NOW, 0);
    assert!(matches!(action, SessionAction::Wait));
    assert!(matches!(s.react(&mut outbox, SessionEvent::HeartbeatDue, NOW, 0), SessionAction::Wait));
    match s.react(&mut outbox, SessionEvent::Opened, NOW, 0) {
        SessionAction::SendHello(hello) => assert_eq!(hello.node_token, "node-secret"),
        _ => panic!("expected the hello to be sent"),
    }
    assert!(matches!(s.react(&mut outbox, SessionEvent::Opened, NOW, 0), SessionAction::Wait));
    assert!(matches!(s.react(&mut outbox, SessionEvent::HelloDelivered, NOW, 0), SessionAction::SendNext));
    assert_eq!(head(&outbox), Some("early"));
    assert!(matches!(s.react(&mut outbox, SessionEvent::Delivered, NOW, 0), SessionAction::Wait));
    assert!(outbox.is_empty());
}

#[test]
fn an_event_whose_sending_fails_goes_out_on_the_next_connection() {
    let mut outbox = Outbox::new();
    let mut first = opened();
    assert!(matches!(
        first.react(&mut outbox, SessionEvent::Report(Some(line("one"))), NOW, 0),
        SessionAction::SendNext
    ));
    assert!(matches!(first.react(&mut outbox, SessionEvent::Delivered, NOW, 0), SessionAction::Wait));
    // The connection drops while the second is being sent, and a third comes.
    assert!(matches!(
        first.react(&mut outbox, SessionEvent::Report(Some(line("two"))), NOW, 0),
        SessionAction::SendNext
    ));
    let mut second = session();
    assert!(matches!(
        second.react(&mut outbox, SessionEvent::Report(Some(line("three"))), NOW, 0),
        SessionAction::Wait
    ));
    assert!(matches!(second.react(&mut outbox, SessionEvent::Opened, NOW, 0), SessionAction::SendHello(_)));
    assert!(matches!(second.react(&mut outbox, SessionEvent::HelloDelivered, NOW, 0), SessionAction::SendNext));
    assert_eq!(head(&outbox), Some("two"));
    assert!(matches!(second.react(&mut outbox, SessionEvent::Delivered, NOW, 0), SessionAction::SendNext));
    assert_eq!(head(&outbox), Some("three"));
    assert!(matches!(second.react(&mut outbox, SessionEvent::Delivered, NOW, 0), SessionAction::Wait));
    assert!(outbox.is_empty());
}

#[test]
fn a_sent_message_has_a_nonce_of_lower_case_hexadecimal_digits() {
    let sent = session().send_signed(envelope_type::EVENT, "{}").unwrap();
    assert_eq!(sent.nonce.len(), 32);
    assert!(sent.nonce.chars().all(|c| c.is_ascii_digit() || ('a'..='f').contains(&c)));
}
