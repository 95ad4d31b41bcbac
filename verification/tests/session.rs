use mcping::errors::{EncodingError, PingError};
use mcping::resolve::SrvOutcome;
use mcping::session::{PingSession, SessionState};
use mcping::strings::write_string;
use mcping::varint::write_var_int;

const STATUS_JSON: &str = "{\
\"version\":{\"name\":\"1.21\",\"protocol\":770},\
\"players\":{\"max\":20,\"online\":3},\
\"description\":{\"text\":\"A\",\"extra\":[{\"text\":\"B\"},{\"text\":\"C\",\
\"extra\":[{\"text\":\"D\"}]}]}}";

fn canned_response(id: i32, json: &str) -> Vec<u8> {
    let mut body: Vec<u8> = Vec::new();
    write_var_int(&mut body, &id);
    write_string(&mut body, json).unwrap();
    body
}

#[test]
fn mocked_ping_end_to_end() {
    let mut session = PingSession::new("127.0.0.1".to_string(), 25565, 770);

    // A literal address: the resolver stub must never be consulted.
    match session.begin_resolution() {
        None => (),
        Some(srv) => panic!("resolver invoked for a literal address: {}", srv),
    }
    let (host, port) = session.connect_target();
    assert_eq!(host, "127.0.0.1");
    assert_eq!(port, 25565);

    session.connected();
    let handshake = session.handshake_bytes().unwrap();
    assert!(!handshake.is_empty());
    let request = session.status_request_bytes();
    assert_eq!(request, vec![1, 0]);

    let body = canned_response(0, STATUS_JSON);
    let status = session.response(body.as_slice()).unwrap();
    assert_eq!(status.description, "ABCD");
    assert_eq!(status.version.protocol, 770);
    assert_eq!(status.players.online, 3);
    assert!(matches!(session.state, SessionState::Done));
}

#[test]
fn mocked_ping_wrong_packet_id() {
    let mut session = PingSession::new("127.0.0.1".to_string(), 25565, 770);
    assert!(session.begin_resolution().is_none());
    session.connected();
    session.handshake_bytes().unwrap();
    session.status_request_bytes();

    let body = canned_response(1, STATUS_JSON);
    assert!(matches!(
        session.response(body.as_slice()),
        Err(PingError::UnexpectedPacketId(1))
    ));
    assert!(matches!(session.state, SessionState::Failed));
}

#[test]
fn mocked_ping_bad_json_payload() {
    let mut session = PingSession::new("127.0.0.1".to_string(), 25565, 770);
    assert!(session.begin_resolution().is_none());
    session.connected();
    session.handshake_bytes().unwrap();
    session.status_request_bytes();

    let body = canned_response(0, "{broken");
    assert!(matches!(
        session.response(body.as_slice()),
        Err(PingError::JsonError)
    ));
}

#[test]
fn mocked_ping_truncated_response() {
    let mut session = PingSession::new("127.0.0.1".to_string(), 25565, 770);
    assert!(session.begin_resolution().is_none());
    session.connected();
    session.handshake_bytes().unwrap();
    session.status_request_bytes();

    let body: Vec<u8> = vec![0, 9, b'x'];
    assert!(matches!(
        session.response(body.as_slice()),
        Err(PingError::Encoding(EncodingError::UnexpectedEof))
    ));
}

#[test]
fn hostname_goes_through_srv() {
    let mut session = PingSession::new("example.com".to_string(), 25565, 770);
    let srv = session.begin_resolution().expect("a hostname needs a lookup");
    assert_eq!(srv, "_minecraft._tcp.example.com");

    session
        .srv_outcome(SrvOutcome::Found("mc.example.net.".to_string(), 25599))
        .unwrap();
    let (host, port) = session.connect_target();
    assert_eq!(host, "mc.example.net.");
    assert_eq!(port, 25599);
}

#[test]
fn srv_no_records_fails_the_ping() {
    let mut session = PingSession::new("example.com".to_string(), 25565, 770);
    session.begin_resolution().expect("a hostname needs a lookup");
    assert_eq!(
        session.srv_outcome(SrvOutcome::NoRecords),
        Err(PingError::SrvResolutionFailed)
    );
    assert!(matches!(session.state, SessionState::Failed));
}

#[test]
fn srv_lookup_error_falls_back() {
    let mut session = PingSession::new("example.com".to_string(), 25565, 770);
    session.begin_resolution().expect("a hostname needs a lookup");
    session.srv_outcome(SrvOutcome::LookupError).unwrap();
    let (host, port) = session.connect_target();
    assert_eq!(host, "example.com");
    assert_eq!(port, 25565);
}

#[test]
fn connect_failures_stay_distinct() {
    let mut s1 = PingSession::new("127.0.0.1".to_string(), 25565, 770);
    assert!(s1.begin_resolution().is_none());
    assert_eq!(s1.connect_failed(true), PingError::ConnectTimeout);

    let mut s2 = PingSession::new("127.0.0.1".to_string(), 25565, 770);
    assert!(s2.begin_resolution().is_none());
    assert_eq!(s2.connect_failed(false), PingError::ConnectFailed);
}

#[test]
fn oversized_hostname_fails_the_handshake() {
    let long: String = "a".repeat(40000);
    let mut session = PingSession::new(long, 25565, 770);
    let srv = session.begin_resolution();
    assert!(srv.is_some());
    session.srv_outcome(SrvOutcome::LookupError).unwrap();
    session.connected();
    assert!(matches!(
        session.handshake_bytes(),
        Err(PingError::Encoding(EncodingError::StringTooLong))
    ));
}
