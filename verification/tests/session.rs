use rcon_cli::codec::{decode_packet, PacketKind, ProtocolError, RconPacket};
use rcon_cli::session::{RconSession, SessionState};

fn server_packet(id: i32, kind: PacketKind, body: &[u8]) -> RconPacket {
    RconPacket {
        id,
        kind,
        body: body.to_vec(),
    }
}

#[test]
fn successful_handshake_and_execute() {
    let mut session = RconSession::new();
    assert!(matches!(session.state, SessionState::Disconnected));

    session.begin_connect().unwrap();
    assert!(matches!(session.state, SessionState::Connecting));

    let auth_bytes = session.handshake_request(b"hunter2").unwrap();
    assert!(matches!(session.state, SessionState::Authenticating));
    let (auth_packet, _) = decode_packet(&auth_bytes, false).unwrap();
    assert!(matches!(auth_packet.kind, PacketKind::Auth));
    assert_eq!(auth_packet.body, b"hunter2".to_vec());
    let auth_id = auth_packet.id;

    // The server first sends the throwaway empty response.
    let more = session
        .handshake_reply(&server_packet(auth_id, PacketKind::ResponseValue, b""))
        .unwrap();
    assert!(!more);
    // Then the verdict, echoing the request id.
    let done = session
        .handshake_reply(&server_packet(auth_id, PacketKind::AuthResponse, b""))
        .unwrap();
    assert!(done);
    assert!(matches!(session.state, SessionState::Ready));

    let exec_bytes = session.execute_request(b"status").unwrap();
    let (exec_packet, _) = decode_packet(&exec_bytes, false).unwrap();
    assert!(matches!(exec_packet.kind, PacketKind::ExecCommand));
    assert_eq!(exec_packet.body, b"status".to_vec());
    assert_ne!(exec_packet.id, auth_id);

    let body = session
        .execute_reply(server_packet(
            exec_packet.id,
            PacketKind::ResponseValue,
            b"hostname: play.example\n",
        ))
        .unwrap();
    assert_eq!(body, b"hostname: play.example\n".to_vec());
    assert!(matches!(session.state, SessionState::Ready));
}

#[test]
fn rejected_handshake_fails_the_session() {
    let mut session = RconSession::new();
    session.begin_connect().unwrap();
    let auth_bytes = session.handshake_request(b"wrong-secret").unwrap();
    let (auth_packet, _) = decode_packet(&auth_bytes, false).unwrap();

    session
        .handshake_reply(&server_packet(auth_packet.id, PacketKind::ResponseValue, b""))
        .unwrap();
    // The server rejects with id -1, whatever the body says.
    let verdict = session.handshake_reply(&server_packet(-1, PacketKind::AuthResponse, b"go away"));
    assert!(matches!(verdict, Err(ProtocolError::AuthenticationError)));
    assert!(matches!(session.state, SessionState::Failed));

    // Any later command is refused without touching the network.
    let exec = session.execute_request(b"status");
    assert!(matches!(exec, Err(ProtocolError::SessionClosedError)));
}

#[test]
fn mismatched_verdict_id_fails_the_session() {
    let mut session = RconSession::new();
    session.begin_connect().unwrap();
    let auth_bytes = session.handshake_request(b"secret").unwrap();
    let (auth_packet, _) = decode_packet(&auth_bytes, false).unwrap();

    session
        .handshake_reply(&server_packet(auth_packet.id, PacketKind::ResponseValue, b""))
        .unwrap();
    let verdict =
        session.handshake_reply(&server_packet(auth_packet.id + 7, PacketKind::AuthResponse, b""));
    assert!(matches!(verdict, Err(ProtocolError::AuthenticationError)));
    assert!(matches!(session.state, SessionState::Failed));
}

#[test]
fn first_handshake_packet_is_discarded_whatever_it_holds() {
    let mut session = RconSession::new();
    session.begin_connect().unwrap();
    session.handshake_request(b"secret").unwrap();
    // Even a packet that looks like a rejection is the throwaway one.
    let more = session
        .handshake_reply(&server_packet(-1, PacketKind::ResponseValue, b"noise"))
        .unwrap();
    assert!(!more);
    assert!(matches!(session.state, SessionState::Authenticating));
}

#[test]
fn secret_with_nul_cannot_be_sent() {
    let mut session = RconSession::new();
    session.begin_connect().unwrap();
    let result = session.handshake_request(b"hun\0ter");
    assert!(matches!(result, Err(ProtocolError::EncodingError)));
    assert!(matches!(session.state, SessionState::Failed));
}

#[test]
fn command_with_nul_leaves_session_usable() {
    let mut session = ready_session();
    let result = session.execute_request(b"say \0oops");
    assert!(matches!(result, Err(ProtocolError::EncodingError)));
    assert!(matches!(session.state, SessionState::Ready));
    assert!(session.execute_request(b"say ok").is_ok());
}

#[test]
fn close_refuses_further_work() {
    let mut session = ready_session();
    session.close();
    assert!(matches!(session.state, SessionState::Closed));
    let result = session.execute_request(b"status");
    assert!(matches!(result, Err(ProtocolError::SessionClosedError)));
    let reconnect = session.begin_connect();
    assert!(matches!(reconnect, Err(ProtocolError::SessionClosedError)));
}

#[test]
fn connection_loss_refuses_further_work() {
    let mut session = ready_session();
    session.connection_lost();
    assert!(matches!(session.state, SessionState::Failed));
    let result = session.execute_request(b"status");
    assert!(matches!(result, Err(ProtocolError::SessionClosedError)));
}

#[test]
fn execute_before_handshake_is_refused() {
    let mut session = RconSession::new();
    let result = session.execute_request(b"status");
    assert!(matches!(result, Err(ProtocolError::SessionClosedError)));
}

#[test]
fn fresh_ids_grow_per_request() {
    let mut session = ready_session();
    let first = session.execute_request(b"one").unwrap();
    let (first_packet, _) = decode_packet(&first, false).unwrap();
    session
        .execute_reply(server_packet(first_packet.id, PacketKind::ResponseValue, b""))
        .unwrap();
    let second = session.execute_request(b"two").unwrap();
    let (second_packet, _) = decode_packet(&second, false).unwrap();
    assert!(second_packet.id > first_packet.id);
}

fn ready_session() -> RconSession {
    let mut session = RconSession::new();
    session.begin_connect().unwrap();
    let auth_bytes = session.handshake_request(b"secret").unwrap();
    let (auth_packet, _) = decode_packet(&auth_bytes, false).unwrap();
    session
        .handshake_reply(&server_packet(auth_packet.id, PacketKind::ResponseValue, b""))
        .unwrap();
    session
        .handshake_reply(&server_packet(auth_packet.id, PacketKind::AuthResponse, b""))
        .unwrap();
    session
}
