use resp_node::error::RespError;
use resp_node::models::db::{AppData, InMemoryDb};
use resp_node::node::command_listener::handle_command;
use resp_node::node::replica_handshake::{
    encode_ping_request, encode_psync_request, encode_replconf_capa_request,
    encode_replconf_port_request, read_full_resync, FullResync, HandshakeAction, HandshakeEvent,
    HandshakeStep, ReplicaHandshake,
};
use resp_node::node::startup::{
    first_phase, next_phase, StartupEvent, StartupPhase, DEFAULT_LISTENING_PORT,
};

const REPLICATION_ID: &[u8] = b"8371b4fb1155b71f4a04d3e1bc3e18c4a990aeeb";

fn replica_data() -> AppData {
    AppData::new_replica(6380, b"localhost".to_vec(), 6379)
}

fn master_db() -> InMemoryDb {
    InMemoryDb::new(AppData::new_master(6379, REPLICATION_ID.to_vec()).unwrap())
}

fn received(bytes: &[u8]) -> HandshakeEvent {
    HandshakeEvent::Received(bytes.to_vec())
}

/// Runs the handshake up to the point where the reply to PSYNC is awaited.
fn handshake_awaiting_full_resync() -> ReplicaHandshake {
    let mut handshake = ReplicaHandshake::new(&replica_data()).unwrap();
    handshake.advance(HandshakeEvent::Connected);
    handshake.advance(HandshakeEvent::Sent);
    handshake.advance(received(b"+PONG\r\n"));
    handshake.advance(HandshakeEvent::Sent);
    handshake.advance(received(b"+OK\r\n"));
    handshake.advance(HandshakeEvent::Sent);
    handshake.advance(received(b"+OK\r\n"));
    handshake.advance(HandshakeEvent::Sent);
    assert_eq!(handshake.step(), HandshakeStep::AwaitFullresync);
    handshake
}

#[test]
fn only_a_replica_has_a_handshake() {
    assert!(ReplicaHandshake::new(&replica_data()).is_some());
    let master = AppData::new_master(6379, REPLICATION_ID.to_vec()).unwrap();
    assert!(ReplicaHandshake::new(&master).is_none());
}

#[test]
fn handshake_requests_are_arrays_of_bulk_strings() {
    assert_eq!(encode_ping_request(), b"*1\r\n$4\r\nPING\r\n".to_vec());
    assert_eq!(
        encode_replconf_port_request(6380),
        b"*3\r\n$8\r\nREPLCONF\r\n$14\r\nlistening-port\r\n$4\r\n6380\r\n".to_vec()
    );
    assert_eq!(
        encode_replconf_capa_request(),
        b"*3\r\n$8\r\nREPLCONF\r\n$4\r\ncapa\r\n$6\r\npsync2\r\n".to_vec()
    );
    assert_eq!(
        encode_psync_request(),
        b"*3\r\n$5\r\nPSYNC\r\n$1\r\n?\r\n$2\r\n-1\r\n".to_vec()
    );
}

#[test]
fn handshake_runs_through_its_steps_in_order() {
    let mut handshake = ReplicaHandshake::new(&replica_data()).unwrap();
    assert_eq!(handshake.step(), HandshakeStep::Connect);
    assert_eq!(
        handshake.action(),
        HandshakeAction::Connect { host: b"localhost".to_vec(), port: 6379 }
    );
    assert_eq!(handshake.outcome(), None);

    assert_eq!(
        handshake.advance(HandshakeEvent::Connected),
        HandshakeAction::Send(b"*1\r\n$4\r\nPING\r\n".to_vec())
    );
    assert_eq!(handshake.step(), HandshakeStep::SendPing);
    assert_eq!(handshake.advance(HandshakeEvent::Sent), HandshakeAction::Receive);
    assert_eq!(handshake.step(), HandshakeStep::AwaitPong);

    assert_eq!(
        handshake.advance(received(b"+PONG\r\n")),
        HandshakeAction::Send(
            b"*3\r\n$8\r\nREPLCONF\r\n$14\r\nlistening-port\r\n$4\r\n6380\r\n".to_vec()
        )
    );
    assert_eq!(handshake.step(), HandshakeStep::SendReplconfPort);
    assert_eq!(handshake.advance(HandshakeEvent::Sent), HandshakeAction::Receive);
    assert_eq!(handshake.step(), HandshakeStep::AwaitPortOk);

    assert_eq!(
        handshake.advance(received(b"+OK\r\n")),
        HandshakeAction::Send(b"*3\r\n$8\r\nREPLCONF\r\n$4\r\ncapa\r\n$6\r\npsync2\r\n".to_vec())
    );
    assert_eq!(handshake.step(), HandshakeStep::SendReplconfCapa);
    assert_eq!(handshake.advance(HandshakeEvent::Sent), HandshakeAction::Receive);
    assert_eq!(handshake.step(), HandshakeStep::AwaitCapaOk);

    assert_eq!(
        handshake.advance(received(b"+OK\r\n")),
        HandshakeAction::Send(b"*3\r\n$5\r\nPSYNC\r\n$1\r\n?\r\n$2\r\n-1\r\n".to_vec())
    );
    assert_eq!(handshake.step(), HandshakeStep::SendPsync);
    assert_eq!(handshake.advance(HandshakeEvent::Sent), HandshakeAction::Receive);
    assert_eq!(handshake.step(), HandshakeStep::AwaitFullresync);
    assert!(!handshake.is_finished());

    assert_eq!(
        handshake.advance(received(
            b"+FULLRESYNC 8371b4fb1155b71f4a04d3e1bc3e18c4a990aeeb 0\r\n"
        )),
        HandshakeAction::Finish
    );
    assert_eq!(handshake.step(), HandshakeStep::Done);
    assert!(handshake.is_finished());
    assert_eq!(handshake.outcome(), Some(Ok(())));
    assert_eq!(
        handshake.full_resync(),
        Some(&FullResync { replication_id: REPLICATION_ID.to_vec(), offset: 0 })
    );
}

#[test]
fn handshake_with_a_master_of_this_kind_completes() {
    let mut master = master_db();
    let mut handshake = ReplicaHandshake::new(&replica_data()).unwrap();
    let mut action = handshake.action();
    let mut steps = 0;
    while !handshake.is_finished() {
        let event = match action {
            HandshakeAction::Connect { .. } => HandshakeEvent::Connected,
            HandshakeAction::Send(request) => {
                let reply = handle_command(&mut master, &request, 0).unwrap();
                handshake.advance(HandshakeEvent::Sent);
                HandshakeEvent::Received(reply)
            }
            HandshakeAction::Receive => unreachable!(),
            HandshakeAction::Finish | HandshakeAction::Abort(_) => unreachable!(),
        };
        action = handshake.advance(event);
        steps += 1;
        assert!(steps <= 5);
    }
    assert_eq!(action, HandshakeAction::Finish);
    assert_eq!(handshake.outcome(), Some(Ok(())));
    assert_eq!(
        handshake.full_resync(),
        Some(&FullResync { replication_id: REPLICATION_ID.to_vec(), offset: 0 })
    );
}

#[test]
fn garbled_psync_reply_is_a_handshake_failure() {
    let garbled: Vec<&[u8]> = vec![
        b"+OK\r\n",
        b"+FULLRESYNC\r\n",
        b"+FULLRESYNC 8371b4fb1155b71f4a04d3e1bc3e18c4a990aeeb\r\n",
        b"+FULLRESYNC  0\r\n",
        b"+FULLRESYNC abc zero\r\n",
        b"+FULLRESYNC abc 0",
        b"-ERR unknown command\r\n",
        b"+fullresync abc 0\r\n",
        b"FULLRESYNC abc 0\r\n",
        b"+FULLRESYNC abc 18446744073709551616\r\n",
        b"+FULLRESYNC abc 0 extra\r\n",
    ];
    for reply in garbled {
        let mut handshake = handshake_awaiting_full_resync();
        assert_eq!(
            handshake.advance(received(reply)),
            HandshakeAction::Abort(RespError::HandshakeFailure)
        );
        assert_eq!(handshake.step(), HandshakeStep::Failed);
        assert_eq!(handshake.outcome(), Some(Err(RespError::HandshakeFailure)));
        assert!(handshake.full_resync().is_none());
        // The node goes on to listen all the same.
        let phase = first_phase(&replica_data());
        assert_eq!(phase, StartupPhase::Handshaking);
        assert_eq!(
            next_phase(phase, StartupEvent::HandshakeEnded(handshake.outcome().unwrap().err())),
            StartupPhase::Listening
        );
    }
}

#[test]
fn omitted_psync_reply_is_a_handshake_failure() {
    let mut handshake = handshake_awaiting_full_resync();
    assert_eq!(
        handshake.advance(received(b"")),
        HandshakeAction::Abort(RespError::HandshakeFailure)
    );
    let mut handshake = handshake_awaiting_full_resync();
    assert_eq!(
        handshake.advance(HandshakeEvent::Failed),
        HandshakeAction::Abort(RespError::HandshakeFailure)
    );
    assert_eq!(handshake.outcome(), Some(Err(RespError::HandshakeFailure)));
    assert_eq!(
        next_phase(
            StartupPhase::Handshaking,
            StartupEvent::HandshakeEnded(Some(RespError::HandshakeFailure))
        ),
        StartupPhase::Listening
    );
}

#[test]
fn unexpected_reply_to_ping_is_a_handshake_failure() {
    for reply in [&b"+OK\r\n"[..], b"+PONG", b"+pong\r\n", b"+PONG\r\n+PONG\r\n", b""] {
        let mut handshake = ReplicaHandshake::new(&replica_data()).unwrap();
        handshake.advance(HandshakeEvent::Connected);
        handshake.advance(HandshakeEvent::Sent);
        assert_eq!(
            handshake.advance(received(reply)),
            HandshakeAction::Abort(RespError::HandshakeFailure)
        );
    }
}

#[test]
fn unexpected_reply_to_replconf_is_a_handshake_failure() {
    for steps_before in [0, 1] {
        let mut handshake = ReplicaHandshake::new(&replica_data()).unwrap();
        handshake.advance(HandshakeEvent::Connected);
        handshake.advance(HandshakeEvent::Sent);
        handshake.advance(received(b"+PONG\r\n"));
        handshake.advance(HandshakeEvent::Sent);
        for _ in 0..steps_before {
            handshake.advance(received(b"+OK\r\n"));
            handshake.advance(HandshakeEvent::Sent);
        }
        assert_eq!(
            handshake.advance(received(b"+PONG\r\n")),
            HandshakeAction::Abort(RespError::HandshakeFailure)
        );
        assert_eq!(handshake.step(), HandshakeStep::Failed);
    }
}

#[test]
fn failure_to_connect_or_send_is_an_io_failure() {
    let mut handshake = ReplicaHandshake::new(&replica_data()).unwrap();
    assert_eq!(
        handshake.advance(HandshakeEvent::Failed),
        HandshakeAction::Abort(RespError::IoFailure)
    );
    assert_eq!(handshake.outcome(), Some(Err(RespError::IoFailure)));

    let mut handshake = ReplicaHandshake::new(&replica_data()).unwrap();
    handshake.advance(HandshakeEvent::Connected);
    assert_eq!(
        handshake.advance(HandshakeEvent::Failed),
        HandshakeAction::Abort(RespError::IoFailure)
    );
}

#[test]
fn ended_handshake_stays_as_it_is() {
    let mut failed = ReplicaHandshake::new(&replica_data()).unwrap();
    failed.advance(HandshakeEvent::Failed);
    assert_eq!(
        failed.advance(HandshakeEvent::Connected),
        HandshakeAction::Abort(RespError::IoFailure)
    );
    assert_eq!(failed.step(), HandshakeStep::Failed);

    let mut done = handshake_awaiting_full_resync();
    done.advance(received(b"+FULLRESYNC abc 42\r\n"));
    assert_eq!(done.advance(HandshakeEvent::Failed), HandshakeAction::Finish);
    assert_eq!(done.advance(received(b"garbage")), HandshakeAction::Finish);
    assert_eq!(
        done.full_resync(),
        Some(&FullResync { replication_id: b"abc".to_vec(), offset: 42 })
    );
}

#[test]
fn read_full_resync_reads_id_and_offset() {
    assert_eq!(
        read_full_resync(b"+FULLRESYNC abc 1234\r\n"),
        Some(FullResync { replication_id: b"abc".to_vec(), offset: 1234 })
    );
    assert_eq!(
        read_full_resync(b"+FULLRESYNC abc 0\r\n$88\r\nREDIS0011"),
        Some(FullResync { replication_id: b"abc".to_vec(), offset: 0 })
    );
    assert_eq!(
        read_full_resync(b"+FULLRESYNC x 18446744073709551615\r\n"),
        Some(FullResync { replication_id: b"x".to_vec(), offset: u64::MAX })
    );
    assert_eq!(read_full_resync(b"+FULLRESYNC abc\r\n"), None);
    assert_eq!(read_full_resync(b"+FULLRESYNC a\rb 0\r\n"), None);
    assert_eq!(read_full_resync(b""), None);
}

#[test]
fn startup_leads_to_listening() {
    assert_eq!(DEFAULT_LISTENING_PORT, 6379);
    let master = AppData::new_master(DEFAULT_LISTENING_PORT, b"abc".to_vec()).unwrap();
    assert_eq!(first_phase(&master), StartupPhase::Listening);
    assert_eq!(first_phase(&replica_data()), StartupPhase::Handshaking);
    for outcome in [
        None,
        Some(RespError::HandshakeFailure),
        Some(RespError::IoFailure),
    ] {
        assert_eq!(
            next_phase(StartupPhase::Handshaking, StartupEvent::HandshakeEnded(outcome)),
            StartupPhase::Listening
        );
    }
    assert_eq!(
        next_phase(StartupPhase::Listening, StartupEvent::BindFailed),
        StartupPhase::Failed
    );
    assert_eq!(
        next_phase(StartupPhase::Listening, StartupEvent::HandshakeEnded(None)),
        StartupPhase::Listening
    );
    assert_eq!(
        next_phase(StartupPhase::Handshaking, StartupEvent::BindFailed),
        StartupPhase::Handshaking
    );
    assert_eq!(
        next_phase(StartupPhase::Failed, StartupEvent::HandshakeEnded(None)),
        StartupPhase::Failed
    );
}
