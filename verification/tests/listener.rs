use resp_node::error::RespError;
use resp_node::models::db::{AppData, InMemoryDb};
use resp_node::node::command_listener::{
    handle_client_connection, Connection, ConnectionAction, ConnectionEvent, ConnectionState,
    TCP_READ_TIMEOUT_MAX_RETRIES, TCP_READ_TIMEOUT_MILLIS, TCP_REQUEST_BUFFER_SIZE,
};

fn test_db() -> InMemoryDb {
    InMemoryDb::new(AppData::new_master(6379, b"abc".to_vec()).unwrap())
}

fn read(bytes: &[u8]) -> ConnectionEvent {
    ConnectionEvent::ReadCompleted(bytes.to_vec())
}

#[test]
fn contract_values_of_the_read_step() {
    assert_eq!(TCP_READ_TIMEOUT_MILLIS, 1000);
    assert_eq!(TCP_READ_TIMEOUT_MAX_RETRIES, 3);
    assert_eq!(TCP_REQUEST_BUFFER_SIZE, 1024);
}

#[test]
fn accepted_connection_awaits_a_read() {
    let connection = Connection::new();
    assert_eq!(connection.state(), ConnectionState::AwaitingRead);
    assert_eq!(connection.timeouts(), 0);
    assert!(!connection.is_closed());
}

#[test]
fn third_timeout_in_a_row_closes_the_connection() {
    let mut db = test_db();
    let mut connection = Connection::new();
    assert_eq!(
        handle_client_connection(&mut connection, &mut db, ConnectionEvent::ReadTimedOut, 0),
        ConnectionAction::Read
    );
    assert_eq!(connection.state(), ConnectionState::AwaitingRead);
    assert_eq!(connection.timeouts(), 1);
    assert_eq!(
        handle_client_connection(&mut connection, &mut db, ConnectionEvent::ReadTimedOut, 0),
        ConnectionAction::Read
    );
    assert_eq!(connection.state(), ConnectionState::AwaitingRead);
    assert_eq!(connection.timeouts(), 2);
    assert_eq!(
        handle_client_connection(&mut connection, &mut db, ConnectionEvent::ReadTimedOut, 0),
        ConnectionAction::Close { reply: None, error: None }
    );
    assert!(connection.is_closed());
    assert_eq!(db.len(), 0);
}

#[test]
fn read_after_timeouts_continues_and_clears_the_count() {
    for timeouts in 1..=2 {
        let mut db = test_db();
        let mut connection = Connection::new();
        for _ in 0..timeouts {
            handle_client_connection(&mut connection, &mut db, ConnectionEvent::ReadTimedOut, 0);
        }
        assert_eq!(
            handle_client_connection(
                &mut connection,
                &mut db,
                read(b"*1\r\n$4\r\nPING\r\n"),
                0
            ),
            ConnectionAction::Write(b"+PONG\r\n".to_vec())
        );
        assert_eq!(connection.state(), ConnectionState::Responding);
        assert_eq!(connection.timeouts(), 0);
        assert_eq!(
            handle_client_connection(&mut connection, &mut db, ConnectionEvent::WriteCompleted, 0),
            ConnectionAction::Read
        );
        assert_eq!(connection.state(), ConnectionState::AwaitingRead);
        // The count starts over: two more timeouts do not close the connection.
        for _ in 0..2 {
            assert_eq!(
                handle_client_connection(
                    &mut connection,
                    &mut db,
                    ConnectionEvent::ReadTimedOut,
                    0
                ),
                ConnectionAction::Read
            );
        }
        assert!(!connection.is_closed());
    }
}

#[test]
fn closed_connection_leaves_other_connections_alone() {
    let mut db = test_db();
    let mut stalled = Connection::new();
    let mut busy = Connection::new();
    handle_client_connection(
        &mut busy,
        &mut db,
        read(b"*3\r\n$3\r\nSET\r\n$3\r\nfoo\r\n$3\r\nbar\r\n"),
        0,
    );
    handle_client_connection(&mut busy, &mut db, ConnectionEvent::WriteCompleted, 0);
    for _ in 0..3 {
        handle_client_connection(&mut stalled, &mut db, ConnectionEvent::ReadTimedOut, 0);
    }
    assert!(stalled.is_closed());
    assert_eq!(busy.state(), ConnectionState::AwaitingRead);
    assert_eq!(
        handle_client_connection(&mut busy, &mut db, read(b"*2\r\n$3\r\nGET\r\n$3\r\nfoo\r\n"), 0),
        ConnectionAction::Write(b"$3\r\nbar\r\n".to_vec())
    );
}

#[test]
fn read_without_bytes_closes_without_error() {
    let mut db = test_db();
    let mut connection = Connection::new();
    assert_eq!(
        handle_client_connection(&mut connection, &mut db, read(b""), 0),
        ConnectionAction::Close { reply: None, error: None }
    );
    assert!(connection.is_closed());
}

#[test]
fn failed_read_closes_with_io_failure() {
    let mut db = test_db();
    let mut connection = Connection::new();
    assert_eq!(
        handle_client_connection(&mut connection, &mut db, ConnectionEvent::ReadFailed, 0),
        ConnectionAction::Close { reply: None, error: Some(RespError::IoFailure) }
    );
    assert!(connection.is_closed());
}

#[test]
fn failed_write_closes_with_io_failure() {
    let mut db = test_db();
    let mut connection = Connection::new();
    handle_client_connection(&mut connection, &mut db, read(b"*1\r\n$4\r\nPING\r\n"), 0);
    assert_eq!(
        handle_client_connection(&mut connection, &mut db, ConnectionEvent::WriteFailed, 0),
        ConnectionAction::Close { reply: None, error: Some(RespError::IoFailure) }
    );
    assert!(connection.is_closed());
}

#[test]
fn malformed_request_closes_without_reply() {
    let mut db = test_db();
    let mut connection = Connection::new();
    assert_eq!(
        handle_client_connection(&mut connection, &mut db, read(b"hello\r\n"), 0),
        ConnectionAction::Close { reply: None, error: Some(RespError::MalformedRequest) }
    );
    assert!(connection.is_closed());
}

#[test]
fn unsupported_command_closes_behind_an_error_reply() {
    let mut db = test_db();
    let mut connection = Connection::new();
    assert_eq!(
        handle_client_connection(&mut connection, &mut db, read(b"*1\r\n$4\r\nQUIT\r\n"), 0),
        ConnectionAction::Close {
            reply: Some(b"-ERR unknown command\r\n".to_vec()),
            error: Some(RespError::UnsupportedCommand)
        }
    );
    assert!(connection.is_closed());
}

#[test]
fn arity_error_closes_behind_an_error_reply() {
    let mut db = test_db();
    let mut connection = Connection::new();
    assert_eq!(
        handle_client_connection(&mut connection, &mut db, read(b"*1\r\n$4\r\nECHO\r\n"), 0),
        ConnectionAction::Close {
            reply: Some(b"-ERR wrong number of arguments\r\n".to_vec()),
            error: Some(RespError::ArityError)
        }
    );
    assert!(connection.is_closed());
}

#[test]
fn closed_connection_stays_closed() {
    let events = || {
        vec![
            ConnectionEvent::ReadTimedOut,
            ConnectionEvent::ReadFailed,
            read(b"*3\r\n$3\r\nSET\r\n$3\r\nfoo\r\n$3\r\nbar\r\n"),
            ConnectionEvent::WriteCompleted,
            ConnectionEvent::WriteFailed,
        ]
    };
    let mut db = test_db();
    let mut connection = Connection::new();
    handle_client_connection(&mut connection, &mut db, read(b""), 0);
    for event in events() {
        assert_eq!(
            handle_client_connection(&mut connection, &mut db, event, 0),
            ConnectionAction::Close { reply: None, error: None }
        );
        assert!(connection.is_closed());
    }
    assert_eq!(db.len(), 0);
}

#[test]
fn event_that_the_state_does_not_expect_closes_with_io_failure() {
    let mut db = test_db();
    let mut connection = Connection::new();
    assert_eq!(
        handle_client_connection(&mut connection, &mut db, ConnectionEvent::WriteCompleted, 0),
        ConnectionAction::Close { reply: None, error: Some(RespError::IoFailure) }
    );
    let mut connection = Connection::new();
    handle_client_connection(&mut connection, &mut db, read(b"*1\r\n$4\r\nPING\r\n"), 0);
    assert_eq!(connection.state(), ConnectionState::Responding);
    assert_eq!(
        handle_client_connection(&mut connection, &mut db, read(b"*1\r\n$4\r\nPING\r\n"), 0),
        ConnectionAction::Close { reply: None, error: Some(RespError::IoFailure) }
    );
    assert!(connection.is_closed());
}

#[test]
fn states_follow_the_cycle() {
    assert_eq!(ConnectionState::AwaitingRead.advance(true), ConnectionState::Decoding);
    assert_eq!(ConnectionState::Decoding.advance(true), ConnectionState::Dispatching);
    assert_eq!(ConnectionState::Dispatching.advance(true), ConnectionState::Responding);
    assert_eq!(ConnectionState::Responding.advance(true), ConnectionState::AwaitingRead);
    assert_eq!(ConnectionState::Closed.advance(true), ConnectionState::Closed);
    for state in [
        ConnectionState::AwaitingRead,
        ConnectionState::Decoding,
        ConnectionState::Dispatching,
        ConnectionState::Responding,
        ConnectionState::Closed,
    ] {
        assert_eq!(state.advance(false), ConnectionState::Closed);
    }
}

#[test]
fn requests_of_one_connection_are_served_in_turn() {
    let mut db = test_db();
    let mut connection = Connection::new();
    let requests: Vec<(&[u8], &[u8])> = vec![
        (b"*3\r\n$3\r\nSET\r\n$3\r\nfoo\r\n$19\r\nHey world, I'm Joe!\r\n", b"+OK\r\n"),
        (b"*2\r\n$3\r\nGET\r\n$3\r\nfoo\r\n", b"$19\r\nHey world, I'm Joe!\r\n"),
        (b"*2\r\n$3\r\nGET\r\n$3\r\nbar\r\n", b"$-1\r\n"),
    ];
    for (request, reply) in requests {
        assert_eq!(
            handle_client_connection(&mut connection, &mut db, read(request), 0),
            ConnectionAction::Write(reply.to_vec())
        );
        assert_eq!(
            handle_client_connection(&mut connection, &mut db, ConnectionEvent::WriteCompleted, 0),
            ConnectionAction::Read
        );
    }
}
