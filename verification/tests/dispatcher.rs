use resp_node::error::RespError;
use resp_node::models::connection_context::ConnectionContext;
use resp_node::models::db::{AppData, InMemoryDb};
use resp_node::node::command_handlers::{
    encode_full_resync, handle_command_echo, handle_command_get, handle_command_info,
    handle_command_ping, handle_command_psync, handle_command_replconf, handle_command_set,
};
use resp_node::node::command_listener::{dispatch_command, encode_error_reply, handle_command};
use resp_node::resp_parser::commands::parse_resp_proc_command;
use resp_node::resp_parser::shared::RespCommandNames;

const REPLICATION_ID: &[u8] = b"8371b4fb1155b71f4a04d3e1bc3e18c4a990aeeb";

fn create_test_mem_db() -> InMemoryDb {
    InMemoryDb::new(AppData::new_master(6379, REPLICATION_ID.to_vec()).unwrap())
}

fn create_test_replica_db() -> InMemoryDb {
    InMemoryDb::new(AppData::new_replica(6380, b"localhost".to_vec(), 6379))
}

fn parsed_context(request: &[u8]) -> ConnectionContext {
    let mut context = ConnectionContext::new(request);
    parse_resp_proc_command(&mut context).unwrap();
    context
}

#[test]
fn handle_command_handles_ping() {
    let request_buffer = b"*1\r\n$4\r\npiNg\r\n";
    let mut fake_mem_db = create_test_mem_db();
    let mut fake_app_context = ConnectionContext::new(request_buffer);

    parse_resp_proc_command(&mut fake_app_context).unwrap();
    assert_eq!(
        fake_app_context
            .get_request_resp_command_ref()
            .unwrap()
            .name()
            .as_slice(),
        RespCommandNames::PING.as_bytes()
    );
    assert_eq!(
        fake_app_context
            .get_request_resp_command_ref()
            .unwrap()
            .parameters()
            .len(),
        0
    );

    handle_command_ping(&mut fake_app_context).unwrap();
    let handled_command_response = handle_command(&mut fake_mem_db, request_buffer, 0).unwrap();
    assert_eq!(
        fake_app_context
            .unwrap_response_command_response()
            .to_owned(),
        "+PONG\r\n".as_bytes().to_owned()
    );
    assert_eq!(handled_command_response, "+PONG\r\n".as_bytes().to_owned());
}

#[test]
fn handle_command_handles_echo() {
    let request_buffer = b"*2\r\n$4\r\nEcHo\r\n$19\r\nHey world, I'm Joe!\r\n";
    let mut fake_mem_db = create_test_mem_db();
    let mut fake_app_context = ConnectionContext::new(request_buffer);

    parse_resp_proc_command(&mut fake_app_context).unwrap();
    assert_eq!(
        fake_app_context
            .get_request_resp_command_ref()
            .unwrap()
            .name()
            .as_slice(),
        RespCommandNames::ECHO.as_bytes()
    );
    assert_eq!(
        fake_app_context
            .get_request_resp_command_ref()
            .unwrap()
            .parameters()
            .len(),
        1
    );

    handle_command_echo(&mut fake_app_context).unwrap();
    let handled_command_response = handle_command(&mut fake_mem_db, request_buffer, 0).unwrap();
    assert_eq!(
        fake_app_context
            .unwrap_response_command_response()
            .to_owned(),
        "$19\r\nHey world, I'm Joe!\r\n".as_bytes().to_owned()
    );
    assert_eq!(
        handled_command_response,
        "$19\r\nHey world, I'm Joe!\r\n".as_bytes().to_owned()
    );
}

#[test]
fn handle_command_handles_set_get() {
    let mut fake_mem_db = create_test_mem_db();

    // Set:
    let request_buffer_set = b"*3\r\n$3\r\nsET\r\n$3\r\nfoo\r\n$19\r\nHey world, I'm Joe!\r\n";
    let mut fake_app_context_set = ConnectionContext::new(request_buffer_set);

    parse_resp_proc_command(&mut fake_app_context_set).unwrap();
    assert_eq!(
        fake_app_context_set
            .get_request_resp_command_ref()
            .unwrap()
            .name()
            .as_slice(),
        RespCommandNames::SET.as_bytes()
    );
    assert_eq!(
        fake_app_context_set
            .get_request_resp_command_ref()
            .unwrap()
            .parameters()
            .len(),
        2
    );

    handle_command_set(&mut fake_app_context_set, &mut fake_mem_db, 0).unwrap();
    let handled_command_response_set =
        handle_command(&mut fake_mem_db, request_buffer_set, 0).unwrap();
    assert_eq!(
        fake_app_context_set
            .unwrap_response_command_response()
            .to_owned(),
        "+OK\r\n".as_bytes().to_owned()
    );
    assert_eq!(handled_command_response_set, "+OK\r\n".as_bytes().to_owned());

    // Get:
    let request_buffer_get = b"*2\r\n$3\r\ngET\r\n$3\r\nfoo\r\n";
    let mut fake_app_context_get = ConnectionContext::new(request_buffer_get);

    parse_resp_proc_command(&mut fake_app_context_get).unwrap();
    assert_eq!(
        fake_app_context_get
            .get_request_resp_command_ref()
            .unwrap()
            .name()
            .as_slice(),
        RespCommandNames::GET.as_bytes()
    );
    assert_eq!(
        fake_app_context_get
            .get_request_resp_command_ref()
            .unwrap()
            .parameters()
            .len(),
        1
    );

    handle_command_get(&mut fake_app_context_get, &mut fake_mem_db, 0).unwrap();
    let handled_command_response_get =
        handle_command(&mut fake_mem_db, request_buffer_get, 0).unwrap();
    assert_eq!(
        fake_app_context_get
            .unwrap_response_command_response()
            .to_owned(),
        "$19\r\nHey world, I'm Joe!\r\n".as_bytes().to_owned()
    );
    assert_eq!(
        handled_command_response_get,
        "$19\r\nHey world, I'm Joe!\r\n".as_bytes().to_owned()
    );
}

#[test]
fn ping_ignores_its_parameters() {
    let mut db = create_test_mem_db();
    assert_eq!(
        handle_command(&mut db, b"*2\r\n$4\r\nPING\r\n$5\r\nhello\r\n", 0).unwrap(),
        b"+PONG\r\n".to_vec()
    );
}

#[test]
fn get_of_a_key_never_set_replies_null_bulk() {
    let mut db = create_test_mem_db();
    assert_eq!(
        handle_command(&mut db, b"*2\r\n$3\r\nGET\r\n$3\r\nfoo\r\n", 0).unwrap(),
        b"$-1\r\n".to_vec()
    );
    assert_eq!(db.len(), 0);
}

#[test]
fn get_of_an_empty_value_replies_the_empty_bulk_string() {
    let mut db = create_test_mem_db();
    handle_command(&mut db, b"*3\r\n$3\r\nSET\r\n$1\r\nk\r\n$0\r\n\r\n", 0).unwrap();
    assert_eq!(
        handle_command(&mut db, b"*2\r\n$3\r\nGET\r\n$1\r\nk\r\n", 0).unwrap(),
        b"$0\r\n\r\n".to_vec()
    );
}

#[test]
fn set_with_px_expires_after_milliseconds() {
    let mut db = create_test_mem_db();
    let set = b"*5\r\n$3\r\nSET\r\n$3\r\nfoo\r\n$3\r\nbar\r\n$2\r\nPx\r\n$3\r\n100\r\n";
    let get = b"*2\r\n$3\r\nGET\r\n$3\r\nfoo\r\n";
    assert_eq!(handle_command(&mut db, set, 1_000).unwrap(), b"+OK\r\n".to_vec());
    assert_eq!(handle_command(&mut db, get, 1_099).unwrap(), b"$3\r\nbar\r\n".to_vec());
    assert_eq!(handle_command(&mut db, get, 1_100).unwrap(), b"$-1\r\n".to_vec());
    assert_eq!(db.len(), 0);
}

#[test]
fn set_with_ex_expires_after_seconds() {
    let mut db = create_test_mem_db();
    let set = b"*5\r\n$3\r\nSET\r\n$3\r\nfoo\r\n$3\r\nbar\r\n$2\r\nex\r\n$1\r\n2\r\n";
    let get = b"*2\r\n$3\r\nGET\r\n$3\r\nfoo\r\n";
    assert_eq!(handle_command(&mut db, set, 1_000).unwrap(), b"+OK\r\n".to_vec());
    assert_eq!(handle_command(&mut db, get, 2_999).unwrap(), b"$3\r\nbar\r\n".to_vec());
    assert_eq!(handle_command(&mut db, get, 3_000).unwrap(), b"$-1\r\n".to_vec());
}

#[test]
fn set_deadline_stops_at_the_last_time_there_is() {
    let mut db = create_test_mem_db();
    let set =
        b"*5\r\n$3\r\nSET\r\n$1\r\nk\r\n$1\r\nv\r\n$2\r\nEX\r\n$20\r\n18446744073709551615\r\n";
    let get = b"*2\r\n$3\r\nGET\r\n$1\r\nk\r\n";
    handle_command(&mut db, set, 5).unwrap();
    assert_eq!(handle_command(&mut db, get, u64::MAX - 1).unwrap(), b"$1\r\nv\r\n".to_vec());
    assert_eq!(handle_command(&mut db, get, u64::MAX).unwrap(), b"$-1\r\n".to_vec());
}

#[test]
fn set_without_a_readable_expiry_sets_no_deadline() {
    let get = b"*2\r\n$3\r\nGET\r\n$3\r\nfoo\r\n";
    let requests: Vec<&[u8]> = vec![
        b"*4\r\n$3\r\nSET\r\n$3\r\nfoo\r\n$3\r\nbar\r\n$2\r\nPX\r\n",
        b"*5\r\n$3\r\nSET\r\n$3\r\nfoo\r\n$3\r\nbar\r\n$2\r\nXX\r\n$3\r\n100\r\n",
        b"*5\r\n$3\r\nSET\r\n$3\r\nfoo\r\n$3\r\nbar\r\n$2\r\nPX\r\n$3\r\nabc\r\n",
        b"*5\r\n$3\r\nSET\r\n$3\r\nfoo\r\n$3\r\nbar\r\n$2\r\nPX\r\n$20\r\n18446744073709551616\r\n",
    ];
    for request in requests {
        let mut db = create_test_mem_db();
        assert_eq!(handle_command(&mut db, request, 0).unwrap(), b"+OK\r\n".to_vec());
        assert_eq!(
            handle_command(&mut db, get, u64::MAX).unwrap(),
            b"$3\r\nbar\r\n".to_vec()
        );
    }
}

#[test]
fn info_describes_a_master() {
    let mut db = create_test_mem_db();
    let text = "role:master\r\n\
                master_replid:8371b4fb1155b71f4a04d3e1bc3e18c4a990aeeb\r\n\
                master_repl_offset:0\r\n";
    let expected = format!("${}\r\n{}\r\n", text.len(), text).into_bytes();
    assert_eq!(text.len(), 91);
    assert_eq!(handle_command(&mut db, b"*1\r\n$4\r\nINFO\r\n", 0).unwrap(), expected);
    assert_eq!(
        handle_command(&mut db, b"*2\r\n$4\r\ninfo\r\n$11\r\nreplication\r\n", 0).unwrap(),
        expected
    );
}

#[test]
fn info_describes_a_replica() {
    let mut db = create_test_replica_db();
    assert_eq!(
        handle_command(&mut db, b"*1\r\n$4\r\nINFO\r\n", 0).unwrap(),
        b"$53\r\nrole:slave\r\nmaster_host:localhost\r\nmaster_port:6379\r\n\r\n".to_vec()
    );
}

#[test]
fn replconf_acknowledges_and_keeps_the_setting() {
    let mut db = create_test_mem_db();
    assert!(db.replica_settings().is_empty());
    assert_eq!(
        handle_command(
            &mut db,
            b"*3\r\n$8\r\nREPLCONF\r\n$14\r\nlistening-port\r\n$4\r\n6380\r\n",
            0
        )
        .unwrap(),
        b"+OK\r\n".to_vec()
    );
    assert_eq!(
        handle_command(&mut db, b"*3\r\n$8\r\nreplconf\r\n$4\r\ncapa\r\n$6\r\npsync2\r\n", 0)
            .unwrap(),
        b"+OK\r\n".to_vec()
    );
    assert_eq!(db.len(), 0);
    assert_eq!(
        db.replica_settings(),
        &vec![
            vec![b"listening-port".to_vec(), b"6380".to_vec()],
            vec![b"capa".to_vec(), b"psync2".to_vec()],
        ]
    );
    assert_eq!(
        handle_command(&mut db, b"*2\r\n$8\r\nREPLCONF\r\n$4\r\ncapa\r\n", 0).unwrap_err(),
        RespError::ArityError
    );
    assert_eq!(db.replica_settings().len(), 2);
}

#[test]
fn only_replconf_touches_the_replica_settings() {
    let mut db = create_test_mem_db();
    let requests: Vec<&[u8]> = vec![
        b"*1\r\n$4\r\nPING\r\n",
        b"*2\r\n$4\r\nECHO\r\n$2\r\nhi\r\n",
        b"*3\r\n$3\r\nSET\r\n$3\r\nfoo\r\n$3\r\nbar\r\n",
        b"*2\r\n$3\r\nGET\r\n$3\r\nfoo\r\n",
        b"*1\r\n$4\r\nINFO\r\n",
        b"*3\r\n$5\r\nPSYNC\r\n$1\r\n?\r\n$2\r\n-1\r\n",
    ];
    for request in requests {
        handle_command(&mut db, request, 0).unwrap();
    }
    assert!(db.replica_settings().is_empty());
    assert_eq!(db.len(), 1);
}

#[test]
fn psync_announces_a_full_resync() {
    let mut db = create_test_mem_db();
    assert_eq!(
        handle_command(&mut db, b"*3\r\n$5\r\nPSYNC\r\n$1\r\n?\r\n$2\r\n-1\r\n", 0).unwrap(),
        b"+FULLRESYNC 8371b4fb1155b71f4a04d3e1bc3e18c4a990aeeb 0\r\n".to_vec()
    );
    assert_eq!(
        encode_full_resync(b"abc", 1234),
        b"+FULLRESYNC abc 1234\r\n".to_vec()
    );
}

#[test]
fn psync_is_not_served_by_a_replica() {
    let mut db = create_test_replica_db();
    assert_eq!(
        handle_command(&mut db, b"*3\r\n$5\r\nPSYNC\r\n$1\r\n?\r\n$2\r\n-1\r\n", 0).unwrap_err(),
        RespError::UnsupportedCommand
    );
    assert_eq!(
        handle_command(&mut db, b"*1\r\n$5\r\nPSYNC\r\n", 0).unwrap_err(),
        RespError::ArityError
    );
}

#[test]
fn unknown_command_is_unsupported() {
    let mut db = create_test_mem_db();
    assert_eq!(
        handle_command(&mut db, b"*1\r\n$4\r\nQUIT\r\n", 0).unwrap_err(),
        RespError::UnsupportedCommand
    );
    assert_eq!(
        handle_command(&mut db, b"*2\r\n$3\r\nDEL\r\n$3\r\nfoo\r\n", 0).unwrap_err(),
        RespError::UnsupportedCommand
    );
}

#[test]
fn wrong_parameter_count_is_an_arity_error() {
    let requests: Vec<&[u8]> = vec![
        b"*1\r\n$4\r\nECHO\r\n",
        b"*3\r\n$4\r\nECHO\r\n$1\r\na\r\n$1\r\nb\r\n",
        b"*1\r\n$3\r\nSET\r\n",
        b"*2\r\n$3\r\nSET\r\n$3\r\nfoo\r\n",
        b"*1\r\n$3\r\nGET\r\n",
        b"*3\r\n$3\r\nGET\r\n$1\r\na\r\n$1\r\nb\r\n",
        b"*3\r\n$4\r\nINFO\r\n$1\r\na\r\n$1\r\nb\r\n",
        b"*1\r\n$8\r\nREPLCONF\r\n",
        b"*2\r\n$8\r\nREPLCONF\r\n$4\r\ncapa\r\n",
        b"*2\r\n$5\r\nPSYNC\r\n$1\r\n?\r\n",
        b"*4\r\n$5\r\nPSYNC\r\n$1\r\n?\r\n$2\r\n-1\r\n$1\r\nx\r\n",
    ];
    for request in requests {
        let mut db = create_test_mem_db();
        assert_eq!(
            handle_command(&mut db, request, 0).unwrap_err(),
            RespError::ArityError
        );
        assert_eq!(db.len(), 0);
    }
}

#[test]
fn request_that_does_not_decode_fails_with_its_error() {
    let mut db = create_test_mem_db();
    assert_eq!(handle_command(&mut db, b"", 0).unwrap_err(), RespError::EmptyRequest);
    assert_eq!(
        handle_command(&mut db, b"PING\r\n", 0).unwrap_err(),
        RespError::MalformedRequest
    );
}

#[test]
fn handlers_leave_the_context_on_failure() {
    let mut db = create_test_mem_db();
    let mut context = parsed_context(b"*1\r\n$4\r\nECHO\r\n");
    assert_eq!(handle_command_echo(&mut context).unwrap_err(), RespError::ArityError);
    assert_eq!(
        handle_command_get(&mut context, &mut db, 0).unwrap_err(),
        RespError::ArityError
    );
    assert_eq!(
        handle_command_set(&mut context, &mut db, 0).unwrap_err(),
        RespError::ArityError
    );
    assert_eq!(
        handle_command_replconf(&mut context, &mut db).unwrap_err(),
        RespError::ArityError
    );
    assert!(db.replica_settings().is_empty());
    assert_eq!(handle_command_psync(&mut context, &db).unwrap_err(), RespError::ArityError);
    assert!(context.get_response_command_response_ref().is_none());
    handle_command_info(&mut context, &db).unwrap();
    assert!(context.get_response_command_response_ref().is_some());
}

#[test]
fn dispatch_command_selects_the_handler_by_name() {
    let mut db = create_test_mem_db();
    let mut context = parsed_context(b"*2\r\n$4\r\necho\r\n$2\r\nhi\r\n");
    dispatch_command(&mut context, &mut db, 0).unwrap();
    assert_eq!(
        context.unwrap_response_command_response().to_owned(),
        b"$2\r\nhi\r\n".to_vec()
    );
    let mut context = parsed_context(b"*1\r\n$7\r\nunknown\r\n");
    assert_eq!(
        dispatch_command(&mut context, &mut db, 0).unwrap_err(),
        RespError::UnsupportedCommand
    );
}

#[test]
fn error_replies_are_error_status_lines() {
    assert_eq!(
        encode_error_reply(RespError::UnsupportedCommand),
        Some(b"-ERR unknown command\r\n".to_vec())
    );
    assert_eq!(
        encode_error_reply(RespError::ArityError),
        Some(b"-ERR wrong number of arguments\r\n".to_vec())
    );
    assert_eq!(encode_error_reply(RespError::MalformedRequest), None);
    assert_eq!(encode_error_reply(RespError::EmptyRequest), None);
    assert_eq!(encode_error_reply(RespError::IoFailure), None);
    assert_eq!(encode_error_reply(RespError::HandshakeFailure), None);
}
