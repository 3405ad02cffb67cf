//! Serving requests: the dispatcher that turns one request into one reply,
//! and the cycle that a connection runs through for each request.
//!
//! The cycle is a state machine. Its driver owns the socket: it performs the
//! action that a step returns (read, write or close) and reports what came
//! of it as the next event.

use vstd::prelude::*;
use crate::error::RespError;
use crate::models::connection_context::ConnectionContext;
use crate::models::db::{
    apply_sets,
    distinct_requests,
    lemma_sets_on_distinct_keys_count,
    lemma_sets_on_distinct_keys_keep_every_update,
    DbView,
    InMemoryDb,
    SetRequest,
    StoredValue,
};
use crate::node::command_handlers::{
    echo_reply,
    entries_after_get,
    entries_after_set,
    get_reply,
    handle_command_echo,
    handle_command_get,
    handle_command_info,
    handle_command_ping,
    handle_command_psync,
    handle_command_replconf,
    handle_command_set,
    info_reply,
    pong_reply,
    psync_reply,
    replconf_reply,
    set_deadline,
    set_reply,
    settings_after_replconf,
};
use crate::resp_parser::commands::{decode_spec, parse_resp_proc_command};
use crate::resp_parser::data_types::{encode_error_string, error_string};
use crate::resp_parser::shared::{CommandView, RespCommandType};
use crate::utils::{ascii, ascii_bytes, copy_bytes};

verus! {

/// How long a read may wait for bytes, in milliseconds.
pub const TCP_READ_TIMEOUT_MILLIS: u64 = 1000;

/// How many reads in a row may time out before the connection is closed.
pub const TCP_READ_TIMEOUT_MAX_RETRIES: u8 = 3;

/// How many bytes one read may bring.
pub const TCP_REQUEST_BUFFER_SIZE: usize = 1024;

/// The reply to a decoded command, served at time `now` on a store that
/// holds `db`: that of the handler which the command's name selects. A name
/// outside the fixed set is an `UnsupportedCommand`.
pub open spec fn command_reply(command: CommandView, db: DbView, now: u64) -> Result<
    Seq<u8>,
    RespError,
> {
    match command.command_type() {
        RespCommandType::Ping => Ok(pong_reply()),
        RespCommandType::Echo => echo_reply(command.parameters),
        RespCommandType::SetKey => set_reply(command.parameters),
        RespCommandType::GetKey => get_reply(db.entries, command.parameters, now),
        RespCommandType::Info => info_reply(db.role, command.parameters),
        RespCommandType::Replconf => replconf_reply(command.parameters),
        RespCommandType::Psync => psync_reply(db.role, command.parameters),
        RespCommandType::Unrecognized => Err(RespError::UnsupportedCommand),
    }
}

/// What the store holds after a decoded command was served at time `now`.
/// SET and GET work on the entries, REPLCONF keeps the setting it
/// acknowledges, and no other command touches the store.
pub open spec fn db_after_command(command: CommandView, db: DbView, now: u64) -> DbView {
    match command.command_type() {
        RespCommandType::SetKey => DbView {
            entries: entries_after_set(db.entries, command.parameters, now),
            ..db
        },
        RespCommandType::GetKey => DbView {
            entries: entries_after_get(db.entries, command.parameters, now),
            ..db
        },
        RespCommandType::Replconf => DbView {
            replica_settings: settings_after_replconf(db.replica_settings, command.parameters),
            ..db
        },
        _ => db,
    }
}

/// The reply to the request `input`, served at time `now` on a store that
/// holds `db`, or the error that the request ends in.
pub open spec fn request_reply(input: Seq<u8>, db: DbView, now: u64) -> Result<
    Seq<u8>,
    RespError,
> {
    match decode_spec(input) {
        Ok(command) => command_reply(command, db, now),
        Err(error) => Err(error),
    }
}

/// What the store holds after the request `input` was served at time `now`.
/// A request that does not decode leaves the store as it was.
pub open spec fn db_after_request(input: Seq<u8>, db: DbView, now: u64) -> DbView {
    match decode_spec(input) {
        Ok(command) => db_after_command(command, db, now),
        Err(_) => db,
    }
}

/// Runs the handler that the decoded command of `context` selects.
pub fn dispatch_command(
    context: &mut ConnectionContext,
    mem_db: &mut InMemoryDb,
    now: u64,
) -> (handled: Result<(), RespError>)
    requires
        old(context)@.command is Some,
    ensures
        match command_reply(old(context)@.command->0, old(mem_db)@, now) {
            Ok(reply) => handled is Ok && final(context)@.response == Some(reply),
            Err(error) => handled == Err::<(), RespError>(error) && final(context)@.response
                == old(context)@.response,
        },
        final(context)@.input == old(context)@.input,
        final(context)@.command == old(context)@.command,
        final(mem_db)@ == db_after_command(old(context)@.command->0, old(mem_db)@, now),
{
    let command_type = context.unwrap_request_resp_command().command_type();
    match command_type {
        RespCommandType::Ping => handle_command_ping(context),
        RespCommandType::Replconf => handle_command_replconf(context, mem_db),
        RespCommandType::Psync => handle_command_psync(context, mem_db),
        RespCommandType::Echo => handle_command_echo(context),
        RespCommandType::GetKey => handle_command_get(context, mem_db, now),
        RespCommandType::SetKey => handle_command_set(context, mem_db, now),
        RespCommandType::Info => handle_command_info(context, mem_db),
        RespCommandType::Unrecognized => Err(RespError::UnsupportedCommand),
    }
}

/// Serves one request at time `now`: decodes it, runs the handler that its
/// name selects, and returns the encoded reply.
pub fn handle_command(
    mem_db: &mut InMemoryDb,
    request_buffer: &[u8],
    now: u64,
) -> (served: Result<Vec<u8>, RespError>)
    ensures
        match request_reply(request_buffer@, old(mem_db)@, now) {
            Ok(reply) => served matches Ok(response) && response@ == reply,
            Err(error) => served matches Err(e) && e == error,
        },
        final(mem_db)@ == db_after_request(request_buffer@, old(mem_db)@, now),
{
    let mut context = ConnectionContext::new(request_buffer);
    match parse_resp_proc_command(&mut context) {
        Err(error) => {
            return Err(error);
        },
        Ok(()) => {},
    }
    match dispatch_command(&mut context, mem_db, now) {
        Err(error) => {
            return Err(error);
        },
        Ok(()) => {},
    }
    Ok(copy_bytes(context.unwrap_response_command_response().as_slice()))
}

/// The error status line that tells a client why its request failed, for the
/// failures that come after a command name was decoded. A request that
/// failed earlier gets no reply.
pub open spec fn error_reply(error: RespError) -> Option<Seq<u8>> {
    match error {
        RespError::UnsupportedCommand => Some(error_string(ascii("ERR unknown command"@))),
        RespError::ArityError => Some(error_string(ascii("ERR wrong number of arguments"@))),
        _ => None,
    }
}

/// Writes the error status line for a failed request, where it gets one.
pub fn encode_error_reply(error: RespError) -> (encoded: Option<Vec<u8>>)
    ensures
        match error_reply(error) {
            Some(reply) => encoded matches Some(bytes) && bytes@ == reply,
            None => encoded is None,
        },
{
    proof {
        reveal_strlit("ERR unknown command");
        reveal_strlit("ERR wrong number of arguments");
    }
    match error {
        RespError::UnsupportedCommand => Some(
            encode_error_string(ascii_bytes("ERR unknown command")),
        ),
        RespError::ArityError => Some(
            encode_error_string(ascii_bytes("ERR wrong number of arguments")),
        ),
        _ => None,
    }
}

/// Where a connection stands in its request cycle.
#[derive(Clone, Copy, Debug, PartialEq, Eq, Structural)]
pub enum ConnectionState {
    /// Waiting for the bytes of the next request.
    AwaitingRead,
    /// Decoding the bytes that a read brought.
    Decoding,
    /// Running the handler of the decoded command.
    Dispatching,
    /// Waiting for the reply to be written in full.
    Responding,
    /// Done: the connection serves no further request.
    Closed,
}

impl ConnectionState {
    /// The state that follows this one once its work has succeeded or
    /// failed. The cycle runs from reading over decoding and dispatching to
    /// responding and back to reading; a failure anywhere closes the
    /// connection, and a closed connection stays closed.
    pub open spec fn next(self, success: bool) -> ConnectionState {
        if !success {
            ConnectionState::Closed
        } else {
            match self {
                ConnectionState::AwaitingRead => ConnectionState::Decoding,
                ConnectionState::Decoding => ConnectionState::Dispatching,
                ConnectionState::Dispatching => ConnectionState::Responding,
                ConnectionState::Responding => ConnectionState::AwaitingRead,
                ConnectionState::Closed => ConnectionState::Closed,
            }
        }
    }

    /// Moves on to the state that follows this one.
    pub fn advance(self, success: bool) -> (following: ConnectionState)
        ensures
            following == self.next(success),
    {
        if !success {
            ConnectionState::Closed
        } else {
            match self {
                ConnectionState::AwaitingRead => ConnectionState::Decoding,
                ConnectionState::Decoding => ConnectionState::Dispatching,
                ConnectionState::Dispatching => ConnectionState::Responding,
                ConnectionState::Responding => ConnectionState::AwaitingRead,
                ConnectionState::Closed => ConnectionState::Closed,
            }
        }
    }
}

/// What the driver of a connection reports.
#[derive(Debug, PartialEq, Eq)]
pub enum ConnectionEvent {
    /// The read got no bytes within the time allowed.
    ReadTimedOut,
    /// The read failed.
    ReadFailed,
    /// The read brought these bytes; none means that the peer has closed.
    ReadCompleted(Vec<u8>),
    /// The reply was written in full.
    WriteCompleted,
    /// Writing the reply failed.
    WriteFailed,
}

/// What an event says.
pub enum EventView {
    ReadTimedOut,
    ReadFailed,
    ReadCompleted(Seq<u8>),
    WriteCompleted,
    WriteFailed,
}

impl View for ConnectionEvent {
    type V = EventView;

    open spec fn view(&self) -> EventView {
        match *self {
            ConnectionEvent::ReadTimedOut => EventView::ReadTimedOut,
            ConnectionEvent::ReadFailed => EventView::ReadFailed,
            ConnectionEvent::ReadCompleted(bytes) => EventView::ReadCompleted(bytes@),
            ConnectionEvent::WriteCompleted => EventView::WriteCompleted,
            ConnectionEvent::WriteFailed => EventView::WriteFailed,
        }
    }
}

/// What the driver of a connection is to do next.
#[derive(Debug, PartialEq, Eq)]
pub enum ConnectionAction {
    /// Read the next request, within the time allowed.
    Read,
    /// Write this reply in full.
    Write(Vec<u8>),
    /// Close the connection, after writing the reply if there is one. The
    /// error, if there is one, is why the connection ends.
    Close { reply: Option<Vec<u8>>, error: Option<RespError> },
}

/// What an action says.
pub enum ActionView {
    Read,
    Write(Seq<u8>),
    Close { reply: Option<Seq<u8>>, error: Option<RespError> },
}

impl View for ConnectionAction {
    type V = ActionView;

    open spec fn view(&self) -> ActionView {
        match *self {
            ConnectionAction::Read => ActionView::Read,
            ConnectionAction::Write(bytes) => ActionView::Write(bytes@),
            ConnectionAction::Close { reply, error } => ActionView::Close {
                reply: match reply {
                    Some(bytes) => Some(bytes@),
                    None => None,
                },
                error,
            },
        }
    }
}

/// One connection: where it stands in its cycle, and how many reads in a row
/// have timed out.
#[derive(Debug)]
pub struct Connection {
    state: ConnectionState,
    timeouts: u8,
}

/// What a connection holds.
pub struct ConnectionView {
    pub state: ConnectionState,
    pub timeouts: nat,
}

impl ConnectionView {
    /// A connection that was just accepted.
    pub open spec fn accepted() -> ConnectionView {
        ConnectionView { state: ConnectionState::AwaitingRead, timeouts: 0 }
    }

    /// An open connection has timed out fewer times in a row than closes it.
    pub open spec fn wf(self) -> bool {
        self.state != ConnectionState::Closed ==> self.timeouts < TCP_READ_TIMEOUT_MAX_RETRIES
    }
}

/// A step of a connection: the connection afterwards, and what its driver is
/// to do.
pub struct ConnectionStep {
    pub connection: ConnectionView,
    pub action: ActionView,
}

/// The step that closes a connection.
pub open spec fn close_step(timeouts: nat, reply: Option<Seq<u8>>, error: Option<RespError>)
    -> ConnectionStep {
    ConnectionStep {
        connection: ConnectionView { state: ConnectionState::Closed, timeouts },
        action: ActionView::Close { reply, error },
    }
}

/// The step of a connection that awaits a read when the read times out.
pub open spec fn read_timeout_step(connection: ConnectionView) -> ConnectionStep {
    if connection.timeouts + 1 >= TCP_READ_TIMEOUT_MAX_RETRIES {
        close_step(connection.timeouts + 1, None, None)
    } else {
        ConnectionStep {
            connection: ConnectionView {
                state: ConnectionState::AwaitingRead,
                timeouts: connection.timeouts + 1,
            },
            action: ActionView::Read,
        }
    }
}

/// The step of a connection that awaits a read when the read brings the
/// bytes of a request.
pub open spec fn request_step(request: Seq<u8>, db: DbView, now: u64) -> ConnectionStep {
    match request_reply(request, db, now) {
        Ok(reply) => ConnectionStep {
            connection: ConnectionView { state: ConnectionState::Responding, timeouts: 0 },
            action: ActionView::Write(reply),
        },
        Err(error) => close_step(0, error_reply(error), Some(error)),
    }
}

/// The step that a connection takes on an event, at time `now`, on a store
/// that holds `db`.
///
/// While it awaits a read: a timeout is counted, and the read is tried again
/// unless this was the last timeout allowed in a row, which closes the
/// connection without error; a failed read closes it with `IoFailure`; a
/// read without bytes closes it without error; a read with bytes clears the
/// count of timeouts and is served, which leads to writing the reply, or to
/// closing with the error of the request, behind an error status line where
/// the request got as far as a command name.
/// While it awaits a write: a completed write leads to the next read, a
/// failed one closes the connection with `IoFailure`.
/// A closed connection stays closed; any other event that the state does not
/// expect closes the connection with `IoFailure`.
pub open spec fn connection_step(connection: ConnectionView, event: EventView, db: DbView, now: u64)
    -> ConnectionStep {
    match (connection.state, event) {
        (ConnectionState::AwaitingRead, EventView::ReadTimedOut) => read_timeout_step(connection),
        (ConnectionState::AwaitingRead, EventView::ReadFailed) => close_step(
            connection.timeouts,
            None,
            Some(RespError::IoFailure),
        ),
        (ConnectionState::AwaitingRead, EventView::ReadCompleted(bytes)) => if bytes.len() == 0 {
            close_step(connection.timeouts, None, None)
        } else {
            request_step(bytes, db, now)
        },
        (ConnectionState::Responding, EventView::WriteCompleted) => ConnectionStep {
            connection: ConnectionView {
                state: ConnectionState::AwaitingRead,
                timeouts: connection.timeouts,
            },
            action: ActionView::Read,
        },
        (ConnectionState::Responding, EventView::WriteFailed) => close_step(
            connection.timeouts,
            None,
            Some(RespError::IoFailure),
        ),
        (ConnectionState::Closed, _) => close_step(connection.timeouts, None, None),
        _ => close_step(connection.timeouts, None, Some(RespError::IoFailure)),
    }
}

/// What the store holds after a connection has taken a step: only a read
/// with bytes, on a connection that awaits one, can change it.
pub open spec fn db_after_step(connection: ConnectionView, event: EventView, db: DbView, now: u64)
    -> DbView {
    match (connection.state, event) {
        (ConnectionState::AwaitingRead, EventView::ReadCompleted(bytes)) => if bytes.len() == 0 {
            db
        } else {
            db_after_request(bytes, db, now)
        },
        _ => db,
    }
}

impl View for Connection {
    type V = ConnectionView;

    closed spec fn view(&self) -> ConnectionView {
        ConnectionView { state: self.state, timeouts: self.timeouts as nat }
    }
}

impl Connection {
    #[verifier::type_invariant]
    spec fn inv(self) -> bool {
        self@.wf()
    }

    /// The state of a connection that was just accepted: it awaits its first
    /// read.
    pub fn new() -> (connection: Connection)
        ensures
            connection@ == ConnectionView::accepted(),
    {
        Connection { state: ConnectionState::AwaitingRead, timeouts: 0 }
    }

    /// Where the connection stands in its cycle.
    pub fn state(&self) -> (state: ConnectionState)
        ensures
            state == self@.state,
            self@.wf(),
    {
        proof {
            use_type_invariant(self);
        }
        self.state
    }

    /// How many reads in a row have timed out.
    pub fn timeouts(&self) -> (timeouts: u8)
        ensures
            timeouts == self@.timeouts,
    {
        self.timeouts
    }

    /// Whether the connection serves no further request.
    pub fn is_closed(&self) -> (closed: bool)
        ensures
            closed == (self@.state == ConnectionState::Closed),
    {
        self.state == ConnectionState::Closed
    }

    /// Counts a read that timed out, and moves on.
    fn on_read_timeout(&mut self) -> (action: ConnectionAction)
        requires
            old(self)@.state == ConnectionState::AwaitingRead,
        ensures
            final(self)@ == read_timeout_step(old(self)@).connection,
            action@ == read_timeout_step(old(self)@).action,
    {
        proof {
            use_type_invariant(&*self);
        }
        let timeouts: u8 = self.timeouts + 1;
        if timeouts >= TCP_READ_TIMEOUT_MAX_RETRIES {
            self.state = self.state.advance(false);
            self.timeouts = timeouts;
            ConnectionAction::Close { reply: None, error: None }
        } else {
            self.timeouts = timeouts;
            ConnectionAction::Read
        }
    }

    /// Serves the request that a read brought: decodes it and runs its
    /// handler, moving through the states of the cycle.
    fn on_request(
        &mut self,
        mem_db: &mut InMemoryDb,
        request: &[u8],
        now: u64,
    ) -> (action: ConnectionAction)
        requires
            old(self)@.state == ConnectionState::AwaitingRead,
            request@.len() > 0,
        ensures
            final(self)@ == request_step(request@, old(mem_db)@, now).connection,
            action@ == request_step(request@, old(mem_db)@, now).action,
            final(mem_db)@ == db_after_request(request@, old(mem_db)@, now),
    {
        self.timeouts = 0;
        self.state = self.state.advance(true);
        let mut context = ConnectionContext::new(request);
        let decoded = parse_resp_proc_command(&mut context);
        self.state = self.state.advance(decoded.is_ok());
        if let Err(error) = decoded {
            return ConnectionAction::Close { reply: encode_error_reply(error), error: Some(error) };
        }
        let handled = dispatch_command(&mut context, mem_db, now);
        self.state = self.state.advance(handled.is_ok());
        match handled {
            Err(error) => ConnectionAction::Close {
                reply: encode_error_reply(error),
                error: Some(error),
            },
            Ok(()) => ConnectionAction::Write(
                copy_bytes(context.unwrap_response_command_response().as_slice()),
            ),
        }
    }

    /// Moves on from a reply written in full to the next read.
    fn finish_write(&mut self)
        requires
            old(self)@.state == ConnectionState::Responding,
        ensures
            final(self)@ == (ConnectionView {
                state: ConnectionState::AwaitingRead,
                timeouts: old(self)@.timeouts,
            }),
    {
        proof {
            use_type_invariant(&*self);
        }
        self.state = self.state.advance(true);
    }

    /// Closes the connection.
    fn close(&mut self, error: Option<RespError>) -> (action: ConnectionAction)
        ensures
            final(self)@ == (ConnectionView {
                state: ConnectionState::Closed,
                timeouts: old(self)@.timeouts,
            }),
            action@ == (ActionView::Close { reply: None, error }),
    {
        self.state = ConnectionState::Closed;
        ConnectionAction::Close { reply: None, error }
    }
}

/// Takes the step of a connection on an event, at time `now`: moves the
/// connection on, serves the request if the event brought one, and tells
/// the driver what to do next.
pub fn handle_client_connection(
    connection: &mut Connection,
    mem_db: &mut InMemoryDb,
    event: ConnectionEvent,
    now: u64,
) -> (action: ConnectionAction)
    ensures
        final(connection)@ == connection_step(
            old(connection)@,
            event@,
            old(mem_db)@,
            now,
        ).connection,
        action@ == connection_step(old(connection)@, event@, old(mem_db)@, now).action,
        final(mem_db)@ == db_after_step(old(connection)@, event@, old(mem_db)@, now),
{
    match connection.state() {
        ConnectionState::AwaitingRead => match event {
            ConnectionEvent::ReadTimedOut => connection.on_read_timeout(),
            ConnectionEvent::ReadFailed => connection.close(Some(RespError::IoFailure)),
            ConnectionEvent::ReadCompleted(bytes) => {
                if bytes.len() == 0 {
                    connection.close(None)
                } else {
                    connection.on_request(mem_db, bytes.as_slice(), now)
                }
            },
            _ => connection.close(Some(RespError::IoFailure)),
        },
        ConnectionState::Responding => match event {
            ConnectionEvent::WriteCompleted => {
                connection.finish_write();
                ConnectionAction::Read
            },
            ConnectionEvent::WriteFailed => connection.close(Some(RespError::IoFailure)),
            _ => connection.close(Some(RespError::IoFailure)),
        },
        ConnectionState::Closed => connection.close(None),
        _ => connection.close(Some(RespError::IoFailure)),
    }
}

/// What the store holds after the requests of `inputs` were served one at
/// a time, in the order of the sequence, each at its time of `times`.
pub open spec fn db_after_requests(db: DbView, inputs: Seq<Seq<u8>>, times: Seq<u64>) -> DbView
    decreases inputs.len(),
{
    if inputs.len() == 0 {
        db
    } else {
        db_after_request(
            inputs.last(),
            db_after_requests(db, inputs.drop_last(), times.drop_last()),
            times.last(),
        )
    }
}

/// The connection after it has gone through one cycle for each request of
/// `inputs`, in the order of the sequence: the request is read and served
/// at its time of `times`, and the reply is written in full.
pub open spec fn connection_after_cycles(
    connection: ConnectionView,
    db: DbView,
    inputs: Seq<Seq<u8>>,
    times: Seq<u64>,
) -> ConnectionView
    decreases inputs.len(),
{
    if inputs.len() == 0 {
        connection
    } else {
        let earlier = connection_after_cycles(
            connection,
            db,
            inputs.drop_last(),
            times.drop_last(),
        );
        let read = connection_step(
            earlier,
            EventView::ReadCompleted(inputs.last()),
            db_after_requests(db, inputs.drop_last(), times.drop_last()),
            times.last(),
        );
        connection_step(
            read.connection,
            EventView::WriteCompleted,
            db_after_requests(db, inputs, times),
            times.last(),
        ).connection
    }
}

/// The reply to the request at index `i` of a run of requests: it is served
/// on the store as the requests before it have left it.
pub open spec fn reply_in_run(db: DbView, inputs: Seq<Seq<u8>>, times: Seq<u64>, i: int) -> Result<
    Seq<u8>,
    RespError,
> {
    request_reply(inputs[i], db_after_requests(db, inputs.take(i), times.take(i)), times[i])
}

/// Whether every request of a run holds bytes and is served with a reply.
pub open spec fn all_served(db: DbView, inputs: Seq<Seq<u8>>, times: Seq<u64>) -> bool {
    &&& inputs.len() == times.len()
    &&& forall|i: int|
        0 <= i < inputs.len() ==> inputs[i].len() > 0 && (#[trigger] reply_in_run(
            db,
            inputs,
            times,
            i,
        )) is Ok
}

/// A run of requests that are all served stays so when it is cut short.
proof fn lemma_all_served_prefix(db: DbView, inputs: Seq<Seq<u8>>, times: Seq<u64>, k: int)
    requires
        all_served(db, inputs, times),
        0 <= k <= inputs.len(),
    ensures
        all_served(db, inputs.take(k), times.take(k)),
{
    let cut = inputs.take(k);
    let cut_times = times.take(k);
    assert forall|i: int| 0 <= i < k implies cut[i].len() > 0 && (#[trigger] reply_in_run(
        db,
        cut,
        cut_times,
        i,
    )) is Ok by {
        assert(inputs.take(k).take(i) =~= inputs.take(i));
        assert(times.take(k).take(i) =~= times.take(i));
        assert(reply_in_run(db, inputs, times, i) is Ok);
    }
}

/// After a run of requests that are all served, the connection awaits the
/// next read.
proof fn lemma_cycles_end_awaiting_read(
    connection: ConnectionView,
    db: DbView,
    inputs: Seq<Seq<u8>>,
    times: Seq<u64>,
)
    requires
        connection.state == ConnectionState::AwaitingRead,
        all_served(db, inputs, times),
    ensures
        connection_after_cycles(connection, db, inputs, times).state
            == ConnectionState::AwaitingRead,
    decreases inputs.len(),
{
    if inputs.len() > 0 {
        let last = inputs.len() - 1;
        assert(inputs.drop_last() =~= inputs.take(last));
        assert(times.drop_last() =~= times.take(last));
        lemma_all_served_prefix(db, inputs, times, last);
        lemma_cycles_end_awaiting_read(connection, db, inputs.drop_last(), times.drop_last());
        assert(reply_in_run(db, inputs, times, last) is Ok);
    }
}

/// The requests of a connection are answered in the order in which they
/// come: where each request of a run is served with a reply, the
/// connection awaits a read when the request comes, the step that reads it
/// asks for exactly its reply to be written, and once the reply is written
/// the connection awaits the next read.
pub proof fn lemma_requests_are_answered_in_order(
    connection: ConnectionView,
    db: DbView,
    inputs: Seq<Seq<u8>>,
    times: Seq<u64>,
)
    requires
        connection.state == ConnectionState::AwaitingRead,
        all_served(db, inputs, times),
    ensures
        connection_after_cycles(connection, db, inputs, times).state
            == ConnectionState::AwaitingRead,
        forall|i: int|
            0 <= i < inputs.len() ==> connection_after_cycles(
                connection,
                db,
                inputs.take(i),
                times.take(i),
            ).state == ConnectionState::AwaitingRead && connection_step(
                connection_after_cycles(connection, db, inputs.take(i), times.take(i)),
                EventView::ReadCompleted(inputs[i]),
                db_after_requests(db, inputs.take(i), times.take(i)),
                times[i],
            ).action == ActionView::Write((#[trigger] reply_in_run(db, inputs, times, i))->Ok_0),
{
    lemma_cycles_end_awaiting_read(connection, db, inputs, times);
    assert forall|i: int| 0 <= i < inputs.len() implies connection_after_cycles(
        connection,
        db,
        inputs.take(i),
        times.take(i),
    ).state == ConnectionState::AwaitingRead && connection_step(
        connection_after_cycles(connection, db, inputs.take(i), times.take(i)),
        EventView::ReadCompleted(inputs[i]),
        db_after_requests(db, inputs.take(i), times.take(i)),
        times[i],
    ).action == ActionView::Write((#[trigger] reply_in_run(db, inputs, times, i))->Ok_0) by {
        lemma_all_served_prefix(db, inputs, times, i);
        lemma_cycles_end_awaiting_read(connection, db, inputs.take(i), times.take(i));
        assert(inputs[i].len() > 0);
    }
}

/// Whether `input` is a SET request that is served.
pub open spec fn is_set_request(input: Seq<u8>) -> bool {
    decode_spec(input) matches Ok(command) && command.command_type() == RespCommandType::SetKey
        && command.parameters.len() >= 2
}

/// The write that a SET request asks for at time `now`.
pub open spec fn write_of(input: Seq<u8>, now: u64) -> SetRequest {
    let parameters = decode_spec(input).unwrap().parameters;
    SetRequest {
        key: parameters[0],
        stored: StoredValue { value: parameters[1], expires_at: set_deadline(parameters, now) },
    }
}

/// The writes that a run of SET requests asks for.
pub open spec fn writes_of(inputs: Seq<Seq<u8>>, times: Seq<u64>) -> Seq<SetRequest> {
    Seq::new(inputs.len(), |i: int| write_of(inputs[i], times[i]))
}

/// Serving a run of SET requests is making their writes, in the same order.
pub proof fn lemma_set_requests_are_writes(db: DbView, inputs: Seq<Seq<u8>>, times: Seq<u64>)
    requires
        inputs.len() == times.len(),
        forall|i: int| 0 <= i < inputs.len() ==> is_set_request(#[trigger] inputs[i]),
    ensures
        db_after_requests(db, inputs, times) == (DbView {
            entries: apply_sets(db.entries, writes_of(inputs, times)),
            ..db
        }),
    decreases inputs.len(),
{
    if inputs.len() > 0 {
        lemma_set_requests_are_writes(db, inputs.drop_last(), times.drop_last());
        assert(writes_of(inputs, times).drop_last() =~= writes_of(
            inputs.drop_last(),
            times.drop_last(),
        ));
        assert(is_set_request(inputs[inputs.len() - 1]));
    }
}

/// SET requests on keys that all differ lose no update, from whichever
/// connections they come and in whatever order the store serves them:
/// afterwards each key holds what its request set, and a store that was
/// empty holds as many entries as there were requests.
pub proof fn lemma_set_requests_on_distinct_keys_lose_no_update(
    db: DbView,
    inputs: Seq<Seq<u8>>,
    times: Seq<u64>,
)
    requires
        inputs.len() == times.len(),
        forall|i: int| 0 <= i < inputs.len() ==> is_set_request(#[trigger] inputs[i]),
        distinct_requests(writes_of(inputs, times)),
    ensures
        forall|i: int|
            0 <= i < inputs.len() ==> db_after_requests(db, inputs, times).entries.contains_key(
                #[trigger] write_of(inputs[i], times[i]).key,
            ) && db_after_requests(db, inputs, times).entries[write_of(inputs[i], times[i]).key]
                == write_of(inputs[i], times[i]).stored,
        db.entries == Map::<Seq<u8>, StoredValue>::empty() ==> db_after_requests(
            db,
            inputs,
            times,
        ).entries.dom().finite() && db_after_requests(db, inputs, times).entries.dom().len()
            == inputs.len(),
{
    let writes = writes_of(inputs, times);
    let after = db_after_requests(db, inputs, times).entries;
    lemma_set_requests_are_writes(db, inputs, times);
    lemma_sets_on_distinct_keys_keep_every_update(db.entries, writes);
    assert forall|i: int| 0 <= i < inputs.len() implies after.contains_key(
        #[trigger] write_of(inputs[i], times[i]).key,
    ) && after[write_of(inputs[i], times[i]).key] == write_of(inputs[i], times[i]).stored by {
        assert(writes[i] == write_of(inputs[i], times[i]));
    }
    if db.entries == Map::<Seq<u8>, StoredValue>::empty() {
        lemma_sets_on_distinct_keys_count(writes);
    }
}

/// The connection after `count` reads in a row have timed out.
pub open spec fn after_timeouts(connection: ConnectionView, count: nat, db: DbView, now: u64)
    -> ConnectionView
    decreases count,
{
    if count == 0 {
        connection
    } else {
        connection_step(
            after_timeouts(connection, (count - 1) as nat, db, now),
            EventView::ReadTimedOut,
            db,
            now,
        ).connection
    }
}

/// A connection that awaits a read is closed by the timeout that brings the
/// count of timeouts in a row to `TCP_READ_TIMEOUT_MAX_RETRIES`, and by no
/// earlier one.
pub proof fn lemma_timeouts_in_a_row(connection: ConnectionView, count: nat, db: DbView, now: u64)
    requires
        connection.state == ConnectionState::AwaitingRead,
        connection.wf(),
    ensures
        after_timeouts(connection, count, db, now).state == if connection.timeouts + count
            >= TCP_READ_TIMEOUT_MAX_RETRIES {
            ConnectionState::Closed
        } else {
            ConnectionState::AwaitingRead
        },
        connection.timeouts + count < TCP_READ_TIMEOUT_MAX_RETRIES ==> after_timeouts(
            connection,
            count,
            db,
            now,
        ).timeouts == connection.timeouts + count,
    decreases count,
{
    if count > 0 {
        lemma_timeouts_in_a_row(connection, (count - 1) as nat, db, now);
    }
}

/// A timeout touches nothing but the connection it occurs on: the store
/// stays as it is, and the connection that the timeout closes ends without
/// an error and without a reply.
pub proof fn lemma_timeout_touches_only_its_connection(
    connection: ConnectionView,
    db: DbView,
    now: u64,
)
    requires
        connection.state == ConnectionState::AwaitingRead,
    ensures
        db_after_step(connection, EventView::ReadTimedOut, db, now) == db,
        connection_step(connection, EventView::ReadTimedOut, db, now).connection.state
            == ConnectionState::Closed ==> connection_step(
            connection,
            EventView::ReadTimedOut,
            db,
            now,
        ).action == (ActionView::Close { reply: None, error: None }),
{
}

/// A connection that was just accepted is open after one and after two
/// timeouts in a row, and closed after the third.
pub proof fn lemma_third_timeout_closes(db: DbView, now: u64)
    ensures
        after_timeouts(ConnectionView::accepted(), 1, db, now).state
            == ConnectionState::AwaitingRead,
        after_timeouts(ConnectionView::accepted(), 2, db, now).state
            == ConnectionState::AwaitingRead,
        after_timeouts(ConnectionView::accepted(), 3, db, now).state == ConnectionState::Closed,
{
    lemma_timeouts_in_a_row(ConnectionView::accepted(), 1, db, now);
    lemma_timeouts_in_a_row(ConnectionView::accepted(), 2, db, now);
    lemma_timeouts_in_a_row(ConnectionView::accepted(), 3, db, now);
}

/// A read that brings a request is served as on a connection that never
/// timed out, however many timeouts came before it, and clears their count.
pub proof fn lemma_read_after_timeouts_is_served(
    connection: ConnectionView,
    request: Seq<u8>,
    db: DbView,
    now: u64,
)
    requires
        connection.state == ConnectionState::AwaitingRead,
        request.len() > 0,
    ensures
        connection_step(connection, EventView::ReadCompleted(request), db, now) == connection_step(
            ConnectionView::accepted(),
            EventView::ReadCompleted(request),
            db,
            now,
        ),
        connection_step(
            connection,
            EventView::ReadCompleted(request),
            db,
            now,
        ).connection.timeouts == 0,
        request_reply(request, db, now) is Ok ==> connection_step(
            connection,
            EventView::ReadCompleted(request),
            db,
            now,
        ).connection.state == ConnectionState::Responding,
{
}

/// Requests and replies alternate on a connection: a step asks for a read
/// exactly when it leaves the connection awaiting one, for a write exactly
/// when it leaves the connection responding, and to close exactly when it
/// leaves the connection closed.
pub proof fn lemma_action_matches_state(
    connection: ConnectionView,
    event: EventView,
    db: DbView,
    now: u64,
)
    ensures
        ({
            let step = connection_step(connection, event, db, now);
            &&& step.action is Read <==> step.connection.state == ConnectionState::AwaitingRead
            &&& step.action is Write <==> step.connection.state == ConnectionState::Responding
            &&& step.action is Close <==> step.connection.state == ConnectionState::Closed
        }),
{
}

/// A request that fails is not served in part: it leaves the store as it
/// was, and closes the connection it came on with its error.
pub proof fn lemma_failed_request_changes_nothing(
    connection: ConnectionView,
    request: Seq<u8>,
    db: DbView,
    now: u64,
)
    requires
        connection.state == ConnectionState::AwaitingRead,
        request.len() > 0,
        request_reply(request, db, now) is Err,
    ensures
        db_after_request(request, db, now) == db,
        db_after_step(connection, EventView::ReadCompleted(request), db, now) == db,
        connection_step(connection, EventView::ReadCompleted(request), db, now).connection.state
            == ConnectionState::Closed,
        connection_step(connection, EventView::ReadCompleted(request), db, now).action matches
            ActionView::Close { error, .. } && error == Some(
            request_reply(request, db, now)->Err_0,
        ),
{
}

/// Every step leaves a connection well-formed.
pub proof fn lemma_step_keeps_wf(connection: ConnectionView, event: EventView, db: DbView, now: u64)
    requires
        connection.wf(),
    ensures
        connection_step(connection, event, db, now).connection.wf(),
{
}

/// A closed connection stays closed, whatever is reported to it, and the
/// store is not touched on its account.
pub proof fn lemma_closed_stays_closed(
    connection: ConnectionView,
    event: EventView,
    db: DbView,
    now: u64,
)
    requires
        connection.state == ConnectionState::Closed,
    ensures
        connection_step(connection, event, db, now).connection.state == ConnectionState::Closed,
        db_after_step(connection, event, db, now) == db,
{
}

} // verus!
