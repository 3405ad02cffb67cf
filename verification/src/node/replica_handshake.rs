//! The handshake by which a replica introduces itself to its master.
//!
//! The handshake is a state machine that runs once, in a straight line:
//! connect, PING, REPLCONF with the listening port, REPLCONF with the
//! capabilities, PSYNC, each command followed by its reply. Its driver owns
//! the socket: it performs the action of the current step and reports what
//! came of it as the next event.

use vstd::prelude::*;
use vstd::slice::slice_subrange;
use crate::error::RespError;
use crate::models::db::{AppData, DbView, Role, RoleView};
use crate::node::command_handlers::{full_resync_reply, ok_reply, pong_reply};
use crate::node::command_listener::{db_after_request, request_reply};
use crate::resp_parser::commands::{command_bytes, encode_command, lemma_decode_encode_roundtrip};
use crate::resp_parser::data_types::{crlf, encode_simple_string, lemma_split_line_after_digits};
use crate::resp_parser::shared::{
    byte_strings,
    CommandView,
    RespCommand,
    RespCommandNames,
    SIMPLE_STRINGS_BYTE,
};
use crate::utils::{
    ascii,
    ascii_bytes,
    bytes_eq,
    check_token,
    copy_bytes,
    decimal_digits,
    find_byte,
    is_token,
    is_token_byte,
    lemma_decimal_digits,
    lemma_find_byte,
    parse_decimal_bounded,
    parse_decimal_up_to,
    position_of,
    push_decimal,
    split_at_crlf,
    split_line,
    upper,
    CR,
    SPACE,
};

verus! {

/// The steps of the handshake, in the order in which they are taken.
#[derive(Clone, Copy, Debug, PartialEq, Eq, Structural)]
pub enum HandshakeStep {
    /// Open the connection to the master.
    Connect,
    /// Send PING.
    SendPing,
    /// Await the reply to PING.
    AwaitPong,
    /// Send REPLCONF with the port this node listens on.
    SendReplconfPort,
    /// Await the acknowledgement of the port.
    AwaitPortOk,
    /// Send REPLCONF with the capabilities of this node.
    SendReplconfCapa,
    /// Await the acknowledgement of the capabilities.
    AwaitCapaOk,
    /// Send PSYNC.
    SendPsync,
    /// Await the announcement of the full resynchronisation.
    AwaitFullresync,
    /// The master has announced the full resynchronisation.
    Done,
    /// The handshake was given up.
    Failed,
}

impl HandshakeStep {
    /// The place of a step in the order of the handshake.
    pub open spec fn rank(self) -> nat {
        match self {
            HandshakeStep::Connect => 0,
            HandshakeStep::SendPing => 1,
            HandshakeStep::AwaitPong => 2,
            HandshakeStep::SendReplconfPort => 3,
            HandshakeStep::AwaitPortOk => 4,
            HandshakeStep::SendReplconfCapa => 5,
            HandshakeStep::AwaitCapaOk => 6,
            HandshakeStep::SendPsync => 7,
            HandshakeStep::AwaitFullresync => 8,
            HandshakeStep::Done => 9,
            HandshakeStep::Failed => 10,
        }
    }

    /// Whether the handshake ends with this step.
    pub open spec fn is_final(self) -> bool {
        self == HandshakeStep::Done || self == HandshakeStep::Failed
    }
}

/// What a master announces with a full resynchronisation.
#[derive(Debug, PartialEq, Eq)]
pub struct FullResync {
    pub replication_id: Vec<u8>,
    pub offset: u64,
}

/// What an announcement says.
pub struct FullResyncView {
    pub replication_id: Seq<u8>,
    pub offset: u64,
}

impl View for FullResync {
    type V = FullResyncView;

    open spec fn view(&self) -> FullResyncView {
        FullResyncView { replication_id: self.replication_id@, offset: self.offset }
    }
}

/// The start of the status line that announces a full resynchronisation.
pub open spec fn full_resync_prefix() -> Seq<u8> {
    ascii("+FULLRESYNC "@)
}

/// What the reply to PSYNC announces: its first line is the prefix, the
/// master's replication id as one word, a space, and the offset in decimal,
/// which fits in 64 bits. Bytes behind the first line are left aside. Any
/// other reply announces nothing.
pub open spec fn parse_full_resync(reply: Seq<u8>) -> Option<FullResyncView> {
    match split_line(reply) {
        None => None,
        Some((line, _)) => {
            let prefix = full_resync_prefix();
            if line.len() >= prefix.len() && line.take(prefix.len() as int) == prefix {
                let words = line.skip(prefix.len() as int);
                match find_byte(words, SPACE, 0) {
                    None => None,
                    Some(k) => match parse_decimal_up_to(words.skip(k + 1), u64::MAX as nat) {
                        None => None,
                        Some(offset) => if is_token(words.take(k)) {
                            Some(
                                FullResyncView {
                                    replication_id: words.take(k),
                                    offset: offset as u64,
                                },
                            )
                        } else {
                            None
                        },
                    },
                }
            } else {
                None
            }
        },
    }
}

/// Reads what the reply to PSYNC announces.
pub fn read_full_resync(reply: &[u8]) -> (announced: Option<FullResync>)
    ensures
        match parse_full_resync(reply@) {
            Some(resync) => announced matches Some(read) && read@ == resync,
            None => announced is None,
        },
{
    let line = match split_at_crlf(reply) {
        None => {
            return None;
        },
        Some((line, _)) => line,
    };
    proof {
        reveal_strlit("+FULLRESYNC ");
    }
    let prefix = ascii_bytes("+FULLRESYNC ");
    if line.len() < prefix.len() {
        return None;
    }
    let start = slice_subrange(line, 0, prefix.len());
    assert(start@ =~= line@.take(prefix@.len() as int));
    if !bytes_eq(start, prefix) {
        return None;
    }
    let words = slice_subrange(line, prefix.len(), line.len());
    assert(words@ =~= line@.skip(prefix@.len() as int));
    let k: usize = match position_of(words, SPACE) {
        None => {
            return None;
        },
        Some(k) => k,
    };
    proof {
        lemma_find_byte(words@, SPACE, 0);
    }
    let digits = slice_subrange(words, k + 1, words.len());
    assert(digits@ =~= words@.skip(k + 1));
    let offset: u64 = match parse_decimal_bounded(digits, u64::MAX) {
        None => {
            return None;
        },
        Some(offset) => offset,
    };
    let id = slice_subrange(words, 0, k);
    assert(id@ =~= words@.take(k as int));
    if !check_token(id) {
        return None;
    }
    Some(FullResync { replication_id: copy_bytes(id), offset })
}

/// The announcement that a master writes reads back as what it announces,
/// whatever bytes follow it.
pub proof fn lemma_parse_full_resync_of_encoded(
    replication_id: Seq<u8>,
    offset: u64,
    trailing: Seq<u8>,
)
    requires
        is_token(replication_id),
    ensures
        parse_full_resync(full_resync_reply(replication_id, offset) + trailing) == Some(
            FullResyncView { replication_id, offset },
        ),
{
    reveal_strlit("+FULLRESYNC ");
    reveal_strlit("FULLRESYNC");
    let prefix = full_resync_prefix();
    let digits = decimal_digits(offset as nat);
    let head = prefix + replication_id + seq![SPACE];
    let reply = full_resync_reply(replication_id, offset) + trailing;
    lemma_decimal_digits(offset as nat);
    assert(prefix =~= seq![SIMPLE_STRINGS_BYTE] + ascii("FULLRESYNC"@) + seq![SPACE]);
    assert(reply =~= head + digits + crlf() + trailing);
    assert forall|i: int| 0 <= i < head.len() implies head[i] != CR by {
        if prefix.len() <= i < prefix.len() + replication_id.len() {
            assert(head[i] == replication_id[i - prefix.len()]);
            assert(is_token_byte(replication_id[i - prefix.len()]));
        }
    }
    lemma_split_line_after_digits(head, digits, trailing);
    let line = head + digits;
    assert(line.take(prefix.len() as int) =~= prefix);
    let words = line.skip(prefix.len() as int);
    assert(words =~= replication_id + seq![SPACE] + digits);
    let k = replication_id.len() as int;
    lemma_find_byte(words, SPACE, 0);
    assert(words[k] == SPACE);
    assert forall|j: int| 0 <= j < k implies words[j] != SPACE by {
        assert(words[j] == replication_id[j]);
        assert(is_token_byte(replication_id[j]));
    }
    assert(find_byte(words, SPACE, 0) == Some(k));
    assert(words.skip(k + 1) =~= digits);
    assert(words.take(k) =~= replication_id);
}

/// The request that sends PING.
pub open spec fn ping_request() -> Seq<u8> {
    command_bytes(CommandView { name: ascii("PING"@), parameters: Seq::empty() })
}

/// The request that tells the master the port this node listens on.
pub open spec fn replconf_port_request(listening_port: u32) -> Seq<u8> {
    command_bytes(
        CommandView {
            name: ascii("REPLCONF"@),
            parameters: seq![ascii("listening-port"@), decimal_digits(listening_port as nat)],
        },
    )
}

/// The request that tells the master the capabilities of this node.
pub open spec fn replconf_capa_request() -> Seq<u8> {
    command_bytes(
        CommandView {
            name: ascii("REPLCONF"@),
            parameters: seq![ascii("capa"@), ascii("psync2"@)],
        },
    )
}

/// The request that asks for a full resynchronisation, with no replication
/// id and no offset known from before.
pub open spec fn psync_request() -> Seq<u8> {
    command_bytes(
        CommandView { name: ascii("PSYNC"@), parameters: seq![ascii("?"@), ascii("-1"@)] },
    )
}

/// Encodes the request that a name and its parameters make.
fn encode_request(name: &'static str, parameters: Vec<Vec<u8>>) -> (encoded: Vec<u8>)
    requires
        name.is_ascii(),
        name@.len() > 0,
    ensures
        encoded@ == command_bytes(
            CommandView {
                name: ascii(name@),
                parameters: byte_strings(parameters@),
            },
        ),
{
    match RespCommand::new(ascii_bytes(name), parameters) {
        Some(command) => encode_command(&command),
        None => vstd::pervasive::unreached(),
    }
}

/// Writes the request that sends PING.
pub fn encode_ping_request() -> (encoded: Vec<u8>)
    ensures
        encoded@ == ping_request(),
{
    proof {
        reveal_strlit("PING");
    }
    let parameters: Vec<Vec<u8>> = Vec::new();
    assert(byte_strings(parameters@) =~= Seq::<Seq<u8>>::empty());
    encode_request(RespCommandNames::PING, parameters)
}

/// Writes the request that tells the master the port this node listens on.
pub fn encode_replconf_port_request(listening_port: u32) -> (encoded: Vec<u8>)
    ensures
        encoded@ == replconf_port_request(listening_port),
{
    proof {
        reveal_strlit("REPLCONF");
        reveal_strlit("listening-port");
    }
    let mut port: Vec<u8> = Vec::new();
    push_decimal(&mut port, listening_port as u128);
    assert(port@ =~= decimal_digits(listening_port as nat));
    let mut parameters: Vec<Vec<u8>> = Vec::new();
    parameters.push(copy_bytes(ascii_bytes("listening-port")));
    parameters.push(port);
    assert(byte_strings(parameters@) =~= seq![
        ascii("listening-port"@),
        decimal_digits(listening_port as nat),
    ]);
    encode_request(RespCommandNames::REPLCONF, parameters)
}

/// Writes the request that tells the master the capabilities of this node.
pub fn encode_replconf_capa_request() -> (encoded: Vec<u8>)
    ensures
        encoded@ == replconf_capa_request(),
{
    proof {
        reveal_strlit("REPLCONF");
        reveal_strlit("capa");
        reveal_strlit("psync2");
    }
    let mut parameters: Vec<Vec<u8>> = Vec::new();
    parameters.push(copy_bytes(ascii_bytes("capa")));
    parameters.push(copy_bytes(ascii_bytes("psync2")));
    assert(byte_strings(parameters@) =~= seq![
        ascii("capa"@),
        ascii("psync2"@),
    ]);
    encode_request(RespCommandNames::REPLCONF, parameters)
}

/// Writes the request that asks for a full resynchronisation.
pub fn encode_psync_request() -> (encoded: Vec<u8>)
    ensures
        encoded@ == psync_request(),
{
    proof {
        reveal_strlit("PSYNC");
        reveal_strlit("?");
        reveal_strlit("-1");
    }
    let mut parameters: Vec<Vec<u8>> = Vec::new();
    parameters.push(copy_bytes(ascii_bytes("?")));
    parameters.push(copy_bytes(ascii_bytes("-1")));
    assert(byte_strings(parameters@) =~= seq![
        ascii("?"@),
        ascii("-1"@),
    ]);
    encode_request(RespCommandNames::PSYNC, parameters)
}

/// What the driver of a handshake reports.
#[derive(Debug, PartialEq, Eq)]
pub enum HandshakeEvent {
    /// The connection to the master is open.
    Connected,
    /// The request was written in full.
    Sent,
    /// These bytes were read; none means that the master has closed.
    Received(Vec<u8>),
    /// Connecting, writing or reading failed, or brought nothing in time.
    Failed,
}

/// What an event says.
pub enum HandshakeEventView {
    Connected,
    Sent,
    Received(Seq<u8>),
    Failed,
}

impl View for HandshakeEvent {
    type V = HandshakeEventView;

    open spec fn view(&self) -> HandshakeEventView {
        match *self {
            HandshakeEvent::Connected => HandshakeEventView::Connected,
            HandshakeEvent::Sent => HandshakeEventView::Sent,
            HandshakeEvent::Received(bytes) => HandshakeEventView::Received(bytes@),
            HandshakeEvent::Failed => HandshakeEventView::Failed,
        }
    }
}

/// What the driver of a handshake is to do next.
#[derive(Debug, PartialEq, Eq)]
pub enum HandshakeAction {
    /// Open a connection to the master at this address.
    Connect { host: Vec<u8>, port: u32 },
    /// Write this request in full.
    Send(Vec<u8>),
    /// Read the reply.
    Receive,
    /// Go on to serve: the master has announced the full resynchronisation.
    Finish,
    /// Give the handshake up, for this reason.
    Abort(RespError),
}

/// What an action says.
pub enum HandshakeActionView {
    Connect { host: Seq<u8>, port: u32 },
    Send(Seq<u8>),
    Receive,
    Finish,
    Abort(RespError),
}

impl View for HandshakeAction {
    type V = HandshakeActionView;

    open spec fn view(&self) -> HandshakeActionView {
        match *self {
            HandshakeAction::Connect { host, port } => HandshakeActionView::Connect {
                host: host@,
                port,
            },
            HandshakeAction::Send(bytes) => HandshakeActionView::Send(bytes@),
            HandshakeAction::Receive => HandshakeActionView::Receive,
            HandshakeAction::Finish => HandshakeActionView::Finish,
            HandshakeAction::Abort(error) => HandshakeActionView::Abort(error),
        }
    }
}

/// Where a handshake stands, with what it holds once it has ended.
#[derive(Debug)]
enum Phase {
    Connect,
    SendPing,
    AwaitPong,
    SendReplconfPort,
    AwaitPortOk,
    SendReplconfCapa,
    AwaitCapaOk,
    SendPsync,
    AwaitFullresync,
    Done(FullResync),
    Failed(RespError),
}

impl Phase {
    spec fn step(self) -> HandshakeStep {
        match self {
            Phase::Connect => HandshakeStep::Connect,
            Phase::SendPing => HandshakeStep::SendPing,
            Phase::AwaitPong => HandshakeStep::AwaitPong,
            Phase::SendReplconfPort => HandshakeStep::SendReplconfPort,
            Phase::AwaitPortOk => HandshakeStep::AwaitPortOk,
            Phase::SendReplconfCapa => HandshakeStep::SendReplconfCapa,
            Phase::AwaitCapaOk => HandshakeStep::AwaitCapaOk,
            Phase::SendPsync => HandshakeStep::SendPsync,
            Phase::AwaitFullresync => HandshakeStep::AwaitFullresync,
            Phase::Done(_) => HandshakeStep::Done,
            Phase::Failed(_) => HandshakeStep::Failed,
        }
    }
}

/// The handshake of a replica: the step it is at, the addresses it works
/// with, and how it ended once it has.
#[derive(Debug)]
pub struct ReplicaHandshake {
    phase: Phase,
    listening_port: u32,
    master_host: Vec<u8>,
    master_port: u32,
}

/// What a handshake holds.
pub struct HandshakeView {
    pub step: HandshakeStep,
    /// The port this node listens on.
    pub listening_port: u32,
    pub master_host: Seq<u8>,
    pub master_port: u32,
    /// What the master announced, once the handshake is done.
    pub resync: Option<FullResyncView>,
    /// Why the handshake was given up, once it has failed.
    pub error: Option<RespError>,
}

impl HandshakeView {
    /// The handshake of a replica at its start.
    pub open spec fn start(listening_port: u32, master_host: Seq<u8>, master_port: u32)
        -> HandshakeView {
        HandshakeView {
            step: HandshakeStep::Connect,
            listening_port,
            master_host,
            master_port,
            resync: None,
            error: None,
        }
    }

    /// An announcement is held exactly when the handshake is done, and an
    /// error exactly when it has failed.
    pub open spec fn wf(self) -> bool {
        &&& self.resync is Some <==> self.step == HandshakeStep::Done
        &&& self.error is Some <==> self.step == HandshakeStep::Failed
    }

    /// The handshake moved on to `step`.
    pub open spec fn at(self, step: HandshakeStep) -> HandshakeView {
        HandshakeView { step, ..self }
    }

    /// The handshake given up for the reason `error`.
    pub open spec fn failed(self, error: RespError) -> HandshakeView {
        HandshakeView { step: HandshakeStep::Failed, error: Some(error), ..self }
    }

    /// The handshake done with what the master announced.
    pub open spec fn done(self, resync: FullResyncView) -> HandshakeView {
        HandshakeView { step: HandshakeStep::Done, resync: Some(resync), ..self }
    }
}

/// The handshake after an event.
///
/// A step that connects or sends moves on when its work is reported done;
/// anything else gives the handshake up with `IoFailure`. A step that awaits
/// a reply moves on when the reply received is the one it expects: the
/// reply to PING, the acknowledgement, or an announcement of a full
/// resynchronisation; anything else gives the handshake up with
/// `HandshakeFailure`. A handshake that is done or has failed stays as it
/// is.
pub open spec fn handshake_step(handshake: HandshakeView, event: HandshakeEventView)
    -> HandshakeView {
    match handshake.step {
        HandshakeStep::Connect => match event {
            HandshakeEventView::Connected => handshake.at(HandshakeStep::SendPing),
            _ => handshake.failed(RespError::IoFailure),
        },
        HandshakeStep::SendPing => match event {
            HandshakeEventView::Sent => handshake.at(HandshakeStep::AwaitPong),
            _ => handshake.failed(RespError::IoFailure),
        },
        HandshakeStep::AwaitPong => match event {
            HandshakeEventView::Received(reply) => if reply == pong_reply() {
                handshake.at(HandshakeStep::SendReplconfPort)
            } else {
                handshake.failed(RespError::HandshakeFailure)
            },
            _ => handshake.failed(RespError::HandshakeFailure),
        },
        HandshakeStep::SendReplconfPort => match event {
            HandshakeEventView::Sent => handshake.at(HandshakeStep::AwaitPortOk),
            _ => handshake.failed(RespError::IoFailure),
        },
        HandshakeStep::AwaitPortOk => match event {
            HandshakeEventView::Received(reply) => if reply == ok_reply() {
                handshake.at(HandshakeStep::SendReplconfCapa)
            } else {
                handshake.failed(RespError::HandshakeFailure)
            },
            _ => handshake.failed(RespError::HandshakeFailure),
        },
        HandshakeStep::SendReplconfCapa => match event {
            HandshakeEventView::Sent => handshake.at(HandshakeStep::AwaitCapaOk),
            _ => handshake.failed(RespError::IoFailure),
        },
        HandshakeStep::AwaitCapaOk => match event {
            HandshakeEventView::Received(reply) => if reply == ok_reply() {
                handshake.at(HandshakeStep::SendPsync)
            } else {
                handshake.failed(RespError::HandshakeFailure)
            },
            _ => handshake.failed(RespError::HandshakeFailure),
        },
        HandshakeStep::SendPsync => match event {
            HandshakeEventView::Sent => handshake.at(HandshakeStep::AwaitFullresync),
            _ => handshake.failed(RespError::IoFailure),
        },
        HandshakeStep::AwaitFullresync => match event {
            HandshakeEventView::Received(reply) => match parse_full_resync(reply) {
                Some(resync) => handshake.done(resync),
                None => handshake.failed(RespError::HandshakeFailure),
            },
            _ => handshake.failed(RespError::HandshakeFailure),
        },
        HandshakeStep::Done => handshake,
        HandshakeStep::Failed => handshake,
    }
}

/// What the driver is to do at the step the handshake is at.
pub open spec fn handshake_action(handshake: HandshakeView) -> HandshakeActionView {
    match handshake.step {
        HandshakeStep::Connect => HandshakeActionView::Connect {
            host: handshake.master_host,
            port: handshake.master_port,
        },
        HandshakeStep::SendPing => HandshakeActionView::Send(ping_request()),
        HandshakeStep::SendReplconfPort => HandshakeActionView::Send(
            replconf_port_request(handshake.listening_port),
        ),
        HandshakeStep::SendReplconfCapa => HandshakeActionView::Send(replconf_capa_request()),
        HandshakeStep::SendPsync => HandshakeActionView::Send(psync_request()),
        HandshakeStep::AwaitPong => HandshakeActionView::Receive,
        HandshakeStep::AwaitPortOk => HandshakeActionView::Receive,
        HandshakeStep::AwaitCapaOk => HandshakeActionView::Receive,
        HandshakeStep::AwaitFullresync => HandshakeActionView::Receive,
        HandshakeStep::Done => HandshakeActionView::Finish,
        HandshakeStep::Failed => HandshakeActionView::Abort(
            match handshake.error {
                Some(error) => error,
                None => RespError::HandshakeFailure,
            },
        ),
    }
}

impl View for ReplicaHandshake {
    type V = HandshakeView;

    closed spec fn view(&self) -> HandshakeView {
        HandshakeView {
            step: self.phase.step(),
            listening_port: self.listening_port,
            master_host: self.master_host@,
            master_port: self.master_port,
            resync: match self.phase {
                Phase::Done(resync) => Some(resync@),
                _ => None,
            },
            error: match self.phase {
                Phase::Failed(error) => Some(error),
                _ => None,
            },
        }
    }
}

/// The phase that follows a step which connects or sends.
fn after_work(done: bool, following: Phase) -> (phase: Phase)
    ensures
        phase == if done {
            following
        } else {
            Phase::Failed(RespError::IoFailure)
        },
{
    if done {
        following
    } else {
        Phase::Failed(RespError::IoFailure)
    }
}

/// The phase that follows a step which awaits the reply `expected`.
fn after_reply(event: &HandshakeEvent, expected: &[u8], following: Phase) -> (phase: Phase)
    ensures
        phase == match event@ {
            HandshakeEventView::Received(reply) => if reply == expected@ {
                following
            } else {
                Phase::Failed(RespError::HandshakeFailure)
            },
            _ => Phase::Failed(RespError::HandshakeFailure),
        },
{
    match event {
        HandshakeEvent::Received(reply) => if bytes_eq(reply.as_slice(), expected) {
            following
        } else {
            Phase::Failed(RespError::HandshakeFailure)
        },
        _ => Phase::Failed(RespError::HandshakeFailure),
    }
}

impl ReplicaHandshake {
    /// The handshake of a node with the given startup data, at its start.
    /// Only a replica has one.
    pub fn new(app_data: &AppData) -> (made: Option<ReplicaHandshake>)
        ensures
            match app_data@.role {
                RoleView::Replica { master_host, master_port } => made matches Some(handshake)
                    && handshake@ == HandshakeView::start(
                    app_data@.listening_port,
                    master_host,
                    master_port,
                ),
                RoleView::Master { .. } => made is None,
            },
    {
        match app_data.role() {
            Role::Replica { master_host, master_port } => Some(
                ReplicaHandshake {
                    phase: Phase::Connect,
                    listening_port: app_data.listening_port(),
                    master_host: copy_bytes(master_host.as_slice()),
                    master_port: *master_port,
                },
            ),
            Role::Master { .. } => None,
        }
    }

    /// The step the handshake is at.
    pub fn step(&self) -> (step: HandshakeStep)
        ensures
            step == self@.step,
            self@.wf(),
    {
        match self.phase {
            Phase::Connect => HandshakeStep::Connect,
            Phase::SendPing => HandshakeStep::SendPing,
            Phase::AwaitPong => HandshakeStep::AwaitPong,
            Phase::SendReplconfPort => HandshakeStep::SendReplconfPort,
            Phase::AwaitPortOk => HandshakeStep::AwaitPortOk,
            Phase::SendReplconfCapa => HandshakeStep::SendReplconfCapa,
            Phase::AwaitCapaOk => HandshakeStep::AwaitCapaOk,
            Phase::SendPsync => HandshakeStep::SendPsync,
            Phase::AwaitFullresync => HandshakeStep::AwaitFullresync,
            Phase::Done(_) => HandshakeStep::Done,
            Phase::Failed(_) => HandshakeStep::Failed,
        }
    }

    /// Whether the handshake has ended, in success or in failure.
    pub fn is_finished(&self) -> (finished: bool)
        ensures
            finished == self@.step.is_final(),
    {
        match self.phase {
            Phase::Done(_) => true,
            Phase::Failed(_) => true,
            _ => false,
        }
    }

    /// What the master announced, once the handshake is done.
    pub fn full_resync(&self) -> (resync: Option<&FullResync>)
        ensures
            match resync {
                Some(announced) => self@.resync == Some(announced@),
                None => self@.resync is None,
            },
    {
        match &self.phase {
            Phase::Done(resync) => Some(resync),
            _ => None,
        }
    }

    /// How the handshake ended: well, or with the error that gave it up.
    /// A handshake that has not ended yet has no outcome.
    pub fn outcome(&self) -> (outcome: Option<Result<(), RespError>>)
        ensures
            outcome == match self@.step {
                HandshakeStep::Done => Some(Ok::<(), RespError>(())),
                HandshakeStep::Failed => Some(Err::<(), RespError>(self@.error->0)),
                _ => None,
            },
    {
        match self.phase {
            Phase::Done(_) => Some(Ok(())),
            Phase::Failed(error) => Some(Err(error)),
            _ => None,
        }
    }

    /// What the driver is to do at the step the handshake is at.
    pub fn action(&self) -> (action: HandshakeAction)
        ensures
            action@ == handshake_action(self@),
    {
        match self.phase {
            Phase::Connect => HandshakeAction::Connect {
                host: copy_bytes(self.master_host.as_slice()),
                port: self.master_port,
            },
            Phase::SendPing => HandshakeAction::Send(encode_ping_request()),
            Phase::SendReplconfPort => HandshakeAction::Send(
                encode_replconf_port_request(self.listening_port),
            ),
            Phase::SendReplconfCapa => HandshakeAction::Send(encode_replconf_capa_request()),
            Phase::SendPsync => HandshakeAction::Send(encode_psync_request()),
            Phase::AwaitPong => HandshakeAction::Receive,
            Phase::AwaitPortOk => HandshakeAction::Receive,
            Phase::AwaitCapaOk => HandshakeAction::Receive,
            Phase::AwaitFullresync => HandshakeAction::Receive,
            Phase::Done(_) => HandshakeAction::Finish,
            Phase::Failed(error) => HandshakeAction::Abort(error),
        }
    }

    /// Moves the handshake on by one event, and tells the driver what to do
    /// next.
    pub fn advance(&mut self, event: HandshakeEvent) -> (action: HandshakeAction)
        ensures
            final(self)@ == handshake_step(old(self)@, event@),
            action@ == handshake_action(final(self)@),
    {
        proof {
            reveal_strlit("PONG");
            reveal_strlit("OK");
        }
        let connected = match event {
            HandshakeEvent::Connected => true,
            _ => false,
        };
        let sent = match event {
            HandshakeEvent::Sent => true,
            _ => false,
        };
        let following: Option<Phase> = match self.phase {
            Phase::Connect => Some(after_work(connected, Phase::SendPing)),
            Phase::SendPing => Some(after_work(sent, Phase::AwaitPong)),
            Phase::AwaitPong => {
                let expected = encode_simple_string(ascii_bytes("PONG"));
                Some(after_reply(&event, expected.as_slice(), Phase::SendReplconfPort))
            },
            Phase::SendReplconfPort => Some(after_work(sent, Phase::AwaitPortOk)),
            Phase::AwaitPortOk => {
                let expected = encode_simple_string(ascii_bytes("OK"));
                Some(after_reply(&event, expected.as_slice(), Phase::SendReplconfCapa))
            },
            Phase::SendReplconfCapa => Some(after_work(sent, Phase::AwaitCapaOk)),
            Phase::AwaitCapaOk => {
                let expected = encode_simple_string(ascii_bytes("OK"));
                Some(after_reply(&event, expected.as_slice(), Phase::SendPsync))
            },
            Phase::SendPsync => Some(after_work(sent, Phase::AwaitFullresync)),
            Phase::AwaitFullresync => Some(
                match &event {
                    HandshakeEvent::Received(reply) => match read_full_resync(reply.as_slice()) {
                        Some(resync) => Phase::Done(resync),
                        None => Phase::Failed(RespError::HandshakeFailure),
                    },
                    _ => Phase::Failed(RespError::HandshakeFailure),
                },
            ),
            Phase::Done(_) => None,
            Phase::Failed(_) => None,
        };
        match following {
            Some(phase) => {
                self.phase = phase;
            },
            None => {},
        }
        self.action()
    }
}

/// The handshake runs in a straight line: an event moves a handshake that
/// has not ended to the step that follows the one it is at, or gives it up;
/// a handshake that has ended stays as it is.
pub proof fn lemma_handshake_is_linear(handshake: HandshakeView, event: HandshakeEventView)
    requires
        handshake.wf(),
    ensures
        handshake_step(handshake, event).wf(),
        handshake.step.is_final() ==> handshake_step(handshake, event) == handshake,
        !handshake.step.is_final() ==> handshake_step(handshake, event).step
            == HandshakeStep::Failed || handshake_step(handshake, event).step.rank()
            == handshake.step.rank() + 1,
        handshake_step(handshake, event).listening_port == handshake.listening_port,
        handshake_step(handshake, event).master_host == handshake.master_host,
        handshake_step(handshake, event).master_port == handshake.master_port,
{
}

/// A reply to PSYNC that announces nothing gives the handshake up with
/// `HandshakeFailure`, whatever went well before.
pub proof fn lemma_garbled_psync_reply_fails(handshake: HandshakeView, event: HandshakeEventView)
    requires
        handshake.step == HandshakeStep::AwaitFullresync,
        event matches HandshakeEventView::Received(reply) ==> parse_full_resync(reply) is None,
    ensures
        handshake_step(handshake, event).step == HandshakeStep::Failed,
        handshake_step(handshake, event).error == Some(RespError::HandshakeFailure),
{
}

/// A master serves each request of the handshake with the reply that the
/// handshake expects. Its entries stay as they are; what changes is that it
/// keeps the two settings announced.
pub proof fn lemma_master_serves_handshake_requests(db: DbView, listening_port: u32, now: u64)
    requires
        db.role is Master,
    ensures
        request_reply(ping_request(), db, now) == Ok::<Seq<u8>, RespError>(pong_reply()),
        request_reply(replconf_port_request(listening_port), db, now) == Ok::<Seq<u8>, RespError>(
            ok_reply(),
        ),
        request_reply(replconf_capa_request(), db, now) == Ok::<Seq<u8>, RespError>(ok_reply()),
        request_reply(psync_request(), db, now) == Ok::<Seq<u8>, RespError>(
            full_resync_reply(db.role->Master_replication_id, db.role->Master_offset),
        ),
        db_after_request(ping_request(), db, now) == db,
        db_after_request(replconf_port_request(listening_port), db, now) == (DbView {
            replica_settings: db.replica_settings.push(
                seq![ascii("listening-port"@), decimal_digits(listening_port as nat)],
            ),
            ..db
        }),
        db_after_request(replconf_capa_request(), db, now) == (DbView {
            replica_settings: db.replica_settings.push(seq![ascii("capa"@), ascii("psync2"@)]),
            ..db
        }),
        db_after_request(psync_request(), db, now) == db,
{
    reveal_strlit("PING");
    reveal_strlit("ECHO");
    reveal_strlit("SET");
    reveal_strlit("GET");
    reveal_strlit("INFO");
    reveal_strlit("REPLCONF");
    reveal_strlit("PSYNC");
    let ping = CommandView { name: ascii("PING"@), parameters: Seq::empty() };
    let port = CommandView {
        name: ascii("REPLCONF"@),
        parameters: seq![ascii("listening-port"@), decimal_digits(listening_port as nat)],
    };
    let capa = CommandView {
        name: ascii("REPLCONF"@),
        parameters: seq![ascii("capa"@), ascii("psync2"@)],
    };
    let psync = CommandView {
        name: ascii("PSYNC"@),
        parameters: seq![ascii("?"@), ascii("-1"@)],
    };
    assert(upper(ping.name) =~= ping.name);
    assert(upper(port.name) =~= port.name);
    assert(upper(psync.name) =~= psync.name);
    lemma_decode_encode_roundtrip(ping);
    lemma_decode_encode_roundtrip(port);
    lemma_decode_encode_roundtrip(capa);
    lemma_decode_encode_roundtrip(psync);
}

/// The events of a handshake in which every connect and send succeeds and
/// every reply is what a master holding `db` replies at time `now`.
pub open spec fn events_with_master(db: DbView, listening_port: u32, now: u64) -> Seq<
    HandshakeEventView,
> {
    seq![
        HandshakeEventView::Connected,
        HandshakeEventView::Sent,
        reply_event(request_reply(ping_request(), db, now)),
        HandshakeEventView::Sent,
        reply_event(request_reply(replconf_port_request(listening_port), db, now)),
        HandshakeEventView::Sent,
        reply_event(request_reply(replconf_capa_request(), db, now)),
        HandshakeEventView::Sent,
        reply_event(request_reply(psync_request(), db, now)),
    ]
}

/// What the driver reports of a request that was served: the reply, or a
/// failure where the request ended in an error.
pub open spec fn reply_event(served: Result<Seq<u8>, RespError>) -> HandshakeEventView {
    match served {
        Ok(reply) => HandshakeEventView::Received(reply),
        Err(_) => HandshakeEventView::Failed,
    }
}

/// The handshake after a run of events.
pub open spec fn handshake_run(handshake: HandshakeView, events: Seq<HandshakeEventView>)
    -> HandshakeView
    decreases events.len(),
{
    if events.len() == 0 {
        handshake
    } else {
        handshake_step(handshake_run(handshake, events.drop_last()), events.last())
    }
}

/// A replica's handshake with a master completes: where each request that
/// the handshake sends is served by a master, and each reply is handed back
/// to the handshake, it ends done, with the master's replication id and
/// offset.
pub proof fn lemma_handshake_with_master_completes(
    handshake: HandshakeView,
    db: DbView,
    now: u64,
)
    requires
        handshake.step == HandshakeStep::Connect,
        db.role is Master,
        db.role.wf(),
    ensures
        handshake_run(handshake, events_with_master(db, handshake.listening_port, now))
            == handshake.done(
            FullResyncView {
                replication_id: db.role->Master_replication_id,
                offset: db.role->Master_offset,
            },
        ),
{
    let events = events_with_master(db, handshake.listening_port, now);
    lemma_master_serves_handshake_requests(db, handshake.listening_port, now);
    let id = db.role->Master_replication_id;
    let offset = db.role->Master_offset;
    lemma_parse_full_resync_of_encoded(id, offset, Seq::empty());
    assert(full_resync_reply(id, offset) + Seq::<u8>::empty() =~= full_resync_reply(id, offset));
    let e0 = events.take(0);
    let e1 = events.take(1);
    let e2 = events.take(2);
    let e3 = events.take(3);
    let e4 = events.take(4);
    let e5 = events.take(5);
    let e6 = events.take(6);
    let e7 = events.take(7);
    let e8 = events.take(8);
    assert(e1.drop_last() =~= e0);
    assert(e2.drop_last() =~= e1);
    assert(e3.drop_last() =~= e2);
    assert(e4.drop_last() =~= e3);
    assert(e5.drop_last() =~= e4);
    assert(e6.drop_last() =~= e5);
    assert(e7.drop_last() =~= e6);
    assert(e8.drop_last() =~= e7);
    assert(events.drop_last() =~= e8);
    assert(handshake_run(handshake, e0) == handshake);
    assert(handshake_run(handshake, e1) == handshake.at(HandshakeStep::SendPing));
    assert(handshake_run(handshake, e2) == handshake.at(HandshakeStep::AwaitPong));
    assert(handshake_run(handshake, e3) == handshake.at(HandshakeStep::SendReplconfPort));
    assert(handshake_run(handshake, e4) == handshake.at(HandshakeStep::AwaitPortOk));
    assert(handshake_run(handshake, e5) == handshake.at(HandshakeStep::SendReplconfCapa));
    assert(handshake_run(handshake, e6) == handshake.at(HandshakeStep::AwaitCapaOk));
    assert(handshake_run(handshake, e7) == handshake.at(HandshakeStep::SendPsync));
    assert(handshake_run(handshake, e8) == handshake.at(HandshakeStep::AwaitFullresync));
}

} // verus!
