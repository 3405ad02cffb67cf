//! The handlers of the fixed command set. Each reads the decoded command of
//! a context, works on the shared store where the command asks for it, and
//! writes the encoded reply into the context.

use vstd::prelude::*;
use crate::error::RespError;
use crate::models::connection_context::{ConnectionContext, ContextView};
use crate::models::db::{after_lookup, lookup, DbView, InMemoryDb, Role, RoleView, StoredValue};
use crate::resp_parser::data_types::{
    bulk_string,
    crlf,
    encode_bulk_string,
    encode_null_bulk_string,
    encode_simple_string,
    null_bulk_string,
    simple_string,
};
use crate::resp_parser::shared::{byte_strings, copy_byte_strings};
use crate::utils::{
    append_bytes,
    ascii,
    ascii_bytes,
    bytes_eq,
    copy_bytes,
    decimal_digits,
    parse_decimal_bounded,
    parse_decimal_up_to,
    push_decimal,
    to_ascii_uppercase,
    upper,
    CR,
    LF,
    SPACE,
};

verus! {

/// The reply to PING.
pub open spec fn pong_reply() -> Seq<u8> {
    simple_string(ascii("PONG"@))
}

/// The reply that acknowledges a command.
pub open spec fn ok_reply() -> Seq<u8> {
    simple_string(ascii("OK"@))
}

/// The reply to ECHO: the one parameter, as a bulk string.
pub open spec fn echo_reply(parameters: Seq<Seq<u8>>) -> Result<Seq<u8>, RespError> {
    if parameters.len() == 1 {
        Ok(bulk_string(parameters[0]))
    } else {
        Err(RespError::ArityError)
    }
}

/// The time that lies `millis` milliseconds after `now`, or the last time
/// there is where that is out of range.
pub open spec fn deadline_after(now: u64, millis: nat) -> u64 {
    if now + millis > u64::MAX {
        u64::MAX
    } else {
        (now + millis) as u64
    }
}

/// The deadline that the parameters of a SET ask for at time `now`.
///
/// Behind the key and the value may stand an expiry option and its amount:
/// `PX` with milliseconds or `EX` with seconds, in any case, the amount a
/// decimal number that fits in 64 bits. Parameters that do not read so ask
/// for no deadline.
pub open spec fn set_deadline(parameters: Seq<Seq<u8>>, now: u64) -> Option<u64> {
    if parameters.len() >= 4 {
        match parse_decimal_up_to(parameters[3], u64::MAX as nat) {
            Some(amount) => if upper(parameters[2]) == ascii("PX"@) {
                Some(deadline_after(now, amount))
            } else if upper(parameters[2]) == ascii("EX"@) {
                Some(deadline_after(now, amount * 1000))
            } else {
                None
            },
            None => None,
        }
    } else {
        None
    }
}

/// The reply to SET: an acknowledgement, given a key and a value.
pub open spec fn set_reply(parameters: Seq<Seq<u8>>) -> Result<Seq<u8>, RespError> {
    if parameters.len() >= 2 {
        Ok(ok_reply())
    } else {
        Err(RespError::ArityError)
    }
}

/// The entries after a SET at time `now`.
pub open spec fn entries_after_set(
    entries: Map<Seq<u8>, StoredValue>,
    parameters: Seq<Seq<u8>>,
    now: u64,
) -> Map<Seq<u8>, StoredValue> {
    if parameters.len() >= 2 {
        entries.insert(
            parameters[0],
            StoredValue { value: parameters[1], expires_at: set_deadline(parameters, now) },
        )
    } else {
        entries
    }
}

/// The reply to GET at time `now`: the value as a bulk string, or the null
/// bulk string where the key has no value.
pub open spec fn get_reply(entries: Map<Seq<u8>, StoredValue>, parameters: Seq<Seq<u8>>, now: u64)
    -> Result<Seq<u8>, RespError> {
    if parameters.len() == 1 {
        match lookup(entries, parameters[0], now) {
            Some(value) => Ok(bulk_string(value)),
            None => Ok(null_bulk_string()),
        }
    } else {
        Err(RespError::ArityError)
    }
}

/// The entries after a GET at time `now`.
pub open spec fn entries_after_get(
    entries: Map<Seq<u8>, StoredValue>,
    parameters: Seq<Seq<u8>>,
    now: u64,
) -> Map<Seq<u8>, StoredValue> {
    if parameters.len() == 1 {
        after_lookup(entries, parameters[0], now)
    } else {
        entries
    }
}

/// What INFO tells of a node in the given role: the role, then the
/// replication id and offset of a master, or the master's address for a
/// replica, one line each.
pub open spec fn info_text(role: RoleView) -> Seq<u8> {
    match role {
        RoleView::Master { replication_id, offset } => ascii("role:master"@) + crlf() + ascii(
            "master_replid:"@,
        ) + replication_id + crlf() + ascii("master_repl_offset:"@) + decimal_digits(
            offset as nat,
        ) + crlf(),
        RoleView::Replica { master_host, master_port } => ascii("role:slave"@) + crlf() + ascii(
            "master_host:"@,
        ) + master_host + crlf() + ascii("master_port:"@) + decimal_digits(master_port as nat)
            + crlf(),
    }
}

/// The reply to INFO, with or without the name of a section.
pub open spec fn info_reply(role: RoleView, parameters: Seq<Seq<u8>>) -> Result<
    Seq<u8>,
    RespError,
> {
    if parameters.len() <= 1 {
        Ok(bulk_string(info_text(role)))
    } else {
        Err(RespError::ArityError)
    }
}

/// The reply to REPLCONF: an acknowledgement, given a setting and its
/// arguments.
pub open spec fn replconf_reply(parameters: Seq<Seq<u8>>) -> Result<Seq<u8>, RespError> {
    if parameters.len() >= 2 {
        Ok(ok_reply())
    } else {
        Err(RespError::ArityError)
    }
}

/// The settings that replicas have announced, after a REPLCONF: the setting
/// that was acknowledged is kept behind those kept before.
pub open spec fn settings_after_replconf(
    settings: Seq<Seq<Seq<u8>>>,
    parameters: Seq<Seq<u8>>,
) -> Seq<Seq<Seq<u8>>> {
    if parameters.len() >= 2 {
        settings.push(parameters)
    } else {
        settings
    }
}

/// The status line that announces a full resynchronisation from the master
/// with the given replication id, starting at the given offset.
pub open spec fn full_resync_reply(replication_id: Seq<u8>, offset: u64) -> Seq<u8> {
    simple_string(
        ascii("FULLRESYNC"@) + seq![SPACE] + replication_id + seq![SPACE] + decimal_digits(
            offset as nat,
        ),
    )
}

/// The reply to PSYNC: a master announces a full resynchronisation; a
/// replica does not serve the command.
pub open spec fn psync_reply(role: RoleView, parameters: Seq<Seq<u8>>) -> Result<
    Seq<u8>,
    RespError,
> {
    if parameters.len() != 2 {
        Err(RespError::ArityError)
    } else {
        match role {
            RoleView::Master { replication_id, offset } => Ok(
                full_resync_reply(replication_id, offset),
            ),
            RoleView::Replica { .. } => Err(RespError::UnsupportedCommand),
        }
    }
}

/// Replies to PING, whatever the parameters.
pub fn handle_command_ping(context: &mut ConnectionContext) -> (handled: Result<(), RespError>)
    requires
        old(context)@.command is Some,
    ensures
        handled is Ok,
        final(context)@ == (ContextView { response: Some(pong_reply()), ..old(context)@ }),
{
    proof {
        reveal_strlit("PONG");
    }
    context.set_response_command_response(encode_simple_string(ascii_bytes("PONG")));
    Ok(())
}

/// Replies to ECHO with its one parameter.
pub fn handle_command_echo(context: &mut ConnectionContext) -> (handled: Result<(), RespError>)
    requires
        old(context)@.command is Some,
    ensures
        match echo_reply(old(context)@.command->0.parameters) {
            Ok(reply) => handled is Ok && final(context)@ == (ContextView {
                response: Some(reply),
                ..old(context)@
            }),
            Err(error) => handled == Err::<(), RespError>(error) && final(context)@ == old(
                context,
            )@,
        },
{
    let parameters = context.unwrap_request_resp_command().parameters();
    if parameters.len() != 1 {
        return Err(RespError::ArityError);
    }
    let reply = encode_bulk_string(parameters[0].as_slice());
    context.set_response_command_response(reply);
    Ok(())
}

/// The deadline that the parameters of a SET ask for at time `now`.
fn deadline_of(parameters: &Vec<Vec<u8>>, now: u64) -> (deadline: Option<u64>)
    ensures
        deadline == set_deadline(byte_strings(parameters@), now),
{
    if parameters.len() < 4 {
        return None;
    }
    let amount: u64 = match parse_decimal_bounded(parameters[3].as_slice(), u64::MAX) {
        None => {
            return None;
        },
        Some(amount) => amount,
    };
    let option = to_ascii_uppercase(parameters[2].as_slice());
    proof {
        reveal_strlit("PX");
        reveal_strlit("EX");
    }
    if bytes_eq(option.as_slice(), ascii_bytes("PX")) {
        Some(now.saturating_add(amount))
    } else if bytes_eq(option.as_slice(), ascii_bytes("EX")) {
        match amount.checked_mul(1000) {
            Some(millis) => Some(now.saturating_add(millis)),
            None => Some(u64::MAX),
        }
    } else {
        None
    }
}

/// Serves SET at time `now`: stores the value under the key, with the
/// deadline that the parameters ask for, and acknowledges.
pub fn handle_command_set(
    context: &mut ConnectionContext,
    mem_db: &mut InMemoryDb,
    now: u64,
) -> (handled: Result<(), RespError>)
    requires
        old(context)@.command is Some,
    ensures
        match set_reply(old(context)@.command->0.parameters) {
            Ok(reply) => handled is Ok && final(context)@ == (ContextView {
                response: Some(reply),
                ..old(context)@
            }),
            Err(error) => handled == Err::<(), RespError>(error) && final(context)@ == old(
                context,
            )@,
        },
        final(mem_db)@ == (DbView {
            entries: entries_after_set(
                old(mem_db)@.entries,
                old(context)@.command->0.parameters,
                now,
            ),
            ..old(mem_db)@
        }),
{
    let parameters = context.unwrap_request_resp_command().parameters();
    if parameters.len() < 2 {
        return Err(RespError::ArityError);
    }
    let key = copy_bytes(parameters[0].as_slice());
    let value = copy_bytes(parameters[1].as_slice());
    let deadline = deadline_of(parameters, now);
    mem_db.set(key, value, deadline);
    proof {
        reveal_strlit("OK");
    }
    context.set_response_command_response(encode_simple_string(ascii_bytes("OK")));
    Ok(())
}

/// Serves GET at time `now`: replies with the value of the key, or with the
/// null bulk string where the key has none. An entry found past its
/// deadline is dropped.
pub fn handle_command_get(
    context: &mut ConnectionContext,
    mem_db: &mut InMemoryDb,
    now: u64,
) -> (handled: Result<(), RespError>)
    requires
        old(context)@.command is Some,
    ensures
        match get_reply(old(mem_db)@.entries, old(context)@.command->0.parameters, now) {
            Ok(reply) => handled is Ok && final(context)@ == (ContextView {
                response: Some(reply),
                ..old(context)@
            }),
            Err(error) => handled == Err::<(), RespError>(error) && final(context)@ == old(
                context,
            )@,
        },
        final(mem_db)@ == (DbView {
            entries: entries_after_get(
                old(mem_db)@.entries,
                old(context)@.command->0.parameters,
                now,
            ),
            ..old(mem_db)@
        }),
{
    let parameters = context.unwrap_request_resp_command().parameters();
    if parameters.len() != 1 {
        return Err(RespError::ArityError);
    }
    let reply = match mem_db.get(parameters[0].as_slice(), now) {
        Some(value) => encode_bulk_string(value.as_slice()),
        None => encode_null_bulk_string(),
    };
    context.set_response_command_response(reply);
    Ok(())
}

/// Writes what INFO tells of a node in the given role.
fn encode_info_text(role: &Role) -> (text: Vec<u8>)
    ensures
        text@ == info_text(role@),
{
    let mut text: Vec<u8> = Vec::new();
    proof {
        reveal_strlit("role:master");
        reveal_strlit("master_replid:");
        reveal_strlit("master_repl_offset:");
        reveal_strlit("role:slave");
        reveal_strlit("master_host:");
        reveal_strlit("master_port:");
    }
    match role {
        Role::Master { replication_id, offset } => {
            append_bytes(&mut text, ascii_bytes("role:master"));
            text.push(CR);
            text.push(LF);
            append_bytes(&mut text, ascii_bytes("master_replid:"));
            append_bytes(&mut text, replication_id.as_slice());
            text.push(CR);
            text.push(LF);
            append_bytes(&mut text, ascii_bytes("master_repl_offset:"));
            push_decimal(&mut text, *offset as u128);
            text.push(CR);
            text.push(LF);
        },
        Role::Replica { master_host, master_port } => {
            append_bytes(&mut text, ascii_bytes("role:slave"));
            text.push(CR);
            text.push(LF);
            append_bytes(&mut text, ascii_bytes("master_host:"));
            append_bytes(&mut text, master_host.as_slice());
            text.push(CR);
            text.push(LF);
            append_bytes(&mut text, ascii_bytes("master_port:"));
            push_decimal(&mut text, *master_port as u128);
            text.push(CR);
            text.push(LF);
        },
    }
    assert(text@ =~= info_text(role@));
    text
}

/// Serves INFO: replies with the node's role and replication identifiers.
pub fn handle_command_info(
    context: &mut ConnectionContext,
    mem_db: &InMemoryDb,
) -> (handled: Result<(), RespError>)
    requires
        old(context)@.command is Some,
    ensures
        match info_reply(mem_db@.role, old(context)@.command->0.parameters) {
            Ok(reply) => handled is Ok && final(context)@ == (ContextView {
                response: Some(reply),
                ..old(context)@
            }),
            Err(error) => handled == Err::<(), RespError>(error) && final(context)@ == old(
                context,
            )@,
        },
{
    if context.unwrap_request_resp_command().parameters().len() > 1 {
        return Err(RespError::ArityError);
    }
    let text = encode_info_text(mem_db.role());
    context.set_response_command_response(encode_bulk_string(text.as_slice()));
    Ok(())
}

/// Serves REPLCONF: keeps the setting that the replica announces, and
/// acknowledges it. The entries of the store are not touched.
pub fn handle_command_replconf(
    context: &mut ConnectionContext,
    mem_db: &mut InMemoryDb,
) -> (handled: Result<(), RespError>)
    requires
        old(context)@.command is Some,
    ensures
        match replconf_reply(old(context)@.command->0.parameters) {
            Ok(reply) => handled is Ok && final(context)@ == (ContextView {
                response: Some(reply),
                ..old(context)@
            }),
            Err(error) => handled == Err::<(), RespError>(error) && final(context)@ == old(
                context,
            )@,
        },
        final(mem_db)@ == (DbView {
            replica_settings: settings_after_replconf(
                old(mem_db)@.replica_settings,
                old(context)@.command->0.parameters,
            ),
            ..old(mem_db)@
        }),
{
    let parameters = context.unwrap_request_resp_command().parameters();
    if parameters.len() < 2 {
        return Err(RespError::ArityError);
    }
    mem_db.record_replica_setting(copy_byte_strings(parameters));
    proof {
        reveal_strlit("OK");
    }
    context.set_response_command_response(encode_simple_string(ascii_bytes("OK")));
    Ok(())
}

/// Writes the status line that announces a full resynchronisation.
pub fn encode_full_resync(replication_id: &[u8], offset: u64) -> (encoded: Vec<u8>)
    ensures
        encoded@ == full_resync_reply(replication_id@, offset),
{
    proof {
        reveal_strlit("FULLRESYNC");
    }
    let mut text: Vec<u8> = Vec::new();
    append_bytes(&mut text, ascii_bytes("FULLRESYNC"));
    text.push(SPACE);
    append_bytes(&mut text, replication_id);
    text.push(SPACE);
    push_decimal(&mut text, offset as u128);
    assert(text@ =~= ascii("FULLRESYNC"@) + seq![SPACE] + replication_id@ + seq![SPACE]
        + decimal_digits(offset as nat));
    encode_simple_string(text.as_slice())
}

/// Serves PSYNC: a master announces a full resynchronisation with its
/// replication id and offset; a replica does not serve the command.
pub fn handle_command_psync(
    context: &mut ConnectionContext,
    mem_db: &InMemoryDb,
) -> (handled: Result<(), RespError>)
    requires
        old(context)@.command is Some,
    ensures
        match psync_reply(mem_db@.role, old(context)@.command->0.parameters) {
            Ok(reply) => handled is Ok && final(context)@ == (ContextView {
                response: Some(reply),
                ..old(context)@
            }),
            Err(error) => handled == Err::<(), RespError>(error) && final(context)@ == old(
                context,
            )@,
        },
{
    if context.unwrap_request_resp_command().parameters().len() != 2 {
        return Err(RespError::ArityError);
    }
    let reply = match mem_db.role() {
        Role::Master { replication_id, offset } => encode_full_resync(
            replication_id.as_slice(),
            *offset,
        ),
        Role::Replica { .. } => {
            return Err(RespError::UnsupportedCommand);
        },
    };
    context.set_response_command_response(reply);
    Ok(())
}

/// A value that was set without a deadline is what a later read of its key
/// returns, at whatever time.
pub proof fn lemma_get_after_set(
    entries: Map<Seq<u8>, StoredValue>,
    key: Seq<u8>,
    value: Seq<u8>,
    set_at: u64,
    read_at: u64,
)
    ensures
        get_reply(entries_after_set(entries, seq![key, value], set_at), seq![key], read_at) == Ok::<
            Seq<u8>,
            RespError,
        >(bulk_string(value)),
{
}

/// A key that was never set reads as the null bulk string.
pub proof fn lemma_get_of_absent_key(entries: Map<Seq<u8>, StoredValue>, key: Seq<u8>, now: u64)
    requires
        !entries.contains_key(key),
    ensures
        get_reply(entries, seq![key], now) == Ok::<Seq<u8>, RespError>(null_bulk_string()),
        entries_after_get(entries, seq![key], now) == entries,
{
}

} // verus!
