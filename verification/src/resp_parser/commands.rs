//! Decoding a request into a command, and encoding a command as a request.

use vstd::prelude::*;
use crate::error::RespError;
use crate::models::connection_context::{ConnectionContext, ContextView};
use crate::resp_parser::data_types::{
    array_header,
    bulk_string,
    crlf,
    lemma_parse_bulk_string_append,
    lemma_parse_bulk_string_of_encoded,
    lemma_split_line_after_digits,
    move_resp_bulk_string,
    parse_bulk_string,
    push_bulk_string,
};
use crate::resp_parser::shared::{
    byte_strings,
    CommandView,
    RespCommand,
    ARRAYS_BYTE,
    MAX_PARAMETERS,
};
use crate::utils::{
    copy_bytes,
    decimal_digits,
    to_ascii_uppercase,
    lemma_decimal_digits,
    lemma_find_crlf,
    lemma_split_line_append,
    lemma_upper_idempotent,
    parse_decimal_bounded,
    parse_decimal_up_to,
    push_decimal,
    split_at_crlf,
    split_line,
    upper,
    CR,
    LF,
};

verus! {

/// The most elements an array can count: the name and its parameters.
pub const MAX_ELEMENTS: usize = 255;

/// The `count` bulk strings at the front of `s`, in order, and the bytes
/// that follow the last of them. There is none where `s` does not start
/// with that many bulk strings.
pub open spec fn parse_bulk_strings(s: Seq<u8>, count: nat) -> Option<(Seq<Seq<u8>>, Seq<u8>)>
    decreases count,
{
    if count == 0 {
        Some((Seq::empty(), s))
    } else {
        match parse_bulk_string(s) {
            Some((first, rest)) => match parse_bulk_strings(rest, (count - 1) as nat) {
                Some((others, tail)) => Some((seq![first] + others, tail)),
                None => None,
            },
            None => None,
        }
    }
}

/// The command with the given name whose `parameter_count` parameters are
/// the bulk strings at the front of `body`, in their order. The name is
/// kept as given and may not be empty; bytes behind the last parameter are
/// left aside.
pub open spec fn parse_command_body(name: Seq<u8>, parameter_count: nat, body: Seq<u8>) -> Result<
    CommandView,
    RespError,
> {
    if name.len() == 0 {
        Err(RespError::MalformedRequest)
    } else {
        match parse_bulk_strings(body, parameter_count) {
            Some((parameters, _)) => Ok(CommandView { name, parameters }),
            None => Err(RespError::MalformedRequest),
        }
    }
}

/// What a request decodes to.
///
/// A request is the array marker, the number of elements in decimal (an
/// optional plus sign and digits, from 1 to `MAX_ELEMENTS`), a line break,
/// and that many bulk strings. The first is the command's name, which may
/// not be empty and is folded to upper case; the others are its parameters.
/// Bytes behind the last element are left aside. An input without bytes is
/// an `EmptyRequest`; any other input that is not a request is a
/// `MalformedRequest`.
pub open spec fn decode_spec(s: Seq<u8>) -> Result<CommandView, RespError> {
    if s.len() == 0 {
        Err(RespError::EmptyRequest)
    } else if s[0] != ARRAYS_BYTE {
        Err(RespError::MalformedRequest)
    } else {
        match split_line(s) {
            None => Err(RespError::MalformedRequest),
            Some((header, body)) => match parse_decimal_up_to(header.skip(1), MAX_ELEMENTS as nat) {
                None => Err(RespError::MalformedRequest),
                Some(count) => if count == 0 {
                    Err(RespError::MalformedRequest)
                } else {
                    match parse_bulk_string(body) {
                        None => Err(RespError::MalformedRequest),
                        Some((name, rest)) => parse_command_body(
                            upper(name),
                            (count - 1) as nat,
                            rest,
                        ),
                    }
                },
            },
        }
    }
}

/// The outcome of reading further bulk strings behind those already read.
spec fn after_prefix(
    prefix: Seq<Seq<u8>>,
    further: Option<(Seq<Seq<u8>>, Seq<u8>)>,
) -> Option<(Seq<Seq<u8>>, Seq<u8>)> {
    match further {
        Some((others, tail)) => Some((prefix + others, tail)),
        None => None,
    }
}

/// Reads the parameters of a command off the front of `body` and makes the
/// command, for any count of parameters. The name is kept as given.
pub fn parse_resp_multi_param_command_body(
    command_name: &Vec<u8>,
    parameter_count: u8,
    body: &[u8],
) -> (parsed: Result<RespCommand, RespError>)
    ensures
        match parse_command_body(command_name@, parameter_count as nat, body@) {
            Ok(command) => parsed matches Ok(made) && made@ == command,
            Err(error) => parsed matches Err(e) && e == error,
        },
{
    if command_name.len() == 0 {
        return Err(RespError::MalformedRequest);
    }
    let mut parameters: Vec<Vec<u8>> = Vec::new();
    let mut rest: &[u8] = body;
    let mut i: u8 = 0;
    assert(byte_strings(parameters@) =~= Seq::<Seq<u8>>::empty());
    assert(after_prefix(
        Seq::<Seq<u8>>::empty(),
        parse_bulk_strings(body@, parameter_count as nat),
    ) == parse_bulk_strings(body@, parameter_count as nat)) by {
        match parse_bulk_strings(body@, parameter_count as nat) {
            Some((others, tail)) => {
                assert(Seq::<Seq<u8>>::empty() + others =~= others);
            },
            None => {},
        }
    }
    while i < parameter_count
        invariant
            i <= parameter_count,
            parameters@.len() == i,
            parse_bulk_strings(body@, parameter_count as nat) == after_prefix(
                byte_strings(parameters@),
                parse_bulk_strings(rest@, (parameter_count - i) as nat),
            ),
        decreases parameter_count - i,
    {
        let ghost before = byte_strings(parameters@);
        match move_resp_bulk_string(rest) {
            Err(_) => {
                return Err(RespError::MalformedRequest);
            },
            Ok((payload, tail)) => {
                parameters.push(copy_bytes(payload));
                proof {
                    let further = parse_bulk_strings(tail@, (parameter_count - i - 1) as nat);
                    assert(byte_strings(parameters@) =~= before.push(payload@));
                    match further {
                        Some((others, end)) => {
                            assert(before + (seq![payload@] + others) =~= before.push(payload@)
                                + others);
                        },
                        None => {},
                    }
                }
                rest = tail;
            },
        }
        i += 1;
    }
    proof {
        assert(byte_strings(parameters@) + Seq::<Seq<u8>>::empty() =~= byte_strings(
            parameters@,
        ));
    }
    match RespCommand::new(command_name.as_slice(), parameters) {
        Some(command) => Ok(command),
        None => Err(RespError::MalformedRequest),
    }
}

/// Decodes a request into a command.
pub fn decode(bytes: &[u8]) -> (decoded: Result<RespCommand, RespError>)
    ensures
        match decode_spec(bytes@) {
            Ok(command) => decoded matches Ok(made) && made@ == command,
            Err(error) => decoded matches Err(e) && e == error,
        },
{
    if bytes.len() == 0 {
        return Err(RespError::EmptyRequest);
    }
    if bytes[0] != ARRAYS_BYTE {
        return Err(RespError::MalformedRequest);
    }
    let (header, body) = match split_at_crlf(bytes) {
        None => {
            return Err(RespError::MalformedRequest);
        },
        Some(parts) => parts,
    };
    proof {
        lemma_find_crlf(bytes@, 0);
    }
    if header.len() < 2 {
        assert(header@.skip(1).len() == 0);
        return Err(RespError::MalformedRequest);
    }
    let num_of_parts = vstd::slice::slice_subrange(header, 1, header.len());
    assert(num_of_parts@ =~= header@.skip(1));
    let count: u64 = match parse_decimal_bounded(num_of_parts, MAX_ELEMENTS as u64) {
        None => {
            return Err(RespError::MalformedRequest);
        },
        Some(count) => count,
    };
    if count == 0 {
        return Err(RespError::MalformedRequest);
    }
    let (name, rest) = match move_resp_bulk_string(body) {
        Err(_) => {
            return Err(RespError::MalformedRequest);
        },
        Ok(moved) => moved,
    };
    let command_name = to_ascii_uppercase(name);
    parse_resp_multi_param_command_body(&command_name, (count - 1) as u8, rest)
}

/// A run of `count` bulk strings that was read holds `count` strings.
pub proof fn lemma_parse_bulk_strings_len(s: Seq<u8>, count: nat)
    ensures
        parse_bulk_strings(s, count) matches Some((items, _)) ==> items.len() == count,
    decreases count,
{
    if count > 0 {
        match parse_bulk_string(s) {
            Some((_, rest)) => {
                lemma_parse_bulk_strings_len(rest, (count - 1) as nat);
            },
            None => {},
        }
    }
}

/// Every command that a request decodes to has a name that is not empty and
/// is in upper case, and no more parameters than a request can carry.
pub proof fn lemma_decoded_command_is_canonical(s: Seq<u8>)
    ensures
        decode_spec(s) matches Ok(command) ==> command.canonical(),
{
    if let Ok(command) = decode_spec(s) {
        let (header, body) = split_line(s).unwrap();
        let count = parse_decimal_up_to(header.skip(1), MAX_ELEMENTS as nat).unwrap();
        let (name, rest) = parse_bulk_string(body).unwrap();
        lemma_parse_bulk_strings_len(rest, (count - 1) as nat);
        lemma_upper_idempotent(name);
    }
}

/// A run of bulk strings at the front of a byte string is read the same
/// when bytes are put behind the string.
pub proof fn lemma_parse_bulk_strings_append(s: Seq<u8>, count: nat, behind: Seq<u8>)
    ensures
        parse_bulk_strings(s, count) matches Some((items, rest)) ==> parse_bulk_strings(
            s + behind,
            count,
        ) == Some((items, rest + behind)),
    decreases count,
{
    if count > 0 {
        lemma_parse_bulk_string_append(s, behind);
        if let Some((_, rest)) = parse_bulk_string(s) {
            lemma_parse_bulk_strings_append(rest, (count - 1) as nat, behind);
        }
    }
}

/// Bytes behind a request do not change what it decodes to.
pub proof fn lemma_decode_ignores_trailing_bytes(s: Seq<u8>, behind: Seq<u8>)
    requires
        decode_spec(s) is Ok,
    ensures
        decode_spec(s + behind) == decode_spec(s),
{
    let (header, body) = split_line(s).unwrap();
    let count = parse_decimal_up_to(header.skip(1), MAX_ELEMENTS as nat).unwrap();
    let (name, rest) = parse_bulk_string(body).unwrap();
    lemma_split_line_append(s, behind);
    lemma_parse_bulk_string_append(body, behind);
    lemma_parse_bulk_strings_append(rest, (count - 1) as nat, behind);
}

/// Encoding a decoded command and decoding it again gives the same command.
pub proof fn lemma_decoded_command_reencodes(s: Seq<u8>)
    requires
        decode_spec(s) is Ok,
    ensures
        decode_spec(command_bytes(decode_spec(s).unwrap())) == decode_spec(s),
{
    lemma_decoded_command_is_canonical(s);
    lemma_decode_encode_roundtrip(decode_spec(s).unwrap());
}

/// Decodes the request held by `context` and keeps the command in the
/// context. A request that does not decode leaves the context as it was.
pub fn parse_resp_proc_command(context: &mut ConnectionContext) -> (parsed: Result<(), RespError>)
    ensures
        match decode_spec(old(context)@.input) {
            Ok(command) => parsed is Ok && final(context)@ == (ContextView {
                command: Some(command),
                ..old(context)@
            }),
            Err(error) => parsed == Err::<(), RespError>(error) && final(context)@ == old(
                context,
            )@,
        },
{
    let decoded = decode(context.input());
    match decoded {
        Ok(command) => {
            context.set_request_resp_command(command);
            Ok(())
        },
        Err(error) => Err(error),
    }
}

/// The bulk strings of `items`, one behind the other.
pub open spec fn bulk_strings(items: Seq<Seq<u8>>) -> Seq<u8>
    decreases items.len(),
{
    if items.len() == 0 {
        Seq::empty()
    } else {
        bulk_string(items[0]) + bulk_strings(items.skip(1))
    }
}

/// A command as a request: the header of an array that counts the name and
/// the parameters, then each of them as a bulk string.
pub open spec fn command_bytes(command: CommandView) -> Seq<u8> {
    array_header(1 + command.parameters.len()) + bulk_string(command.name) + bulk_strings(
        command.parameters,
    )
}

/// The bulk strings of a list with one more item end with that item's bulk
/// string.
pub proof fn lemma_bulk_strings_push(items: Seq<Seq<u8>>, last: Seq<u8>)
    ensures
        bulk_strings(items.push(last)) == bulk_strings(items) + bulk_string(last),
    decreases items.len(),
{
    if items.len() == 0 {
        let single = items.push(last);
        assert(single.skip(1) =~= Seq::<Seq<u8>>::empty());
        assert(single[0] == last);
        assert(bulk_strings(single.skip(1)) =~= Seq::<u8>::empty());
        assert(bulk_strings(items) =~= Seq::<u8>::empty());
        assert(bulk_strings(single) == bulk_string(last) + bulk_strings(single.skip(1)));
        assert(bulk_strings(single) =~= bulk_strings(items) + bulk_string(last));
    } else {
        let longer = items.push(last);
        lemma_bulk_strings_push(items.skip(1), last);
        assert(longer.skip(1) =~= items.skip(1).push(last));
        assert(longer[0] == items[0]);
        assert(bulk_strings(longer) == bulk_string(items[0]) + bulk_strings(longer.skip(1)));
        assert(bulk_strings(items) == bulk_string(items[0]) + bulk_strings(items.skip(1)));
        assert(bulk_strings(longer) =~= bulk_strings(items) + bulk_string(last));
    }
}

/// Encodes a command as a request.
pub fn encode_command(command: &RespCommand) -> (encoded: Vec<u8>)
    ensures
        encoded@ == command_bytes(command@),
{
    let name = command.name();
    let parameters = command.parameters();
    let mut encoded: Vec<u8> = Vec::new();
    encoded.push(ARRAYS_BYTE);
    push_decimal(&mut encoded, parameters.len() as u128 + 1);
    encoded.push(CR);
    encoded.push(LF);
    push_bulk_string(&mut encoded, name.as_slice());
    let ghost front = array_header(1 + command@.parameters.len()) + bulk_string(command@.name);
    assert(encoded@ =~= front);
    let mut i: usize = 0;
    while i < parameters.len()
        invariant
            i <= parameters@.len(),
            encoded@ == front + bulk_strings(byte_strings(parameters@).take(i as int)),
        decreases parameters@.len() - i,
    {
        push_bulk_string(&mut encoded, parameters[i].as_slice());
        proof {
            let items = byte_strings(parameters@);
            lemma_bulk_strings_push(items.take(i as int), items[i as int]);
            assert(items.take(i + 1) =~= items.take(i as int).push(items[i as int]));
            assert(encoded@ =~= front + bulk_strings(items.take(i + 1)));
        }
        i += 1;
    }
    assert(byte_strings(parameters@).take(parameters@.len() as int) =~= byte_strings(
        parameters@,
    ));
    encoded
}

/// Reading a run of written bulk strings gives back the strings, and leaves
/// what follows them.
pub proof fn lemma_parse_bulk_strings_of_encoded(items: Seq<Seq<u8>>, rest: Seq<u8>)
    ensures
        parse_bulk_strings(bulk_strings(items) + rest, items.len()) == Some((items, rest)),
    decreases items.len(),
{
    if items.len() == 0 {
        assert(bulk_strings(items) + rest =~= rest);
        assert(items =~= Seq::<Seq<u8>>::empty());
    } else {
        let others = items.skip(1);
        let s = bulk_strings(items) + rest;
        assert(s =~= bulk_string(items[0]) + (bulk_strings(others) + rest));
        lemma_parse_bulk_string_of_encoded(items[0], bulk_strings(others) + rest);
        lemma_parse_bulk_strings_of_encoded(others, rest);
        assert(seq![items[0]] + others =~= items);
    }
}

/// Reading the parameters of a command off their encoding gives the command
/// with the name as given and every parameter in its place, however many
/// parameters there are and whatever bytes follow them.
pub proof fn lemma_parse_command_body_of_encoded(
    name: Seq<u8>,
    parameters: Seq<Seq<u8>>,
    trailing: Seq<u8>,
)
    requires
        name.len() > 0,
    ensures
        parse_command_body(name, parameters.len(), bulk_strings(parameters) + trailing) == Ok::<
            CommandView,
            RespError,
        >(CommandView { name, parameters }),
{
    lemma_parse_bulk_strings_of_encoded(parameters, trailing);
}

/// Decoding an encoded command gives the command back, its name folded to
/// upper case, whatever bytes follow the encoding.
pub proof fn lemma_decode_encoded_command(command: CommandView, trailing: Seq<u8>)
    requires
        command.name.len() > 0,
        command.parameters.len() <= MAX_PARAMETERS,
    ensures
        decode_spec(command_bytes(command) + trailing) == Ok::<CommandView, RespError>(
            CommandView { name: upper(command.name), parameters: command.parameters },
        ),
{
    let count = 1 + command.parameters.len();
    let digits = decimal_digits(count);
    let marker = seq![ARRAYS_BYTE];
    let rest = bulk_strings(command.parameters) + trailing;
    let body = bulk_string(command.name) + rest;
    let s = command_bytes(command) + trailing;
    lemma_decimal_digits(count);
    assert(s =~= marker + digits + crlf() + body);
    lemma_split_line_after_digits(marker, digits, body);
    assert((marker + digits).skip(1) =~= digits);
    assert(s[0] == ARRAYS_BYTE);
    lemma_parse_bulk_string_of_encoded(command.name, rest);
    lemma_parse_bulk_strings_of_encoded(command.parameters, trailing);
}

/// The case of the letters in a command's name does not change what its
/// encoding decodes to.
pub proof fn lemma_decode_ignores_case_of_name(command: CommandView, trailing: Seq<u8>)
    requires
        command.name.len() > 0,
        command.parameters.len() <= MAX_PARAMETERS,
    ensures
        decode_spec(command_bytes(command) + trailing) == decode_spec(
            command_bytes(CommandView { name: upper(command.name), ..command }) + trailing,
        ),
{
    lemma_decode_encoded_command(command, trailing);
    lemma_decode_encoded_command(CommandView { name: upper(command.name), ..command }, trailing);
    lemma_upper_idempotent(command.name);
}

/// Decoding the encoding of a command gives that very command, where the
/// command is one that a request can decode to.
pub proof fn lemma_decode_encode_roundtrip(command: CommandView)
    requires
        command.canonical(),
    ensures
        decode_spec(command_bytes(command)) == Ok::<CommandView, RespError>(command),
{
    lemma_decode_encoded_command(command, Seq::empty());
    assert(command_bytes(command) + Seq::<u8>::empty() =~= command_bytes(command));
}

} // verus!
