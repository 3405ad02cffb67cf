//! The types shared by the codec and the dispatcher: marker bytes, command
//! names, and the decoded command.

use vstd::prelude::*;
use crate::utils::{ascii, ascii_bytes, bytes_eq, copy_bytes, upper};

verus! {

/// The byte that opens an array.
pub const ARRAYS_BYTE: u8 = 42;

/// The byte that opens a bulk string.
pub const BULK_STRINGS_BYTE: u8 = 36;

/// The byte that opens a simple status line.
pub const SIMPLE_STRINGS_BYTE: u8 = 43;

/// The byte that opens an error status line.
pub const ERRORS_BYTE: u8 = 45;

/// The most parameters a request can carry: its array counts at most 255
/// elements, and the first of them is the name.
pub const MAX_PARAMETERS: usize = 254;

/// The names of the commands that the node serves, in upper case.
pub struct RespCommandNames;

impl RespCommandNames {
    pub const PING: &'static str = "PING";

    pub const ECHO: &'static str = "ECHO";

    pub const SET: &'static str = "SET";

    pub const GET: &'static str = "GET";

    pub const INFO: &'static str = "INFO";

    pub const REPLCONF: &'static str = "REPLCONF";

    pub const PSYNC: &'static str = "PSYNC";
}

/// Which command of the fixed set a name selects.
#[derive(Clone, Copy, Debug, PartialEq, Eq, Structural)]
pub enum RespCommandType {
    Ping,
    Echo,
    SetKey,
    GetKey,
    Info,
    Replconf,
    Psync,
    /// The name selects no command of the fixed set.
    Unrecognized,
}

/// The command that an upper-case name selects, by exact match.
pub open spec fn command_type_of(name: Seq<u8>) -> RespCommandType {
    if name == ascii(RespCommandNames::PING@) {
        RespCommandType::Ping
    } else if name == ascii(RespCommandNames::ECHO@) {
        RespCommandType::Echo
    } else if name == ascii(RespCommandNames::SET@) {
        RespCommandType::SetKey
    } else if name == ascii(RespCommandNames::GET@) {
        RespCommandType::GetKey
    } else if name == ascii(RespCommandNames::INFO@) {
        RespCommandType::Info
    } else if name == ascii(RespCommandNames::REPLCONF@) {
        RespCommandType::Replconf
    } else if name == ascii(RespCommandNames::PSYNC@) {
        RespCommandType::Psync
    } else {
        RespCommandType::Unrecognized
    }
}

impl RespCommandType {
    /// Selects the command that an upper-case name stands for.
    pub fn from_command_name(name: &[u8]) -> (kind: RespCommandType)
        ensures
            kind == command_type_of(name@),
    {
        proof {
            reveal_strlit("PING");
            reveal_strlit("ECHO");
            reveal_strlit("SET");
            reveal_strlit("GET");
            reveal_strlit("INFO");
            reveal_strlit("REPLCONF");
            reveal_strlit("PSYNC");
        }
        if bytes_eq(name, ascii_bytes(RespCommandNames::PING)) {
            RespCommandType::Ping
        } else if bytes_eq(name, ascii_bytes(RespCommandNames::ECHO)) {
            RespCommandType::Echo
        } else if bytes_eq(name, ascii_bytes(RespCommandNames::SET)) {
            RespCommandType::SetKey
        } else if bytes_eq(name, ascii_bytes(RespCommandNames::GET)) {
            RespCommandType::GetKey
        } else if bytes_eq(name, ascii_bytes(RespCommandNames::INFO)) {
            RespCommandType::Info
        } else if bytes_eq(name, ascii_bytes(RespCommandNames::REPLCONF)) {
            RespCommandType::Replconf
        } else if bytes_eq(name, ascii_bytes(RespCommandNames::PSYNC)) {
            RespCommandType::Psync
        } else {
            RespCommandType::Unrecognized
        }
    }

    /// Whether this command belongs to the replication exchange between
    /// nodes rather than to client requests.
    pub open spec fn spec_is_replication(&self) -> bool {
        *self == RespCommandType::Replconf || *self == RespCommandType::Psync
    }

    /// Whether this command belongs to the replication exchange between
    /// nodes rather than to client requests.
    #[verifier::when_used_as_spec(spec_is_replication)]
    pub fn is_replication(&self) -> (internal: bool)
        ensures
            internal == self.spec_is_replication(),
    {
        match self {
            RespCommandType::Replconf | RespCommandType::Psync => true,
            _ => false,
        }
    }
}

/// The byte strings held by a list of buffers.
pub open spec fn byte_strings(items: Seq<Vec<u8>>) -> Seq<Seq<u8>> {
    Seq::new(items.len(), |i: int| items[i]@)
}

/// A copy of a list of byte strings.
pub fn copy_byte_strings(source: &Vec<Vec<u8>>) -> (copy: Vec<Vec<u8>>)
    ensures
        byte_strings(copy@) == byte_strings(source@),
{
    let mut copy: Vec<Vec<u8>> = Vec::new();
    let mut i: usize = 0;
    while i < source.len()
        invariant
            i <= source@.len(),
            copy@.len() == i,
            forall|j: int| 0 <= j < i ==> copy@[j]@ == source@[j]@,
        decreases source@.len() - i,
    {
        copy.push(copy_bytes(source[i].as_slice()));
        i += 1;
    }
    assert(byte_strings(copy@) =~= byte_strings(source@));
    copy
}

/// What a command says: its name and its parameters in the order given.
pub struct CommandView {
    pub name: Seq<u8>,
    pub parameters: Seq<Seq<u8>>,
}

impl CommandView {
    /// A command has a name that is not empty.
    pub open spec fn wf(self) -> bool {
        self.name.len() > 0
    }

    /// Whether the command is one that a request can decode to: its name is
    /// in upper case, and it has no more parameters than a request can
    /// carry.
    pub open spec fn canonical(self) -> bool {
        &&& self.wf()
        &&& self.name == upper(self.name)
        &&& self.parameters.len() <= MAX_PARAMETERS
    }

    /// The command that the name selects.
    pub open spec fn command_type(self) -> RespCommandType {
        command_type_of(self.name)
    }
}

/// A command: its name, the command of the fixed set that the name selects,
/// and the parameters in the order given. It cannot be changed once made.
///
/// Only an upper-case name selects a command of the fixed set. Decoding
/// folds the name of a request to upper case before it makes the command.
#[derive(Debug, PartialEq, Eq)]
pub struct RespCommand {
    name: Vec<u8>,
    command_type: RespCommandType,
    parameters: Vec<Vec<u8>>,
}

impl View for RespCommand {
    type V = CommandView;

    closed spec fn view(&self) -> CommandView {
        CommandView { name: self.name@, parameters: byte_strings(self.parameters@) }
    }
}

impl RespCommand {
    #[verifier::type_invariant]
    spec fn inv(self) -> bool {
        self@.wf() && self.command_type == command_type_of(self.name@)
    }

    /// Makes a command from a name, which is kept as given, and any number
    /// of parameters. There is none for an empty name.
    pub fn new(name: &[u8], parameters: Vec<Vec<u8>>) -> (made: Option<RespCommand>)
        ensures
            name@.len() > 0 <==> made is Some,
            made matches Some(command) ==> command@ == (CommandView {
                name: name@,
                parameters: byte_strings(parameters@),
            }),
    {
        if name.len() == 0 {
            return None;
        }
        let command_type = RespCommandType::from_command_name(name);
        Some(RespCommand { name: copy_bytes(name), command_type, parameters })
    }

    /// The name.
    pub fn name(&self) -> (name: &Vec<u8>)
        ensures
            name@ == self@.name,
            self@.wf(),
    {
        proof {
            use_type_invariant(self);
        }
        &self.name
    }

    /// The command that the name selects.
    pub fn command_type(&self) -> (kind: RespCommandType)
        ensures
            kind == self@.command_type(),
            self@.wf(),
    {
        proof {
            use_type_invariant(self);
        }
        self.command_type
    }

    /// The parameters, in the order given.
    pub fn parameters(&self) -> (parameters: &Vec<Vec<u8>>)
        ensures
            byte_strings(parameters@) == self@.parameters,
            self@.wf(),
    {
        proof {
            use_type_invariant(self);
        }
        &self.parameters
    }
}

} // verus!
