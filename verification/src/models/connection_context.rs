//! The scratch state of one request: the bytes read, the command decoded
//! from them, and the reply that a handler wrote.

use vstd::prelude::*;
use vstd::slice::slice_subrange;
use crate::error::RespError;
use crate::resp_parser::commands::{decode_spec, lemma_decoded_command_is_canonical};
use crate::resp_parser::shared::{CommandView, RespCommand};
use crate::utils::copy_bytes;

verus! {

/// The state of one request. A context is made for each request that a
/// connection reads, and belongs to the task that serves it.
#[derive(Debug)]
pub struct ConnectionContext {
    buffer: Vec<u8>,
    byte_count: usize,
    resp_command: Option<RespCommand>,
    command_response: Option<Vec<u8>>,
}

/// What a context holds.
pub struct ContextView {
    /// The bytes of the request.
    pub input: Seq<u8>,
    /// The command decoded from the request, once it is decoded.
    pub command: Option<CommandView>,
    /// The encoded reply, once a handler has written it.
    pub response: Option<Seq<u8>>,
}

impl ContextView {
    /// A command is present only as the decoding of the input, and a reply
    /// only once a command is present.
    pub open spec fn wf(self) -> bool {
        &&& self.command matches Some(command) ==> decode_spec(self.input) == Ok::<
            CommandView,
            RespError,
        >(command)
        &&& self.response is Some ==> self.command is Some
    }
}

impl View for ConnectionContext {
    type V = ContextView;

    closed spec fn view(&self) -> ContextView {
        ContextView {
            input: self.buffer@.take(self.byte_count as int),
            command: match self.resp_command {
                Some(command) => Some(command@),
                None => None,
            },
            response: match self.command_response {
                Some(response) => Some(response@),
                None => None,
            },
        }
    }
}

impl ConnectionContext {
    #[verifier::type_invariant]
    spec fn inv(self) -> bool {
        self.byte_count <= self.buffer@.len() && self@.wf()
    }

    /// A context for the request whose bytes are `request_buffer`, with no
    /// command decoded and no reply written yet.
    pub fn new(request_buffer: &[u8]) -> (context: ConnectionContext)
        ensures
            context@ == (ContextView { input: request_buffer@, command: None, response: None }),
    {
        let buffer = copy_bytes(request_buffer);
        let byte_count = request_buffer.len();
        assert(buffer@.take(byte_count as int) =~= request_buffer@);
        ConnectionContext { buffer, byte_count, resp_command: None, command_response: None }
    }

    /// The bytes of the request.
    pub fn input(&self) -> (bytes: &[u8])
        ensures
            bytes@ == self@.input,
            self@.wf(),
    {
        proof {
            use_type_invariant(self);
        }
        let bytes = slice_subrange(self.buffer.as_slice(), 0, self.byte_count);
        assert(bytes@ =~= self.buffer@.take(self.byte_count as int));
        bytes
    }

    /// The number of bytes of the request.
    pub fn byte_count(&self) -> (count: usize)
        ensures
            count == self@.input.len(),
    {
        proof {
            use_type_invariant(self);
        }
        self.byte_count
    }

    /// Keeps the command that the request decoded to.
    pub fn set_request_resp_command(&mut self, command: RespCommand)
        requires
            decode_spec(old(self)@.input) == Ok::<CommandView, RespError>(command@),
        ensures
            final(self)@ == (ContextView { command: Some(command@), ..old(self)@ }),
    {
        proof {
            use_type_invariant(&*self);
        }
        self.resp_command = Some(command);
    }

    /// The command that the request decoded to, once it is decoded.
    pub fn get_request_resp_command_ref(&self) -> (command: Option<&RespCommand>)
        ensures
            match command {
                Some(decoded) => self@.command == Some(decoded@) && decoded@.canonical(),
                None => self@.command is None,
            },
            self@.wf(),
    {
        proof {
            use_type_invariant(self);
            lemma_decoded_command_is_canonical(self@.input);
        }
        match &self.resp_command {
            Some(command) => Some(command),
            None => None,
        }
    }

    /// The command of a context whose request is decoded.
    pub fn unwrap_request_resp_command(&self) -> (command: &RespCommand)
        requires
            self@.command is Some,
        ensures
            self@.command == Some(command@),
            command@.canonical(),
            self@.wf(),
    {
        proof {
            use_type_invariant(self);
            lemma_decoded_command_is_canonical(self@.input);
        }
        match &self.resp_command {
            Some(command) => command,
            None => vstd::pervasive::unreached(),
        }
    }

    /// Keeps the encoded reply to the decoded command.
    pub fn set_response_command_response(&mut self, response: Vec<u8>)
        requires
            old(self)@.command is Some,
        ensures
            final(self)@ == (ContextView { response: Some(response@), ..old(self)@ }),
    {
        proof {
            use_type_invariant(&*self);
        }
        self.command_response = Some(response);
    }

    /// The encoded reply, once a handler has written it.
    pub fn get_response_command_response_ref(&self) -> (response: Option<&Vec<u8>>)
        ensures
            match response {
                Some(bytes) => self@.response == Some(bytes@),
                None => self@.response is None,
            },
    {
        match &self.command_response {
            Some(response) => Some(response),
            None => None,
        }
    }

    /// The encoded reply of a context whose handler has written it.
    pub fn unwrap_response_command_response(&self) -> (response: &Vec<u8>)
        requires
            self@.response is Some,
        ensures
            self@.response == Some(response@),
    {
        match &self.command_response {
            Some(response) => response,
            None => vstd::pervasive::unreached(),
        }
    }
}

} // verus!
