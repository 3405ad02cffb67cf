//! What the process does at startup: a replica first runs the handshake
//! with its master, and every node then listens for clients.

use vstd::prelude::*;
use crate::error::RespError;
use crate::models::db::{AppData, RoleView};

verus! {

/// The port a node listens on where none is given.
pub const DEFAULT_LISTENING_PORT: u32 = 6379;

/// Where the process stands at startup.
#[derive(Clone, Copy, Debug, PartialEq, Eq, Structural)]
pub enum StartupPhase {
    /// The handshake with the master is to run.
    Handshaking,
    /// The listening socket is to be bound, and clients served.
    Listening,
    /// The listening socket could not be bound: the process ends.
    Failed,
}

/// What happened at startup.
#[derive(Clone, Copy, Debug, PartialEq, Eq, Structural)]
pub enum StartupEvent {
    /// The handshake ended, well or with this error.
    HandshakeEnded(Option<RespError>),
    /// The listening socket could not be bound.
    BindFailed,
}

/// The phase in which a node in the given role starts: a replica with the
/// handshake, a master with listening.
pub open spec fn first_phase_of(role: RoleView) -> StartupPhase {
    if role is Replica {
        StartupPhase::Handshaking
    } else {
        StartupPhase::Listening
    }
}

/// The phase that follows an event. The end of the handshake leads to
/// listening whether the handshake went well or not; a failure to bind the
/// listening socket ends the process; no other event changes the phase.
pub open spec fn phase_after(phase: StartupPhase, event: StartupEvent) -> StartupPhase {
    match (phase, event) {
        (StartupPhase::Handshaking, StartupEvent::HandshakeEnded(_)) => StartupPhase::Listening,
        (StartupPhase::Listening, StartupEvent::BindFailed) => StartupPhase::Failed,
        _ => phase,
    }
}

/// The phase in which a node with the given startup data starts.
pub fn first_phase(app_data: &AppData) -> (phase: StartupPhase)
    ensures
        phase == first_phase_of(app_data@.role),
{
    if app_data.is_replica() {
        StartupPhase::Handshaking
    } else {
        StartupPhase::Listening
    }
}

/// The phase that follows an event.
pub fn next_phase(phase: StartupPhase, event: StartupEvent) -> (following: StartupPhase)
    ensures
        following == phase_after(phase, event),
{
    match phase {
        StartupPhase::Handshaking => match event {
            StartupEvent::HandshakeEnded(_) => StartupPhase::Listening,
            StartupEvent::BindFailed => phase,
        },
        StartupPhase::Listening => match event {
            StartupEvent::BindFailed => StartupPhase::Failed,
            StartupEvent::HandshakeEnded(_) => phase,
        },
        StartupPhase::Failed => phase,
    }
}

/// However the handshake ends, the node goes on to listen.
pub proof fn lemma_listens_after_any_handshake(outcome: Option<RespError>)
    ensures
        phase_after(StartupPhase::Handshaking, StartupEvent::HandshakeEnded(outcome))
            == StartupPhase::Listening,
{
}

} // verus!
