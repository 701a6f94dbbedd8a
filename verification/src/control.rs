//! Commands of the remote control channel.

use crate::saps::TetraEntity;
use vstd::prelude::*;

verus! {

/// A command from the remote command server.
#[derive(Debug, Clone)]
pub enum ControlCommand {
    /// Deliver a short message on this cell.
    SendSds {
        handle: u32,
        source_ssi: u32,
        dest_ssi: u32,
        dest_is_group: bool,
        len_bits: u16,
        payload: Vec<u8>,
    },
    /// Deregister a terminal.
    KickMs { issi: u32 },
    /// Attach a group to a registered terminal, or detach it.
    Dgna { issi: u32, gssi: u32, attach: bool },
    /// Restart the service.
    RestartService,
    /// Stop the service.
    ShutdownService,
    /// Add a message to the broadcast queue. It is sent `repeat_count` times, or for ever
    /// if that is zero.
    AddLiveSds { text: String, protocol_id: u8, source_issi: u32, repeat_count: u32 },
    /// Remove a message from the broadcast queue.
    DeleteLiveSds { id: u32 },
    /// Empty the broadcast queue.
    ClearLiveSds,
    /// Clear the emergency of a terminal, or of all with `issi` zero.
    ClearEmergency { issi: u32 },
    CommandA { handle: u32, parameter: u32 },
    TestCmdB { handle: u32, source_ssi: u32, is_group: bool, payload: Vec<u8> },
}

/// The answer to a [`ControlCommand`].
#[derive(Debug, Clone)]
pub enum ControlResponse {
    CommandAResponse { handle: u32, result: u32 },
    SendSdsResponse { handle: u32, success: bool },
    KickMsResponse { issi: u32, success: bool },
}

/// The command is about the registration or the groups of a terminal.
pub open spec fn is_mobility_command(c: ControlCommand) -> bool {
    c is KickMs || c is Dgna || c is CommandA
}

/// The entity that serves a command: mobility management for registration and groups, call
/// control for everything else.
pub fn route_control_command(command: &ControlCommand) -> (r: TetraEntity)
    ensures
        r == (if is_mobility_command(*command) {
            TetraEntity::Mm
        } else {
            TetraEntity::Cmce
        }),
{
    match command {
        ControlCommand::SendSds { .. } => TetraEntity::Cmce,
        ControlCommand::KickMs { .. } => TetraEntity::Mm,
        ControlCommand::Dgna { .. } => TetraEntity::Mm,
        ControlCommand::RestartService => TetraEntity::Cmce,
        ControlCommand::ShutdownService => TetraEntity::Cmce,
        ControlCommand::AddLiveSds { .. } => TetraEntity::Cmce,
        ControlCommand::DeleteLiveSds { .. } => TetraEntity::Cmce,
        ControlCommand::ClearLiveSds => TetraEntity::Cmce,
        ControlCommand::ClearEmergency { .. } => TetraEntity::Cmce,
        ControlCommand::CommandA { .. } => TetraEntity::Mm,
        ControlCommand::TestCmdB { .. } => TetraEntity::Cmce,
    }
}

/// Call control serves the messages, the broadcast queue, the emergencies, the service and the
/// test command; mobility management serves everything else.
pub proof fn law_who_serves_a_command(c: ControlCommand)
    ensures
        !is_mobility_command(c) <==> c is SendSds || c is AddLiveSds || c is DeleteLiveSds
            || c is ClearLiveSds || c is ClearEmergency || c is RestartService
            || c is ShutdownService || c is TestCmdB,
{
}

} // verus!
