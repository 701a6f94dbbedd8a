use tetra_pd::control::{route_control_command, ControlCommand};
use tetra_pd::saps::TetraEntity;

#[test]
fn mobility_commands_go_to_mobility_management() {
    for c in [
        ControlCommand::KickMs { issi: 1 },
        ControlCommand::Dgna { issi: 1, gssi: 2, attach: true },
        ControlCommand::CommandA { handle: 1, parameter: 2 },
    ] {
        assert_eq!(route_control_command(&c), TetraEntity::Mm);
    }
}

#[test]
fn all_other_commands_go_to_call_control() {
    for c in [
        ControlCommand::SendSds {
            handle: 1,
            source_ssi: 2,
            dest_ssi: 3,
            dest_is_group: false,
            len_bits: 8,
            payload: vec![0],
        },
        ControlCommand::RestartService,
        ControlCommand::ShutdownService,
        ControlCommand::AddLiveSds {
            text: "x".into(),
            protocol_id: 1,
            source_issi: 2,
            repeat_count: 0,
        },
        ControlCommand::DeleteLiveSds { id: 1 },
        ControlCommand::ClearLiveSds,
        ControlCommand::ClearEmergency { issi: 0 },
        ControlCommand::TestCmdB { handle: 1, source_ssi: 2, is_group: false, payload: vec![] },
    ] {
        assert_eq!(route_control_command(&c), TetraEntity::Cmce);
    }
}
