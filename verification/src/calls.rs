//! What the commands of a call do.

use vstd::prelude::*;

verus! {

/// A call that the user takes part in.
#[derive(Clone, Copy, Debug, PartialEq, Eq, Structural)]
pub struct Room {
    pub id: u64,
    pub channel_id: Option<u64>,
    pub is_screen_sharing: bool,
    pub is_muted: bool,
}

/// What a command asks of a call.
#[derive(Clone, Copy, Debug, PartialEq, Eq, Structural)]
pub enum RoomCommand {
    ShareScreen,
    UnshareScreen,
    ToggleMute,
    ToggleDeafen,
}

/// What is reported of a command.
#[derive(Clone, Copy, Debug)]
pub struct CallReport {
    pub operation: &'static str,
    pub room_id: u64,
    pub channel_id: Option<u64>,
}

/// `report` reports `operation` for `room`.
pub open spec fn is_report_of(report: CallReport, operation: Seq<char>, room: Room) -> bool {
    &&& report.operation@ == operation
    &&& report.room_id == room.id
    &&& report.channel_id == room.channel_id
}

/// The report and the command for starting or stopping to share the screen, where there is a call.
pub fn toggle_screen_sharing(room: Option<Room>) -> (request: Option<(CallReport, RoomCommand)>)
    ensures
        request is Some == room is Some,
        match (room, request) {
            (Some(room), Some((report, command))) => if room.is_screen_sharing {
                is_report_of(report, "disable screen share"@, room) && command
                    == RoomCommand::UnshareScreen
            } else {
                is_report_of(report, "enable screen share"@, room) && command
                    == RoomCommand::ShareScreen
            },
            _ => true,
        },
{
    match room {
        Some(room) => if room.is_screen_sharing {
            Some(
                (
                    CallReport {
                        operation: "disable screen share",
                        room_id: room.id,
                        channel_id: room.channel_id,
                    },
                    RoomCommand::UnshareScreen,
                ),
            )
        } else {
            Some(
                (
                    CallReport {
                        operation: "enable screen share",
                        room_id: room.id,
                        channel_id: room.channel_id,
                    },
                    RoomCommand::ShareScreen,
                ),
            )
        },
        None => None,
    }
}

/// The report and the command for turning the microphone on or off, where there is a call.
pub fn toggle_mute(room: Option<Room>) -> (request: Option<(CallReport, RoomCommand)>)
    ensures
        request is Some == room is Some,
        match (room, request) {
            (Some(room), Some((report, command))) => is_report_of(
                report,
                if room.is_muted {
                    "enable microphone"@
                } else {
                    "disable microphone"@
                },
                room,
            ) && command == RoomCommand::ToggleMute,
            _ => true,
        },
{
    match room {
        Some(room) => {
            let operation: &'static str = if room.is_muted {
                "enable microphone"
            } else {
                "disable microphone"
            };
            Some(
                (
                    CallReport { operation, room_id: room.id, channel_id: room.channel_id },
                    RoomCommand::ToggleMute,
                ),
            )
        },
        None => None,
    }
}

/// The command for turning the sound of the others on or off, where there is a call.
pub fn toggle_deafen(room: Option<Room>) -> (command: Option<RoomCommand>)
    ensures
        command == if room is Some {
            Some(RoomCommand::ToggleDeafen)
        } else {
            None
        },
{
    match room {
        Some(_) => Some(RoomCommand::ToggleDeafen),
        None => None,
    }
}

/// Whether the channels feature is on: for staff, and where its flag is set.
pub fn is_channels_feature_enabled(is_staff: bool, has_channels_flag: bool) -> (enabled: bool)
    ensures
        enabled == (is_staff || has_channels_flag),
{
    is_staff || has_channels_flag
}

/// A report names the operation, the call and the channel of the call.
pub proof fn reports_name_the_call(report: CallReport, operation: Seq<char>, room: Room)
    requires
        is_report_of(report, operation, room),
    ensures
        report.operation@ == operation,
        report.room_id == room.id,
        report.channel_id == room.channel_id,
{
}

} // verus!
