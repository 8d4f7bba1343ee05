use collab_core::calls::{
    is_channels_feature_enabled, toggle_deafen, toggle_mute, toggle_screen_sharing, Room,
    RoomCommand,
};

fn room(is_screen_sharing: bool, is_muted: bool) -> Room {
    Room {
        id: 7,
        channel_id: Some(3),
        is_screen_sharing,
        is_muted,
    }
}

#[test]
fn screen_sharing_is_toggled_and_reported() {
    assert!(toggle_screen_sharing(None).is_none());
    let (report, command) = toggle_screen_sharing(Some(room(false, false))).unwrap();
    assert_eq!(report.operation, "enable screen share");
    assert_eq!(report.room_id, 7);
    assert_eq!(report.channel_id, Some(3));
    assert_eq!(command, RoomCommand::ShareScreen);
    let (report, command) = toggle_screen_sharing(Some(room(true, false))).unwrap();
    assert_eq!(report.operation, "disable screen share");
    assert_eq!(command, RoomCommand::UnshareScreen);
}

#[test]
fn mute_is_toggled_and_reported() {
    assert!(toggle_mute(None).is_none());
    let (report, command) = toggle_mute(Some(room(false, true))).unwrap();
    assert_eq!(report.operation, "enable microphone");
    assert_eq!(report.room_id, 7);
    assert_eq!(report.channel_id, Some(3));
    assert_eq!(command, RoomCommand::ToggleMute);
    let (report, command) = toggle_mute(Some(room(false, false))).unwrap();
    assert_eq!(report.operation, "disable microphone");
    assert_eq!(command, RoomCommand::ToggleMute);
}

#[test]
fn deafen_is_toggled_in_a_call_only() {
    assert_eq!(toggle_deafen(None), None);
    assert_eq!(toggle_deafen(Some(room(false, false))), Some(RoomCommand::ToggleDeafen));
}

#[test]
fn channels_are_on_for_staff_and_by_flag() {
    assert!(!is_channels_feature_enabled(false, false));
    assert!(is_channels_feature_enabled(true, false));
    assert!(is_channels_feature_enabled(false, true));
    assert!(is_channels_feature_enabled(true, true));
}
