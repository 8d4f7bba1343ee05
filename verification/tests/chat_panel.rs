use collab_core::channel::Channel;
use collab_core::chat_panel::channel_name::{
    item_style, render_channel_name, HeaderAction, ItemStyle, ItemType,
};
use collab_core::chat_panel::message::{
    is_continuation, message_id_to_remove, message_style, message_to_acknowledge, previous_ix,
    render_markdown_with_mentions, render_remove, ChannelMessage, ChannelMessageId, ClientIdentity,
    Mention, MessageLayout, MessageStyle, RemoveControl, UserMention,
};
use collab_core::chat_panel::panel::{
    ChannelChatEvent, Chat, ChatSource, DockPosition, Effect, PanelContent,
    MESSAGE_LOADING_THRESHOLD,
};
use collab_core::chat_panel::timestamp::OffsetDateTime;
use collab_core::chat_panel::{ChatPanel, Event};
use collab_core::proto::ChannelVisibility;

const CHAT: Chat = Chat { handle: 11, channel_id: 3 };
const OTHER: Chat = Chat { handle: 12, channel_id: 4 };

fn moment(julian_day: i32, hour: u8) -> OffsetDateTime {
    OffsetDateTime {
        julian_day,
        hour,
        minute: 5,
        second: 0,
        offset: 0,
    }
}

fn message(id: ChannelMessageId, sender_id: u64, mentioned: &[u64]) -> ChannelMessage {
    ChannelMessage {
        id,
        timestamp: moment(2_460_242, 14),
        sender_id,
        sender_login: format!("user{}", sender_id),
        mentions: mentioned
            .iter()
            .map(|user_id| UserMention {
                start: 1,
                end: 4,
                user_id: *user_id,
            })
            .collect(),
    }
}

fn show(effects: &[Effect]) -> Vec<String> {
    effects.iter().map(|effect| format!("{:?}", effect)).collect()
}

fn panel() -> ChatPanel {
    ChatPanel::new(DockPosition::Right, 0)
}

fn open_panel() -> ChatPanel {
    let mut panel = panel();
    panel.set_active_chat(CHAT, 0, None, None);
    panel
}

#[test]
fn new_panel_has_no_chat() {
    let panel = panel();
    assert!(panel.is_scrolled_to_bottom());
    assert_eq!(panel.active_chat(), None);
    assert!(!panel.has_focus());
    assert!(!panel.render_active_channel_messages());
    assert_eq!(panel.send(), None);
    assert_eq!(panel.remove_message(4), None);
    assert_eq!(panel.open_notes(), None);
    assert_eq!(panel.join_call(), None);
    assert!(panel.load_more_messages().is_empty());
}

#[test]
fn opened_chat_is_the_target_of_commands() {
    let panel = open_panel();
    assert_eq!(panel.active_chat(), Some(CHAT));
    assert!(panel.render_active_channel_messages());
    assert_eq!(panel.send(), Some(CHAT));
    assert_eq!(panel.remove_message(4), Some((CHAT, 4)));
    assert_eq!(panel.open_notes(), Some(3));
    assert_eq!(panel.join_call(), Some(3));
    assert_eq!(
        show(&panel.load_more_messages()),
        show(&[Effect::LoadMoreMessages { chat: CHAT }])
    );
}

#[test]
fn opening_a_chat_sets_everything_up() {
    let mut panel = panel();
    let effects = panel.set_active_chat(CHAT, 25, Some("general".to_string()), Some(2));
    assert_eq!(
        show(&effects),
        show(&[
            Effect::ResetMessages { count: 25 },
            Effect::SetEditorChannel {
                channel_id: 3,
                channel_name: Some("general".to_string()),
            },
            Effect::Subscribe { chat: CHAT },
            Effect::SelectRow { row: 2 },
            Effect::Notify,
        ])
    );
    assert!(panel.set_active_chat(CHAT, 25, None, Some(2)).is_empty());
}

#[test]
fn opening_a_chat_in_an_active_panel_acknowledges() {
    let mut panel = panel();
    panel.set_active(true, true);
    let effects = panel.set_active_chat(CHAT, 1, None, None);
    assert_eq!(
        show(&effects),
        show(&[
            Effect::ResetMessages { count: 1 },
            Effect::SetEditorChannel {
                channel_id: 3,
                channel_name: None,
            },
            Effect::Subscribe { chat: CHAT },
            Effect::AcknowledgeLastMessage { chat: CHAT },
            Effect::Notify,
        ])
    );
}

#[test]
fn last_message_is_acknowledged_only_where_it_is_seen() {
    let mut panel = open_panel();
    assert!(panel.acknowledge_last_message().is_empty());
    panel.set_active(true, true);
    assert_eq!(
        show(&panel.acknowledge_last_message()),
        show(&[Effect::AcknowledgeLastMessage { chat: CHAT }])
    );
    panel.scrolled(60, 70, 100);
    assert!(panel.acknowledge_last_message().is_empty());
}

#[test]
fn updated_messages_are_spliced() {
    let mut panel = open_panel();
    let event = ChannelChatEvent::MessagesUpdated {
        start: 2,
        end: 5,
        new_count: 7,
    };
    let splice = Effect::SpliceMessages {
        start: 2,
        end: 5,
        count: 7,
    };
    assert_eq!(
        show(&panel.channel_did_change(event)),
        show(&[
            Effect::SpliceMessages { start: 2, end: 5, count: 7 },
            Effect::Notify,
        ])
    );
    panel.set_active(true, true);
    assert_eq!(
        show(&panel.channel_did_change(event)),
        show(&[
            splice,
            Effect::AcknowledgeLastMessage { chat: CHAT },
            Effect::Notify,
        ])
    );
}

#[test]
fn new_messages_are_recorded_while_the_panel_is_not_active() {
    let mut panel = open_panel();
    let event = ChannelChatEvent::NewMessage {
        channel_id: 3,
        message_id: 90,
    };
    assert_eq!(
        show(&panel.channel_did_change(event)),
        show(&[
            Effect::RecordNewMessage { channel_id: 3, message_id: 90 },
            Effect::Notify,
        ])
    );
    panel.set_active(true, true);
    assert_eq!(show(&panel.channel_did_change(event)), show(&[Effect::Notify]));
}

#[test]
fn scrolling_up_loads_more_messages() {
    let mut panel = open_panel();
    assert_eq!(MESSAGE_LOADING_THRESHOLD, 50);
    assert_eq!(
        show(&panel.scrolled(49, 60, 100)),
        show(&[Effect::LoadMoreMessages { chat: CHAT }])
    );
    assert!(!panel.is_scrolled_to_bottom());
    assert!(panel.scrolled(50, 100, 100).is_empty());
    assert!(panel.is_scrolled_to_bottom());
    assert!(ChatPanel::new(DockPosition::Left, 0).scrolled(0, 0, 0).is_empty());
}

#[test]
fn settings_move_the_panel() {
    let mut panel = panel();
    assert_eq!(
        show(&panel.settings_changed(DockPosition::Right)),
        show(&[Effect::Notify])
    );
    assert_eq!(
        show(&panel.settings_changed(DockPosition::Left)),
        show(&[
            Effect::Emit { event: Event::DockPositionChanged },
            Effect::Notify,
        ])
    );
    assert_eq!(
        show(&panel.settings_changed(DockPosition::Left)),
        show(&[Effect::Notify])
    );
}

#[test]
fn channel_count_is_the_row_count() {
    assert_eq!(
        show(&panel().update_channel_count(9)),
        show(&[Effect::SetRowCount { count: 9 }])
    );
}

#[test]
fn selected_channel_is_opened_unless_it_is_open() {
    let panel = open_panel();
    assert_eq!(panel.select_channel(3), ChatSource::Active { chat: CHAT });
    assert_eq!(panel.select_channel(4), ChatSource::Open { channel_id: 4 });
    assert_eq!(panel.row_selected(None), None);
    assert_eq!(panel.row_selected(Some(4)), Some(ChatSource::Open { channel_id: 4 }));
    assert_eq!(
        ChatPanel::new(DockPosition::Left, 0).select_channel(3),
        ChatSource::Open { channel_id: 3 }
    );
}

#[test]
fn selecting_a_channel_can_scroll_to_a_message() {
    let mut panel = open_panel();
    let effects = panel.chat_opened(CHAT, 5, None, None, Some(77));
    assert_eq!(
        show(&effects),
        show(&[Effect::LoadHistory { chat: CHAT, message_id: 77 }])
    );
    assert_eq!(
        show(&panel.history_loaded(CHAT, Some(4))),
        show(&[Effect::ScrollTo { item_ix: 4 }, Effect::Notify])
    );
    assert!(panel.history_loaded(CHAT, None).is_empty());
    let effects = panel.chat_opened(OTHER, 0, None, None, None);
    assert_eq!(effects.len(), 4);
    assert_eq!(panel.active_chat(), Some(OTHER));
    assert!(panel.history_loaded(CHAT, Some(4)).is_empty());
}

#[test]
fn active_panel_without_the_feature_is_dismissed() {
    let mut panel = open_panel();
    assert_eq!(
        show(&panel.set_active(true, false)),
        show(&[
            Effect::AcknowledgeLastMessage { chat: CHAT },
            Effect::Emit { event: Event::Dismissed },
        ])
    );
    assert_eq!(
        show(&panel.set_active(true, true)),
        show(&[Effect::AcknowledgeLastMessage { chat: CHAT }])
    );
    assert!(panel.set_active(false, false).is_empty());
}

#[test]
fn focus_goes_to_the_editor_of_a_connected_client() {
    let mut panel = panel();
    assert!(panel.focus_in(false).is_empty());
    assert!(panel.has_focus());
    panel.focus_out();
    assert!(!panel.has_focus());
    assert_eq!(show(&panel.focus_in(true)), show(&[Effect::FocusEditor]));
    assert_eq!(show(&panel.sign_in_finished(true, true)), show(&[Effect::FocusInputBox]));
    assert!(panel.sign_in_finished(true, false).is_empty());
    assert!(panel.sign_in_finished(false, true).is_empty());
}

#[test]
fn content_depends_on_the_user() {
    assert_eq!(panel().render(Some(1)), PanelContent::Channel);
    assert_eq!(panel().render(None), PanelContent::SignInPrompt);
}

#[test]
fn panel_is_docked_left_or_right() {
    assert!(panel().position_is_valid(DockPosition::Left));
    assert!(panel().position_is_valid(DockPosition::Right));
    assert!(!panel().position_is_valid(DockPosition::Bottom));
}

#[test]
fn icon_needs_button_and_feature() {
    assert_eq!(panel().icon_path(true, true), Some("icons/conversations.svg"));
    assert_eq!(panel().icon_path(false, true), None);
    assert_eq!(panel().icon_path(true, false), None);
    assert_eq!(panel().icon_tooltip(), "Chat Panel");
    assert_eq!(ChatPanel::ui_name(), "ChatPanel");
}

#[test]
fn events_mean_different_things() {
    assert!(ChatPanel::should_change_position_on_event(&Event::DockPositionChanged));
    assert!(!ChatPanel::should_change_position_on_event(&Event::Focus));
    assert!(ChatPanel::should_close_on_event(&Event::Dismissed));
    assert!(!ChatPanel::should_close_on_event(&Event::DockPositionChanged));
    assert!(ChatPanel::is_focus_event(&Event::Focus));
    assert!(!ChatPanel::is_focus_event(&Event::Dismissed));
}

#[test]
fn messages_of_one_sender_continue() {
    let first = message(ChannelMessageId::Saved(1), 8, &[]);
    let second = message(ChannelMessageId::Pending(1), 8, &[]);
    let third = message(ChannelMessageId::Saved(2), 9, &[]);
    assert!(is_continuation(&first, &second));
    assert!(!is_continuation(&second, &third));
    assert!(!is_continuation(&first, &first));
    assert_eq!(previous_ix(0), 0);
    assert_eq!(previous_ix(1), 0);
    assert_eq!(previous_ix(9), 8);
}

#[test]
fn saved_messages_that_mention_the_user_are_acknowledged() {
    let saved = message(ChannelMessageId::Saved(5), 8, &[101, 102]);
    let pending = message(ChannelMessageId::Pending(5), 8, &[101, 102]);
    assert_eq!(message_to_acknowledge(&saved, Some(102)), Some(5));
    assert_eq!(message_to_acknowledge(&saved, Some(103)), None);
    assert_eq!(message_to_acknowledge(&saved, None), None);
    assert_eq!(message_to_acknowledge(&pending, Some(102)), None);
    assert!(pending.is_pending());
    assert!(!saved.is_pending());
}

#[test]
fn mentions_of_the_user_are_self_mentions() {
    let mut sent = message(ChannelMessageId::Saved(0), 103, &[]);
    sent.mentions = vec![
        UserMention { start: 6, end: 10, user_id: 101 },
        UserMention { start: 27, end: 31, user_id: 102 },
    ];
    assert_eq!(
        render_markdown_with_mentions(102, &sent),
        vec![
            Mention { start: 6, end: 10, is_self_mention: false },
            Mention { start: 27, end: 31, is_self_mention: true },
        ]
    );
}

#[test]
fn saved_messages_are_removed_by_sender_and_admins() {
    let saved = message(ChannelMessageId::Saved(5), 8, &[]);
    let pending = message(ChannelMessageId::Pending(5), 8, &[]);
    assert_eq!(message_id_to_remove(&saved, Some(8), false), Some(5));
    assert_eq!(message_id_to_remove(&saved, Some(9), false), None);
    assert_eq!(message_id_to_remove(&saved, None, false), None);
    assert_eq!(message_id_to_remove(&saved, Some(9), true), Some(5));
    assert_eq!(message_id_to_remove(&saved, None, true), Some(5));
    assert_eq!(message_id_to_remove(&pending, Some(8), true), None);
    assert_eq!(render_remove(Some(5)), RemoveControl::Button { message_id: 5 });
    assert_eq!(render_remove(None), RemoveControl::Spacer);
}

#[test]
fn pending_style_comes_first() {
    assert_eq!(message_style(true, true), MessageStyle::Pending);
    assert_eq!(message_style(true, false), MessageStyle::Pending);
    assert_eq!(message_style(false, true), MessageStyle::Continuation);
    assert_eq!(message_style(false, false), MessageStyle::Message);
}

#[test]
fn full_message_shows_sender_and_time() {
    let mut panel = open_panel();
    let client = ClientIdentity { id: 102, user_id: Some(8) };
    let now = moment(2_460_243, 9);
    let sent = message(ChannelMessageId::Saved(5), 8, &[102, 8]);
    let view = panel.render_message(0, 2, &sent, &sent, false, client, now);
    assert_eq!(view.acknowledge, Some(5));
    assert_eq!(
        view.render_with,
        Some(vec![
            Mention { start: 1, end: 4, is_self_mention: true },
            Mention { start: 1, end: 4, is_self_mention: false },
        ])
    );
    assert_eq!(view.style, MessageStyle::Message);
    assert!(!view.is_last);
    match view.layout {
        MessageLayout::Full { sender_login, timestamp, remove, text_end } => {
            assert_eq!(sender_login, "user8");
            assert_eq!(timestamp, "yesterday at 02:05pm");
            assert_eq!(remove, RemoveControl::Button { message_id: 5 });
            assert_eq!(text_end, RemoveControl::Spacer);
        }
        MessageLayout::Continuation { .. } => panic!("the first message continues nothing"),
    }
    let again = panel.render_message(0, 2, &sent, &sent, false, client, now);
    assert_eq!(again.render_with, None);
}

#[test]
fn continuation_shows_the_text_alone() {
    let mut panel = open_panel();
    let client = ClientIdentity { id: 1, user_id: Some(9) };
    let now = moment(2_460_242, 20);
    let last = message(ChannelMessageId::Saved(5), 8, &[]);
    let this = message(ChannelMessageId::Saved(6), 8, &[]);
    let view = panel.render_message(1, 2, &last, &this, false, client, now);
    assert_eq!(view.acknowledge, None);
    assert_eq!(view.style, MessageStyle::Continuation);
    assert!(view.is_last);
    match view.layout {
        MessageLayout::Continuation { remove } => assert_eq!(remove, RemoveControl::Spacer),
        MessageLayout::Full { .. } => panic!("the message goes on from the last one"),
    }
}

#[test]
fn texts_are_rendered_anew_for_another_chat() {
    let mut panel = open_panel();
    let client = ClientIdentity { id: 1, user_id: None };
    let now = moment(2_460_242, 20);
    let sent = message(ChannelMessageId::Pending(6), 8, &[]);
    assert!(panel.render_message(0, 1, &sent, &sent, false, client, now).render_with.is_some());
    assert!(panel.render_message(0, 1, &sent, &sent, false, client, now).render_with.is_none());
    let saved = message(ChannelMessageId::Saved(6), 8, &[]);
    assert!(panel.render_message(0, 1, &saved, &saved, false, client, now).render_with.is_some());
    panel.set_active_chat(OTHER, 1, None, None);
    assert!(panel.render_message(0, 1, &sent, &sent, false, client, now).render_with.is_some());
}

#[test]
fn items_look_different() {
    assert_eq!(item_style(ItemType::Header, true), ItemStyle::Header);
    assert_eq!(item_style(ItemType::Selected, true), ItemStyle::ActiveItem);
    assert_eq!(item_style(ItemType::Unselected, false), ItemStyle::Item);
    assert_eq!(item_style(ItemType::Unselected, true), ItemStyle::HoveredItem);
}

#[test]
fn header_has_buttons() {
    let channel = Channel {
        id: 21,
        name: "general".to_string(),
        visibility: ChannelVisibility::Public,
        unseen_note_version: None,
        unseen_message_id: None,
    };
    let header = render_channel_name(&channel, ItemType::Header, false);
    assert_eq!(header.style, ItemStyle::Header);
    assert_eq!(header.hash, "#");
    assert_eq!(header.name, "general");
    assert_eq!(header.buttons.len(), 2);
    assert_eq!(header.buttons[0].icon, "icons/file.svg");
    assert_eq!(header.buttons[0].tooltip, "Open Notes");
    assert_eq!(header.buttons[0].tooltip_id, 21);
    assert_eq!(header.buttons[0].action, HeaderAction::OpenNotes { channel_id: 21 });
    assert_eq!(header.buttons[1].icon, "icons/speaker-loud.svg");
    assert_eq!(header.buttons[1].tooltip, "Join Call");
    assert_eq!(header.buttons[1].action, HeaderAction::JoinCall { channel_id: 21 });
    let item = render_channel_name(&channel, ItemType::Unselected, true);
    assert_eq!(item.style, ItemStyle::HoveredItem);
    assert!(item.buttons.is_empty());
}
