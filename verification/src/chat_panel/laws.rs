//! What holds of the chat panel across what happens to it.

use vstd::prelude::*;
use crate::chat_panel::message::{
    continues, ChannelMessage, ChannelMessageId, MessageLayout, RemoveControl,
};
use crate::chat_panel::panel::{
    is_layout_of, source_of, ChannelChatEvent, Chat, ChatSource, Effect, PanelModel,
    MESSAGE_LOADING_THRESHOLD,
};
use crate::chat_panel::timestamp::{is_timestamp_text, OffsetDateTime};

verus! {

/// Each acknowledgement among `effects` is for a last message that is seen: the panel is active,
/// and scrolled to the bottom of the chat.
pub open spec fn acknowledges_only_seen(panel: PanelModel, effects: Seq<Effect>) -> bool {
    forall|i: int|
        0 <= i < effects.len() ==> (#[trigger] effects[i] matches Effect::AcknowledgeLastMessage {
            chat,
        } ==> panel.active && panel.is_scrolled_to_bottom && panel.active_chat == Some(chat))
}

/// Whatever happens, the last message of a chat is acknowledged only where it is seen.
pub proof fn only_seen_messages_are_acknowledged(
    panel: PanelModel,
    chat: Chat,
    message_count: usize,
    channel_name: Option<String>,
    channel_row: Option<usize>,
    event: ChannelChatEvent,
)
    ensures
        acknowledges_only_seen(panel, panel.acknowledgement()),
        acknowledges_only_seen(panel, panel.reaction(event)),
        acknowledges_only_seen(panel, panel.loading_more()),
        acknowledges_only_seen(
            panel.with_chat(chat),
            panel.opening(chat, message_count, channel_name, channel_row),
        ),
{
}

/// A last message that is seen when the messages of the open chat change, or when a chat is opened,
/// is acknowledged.
pub proof fn seen_messages_are_acknowledged(
    panel: PanelModel,
    chat: Chat,
    message_count: usize,
    channel_name: Option<String>,
    channel_row: Option<usize>,
    start: usize,
    end: usize,
    new_count: usize,
)
    requires
        panel.active,
        panel.is_scrolled_to_bottom,
    ensures
        panel.active_chat matches Some(active) ==> panel.reaction(
            ChannelChatEvent::MessagesUpdated { start, end, new_count },
        ).contains(Effect::AcknowledgeLastMessage { chat: active }),
        !panel.shows(chat) ==> panel.opening(
            chat,
            message_count,
            channel_name,
            channel_row,
        ).contains(Effect::AcknowledgeLastMessage { chat }),
{
    if let Some(active) = panel.active_chat {
        let effects = panel.reaction(ChannelChatEvent::MessagesUpdated { start, end, new_count });
        assert(effects[1] == (Effect::AcknowledgeLastMessage { chat: active }));
    }
    if !panel.shows(chat) {
        let effects = panel.opening(chat, message_count, channel_name, channel_row);
        assert(effects[3] == (Effect::AcknowledgeLastMessage { chat }));
    }
}

/// After a chat was opened the panel shows it, opening it again does nothing, and its channel is
/// selected without opening a chat. Texts that were rendered for another chat are forgotten.
pub proof fn opened_chat_is_shown(
    panel: PanelModel,
    chat: Chat,
    message_count: usize,
    channel_name: Option<String>,
    channel_row: Option<usize>,
)
    requires
        panel.shows(chat) ==> panel.active_chat == Some(chat),
    ensures
        panel.with_chat(chat).shows(chat),
        panel.with_chat(chat).with_chat(chat) == panel.with_chat(chat),
        panel.with_chat(chat).opening(chat, message_count, channel_name, channel_row) == Seq::<
            Effect,
        >::empty(),
        source_of(panel.with_chat(chat), chat.channel_id) == (ChatSource::Active { chat }),
        !panel.shows(chat) ==> panel.with_chat(chat).rendered == Set::<
            ChannelMessageId,
        >::empty(),
{
}

/// A message that arrives is recorded as unseen exactly where the panel is not active.
pub proof fn messages_are_recorded_while_inactive(
    panel: PanelModel,
    channel_id: u64,
    message_id: u64,
)
    ensures
        panel.reaction(ChannelChatEvent::NewMessage { channel_id, message_id }).contains(
            Effect::RecordNewMessage { channel_id, message_id },
        ) == !panel.active,
{
    let effects = panel.reaction(ChannelChatEvent::NewMessage { channel_id, message_id });
    if !panel.active {
        assert(effects[0] == (Effect::RecordNewMessage { channel_id, message_id }));
    } else {
        assert(effects =~= seq![Effect::Notify]);
    }
}

/// When the messages of the open chat change, the list takes the change over first, whatever the
/// panel is doing, and just once. Then the last message is acknowledged where it is seen, and last
/// the panel is drawn again; nothing else is done.
pub proof fn changed_messages_are_taken_over(
    panel: PanelModel,
    start: usize,
    end: usize,
    new_count: usize,
    i: int,
)
    ensures
        ({
            let effects = panel.reaction(
                ChannelChatEvent::MessagesUpdated { start, end, new_count },
            );
            let is_seen = panel.active && panel.is_scrolled_to_bottom && panel.active_chat is Some;
            &&& effects.len() == if is_seen {
                3int
            } else {
                2
            }
            &&& effects[0] == (Effect::SpliceMessages { start, end, count: new_count })
            &&& 0 < i < effects.len() ==> effects[i] !is SpliceMessages
            &&& is_seen ==> effects[1] == (Effect::AcknowledgeLastMessage {
                chat: panel.active_chat->0,
            })
            &&& effects[effects.len() - 1] == Effect::Notify
        }),
{
}

/// When a message arrives, a panel that is not active has it recorded, and then the panel is drawn
/// again; an active one is only drawn again.
pub proof fn arrived_message_is_recorded_first(
    panel: PanelModel,
    channel_id: u64,
    message_id: u64,
)
    ensures
        ({
            let effects = panel.reaction(ChannelChatEvent::NewMessage { channel_id, message_id });
            &&& effects.len() == if panel.active {
                1int
            } else {
                2
            }
            &&& !panel.active ==> effects[0] == (Effect::RecordNewMessage {
                channel_id,
                message_id,
            })
            &&& effects[effects.len() - 1] == Effect::Notify
        }),
{
}

/// The last message of the open chat is acknowledged where the panel is active and scrolled to the
/// bottom, and otherwise nothing is done. More messages are loaded of the open chat, of none without
/// one.
pub proof fn open_chat_is_acknowledged_and_loaded(panel: PanelModel, chat: Chat)
    ensures
        panel.active && panel.is_scrolled_to_bottom && panel.active_chat == Some(chat) ==> {
            &&& panel.acknowledgement().len() == 1
            &&& panel.acknowledgement()[0] == (Effect::AcknowledgeLastMessage { chat })
        },
        !panel.active || !panel.is_scrolled_to_bottom || panel.active_chat is None
            ==> panel.acknowledgement().len() == 0,
        panel.active_chat == Some(chat) ==> {
            &&& panel.loading_more().len() == 1
            &&& panel.loading_more()[0] == (Effect::LoadMoreMessages { chat })
        },
        panel.active_chat is None ==> panel.loading_more().len() == 0,
{
}

/// A chat is open in the panel where the panel has a chat with the same handle. Opening another one
/// puts it in that place, forgets what was rendered, and changes nothing else of the panel.
pub proof fn opening_replaces_the_chat(panel: PanelModel, chat: Chat)
    ensures
        panel.shows(chat) == match panel.active_chat {
            Some(active) => active.handle == chat.handle,
            None => false,
        },
        match panel.active_chat {
            Some(active) => active.handle == chat.handle,
            None => false,
        } ==> panel.with_chat(chat) == panel,
        match panel.active_chat {
            Some(active) => active.handle != chat.handle,
            None => true,
        } ==> {
            let after = panel.with_chat(chat);
            &&& after.active_chat == Some(chat)
            &&& after.rendered == Set::<ChannelMessageId>::empty()
            &&& after.active == panel.active
            &&& after.is_scrolled_to_bottom == panel.is_scrolled_to_bottom
            &&& after.has_focus == panel.has_focus
            &&& after.dock_position == panel.dock_position
            &&& after.local_timezone == panel.local_timezone
        },
{
}

/// Opening a chat that is open does nothing. Opening another one has the list start over with its
/// messages, then the editor write to its channel, then the chat followed; then its last message
/// acknowledged where it is seen, then its row selected where it has one, and last the panel drawn
/// again.
pub proof fn opening_goes_step_by_step(
    panel: PanelModel,
    chat: Chat,
    message_count: usize,
    channel_name: Option<String>,
    channel_row: Option<usize>,
)
    ensures
        ({
            let effects = panel.opening(chat, message_count, channel_name, channel_row);
            let is_open = match panel.active_chat {
                Some(active) => active.handle == chat.handle,
                None => false,
            };
            let seen = if panel.active && panel.is_scrolled_to_bottom {
                1int
            } else {
                0
            };
            let row = if channel_row is Some {
                1int
            } else {
                0
            };
            &&& is_open ==> effects.len() == 0
            &&& !is_open ==> {
                &&& effects.len() == 4 + seen + row
                &&& effects[0] == (Effect::ResetMessages { count: message_count })
                &&& effects[1] == (Effect::SetEditorChannel {
                    channel_id: chat.channel_id,
                    channel_name,
                })
                &&& effects[2] == (Effect::Subscribe { chat })
                &&& seen == 1 ==> effects[3] == (Effect::AcknowledgeLastMessage { chat })
                &&& row == 1 ==> effects[3 + seen] == (Effect::SelectRow { row: channel_row->0 })
                &&& effects[3 + seen + row] == Effect::Notify
            }
        }),
{
}

/// A selected channel is shown by the open chat where that is the chat of the channel, and otherwise
/// by a chat that is opened for it.
pub proof fn selected_channel_is_opened_unless_open(
    panel: PanelModel,
    chat: Chat,
    channel_id: u64,
)
    ensures
        panel.active_chat is None ==> source_of(panel, channel_id) == (ChatSource::Open {
            channel_id,
        }),
        panel.active_chat == Some(chat) && chat.channel_id == channel_id ==> source_of(
            panel,
            channel_id,
        ) == (ChatSource::Active { chat }),
        panel.active_chat == Some(chat) && chat.channel_id != channel_id ==> source_of(
            panel,
            channel_id,
        ) == (ChatSource::Open { channel_id }),
{
}

/// More messages are loaded once one of the first fifty comes into view.
pub proof fn first_messages_in_view_load_more(visible_start: usize)
    ensures
        (visible_start < MESSAGE_LOADING_THRESHOLD) == (visible_start < 50),
{
}

/// A message of another sender than the one before is shown with its sender and its local time, and
/// so is one that follows itself; the control that removes it stands beside them, and space beside
/// the text. Any other message is shown with the control alone.
pub proof fn layout_shows_the_sender_once(
    layout: MessageLayout,
    last_message: ChannelMessage,
    this_message: ChannelMessage,
    remove: RemoveControl,
    now: OffsetDateTime,
    local_timezone: int,
)
    requires
        is_layout_of(layout, last_message, this_message, remove, now, local_timezone),
    ensures
        last_message.sender_id == this_message.sender_id && last_message.id != this_message.id
            ==> layout == (MessageLayout::Continuation { remove }),
        last_message.sender_id != this_message.sender_id || last_message.id == this_message.id ==> {
            &&& layout matches MessageLayout::Full {
                sender_login,
                timestamp,
                remove: header_end,
                text_end,
            }
            &&& sender_login@ == this_message.sender_login@
            &&& is_timestamp_text(
                timestamp@,
                this_message.timestamp.seconds_at(local_timezone) / 86_400,
                this_message.timestamp.seconds_at(local_timezone) % 86_400 / 3_600,
                this_message.timestamp.seconds_at(local_timezone) % 3_600 / 60,
                now.seconds_at(local_timezone) / 86_400,
            )
            &&& header_end == remove
            &&& text_end == RemoveControl::Spacer
        },
{
    assert(continues(last_message, this_message) == (last_message.sender_id
        == this_message.sender_id && last_message.id != this_message.id));
}

} // verus!
