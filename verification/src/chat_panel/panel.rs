//! The state of the chat panel, and what it does when something happens.

use vstd::prelude::*;
use crate::channel::ChannelId;
use crate::chat_panel::message::{
    acknowledged_message, continues, highlighted, is_continuation, message_id_to_remove,
    message_style, message_to_acknowledge, remove_control, removable, render_markdown_with_mentions,
    render_remove, style_of, ChannelMessage, ChannelMessageId, ClientIdentity, Mention,
    MessageLayout, MessageStyle, RemoveControl,
};
use crate::chat_panel::timestamp::{
    format_timestamp, is_timestamp_text, OffsetDateTime, MAX_OFFSET,
};
use std::collections::BTreeSet;

verus! {

broadcast use {
    vstd::std_specs::btree::group_btree_axioms,
    vstd::laws_cmp::group_laws_cmp,
};

/// More messages are loaded once a message before this one comes into view.
pub const MESSAGE_LOADING_THRESHOLD: usize = 50;

/// What the panel tells the workspace.
#[derive(Clone, Copy, Debug, PartialEq, Eq, Structural)]
pub enum Event {
    DockPositionChanged,
    Focus,
    Dismissed,
}

/// A side of the workspace that a panel can be docked to.
#[derive(Clone, Copy, Debug, PartialEq, Eq, Structural)]
pub enum DockPosition {
    Left,
    Bottom,
    Right,
}

/// An open chat: its handle, and the channel that it belongs to.
#[derive(Clone, Copy, Debug, PartialEq, Eq, Structural)]
pub struct Chat {
    pub handle: usize,
    pub channel_id: ChannelId,
}

/// What happens in an open chat.
#[derive(Clone, Copy, Debug, PartialEq, Eq, Structural)]
pub enum ChannelChatEvent {
    /// The messages from `start` up to `end` were replaced by `new_count` messages.
    MessagesUpdated { start: usize, end: usize, new_count: usize },
    NewMessage { channel_id: ChannelId, message_id: u64 },
}

/// What the panel has done outside of it, in the order in which it is to be done.
#[derive(Debug)]
pub enum Effect {
    /// Makes the list of messages start over with `count` messages.
    ResetMessages { count: usize },
    /// Replaces items of the list of messages.
    SpliceMessages { start: usize, end: usize, count: usize },
    /// Scrolls the list of messages to the start of an item.
    ScrollTo { item_ix: usize },
    /// Makes the editor write to a channel.
    SetEditorChannel { channel_id: ChannelId, channel_name: Option<String> },
    /// Follows what happens in a chat.
    Subscribe { chat: Chat },
    /// Acknowledges the last message of a chat.
    AcknowledgeLastMessage { chat: Chat },
    /// Loads earlier messages of a chat.
    LoadMoreMessages { chat: Chat },
    /// Loads the messages of a chat back to a message.
    LoadHistory { chat: Chat, message_id: u64 },
    /// Records in the channel store that a message arrived.
    RecordNewMessage { channel_id: ChannelId, message_id: u64 },
    /// Selects a row of the list of channels.
    SelectRow { row: usize },
    /// Sets the number of rows of the list of channels.
    SetRowCount { count: usize },
    /// Moves the focus to the box that messages are written in.
    FocusInputBox,
    /// Moves the focus to the editor inside that box.
    FocusEditor,
    /// Tells the workspace something.
    Emit { event: Event },
    /// Has the panel drawn again.
    Notify,
}

/// Where the chat of a selected channel comes from.
#[derive(Clone, Copy, Debug, PartialEq, Eq, Structural)]
pub enum ChatSource {
    /// It is open in the panel.
    Active { chat: Chat },
    /// It has to be opened.
    Open { channel_id: ChannelId },
}

/// What the panel shows.
#[derive(Clone, Copy, Debug, PartialEq, Eq, Structural)]
pub enum PanelContent {
    Channel,
    SignInPrompt,
}

/// A message as it is shown.
#[derive(Debug)]
pub struct MessageView {
    /// The message that is acknowledged by being shown.
    pub acknowledge: Option<u64>,
    /// The mentions to render the text with, where it has not been rendered yet.
    pub render_with: Option<Vec<Mention>>,
    pub style: MessageStyle,
    pub layout: MessageLayout,
    /// The message is the last one: there is space below it.
    pub is_last: bool,
}

/// The state of the chat panel.
#[verifier::ext_equal]
pub struct PanelModel {
    pub active_chat: Option<Chat>,
    pub active: bool,
    pub is_scrolled_to_bottom: bool,
    pub has_focus: bool,
    pub dock_position: DockPosition,
    pub local_timezone: i32,
    /// The messages whose text has been rendered.
    pub rendered: Set<ChannelMessageId>,
}

impl PanelModel {
    /// What acknowledges the last message: it is seen where the panel is active and scrolled to
    /// the bottom of an open chat.
    pub open spec fn acknowledgement(self) -> Seq<Effect> {
        match self.active_chat {
            Some(chat) if self.active && self.is_scrolled_to_bottom => seq![
                Effect::AcknowledgeLastMessage { chat },
            ],
            _ => seq![],
        }
    }

    /// `chat` is open in the panel.
    pub open spec fn shows(self, chat: Chat) -> bool {
        self.active_chat matches Some(active) && active.handle == chat.handle
    }

    /// The panel with another chat open.
    pub open spec fn with_chat(self, chat: Chat) -> PanelModel {
        if self.shows(chat) {
            self
        } else {
            PanelModel { active_chat: Some(chat), rendered: Set::empty(), ..self }
        }
    }

    /// What opening a chat in the panel takes; nothing where it is open.
    pub open spec fn opening(
        self,
        chat: Chat,
        message_count: usize,
        channel_name: Option<String>,
        channel_row: Option<usize>,
    ) -> Seq<Effect> {
        if self.shows(chat) {
            seq![]
        } else {
            seq![
                Effect::ResetMessages { count: message_count },
                Effect::SetEditorChannel { channel_id: chat.channel_id, channel_name },
                Effect::Subscribe { chat },
            ] + self.with_chat(chat).acknowledgement() + (match channel_row {
                Some(row) => seq![Effect::SelectRow { row }],
                None => seq![],
            }) + seq![Effect::Notify]
        }
    }

    /// What an event of the open chat takes.
    pub open spec fn reaction(self, event: ChannelChatEvent) -> Seq<Effect> {
        (match event {
            ChannelChatEvent::MessagesUpdated { start, end, new_count } => seq![
                Effect::SpliceMessages { start, end, count: new_count },
            ] + self.acknowledgement(),
            ChannelChatEvent::NewMessage { channel_id, message_id } => if self.active {
                seq![]
            } else {
                seq![Effect::RecordNewMessage { channel_id, message_id }]
            },
        }) + seq![Effect::Notify]
    }

    /// What loads more messages of the open chat.
    pub open spec fn loading_more(self) -> Seq<Effect> {
        match self.active_chat {
            Some(chat) => seq![Effect::LoadMoreMessages { chat }],
            None => seq![],
        }
    }
}

/// The messages whose text has been rendered.
#[derive(Debug)]
struct RenderedTexts {
    saved: BTreeSet<u64>,
    pending: BTreeSet<usize>,
}

impl View for RenderedTexts {
    type V = Set<ChannelMessageId>;

    closed spec fn view(&self) -> Set<ChannelMessageId> {
        Set::new(
            |id: ChannelMessageId|
                match id {
                    ChannelMessageId::Saved(id) => self.saved@.contains(id),
                    ChannelMessageId::Pending(id) => self.pending@.contains(id),
                },
        )
    }
}

impl RenderedTexts {
    fn new() -> (texts: Self)
        ensures
            texts@ == Set::<ChannelMessageId>::empty(),
    {
        let texts = RenderedTexts { saved: BTreeSet::new(), pending: BTreeSet::new() };
        assert(texts@ =~= Set::empty());
        texts
    }

    fn contains(&self, id: ChannelMessageId) -> (found: bool)
        ensures
            found == self@.contains(id),
    {
        match id {
            ChannelMessageId::Saved(id) => self.saved.contains(&id),
            ChannelMessageId::Pending(id) => self.pending.contains(&id),
        }
    }

    fn insert(&mut self, id: ChannelMessageId)
        ensures
            final(self)@ == old(self)@.insert(id),
    {
        match id {
            ChannelMessageId::Saved(id) => {
                self.saved.insert(id);
            },
            ChannelMessageId::Pending(id) => {
                self.pending.insert(id);
            },
        }
        assert(self@ =~= old(self)@.insert(id));
    }

    fn clear(&mut self)
        ensures
            final(self)@ == Set::<ChannelMessageId>::empty(),
    {
        self.saved.clear();
        self.pending.clear();
        assert(self@ =~= Set::empty());
    }
}

/// The chat panel.
#[derive(Debug)]
pub struct ChatPanel {
    active_chat: Option<Chat>,
    active: bool,
    is_scrolled_to_bottom: bool,
    has_focus: bool,
    dock_position: DockPosition,
    local_timezone: i32,
    markdown_data: RenderedTexts,
}

impl View for ChatPanel {
    type V = PanelModel;

    closed spec fn view(&self) -> PanelModel {
        PanelModel {
            active_chat: self.active_chat,
            active: self.active,
            is_scrolled_to_bottom: self.is_scrolled_to_bottom,
            has_focus: self.has_focus,
            dock_position: self.dock_position,
            local_timezone: self.local_timezone,
            rendered: self.markdown_data@,
        }
    }
}

impl ChatPanel {
    /// A panel at a side of the workspace, without a chat. It counts as scrolled to the bottom.
    pub fn new(dock_position: DockPosition, local_timezone: i32) -> (panel: Self)
        ensures
            panel@ == (PanelModel {
                active_chat: None,
                active: false,
                is_scrolled_to_bottom: true,
                has_focus: false,
                dock_position,
                local_timezone,
                rendered: Set::empty(),
            }),
    {
        ChatPanel {
            active_chat: None,
            active: false,
            is_scrolled_to_bottom: true,
            has_focus: false,
            dock_position,
            local_timezone,
            markdown_data: RenderedTexts::new(),
        }
    }

    /// Whether the last message is in view.
    pub fn is_scrolled_to_bottom(&self) -> (at_bottom: bool)
        ensures
            at_bottom == self@.is_scrolled_to_bottom,
    {
        self.is_scrolled_to_bottom
    }

    /// The chat that is open in the panel.
    pub fn active_chat(&self) -> (chat: Option<Chat>)
        ensures
            chat == self@.active_chat,
    {
        self.active_chat
    }

    /// Whether the panel has the focus.
    pub fn has_focus(&self) -> (has_focus: bool)
        ensures
            has_focus == self@.has_focus,
    {
        self.has_focus
    }

    /// The number of channels changed.
    pub fn update_channel_count(&self, channel_count: usize) -> (effects: Vec<Effect>)
        ensures
            effects@ == seq![Effect::SetRowCount { count: channel_count }],
    {
        let effects: Vec<Effect> = vec![Effect::SetRowCount { count: channel_count }];
        assert(effects@ =~= seq![Effect::SetRowCount { count: channel_count }]);
        effects
    }

    /// The list of messages was scrolled: the messages from `visible_start` up to `visible_end` of
    /// `count` are in view.
    pub fn scrolled(
        &mut self,
        visible_start: usize,
        visible_end: usize,
        count: usize,
    ) -> (effects: Vec<Effect>)
        ensures
            final(self)@ == (PanelModel {
                is_scrolled_to_bottom: visible_end == count,
                ..old(self)@
            }),
            effects@ == if visible_start < MESSAGE_LOADING_THRESHOLD {
                old(self)@.loading_more()
            } else {
                seq![]
            },
    {
        let mut effects: Vec<Effect> = Vec::new();
        if visible_start < MESSAGE_LOADING_THRESHOLD {
            effects = self.load_more_messages();
        }
        self.is_scrolled_to_bottom = visible_end == count;
        effects
    }

    /// The settings changed; the panel is docked to `new_dock_position` now.
    pub fn settings_changed(&mut self, new_dock_position: DockPosition) -> (effects: Vec<Effect>)
        ensures
            final(self)@ == (PanelModel { dock_position: new_dock_position, ..old(self)@ }),
            effects@ == if new_dock_position != old(self)@.dock_position {
                seq![Effect::Emit { event: Event::DockPositionChanged }, Effect::Notify]
            } else {
                seq![Effect::Notify]
            },
    {
        let mut effects: Vec<Effect> = Vec::new();
        if new_dock_position != self.dock_position {
            self.dock_position = new_dock_position;
            effects.push(Effect::Emit { event: Event::DockPositionChanged });
        }
        effects.push(Effect::Notify);
        assert(effects@ =~= if new_dock_position != old(self)@.dock_position {
            seq![Effect::Emit { event: Event::DockPositionChanged }, Effect::Notify]
        } else {
            seq![Effect::Notify]
        });
        effects
    }

    /// A row of the list of channels was selected, which shows `selected_channel_id` if any.
    pub fn row_selected(&self, selected_channel_id: Option<ChannelId>) -> (source: Option<
        ChatSource,
    >)
        ensures
            match selected_channel_id {
                Some(channel_id) => source == Some(source_of(self@, channel_id)),
                None => source is None,
            },
    {
        match selected_channel_id {
            Some(channel_id) => Some(self.select_channel(channel_id)),
            None => None,
        }
    }

    /// Where the chat of a selected channel comes from. Once it is there, see
    /// [`ChatPanel::chat_opened`].
    pub fn select_channel(&self, selected_channel_id: ChannelId) -> (source: ChatSource)
        ensures
            source == source_of(self@, selected_channel_id),
    {
        match self.active_chat {
            Some(chat) => if chat.channel_id == selected_channel_id {
                ChatSource::Active { chat }
            } else {
                ChatSource::Open { channel_id: selected_channel_id }
            },
            None => ChatSource::Open { channel_id: selected_channel_id },
        }
    }

    /// The chat of a selected channel is there: opens it in the panel, and goes on to load its
    /// history where a message is to be scrolled to.
    pub fn chat_opened(
        &mut self,
        chat: Chat,
        message_count: usize,
        channel_name: Option<String>,
        channel_row: Option<usize>,
        scroll_to_message_id: Option<u64>,
    ) -> (effects: Vec<Effect>)
        ensures
            final(self)@ == old(self)@.with_chat(chat),
            effects@ == old(self)@.opening(chat, message_count, channel_name, channel_row) + (
            match scroll_to_message_id {
                Some(message_id) => seq![Effect::LoadHistory { chat, message_id }],
                None => seq![],
            }),
    {
        let mut effects = self.set_active_chat(chat, message_count, channel_name, channel_row);
        let ghost opening = effects@;
        if let Some(message_id) = scroll_to_message_id {
            effects.push(Effect::LoadHistory { chat, message_id });
        }
        assert(effects@ =~= opening + (match scroll_to_message_id {
            Some(message_id) => seq![Effect::LoadHistory { chat, message_id }],
            None => seq![],
        }));
        effects
    }

    /// The history of a chat is there back to a message, which is at `item_ix` if it was found:
    /// scrolls to it where the chat is still open in the panel.
    pub fn history_loaded(&self, chat: Chat, item_ix: Option<usize>) -> (effects: Vec<Effect>)
        ensures
            effects@ == match item_ix {
                Some(item_ix) if self@.shows(chat) => seq![
                    Effect::ScrollTo { item_ix },
                    Effect::Notify,
                ],
                _ => seq![],
            },
    {
        let mut effects: Vec<Effect> = Vec::new();
        if let Some(item_ix) = item_ix {
            if self.is_active_chat(chat) {
                effects.push(Effect::ScrollTo { item_ix });
                effects.push(Effect::Notify);
            }
        }
        assert(effects@ =~= match item_ix {
            Some(item_ix) if self@.shows(chat) => seq![Effect::ScrollTo { item_ix }, Effect::Notify],
            _ => seq![],
        });
        effects
    }

    /// Whether a chat is open in the panel.
    fn is_active_chat(&self, chat: Chat) -> (is_active: bool)
        ensures
            is_active == self@.shows(chat),
    {
        match self.active_chat {
            Some(active) => active.handle == chat.handle,
            None => false,
        }
    }

    /// Opens a chat in the panel. It has `message_count` messages, and its channel is called
    /// `channel_name` and shown in row `channel_row` of the list of channels, where it is known.
    pub fn set_active_chat(
        &mut self,
        chat: Chat,
        message_count: usize,
        channel_name: Option<String>,
        channel_row: Option<usize>,
    ) -> (effects: Vec<Effect>)
        ensures
            final(self)@ == old(self)@.with_chat(chat),
            effects@ == old(self)@.opening(chat, message_count, channel_name, channel_row),
    {
        let ghost name = channel_name;
        let mut effects: Vec<Effect> = Vec::new();
        if !self.is_active_chat(chat) {
            self.markdown_data.clear();
            effects.push(Effect::ResetMessages { count: message_count });
            effects.push(Effect::SetEditorChannel { channel_id: chat.channel_id, channel_name });
            effects.push(Effect::Subscribe { chat });
            self.active_chat = Some(chat);
            assert(self@ =~= old(self)@.with_chat(chat));
            let mut acknowledgement = self.acknowledge_last_message();
            effects.append(&mut acknowledgement);
            if let Some(row) = channel_row {
                effects.push(Effect::SelectRow { row });
            }
            effects.push(Effect::Notify);
        }
        assert(effects@ =~= old(self)@.opening(chat, message_count, name, channel_row));
        effects
    }

    /// Something happened in the open chat.
    pub fn channel_did_change(&self, event: ChannelChatEvent) -> (effects: Vec<Effect>)
        ensures
            effects@ == self@.reaction(event),
            event matches ChannelChatEvent::MessagesUpdated { start, end, new_count } ==> {
                &&& effects@.len() > 0
                &&& effects@[0] == (Effect::SpliceMessages { start, end, count: new_count })
                &&& forall|i: int|
                    0 < i < effects@.len() ==> #[trigger] effects@[i] !is SpliceMessages
            },
    {
        let mut effects: Vec<Effect> = Vec::new();
        match event {
            ChannelChatEvent::MessagesUpdated { start, end, new_count } => {
                effects.push(Effect::SpliceMessages { start, end, count: new_count });
                if self.active {
                    let mut acknowledgement = self.acknowledge_last_message();
                    effects.append(&mut acknowledgement);
                }
            },
            ChannelChatEvent::NewMessage { channel_id, message_id } => {
                if !self.active {
                    effects.push(Effect::RecordNewMessage { channel_id, message_id });
                }
            },
        }
        effects.push(Effect::Notify);
        assert(effects@ =~= self@.reaction(event));
        effects
    }

    /// Acknowledges the last message, where it is seen.
    pub fn acknowledge_last_message(&self) -> (effects: Vec<Effect>)
        ensures
            effects@ == self@.acknowledgement(),
    {
        let mut effects: Vec<Effect> = Vec::new();
        if self.active && self.is_scrolled_to_bottom {
            if let Some(chat) = self.active_chat {
                effects.push(Effect::AcknowledgeLastMessage { chat });
            }
        }
        assert(effects@ =~= self@.acknowledgement());
        effects
    }

    /// Loads more messages of the open chat.
    pub fn load_more_messages(&self) -> (effects: Vec<Effect>)
        ensures
            effects@ == self@.loading_more(),
    {
        let mut effects: Vec<Effect> = Vec::new();
        if let Some(chat) = self.active_chat {
            effects.push(Effect::LoadMoreMessages { chat });
        }
        assert(effects@ =~= self@.loading_more());
        effects
    }

    /// The chat that what stands in the editor is sent to.
    pub fn send(&self) -> (chat: Option<Chat>)
        ensures
            chat == self@.active_chat,
    {
        self.active_chat
    }

    /// The chat that a message is removed from.
    pub fn remove_message(&self, id: u64) -> (removal: Option<(Chat, u64)>)
        ensures
            removal == match self@.active_chat {
                Some(chat) => Some((chat, id)),
                None => None,
            },
    {
        match self.active_chat {
            Some(chat) => Some((chat, id)),
            None => None,
        }
    }

    /// The channel whose notes are opened.
    pub fn open_notes(&self) -> (channel_id: Option<ChannelId>)
        ensures
            channel_id == match self@.active_chat {
                Some(chat) => Some(chat.channel_id),
                None => None,
            },
    {
        match self.active_chat {
            Some(chat) => Some(chat.channel_id),
            None => None,
        }
    }

    /// The channel whose call is joined.
    pub fn join_call(&self) -> (channel_id: Option<ChannelId>)
        ensures
            channel_id == match self@.active_chat {
                Some(chat) => Some(chat.channel_id),
                None => None,
            },
    {
        match self.active_chat {
            Some(chat) => Some(chat.channel_id),
            None => None,
        }
    }

    /// What the panel shows to the user, where one is signed in, and where none is.
    pub fn render(&self, user_id: Option<u64>) -> (content: PanelContent)
        ensures
            content == if user_id is Some {
                PanelContent::Channel
            } else {
                PanelContent::SignInPrompt
            },
    {
        if user_id.is_some() {
            PanelContent::Channel
        } else {
            PanelContent::SignInPrompt
        }
    }

    /// Whether the list of messages is shown; where no chat is open there is nothing in its place.
    pub fn render_active_channel_messages(&self) -> (shows_messages: bool)
        ensures
            shows_messages == (self@.active_chat is Some),
    {
        self.active_chat.is_some()
    }

    /// The user went through signing in, which connected the client or failed; the box that
    /// messages are written in takes the focus of a panel that has it.
    pub fn sign_in_finished(&self, is_connected: bool, is_focused: bool) -> (effects: Vec<Effect>)
        ensures
            effects@ == if is_connected && is_focused {
                seq![Effect::FocusInputBox]
            } else {
                seq![]
            },
    {
        let mut effects: Vec<Effect> = Vec::new();
        if is_connected {
            if is_focused {
                effects.push(Effect::FocusInputBox);
            }
        }
        assert(effects@ =~= if is_connected && is_focused {
            seq![Effect::FocusInputBox]
        } else {
            seq![]
        });
        effects
    }

    /// The panel got the focus; the editor takes it where the client is connected.
    pub fn focus_in(&mut self, is_connected: bool) -> (effects: Vec<Effect>)
        ensures
            final(self)@ == (PanelModel { has_focus: true, ..old(self)@ }),
            effects@ == if is_connected {
                seq![Effect::FocusEditor]
            } else {
                seq![]
            },
    {
        self.has_focus = true;
        let mut effects: Vec<Effect> = Vec::new();
        if is_connected {
            effects.push(Effect::FocusEditor);
        }
        assert(effects@ =~= if is_connected {
            seq![Effect::FocusEditor]
        } else {
            seq![]
        });
        effects
    }

    /// The panel lost the focus.
    pub fn focus_out(&mut self)
        ensures
            final(self)@ == (PanelModel { has_focus: false, ..old(self)@ }),
    {
        self.has_focus = false;
    }

    /// The panel was opened or closed. Without the channels feature it does not stay open.
    pub fn set_active(&mut self, active: bool, channels_enabled: bool) -> (effects: Vec<Effect>)
        ensures
            final(self)@ == (PanelModel { active, ..old(self)@ }),
            effects@ == if active {
                final(self)@.acknowledgement() + if channels_enabled {
                    seq![]
                } else {
                    seq![Effect::Emit { event: Event::Dismissed }]
                }
            } else {
                seq![]
            },
    {
        self.active = active;
        let mut effects: Vec<Effect> = Vec::new();
        if active {
            effects = self.acknowledge_last_message();
            if !channels_enabled {
                effects.push(Effect::Emit { event: Event::Dismissed });
            }
        }
        assert(effects@ =~= if active {
            self@.acknowledgement() + if channels_enabled {
                seq![]
            } else {
                seq![Effect::Emit { event: Event::Dismissed }]
            }
        } else {
            seq![]
        });
        effects
    }

    /// Whether the panel can be docked to a side.
    pub fn position_is_valid(&self, position: DockPosition) -> (is_valid: bool)
        ensures
            is_valid == (position == DockPosition::Left || position == DockPosition::Right),
    {
        position == DockPosition::Left || position == DockPosition::Right
    }

    /// The icon of the panel, where its button is on and the channels feature is enabled.
    pub fn icon_path(&self, button: bool, channels_enabled: bool) -> (icon: Option<&'static str>)
        ensures
            icon is Some == (button && channels_enabled),
            icon matches Some(path) ==> path@ == "icons/conversations.svg"@,
    {
        if button && channels_enabled {
            Some("icons/conversations.svg")
        } else {
            None
        }
    }

    /// The tooltip of the icon.
    pub fn icon_tooltip(&self) -> (tooltip: &'static str)
        ensures
            tooltip@ == "Chat Panel"@,
    {
        "Chat Panel"
    }

    /// The name of the view.
    pub fn ui_name() -> (name: &'static str)
        ensures
            name@ == "ChatPanel"@,
    {
        "ChatPanel"
    }

    /// Whether an event means that the panel is docked elsewhere.
    pub fn should_change_position_on_event(event: &Event) -> (should: bool)
        ensures
            should == (*event == Event::DockPositionChanged),
    {
        *event == Event::DockPositionChanged
    }

    /// Whether an event means that the panel is to be closed.
    pub fn should_close_on_event(event: &Event) -> (should: bool)
        ensures
            should == (*event == Event::Dismissed),
    {
        *event == Event::Dismissed
    }

    /// Whether an event means that the panel got the focus.
    pub fn is_focus_event(event: &Event) -> (is_focus: bool)
        ensures
            is_focus == (*event == Event::Focus),
    {
        *event == Event::Focus
    }

    /// What is shown of `this_message`, which is message `ix` of `message_count` and comes after
    /// `last_message`.
    pub fn render_message(
        &mut self,
        ix: usize,
        message_count: usize,
        last_message: &ChannelMessage,
        this_message: &ChannelMessage,
        is_admin: bool,
        client: ClientIdentity,
        now: OffsetDateTime,
    ) -> (view: MessageView)
        requires
            old(self)@.active_chat is Some,
            ix < message_count,
            !continues(*last_message, *this_message) ==> {
                &&& -MAX_OFFSET <= old(self)@.local_timezone <= MAX_OFFSET
                &&& this_message.timestamp.is_valid()
                &&& this_message.timestamp.has_date_at(old(self)@.local_timezone as int)
                &&& now.is_valid()
                &&& now.has_date_at(old(self)@.local_timezone as int)
            },
        ensures
            final(self)@ == (PanelModel {
                rendered: old(self)@.rendered.insert(this_message.id),
                ..old(self)@
            }),
            view.acknowledge == acknowledged_message(*this_message, client.user_id),
            view.render_with is None == old(self)@.rendered.contains(this_message.id),
            view.render_with matches Some(mentions) ==> mentions@ == highlighted(
                this_message.mentions@,
                client.id,
            ),
            view.style == style_of(
                this_message.pending(),
                continues(*last_message, *this_message),
            ),
            view.is_last == (message_count == ix + 1),
            is_layout_of(
                view.layout,
                *last_message,
                *this_message,
                remove_control(removable(*this_message, client.user_id, is_admin)),
                now,
                old(self)@.local_timezone as int,
            ),
    {
        let is_continuation = is_continuation(last_message, this_message);
        let acknowledge = message_to_acknowledge(this_message, client.user_id);
        let is_last = message_count == ix + 1;
        let style = message_style(this_message.is_pending(), is_continuation);
        let render_with = if self.markdown_data.contains(this_message.id) {
            assert(self@.rendered.insert(this_message.id) =~= self@.rendered);
            None
        } else {
            self.markdown_data.insert(this_message.id);
            Some(render_markdown_with_mentions(client.id, this_message))
        };
        let remove = render_remove(
            message_id_to_remove(this_message, client.user_id, is_admin),
        );
        let layout = if is_continuation {
            MessageLayout::Continuation { remove }
        } else {
            MessageLayout::Full {
                sender_login: this_message.sender_login.clone(),
                timestamp: format_timestamp(this_message.timestamp, now, self.local_timezone),
                remove,
                text_end: render_remove(None),
            }
        };
        MessageView { acknowledge, render_with, style, layout, is_last }
    }
}

/// Where the chat of a channel comes from: from the panel, where it is open there.
pub open spec fn source_of(panel: PanelModel, channel_id: ChannelId) -> ChatSource {
    match panel.active_chat {
        Some(chat) if chat.channel_id == channel_id => ChatSource::Active { chat },
        _ => ChatSource::Open { channel_id },
    }
}

/// `layout` shows a message that comes after `last_message`, with `remove` at its right end: its
/// sender and its time too, unless it goes on from `last_message`.
pub open spec fn is_layout_of(
    layout: MessageLayout,
    last_message: ChannelMessage,
    this_message: ChannelMessage,
    remove: RemoveControl,
    now: OffsetDateTime,
    local_timezone: int,
) -> bool {
    if continues(last_message, this_message) {
        layout == (MessageLayout::Continuation { remove })
    } else {
        layout matches MessageLayout::Full {
            sender_login,
            timestamp,
            remove: header_end,
            text_end,
        } && {
            &&& sender_login@ == this_message.sender_login@
            &&& is_timestamp_text(
                timestamp@,
                this_message.timestamp.seconds_at(local_timezone) / 86_400,
                this_message.timestamp.seconds_at(local_timezone) % 86_400 / 3_600,
                this_message.timestamp.seconds_at(local_timezone) % 3_600 / 60,
                now.seconds_at(local_timezone) / 86_400,
            )
            &&& header_end == remove
            &&& text_end == RemoveControl::Spacer
        }
    }
}

} // verus!
