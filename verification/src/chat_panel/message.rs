//! What is shown of a message.

use vstd::prelude::*;
use crate::chat_panel::timestamp::OffsetDateTime;

verus! {

/// Identifies a message: by the id that the server gave it, or, until it has one, by a local id.
#[derive(Clone, Copy, Debug, PartialEq, Eq, Structural)]
pub enum ChannelMessageId {
    Saved(u64),
    Pending(usize),
}

/// A stretch of the body of a message, as byte positions, that mentions a user.
#[derive(Clone, Copy, Debug, PartialEq, Eq, Structural)]
pub struct UserMention {
    pub start: usize,
    pub end: usize,
    pub user_id: u64,
}

/// A mention as it is highlighted in the text of a message.
#[derive(Clone, Copy, Debug, PartialEq, Eq, Structural)]
pub struct Mention {
    pub start: usize,
    pub end: usize,
    pub is_self_mention: bool,
}

/// What the panel needs to know of a message.
#[derive(Debug)]
pub struct ChannelMessage {
    pub id: ChannelMessageId,
    pub timestamp: OffsetDateTime,
    pub sender_id: u64,
    pub sender_login: String,
    pub mentions: Vec<UserMention>,
}

/// The client at this end: its id, and its user where one is signed in.
#[derive(Clone, Copy, Debug, PartialEq, Eq, Structural)]
pub struct ClientIdentity {
    pub id: u64,
    pub user_id: Option<u64>,
}

/// How the background of a message looks.
#[derive(Clone, Copy, Debug, PartialEq, Eq, Structural)]
pub enum MessageStyle {
    Pending,
    Continuation,
    Message,
}

/// What stands at the right end of a message: a button that removes it, or space of the same size.
#[derive(Clone, Copy, Debug, PartialEq, Eq, Structural)]
pub enum RemoveControl {
    Button { message_id: u64 },
    Spacer,
}

/// The parts of a message.
#[derive(Debug)]
pub enum MessageLayout {
    /// The text, and a remove control beside it.
    Continuation { remove: RemoveControl },
    /// A row with the sender, the time and a remove control, and below it the text with a spacer.
    Full { sender_login: String, timestamp: String, remove: RemoveControl, text_end: RemoveControl },
}

impl ChannelMessage {
    /// The server has not confirmed the message yet.
    pub open spec fn pending(self) -> bool {
        self.id is Pending
    }

    /// Whether the server has not confirmed the message yet.
    pub fn is_pending(&self) -> (pending: bool)
        ensures
            pending == self.pending(),
    {
        match self.id {
            ChannelMessageId::Pending(_) => true,
            ChannelMessageId::Saved(_) => false,
        }
    }
}

/// The message goes on from the one before it: another message of the same sender.
pub open spec fn continues(last_message: ChannelMessage, this_message: ChannelMessage) -> bool {
    last_message.id != this_message.id && this_message.sender_id == last_message.sender_id
}

/// Whether a message goes on from the one before it.
pub fn is_continuation(
    last_message: &ChannelMessage,
    this_message: &ChannelMessage,
) -> (continuation: bool)
    ensures
        continuation == continues(*last_message, *this_message),
{
    last_message.id != this_message.id && this_message.sender_id == last_message.sender_id
}

/// The position of the message before the one at `ix`; the first message stands for its own
/// predecessor.
pub fn previous_ix(ix: usize) -> (previous: usize)
    ensures
        previous == if ix == 0 {
            0
        } else {
            ix - 1
        },
{
    if ix == 0 {
        0
    } else {
        ix - 1
    }
}

/// `user_id` is a user that the message mentions.
pub open spec fn mentions_user(mentions: Seq<UserMention>, user_id: Option<u64>) -> bool {
    exists|i: int| 0 <= i < mentions.len() && Some((#[trigger] mentions[i]).user_id) == user_id
}

/// The saved message that showing this one acknowledges: itself, where it mentions the user.
pub open spec fn acknowledged_message(message: ChannelMessage, user_id: Option<u64>) -> Option<
    u64,
> {
    match message.id {
        ChannelMessageId::Saved(id) if mentions_user(message.mentions@, user_id) => Some(id),
        _ => None,
    }
}

/// The saved message that showing a message acknowledges.
pub fn message_to_acknowledge(message: &ChannelMessage, user_id: Option<u64>) -> (id: Option<u64>)
    ensures
        id == acknowledged_message(*message, user_id),
{
    let user: u64 = match user_id {
        Some(user) => user,
        None => {
            return None;
        },
    };
    let id: u64 = match message.id {
        ChannelMessageId::Saved(id) => id,
        ChannelMessageId::Pending(_) => {
            return None;
        },
    };
    let mut i: usize = 0;
    while i < message.mentions.len()
        invariant
            i <= message.mentions@.len(),
            message.id == ChannelMessageId::Saved(id),
            user_id == Some(user),
            forall|j: int| 0 <= j < i ==> (#[trigger] message.mentions@[j]).user_id != user,
        decreases message.mentions@.len() - i,
    {
        if message.mentions[i].user_id == user {
            assert(Some(message.mentions@[i as int].user_id) == user_id);
            return Some(id);
        }
        i += 1;
    }
    None
}

/// The mentions of a message as user `current_user_id` sees them.
pub open spec fn highlighted(mentions: Seq<UserMention>, current_user_id: u64) -> Seq<Mention> {
    mentions.map_values(
        |mention: UserMention|
            Mention {
                start: mention.start,
                end: mention.end,
                is_self_mention: mention.user_id == current_user_id,
            },
    )
}

/// The mentions to highlight in the text of a message.
pub fn render_markdown_with_mentions(
    current_user_id: u64,
    message: &ChannelMessage,
) -> (mentions: Vec<Mention>)
    ensures
        mentions@ == highlighted(message.mentions@, current_user_id),
{
    let mut mentions: Vec<Mention> = Vec::with_capacity(message.mentions.len());
    let mut i: usize = 0;
    while i < message.mentions.len()
        invariant
            i <= message.mentions@.len(),
            mentions@ == highlighted(message.mentions@, current_user_id).take(i as int),
        decreases message.mentions@.len() - i,
    {
        let mention: UserMention = message.mentions[i];
        mentions.push(
            Mention {
                start: mention.start,
                end: mention.end,
                is_self_mention: mention.user_id == current_user_id,
            },
        );
        i += 1;
        assert(mentions@ =~= highlighted(message.mentions@, current_user_id).take(i as int));
    }
    assert(mentions@ =~= highlighted(message.mentions@, current_user_id));
    mentions
}

/// The message that the user may remove: a saved one that they sent, or any saved one as an admin.
pub open spec fn removable(
    message: ChannelMessage,
    user_id: Option<u64>,
    is_admin: bool,
) -> Option<u64> {
    match message.id {
        ChannelMessageId::Saved(id) if Some(message.sender_id) == user_id || is_admin => Some(id),
        _ => None,
    }
}

/// The message that the user may remove.
pub fn message_id_to_remove(
    message: &ChannelMessage,
    user_id: Option<u64>,
    is_admin: bool,
) -> (id: Option<u64>)
    ensures
        id == removable(*message, user_id, is_admin),
{
    let belongs_to_user = match user_id {
        Some(user_id) => message.sender_id == user_id,
        None => false,
    };
    match message.id {
        ChannelMessageId::Saved(id) => if belongs_to_user || is_admin {
            Some(id)
        } else {
            None
        },
        ChannelMessageId::Pending(_) => None,
    }
}

/// The remove control for a message that may be removed, or for none.
pub open spec fn remove_control(message_id_to_remove: Option<u64>) -> RemoveControl {
    match message_id_to_remove {
        Some(message_id) => RemoveControl::Button { message_id },
        None => RemoveControl::Spacer,
    }
}

/// The remove control for a message that may be removed, or for none.
pub fn render_remove(message_id_to_remove: Option<u64>) -> (control: RemoveControl)
    ensures
        control == remove_control(message_id_to_remove),
{
    match message_id_to_remove {
        Some(message_id) => RemoveControl::Button { message_id },
        None => RemoveControl::Spacer,
    }
}

/// How a message looks: a pending one as such, then one that goes on from the one before it.
pub open spec fn style_of(pending: bool, continuation: bool) -> MessageStyle {
    if pending {
        MessageStyle::Pending
    } else if continuation {
        MessageStyle::Continuation
    } else {
        MessageStyle::Message
    }
}

/// How a message looks.
pub fn message_style(pending: bool, continuation: bool) -> (style: MessageStyle)
    ensures
        style == style_of(pending, continuation),
{
    if pending {
        MessageStyle::Pending
    } else if continuation {
        MessageStyle::Continuation
    } else {
        MessageStyle::Message
    }
}

/// A message does not go on from itself, so the first message goes on from nothing.
pub proof fn first_message_continues_nothing(message: ChannelMessage)
    ensures
        !continues(message, message),
{
}

/// A message can be removed only if it is saved, and then by its sender and by admins.
pub proof fn only_sender_and_admins_remove(
    message: ChannelMessage,
    user_id: Option<u64>,
    is_admin: bool,
)
    ensures
        removable(message, user_id, is_admin) is Some == (!message.pending() && (is_admin
            || user_id == Some(message.sender_id))),
        removable(message, user_id, is_admin) matches Some(id) ==> message.id
            == ChannelMessageId::Saved(id),
        message.pending() ==> remove_control(removable(message, user_id, is_admin))
            == RemoveControl::Spacer,
{
}

/// A message goes on from the one before it exactly where both have the same sender and are two
/// messages; a saved message and a pending one are two, whatever their numbers.
pub proof fn messages_of_one_sender_go_on(last_message: ChannelMessage, this_message: ChannelMessage)
    ensures
        this_message.sender_id != last_message.sender_id ==> !continues(last_message, this_message),
        this_message.sender_id == last_message.sender_id ==> continues(last_message, this_message)
            == match (last_message.id, this_message.id) {
            (ChannelMessageId::Saved(a), ChannelMessageId::Saved(b)) => a != b,
            (ChannelMessageId::Pending(a), ChannelMessageId::Pending(b)) => a != b,
            _ => true,
        },
        this_message.pending() == match this_message.id {
            ChannelMessageId::Saved(_) => false,
            ChannelMessageId::Pending(_) => true,
        },
{
}

/// Showing a saved message acknowledges it where one of its mentions is of the user that is signed
/// in, and acknowledges nothing otherwise; showing a pending one never does.
pub proof fn mentions_of_the_user_are_acknowledged(
    message: ChannelMessage,
    id: u64,
    user_id: u64,
    mention: int,
)
    ensures
        acknowledged_message(message, None) is None,
        message.id is Pending ==> acknowledged_message(message, Some(user_id)) is None,
        message.id == ChannelMessageId::Saved(id) && 0 <= mention < message.mentions@.len()
            && message.mentions@[mention].user_id == user_id ==> acknowledged_message(
            message,
            Some(user_id),
        ) == Some(id),
        (forall|i: int|
            0 <= i < message.mentions@.len() ==> (#[trigger] message.mentions@[i]).user_id
                != user_id) ==> acknowledged_message(message, Some(user_id)) is None,
{
    if 0 <= mention < message.mentions@.len() && message.mentions@[mention].user_id == user_id {
        assert(Some(message.mentions@[mention].user_id) == Some(user_id));
    }
}

/// Each mention is highlighted where it stands, as one of the user exactly where it is of the user.
pub proof fn mentions_are_highlighted_in_place(
    mentions: Seq<UserMention>,
    user_id: u64,
    i: int,
)
    ensures
        highlighted(mentions, user_id).len() == mentions.len(),
        0 <= i < mentions.len() ==> {
            &&& highlighted(mentions, user_id)[i].start == mentions[i].start
            &&& highlighted(mentions, user_id)[i].end == mentions[i].end
            &&& highlighted(mentions, user_id)[i].is_self_mention == (mentions[i].user_id
                == user_id)
        },
{
}

/// A saved message can be removed, by its own id, by the user that sent it and by an admin, and by
/// nobody else; a pending one by nobody. A button removes the message that can be removed.
pub proof fn saved_messages_can_be_removed(
    message: ChannelMessage,
    id: u64,
    user_id: Option<u64>,
    is_admin: bool,
)
    ensures
        message.id is Pending ==> removable(message, user_id, is_admin) is None,
        message.id == ChannelMessageId::Saved(id) && is_admin ==> removable(
            message,
            user_id,
            is_admin,
        ) == Some(id),
        message.id == ChannelMessageId::Saved(id) && user_id == Some(message.sender_id)
            ==> removable(message, user_id, is_admin) == Some(id),
        !is_admin && user_id != Some(message.sender_id) ==> removable(message, user_id, is_admin)
            is None,
        remove_control(Some(id)) == (RemoveControl::Button { message_id: id }),
        remove_control(None) == RemoveControl::Spacer,
{
}

/// Pending messages look pending, whether they go on from the one before or not. Of the others, those
/// that go on look like that.
pub proof fn looks_of_messages(continuation: bool)
    ensures
        style_of(true, continuation) == MessageStyle::Pending,
        style_of(false, true) == MessageStyle::Continuation,
        style_of(false, false) == MessageStyle::Message,
{
}

} // verus!
