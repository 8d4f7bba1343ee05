//! What is shown of a channel in the list of channels.

use vstd::prelude::*;
use crate::channel::{Channel, ChannelId};

verus! {

/// Which item of the list is shown.
#[derive(Clone, Copy, Debug, PartialEq, Eq, Structural)]
pub enum ItemType {
    Header,
    Selected,
    Unselected,
}

/// How an item looks.
#[derive(Clone, Copy, Debug, PartialEq, Eq, Structural)]
pub enum ItemStyle {
    Header,
    ActiveItem,
    Item,
    HoveredItem,
}

/// What a click on a button of the header does.
#[derive(Clone, Copy, Debug, PartialEq, Eq, Structural)]
pub enum HeaderAction {
    OpenNotes { channel_id: ChannelId },
    JoinCall { channel_id: ChannelId },
}

/// A button of the header.
#[derive(Debug)]
pub struct HeaderButton {
    pub icon: &'static str,
    pub tooltip: &'static str,
    /// Tells the tooltips of different channels apart.
    pub tooltip_id: usize,
    pub action: HeaderAction,
}

/// An item of the list.
#[derive(Debug)]
pub struct ChannelNameView {
    pub style: ItemStyle,
    pub hash: &'static str,
    pub name: String,
    pub buttons: Vec<HeaderButton>,
}

/// How an item looks; only an unselected item shows that the mouse is over it.
pub open spec fn item_style_of(item_type: ItemType, is_hovered: bool) -> ItemStyle {
    match item_type {
        ItemType::Header => ItemStyle::Header,
        ItemType::Selected => ItemStyle::ActiveItem,
        ItemType::Unselected => if is_hovered {
            ItemStyle::HoveredItem
        } else {
            ItemStyle::Item
        },
    }
}

/// How an item looks.
pub fn item_style(item_type: ItemType, is_hovered: bool) -> (style: ItemStyle)
    ensures
        style == item_style_of(item_type, is_hovered),
{
    match item_type {
        ItemType::Header => ItemStyle::Header,
        ItemType::Selected => ItemStyle::ActiveItem,
        ItemType::Unselected => if is_hovered {
            ItemStyle::HoveredItem
        } else {
            ItemStyle::Item
        },
    }
}

/// `button` shows `icon` and `tooltip`, and does `action`.
pub open spec fn is_header_button(
    button: HeaderButton,
    icon: Seq<char>,
    tooltip: Seq<char>,
    channel_id: ChannelId,
    action: HeaderAction,
) -> bool {
    &&& button.icon@ == icon
    &&& button.tooltip@ == tooltip
    &&& button.tooltip_id == channel_id as usize
    &&& button.action == action
}

/// A channel as an item of the list: the header alone has buttons, for the notes and for the call.
pub fn render_channel_name(
    channel: &Channel,
    item_type: ItemType,
    is_hovered: bool,
) -> (view: ChannelNameView)
    ensures
        view.style == item_style_of(item_type, is_hovered),
        view.hash@ == "#"@,
        view.name@ == channel.name@,
        item_type != ItemType::Header ==> view.buttons@.len() == 0,
        item_type == ItemType::Header ==> {
            &&& view.buttons@.len() == 2
            &&& is_header_button(
                view.buttons@[0],
                "icons/file.svg"@,
                "Open Notes"@,
                channel.id,
                HeaderAction::OpenNotes { channel_id: channel.id },
            )
            &&& is_header_button(
                view.buttons@[1],
                "icons/speaker-loud.svg"@,
                "Join Call"@,
                channel.id,
                HeaderAction::JoinCall { channel_id: channel.id },
            )
        },
{
    let channel_id: ChannelId = channel.id;
    let mut buttons: Vec<HeaderButton> = Vec::new();
    if item_type == ItemType::Header {
        let tooltip_id: usize = #[verifier::truncate] (channel_id as usize);
        buttons.push(
            HeaderButton {
                icon: "icons/file.svg",
                tooltip: "Open Notes",
                tooltip_id,
                action: HeaderAction::OpenNotes { channel_id },
            },
        );
        buttons.push(
            HeaderButton {
                icon: "icons/speaker-loud.svg",
                tooltip: "Join Call",
                tooltip_id,
                action: HeaderAction::JoinCall { channel_id },
            },
        );
    }
    ChannelNameView {
        style: item_style(item_type, is_hovered),
        hash: "#",
        name: channel.name.clone(),
        buttons,
    }
}

/// The header and the selected item look the same with the mouse over them as without, an unselected
/// item does not.
pub proof fn looks_of_items(is_hovered: bool)
    ensures
        item_style_of(ItemType::Header, is_hovered) == ItemStyle::Header,
        item_style_of(ItemType::Selected, is_hovered) == ItemStyle::ActiveItem,
        item_style_of(ItemType::Unselected, true) == ItemStyle::HoveredItem,
        item_style_of(ItemType::Unselected, false) == ItemStyle::Item,
{
}

/// A button of the header has the icon, the tooltip and the action that are said of it, and its
/// tooltip goes by the channel.
pub proof fn header_buttons_are_as_described(
    button: HeaderButton,
    icon: Seq<char>,
    tooltip: Seq<char>,
    channel_id: ChannelId,
    action: HeaderAction,
)
    requires
        is_header_button(button, icon, tooltip, channel_id, action),
    ensures
        button.icon@ == icon,
        button.tooltip@ == tooltip,
        channel_id <= usize::MAX ==> button.tooltip_id == channel_id,
        button.action == action,
{
}

} // verus!
