//! Explicit commands and the stable names they are stored under.

use vstd::prelude::*;
use vstd::string::*;

verus! {

use crate::geometry::{CardinalDirection, DisplayDirection, HorizontalDirection};
use crate::name::WorkspaceName;

/// The direction a zone-snap hotkey requests. Only left and right take part
/// in zone cycling.
#[derive(Debug, Clone, Copy, PartialEq, Eq, Structural)]
pub enum ZoneSnapDirection {
    Left,
    Right,
    Top,
    Bottom,
}

impl ZoneSnapDirection {
    pub open spec fn along(self) -> Option<HorizontalDirection> {
        match self {
            ZoneSnapDirection::Left => Some(HorizontalDirection::Left),
            ZoneSnapDirection::Right => Some(HorizontalDirection::Right),
            _ => None,
        }
    }

    /// The matching horizontal direction for left and right, nothing for top
    /// and bottom, which stay single-shot and never cycle.
    pub fn horizontal(self) -> (direction: Option<HorizontalDirection>)
        ensures
            direction == self.along(),
    {
        match self {
            ZoneSnapDirection::Left => Some(HorizontalDirection::Left),
            ZoneSnapDirection::Right => Some(HorizontalDirection::Right),
            ZoneSnapDirection::Top | ZoneSnapDirection::Bottom => None,
        }
    }
}

pub open spec fn zone_snap_text(direction: ZoneSnapDirection) -> Seq<char> {
    match direction {
        ZoneSnapDirection::Left => "snap-left"@,
        ZoneSnapDirection::Right => "snap-right"@,
        ZoneSnapDirection::Top => "snap-top"@,
        ZoneSnapDirection::Bottom => "snap-bottom"@,
    }
}

/// The command name an undo transaction records for a zone snap. Stable
/// text, because it is stored and shown back to the user later.
pub fn zone_snap_command(direction: ZoneSnapDirection) -> (name: &'static str)
    ensures
        name@ == zone_snap_text(direction),
{
    match direction {
        ZoneSnapDirection::Left => "snap-left",
        ZoneSnapDirection::Right => "snap-right",
        ZoneSnapDirection::Top => "snap-top",
        ZoneSnapDirection::Bottom => "snap-bottom",
    }
}

pub open spec fn swap_text(direction: CardinalDirection) -> Seq<char> {
    match direction {
        CardinalDirection::Left => "swap-left"@,
        CardinalDirection::Right => "swap-right"@,
        CardinalDirection::Up => "swap-up"@,
        CardinalDirection::Down => "swap-down"@,
    }
}

/// The stored command name for a directional swap.
pub fn swap_command(direction: CardinalDirection) -> (name: &'static str)
    ensures
        name@ == swap_text(direction),
{
    match direction {
        CardinalDirection::Left => "swap-left",
        CardinalDirection::Right => "swap-right",
        CardinalDirection::Up => "swap-up",
        CardinalDirection::Down => "swap-down",
    }
}

pub open spec fn resize_text(direction: CardinalDirection) -> Seq<char> {
    match direction {
        CardinalDirection::Left => "resize-left"@,
        CardinalDirection::Right => "resize-right"@,
        CardinalDirection::Up => "resize-up"@,
        CardinalDirection::Down => "resize-down"@,
    }
}

/// The stored command name for a tree resize.
pub fn resize_command(direction: CardinalDirection) -> (name: &'static str)
    ensures
        name@ == resize_text(direction),
{
    match direction {
        CardinalDirection::Left => "resize-left",
        CardinalDirection::Right => "resize-right",
        CardinalDirection::Up => "resize-up",
        CardinalDirection::Down => "resize-down",
    }
}

pub open spec fn throw_text(direction: DisplayDirection) -> Seq<char> {
    match direction {
        DisplayDirection::Next => "throw-next-display"@,
        DisplayDirection::Prev => "throw-previous-display"@,
    }
}

/// The stored command name for a throw to an adjacent display.
pub fn throw_command(direction: DisplayDirection) -> (name: &'static str)
    ensures
        name@ == throw_text(direction),
{
    match direction {
        DisplayDirection::Next => "throw-next-display",
        DisplayDirection::Prev => "throw-previous-display",
    }
}

/// The explicit command an undo transaction reverses.
#[derive(Debug, PartialEq)]
pub enum CommandLabel {
    ZoneSnap(ZoneSnapDirection),
    Swap(CardinalDirection),
    Resize(CardinalDirection),
    Throw(DisplayDirection),
    Restore,
    ToggleAutomaticTiling,
    ToggleFloating,
    RemovePosition,
    Rearrange,
    ApplyLayout(String),
    WorkspaceFocus(WorkspaceName),
}

impl CommandLabel {
    /// The stored name of the command.
    pub open spec fn spelled(self) -> Seq<char> {
        match self {
            CommandLabel::ZoneSnap(direction) => zone_snap_text(direction),
            CommandLabel::Swap(direction) => swap_text(direction),
            CommandLabel::Resize(direction) => resize_text(direction),
            CommandLabel::Throw(direction) => throw_text(direction),
            CommandLabel::Restore => "restore"@,
            CommandLabel::ToggleAutomaticTiling => "toggle-automatic-tiling"@,
            CommandLabel::ToggleFloating => "toggle-floating"@,
            CommandLabel::RemovePosition => "remove-position"@,
            CommandLabel::Rearrange => "rearrange"@,
            CommandLabel::ApplyLayout(name) => "apply-layout "@ + name@,
            CommandLabel::WorkspaceFocus(name) => "workspace-focus "@ + name.text@,
        }
    }

    pub fn text(&self) -> (text: String)
        ensures
            text@ == self.spelled(),
    {
        match self {
            CommandLabel::ZoneSnap(direction) => zone_snap_command(*direction).to_owned(),
            CommandLabel::Swap(direction) => swap_command(*direction).to_owned(),
            CommandLabel::Resize(direction) => resize_command(*direction).to_owned(),
            CommandLabel::Throw(direction) => throw_command(*direction).to_owned(),
            CommandLabel::Restore => "restore".to_owned(),
            CommandLabel::ToggleAutomaticTiling => "toggle-automatic-tiling".to_owned(),
            CommandLabel::ToggleFloating => "toggle-floating".to_owned(),
            CommandLabel::RemovePosition => "remove-position".to_owned(),
            CommandLabel::Rearrange => "rearrange".to_owned(),
            CommandLabel::ApplyLayout(name) => {
                let mut text = "apply-layout ".to_owned();
                text.append(name.as_str());
                text
            },
            CommandLabel::WorkspaceFocus(name) => {
                let mut text = "workspace-focus ".to_owned();
                text.append(name.text.as_str());
                text
            },
        }
    }
}

impl Clone for CommandLabel {
    fn clone(&self) -> (copy: CommandLabel)
        ensures
            copy == *self,
    {
        match self {
            CommandLabel::ZoneSnap(direction) => CommandLabel::ZoneSnap(*direction),
            CommandLabel::Swap(direction) => CommandLabel::Swap(*direction),
            CommandLabel::Resize(direction) => CommandLabel::Resize(*direction),
            CommandLabel::Throw(direction) => CommandLabel::Throw(*direction),
            CommandLabel::Restore => CommandLabel::Restore,
            CommandLabel::ToggleAutomaticTiling => CommandLabel::ToggleAutomaticTiling,
            CommandLabel::ToggleFloating => CommandLabel::ToggleFloating,
            CommandLabel::RemovePosition => CommandLabel::RemovePosition,
            CommandLabel::Rearrange => CommandLabel::Rearrange,
            CommandLabel::ApplyLayout(name) => CommandLabel::ApplyLayout(name.clone()),
            CommandLabel::WorkspaceFocus(name) => CommandLabel::WorkspaceFocus(name.clone()),
        }
    }
}

} // verus!
