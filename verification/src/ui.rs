//! The state of the interface, as far as the engine reads or changes it:
//! what is shown, what is selected, and which panel has the focus.

use vstd::prelude::*;
use crate::models::{Label, Message};

verus! {

/// The panel that has the focus.
#[derive(Debug, PartialEq, Eq, Structural, Clone, Copy)]
pub enum FocusedPanel {
    Labels,
    Messages,
    Details,
}

/// What the interface is doing.
#[derive(Debug, PartialEq, Eq, Structural, Clone, Copy)]
pub enum UIMode {
    Browsing,
    Composing,
}

/// The field of the compose form that has the focus.
#[derive(Debug, PartialEq, Eq, Structural, Clone, Copy)]
pub enum ComposeField {
    To,
    Subject,
    Body,
}

/// A mail that is being written.
#[derive(Debug)]
pub struct ComposeState {
    pub to: String,
    pub subject: String,
    pub body: String,
    pub focused_field: ComposeField,
    pub cursor_index: usize,
}

/// The state of the interface.
#[derive(Debug)]
pub struct UIState {
    pub labels: Vec<Label>,
    pub messages: Vec<Message>,
    pub threaded_messages: Vec<Message>,
    pub selected_label_index: usize,
    pub selected_message_index: usize,
    pub detail_scroll: u16,
    pub focused_panel: FocusedPanel,
    pub mode: UIMode,
    pub compose_state: Option<ComposeState>,
}

impl Default for FocusedPanel {
    fn default() -> (r: FocusedPanel)
        ensures
            r == FocusedPanel::Labels,
    {
        FocusedPanel::Labels
    }
}

impl Default for ComposeField {
    fn default() -> (r: ComposeField)
        ensures
            r == ComposeField::To,
    {
        ComposeField::To
    }
}

impl FocusedPanel {
    /// The panel to the right, or this one if it is the last.
    pub fn next(self) -> (r: FocusedPanel)
        ensures
            r == match self {
                FocusedPanel::Labels => FocusedPanel::Messages,
                FocusedPanel::Messages => FocusedPanel::Details,
                FocusedPanel::Details => FocusedPanel::Details,
            },
    {
        match self {
            FocusedPanel::Labels => FocusedPanel::Messages,
            FocusedPanel::Messages => FocusedPanel::Details,
            FocusedPanel::Details => FocusedPanel::Details,
        }
    }

    /// The panel to the left, or this one if it is the first.
    pub fn prev(self) -> (r: FocusedPanel)
        ensures
            r == match self {
                FocusedPanel::Details => FocusedPanel::Messages,
                FocusedPanel::Messages => FocusedPanel::Labels,
                FocusedPanel::Labels => FocusedPanel::Labels,
            },
    {
        match self {
            FocusedPanel::Details => FocusedPanel::Messages,
            FocusedPanel::Messages => FocusedPanel::Labels,
            FocusedPanel::Labels => FocusedPanel::Labels,
        }
    }
}

impl ComposeField {
    /// The field that follows; after the body comes the recipient again.
    pub fn next(self) -> (r: ComposeField)
        ensures
            r == match self {
                ComposeField::To => ComposeField::Subject,
                ComposeField::Subject => ComposeField::Body,
                ComposeField::Body => ComposeField::To,
            },
    {
        match self {
            ComposeField::To => ComposeField::Subject,
            ComposeField::Subject => ComposeField::Body,
            ComposeField::Body => ComposeField::To,
        }
    }

    /// The field before; before the recipient comes the body.
    pub fn prev(self) -> (r: ComposeField)
        ensures
            r == match self {
                ComposeField::To => ComposeField::Body,
                ComposeField::Subject => ComposeField::To,
                ComposeField::Body => ComposeField::Subject,
            },
    {
        match self {
            ComposeField::To => ComposeField::Body,
            ComposeField::Subject => ComposeField::To,
            ComposeField::Body => ComposeField::Subject,
        }
    }
}

/// The selection after the list has come to hold `len` rows: it stays where
/// it is if a row is there, moves to the last row if the list got shorter,
/// and is 0 for an empty list.
pub open spec fn clamped(selected: usize, len: nat) -> usize {
    if len == 0 {
        0
    } else if selected >= len {
        (len - 1) as usize
    } else {
        selected
    }
}

/// The selection after the row at `selected` left a list that now holds
/// `len` rows: it moves to the last row if it would stand behind it, and
/// stays where it is in an empty list.
pub open spec fn after_removal(selected: usize, len: nat) -> usize {
    if selected >= len && len > 0 {
        (len - 1) as usize
    } else {
        selected
    }
}

/// The place at which a row goes back into a list of `len` rows: where it
/// stood, or at the end if the list has got shorter than that.
pub open spec fn restore_place(original_index: usize, len: nat) -> int {
    if original_index <= len {
        original_index as int
    } else {
        len as int
    }
}

impl UIState {
    /// An interface that shows nothing yet, with the focus on the messages.
    pub fn new() -> (r: UIState)
        ensures
            r.labels@.len() == 0,
            r.messages@.len() == 0,
            r.threaded_messages@.len() == 0,
            r.selected_label_index == 0,
            r.selected_message_index == 0,
            r.detail_scroll == 0,
            r.focused_panel == FocusedPanel::Messages,
            r.mode == UIMode::Browsing,
            r.compose_state is None,
    {
        UIState {
            labels: Vec::new(),
            messages: Vec::new(),
            threaded_messages: Vec::new(),
            selected_label_index: 0,
            selected_message_index: 0,
            detail_scroll: 0,
            focused_panel: FocusedPanel::Messages,
            mode: UIMode::Browsing,
            compose_state: None,
        }
    }

    /// Shows `messages` in place of the list shown so far, and keeps the
    /// selection on a row of the new list.
    pub fn replace_messages(&mut self, messages: Vec<Message>)
        ensures
            final(self).messages == messages,
            final(self).selected_message_index == clamped(
                old(self).selected_message_index,
                messages@.len(),
            ),
            final(self).labels == old(self).labels,
            final(self).threaded_messages == old(self).threaded_messages,
            final(self).selected_label_index == old(self).selected_label_index,
            final(self).detail_scroll == old(self).detail_scroll,
            final(self).focused_panel == old(self).focused_panel,
            final(self).mode == old(self).mode,
            final(self).compose_state == old(self).compose_state,
    {
        self.messages = messages;
        if self.messages.len() == 0 {
            self.selected_message_index = 0;
        } else if self.selected_message_index >= self.messages.len() {
            self.selected_message_index = self.messages.len() - 1;
        }
    }

    /// Takes the row at `index` out of the list, if there is one, and keeps
    /// the selection on a row.
    pub fn remove_message_at(&mut self, index: usize) -> (r: Option<Message>)
        ensures
            index < old(self).messages@.len() ==> r == Some(old(self).messages@[index as int])
                && final(self).messages@ == old(self).messages@.remove(index as int)
                && final(self).selected_message_index == after_removal(
                old(self).selected_message_index,
                final(self).messages@.len(),
            ),
            index >= old(self).messages@.len() ==> r is None
                && final(self).messages == old(self).messages
                && final(self).selected_message_index == old(self).selected_message_index,
            final(self).labels == old(self).labels,
            final(self).threaded_messages == old(self).threaded_messages,
            final(self).selected_label_index == old(self).selected_label_index,
            final(self).detail_scroll == old(self).detail_scroll,
            final(self).focused_panel == old(self).focused_panel,
            final(self).mode == old(self).mode,
            final(self).compose_state == old(self).compose_state,
    {
        if index < self.messages.len() {
            let row = self.messages.remove(index);
            if self.selected_message_index >= self.messages.len() && self.messages.len() > 0 {
                self.selected_message_index = self.messages.len() - 1;
            }
            Some(row)
        } else {
            None
        }
    }

    /// Puts `message` back into the list where it stood, or at the end if
    /// the list has become shorter, and selects it.
    pub fn restore_message(&mut self, message: Message, original_index: usize)
        ensures
            final(self).messages@ == old(self).messages@.insert(
                restore_place(original_index, old(self).messages@.len()),
                message,
            ),
            final(self).selected_message_index == restore_place(
                original_index,
                old(self).messages@.len(),
            ),
            final(self).labels == old(self).labels,
            final(self).threaded_messages == old(self).threaded_messages,
            final(self).selected_label_index == old(self).selected_label_index,
            final(self).detail_scroll == old(self).detail_scroll,
            final(self).focused_panel == old(self).focused_panel,
            final(self).mode == old(self).mode,
            final(self).compose_state == old(self).compose_state,
    {
        let place = if original_index <= self.messages.len() {
            original_index
        } else {
            self.messages.len()
        };
        self.messages.insert(place, message);
        self.selected_message_index = place;
    }
}

impl Default for UIState {
    fn default() -> (r: UIState)
        ensures
            r.labels@.len() == 0,
            r.messages@.len() == 0,
            r.threaded_messages@.len() == 0,
            r.selected_label_index == 0,
            r.selected_message_index == 0,
            r.detail_scroll == 0,
            r.focused_panel == FocusedPanel::Messages,
            r.mode == UIMode::Browsing,
            r.compose_state is None,
    {
        UIState::new()
    }
}

} // verus!
