//! Reversible actions and the ledger that keeps them.
//!
//! An action is written into the ledger once the remote service has
//! confirmed it. It carries the messages in full, since a deleted row cannot
//! be brought back from its id. Undoing takes the newest action out of the
//! ledger for good: there is no redo.

use vstd::prelude::*;
use crate::models::{Message, MessageView};

verus! {

/// An action that can be undone.
#[derive(Debug, Clone)]
pub enum UndoableAction {
    /// The messages of a thread were deleted while the label `label_id` was
    /// shown, with the thread at `original_index` of the list.
    Delete { messages: Vec<Message>, label_id: String, original_index: usize },
    /// The messages of a thread were taken out from under the label
    /// `label_id`, with the thread at `original_index` of the list.
    Archive { messages: Vec<Message>, label_id: String, original_index: usize },
}

/// What an [`UndoableAction`] holds, as mathematical values.
pub enum ActionView {
    Delete { messages: Seq<MessageView>, label_id: Seq<char>, original_index: usize },
    Archive { messages: Seq<MessageView>, label_id: Seq<char>, original_index: usize },
}

impl ActionView {
    /// The messages that the action carries.
    pub open spec fn messages(self) -> Seq<MessageView> {
        match self {
            ActionView::Delete { messages, .. } => messages,
            ActionView::Archive { messages, .. } => messages,
        }
    }

    /// The label that the action is about.
    pub open spec fn label_id(self) -> Seq<char> {
        match self {
            ActionView::Delete { label_id, .. } => label_id,
            ActionView::Archive { label_id, .. } => label_id,
        }
    }

    /// Where the thread stood in the list.
    pub open spec fn original_index(self) -> usize {
        match self {
            ActionView::Delete { original_index, .. } => original_index,
            ActionView::Archive { original_index, .. } => original_index,
        }
    }
}

impl View for UndoableAction {
    type V = ActionView;

    open spec fn view(&self) -> ActionView {
        match self {
            UndoableAction::Delete { messages, label_id, original_index } => ActionView::Delete {
                messages: messages.deep_view(),
                label_id: label_id@,
                original_index: *original_index,
            },
            UndoableAction::Archive { messages, label_id, original_index } => ActionView::Archive {
                messages: messages.deep_view(),
                label_id: label_id@,
                original_index: *original_index,
            },
        }
    }
}

impl DeepView for UndoableAction {
    type V = ActionView;

    open spec fn deep_view(&self) -> ActionView {
        self@
    }
}

impl UndoableAction {
    /// The word for the action in a status line.
    pub fn description(&self) -> (r: &'static str)
        ensures
            r@ == match self@ {
                ActionView::Delete { .. } => "delete"@,
                ActionView::Archive { .. } => "archive"@,
            },
    {
        match self {
            UndoableAction::Delete { .. } => "delete",
            UndoableAction::Archive { .. } => "archive",
        }
    }
}

/// The ledger: a stack of the actions that can still be undone, the newest
/// on top.
#[derive(Debug)]
pub struct UndoLedger {
    actions: Vec<UndoableAction>,
}

impl View for UndoLedger {
    type V = Seq<ActionView>;

    /// The actions, oldest first.
    closed spec fn view(&self) -> Seq<ActionView> {
        self.actions.deep_view()
    }
}

impl UndoLedger {
    /// An empty ledger.
    pub fn new() -> (r: UndoLedger)
        ensures
            r@ == Seq::<ActionView>::empty(),
    {
        let r = UndoLedger { actions: Vec::new() };
        assert(r@ =~= Seq::<ActionView>::empty());
        r
    }

    /// How many actions can be undone.
    pub fn len(&self) -> (r: usize)
        ensures
            r == self@.len(),
    {
        self.actions.len()
    }

    /// Whether nothing can be undone.
    pub fn is_empty(&self) -> (r: bool)
        ensures
            r == (self@.len() == 0),
    {
        self.actions.len() == 0
    }

    /// Puts `action` on top.
    pub fn push(&mut self, action: UndoableAction)
        ensures
            final(self)@ == old(self)@.push(action@),
    {
        let ghost before = self.actions.deep_view();
        self.actions.push(action);
        assert(self.actions.deep_view() =~= before.push(action@));
    }

    /// Takes the newest action off, if there is one.
    pub fn pop(&mut self) -> (r: Option<UndoableAction>)
        ensures
            match r {
                Some(action) => old(self)@.len() > 0 && action@ == old(self)@.last() && final(self)@
                    == old(self)@.drop_last(),
                None => old(self)@.len() == 0 && final(self)@ == old(self)@,
            },
    {
        let ghost before = self.actions.deep_view();
        let r = self.actions.pop();
        assert(r is Some ==> self.actions.deep_view() =~= before.drop_last());
        r
    }
}

impl Default for UndoLedger {
    fn default() -> (r: UndoLedger)
        ensures
            r@ == Seq::<ActionView>::empty(),
    {
        UndoLedger::new()
    }
}

} // verus!
