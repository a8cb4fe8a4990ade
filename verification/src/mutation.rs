//! Deleting and archiving a thread, and undoing either.
//!
//! A deletion or an archiving is applied to the local store at once and
//! shielded by the modification guard, then sent to the remote service. If
//! the service confirms it, the action goes into the undo ledger; if the
//! service fails, the local change is taken back and the guard withdrawn.
//! The functions here decide and apply the local side; each hands back the
//! commands that the caller has to send.

use vstd::prelude::*;
use vstd::string::StrSliceExecFns;
use crate::models::copy_texts;
use crate::ranking::is_ranking;
use crate::store::{ids_of, in_thread, message_ids, LocalStore, StoreView};
use crate::sync::{marked, unmarked, SyncState};
use crate::texts::{lemma_take_step, spells};
use crate::undo::{ActionView, UndoLedger, UndoableAction};

verus! {

/// A call that the caller has to make to the remote service.
#[derive(Debug)]
pub enum RemoteCommand {
    /// Move the messages to the trash.
    Trash { ids: Vec<String> },
    /// Take one message out of the trash.
    Untrash { id: String },
    /// Take the messages out of the inbox.
    Archive { ids: Vec<String> },
    /// Put the messages back into the inbox.
    Unarchive { ids: Vec<String> },
    /// Take the label from the messages.
    RemoveLabel { ids: Vec<String>, label_id: String },
    /// Give the label to the messages.
    AddLabel { ids: Vec<String>, label_id: String },
}

/// What a [`RemoteCommand`] holds, as mathematical values.
pub enum CommandView {
    Trash { ids: Seq<Seq<char>> },
    Untrash { id: Seq<char> },
    Archive { ids: Seq<Seq<char>> },
    Unarchive { ids: Seq<Seq<char>> },
    RemoveLabel { ids: Seq<Seq<char>>, label_id: Seq<char> },
    AddLabel { ids: Seq<Seq<char>>, label_id: Seq<char> },
}

impl View for RemoteCommand {
    type V = CommandView;

    open spec fn view(&self) -> CommandView {
        match self {
            RemoteCommand::Trash { ids } => CommandView::Trash { ids: ids.deep_view() },
            RemoteCommand::Untrash { id } => CommandView::Untrash { id: id@ },
            RemoteCommand::Archive { ids } => CommandView::Archive { ids: ids.deep_view() },
            RemoteCommand::Unarchive { ids } => CommandView::Unarchive { ids: ids.deep_view() },
            RemoteCommand::RemoveLabel { ids, label_id } => CommandView::RemoveLabel {
                ids: ids.deep_view(),
                label_id: label_id@,
            },
            RemoteCommand::AddLabel { ids, label_id } => CommandView::AddLabel {
                ids: ids.deep_view(),
                label_id: label_id@,
            },
        }
    }
}

impl DeepView for RemoteCommand {
    type V = CommandView;

    open spec fn deep_view(&self) -> CommandView {
        self@
    }
}

/// A local change that waits for the answer of the remote service.
#[derive(Debug)]
pub struct PendingMutation {
    /// The action that goes into the ledger if the service confirms.
    pub action: UndoableAction,
    /// The call to make.
    pub command: RemoteCommand,
    /// The messages that stood under the label when it was taken from the
    /// thread: those that get it back if the service fails.
    pub unlinked: Vec<String>,
}

/// Whether `label_id` is the id of a category label: it begins with
/// `CATEGORY_`.
pub open spec fn is_category(label_id: Seq<char>) -> bool {
    label_id.len() >= 9 && label_id.subrange(0, 9) == "CATEGORY_"@
}

/// The label that archiving takes from a thread while the label
/// `viewed_label` is shown: a category label itself, and the inbox for every
/// other label.
pub open spec fn archive_target(viewed_label: Seq<char>) -> Seq<char> {
    if is_category(viewed_label) {
        viewed_label
    } else {
        "INBOX"@
    }
}

/// The call by which the label `label_id` is taken from the messages `ids`.
pub open spec fn archive_command(ids: Seq<Seq<char>>, label_id: Seq<char>) -> CommandView {
    if label_id == "INBOX"@ {
        CommandView::Archive { ids }
    } else {
        CommandView::RemoveLabel { ids, label_id }
    }
}

/// The call by which the label `label_id` is given back to the messages
/// `ids`.
pub open spec fn restore_command(ids: Seq<Seq<char>>, label_id: Seq<char>) -> CommandView {
    if label_id == "INBOX"@ {
        CommandView::Unarchive { ids }
    } else {
        CommandView::AddLabel { ids, label_id }
    }
}

/// One call for each of `ids` that takes it out of the trash.
pub open spec fn untrash_commands(ids: Seq<Seq<char>>) -> Seq<CommandView> {
    Seq::new(ids.len(), |k: int| CommandView::Untrash { id: ids[k] })
}

/// The ids that `links` puts under the label `label_id`.
pub open spec fn linked_under(links: Set<(Seq<char>, Seq<char>)>, label_id: Seq<char>) -> spec_fn(
    Seq<char>,
) -> bool {
    |id: Seq<char>| links.contains((id, label_id))
}

/// The store after the action `action` was undone: its messages are stored
/// again under its label.
pub open spec fn undone(s: StoreView, action: ActionView) -> StoreView {
    s.upserted_all(action.messages(), action.label_id())
}

/// The calls that undo `action` at the remote service.
pub open spec fn undo_commands(action: ActionView) -> Seq<CommandView> {
    match action {
        ActionView::Delete { messages, .. } => untrash_commands(ids_of(messages)),
        ActionView::Archive { messages, label_id, .. } => seq![
            restore_command(ids_of(messages), label_id),
        ],
    }
}

/// Whether undoing `action` puts its first message back into the list that
/// is shown for the label `viewed_label`: a deleted thread always, an
/// archived one only while the label it was taken from is still shown.
pub open spec fn undo_reinserts(action: ActionView, viewed_label: Seq<char>) -> bool {
    match action {
        ActionView::Delete { .. } => true,
        ActionView::Archive { label_id, .. } => label_id == viewed_label,
    }
}

/// The store after the pending change `action` was taken back: deleted
/// messages are stored again under the action's label; after an archiving
/// the messages `unlinked` get the label back.
pub open spec fn rolled_back(s: StoreView, action: ActionView, unlinked: Seq<Seq<char>>) -> StoreView {
    match action {
        ActionView::Delete { messages, label_id, .. } => s.upserted_all(messages, label_id),
        ActionView::Archive { label_id, .. } => s.relinked_all(unlinked, label_id),
    }
}

/// Whether `label_id` is the id of a category label.
pub fn is_category_label(label_id: &str) -> (r: bool)
    ensures
        r == is_category(label_id@),
{
    if label_id.unicode_len() < 9 {
        return false;
    }
    spells(label_id.substring_char(0, 9), "CATEGORY_")
}

/// Deletes the thread `thread_id` locally, at the moment `now`: all its
/// messages are guarded and then removed from the store. `label_id` is the
/// label that is shown and `index` the place of the thread in the list.
pub fn begin_delete(
    store: &mut LocalStore,
    state: &mut SyncState,
    now: u64,
    thread_id: &str,
    label_id: &str,
    index: usize,
) -> (pending: PendingMutation)
    ensures
        is_ranking(pending.action@.messages(), old(store)@.messages, in_thread(thread_id@)),
        pending.action@ == (ActionView::Delete {
            messages: pending.action@.messages(),
            label_id: label_id@,
            original_index: index,
        }),
        pending.command@ == (CommandView::Trash { ids: ids_of(pending.action@.messages()) }),
        pending.unlinked.deep_view() == Seq::<Seq<char>>::empty(),
        final(store)@ == old(store)@.deleted_all(ids_of(pending.action@.messages())),
        final(store)@.wf(),
        final(state)@.recently_modified == marked(
            old(state)@.recently_modified,
            ids_of(pending.action@.messages()),
            now,
        ),
        final(state)@.synced_labels == old(state)@.synced_labels,
        final(state)@.currently_syncing == old(state)@.currently_syncing,
{
    let messages = store.get_messages_by_thread(thread_id);
    let ids = message_ids(&messages);
    state.mark_modified_many_at(copy_texts(&ids), now);
    store.delete_messages(&ids);
    let unlinked: Vec<String> = Vec::new();
    assert(unlinked.deep_view() =~= Seq::<Seq<char>>::empty());
    PendingMutation {
        action: UndoableAction::Delete {
            messages,
            label_id: label_id.to_owned(),
            original_index: index,
        },
        command: RemoteCommand::Trash { ids },
        unlinked,
    }
}

/// Archives the thread `thread_id` locally, at the moment `now`: all its
/// messages are guarded and then lose the label that archiving takes while
/// `viewed_label` is shown. `index` is the place of the thread in the list.
pub fn begin_archive(
    store: &mut LocalStore,
    state: &mut SyncState,
    now: u64,
    thread_id: &str,
    viewed_label: &str,
    index: usize,
) -> (pending: PendingMutation)
    ensures
        is_ranking(pending.action@.messages(), old(store)@.messages, in_thread(thread_id@)),
        pending.action@ == (ActionView::Archive {
            messages: pending.action@.messages(),
            label_id: archive_target(viewed_label@),
            original_index: index,
        }),
        pending.command@ == archive_command(
            ids_of(pending.action@.messages()),
            archive_target(viewed_label@),
        ),
        pending.unlinked.deep_view() == ids_of(pending.action@.messages()).filter(
            linked_under(old(store)@.links, archive_target(viewed_label@)),
        ),
        final(store)@ == old(store)@.unlinked_all(
            ids_of(pending.action@.messages()),
            archive_target(viewed_label@),
        ),
        final(store)@.wf(),
        final(state)@.recently_modified == marked(
            old(state)@.recently_modified,
            ids_of(pending.action@.messages()),
            now,
        ),
        final(state)@.synced_labels == old(state)@.synced_labels,
        final(state)@.currently_syncing == old(state)@.currently_syncing,
{
    let ghost before = store@;
    let target = if is_category_label(viewed_label) {
        viewed_label.to_owned()
    } else {
        "INBOX".to_owned()
    };
    let messages = store.get_messages_by_thread(thread_id);
    let ids = message_ids(&messages);
    let ghost all = ids.deep_view();
    let mut unlinked: Vec<String> = Vec::new();
    let mut i: usize = 0;
    while i < ids.len()
        invariant
            i <= ids.len(),
            all == ids.deep_view(),
            store@ == before,
            unlinked.deep_view() == all.take(i as int).filter(linked_under(before.links, target@)),
        decreases ids.len() - i,
    {
        let ghost kept = unlinked.deep_view();
        proof {
            lemma_take_step(all, i as int);
            all.take(i as int).lemma_filter_push(all[i as int], linked_under(before.links, target@));
        }
        if store.is_linked(ids[i].as_str(), target.as_str()) {
            unlinked.push(ids[i].clone());
            assert(unlinked.deep_view() =~= kept.push(all[i as int]));
        }
        i += 1;
    }
    proof {
        assert(all.take(i as int) =~= all);
    }
    state.mark_modified_many_at(copy_texts(&ids), now);
    store.remove_label_from_messages(&ids, target.as_str());
    let command = if spells(target.as_str(), "INBOX") {
        RemoteCommand::Archive { ids }
    } else {
        RemoteCommand::RemoveLabel { ids, label_id: target.clone() }
    };
    PendingMutation {
        action: UndoableAction::Archive { messages, label_id: target, original_index: index },
        command,
        unlinked,
    }
}

/// The remote service has confirmed the pending change: its action goes
/// into the ledger.
pub fn confirm(pending: PendingMutation, ledger: &mut UndoLedger)
    ensures
        final(ledger)@ == old(ledger)@.push(pending.action@),
{
    ledger.push(pending.action);
}

/// The remote service has failed on the pending change: the local change is
/// taken back and the guard is withdrawn from the messages. The ledger is
/// not touched.
pub fn rollback(pending: PendingMutation, store: &mut LocalStore, state: &mut SyncState)
    ensures
        final(store)@ == rolled_back(old(store)@, pending.action@, pending.unlinked.deep_view()),
        final(store)@.wf(),
        final(state)@.recently_modified == unmarked(
            old(state)@.recently_modified,
            ids_of(pending.action@.messages()),
        ),
        final(state)@.synced_labels == old(state)@.synced_labels,
        final(state)@.currently_syncing == old(state)@.currently_syncing,
{
    match pending.action {
        UndoableAction::Delete { messages, label_id, original_index } => {
            store.upsert_messages(&messages, label_id.as_str());
            let ids = message_ids(&messages);
            state.unmark_many(&ids);
        },
        UndoableAction::Archive { messages, label_id, original_index } => {
            store.add_label_to_messages(&pending.unlinked, label_id.as_str());
            let ids = message_ids(&messages);
            state.unmark_many(&ids);
        },
    }
}

/// What undoing an action asks of the caller.
#[derive(Debug)]
pub struct UndoOutcome {
    /// The action that was undone.
    pub action: UndoableAction,
    /// The calls to make to the remote service. Their outcome is not waited
    /// for.
    pub commands: Vec<RemoteCommand>,
    /// Whether the first message of the action goes back into the list that
    /// is shown, at the action's index.
    pub reinsert: bool,
}

/// One call for each of `ids` that takes it out of the trash.
fn untrash_each(ids: &Vec<String>) -> (r: Vec<RemoteCommand>)
    ensures
        r.deep_view() == untrash_commands(ids.deep_view()),
{
    let mut out: Vec<RemoteCommand> = Vec::new();
    let mut i: usize = 0;
    while i < ids.len()
        invariant
            i <= ids.len(),
            out.len() == i,
            forall|k: int| 0 <= k < i ==> (#[trigger] out[k])@ == (CommandView::Untrash { id: ids[k]@ }),
        decreases ids.len() - i,
    {
        out.push(RemoteCommand::Untrash { id: ids[i].clone() });
        i += 1;
    }
    proof {
        let want = untrash_commands(ids.deep_view());
        assert forall|k: int| 0 <= k < out.len() implies out.deep_view()[k] == want[k] by {
            assert(out[k]@ == (CommandView::Untrash { id: ids[k]@ }));
        }
        assert(out.deep_view() =~= want);
    }
    out
}

/// Takes the newest action out of the ledger and undoes it in the store,
/// while the label `viewed_label` is shown. Gives `None`, and changes
/// nothing, if the ledger is empty.
pub fn pop_and_undo(ledger: &mut UndoLedger, store: &mut LocalStore, viewed_label: &str) -> (r:
    Option<UndoOutcome>)
    ensures
        old(ledger)@.len() == 0 ==> r is None && final(ledger)@ == old(ledger)@ && final(store)@
            == old(store)@,
        old(ledger)@.len() > 0 ==> r is Some && r->0.action@ == old(ledger)@.last()
            && final(ledger)@ == old(ledger)@.drop_last()
            && final(store)@ == undone(old(store)@, old(ledger)@.last())
            && r->0.commands.deep_view() == undo_commands(old(ledger)@.last())
            && r->0.reinsert == undo_reinserts(old(ledger)@.last(), viewed_label@),
{
    match ledger.pop() {
        None => None,
        Some(action) => {
            let (commands, reinsert) = match &action {
                UndoableAction::Delete { messages, label_id, original_index } => {
                    store.upsert_messages(messages, label_id.as_str());
                    let ids = message_ids(messages);
                    (untrash_each(&ids), true)
                },
                UndoableAction::Archive { messages, label_id, original_index } => {
                    store.upsert_messages(messages, label_id.as_str());
                    let ids = message_ids(messages);
                    let command = if spells(label_id.as_str(), "INBOX") {
                        RemoteCommand::Unarchive { ids }
                    } else {
                        RemoteCommand::AddLabel { ids, label_id: label_id.clone() }
                    };
                    let ghost c = command@;
                    let mut commands: Vec<RemoteCommand> = Vec::new();
                    commands.push(command);
                    assert(commands.deep_view() =~= seq![c]);
                    (commands, spells(label_id.as_str(), viewed_label))
                },
            };
            Some(UndoOutcome { action, commands, reinsert })
        },
    }
}

} // verus!
