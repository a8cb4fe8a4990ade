use gtui::models::Message;
use gtui::mutation::{
    begin_archive, begin_delete, confirm, is_category_label, pop_and_undo, rollback, RemoteCommand,
};
use gtui::reconcile::{page_entries, sync_label};
use gtui::store::{message_ids, LocalStore};
use gtui::sync::SyncState;
use gtui::undo::{UndoLedger, UndoableAction};

fn letter(id: &str, thread: &str, date: i64) -> Message {
    Message {
        id: id.to_string(),
        thread_id: thread.to_string(),
        snippet: Some(format!("snippet {}", id)),
        from_address: Some("alice@example.com".to_string()),
        to_address: Some("me@example.com".to_string()),
        subject: Some("hello".to_string()),
        internal_date: date,
        body_plain: Some(format!("body {}", id)),
        body_html: None,
        is_read: true,
    }
}

fn names(list: &[&str]) -> Vec<String> {
    list.iter().map(|s| s.to_string()).collect()
}

fn thread_t_in(label: &str) -> LocalStore {
    let mut store = LocalStore::new();
    store.upsert_messages(&vec![letter("A", "T", 100), letter("B", "T", 200)], label);
    store.upsert_messages(&vec![letter("X", "other", 300)], label);
    store
}

fn same_row(a: &Message, b: &Message) -> bool {
    a.id == b.id
        && a.thread_id == b.thread_id
        && a.snippet == b.snippet
        && a.from_address == b.from_address
        && a.to_address == b.to_address
        && a.subject == b.subject
        && a.internal_date == b.internal_date
        && a.body_plain == b.body_plain
        && a.body_html == b.body_html
        && a.is_read == b.is_read
}

#[test]
fn description_names_the_action() {
    let delete = UndoableAction::Delete {
        messages: Vec::new(),
        label_id: "INBOX".to_string(),
        original_index: 0,
    };
    let archive = UndoableAction::Archive {
        messages: Vec::new(),
        label_id: "INBOX".to_string(),
        original_index: 0,
    };
    assert_eq!(delete.description(), "delete");
    assert_eq!(archive.description(), "archive");
}

#[test]
fn ledger_is_last_in_first_out() {
    let mut ledger = UndoLedger::new();
    assert!(ledger.is_empty());
    assert!(ledger.pop().is_none());
    ledger.push(UndoableAction::Delete {
        messages: vec![letter("A", "T", 1)],
        label_id: "INBOX".to_string(),
        original_index: 3,
    });
    ledger.push(UndoableAction::Archive {
        messages: Vec::new(),
        label_id: "WORK".to_string(),
        original_index: 7,
    });
    assert_eq!(ledger.len(), 2);
    match ledger.pop() {
        Some(UndoableAction::Archive { label_id, original_index, .. }) => {
            assert_eq!(label_id, "WORK");
            assert_eq!(original_index, 7);
        }
        _ => panic!("the newest action is the archiving"),
    }
    match ledger.pop() {
        Some(UndoableAction::Delete { messages, label_id, original_index }) => {
            assert_eq!(messages.len(), 1);
            assert_eq!(label_id, "INBOX");
            assert_eq!(original_index, 3);
        }
        _ => panic!("the older action is the deletion"),
    }
    assert!(ledger.pop().is_none());
    assert!(UndoLedger::default().is_empty());
}

#[test]
fn category_labels_begin_with_their_prefix() {
    assert!(is_category_label("CATEGORY_SOCIAL"));
    assert!(is_category_label("CATEGORY_"));
    assert!(!is_category_label("CATEGORY"));
    assert!(!is_category_label("INBOX"));
    assert!(!is_category_label("MY_CATEGORY_X"));
    assert!(!is_category_label("category_social"));
    assert!(!is_category_label(""));
}

#[test]
fn delete_removes_the_whole_thread_and_guards_it() {
    let mut store = thread_t_in("INBOX");
    let mut state = SyncState::new();
    let pending = begin_delete(&mut store, &mut state, 1_000, "T", "INBOX", 4);
    assert!(!store.message_exists("A"));
    assert!(!store.message_exists("B"));
    assert!(store.message_exists("X"));
    assert!(state.is_recently_modified_at("A", 1_000));
    assert!(state.is_recently_modified_at("B", 1_000));
    assert!(!state.is_recently_modified_at("X", 1_000));
    match &pending.command {
        RemoteCommand::Trash { ids } => assert_eq!(ids, &names(&["B", "A"])),
        other => panic!("unexpected command {:?}", other),
    }
    match &pending.action {
        UndoableAction::Delete { messages, label_id, original_index } => {
            assert_eq!(message_ids(messages), names(&["B", "A"]));
            assert_eq!(label_id, "INBOX");
            assert_eq!(*original_index, 4);
        }
        other => panic!("unexpected action {:?}", other),
    }
    assert!(pending.unlinked.is_empty());
}

#[test]
fn undo_of_delete_restores_the_captured_messages() {
    let mut store = thread_t_in("INBOX");
    let before = store.get_messages_by_thread("T");
    let mut state = SyncState::new();
    let mut ledger = UndoLedger::new();
    let pending = begin_delete(&mut store, &mut state, 1_000, "T", "INBOX", 4);
    confirm(pending, &mut ledger);
    assert_eq!(ledger.len(), 1);

    // The background synchronisation runs while the guard holds. The remote
    // service has not caught up and still lists the thread.
    let page = page_entries(&store, &names(&["A", "B", "X"]));
    let stale = vec![letter("A", "T", 100), letter("B", "T", 200)];
    sync_label(&mut store, &mut state, 60_000, "INBOX", &page, false, &stale);
    assert!(!store.message_exists("A"));

    let outcome = pop_and_undo(&mut ledger, &mut store, "INBOX").expect("an action to undo");
    assert!(ledger.is_empty());
    assert!(outcome.reinsert);
    assert_eq!(outcome.action.description(), "delete");
    let after = store.get_messages_by_thread("T");
    assert_eq!(after.len(), before.len());
    for (a, b) in after.iter().zip(before.iter()) {
        assert!(same_row(a, b));
    }
    assert!(store.is_linked("A", "INBOX"));
    assert!(store.is_linked("B", "INBOX"));
    let untrashed: Vec<String> = outcome
        .commands
        .iter()
        .map(|c| match c {
            RemoteCommand::Untrash { id } => id.clone(),
            other => panic!("unexpected command {:?}", other),
        })
        .collect();
    assert_eq!(untrashed, names(&["B", "A"]));
}

#[test]
fn undo_of_delete_reinserts_whatever_label_is_shown() {
    let mut store = thread_t_in("INBOX");
    let mut state = SyncState::new();
    let mut ledger = UndoLedger::new();
    let pending = begin_delete(&mut store, &mut state, 0, "T", "INBOX", 0);
    confirm(pending, &mut ledger);
    let outcome = pop_and_undo(&mut ledger, &mut store, "SENT").expect("an action to undo");
    assert!(outcome.reinsert);
}

#[test]
fn archive_from_the_inbox_takes_the_inbox_label() {
    let mut store = thread_t_in("INBOX");
    let mut state = SyncState::new();
    let pending = begin_archive(&mut store, &mut state, 0, "T", "INBOX", 2);
    assert!(store.message_exists("A"));
    assert!(!store.is_linked("A", "INBOX"));
    assert!(!store.is_linked("B", "INBOX"));
    assert!(store.is_linked("X", "INBOX"));
    assert!(state.is_recently_modified_at("A", 0));
    assert!(state.is_recently_modified_at("B", 0));
    match &pending.command {
        RemoteCommand::Archive { ids } => assert_eq!(ids, &names(&["B", "A"])),
        other => panic!("unexpected command {:?}", other),
    }
    match &pending.action {
        UndoableAction::Archive { label_id, original_index, .. } => {
            assert_eq!(label_id, "INBOX");
            assert_eq!(*original_index, 2);
        }
        other => panic!("unexpected action {:?}", other),
    }
    assert_eq!(pending.unlinked, names(&["B", "A"]));
}

#[test]
fn archive_from_a_category_takes_the_category_label() {
    let mut store = thread_t_in("CATEGORY_SOCIAL");
    store.add_label_to_message("A", "INBOX");
    let mut state = SyncState::new();
    let pending = begin_archive(&mut store, &mut state, 0, "T", "CATEGORY_SOCIAL", 0);
    assert!(!store.is_linked("A", "CATEGORY_SOCIAL"));
    assert!(!store.is_linked("B", "CATEGORY_SOCIAL"));
    assert!(store.is_linked("A", "INBOX"));
    match &pending.command {
        RemoteCommand::RemoveLabel { ids, label_id } => {
            assert_eq!(ids, &names(&["B", "A"]));
            assert_eq!(label_id, "CATEGORY_SOCIAL");
        }
        other => panic!("unexpected command {:?}", other),
    }
}

#[test]
fn archive_from_any_other_label_takes_the_inbox_label() {
    let mut store = thread_t_in("WORK");
    store.add_label_to_message("A", "INBOX");
    let mut state = SyncState::new();
    let pending = begin_archive(&mut store, &mut state, 0, "T", "WORK", 0);
    assert!(store.is_linked("A", "WORK"));
    assert!(!store.is_linked("A", "INBOX"));
    assert_eq!(pending.unlinked, names(&["A"]));
    match &pending.command {
        RemoteCommand::Archive { .. } => {}
        other => panic!("unexpected command {:?}", other),
    }
}

#[test]
fn failed_archive_is_rolled_back() {
    let mut store = thread_t_in("INBOX");
    let mut state = SyncState::new();
    let ledger = UndoLedger::new();
    let pending = begin_archive(&mut store, &mut state, 0, "T", "INBOX", 0);
    assert_eq!(pending.action.description(), "archive");
    // The remote call fails.
    rollback(pending, &mut store, &mut state);
    assert!(store.is_linked("A", "INBOX"));
    assert!(store.is_linked("B", "INBOX"));
    assert!(!state.is_recently_modified_at("A", 0));
    assert!(!state.is_recently_modified_at("B", 0));
    assert!(ledger.is_empty());
}

#[test]
fn rollback_of_archive_returns_only_what_was_taken() {
    let mut store = thread_t_in("WORK");
    store.add_label_to_message("A", "INBOX");
    let mut state = SyncState::new();
    let pending = begin_archive(&mut store, &mut state, 0, "T", "WORK", 0);
    rollback(pending, &mut store, &mut state);
    assert!(store.is_linked("A", "INBOX"));
    assert!(!store.is_linked("B", "INBOX"));
}

#[test]
fn failed_delete_is_rolled_back() {
    let mut store = thread_t_in("INBOX");
    let before = store.get_messages_by_thread("T");
    let mut state = SyncState::new();
    let pending = begin_delete(&mut store, &mut state, 0, "T", "INBOX", 0);
    rollback(pending, &mut store, &mut state);
    let after = store.get_messages_by_thread("T");
    assert_eq!(after.len(), 2);
    for (a, b) in after.iter().zip(before.iter()) {
        assert!(same_row(a, b));
    }
    assert!(store.is_linked("A", "INBOX"));
    assert!(store.is_linked("B", "INBOX"));
    assert!(!state.is_recently_modified_at("A", 0));
}

#[test]
fn archive_then_undo_restores_the_labels() {
    let mut store = thread_t_in("INBOX");
    let mut state = SyncState::new();
    let mut ledger = UndoLedger::new();
    let pending = begin_archive(&mut store, &mut state, 0, "T", "INBOX", 1);
    confirm(pending, &mut ledger);
    let outcome = pop_and_undo(&mut ledger, &mut store, "INBOX").expect("an action to undo");
    assert!(store.is_linked("A", "INBOX"));
    assert!(store.is_linked("B", "INBOX"));
    assert!(store.is_linked("X", "INBOX"));
    assert!(outcome.reinsert);
    assert_eq!(outcome.commands.len(), 1);
    match &outcome.commands[0] {
        RemoteCommand::Unarchive { ids } => assert_eq!(ids, &names(&["B", "A"])),
        other => panic!("unexpected command {:?}", other),
    }
}

#[test]
fn undo_of_category_archive_gives_the_label_back() {
    let mut store = thread_t_in("CATEGORY_UPDATES");
    let mut state = SyncState::new();
    let mut ledger = UndoLedger::new();
    let pending = begin_archive(&mut store, &mut state, 0, "T", "CATEGORY_UPDATES", 1);
    confirm(pending, &mut ledger);
    let outcome = pop_and_undo(&mut ledger, &mut store, "INBOX").expect("an action to undo");
    assert!(store.is_linked("A", "CATEGORY_UPDATES"));
    // Another label is shown by now, so nothing goes back into the list.
    assert!(!outcome.reinsert);
    match &outcome.commands[0] {
        RemoteCommand::AddLabel { ids, label_id } => {
            assert_eq!(ids, &names(&["B", "A"]));
            assert_eq!(label_id, "CATEGORY_UPDATES");
        }
        other => panic!("unexpected command {:?}", other),
    }
}

#[test]
fn archive_undo_archive_equals_one_archive() {
    let mut once = thread_t_in("INBOX");
    let mut state = SyncState::new();
    begin_archive(&mut once, &mut state, 0, "T", "INBOX", 0);

    let mut round = thread_t_in("INBOX");
    let mut ledger = UndoLedger::new();
    let pending = begin_archive(&mut round, &mut state, 0, "T", "INBOX", 0);
    confirm(pending, &mut ledger);
    pop_and_undo(&mut ledger, &mut round, "INBOX");
    begin_archive(&mut round, &mut state, 0, "T", "INBOX", 0);

    for id in ["A", "B", "X"] {
        for label in ["INBOX", "SENT"] {
            assert_eq!(once.is_linked(id, label), round.is_linked(id, label));
        }
    }
}

#[test]
fn archive_round_trip_of_an_unlabelled_thread_changes_no_label() {
    let mut store = thread_t_in("WORK");
    let mut state = SyncState::new();
    let mut ledger = UndoLedger::new();
    let pending = begin_archive(&mut store, &mut state, 0, "T", "WORK", 0);
    confirm(pending, &mut ledger);
    pop_and_undo(&mut ledger, &mut store, "WORK");
    assert!(store.is_linked("A", "INBOX"));
    begin_archive(&mut store, &mut state, 0, "T", "WORK", 0);
    for id in ["A", "B"] {
        assert!(!store.is_linked(id, "INBOX"));
        assert!(store.is_linked(id, "WORK"));
    }
}

#[test]
fn undo_with_an_empty_ledger_changes_nothing() {
    let mut store = thread_t_in("INBOX");
    let mut ledger = UndoLedger::new();
    assert!(pop_and_undo(&mut ledger, &mut store, "INBOX").is_none());
    assert!(store.is_linked("A", "INBOX"));
    assert!(ledger.is_empty());
}

#[test]
fn undo_takes_the_newest_action_only() {
    let mut store = thread_t_in("INBOX");
    let mut state = SyncState::new();
    let mut ledger = UndoLedger::new();
    let first = begin_archive(&mut store, &mut state, 0, "T", "INBOX", 0);
    confirm(first, &mut ledger);
    let second = begin_delete(&mut store, &mut state, 0, "other", "INBOX", 0);
    confirm(second, &mut ledger);
    let outcome = pop_and_undo(&mut ledger, &mut store, "INBOX").expect("an action to undo");
    assert_eq!(outcome.action.description(), "delete");
    assert!(store.message_exists("X"));
    assert!(!store.is_linked("A", "INBOX"));
    assert_eq!(ledger.len(), 1);
}

#[test]
fn mutation_of_an_unknown_thread_touches_nothing() {
    let mut store = thread_t_in("INBOX");
    let mut state = SyncState::new();
    let pending = begin_delete(&mut store, &mut state, 0, "nope", "INBOX", 0);
    match &pending.command {
        RemoteCommand::Trash { ids } => assert!(ids.is_empty()),
        other => panic!("unexpected command {:?}", other),
    }
    assert!(store.message_exists("A"));
    assert!(store.message_exists("X"));
}
