use gtui::models::{Label, Message};
use gtui::priority::{PriorityQueue, RefreshSignal};
use gtui::reconcile::{
    accepted_messages, notify, page_entries, page_watermark, plan_cycle, plan_page,
    removal_candidates, start_label, sync_label, PageEntry, PAGE_SIZE, REMOVAL_WINDOW,
    SYNC_INTERVAL_SECS,
};
use gtui::store::LocalStore;
use gtui::sync::SyncState;

fn mail(id: &str, thread: &str, date: i64) -> Message {
    Message {
        id: id.to_string(),
        thread_id: thread.to_string(),
        snippet: None,
        from_address: None,
        to_address: None,
        subject: Some(format!("subject of {}", id)),
        internal_date: date,
        body_plain: None,
        body_html: None,
        is_read: false,
    }
}

fn texts(names: &[&str]) -> Vec<String> {
    names.iter().map(|s| s.to_string()).collect()
}

fn inbox_with_a_and_b() -> LocalStore {
    let mut store = LocalStore::new();
    store.upsert_messages(&vec![mail("A", "ta", 100), mail("B", "tb", 200)], "INBOX");
    store
}

#[test]
fn constants_of_the_cycle() {
    assert_eq!(PAGE_SIZE, 100);
    assert_eq!(REMOVAL_WINDOW, 200);
    assert_eq!(SYNC_INTERVAL_SECS, 30);
}

#[test]
fn complete_page_removes_what_it_does_not_name() {
    let mut store = inbox_with_a_and_b();
    let mut state = SyncState::new();
    state.begin_label("INBOX");
    let page = page_entries(&store, &texts(&["B"]));
    let plan = plan_page(&state, 0, &page);
    assert_eq!(plan.seen, texts(&["B"]));
    assert!(plan.to_fetch.is_empty());
    assert_eq!(plan.oldest_known, 200);
    let outcome = sync_label(&mut store, &mut state, 0, "INBOX", &page, false, &Vec::new());
    assert_eq!(outcome.removed, texts(&["A"]));
    assert!(outcome.upserted.is_empty());
    assert!(outcome.changed);
    assert!(!store.is_linked("A", "INBOX"));
    assert!(store.message_exists("A"));
    assert!(store.is_linked("B", "INBOX"));
    assert!(state.is_label_synced("INBOX"));
    assert_eq!(state.syncing_label(), None);
}

#[test]
fn complete_page_stores_the_new_message_and_removes_the_missing_one() {
    let mut store = LocalStore::new();
    store.upsert_messages(&vec![mail("A", "ta", 100)], "INBOX");
    let mut state = SyncState::new();
    let page = page_entries(&store, &texts(&["B"]));
    let plan = plan_page(&state, 0, &page);
    assert_eq!(plan.seen, texts(&["B"]));
    assert_eq!(plan.to_fetch, texts(&["B"]));
    assert_eq!(plan.oldest_known, i64::MAX);
    let fetched = vec![mail("B", "tb", 200)];
    let outcome = sync_label(&mut store, &mut state, 0, "INBOX", &page, false, &fetched);
    assert_eq!(outcome.upserted, texts(&["B"]));
    assert_eq!(outcome.removed, texts(&["A"]));
    assert!(outcome.changed);
    assert!(!store.is_linked("A", "INBOX"));
    assert!(store.message_exists("B"));
    assert_eq!(store.get_message_date("B"), Some(200));
    assert!(store.is_linked("B", "INBOX"));
}

#[test]
fn truncated_page_removes_nothing() {
    let mut store = inbox_with_a_and_b();
    let mut state = SyncState::new();
    let page = page_entries(&store, &texts(&["B"]));
    let outcome = sync_label(&mut store, &mut state, 0, "INBOX", &page, true, &Vec::new());
    assert!(outcome.removed.is_empty());
    assert!(outcome.upserted.is_empty());
    assert!(!outcome.changed);
    assert!(store.is_linked("A", "INBOX"));
    assert!(store.is_linked("B", "INBOX"));
    assert!(state.is_label_synced("INBOX"));
}

#[test]
fn truncated_page_still_stores_new_messages() {
    let mut store = inbox_with_a_and_b();
    let mut state = SyncState::new();
    let page = page_entries(&store, &texts(&["C"]));
    let fetched = vec![mail("C", "tc", 300)];
    let outcome = sync_label(&mut store, &mut state, 0, "INBOX", &page, true, &fetched);
    assert_eq!(outcome.upserted, texts(&["C"]));
    assert!(outcome.removed.is_empty());
    assert!(outcome.changed);
    assert!(store.is_linked("A", "INBOX"));
    assert!(store.is_linked("B", "INBOX"));
    assert!(store.is_linked("C", "INBOX"));
}

#[test]
fn empty_page_removes_nothing() {
    let mut store = inbox_with_a_and_b();
    let mut state = SyncState::new();
    let outcome = sync_label(&mut store, &mut state, 0, "INBOX", &Vec::new(), false, &Vec::new());
    assert!(outcome.removed.is_empty());
    assert!(!outcome.changed);
    assert!(store.is_linked("A", "INBOX"));
    assert!(store.is_linked("B", "INBOX"));
}

#[test]
fn guarded_message_keeps_its_label_on_a_complete_page() {
    let mut store = inbox_with_a_and_b();
    let mut state = SyncState::new();
    state.mark_modified_many_at(texts(&["A"]), 1_000);
    let page = page_entries(&store, &texts(&["B"]));
    let outcome = sync_label(&mut store, &mut state, 2_000, "INBOX", &page, false, &Vec::new());
    assert!(outcome.removed.is_empty());
    assert!(store.is_linked("A", "INBOX"));
    // Once the grace period is over the same page takes the label away.
    let page = page_entries(&store, &texts(&["B"]));
    let outcome = sync_label(&mut store, &mut state, 301_000, "INBOX", &page, false, &Vec::new());
    assert_eq!(outcome.removed, texts(&["A"]));
    assert!(!store.is_linked("A", "INBOX"));
}

#[test]
fn guarded_message_is_neither_seen_nor_stored() {
    let mut store = LocalStore::new();
    let mut state = SyncState::new();
    state.mark_modified_many_at(texts(&["G"]), 0);
    let page = page_entries(&store, &texts(&["G", "N"]));
    let plan = plan_page(&state, 10, &page);
    assert_eq!(plan.seen, texts(&["N"]));
    assert_eq!(plan.to_fetch, texts(&["N"]));
    // Even if the guarded message is handed in as fetched, it is not stored.
    let fetched = vec![mail("G", "tg", 50), mail("N", "tn", 60)];
    assert_eq!(
        accepted_messages(&state, 10, &fetched).iter().map(|m| m.id.clone()).collect::<Vec<_>>(),
        texts(&["N"])
    );
    let outcome = sync_label(&mut store, &mut state, 10, "INBOX", &page, false, &fetched);
    assert_eq!(outcome.upserted, texts(&["N"]));
    assert!(!store.message_exists("G"));
    assert!(!store.is_linked("G", "INBOX"));
    assert!(store.is_linked("N", "INBOX"));
}

#[test]
fn deleted_thread_stays_deleted_while_guarded() {
    let mut store = inbox_with_a_and_b();
    let mut state = SyncState::new();
    state.mark_modified_many_at(texts(&["A"]), 0);
    store.delete_message("A");
    // The remote service still lists A, and the caller even fetched it.
    let page = page_entries(&store, &texts(&["A", "B"]));
    let fetched = vec![mail("A", "ta", 100)];
    let outcome = sync_label(&mut store, &mut state, 5_000, "INBOX", &page, false, &fetched);
    assert!(!outcome.changed);
    assert!(!store.message_exists("A"));
    assert!(!store.is_linked("A", "INBOX"));
}

#[test]
fn plan_tracks_the_oldest_known_date() {
    let mut store = LocalStore::new();
    store.upsert_messages(
        &vec![mail("a", "t", 500), mail("b", "t", 300), mail("c", "t", 400), mail("g", "t", 1)],
        "INBOX",
    );
    let mut state = SyncState::new();
    state.mark_modified_many_at(texts(&["g"]), 0);
    let page = page_entries(&store, &texts(&["a", "new", "b", "g", "c"]));
    assert_eq!(page.len(), 5);
    assert_eq!(page[0].local_date, Some(500));
    assert_eq!(page[1].local_date, None);
    assert_eq!(page[3].local_date, Some(1));
    let plan = plan_page(&state, 0, &page);
    assert_eq!(plan.seen, texts(&["a", "new", "b", "c"]));
    assert_eq!(plan.to_fetch, texts(&["new"]));
    assert_eq!(plan.oldest_known, 300);
}

#[test]
fn plan_of_plain_entries_needs_no_store() {
    let state = SyncState::new();
    let page = vec![
        PageEntry { id: "x".to_string(), local_date: Some(-5) },
        PageEntry { id: "y".to_string(), local_date: None },
    ];
    let plan = plan_page(&state, 0, &page);
    assert_eq!(plan.seen, texts(&["x", "y"]));
    assert_eq!(plan.to_fetch, texts(&["y"]));
    assert_eq!(plan.oldest_known, -5);
}

#[test]
fn watermark_of_a_complete_page_is_zero() {
    assert_eq!(page_watermark(false, 300, &vec![mail("n", "t", 200)]), 0);
    assert_eq!(page_watermark(false, i64::MAX, &Vec::new()), 0);
}

#[test]
fn watermark_of_a_truncated_page_is_the_oldest_date_named() {
    assert_eq!(page_watermark(true, 300, &vec![mail("n", "t", 200), mail("m", "t", 250)]), 200);
    assert_eq!(page_watermark(true, 100, &vec![mail("n", "t", 200)]), 100);
    assert_eq!(page_watermark(true, i64::MAX, &Vec::new()), i64::MAX);
}

#[test]
fn removal_needs_all_three_conditions() {
    let mut state = SyncState::new();
    state.mark_modified_many_at(texts(&["guarded"]), 0);
    let local = vec![
        ("seen".to_string(), 500),
        ("guarded".to_string(), 500),
        ("old".to_string(), 99),
        ("gone".to_string(), 100),
        ("gone-too".to_string(), 400),
    ];
    let removed = removal_candidates(&local, &texts(&["seen"]), &state, 10, 100);
    assert_eq!(removed, texts(&["gone", "gone-too"]));
}

#[test]
fn removal_looks_at_the_newest_window_only() {
    let mut store = LocalStore::new();
    let mut rows = Vec::new();
    for i in 0..(REMOVAL_WINDOW as i64 + 5) {
        rows.push(mail(&format!("m{}", i), &format!("t{}", i), 1_000 + i));
    }
    store.upsert_messages(&rows, "INBOX");
    store.upsert_messages(&vec![mail("keep", "tk", 5_000)], "INBOX");
    let mut state = SyncState::new();
    let page = page_entries(&store, &texts(&["keep"]));
    let outcome = sync_label(&mut store, &mut state, 0, "INBOX", &page, false, &Vec::new());
    assert_eq!(outcome.removed.len(), REMOVAL_WINDOW - 1);
    // The five oldest messages lie outside the window and keep the label.
    for i in 0..6 {
        assert!(store.is_linked(&format!("m{}", i), "INBOX"));
    }
    assert!(!store.is_linked("m6", "INBOX"));
    assert!(!store.is_linked(&format!("m{}", REMOVAL_WINDOW + 4), "INBOX"));
    assert!(store.is_linked("keep", "INBOX"));
}

#[test]
fn message_with_negative_date_keeps_its_label() {
    let mut store = LocalStore::new();
    store.upsert_messages(&vec![mail("neg", "t1", -1), mail("B", "t2", 200)], "INBOX");
    let mut state = SyncState::new();
    let page = page_entries(&store, &texts(&["B"]));
    let outcome = sync_label(&mut store, &mut state, 0, "INBOX", &page, false, &Vec::new());
    assert!(outcome.removed.is_empty());
    assert!(store.is_linked("neg", "INBOX"));
}

#[test]
fn sync_of_one_label_leaves_other_labels_alone() {
    let mut store = inbox_with_a_and_b();
    store.upsert_messages(&vec![mail("S", "ts", 300)], "SENT");
    store.add_label_to_message("A", "SENT");
    let mut state = SyncState::new();
    let page = page_entries(&store, &texts(&["B"]));
    sync_label(&mut store, &mut state, 0, "INBOX", &page, false, &Vec::new());
    assert!(store.is_linked("S", "SENT"));
    assert!(store.is_linked("A", "SENT"));
    assert!(!store.is_linked("A", "INBOX"));
}

fn named(id: &str) -> Label {
    Label {
        id: id.to_string(),
        name: id.to_lowercase(),
        label_type: "system".to_string(),
        color_foreground: None,
        color_background: None,
        display_name: String::new(),
    }
}

#[test]
fn cycle_starts_with_the_label_the_user_looked_at_last() {
    let labels = vec![named("DRAFT"), named("SENT"), named("INBOX")];
    let mut queue = PriorityQueue::new(8);
    queue.push("SENT".to_string());
    queue.push("INBOX".to_string());
    assert_eq!(plan_cycle(&labels, &mut queue), texts(&["INBOX", "DRAFT", "SENT"]));
    assert_eq!(queue.len(), 0);
    // Nothing was pushed since: the next cycle keeps the listed order.
    assert_eq!(plan_cycle(&labels, &mut queue), texts(&["DRAFT", "SENT", "INBOX"]));
}

#[test]
fn starting_a_label_purges_the_guard() {
    let mut state = SyncState::new();
    state.mark_modified_many_at(texts(&["old"]), 0);
    state.mark_modified_many_at(texts(&["new"]), 200_000);
    start_label(&mut state, 300_000, "INBOX");
    assert_eq!(state.syncing_label(), Some("INBOX".to_string()));
    assert!(!state.is_recently_modified_at("old", 0));
    assert!(state.is_recently_modified_at("new", 300_000));
}

#[test]
fn interface_is_told_of_changes_only() {
    let mut store = inbox_with_a_and_b();
    let mut state = SyncState::new();
    let mut signal = RefreshSignal::new();
    let page = page_entries(&store, &texts(&["A", "B"]));
    let quiet = sync_label(&mut store, &mut state, 0, "INBOX", &page, false, &Vec::new());
    notify(&mut signal, &quiet);
    assert!(!signal.take());
    let page = page_entries(&store, &texts(&["B"]));
    let loud = sync_label(&mut store, &mut state, 0, "INBOX", &page, false, &Vec::new());
    notify(&mut signal, &loud);
    notify(&mut signal, &quiet);
    assert!(signal.take());
    assert!(!signal.take());
}
