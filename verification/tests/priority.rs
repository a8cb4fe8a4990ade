use gtui::priority::{processing_order, PriorityQueue, RefreshSignal};

fn ids(names: &[&str]) -> Vec<String> {
    names.iter().map(|s| s.to_string()).collect()
}

#[test]
fn last_pushed_label_wins() {
    let mut queue = PriorityQueue::new(4);
    assert!(queue.push("SENT".to_string()));
    assert!(queue.push("INBOX".to_string()));
    assert_eq!(queue.len(), 2);
    assert_eq!(queue.drain(), Some("INBOX".to_string()));
    assert_eq!(queue.len(), 0);
    assert_eq!(queue.drain(), None);
}

#[test]
fn only_the_last_label_is_prioritized_in_the_cycle() {
    let mut queue = PriorityQueue::new(4);
    queue.push("SENT".to_string());
    queue.push("INBOX".to_string());
    let priority = queue.drain();
    let order = processing_order(&ids(&["DRAFT", "SENT", "INBOX", "WORK"]), &priority);
    assert_eq!(order, ids(&["INBOX", "DRAFT", "SENT", "WORK"]));
    let next = queue.drain();
    assert_eq!(
        processing_order(&ids(&["DRAFT", "SENT", "INBOX", "WORK"]), &next),
        ids(&["DRAFT", "SENT", "INBOX", "WORK"])
    );
}

#[test]
fn full_queue_drops_what_is_pushed() {
    let mut queue = PriorityQueue::new(2);
    assert_eq!(queue.capacity(), 2);
    assert!(queue.push("A".to_string()));
    assert!(queue.push("B".to_string()));
    assert!(!queue.push("C".to_string()));
    assert_eq!(queue.len(), 2);
    assert_eq!(queue.drain(), Some("B".to_string()));
    assert!(queue.push("C".to_string()));
    assert_eq!(queue.drain(), Some("C".to_string()));
}

#[test]
fn queue_without_room_takes_nothing() {
    let mut queue = PriorityQueue::new(0);
    assert!(!queue.push("A".to_string()));
    assert_eq!(queue.drain(), None);
}

#[test]
fn order_without_priority_is_the_fetched_order() {
    let labels = ids(&["B", "A", "C"]);
    assert_eq!(processing_order(&labels, &None), labels);
}

#[test]
fn priority_for_an_unknown_label_changes_nothing() {
    let labels = ids(&["B", "A", "C"]);
    assert_eq!(processing_order(&labels, &Some("Z".to_string())), labels);
    assert_eq!(processing_order(&Vec::new(), &Some("Z".to_string())), Vec::<String>::new());
}

#[test]
fn priority_for_the_first_label_keeps_the_order() {
    let labels = ids(&["B", "A", "C"]);
    assert_eq!(processing_order(&labels, &Some("B".to_string())), labels);
    assert_eq!(processing_order(&labels, &Some("C".to_string())), ids(&["C", "B", "A"]));
}

#[test]
fn refresh_signals_coalesce() {
    let mut signal = RefreshSignal::new();
    assert!(!signal.take());
    signal.emit();
    signal.emit();
    signal.emit();
    assert!(signal.take());
    assert!(!signal.take());
    signal.emit();
    assert!(signal.take());
}
