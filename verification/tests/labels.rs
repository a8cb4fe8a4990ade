use gtui::labels::{goes_before, order_labels};
use gtui::models::Label;

fn tag(id: &str, name: &str) -> Label {
    Label {
        id: id.to_string(),
        name: name.to_string(),
        label_type: "user".to_string(),
        color_foreground: Some("#ffffff".to_string()),
        color_background: None,
        display_name: "stale".to_string(),
    }
}

fn ids(labels: &[Label]) -> Vec<String> {
    labels.iter().map(|l| l.id.clone()).collect()
}

#[test]
fn inbox_comes_first_and_the_rest_by_name() {
    let shown = order_labels(&vec![
        tag("L3", "work"),
        tag("SENT", "SENT"),
        tag("INBOX", "INBOX"),
        tag("L1", "Archive"),
        tag("DRAFT", "DRAFT"),
    ]);
    assert_eq!(ids(&shown), vec!["INBOX", "L1", "DRAFT", "SENT", "L3"]);
}

#[test]
fn inbox_comes_first_even_with_a_late_name() {
    let shown = order_labels(&vec![tag("A", "Aardvark"), tag("INBOX", "zzz")]);
    assert_eq!(ids(&shown), vec!["INBOX", "A"]);
}

#[test]
fn names_are_ordered_by_code_point() {
    let shown = order_labels(&vec![
        tag("1", "alpha"),
        tag("2", "Zeta"),
        tag("3", "alphabet"),
        tag("4", "\u{e9}t\u{e9}"),
        tag("5", ""),
    ]);
    assert_eq!(ids(&shown), vec!["5", "2", "1", "3", "4"]);
}

#[test]
fn labels_of_one_name_keep_their_order() {
    let shown = order_labels(&vec![tag("b", "same"), tag("a", "same"), tag("c", "same")]);
    assert_eq!(ids(&shown), vec!["b", "a", "c"]);
}

#[test]
fn display_name_is_the_title_case_of_the_name() {
    let shown = order_labels(&vec![
        tag("INBOX", "INBOX"),
        tag("C", "CATEGORY_SOCIAL"),
        tag("U", "myProjects"),
        tag("K", "follow-up"),
    ]);
    assert_eq!(shown[0].display_name, "Inbox");
    assert_eq!(shown[1].display_name, "Category Social");
    assert_eq!(shown[2].display_name, "Follow Up");
    assert_eq!(shown[3].display_name, "My Projects");
    assert_eq!(shown[1].name, "CATEGORY_SOCIAL");
    assert_eq!(shown[1].label_type, "user");
    assert_eq!(shown[1].color_foreground, Some("#ffffff".to_string()));
    assert_eq!(shown[1].color_background, None);
}

#[test]
fn ordering_an_empty_list_gives_an_empty_list() {
    assert!(order_labels(&Vec::new()).is_empty());
}

#[test]
fn goes_before_compares_two_labels() {
    let inbox = tag("INBOX", "zzz");
    let a = tag("a", "Alpha");
    let b = tag("b", "Beta");
    assert!(goes_before(&inbox, &a));
    assert!(!goes_before(&a, &inbox));
    assert!(goes_before(&inbox, &inbox));
    assert!(goes_before(&a, &b));
    assert!(!goes_before(&b, &a));
    assert!(goes_before(&a, &a));
}
