use gtui::config::{matches_key, parse_key, Config, Key};
use gtui::texts::spells;
use gtui::ui::{ComposeField, FocusedPanel, UIMode, UIState};
use gtui::models::Message;

fn note(id: &str) -> Message {
    Message {
        id: id.to_string(),
        thread_id: format!("t-{}", id),
        snippet: None,
        from_address: None,
        to_address: None,
        subject: None,
        internal_date: 0,
        body_plain: None,
        body_html: None,
        is_read: false,
    }
}

fn shown(state: &UIState) -> Vec<String> {
    state.messages.iter().map(|m| m.id.clone()).collect()
}

#[test]
fn named_keys_are_parsed() {
    assert_eq!(parse_key("Backspace"), Key::Backspace);
    assert_eq!(parse_key("Enter"), Key::Enter);
    assert_eq!(parse_key("Left"), Key::Left);
    assert_eq!(parse_key("Right"), Key::Right);
    assert_eq!(parse_key("Up"), Key::Up);
    assert_eq!(parse_key("Down"), Key::Down);
    assert_eq!(parse_key("Tab"), Key::Tab);
    assert_eq!(parse_key("BackTab"), Key::BackTab);
    assert_eq!(parse_key("Esc"), Key::Esc);
}

#[test]
fn single_ascii_characters_are_parsed() {
    assert_eq!(parse_key("q"), Key::Char('q'));
    assert_eq!(parse_key(" "), Key::Char(' '));
    assert_eq!(parse_key("Q"), Key::Char('Q'));
    assert_eq!(parse_key("\u{7f}"), Key::Char('\u{7f}'));
}

#[test]
fn other_names_are_no_key() {
    assert_eq!(parse_key(""), Key::Null);
    assert_eq!(parse_key("enter"), Key::Null);
    assert_eq!(parse_key("qq"), Key::Null);
    assert_eq!(parse_key("\u{e9}"), Key::Null);
    assert_eq!(parse_key("\u{80}"), Key::Null);
}

#[test]
fn key_matches_any_of_its_bindings() {
    let config = Config::default();
    assert!(matches_key(Key::Char('l'), &config.keybindings.next_panel));
    assert!(matches_key(Key::Right, &config.keybindings.next_panel));
    assert!(matches_key(Key::Tab, &config.keybindings.next_panel));
    assert!(!matches_key(Key::Left, &config.keybindings.next_panel));
    assert!(matches_key(Key::Char(' '), &config.keybindings.mark_read));
    assert!(!matches_key(Key::Char('q'), &[]));
    assert!(matches_key(Key::Null, &["nonsense".to_string()]));
}

#[test]
fn default_bindings() {
    let keys = Config::default().keybindings;
    assert_eq!(keys.next_panel, vec!["l", "Right", "Tab"]);
    assert_eq!(keys.prev_panel, vec!["h", "Left", "BackTab"]);
    assert_eq!(keys.move_up, vec!["k", "Up"]);
    assert_eq!(keys.move_down, vec!["j", "Down"]);
    assert_eq!(keys.mark_read, vec![" "]);
    assert_eq!(keys.new_message, vec!["n"]);
    assert_eq!(keys.reply, vec!["r"]);
    assert_eq!(keys.delete, vec!["Backspace", "d"]);
    assert_eq!(keys.archive, vec!["a"]);
    assert_eq!(keys.quit, vec!["q"]);
}

#[test]
fn spelling_is_compared_exactly() {
    assert!(spells("INBOX", "INBOX"));
    assert!(!spells("INBOX", "inbox"));
    assert!(!spells("INBOX", "INBOX "));
    assert!(spells("", ""));
}

#[test]
fn focus_moves_between_the_panels() {
    assert_eq!(FocusedPanel::Labels.next(), FocusedPanel::Messages);
    assert_eq!(FocusedPanel::Messages.next(), FocusedPanel::Details);
    assert_eq!(FocusedPanel::Details.next(), FocusedPanel::Details);
    assert_eq!(FocusedPanel::Details.prev(), FocusedPanel::Messages);
    assert_eq!(FocusedPanel::Messages.prev(), FocusedPanel::Labels);
    assert_eq!(FocusedPanel::Labels.prev(), FocusedPanel::Labels);
    assert_eq!(FocusedPanel::default(), FocusedPanel::Labels);
}

#[test]
fn focus_cycles_through_the_compose_fields() {
    assert_eq!(ComposeField::To.next(), ComposeField::Subject);
    assert_eq!(ComposeField::Subject.next(), ComposeField::Body);
    assert_eq!(ComposeField::Body.next(), ComposeField::To);
    assert_eq!(ComposeField::To.prev(), ComposeField::Body);
    assert_eq!(ComposeField::Subject.prev(), ComposeField::To);
    assert_eq!(ComposeField::Body.prev(), ComposeField::Subject);
    assert_eq!(ComposeField::default(), ComposeField::To);
}

#[test]
fn interface_starts_empty_with_the_focus_on_the_messages() {
    let state = UIState::default();
    assert!(state.labels.is_empty());
    assert!(state.messages.is_empty());
    assert!(state.threaded_messages.is_empty());
    assert_eq!(state.selected_label_index, 0);
    assert_eq!(state.selected_message_index, 0);
    assert_eq!(state.detail_scroll, 0);
    assert_eq!(state.focused_panel, FocusedPanel::Messages);
    assert_eq!(state.mode, UIMode::Browsing);
    assert!(state.compose_state.is_none());
}

#[test]
fn selection_stays_on_a_row_when_the_list_is_replaced() {
    let mut state = UIState::new();
    state.replace_messages(vec![note("a"), note("b"), note("c")]);
    state.selected_message_index = 2;
    state.replace_messages(vec![note("a"), note("b"), note("c"), note("d")]);
    assert_eq!(state.selected_message_index, 2);
    state.replace_messages(vec![note("a"), note("b")]);
    assert_eq!(state.selected_message_index, 1);
    state.replace_messages(Vec::new());
    assert_eq!(state.selected_message_index, 0);
}

#[test]
fn removing_a_row_keeps_the_selection_on_a_row() {
    let mut state = UIState::new();
    state.replace_messages(vec![note("a"), note("b"), note("c")]);
    state.selected_message_index = 2;
    let gone = state.remove_message_at(2).expect("a row at 2");
    assert_eq!(gone.id, "c");
    assert_eq!(shown(&state), vec!["a", "b"]);
    assert_eq!(state.selected_message_index, 1);
    assert!(state.remove_message_at(5).is_none());
    assert_eq!(shown(&state), vec!["a", "b"]);
    state.remove_message_at(0);
    assert_eq!(state.selected_message_index, 0);
    state.remove_message_at(0);
    assert!(state.messages.is_empty());
    assert_eq!(state.selected_message_index, 0);
}

#[test]
fn restored_row_goes_back_where_it_stood() {
    let mut state = UIState::new();
    state.replace_messages(vec![note("a"), note("c")]);
    state.restore_message(note("b"), 1);
    assert_eq!(shown(&state), vec!["a", "b", "c"]);
    assert_eq!(state.selected_message_index, 1);
    state.restore_message(note("z"), 40);
    assert_eq!(shown(&state), vec!["a", "b", "c", "z"]);
    assert_eq!(state.selected_message_index, 3);
    state.restore_message(note("first"), 0);
    assert_eq!(shown(&state), vec!["first", "a", "b", "c", "z"]);
    assert_eq!(state.selected_message_index, 0);
}
