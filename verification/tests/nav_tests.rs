use bookshelf::nav::{handle_key, Action, Key, State, StatefulList};

fn list(names: &[&str]) -> StatefulList<String> {
    let mut l = StatefulList::new();
    l.set_items(names.iter().map(|s| s.to_string()).collect());
    l
}

#[test]
fn cursor_wraps_forward_and_backward() {
    let mut l = list(&["a", "b", "c"]);
    assert_eq!(l.selected(), None);
    l.next();
    assert_eq!(l.selected(), Some(0));
    l.next();
    l.next();
    assert_eq!(l.selected(), Some(2));
    l.next();
    assert_eq!(l.selected(), Some(0));
    l.previous();
    assert_eq!(l.selected(), Some(2));
    l.previous();
    assert_eq!(l.selected(), Some(1));
}

#[test]
fn cursor_on_empty_list_stays_off() {
    let mut l: StatefulList<String> = StatefulList::new();
    l.next();
    assert_eq!(l.selected(), None);
    l.previous();
    assert_eq!(l.selected(), None);
    l.first();
    l.last();
    assert_eq!(l.selected(), None);
}

#[test]
fn first_last_and_deselect() {
    let mut l = list(&["a", "b", "c"]);
    l.last();
    assert_eq!(l.selected(), Some(2));
    l.first();
    assert_eq!(l.selected(), Some(0));
    l.deselect();
    assert_eq!(l.selected(), None);
}

#[test]
fn shrinking_items_clamps_the_cursor() {
    let mut l = list(&["a", "b", "c"]);
    l.last();
    assert_eq!(l.selected(), Some(2));
    l.set_items(vec!["a".to_string(), "b".to_string()]);
    assert_eq!(l.selected(), Some(1));
    l.set_items(Vec::new());
    assert_eq!(l.selected(), None);
}

#[test]
fn keys_move_the_cursor() {
    let mut s = State::new();
    s.entries = list(&["a", "b"]);
    assert_eq!(handle_key(&mut s, Key::Down), Action::Idle);
    assert_eq!(s.entries.selected(), Some(0));
    assert!(s.should_redraw);
    assert_eq!(handle_key(&mut s, Key::Char('j')), Action::Idle);
    assert_eq!(s.entries.selected(), Some(1));
    assert_eq!(handle_key(&mut s, Key::Up), Action::Idle);
    assert_eq!(s.entries.selected(), Some(0));
    assert_eq!(handle_key(&mut s, Key::Char('J')), Action::Idle);
    assert_eq!(s.entries.selected(), Some(1));
    assert_eq!(handle_key(&mut s, Key::Char('K')), Action::Idle);
    assert_eq!(s.entries.selected(), Some(0));
}

#[test]
fn keys_issue_actions_for_the_selected_entry() {
    let mut s = State::new();
    s.entries = list(&["a", "b"]);
    // With no cursor there is nothing to open or remove.
    assert_eq!(handle_key(&mut s, Key::Enter), Action::Idle);
    assert_eq!(handle_key(&mut s, Key::Delete), Action::Idle);
    handle_key(&mut s, Key::Down);
    handle_key(&mut s, Key::Down);
    // Positions handed out are 1-based.
    assert_eq!(handle_key(&mut s, Key::Enter), Action::Open(2));
    assert_eq!(handle_key(&mut s, Key::Char('l')), Action::Open(2));
    assert_eq!(handle_key(&mut s, Key::Char('d')), Action::Remove(2));
}

#[test]
fn escape_ends_the_session() {
    let mut s = State::new();
    assert_eq!(handle_key(&mut s, Key::Char('q')), Action::Idle);
    assert!(s.should_exit);

    let mut s2 = State::new();
    assert_eq!(handle_key(&mut s2, Key::Esc), Action::Idle);
    assert!(s2.should_exit);
}

#[test]
fn prompt_editing() {
    let mut s = State::new();
    assert_eq!(handle_key(&mut s, Key::Char('a')), Action::Idle);
    assert!(s.editing_prompt);
    handle_key(&mut s, Key::Char('h'));
    handle_key(&mut s, Key::Char('i'));
    handle_key(&mut s, Key::Char('!'));
    handle_key(&mut s, Key::Backspace);
    assert_eq!(s.prompt, vec!['h', 'i']);
    // While editing, navigation keys are ignored.
    assert_eq!(handle_key(&mut s, Key::Up), Action::Idle);
    assert!(!s.should_redraw);
    assert_eq!(s.entries.selected(), None);
    // Return leaves the prompt and hands its command over.
    assert_eq!(handle_key(&mut s, Key::Enter), Action::Submit);
    assert!(!s.editing_prompt);
    assert_eq!(s.prompt, vec!['h', 'i']);
}

#[test]
fn unknown_keys_skip_the_redraw() {
    let mut s = State::new();
    s.should_redraw = true;
    assert_eq!(handle_key(&mut s, Key::Other), Action::Idle);
    assert!(!s.should_redraw);
    assert_eq!(handle_key(&mut s, Key::Char('x')), Action::Idle);
    assert!(!s.should_redraw);
}
