//! Tests for the terminal UI state: scrolling, following, key handling.

use ghciwatch::opts::TuiAction;
use ghciwatch::opts::TuiActionCommand;
use ghciwatch::tui::KeyMods;
use ghciwatch::tui::TuiInput;
use ghciwatch::tui::TuiState;

#[test]
fn scrolling_saturates_and_caps() {
    let mut t = TuiState::new(Vec::new());
    t.set_height(10);
    for _ in 0..20 {
        t.push_line(b"line");
    }
    assert_eq!(t.line_count, 21);

    t.scroll_to(0);
    t.scroll_up(5);
    assert_eq!(t.scroll_offset, 0);

    t.scroll_down(1000);
    // Caps at line_count - height/2.
    assert_eq!(t.scroll_offset, 16);

    t.scroll_to(0);
    assert_eq!(t.scroll_offset, 0);
    t.scroll_to(usize::MAX);
    assert_eq!(t.scroll_offset, 16);
}

#[test]
fn view_follows_output_at_the_bottom() {
    let mut t = TuiState::new(Vec::new());
    t.set_height(5);
    for _ in 0..10 {
        t.push_line(b"x");
    }
    let at_bottom = t.scroll_offset;
    t.push_line(b"fresh");
    assert_eq!(t.scroll_offset, at_bottom + 1);

    // Scrolled away from the bottom, the view stays put.
    t.scroll_to(0);
    t.push_line(b"more");
    assert_eq!(t.scroll_offset, 0);
}

#[test]
fn keys_drive_the_view() {
    let mut t = TuiState::new(Vec::new());
    t.set_height(10);
    for _ in 0..40 {
        t.push_line(b"x");
    }
    t.scroll_to(0);

    assert!(t.handle_event(TuiInput::Key(KeyMods::Plain, 'j')).is_none());
    assert_eq!(t.scroll_offset, 1);
    t.handle_event(TuiInput::Key(KeyMods::Plain, 'k'));
    assert_eq!(t.scroll_offset, 0);
    t.handle_event(TuiInput::MouseScrollDown);
    assert_eq!(t.scroll_offset, 3);
    t.handle_event(TuiInput::MouseScrollUp);
    assert_eq!(t.scroll_offset, 0);
    t.handle_event(TuiInput::Key(KeyMods::Control, 'd'));
    assert_eq!(t.scroll_offset, 5);
    t.handle_event(TuiInput::Key(KeyMods::Control, 'u'));
    assert_eq!(t.scroll_offset, 0);
    t.handle_event(TuiInput::Key(KeyMods::Shift, 'G'));
    assert_eq!(t.scroll_offset, 41 - 5);
    t.handle_event(TuiInput::Key(KeyMods::Plain, 'g'));
    assert_eq!(t.scroll_offset, 0);

    assert!(!t.quit);
    t.handle_event(TuiInput::Key(KeyMods::Control, 'c'));
    assert!(t.quit);

    assert!(t.show_actions);
    t.handle_event(TuiInput::Key(KeyMods::Plain, 'a'));
    assert!(!t.show_actions);

    t.handle_event(TuiInput::Key(KeyMods::Shift, '~'));
    assert!(t.debug);
    t.handle_event(TuiInput::Key(KeyMods::Plain, '`'));
    assert!(!t.debug);
}

#[test]
fn number_keys_trigger_actions() {
    let actions = vec![
        TuiAction::from_str("One:echo one").unwrap(),
        TuiAction::from_str("Two:@internal-two").unwrap(),
    ];
    let mut t = TuiState::new(actions);
    let r = t.handle_event(TuiInput::Key(KeyMods::Plain, '1'));
    assert!(matches!(r, Some(TuiActionCommand::Shell(ref c)) if c == "echo one"));
    let r = t.handle_event(TuiInput::Key(KeyMods::Plain, '2'));
    assert!(matches!(r, Some(TuiActionCommand::Internal(ref c)) if c == "internal-two"));
    let r = t.handle_event(TuiInput::Key(KeyMods::Plain, '9'));
    assert!(r.is_none());
}

#[test]
fn action_pane_height_counts_entries() {
    let actions = vec![
        TuiAction::from_str("One:echo one").unwrap(),
        TuiAction::from_str("Two:echo two").unwrap(),
    ];
    let mut t = TuiState::new(actions);
    assert_eq!(t.action_pane_height(), 4);
    t.handle_event(TuiInput::Key(KeyMods::Plain, 'a'));
    assert_eq!(t.action_pane_height(), 0);

    let empty = TuiState::new(Vec::new());
    assert_eq!(empty.action_pane_height(), 0);
}

#[test]
fn scroll_offset_fits_the_renderer() {
    let mut t = TuiState::new(Vec::new());
    assert_eq!(t.scroll_offset_u16(), Some(0));
    t.scroll_offset = 70000;
    assert!(t.scroll_offset_u16().is_none());
}
