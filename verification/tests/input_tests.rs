use rustlock::input::{InputAction, InputHandler, InputSettings};
use rustlock::keys::{Key, Modifiers};

fn handler() -> InputHandler {
    InputHandler::new(InputSettings::default())
}

fn text(s: &str) -> Option<String> {
    Some(s.to_string())
}

#[test]
fn test_new_handler_defaults() {
    let handler = handler();
    assert_eq!(handler.password_length(), 0);
    assert_eq!(handler.cursor_position(), 0);
    assert!(!handler.caps_lock());
    assert!(!handler.should_show_wrong_password());
    assert!(!handler.should_show_key_highlight());
}

#[test]
fn test_character_input_appends() {
    let mut handler = handler();
    let mods = Modifiers::default();

    let action = handler.handle_key_event(Key::Other, text("a"), mods);
    assert!(matches!(action, InputAction::PasswordChanged));
    assert_eq!(handler.password_length(), 1);
    assert_eq!(handler.cursor_position(), 1);

    let action = handler.handle_key_event(Key::Other, text("b"), mods);
    assert!(matches!(action, InputAction::PasswordChanged));
    assert_eq!(handler.password_length(), 2);
    assert_eq!(handler.cursor_position(), 2);

    assert_eq!(handler.password_buffer().0.as_slice(), b"ab");
}

#[test]
fn test_backspace_removes_last_char() {
    let mut handler = handler();
    let mods = Modifiers::default();

    handler.handle_key_event(Key::Other, text("a"), mods);
    handler.handle_key_event(Key::Other, text("b"), mods);
    assert_eq!(handler.password_length(), 2);

    let action = handler.handle_key_event(Key::BackSpace, None, mods);
    assert!(matches!(action, InputAction::PasswordChanged));
    assert_eq!(handler.password_length(), 1);
    assert_eq!(handler.cursor_position(), 1);
    assert_eq!(handler.password_buffer().0.as_slice(), b"a");
}

#[test]
fn test_backspace_on_empty_buffer() {
    let mut handler = handler();
    let mods = Modifiers::default();

    let action = handler.handle_key_event(Key::BackSpace, None, mods);
    assert!(matches!(action, InputAction::NoAction));
    assert_eq!(handler.password_length(), 0);
}

#[test]
fn test_backspace_last_char_clears() {
    let mut handler = handler();
    let mods = Modifiers::default();

    handler.handle_key_event(Key::Other, text("a"), mods);
    let action = handler.handle_key_event(Key::BackSpace, None, mods);
    assert!(matches!(action, InputAction::PasswordCleared));
    assert_eq!(handler.password_length(), 0);
}

#[test]
fn test_ctrl_u_clears_buffer() {
    let mut handler = handler();
    let mods = Modifiers { ctrl: true, ..Modifiers::default() };

    handler.handle_key_event(Key::Other, text("a"), Modifiers::default());
    handler.handle_key_event(Key::Other, text("b"), Modifiers::default());
    assert_eq!(handler.password_length(), 2);

    let action = handler.handle_key_event(Key::U, None, mods);
    assert!(matches!(action, InputAction::PasswordCleared));
    assert_eq!(handler.password_length(), 0);
    assert_eq!(handler.cursor_position(), 0);
}

#[test]
fn test_submit_returns_and_clears() {
    let mut handler = handler();
    let mods = Modifiers::default();

    handler.handle_key_event(Key::Other, text("a"), mods);
    handler.handle_key_event(Key::Other, text("b"), mods);

    let action = handler.handle_key_event(Key::Return, None, mods);
    match action {
        InputAction::SubmitPassword(p) => {
            assert_eq!(p.0.as_slice(), b"ab");
        }
        _ => panic!("Expected SubmitPassword, got {:?}", action),
    }
    assert_eq!(handler.password_length(), 0);
    assert_eq!(handler.cursor_position(), 0);
}

#[test]
fn test_submit_enter_kp() {
    let mut handler = handler();
    let mods = Modifiers::default();
    handler.handle_key_event(Key::Other, text("a"), mods);

    let action = handler.handle_key_event(Key::KpEnter, None, Modifiers::default());
    assert!(matches!(action, InputAction::SubmitPassword(_)));
}

#[test]
fn test_escape_cancels() {
    let mut handler = handler();
    let mods = Modifiers::default();

    let action = handler.handle_key_event(Key::Escape, None, mods);
    assert!(matches!(action, InputAction::Cancel));
}

#[test]
fn test_cursor_left_right() {
    let mut handler = handler();
    let mods = Modifiers::default();

    handler.handle_key_event(Key::Other, text("a"), mods);
    handler.handle_key_event(Key::Other, text("b"), mods);
    handler.handle_key_event(Key::Other, text("c"), mods);
    assert_eq!(handler.cursor_position(), 3);

    let action = handler.handle_key_event(Key::Left, None, mods);
    assert!(matches!(action, InputAction::CursorMoved));
    assert_eq!(handler.cursor_position(), 2);

    handler.handle_key_event(Key::Left, None, mods);
    assert_eq!(handler.cursor_position(), 1);

    let action = handler.handle_key_event(Key::Right, None, mods);
    assert!(matches!(action, InputAction::CursorMoved));
    assert_eq!(handler.cursor_position(), 2);
}

#[test]
fn test_cursor_left_at_start() {
    let mut handler = handler();
    let mods = Modifiers::default();

    let action = handler.handle_key_event(Key::Left, None, mods);
    assert!(matches!(action, InputAction::NoAction));
    assert_eq!(handler.cursor_position(), 0);
}

#[test]
fn test_cursor_right_at_end() {
    let mut handler = handler();
    let mods = Modifiers::default();
    handler.handle_key_event(Key::Other, text("a"), mods);

    let action = handler.handle_key_event(Key::Right, None, mods);
    assert!(matches!(action, InputAction::NoAction));
    assert_eq!(handler.cursor_position(), 1);
}

#[test]
fn test_home_and_end() {
    let mut handler = handler();
    let mods = Modifiers::default();
    handler.handle_key_event(Key::Other, text("a"), mods);
    handler.handle_key_event(Key::Other, text("b"), mods);
    handler.handle_key_event(Key::Other, text("c"), mods);
    handler.handle_key_event(Key::Left, None, mods);
    handler.handle_key_event(Key::Left, None, mods);
    assert_eq!(handler.cursor_position(), 1);

    let action = handler.handle_key_event(Key::Home, None, mods);
    assert!(matches!(action, InputAction::CursorMoved));
    assert_eq!(handler.cursor_position(), 0);

    let action = handler.handle_key_event(Key::End, None, mods);
    assert!(matches!(action, InputAction::CursorMoved));
    assert_eq!(handler.cursor_position(), 3);
}

#[test]
fn test_delete_removes_at_cursor() {
    let mut handler = handler();
    let mods = Modifiers::default();
    handler.handle_key_event(Key::Other, text("a"), mods);
    handler.handle_key_event(Key::Other, text("b"), mods);
    handler.handle_key_event(Key::Other, text("c"), mods);
    let action = handler.handle_key_event(Key::Delete, None, mods);
    assert!(matches!(action, InputAction::NoAction));
    assert_eq!(handler.password_length(), 3);

    handler.handle_key_event(Key::Left, None, mods);
    let action = handler.handle_key_event(Key::Delete, None, mods);
    assert!(matches!(action, InputAction::PasswordChanged));
    assert_eq!(handler.password_length(), 2);
    assert_eq!(handler.password_buffer().0.as_slice(), b"ab");
}

#[test]
fn test_insert_mid_buffer() {
    let mut handler = handler();
    let mods = Modifiers::default();
    handler.handle_key_event(Key::Other, text("a"), mods);
    handler.handle_key_event(Key::Other, text("c"), mods);
    handler.handle_key_event(Key::Left, None, mods);
    handler.handle_key_event(Key::Other, text("b"), mods);
    assert_eq!(handler.password_buffer().0.as_slice(), b"abc");
    assert_eq!(handler.cursor_position(), 2);
}

#[test]
fn test_caps_lock_tracking() {
    let mut handler = handler();
    assert!(!handler.caps_lock());

    let caps_mods = Modifiers { caps_lock: true, ..Modifiers::default() };
    handler.handle_key_event(Key::Other, text("A"), caps_mods);
    assert!(handler.caps_lock());
}

#[test]
fn test_wrong_password_timer() {
    let mut handler = handler();
    assert!(!handler.should_show_wrong_password());

    handler.set_wrong_password_feedback();
    assert!(handler.should_show_wrong_password());
}

#[test]
fn test_key_highlight_timer() {
    let mut handler = handler();
    assert!(!handler.should_show_key_highlight());

    handler.set_key_highlight();
    assert!(handler.should_show_key_highlight());
}

// Own tests.

#[test]
fn input_settings_default_windows() {
    let s = InputSettings::default();
    assert_eq!(s.feedback_window_duration, 1000);
    assert_eq!(s.key_highlight_window_duration, 200);
}

#[test]
fn input_drops_non_printable_characters() {
    let mut handler = handler();
    let mods = Modifiers::default();
    let action = handler.handle_key_event(Key::Other, text("a\u{7}é\tb"), mods);
    assert!(matches!(action, InputAction::PasswordChanged));
    assert_eq!(handler.password_buffer().0.as_slice(), b"ab");
    assert_eq!(handler.cursor_position(), 2);
}

#[test]
fn input_text_key_without_text_does_nothing() {
    let mut handler = handler();
    let action = handler.handle_key_event(Key::Other, None, Modifiers::default());
    assert!(matches!(action, InputAction::NoAction));
    assert_eq!(handler.password_length(), 0);
}

#[test]
fn input_submit_of_empty_prompt_gives_empty_password() {
    let mut handler = handler();
    let action = handler.handle_key_event(Key::Return, None, Modifiers::default());
    match action {
        InputAction::SubmitPassword(p) => assert!(p.0.is_empty()),
        _ => panic!("expected a submission"),
    }
}

#[test]
fn input_ctrl_u_on_empty_prompt_does_nothing() {
    let mut handler = handler();
    let mods = Modifiers { ctrl: true, ..Modifiers::default() };
    let action = handler.handle_key_event(Key::U, None, mods);
    assert!(matches!(action, InputAction::NoAction));
}

#[test]
fn input_backspace_undoes_typing_mid_buffer() {
    let mut handler = handler();
    let mods = Modifiers::default();
    handler.handle_key_event(Key::Other, text("xyz"), mods);
    handler.handle_key_event(Key::Left, None, mods);
    handler.handle_key_event(Key::Other, text("q"), mods);
    assert_eq!(handler.password_buffer().0.as_slice(), b"xyqz");
    handler.handle_key_event(Key::BackSpace, None, mods);
    assert_eq!(handler.password_buffer().0.as_slice(), b"xyz");
    assert_eq!(handler.cursor_position(), 2);
}

#[test]
fn input_delete_of_last_char_clears() {
    let mut handler = handler();
    let mods = Modifiers::default();
    handler.handle_key_event(Key::Other, text("a"), mods);
    handler.handle_key_event(Key::Home, None, mods);
    let action = handler.handle_key_event(Key::Delete, None, mods);
    assert!(matches!(action, InputAction::PasswordCleared));
    assert_eq!(handler.password_length(), 0);
}

#[test]
fn input_cooldown_after_wrong_password_drops_keys() {
    let mut handler = handler();
    handler.set_wrong_password_feedback();
    assert!(handler.is_cooldown());
    let action = handler.handle_key_event(Key::Other, text("a"), Modifiers::default());
    assert!(matches!(action, InputAction::NoAction));
    assert_eq!(handler.password_length(), 0);
}

#[test]
fn input_apply_key_ignores_cooldown() {
    let mut handler = handler();
    handler.set_wrong_password_feedback();
    let action = handler.apply_key(Key::Other, text("a"), Modifiers::default());
    assert!(matches!(action, InputAction::PasswordChanged));
    assert_eq!(handler.password_length(), 1);
}

#[test]
fn input_cooldown_lasts_four_hundred_ms() {
    let mut handler = handler();
    // Before any failure there is no cooldown, whatever the time.
    let action = handler.handle_key_event_at(Key::Other, text("a"), Modifiers::default(), 0);
    assert!(matches!(action, InputAction::PasswordChanged));
    handler.set_wrong_password_feedback();
    let action = handler.handle_key_event_at(Key::Other, text("b"), Modifiers::default(), 399);
    assert!(matches!(action, InputAction::NoAction));
    assert_eq!(handler.password_buffer().0.as_slice(), b"a");
    let action = handler.handle_key_event_at(Key::Other, text("b"), Modifiers::default(), 400);
    assert!(matches!(action, InputAction::PasswordChanged));
    assert_eq!(handler.password_buffer().0.as_slice(), b"ab");
}

#[test]
fn input_cooldown_window_after_failure() {
    let mut handler = handler();
    assert!(!handler.is_cooldown_at(0));
    assert!(!handler.is_cooldown());
    handler.set_wrong_password_feedback();
    assert!(handler.is_cooldown_at(0));
    assert!(handler.is_cooldown_at(399));
    assert!(!handler.is_cooldown_at(400));
    assert!(handler.is_cooldown());
}

#[test]
fn input_wrong_password_window_uses_feedback_duration() {
    let mut handler = handler();
    assert!(!handler.should_show_wrong_password_at(0));
    handler.set_wrong_password_feedback();
    assert!(handler.should_show_wrong_password_at(999));
    assert!(!handler.should_show_wrong_password_at(1000));
    // The key-highlight window (200 ms) does not apply here.
    assert!(handler.should_show_wrong_password_at(500));
}

#[test]
fn input_key_highlight_window_uses_highlight_duration() {
    let mut handler = handler();
    assert!(!handler.should_show_key_highlight_at(0));
    handler.set_key_highlight();
    assert!(handler.should_show_key_highlight_at(199));
    assert!(!handler.should_show_key_highlight_at(200));
    assert!(!handler.should_show_key_highlight_at(500));
    // A highlight does not start the cooldown or the wrong-password feedback.
    assert!(!handler.is_cooldown_at(0));
    assert!(!handler.should_show_wrong_password_at(0));
}

#[test]
fn input_windows_follow_settings() {
    let mut handler = InputHandler::new(InputSettings {
        feedback_window_duration: 50,
        key_highlight_window_duration: 3000,
    });
    handler.set_wrong_password_feedback();
    handler.set_key_highlight();
    assert!(!handler.should_show_wrong_password_at(50));
    assert!(handler.should_show_key_highlight_at(2999));
}
