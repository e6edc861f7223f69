use rustlock::input::InputSettings;
use rustlock::keys::{Key, Modifiers};
use rustlock::lock::{FrameInputs, LockManager, LockedSurface, PasswordDisplay, SurfaceSettings};
use rustlock::session::{key_command, AuthVerdict, KeyResponse, Session};
use rustlock::system::BackendCommand;

fn settings() -> SurfaceSettings {
    SurfaceSettings { input: InputSettings::default(), clock: false, hide_password: false }
}

fn manager_with(n: i32) -> LockManager {
    let mut m = LockManager::new(settings());
    for _ in 0..n {
        assert!(m.add_surface(800, 600));
    }
    m
}

fn text(s: &str) -> Option<String> {
    Some(s.to_string())
}

fn idle_inputs() -> FrameInputs {
    FrameInputs {
        fade_changed: false,
        fade_running: false,
        renderer_caps_lock: false,
        renderer_animating: false,
        unix_seconds: 120,
    }
}

#[test]
fn session_function_keys_run_commands() {
    assert_eq!(key_command(Key::F1), Some(BackendCommand::Suspend));
    assert_eq!(key_command(Key::F2), Some(BackendCommand::Reboot));
    assert_eq!(key_command(Key::F3), Some(BackendCommand::PowerOff));
    assert_eq!(key_command(Key::AudioPlay), Some(BackendCommand::MediaPlayPause));
    assert_eq!(key_command(Key::AudioPause), Some(BackendCommand::MediaPlayPause));
    assert_eq!(key_command(Key::AudioNext), Some(BackendCommand::MediaNext));
    assert_eq!(key_command(Key::AudioPrev), Some(BackendCommand::MediaPrev));
    assert_eq!(key_command(Key::Return), None);
    assert_eq!(key_command(Key::Other), None);
}

#[test]
fn session_command_key_changes_nothing() {
    let mut m = manager_with(1);
    let mut s = Session::new(10_000);
    let r = s.handle_key_event(&mut m, Key::F2, None, Modifiers::default());
    assert!(matches!(r, KeyResponse::Command(BackendCommand::Reboot)));
    assert_eq!(m.surface(0).input_handler().password_length(), 0);
    assert!(!s.should_exit());
}

#[test]
fn session_grace_key_unlocks() {
    let mut m = manager_with(2);
    let mut s = Session::new(10_000);
    s.lock_confirmed(2_000_000_000);
    let r = s.handle_key_event_at(&mut m, Key::Other, text("a"), Modifiers::default(), 5);
    assert!(matches!(r, KeyResponse::Unlock));
    assert!(s.should_exit());
    assert_eq!(m.surface(0).input_handler().password_length(), 0);
}

#[test]
fn session_grace_by_clock_unlocks_right_away() {
    let mut m = manager_with(1);
    let mut s = Session::new(10_000);
    s.lock_confirmed(60_000_000_000);
    let r = s.handle_key_event(&mut m, Key::Escape, None, Modifiers::default());
    assert!(matches!(r, KeyResponse::Unlock));
}

#[test]
fn session_grace_over_key_goes_to_prompt() {
    let mut m = manager_with(1);
    let mut s = Session::new(10_000);
    s.lock_confirmed(2_000_000_000);
    let r =
        s.handle_key_event_at(&mut m, Key::Other, text("a"), Modifiers::default(), 2_000_000_000);
    assert!(matches!(r, KeyResponse::Delivered));
    assert!(!s.should_exit());
    assert_eq!(m.surface(0).input_handler().password_length(), 1);
    assert!(!s.grace_check(0));
}

#[test]
fn session_no_grace_without_confirmation() {
    let mut s = Session::new(10_000);
    assert!(!s.grace_check(0));
    assert!(!s.grace_active());
}

#[test]
fn session_submit_ignore_and_reply() {
    let mut m = manager_with(2);
    let mut s = Session::new(10_000);
    let mods = Modifiers::default();
    s.handle_key_event(&mut m, Key::Other, text("pw"), mods);
    assert_eq!(m.surface(1).input_handler().password_length(), 2);
    let r = s.handle_key_event(&mut m, Key::Return, None, mods);
    match r {
        KeyResponse::Submitted(p, seq) => {
            assert_eq!(p.0.as_slice(), b"pw");
            assert_eq!(seq, 1);
        }
        _ => panic!("expected a submission"),
    }
    assert_eq!(m.surface(0).input_handler().password_length(), 0);
    // Return while the request is pending is ignored.
    let r = s.handle_key_event(&mut m, Key::Return, None, mods);
    assert!(matches!(r, KeyResponse::Ignored));
    // A reply to another request is stale.
    assert_eq!(s.handle_auth_reply(&mut m, 7, true), None);
    assert!(!s.should_exit());
    // The real reply rejects.
    assert_eq!(s.handle_auth_reply(&mut m, 1, false), Some(AuthVerdict::Rejected));
    assert!(m.surface(0).input_handler().should_show_wrong_password());
    assert!(m.surface(1).input_handler().should_show_wrong_password());
    // A second reply to the same request is stale.
    assert_eq!(s.handle_auth_reply(&mut m, 1, true), None);
    assert!(!s.should_exit());
}

#[test]
fn session_empty_submission_is_not_sent() {
    let mut m = manager_with(1);
    let mut s = Session::new(10_000);
    let r = s.handle_key_event(&mut m, Key::Return, None, Modifiers::default());
    assert!(matches!(r, KeyResponse::Delivered));
    assert_eq!(s.handle_auth_reply(&mut m, 1, true), None);
}

#[test]
fn session_success_unlocks() {
    let mut m = manager_with(1);
    let mut s = Session::new(10_000);
    s.handle_key_event(&mut m, Key::Other, text("x"), Modifiers::default());
    s.handle_key_event(&mut m, Key::Return, None, Modifiers::default());
    assert_eq!(s.handle_auth_reply(&mut m, 1, true), Some(AuthVerdict::Unlocked));
    assert!(s.should_exit());
}

#[test]
fn session_timeout_fails_pending_request() {
    let mut m = manager_with(1);
    let mut s = Session::new(100);
    s.handle_key_event(&mut m, Key::Other, text("x"), Modifiers::default());
    s.handle_key_event(&mut m, Key::Return, None, Modifiers::default());
    assert!(!s.tick_at(&mut m, 0, 99));
    assert!(s.tick_at(&mut m, 0, 100));
    assert!(m.surface(0).input_handler().should_show_wrong_password());
    // The late reply is stale.
    assert_eq!(s.handle_auth_reply(&mut m, 1, true), None);
    // Nothing is pending: no further timeout.
    assert!(!s.tick_at(&mut m, 0, 1_000_000));
}

#[test]
fn session_tick_without_request_is_quiet() {
    let mut m = manager_with(1);
    let mut s = Session::new(100);
    assert!(!s.tick(&mut m));
    assert!(!s.should_exit());
}

#[test]
fn session_lock_finished_exits() {
    let mut s = Session::new(100);
    s.lock_finished();
    assert!(s.should_exit());
}

#[test]
fn lock_surface_needs_a_size() {
    assert!(LockedSurface::new(0, 10, settings()).is_none());
    assert!(LockedSurface::new(10, -1, settings()).is_none());
    assert!(LockedSurface::new(10, 10, settings()).is_some());
    let mut m = LockManager::new(settings());
    assert!(!m.add_surface(0, 0));
    assert_eq!(m.surface_count(), 0);
}

#[test]
fn lock_unconfigured_surface_draws_nothing() {
    let mut s = LockedSurface::new(10, 10, settings()).unwrap();
    let plan = s.update(idle_inputs());
    assert!(!plan.render);
}

#[test]
fn lock_idle_surface_draws_once_then_nothing() {
    let mut s = LockedSurface::new(10, 10, settings()).unwrap();
    s.set_configured();
    let plan = s.update(idle_inputs());
    assert!(plan.render);
    assert_eq!(plan.display, PasswordDisplay::Dots(0));
    let plan = s.update(idle_inputs());
    assert!(!plan.render);
    assert_eq!(plan.display, PasswordDisplay::Unchanged);
}

#[test]
fn lock_typing_and_peek_show_password() {
    let mut m = manager_with(1);
    m.handle_key_event(Key::Other, text("abc"), Modifiers::default());
    let s = m.get_surface_mut(0).unwrap();
    s.set_configured();
    let plan = s.update(idle_inputs());
    assert!(plan.render);
    assert_eq!(plan.display, PasswordDisplay::Dots(3));
    assert_eq!(plan.cursor, 3);
    s.toggle_peek();
    let plan = s.update(idle_inputs());
    assert_eq!(plan.display, PasswordDisplay::Peek);
    assert!(s.flags_now().peek_toggled);
    s.toggle_peek();
    assert!(!s.flags_now().peek_toggled);
}

#[test]
fn lock_hidden_password_is_never_shown() {
    let mut s = LockedSurface::new(
        10,
        10,
        SurfaceSettings { input: InputSettings::default(), clock: false, hide_password: true },
    )
    .unwrap();
    s.set_configured();
    s.handle_key_event(Key::Other, text("abc"), Modifiers::default());
    let plan = s.update(idle_inputs());
    assert!(plan.render);
    assert_eq!(plan.display, PasswordDisplay::Unchanged);
}

#[test]
fn lock_clock_minute_rollover_redraws() {
    let mut s = LockedSurface::new(
        10,
        10,
        SurfaceSettings { input: InputSettings::default(), clock: true, hide_password: false },
    )
    .unwrap();
    s.set_configured();
    assert!(s.update(idle_inputs()).render);
    assert!(!s.update(idle_inputs()).render);
    let mut later = idle_inputs();
    later.unix_seconds = 179;
    assert!(!s.update(later).render);
    later.unix_seconds = 180;
    assert!(s.update(later).render);
}

#[test]
fn lock_caps_lock_change_is_handed_on() {
    let mut s = LockedSurface::new(10, 10, settings()).unwrap();
    s.set_configured();
    s.update(idle_inputs());
    let caps = Modifiers { caps_lock: true, ..Modifiers::default() };
    s.handle_key_event(Key::Other, text("A"), caps);
    let plan = s.update(idle_inputs());
    assert_eq!(plan.caps_lock, Some(true));
    assert!(plan.render);
}

#[test]
fn lock_clearing_owes_cleared_feedback() {
    let mut s = LockedSurface::new(10, 10, settings()).unwrap();
    s.handle_key_event(Key::Other, text("a"), Modifiers::default());
    s.handle_key_event(Key::BackSpace, None, Modifiers::default());
    assert!(s.take_cleared_feedback());
    assert!(!s.take_cleared_feedback());
}

#[test]
fn lock_background_is_applied_once() {
    let mut s = LockedSurface::new(10, 10, settings()).unwrap();
    s.set_configured();
    s.set_background();
    let plan = s.update(idle_inputs());
    assert!(plan.apply_background);
    let plan = s.update(idle_inputs());
    assert!(!plan.apply_background);
}

#[test]
fn lock_manager_removes_surfaces() {
    let mut m = manager_with(3);
    assert_eq!(m.surface_count(), 3);
    m.remove_surface(1);
    assert_eq!(m.surface_count(), 2);
    assert!(m.get_surface_mut(2).is_none());
}

#[test]
fn lock_unix_minute_rounds_down() {
    assert_eq!(rustlock::lock::unix_minute(119), 1);
    assert_eq!(rustlock::lock::unix_minute(120), 2);
    assert_eq!(rustlock::lock::unix_minute(-1), -1);
}

#[test]
fn output_index_finds_first_matching_output() {
    assert_eq!(LockManager::output_index(&[7, 3, 9, 3], 3), Some(1));
    assert_eq!(LockManager::output_index(&[7, 3, 9, 3], 7), Some(0));
    assert_eq!(LockManager::output_index(&[7, 3, 9, 3], 4), None);
    assert_eq!(LockManager::output_index(&[], 4), None);
}
