use rustlock::auth::{failure_notice, LockConversation};
use rustlock::secret::Secret;
use zeroize::Zeroizing;
use rustlock::clock::within_window;
use rustlock::feedback::{highlight_degrees, outlived, Feedback, FeedbackDurations};
use rustlock::status::{
    expand_home, icon_candidates, icon_path, theme_name, uptime_due, uptime_parts, ICON_CANDIDATES,
    ICON_THEMES, UPTIME_REFRESH_SECS,
};
use rustlock::system::{
    art_source, bluetooth_summary, button_command, is_charging_state, is_wifi_device, login1_method, ArtCache,
    ArtSource, BackendCommand,
};
use rustlock::text::{same_text, starts_with_text};

fn durations() -> FeedbackDurations {
    FeedbackDurations {
        wrong_password: 1_000,
        key_highlight: 200,
        cleared: 500,
        verifying: 5_000,
        message: 3_000,
    }
}

#[test]
fn text_helpers() {
    assert!(same_text("abc", "abc"));
    assert!(!same_text("abc", "abd"));
    assert!(!same_text("abc", "ab"));
    assert!(starts_with_text("file:///x", "file://"));
    assert!(!starts_with_text("fil", "file://"));
}

#[test]
fn clock_window_is_strict() {
    assert!(within_window(399, 400));
    assert!(!within_window(400, 400));
}

#[test]
fn power_commands_have_login1_methods() {
    assert_eq!(login1_method(BackendCommand::PowerOff), Some("PowerOff"));
    assert_eq!(login1_method(BackendCommand::Reboot), Some("Reboot"));
    assert_eq!(login1_method(BackendCommand::Suspend), Some("Suspend"));
    assert_eq!(login1_method(BackendCommand::MediaStop), None);
}

#[test]
fn media_buttons_map_to_commands() {
    assert_eq!(button_command("play_pause"), Some(BackendCommand::MediaPlayPause));
    assert_eq!(button_command("stop"), Some(BackendCommand::MediaStop));
    assert_eq!(button_command("next"), Some(BackendCommand::MediaNext));
    assert_eq!(button_command("prev"), Some(BackendCommand::MediaPrev));
    assert_eq!(button_command("volume"), None);
}

#[test]
fn device_states() {
    assert!(is_charging_state(1));
    assert!(!is_charging_state(2));
    assert!(is_wifi_device(2));
    assert!(!is_wifi_device(1));
}

#[test]
fn art_sources() {
    match art_source("file:///home/u/a.png") {
        ArtSource::File(p) => assert_eq!(p, "/home/u/a.png"),
        other => panic!("unexpected {:?}", other),
    }
    match art_source("file://file:///b.jpg") {
        ArtSource::File(p) => assert_eq!(p, "/b.jpg"),
        other => panic!("unexpected {:?}", other),
    }
    assert!(matches!(art_source("https://example.org/a.png"), ArtSource::Remote));
    assert!(matches!(art_source("data:image/png"), ArtSource::Unsupported));
}

#[test]
fn art_cache_reloads_only_on_change() {
    let mut cache = ArtCache::new();
    assert!(cache.observe(None).is_none());
    match cache.observe(Some("file:///a.png".to_string())) {
        Some(Some(ArtSource::File(p))) => assert_eq!(p, "/a.png"),
        other => panic!("unexpected {:?}", other),
    }
    assert!(cache.observe(Some("file:///a.png".to_string())).is_none());
    assert!(matches!(cache.observe(Some("http://x/y".to_string())), Some(Some(ArtSource::Remote))));
    assert!(matches!(cache.observe(None), Some(None)));
}

#[test]
fn home_is_expanded_at_the_start_only() {
    assert_eq!(expand_home("~/icons/wifi.svg", "/home/u"), "/home/u/icons/wifi.svg");
    assert_eq!(expand_home("/usr/share/x~y", "/home/u"), "/usr/share/x~y");
    assert_eq!(expand_home("~", "/root"), "/root");
    assert_eq!(expand_home("", "/root"), "");
}

#[test]
fn icon_path_prefers_configuration() {
    assert_eq!(icon_path(Some("/a.svg".to_string()), Some("/b.svg".to_string())), Some("/a.svg".to_string()));
    assert_eq!(icon_path(None, Some("/b.svg".to_string())), Some("/b.svg".to_string()));
    assert_eq!(icon_path(Some(String::new()), Some("/b.svg".to_string())), None);
    assert_eq!(icon_path(None, None), None);
}

#[test]
fn uptime_line_parts() {
    assert_eq!(uptime_parts(3725), (1, 2));
    assert_eq!(uptime_parts(59), (0, 0));
    assert_eq!(uptime_parts(86_399), (23, 59));
    assert_eq!(UPTIME_REFRESH_SECS, 10);
    assert!(uptime_due(None));
    assert!(!uptime_due(Some(9)));
    assert!(uptime_due(Some(10)));
}

#[test]
fn highlight_angle_is_a_degree() {
    assert_eq!(highlight_degrees(0), 1);
    assert_eq!(highlight_degrees(1), 6364136223846793006u64 % 360);
    assert!(highlight_degrees(u64::MAX) < 360);
}

#[test]
fn outlived_is_strict() {
    assert!(!outlived(1_000_000_000, 1_000));
    assert!(outlived(1_000_000_001, 1_000));
}

#[test]
fn feedback_lamps() {
    let mut f = Feedback::new(durations());
    assert!(!f.is_animating());
    assert_eq!(f.shown(), (false, false, false, false));
    f.show_verifying();
    assert_eq!(f.shown(), (false, false, false, true));
    f.show_wrong_password();
    assert_eq!(f.shown(), (true, false, false, false));
    assert!(f.is_animating());
    let degrees = f.show_key_highlight();
    assert!(degrees < 360);
    f.show_cleared_feedback();
    assert_eq!(f.shown(), (true, true, true, false));
    f.update_feedback_timers();
    assert_eq!(f.shown(), (true, true, true, false));
    f.show_verifying();
    f.clear_verifying();
    assert_eq!(f.shown(), (true, true, true, false));
}

#[test]
fn feedback_message() {
    let mut f = Feedback::new(durations());
    assert!(f.pam_message().is_none());
    f.show_pam_message("Account locked".to_string());
    assert_eq!(f.pam_message().map(|m| m.as_str()), Some("Account locked"));
    assert!(f.is_animating());
}

#[test]
fn feedback_expires_after_duration() {
    let mut f = Feedback::new(FeedbackDurations {
        wrong_password: 0,
        key_highlight: 0,
        cleared: 0,
        verifying: 0,
        message: 0,
    });
    f.show_wrong_password();
    f.show_pam_message("m".to_string());
    let start = std::time::Instant::now();
    while start.elapsed().as_nanos() == 0 {}
    f.update_feedback_timers();
    assert_eq!(f.shown(), (false, false, false, false));
    assert!(f.pam_message().is_none());
    assert!(!f.is_animating());
}

#[test]
fn conversation_hands_password_over_once() {
    let secret = |b: &[u8]| Secret(Zeroizing::new(b.to_vec()));
    let mut c = LockConversation::new();
    assert!(c.answer_secret().is_none());
    c.begin(secret(b"first"));
    c.begin(secret(b"second"));
    assert!(!c.had_message());
    assert_eq!(c.answer_secret().map(|s| s.0.to_vec()), Some(b"second".to_vec()));
    assert!(c.answer_secret().is_none());
    c.note_message();
    assert!(c.had_message());
    c.begin(secret(b"third"));
    assert!(!c.had_message());
}

#[test]
fn lockout_notice_only_when_silent() {
    assert_eq!(failure_notice(false, true), Some("Account locked — too many failed attempts"));
    assert_eq!(failure_notice(true, true), None);
    assert_eq!(failure_notice(false, false), None);
}

#[test]
fn feedback_expiry_by_elapsed_time() {
    let mut f = Feedback::new(durations());
    f.show_wrong_password();
    f.show_key_highlight();
    f.show_cleared_feedback();
    f.show_pam_message("m".to_string());
    // Exactly at the duration nothing has expired yet.
    f.expire_timers(1_000_000_000, 200_000_000, 500_000_000, 0, 3_000_000_000);
    assert_eq!(f.shown(), (true, true, true, false));
    assert!(f.pam_message().is_some());
    // One nanosecond later the wrong-password and message lamps go out.
    f.expire_timers(1_000_000_001, 0, 0, 0, 3_000_000_001);
    assert_eq!(f.shown(), (false, true, true, false));
    assert!(f.pam_message().is_none());
    f.expire_timers(0, 200_000_001, 500_000_001, 0, 0);
    assert_eq!(f.shown(), (false, false, false, false));
    assert!(!f.is_animating());
}

#[test]
fn bluetooth_summary_lists_connected_names_in_order() {
    let devices = vec![
        (false, Some("Keyboard".to_string())),
        (true, Some("Headphones".to_string())),
        (true, None),
        (true, Some("Mouse".to_string())),
    ];
    let (connected, names) = bluetooth_summary(devices);
    assert!(connected);
    assert_eq!(names, vec!["Headphones".to_string(), "Mouse".to_string()]);
}

#[test]
fn bluetooth_summary_without_connected_devices() {
    let (connected, names) = bluetooth_summary(vec![(false, Some("Speaker".to_string()))]);
    assert!(!connected);
    assert!(names.is_empty());
    let (connected, names) = bluetooth_summary(Vec::new());
    assert!(!connected);
    assert!(names.is_empty());
    // A connected device without a name still counts as connected.
    let (connected, names) = bluetooth_summary(vec![(true, None)]);
    assert!(connected);
    assert!(names.is_empty());
}

#[test]
fn icon_candidates_follow_theme_then_directory_then_extension() {
    let c = icon_candidates("battery");
    assert_eq!(c.len(), ICON_CANDIDATES);
    assert_eq!(c[0], "WhiteSur/status/symbolic/battery.svg");
    assert_eq!(c[1], "WhiteSur/status/symbolic/battery.png");
    assert_eq!(c[2], "WhiteSur/actions/symbolic/battery.svg");
    assert_eq!(c[31], "WhiteSur/48x48/status/battery.png");
    assert_eq!(c[32], "WhiteSur-dark/status/symbolic/battery.svg");
    assert_eq!(c[223], "Papirus/48x48/status/battery.png");
    assert_eq!(theme_name(4), "hicolor");
    assert_eq!(ICON_THEMES, 7);
}
