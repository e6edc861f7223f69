//! The renderer's feedback animations: which are showing, since when, and
//! when they run out.

use crate::clock::{instant_now, nanos_since};
use std::time::Instant;
use vstd::prelude::*;

verus! {

/// How long each feedback animation lasts, in milliseconds.
#[derive(Clone, Copy, Debug, PartialEq, Eq, Structural)]
pub struct FeedbackDurations {
    pub wrong_password: u64,
    pub key_highlight: u64,
    pub cleared: u64,
    /// How long the verifying ring may show before it is cleared anyway (the
    /// verifying fallback timeout).
    pub verifying: u64,
    /// How long a message from the authenticator is shown.
    pub message: u64,
}

/// One feedback animation: whether it is drawn and whether its timer runs.
#[derive(Clone, Copy, Debug, PartialEq, Eq, Structural)]
pub struct Lamp {
    pub shown: bool,
    pub running: bool,
}

pub open spec fn lamp_on() -> Lamp {
    Lamp { shown: true, running: true }
}

pub open spec fn lamp_off() -> Lamp {
    Lamp { shown: false, running: false }
}

/// A lamp whose timer started `elapsed_ns` nanoseconds ago, after a timer
/// update: it goes out when it is running and has outlived `duration_ms`.
pub open spec fn expired(lamp: Lamp, elapsed_ns: u128, duration_ms: u64) -> Lamp {
    if lamp.running && elapsed_ns > duration_ms * 1_000_000 {
        lamp_off()
    } else {
        lamp
    }
}

/// A lamp after a timer update: unchanged, or it was running and has gone out.
pub open spec fn expired_or_kept(before: Lamp, after: Lamp) -> bool {
    after == before || (before.running && after == lamp_off())
}

/// `std::time::SystemTime::now()` since the Unix epoch, in nanoseconds
/// truncated to 64 bits (0 when the clock is before the epoch). Nothing is
/// promised of the value, which depends on the clock.
#[verifier::external_body]
fn clock_seed() -> u64 {
    std::time::SystemTime::now().duration_since(std::time::UNIX_EPOCH).map(
        |d| d.as_nanos() as u64,
    ).unwrap_or(0)
}

/// The pseudo-random angle, in whole degrees, that a seed picks for the
/// key-highlight segment (one step of a linear congruential generator).
pub open spec fn highlight_degrees_spec(seed: u64) -> u64 {
    (((seed as int * 6364136223846793005) + 1) % 0x1_0000_0000_0000_0000) as u64 % 360
}

pub fn highlight_degrees(seed: u64) -> (degrees: u64)
    ensures
        degrees == highlight_degrees_spec(seed),
        degrees < 360,
{
    let random = seed.wrapping_mul(6364136223846793005).wrapping_add(1);
    assert(random == (((seed as int * 6364136223846793005) + 1) % 0x1_0000_0000_0000_0000) as u64) by (nonlinear_arith)
        requires
            random == (((seed as int * 6364136223846793005) % 0x1_0000_0000_0000_0000) + 1) % 0x1_0000_0000_0000_0000,
    {
    }
    random % 360
}

/// Whether a timer started `elapsed_ns` nanoseconds ago has outlived a
/// duration of `duration_ms` milliseconds.
pub fn outlived(elapsed_ns: u128, duration_ms: u64) -> (over: bool)
    ensures
        over == (elapsed_ns > duration_ms * 1_000_000),
{
    elapsed_ns > duration_ms as u128 * 1_000_000
}

/// The nanoseconds since a timer started, read from the clock (0 when it
/// is not running).
fn elapsed_or_zero(start: &Option<Instant>) -> (elapsed: u128)
    ensures
        start is None ==> elapsed == 0,
{
    match start {
        Some(t) => nanos_since(t),
        None => 0,
    }
}

/// How long ago each feedback animation started, in nanoseconds (`None`
/// when it is not running).
#[derive(Clone, Copy, Debug, PartialEq, Eq, Structural)]
pub struct FeedbackAges {
    pub wrong_password: Option<u128>,
    pub key_highlight: Option<u128>,
    pub cleared: Option<u128>,
    pub verifying: Option<u128>,
    pub message: Option<u128>,
}

/// The nanoseconds since a running timer started, by the clock.
fn age_of(start: &Option<Instant>) -> (age: Option<u128>)
    ensures
        age is Some == start is Some,
{
    match start {
        Some(t) => Some(nanos_since(t)),
        None => None,
    }
}

/// The state of the renderer's feedback animations.
pub struct Feedback {
    wrong_password_shown: bool,
    wrong_password_start: Option<Instant>,
    key_highlight_shown: bool,
    key_highlight_start: Option<Instant>,
    cleared_feedback_shown: bool,
    cleared_feedback_start: Option<Instant>,
    verifying_shown: bool,
    verifying_start: Option<Instant>,
    pam_message: Option<String>,
    pam_message_start: Option<Instant>,
    durations: FeedbackDurations,
}

impl Feedback {
    pub closed spec fn wrong_password(&self) -> Lamp {
        Lamp { shown: self.wrong_password_shown, running: self.wrong_password_start is Some }
    }

    pub closed spec fn key_highlight(&self) -> Lamp {
        Lamp { shown: self.key_highlight_shown, running: self.key_highlight_start is Some }
    }

    pub closed spec fn cleared(&self) -> Lamp {
        Lamp { shown: self.cleared_feedback_shown, running: self.cleared_feedback_start is Some }
    }

    pub closed spec fn verifying(&self) -> Lamp {
        Lamp { shown: self.verifying_shown, running: self.verifying_start is Some }
    }

    /// The authenticator's message being shown, if any.
    pub closed spec fn message(&self) -> Option<Seq<char>> {
        match self.pam_message {
            Some(m) => Some(m@),
            None => None,
        }
    }

    pub closed spec fn message_running(&self) -> bool {
        self.pam_message_start is Some
    }

    pub closed spec fn durations(&self) -> FeedbackDurations {
        self.durations
    }

    pub fn new(durations: FeedbackDurations) -> (f: Self)
        ensures
            f.wrong_password() == lamp_off(),
            f.key_highlight() == lamp_off(),
            f.cleared() == lamp_off(),
            f.verifying() == lamp_off(),
            f.message() is None,
            !f.message_running(),
            f.durations() == durations,
    {
        Feedback {
            wrong_password_shown: false,
            wrong_password_start: None,
            key_highlight_shown: false,
            key_highlight_start: None,
            cleared_feedback_shown: false,
            cleared_feedback_start: None,
            verifying_shown: false,
            verifying_start: None,
            pam_message: None,
            pam_message_start: None,
            durations,
        }
    }

    /// Whether any feedback animation is in flight (and frames must keep
    /// coming until it finishes).
    pub fn is_animating(&self) -> (animating: bool)
        ensures
            animating == (self.wrong_password().running || self.key_highlight().running
                || self.cleared().running || self.verifying().running || self.message_running()),
    {
        self.wrong_password_start.is_some() || self.key_highlight_start.is_some()
            || self.cleared_feedback_start.is_some() || self.verifying_start.is_some()
            || self.pam_message_start.is_some()
    }

    /// Start the wrong-password feedback; it replaces the verifying ring.
    pub fn show_wrong_password(&mut self)
        ensures
            final(self).wrong_password() == lamp_on(),
            final(self).verifying() == lamp_off(),
            final(self).key_highlight() == old(self).key_highlight(),
            final(self).cleared() == old(self).cleared(),
            final(self).message() == old(self).message(),
            final(self).message_running() == old(self).message_running(),
            final(self).durations() == old(self).durations(),
    {
        self.wrong_password_shown = true;
        self.wrong_password_start = Some(instant_now());
        self.verifying_shown = false;
        self.verifying_start = None;
    }

    /// Start the key-highlight feedback; the answer is the angle of the
    /// highlighted segment, in whole degrees, picked from the clock.
    pub fn show_key_highlight(&mut self) -> (degrees: u64)
        ensures
            degrees < 360,
            final(self).key_highlight() == lamp_on(),
            final(self).wrong_password() == old(self).wrong_password(),
            final(self).cleared() == old(self).cleared(),
            final(self).verifying() == old(self).verifying(),
            final(self).message() == old(self).message(),
            final(self).message_running() == old(self).message_running(),
            final(self).durations() == old(self).durations(),
    {
        self.key_highlight_shown = true;
        self.key_highlight_start = Some(instant_now());
        highlight_degrees(clock_seed())
    }

    pub fn show_cleared_feedback(&mut self)
        ensures
            final(self).cleared() == lamp_on(),
            final(self).wrong_password() == old(self).wrong_password(),
            final(self).key_highlight() == old(self).key_highlight(),
            final(self).verifying() == old(self).verifying(),
            final(self).message() == old(self).message(),
            final(self).message_running() == old(self).message_running(),
            final(self).durations() == old(self).durations(),
    {
        self.cleared_feedback_shown = true;
        self.cleared_feedback_start = Some(instant_now());
    }

    pub fn show_verifying(&mut self)
        ensures
            final(self).verifying() == lamp_on(),
            final(self).wrong_password() == old(self).wrong_password(),
            final(self).key_highlight() == old(self).key_highlight(),
            final(self).cleared() == old(self).cleared(),
            final(self).message() == old(self).message(),
            final(self).message_running() == old(self).message_running(),
            final(self).durations() == old(self).durations(),
    {
        self.verifying_shown = true;
        self.verifying_start = Some(instant_now());
    }

    pub fn clear_verifying(&mut self)
        ensures
            final(self).verifying() == lamp_off(),
            final(self).wrong_password() == old(self).wrong_password(),
            final(self).key_highlight() == old(self).key_highlight(),
            final(self).cleared() == old(self).cleared(),
            final(self).message() == old(self).message(),
            final(self).message_running() == old(self).message_running(),
            final(self).durations() == old(self).durations(),
    {
        self.verifying_shown = false;
        self.verifying_start = None;
    }

    /// Show a message from the authenticator.
    pub fn show_pam_message(&mut self, msg: String)
        ensures
            final(self).message() == Some(msg@),
            final(self).message_running(),
            final(self).wrong_password() == old(self).wrong_password(),
            final(self).key_highlight() == old(self).key_highlight(),
            final(self).cleared() == old(self).cleared(),
            final(self).verifying() == old(self).verifying(),
            final(self).durations() == old(self).durations(),
    {
        self.pam_message = Some(msg);
        self.pam_message_start = Some(instant_now());
    }

    /// The message being shown, if any.
    pub fn pam_message(&self) -> (msg: Option<&String>)
        ensures
            match msg {
                Some(m) => self.message() == Some(m@),
                None => self.message() is None,
            },
    {
        match &self.pam_message {
            Some(m) => Some(m),
            None => None,
        }
    }

    /// How long ago each running animation started, by the clock; the
    /// renderer fades each one by its age.
    pub fn ages(&self) -> (ages: FeedbackAges)
        ensures
            ages.wrong_password is Some == self.wrong_password().running,
            ages.key_highlight is Some == self.key_highlight().running,
            ages.cleared is Some == self.cleared().running,
            ages.verifying is Some == self.verifying().running,
            ages.message is Some == self.message_running(),
    {
        FeedbackAges {
            wrong_password: age_of(&self.wrong_password_start),
            key_highlight: age_of(&self.key_highlight_start),
            cleared: age_of(&self.cleared_feedback_start),
            verifying: age_of(&self.verifying_start),
            message: age_of(&self.pam_message_start),
        }
    }

    pub fn shown(&self) -> (lamps: (bool, bool, bool, bool))
        ensures
            lamps == (self.wrong_password().shown, self.key_highlight().shown, self.cleared().shown,
                self.verifying().shown),
    {
        (self.wrong_password_shown, self.key_highlight_shown, self.cleared_feedback_shown, self.verifying_shown)
    }

    /// End every animation that has outlived its duration, given how long
    /// ago each was started, in nanoseconds: it is no longer drawn and its
    /// timer stops (a message is dropped). An animation that is not running
    /// is left alone.
    pub fn expire_timers(
        &mut self,
        wrong_password_ns: u128,
        key_highlight_ns: u128,
        cleared_ns: u128,
        verifying_ns: u128,
        message_ns: u128,
    )
        ensures
            final(self).durations() == old(self).durations(),
            final(self).wrong_password() == expired(
                old(self).wrong_password(),
                wrong_password_ns,
                old(self).durations().wrong_password,
            ),
            final(self).key_highlight() == expired(
                old(self).key_highlight(),
                key_highlight_ns,
                old(self).durations().key_highlight,
            ),
            final(self).cleared() == expired(
                old(self).cleared(),
                cleared_ns,
                old(self).durations().cleared,
            ),
            final(self).verifying() == expired(
                old(self).verifying(),
                verifying_ns,
                old(self).durations().verifying,
            ),
            if old(self).message_running() && message_ns > old(self).durations().message * 1_000_000 {
                final(self).message() is None && !final(self).message_running()
            } else {
                final(self).message() == old(self).message() && final(self).message_running()
                    == old(self).message_running()
            },
    {
        let d = self.durations;
        if self.wrong_password_start.is_some() && outlived(wrong_password_ns, d.wrong_password) {
            self.wrong_password_shown = false;
            self.wrong_password_start = None;
        }
        if self.key_highlight_start.is_some() && outlived(key_highlight_ns, d.key_highlight) {
            self.key_highlight_shown = false;
            self.key_highlight_start = None;
        }
        if self.cleared_feedback_start.is_some() && outlived(cleared_ns, d.cleared) {
            self.cleared_feedback_shown = false;
            self.cleared_feedback_start = None;
        }
        if self.verifying_start.is_some() && outlived(verifying_ns, d.verifying) {
            self.verifying_shown = false;
            self.verifying_start = None;
        }
        if self.pam_message_start.is_some() && outlived(message_ns, d.message) {
            self.pam_message = None;
            self.pam_message_start = None;
        }
    }

    /// End every animation that has outlived its duration, by the clock.
    pub fn update_feedback_timers(&mut self)
        ensures
            final(self).durations() == old(self).durations(),
            expired_or_kept(old(self).wrong_password(), final(self).wrong_password()),
            expired_or_kept(old(self).key_highlight(), final(self).key_highlight()),
            expired_or_kept(old(self).cleared(), final(self).cleared()),
            expired_or_kept(old(self).verifying(), final(self).verifying()),
            (final(self).message() == old(self).message() && final(self).message_running()
                == old(self).message_running()) || (old(self).message_running()
                && final(self).message() is None && !final(self).message_running()),
    {
        let wrong = elapsed_or_zero(&self.wrong_password_start);
        let highlight = elapsed_or_zero(&self.key_highlight_start);
        let cleared = elapsed_or_zero(&self.cleared_feedback_start);
        let verifying = elapsed_or_zero(&self.verifying_start);
        let message = elapsed_or_zero(&self.pam_message_start);
        self.expire_timers(wrong, highlight, cleared, verifying, message);
    }
}

} // verus!
