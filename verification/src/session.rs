//! The locked session: session and media keys, the grace period, and the
//! bookkeeping of authentication requests and their replies.

use crate::clock::{instant_now, millis_since, nanos_since};
use crate::input::{text_of, InputAction, Outcome};
use crate::keys::{Key, Modifiers};
use crate::lock::{
    action_view, key_round, verifying_on_all, wrong_password_on_all, LockManager, LockedSurface,
};
use crate::system::BackendCommand;
use std::time::Instant;
use crate::secret::{secret_len, Secret};
use vstd::prelude::*;

verus! {

/// The command a key stands for whatever the lock screen shows: media keys
/// drive the player, F1 suspends, F2 reboots, F3 powers off.
pub open spec fn key_command_spec(key: Key) -> Option<BackendCommand> {
    match key {
        Key::AudioPlay | Key::AudioPause => Some(BackendCommand::MediaPlayPause),
        Key::AudioNext => Some(BackendCommand::MediaNext),
        Key::AudioPrev => Some(BackendCommand::MediaPrev),
        Key::F1 => Some(BackendCommand::Suspend),
        Key::F2 => Some(BackendCommand::Reboot),
        Key::F3 => Some(BackendCommand::PowerOff),
        _ => None,
    }
}

pub fn key_command(key: Key) -> (cmd: Option<BackendCommand>)
    ensures
        cmd == key_command_spec(key),
{
    match key {
        Key::AudioPlay | Key::AudioPause => Some(BackendCommand::MediaPlayPause),
        Key::AudioNext => Some(BackendCommand::MediaNext),
        Key::AudioPrev => Some(BackendCommand::MediaPrev),
        Key::F1 => Some(BackendCommand::Suspend),
        Key::F2 => Some(BackendCommand::Reboot),
        Key::F3 => Some(BackendCommand::PowerOff),
        _ => None,
    }
}

/// What a key press led to.
#[derive(Debug)]
pub enum KeyResponse {
    /// A session or media key: run this command.
    Command(BackendCommand),
    /// A key pressed within the grace period: unlock.
    Unlock,
    /// Return while a request is pending: nothing happens.
    Ignored,
    /// The key went to the password prompts.
    Delivered,
    /// The key submitted this password as request number `seq`.
    Submitted(Secret, u64),
}

/// How an authentication request ended.
#[derive(Clone, Copy, Debug, PartialEq, Eq, Structural)]
pub enum AuthVerdict {
    Unlocked,
    Rejected,
}

/// What a key press does to the session and the surfaces, apart from the
/// grace period's clock: session and media keys run their command and
/// change nothing; an unlock needs a grace period that was armed and ends
/// the session; otherwise the grace period is over, Return while a request
/// is pending is ignored, Return otherwise goes to the prompts and a
/// non-empty submission becomes the next request, shown as being verified
/// on every surface, and every other key goes to the prompts.
pub open spec fn pressed(
    s0: Session,
    s1: Session,
    m0: LockManager,
    m1: LockManager,
    key: Key,
    text: Option<Seq<char>>,
    mods: Modifiers,
    response: KeyResponse,
) -> bool {
    &&& key_command_spec(key) matches Some(c) ==> (response matches KeyResponse::Command(r) && r
        == c && s1 == s0 && m1 == m0)
    &&& key_command_spec(key) is None ==> !(response is Command)
    &&& response is Unlock ==> {
        &&& s0.grace_armed()
        &&& s1.exiting()
        &&& s1.pending() is None
        &&& !s1.grace_armed()
        &&& s1.seq() == s0.seq()
        &&& m1.surfaces() == m0.surfaces()
    }
    &&& key_command_spec(key) is None && !(response is Unlock) ==> {
        &&& !s1.grace_armed()
        &&& s1.exiting() == s0.exiting()
        &&& (key == Key::Return && s0.pending() is Some) ==> (response is Ignored
            && s1.same_requests(&s0) && m1.surfaces() == m0.surfaces())
        &&& (key == Key::Return && s0.pending() is None) ==> ({
            ||| (response matches KeyResponse::Submitted(p, seq) && seq == s0.seq() + 1
                && s1.seq() == seq && s1.pending() == Some(seq) && p@.len() > 0 && exists|
                mid: Seq<LockedSurface>,
                outs: Seq<Outcome>,
            |
                #[trigger] key_round(
                    m0.surfaces(),
                    mid,
                    key,
                    text,
                    mods,
                    outs,
                    Some(Outcome::SubmitPassword(p@)),
                ) && verifying_on_all(mid, m1.surfaces()))
            ||| (response is Delivered && s1.same_requests(&s0) && exists|
                outs: Seq<Outcome>,
                answer: Option<Outcome>,
            |
                #[trigger] key_round(m0.surfaces(), m1.surfaces(), key, text, mods, outs, answer)
                    && !(answer matches Some(Outcome::SubmitPassword(p)) && p.len() > 0))
        })
        &&& key != Key::Return ==> (response is Delivered && s1.same_requests(&s0) && exists|
            outs: Seq<Outcome>,
            answer: Option<Outcome>,
        | #[trigger] key_round(m0.surfaces(), m1.surfaces(), key, text, mods, outs, answer))
    }
}

/// What a periodic tick does, `grace_elapsed_nanos` after the lock was
/// confirmed and `pending_elapsed_ms` after the pending request was sent:
/// the pending request fails once it has waited the timeout, showing the
/// wrong-password feedback on every surface; the grace period stays only
/// while it runs and nothing failed; otherwise nothing changes.
pub open spec fn ticked(
    s0: Session,
    s1: Session,
    m0: LockManager,
    m1: LockManager,
    grace_elapsed_nanos: u128,
    pending_elapsed_ms: u128,
    timed_out: bool,
) -> bool {
    &&& timed_out == (s0.pending() is Some && pending_elapsed_ms >= s0.auth_timeout())
    &&& s1.grace_armed() == (s0.grace_armed() && grace_elapsed_nanos < s0.grace_nanos()
        && !timed_out)
    &&& timed_out ==> s1.pending() is None && wrong_password_on_all(m0.surfaces(), m1.surfaces())
    &&& !timed_out ==> s1.pending() == s0.pending() && m1.surfaces() == m0.surfaces()
}

/// The bookkeeping of a locked session.
pub struct Session {
    grace_start: Option<Instant>,
    grace_nanos: u128,
    auth_seq: u64,
    auth_pending_seq: Option<u64>,
    auth_pending_at: Option<Instant>,
    auth_timeout_ms: u64,
    exit: bool,
}

impl Session {
    /// Whether a grace period is running or may still be.
    pub closed spec fn grace_armed(&self) -> bool {
        self.grace_start is Some
    }

    pub closed spec fn grace_nanos(&self) -> u128 {
        self.grace_nanos
    }

    /// The number of the last request sent.
    pub closed spec fn seq(&self) -> u64 {
        self.auth_seq
    }

    /// The request awaiting a reply, if any.
    pub closed spec fn pending(&self) -> Option<u64> {
        self.auth_pending_seq
    }

    pub closed spec fn auth_timeout(&self) -> u64 {
        self.auth_timeout_ms
    }

    pub closed spec fn exiting(&self) -> bool {
        self.exit
    }

    pub closed spec fn wf(&self) -> bool {
        &&& (self.auth_pending_at is Some) == (self.auth_pending_seq is Some)
        &&& self.auth_pending_seq is Some ==> self.auth_pending_seq == Some(self.auth_seq)
    }

    /// The session's state apart from the grace period.
    pub open spec fn same_requests(&self, other: &Session) -> bool {
        &&& self.seq() == other.seq()
        &&& self.pending() == other.pending()
        &&& self.auth_timeout() == other.auth_timeout()
        &&& self.exiting() == other.exiting()
    }

    pub fn new(auth_timeout_ms: u64) -> (s: Self)
        ensures
            s.wf(),
            !s.grace_armed(),
            s.seq() == 0,
            s.pending() is None,
            s.auth_timeout() == auth_timeout_ms,
            !s.exiting(),
    {
        Session {
            grace_start: None,
            grace_nanos: 0,
            auth_seq: 0,
            auth_pending_seq: None,
            auth_pending_at: None,
            auth_timeout_ms,
            exit: false,
        }
    }

    /// The compositor confirmed the lock: a grace period of `grace_nanos`
    /// nanoseconds starts, within which any key unlocks.
    pub fn lock_confirmed(&mut self, grace_nanos: u128)
        requires
            old(self).wf(),
        ensures
            final(self).wf(),
            final(self).grace_armed(),
            final(self).grace_nanos() == grace_nanos,
            final(self).same_requests(old(self)),
    {
        self.grace_start = Some(instant_now());
        self.grace_nanos = grace_nanos;
    }

    /// The compositor ended the lock: the program is to exit.
    pub fn lock_finished(&mut self)
        requires
            old(self).wf(),
        ensures
            final(self).wf(),
            final(self).exiting(),
            final(self).grace_armed() == old(self).grace_armed(),
            final(self).seq() == old(self).seq(),
            final(self).pending() == old(self).pending(),
            final(self).auth_timeout() == old(self).auth_timeout(),
    {
        self.exit = true;
    }

    /// The number of the last request sent (0 before any).
    pub fn last_seq(&self) -> (seq: u64)
        ensures
            seq == self.seq(),
    {
        self.auth_seq
    }

    pub fn should_exit(&self) -> (exit: bool)
        ensures
            exit == self.exiting(),
    {
        self.exit
    }

    /// Whether the grace period is still running `elapsed_nanos` nanoseconds
    /// after the lock was confirmed; once it has run out it is forgotten.
    /// Without a grace period this is always `false`.
    pub fn grace_check(&mut self, elapsed_nanos: u128) -> (active: bool)
        requires
            old(self).wf(),
        ensures
            final(self).wf(),
            final(self).same_requests(old(self)),
            final(self).grace_nanos() == old(self).grace_nanos(),
            active == (old(self).grace_armed() && elapsed_nanos < old(self).grace_nanos()),
            active ==> *final(self) == *old(self),
            !active ==> !final(self).grace_armed(),
    {
        if self.grace_start.is_some() && elapsed_nanos < self.grace_nanos {
            true
        } else {
            self.grace_start = None;
            false
        }
    }

    /// The nanoseconds since the lock was confirmed, read from the clock
    /// (0 when no grace period was armed).
    fn grace_elapsed(&self) -> (elapsed: u128)
        ensures
            !self.grace_armed() ==> elapsed == 0,
    {
        match &self.grace_start {
            Some(start) => nanos_since(start),
            None => 0,
        }
    }

    /// Whether the grace period is still running, by the clock.
    pub fn grace_active(&mut self) -> (active: bool)
        requires
            old(self).wf(),
        ensures
            final(self).wf(),
            final(self).same_requests(old(self)),
            final(self).grace_nanos() == old(self).grace_nanos(),
            active ==> old(self).grace_armed() && *final(self) == *old(self),
            !active ==> !final(self).grace_armed(),
    {
        let elapsed = self.grace_elapsed();
        self.grace_check(elapsed)
    }

    /// An authentication request ended: the grace period and the pending
    /// request are forgotten. Success ends the session; failure shows the
    /// wrong-password feedback on every surface.
    fn conclude(&mut self, manager: &mut LockManager, success: bool) -> (verdict: AuthVerdict)
        requires
            old(self).wf(),
            old(manager).wf(),
        ensures
            final(self).wf(),
            final(manager).wf(),
            final(manager).settings() == old(manager).settings(),
            !final(self).grace_armed(),
            final(self).pending() is None,
            final(self).seq() == old(self).seq(),
            final(self).auth_timeout() == old(self).auth_timeout(),
            success ==> verdict == AuthVerdict::Unlocked && final(self).exiting() && final(manager).surfaces() == old(manager).surfaces(),
            !success ==> verdict == AuthVerdict::Rejected && final(self).exiting() == old(self).exiting() && wrong_password_on_all(old(manager).surfaces(), final(manager).surfaces()),
    {
        self.grace_start = None;
        self.auth_pending_at = None;
        self.auth_pending_seq = None;
        if success {
            self.exit = true;
            AuthVerdict::Unlocked
        } else {
            manager.show_wrong_password();
            AuthVerdict::Rejected
        }
    }

    /// A reply from the authenticator for request `seq`. A reply to any
    /// request but the pending one is stale and changes nothing.
    pub fn handle_auth_reply(&mut self, manager: &mut LockManager, seq: u64, success: bool) -> (verdict:
        Option<AuthVerdict>)
        requires
            old(self).wf(),
            old(manager).wf(),
        ensures
            final(self).wf(),
            final(manager).wf(),
            final(manager).settings() == old(manager).settings(),
            verdict is None <==> old(self).pending() != Some(seq),
            verdict is None ==> *final(self) == *old(self) && *final(manager) == *old(manager),
            verdict is Some ==> {
                &&& !final(self).grace_armed()
                &&& final(self).pending() is None
                &&& final(self).seq() == old(self).seq()
                &&& final(self).auth_timeout() == old(self).auth_timeout()
                &&& success ==> verdict == Some(AuthVerdict::Unlocked) && final(self).exiting()
                    && final(manager).surfaces() == old(manager).surfaces()
                &&& !success ==> verdict == Some(AuthVerdict::Rejected) && final(self).exiting()
                    == old(self).exiting() && wrong_password_on_all(
                    old(manager).surfaces(),
                    final(manager).surfaces(),
                )
            },
    {
        if self.auth_pending_seq == Some(seq) {
            Some(self.conclude(manager, success))
        } else {
            None
        }
    }

    /// The periodic tick, `grace_elapsed_nanos` after the lock was confirmed
    /// and `pending_elapsed_ms` after the pending request was sent: a grace
    /// period that ran out is forgotten, and a request that has waited at
    /// least the timeout fails. Without a pending request nothing fails.
    pub fn tick_at(
        &mut self,
        manager: &mut LockManager,
        grace_elapsed_nanos: u128,
        pending_elapsed_ms: u128,
    ) -> (timed_out: bool)
        requires
            old(self).wf(),
            old(manager).wf(),
        ensures
            final(self).wf(),
            final(manager).wf(),
            final(manager).settings() == old(manager).settings(),
            final(self).seq() == old(self).seq(),
            final(self).auth_timeout() == old(self).auth_timeout(),
            final(self).exiting() == old(self).exiting(),
            ticked(
                *old(self),
                *final(self),
                *old(manager),
                *final(manager),
                grace_elapsed_nanos,
                pending_elapsed_ms,
                timed_out,
            ),
    {
        self.grace_check(grace_elapsed_nanos);
        if self.auth_pending_seq.is_some() && pending_elapsed_ms >= self.auth_timeout_ms as u128 {
            self.conclude(manager, false);
            return true;
        }
        false
    }

    /// The periodic tick, by the clock.
    pub fn tick(&mut self, manager: &mut LockManager) -> (timed_out: bool)
        requires
            old(self).wf(),
            old(manager).wf(),
        ensures
            final(self).wf(),
            final(manager).wf(),
            final(manager).settings() == old(manager).settings(),
            final(self).seq() == old(self).seq(),
            final(self).auth_timeout() == old(self).auth_timeout(),
            final(self).exiting() == old(self).exiting(),
            timed_out ==> old(self).pending() is Some && final(self).pending() is None
                && !final(self).grace_armed() && wrong_password_on_all(
                old(manager).surfaces(),
                final(manager).surfaces(),
            ),
            !timed_out ==> final(self).pending() == old(self).pending() && final(manager).surfaces()
                == old(manager).surfaces() && (final(self).grace_armed()
                ==> old(self).grace_armed()),
            exists|grace_elapsed_nanos: u128, pending_elapsed_ms: u128|
                #[trigger] ticked(
                    *old(self),
                    *final(self),
                    *old(manager),
                    *final(manager),
                    grace_elapsed_nanos,
                    pending_elapsed_ms,
                    timed_out,
                ),
    {
        let grace_elapsed = self.grace_elapsed();
        let pending_elapsed = match &self.auth_pending_at {
            Some(at) => millis_since(at),
            None => 0,
        };
        self.tick_at(manager, grace_elapsed, pending_elapsed)
    }

    /// A key press on the lock screen, `grace_elapsed_nanos` after the lock
    /// was confirmed. Within the grace period any key but a session or media
    /// key unlocks.
    #[verifier::spinoff_prover]
    #[verifier::rlimit(40)]
    pub fn handle_key_event_at(
        &mut self,
        manager: &mut LockManager,
        key: Key,
        utf8: Option<String>,
        mods: Modifiers,
        grace_elapsed_nanos: u128,
    ) -> (response: KeyResponse)
        requires
            old(self).wf(),
            old(manager).wf(),
            key != Key::Return || old(self).seq() < u64::MAX,
        ensures
            final(self).wf(),
            final(manager).wf(),
            final(manager).settings() == old(manager).settings(),
            final(self).auth_timeout() == old(self).auth_timeout(),
            pressed(*old(self), *final(self), *old(manager), *final(manager), key, text_of(utf8), mods, response),
            key_command_spec(key) is None ==> ((response is Unlock) == (old(self).grace_armed()
                && grace_elapsed_nanos < old(self).grace_nanos())),
    {
        if let Some(cmd) = key_command(key) {
            return KeyResponse::Command(cmd);
        }
        if self.grace_check(grace_elapsed_nanos) {
            self.conclude(manager, true);
            return KeyResponse::Unlock;
        }
        if key == Key::Return {
            if self.auth_pending_at.is_some() {
                return KeyResponse::Ignored;
            }
            let ghost m0 = manager.surfaces();
            let ghost text = text_of(utf8);
            let action = manager.handle_key_event(key, utf8, mods);
            let ghost outs = choose|outs: Seq<Outcome>|
                #[trigger] key_round(m0, manager.surfaces(), key, text, mods, outs, action_view(action));
            match action {
                Some(InputAction::SubmitPassword(password)) => {
                    if secret_len(&password) > 0 {
                        let ghost mid = manager.surfaces();
                        assert(key_round(m0, mid, key, text, mods, outs, Some(Outcome::SubmitPassword(password@))));
                        self.auth_seq = self.auth_seq + 1;
                        self.auth_pending_at = Some(instant_now());
                        self.auth_pending_seq = Some(self.auth_seq);
                        manager.show_verifying();
                        let seq = self.auth_seq;
                        assert(verifying_on_all(mid, manager.surfaces()));
                        assert(exists|m: Seq<LockedSurface>, o: Seq<Outcome>|
                            #[trigger] key_round(
                                m0,
                                m,
                                key,
                                text,
                                mods,
                                o,
                                Some(Outcome::SubmitPassword(password@)),
                            ) && verifying_on_all(m, manager.surfaces()));
                        let response = KeyResponse::Submitted(password, seq);
                        assert(response matches KeyResponse::Submitted(p, q) && q == seq && p@
                            == password@);
                        return response;
                    }
                    KeyResponse::Delivered
                },
                _ => KeyResponse::Delivered,
            }
        } else {
            manager.handle_key_event(key, utf8, mods);
            KeyResponse::Delivered
        }
    }

    /// A key press on the lock screen, by the clock.
    pub fn handle_key_event(
        &mut self,
        manager: &mut LockManager,
        key: Key,
        utf8: Option<String>,
        mods: Modifiers,
    ) -> (response: KeyResponse)
        requires
            old(self).wf(),
            old(manager).wf(),
            key != Key::Return || old(self).seq() < u64::MAX,
        ensures
            final(self).wf(),
            final(manager).wf(),
            final(manager).settings() == old(manager).settings(),
            final(self).auth_timeout() == old(self).auth_timeout(),
            pressed(*old(self), *final(self), *old(manager), *final(manager), key, text_of(utf8), mods, response),
    {
        let elapsed = self.grace_elapsed();
        self.handle_key_event_at(manager, key, utf8, mods, elapsed)
    }
}

} // verus!
