//! Password entry: the editable buffer, its cursor and the input-side
//! feedback timers.

use crate::clock::{instant_now, millis_since, within_window};
use crate::keys::{Key, Modifiers};
use crate::secret::{
    empty_secret, secret_insert, secret_len, secret_remove, secret_take, secret_wipe, Secret,
};
use std::time::Instant;
use vstd::prelude::*;

verus! {

/// Milliseconds after a failed attempt during which key presses are ignored.
pub const COOLDOWN_MS: u64 = 400;

/// The timing settings that password entry reads.
#[derive(Clone, Copy, Debug, PartialEq, Eq, Structural)]
pub struct InputSettings {
    /// Milliseconds during which wrong-password feedback is shown input-side.
    pub feedback_window_duration: u64,
    /// Milliseconds during which key-highlight feedback is shown input-side.
    pub key_highlight_window_duration: u64,
}

impl Default for InputSettings {
    fn default() -> (s: Self)
        ensures
            s.feedback_window_duration == 1000,
            s.key_highlight_window_duration == 200,
    {
        InputSettings { feedback_window_duration: 1000, key_highlight_window_duration: 200 }
    }
}

/// What a key event did, as contracts speak of it.
pub enum Outcome {
    NoAction,
    PasswordChanged,
    PasswordCleared,
    CursorMoved,
    SubmitPassword(Seq<u8>),
    Cancel,
}

/// Actions that can result from keyboard input.
#[derive(Debug)]
pub enum InputAction {
    NoAction,
    PasswordChanged,
    PasswordCleared,
    CursorMoved,
    /// The submitted password, as printable ASCII bytes.
    SubmitPassword(Secret),
    Cancel,
}

impl View for InputAction {
    type V = Outcome;

    open spec fn view(&self) -> Outcome {
        match self {
            InputAction::NoAction => Outcome::NoAction,
            InputAction::PasswordChanged => Outcome::PasswordChanged,
            InputAction::PasswordCleared => Outcome::PasswordCleared,
            InputAction::CursorMoved => Outcome::CursorMoved,
            InputAction::SubmitPassword(p) => Outcome::SubmitPassword(p@),
            InputAction::Cancel => Outcome::Cancel,
        }
    }
}

/// The editable part of the password prompt.
pub struct EditState {
    pub buffer: Seq<u8>,
    pub cursor: int,
    pub caps_lock: bool,
}

/// A byte that may stand in the password: printable ASCII.
pub open spec fn is_printable_byte(b: u8) -> bool {
    0x20 <= b <= 0x7e
}

/// A character that typing adds to the password: ASCII and not a control
/// character.
pub open spec fn is_printable_char(c: char) -> bool {
    0x20 <= (c as int) <= 0x7e
}

/// The bytes that typing `text` adds, in order: its printable ASCII
/// characters; all others are dropped.
pub open spec fn printable_bytes(text: Seq<char>) -> Seq<u8>
    decreases text.len(),
{
    if text.len() == 0 {
        Seq::empty()
    } else {
        let rest = printable_bytes(text.drop_last());
        if is_printable_char(text.last()) {
            rest.push(text.last() as u8)
        } else {
            rest
        }
    }
}

/// A well-formed editing state: the cursor lies within the buffer and the
/// buffer holds printable ASCII only.
pub open spec fn edit_wf(s: EditState) -> bool {
    &&& 0 <= s.cursor <= s.buffer.len()
    &&& forall|i: int| 0 <= i < s.buffer.len() ==> is_printable_byte(#[trigger] s.buffer[i])
}

pub open spec fn with_buffer(s: EditState, buffer: Seq<u8>, cursor: int) -> EditState {
    EditState { buffer, cursor, caps_lock: s.caps_lock }
}

pub open spec fn with_cursor(s: EditState, cursor: int) -> EditState {
    EditState { buffer: s.buffer, cursor, caps_lock: s.caps_lock }
}

/// `Cleared` when the removal emptied the buffer, `Changed` otherwise.
pub open spec fn removal_outcome(buffer: Seq<u8>) -> Outcome {
    if buffer.len() == 0 {
        Outcome::PasswordCleared
    } else {
        Outcome::PasswordChanged
    }
}

/// One key event applied to the editing state (outside the cooldown).
pub open spec fn edit_step(s0: EditState, key: Key, text: Option<Seq<char>>, mods: Modifiers) -> (
    EditState,
    Outcome,
) {
    let s = EditState { buffer: s0.buffer, cursor: s0.cursor, caps_lock: mods.caps_lock };
    if mods.ctrl && key == Key::U {
        if s.buffer.len() > 0 {
            (with_buffer(s, Seq::empty(), 0), Outcome::PasswordCleared)
        } else {
            (s, Outcome::NoAction)
        }
    } else {
        match key {
            Key::BackSpace => {
                if s.buffer.len() == 0 || s.cursor == 0 {
                    (s, Outcome::NoAction)
                } else {
                    let b = s.buffer.remove(s.cursor - 1);
                    (with_buffer(s, b, s.cursor - 1), removal_outcome(b))
                }
            },
            Key::Return | Key::KpEnter => (
                with_buffer(s, Seq::empty(), 0),
                Outcome::SubmitPassword(s.buffer),
            ),
            Key::Escape => (s, Outcome::Cancel),
            Key::Left => {
                if s.cursor > 0 {
                    (with_cursor(s, s.cursor - 1), Outcome::CursorMoved)
                } else {
                    (s, Outcome::NoAction)
                }
            },
            Key::Right => {
                if s.cursor < s.buffer.len() {
                    (with_cursor(s, s.cursor + 1), Outcome::CursorMoved)
                } else {
                    (s, Outcome::NoAction)
                }
            },
            Key::Home => {
                if s.cursor > 0 {
                    (with_cursor(s, 0), Outcome::CursorMoved)
                } else {
                    (s, Outcome::NoAction)
                }
            },
            Key::End => {
                if s.cursor < s.buffer.len() {
                    (with_cursor(s, s.buffer.len() as int), Outcome::CursorMoved)
                } else {
                    (s, Outcome::NoAction)
                }
            },
            Key::Delete => {
                if s.cursor < s.buffer.len() {
                    let b = s.buffer.remove(s.cursor);
                    (with_buffer(s, b, s.cursor), removal_outcome(b))
                } else {
                    (s, Outcome::NoAction)
                }
            },
            _ => match text {
                Some(t) => {
                    let added = printable_bytes(t);
                    (
                        with_buffer(
                            s,
                            s.buffer.take(s.cursor) + added + s.buffer.skip(s.cursor),
                            s.cursor + added.len(),
                        ),
                        Outcome::PasswordChanged,
                    )
                },
                None => (s, Outcome::NoAction),
            },
        }
    }
}

/// The text of an optional key string.
pub open spec fn text_of(utf8: Option<String>) -> Option<Seq<char>> {
    match utf8 {
        Some(t) => Some(t@),
        None => None,
    }
}

/// The milliseconds since a timer started, read from the clock (0 when it
/// is not running).
fn millis_or_zero(start: &Option<Instant>) -> (elapsed: u128)
    ensures
        start is None ==> elapsed == 0,
{
    match start {
        Some(t) => millis_since(t),
        None => 0,
    }
}

/// Handles keyboard input for password entry.
pub struct InputHandler {
    password_buffer: Secret,
    cursor_position: usize,
    wrong_password_timer: Option<Instant>,
    key_highlight_timer: Option<Instant>,
    caps_lock: bool,
    settings: InputSettings,
    last_failed_attempt: Option<Instant>,
}

proof fn lemma_printable_bytes_step(text: Seq<char>, i: int)
    requires
        0 <= i < text.len(),
    ensures
        printable_bytes(text.take(i + 1)) == (if is_printable_char(text[i]) {
            printable_bytes(text.take(i)).push(text[i] as u8)
        } else {
            printable_bytes(text.take(i))
        }),
{
    assert(text.take(i + 1).drop_last() =~= text.take(i));
}

impl InputHandler {
    /// The password typed so far.
    pub closed spec fn buffer(&self) -> Seq<u8> {
        self.password_buffer@
    }

    /// The cursor's position in the password, in characters.
    pub closed spec fn cursor(&self) -> int {
        self.cursor_position as int
    }

    /// The Caps Lock state of the last key event handled.
    pub closed spec fn caps(&self) -> bool {
        self.caps_lock
    }

    pub closed spec fn settings(&self) -> InputSettings {
        self.settings
    }

    /// Whether wrong-password feedback was ever requested.
    pub closed spec fn wrong_password_armed(&self) -> bool {
        self.wrong_password_timer is Some
    }

    /// Whether key-highlight feedback was ever requested.
    pub closed spec fn key_highlight_armed(&self) -> bool {
        self.key_highlight_timer is Some
    }

    /// Whether a failed attempt was ever recorded.
    pub closed spec fn failure_recorded(&self) -> bool {
        self.last_failed_attempt is Some
    }

    /// The three feedback timers, compared as a whole.
    pub closed spec fn timers(&self) -> (Option<Instant>, Option<Instant>, Option<Instant>) {
        (self.wrong_password_timer, self.key_highlight_timer, self.last_failed_attempt)
    }

    pub open spec fn edit_state(&self) -> EditState {
        EditState { buffer: self.buffer(), cursor: self.cursor(), caps_lock: self.caps() }
    }

    pub open spec fn wf(&self) -> bool {
        edit_wf(self.edit_state())
    }

    pub fn new(settings: InputSettings) -> (h: Self)
        ensures
            h.wf(),
            h.buffer() == Seq::<u8>::empty(),
            h.cursor() == 0,
            !h.caps(),
            h.settings() == settings,
            !h.wrong_password_armed(),
            !h.key_highlight_armed(),
            !h.failure_recorded(),
    {
        InputHandler {
            password_buffer: empty_secret(),
            cursor_position: 0,
            wrong_password_timer: None,
            key_highlight_timer: None,
            caps_lock: false,
            settings,
            last_failed_attempt: None,
        }
    }

    /// Handle a key event. Within the cooldown after a failed attempt the
    /// event is ignored; otherwise it is applied as `edit_step` says.
    pub fn handle_key_event(&mut self, key: Key, utf8: Option<String>, mods: Modifiers) -> (action:
        InputAction)
        requires
            old(self).wf(),
        ensures
            final(self).wf(),
            final(self).settings() == old(self).settings(),
            final(self).timers() == old(self).timers(),
            final(self).wrong_password_armed() == old(self).wrong_password_armed(),
            final(self).key_highlight_armed() == old(self).key_highlight_armed(),
            final(self).failure_recorded() == old(self).failure_recorded(),
            (action@ == Outcome::NoAction && final(self).edit_state() == old(self).edit_state())
                || (final(self).edit_state(), action@) == edit_step(
                old(self).edit_state(),
                key,
                text_of(utf8),
                mods,
            ),
            !old(self).failure_recorded() ==> (final(self).edit_state(), action@) == edit_step(
                old(self).edit_state(),
                key,
                text_of(utf8),
                mods,
            ),
    {
        let since_failure = millis_or_zero(&self.last_failed_attempt);
        self.handle_key_event_at(key, utf8, mods, since_failure)
    }

    /// Handle a key event `since_failure_ms` milliseconds after the last
    /// failed attempt: within the cooldown the event is ignored, otherwise
    /// it is applied as `edit_step` says. Before any failed attempt there is
    /// no cooldown.
    pub fn handle_key_event_at(
        &mut self,
        key: Key,
        utf8: Option<String>,
        mods: Modifiers,
        since_failure_ms: u128,
    ) -> (action: InputAction)
        requires
            old(self).wf(),
        ensures
            final(self).wf(),
            final(self).settings() == old(self).settings(),
            final(self).timers() == old(self).timers(),
            final(self).wrong_password_armed() == old(self).wrong_password_armed(),
            final(self).key_highlight_armed() == old(self).key_highlight_armed(),
            final(self).failure_recorded() == old(self).failure_recorded(),
            if old(self).failure_recorded() && since_failure_ms < COOLDOWN_MS {
                action@ == Outcome::NoAction && final(self).edit_state() == old(self).edit_state()
            } else {
                (final(self).edit_state(), action@) == edit_step(
                    old(self).edit_state(),
                    key,
                    text_of(utf8),
                    mods,
                )
            },
    {
        if self.is_cooldown_at(since_failure_ms) {
            return InputAction::NoAction;
        }
        self.apply_key(key, utf8, mods)
    }

    /// Apply a key event to the password, the cursor and the Caps Lock
    /// state, regardless of the cooldown.
    pub fn apply_key(&mut self, key: Key, utf8: Option<String>, mods: Modifiers) -> (action:
        InputAction)
        requires
            old(self).wf(),
        ensures
            final(self).wf(),
            final(self).settings() == old(self).settings(),
            final(self).timers() == old(self).timers(),
            final(self).wrong_password_armed() == old(self).wrong_password_armed(),
            final(self).key_highlight_armed() == old(self).key_highlight_armed(),
            final(self).failure_recorded() == old(self).failure_recorded(),
            (final(self).edit_state(), action@) == edit_step(
                old(self).edit_state(),
                key,
                text_of(utf8),
                mods,
            ),
    {
        self.caps_lock = mods.caps_lock;

        if mods.ctrl && key == Key::U {
            if secret_len(&self.password_buffer) > 0 {
                self.cursor_position = 0;
                secret_wipe(&mut self.password_buffer);
                return InputAction::PasswordCleared;
            }
            return InputAction::NoAction;
        }
        match key {
            Key::BackSpace => {
                if secret_len(&self.password_buffer) == 0 || self.cursor_position == 0 {
                    return InputAction::NoAction;
                }
                self.cursor_position = self.cursor_position - 1;
                secret_remove(&mut self.password_buffer, self.cursor_position);
                if secret_len(&self.password_buffer) == 0 {
                    return InputAction::PasswordCleared;
                }
                return InputAction::PasswordChanged;
            },
            Key::Return | Key::KpEnter => {
                let password = secret_take(&mut self.password_buffer);
                self.cursor_position = 0;
                return InputAction::SubmitPassword(password);
            },
            Key::Escape => {
                return InputAction::Cancel;
            },
            Key::Left => {
                if self.cursor_position > 0 {
                    self.cursor_position = self.cursor_position - 1;
                    return InputAction::CursorMoved;
                }
                return InputAction::NoAction;
            },
            Key::Right => {
                if self.cursor_position < secret_len(&self.password_buffer) {
                    self.cursor_position = self.cursor_position + 1;
                    return InputAction::CursorMoved;
                }
                return InputAction::NoAction;
            },
            Key::Home => {
                if self.cursor_position > 0 {
                    self.cursor_position = 0;
                    return InputAction::CursorMoved;
                }
                return InputAction::NoAction;
            },
            Key::End => {
                let len = secret_len(&self.password_buffer);
                if self.cursor_position < len {
                    self.cursor_position = len;
                    return InputAction::CursorMoved;
                }
                return InputAction::NoAction;
            },
            Key::Delete => {
                if self.cursor_position < secret_len(&self.password_buffer) {
                    secret_remove(&mut self.password_buffer, self.cursor_position);
                    if secret_len(&self.password_buffer) == 0 {
                        return InputAction::PasswordCleared;
                    }
                    return InputAction::PasswordChanged;
                }
                return InputAction::NoAction;
            },
            _ => {},
        }

        match utf8 {
            Some(txt) => {
                self.insert_text(&txt);
                InputAction::PasswordChanged
            },
            None => InputAction::NoAction,
        }
    }

    /// Insert the printable characters of `txt` at the cursor, moving the
    /// cursor past them.
    fn insert_text(&mut self, txt: &String)
        requires
            old(self).wf(),
        ensures
            final(self).wf(),
            final(self).settings() == old(self).settings(),
            final(self).timers() == old(self).timers(),
            final(self).caps() == old(self).caps(),
            final(self).buffer() == old(self).buffer().take(old(self).cursor()) + printable_bytes(
                txt@,
            ) + old(self).buffer().skip(old(self).cursor()),
            final(self).cursor() == old(self).cursor() + printable_bytes(txt@).len(),
    {
        let ghost b0 = self.password_buffer@;
        let ghost c0 = self.cursor_position as int;
        let n = txt.as_str().unicode_len();
        let mut i: usize = 0;
        assert(txt@.take(0) =~= Seq::<char>::empty());
        assert(b0 =~= b0.take(c0) + printable_bytes(txt@.take(0)) + b0.skip(c0));
        while i < n
            invariant
                n == txt@.len(),
                0 <= i <= n,
                0 <= c0 <= b0.len(),
                self.password_buffer@ == b0.take(c0) + printable_bytes(txt@.take(i as int))
                    + b0.skip(c0),
                self.cursor_position == c0 + printable_bytes(txt@.take(i as int)).len(),
                self.wf(),
                self.settings() == old(self).settings(),
                self.timers() == old(self).timers(),
                self.caps() == old(self).caps(),
                b0 == old(self).buffer(),
                c0 == old(self).cursor(),
            decreases n - i,
        {
            let c = txt.as_str().get_char(i);
            proof {
                lemma_printable_bytes_step(txt@, i as int);
            }
            let code = c as u32;
            if 0x20 <= code && code <= 0x7e {
                let ghost before = self.password_buffer@;
                let pos = self.cursor_position;
                secret_insert(&mut self.password_buffer, pos, code as u8);
                assert(self.password_buffer@.len() == before.len() + 1);
                let len = secret_len(&self.password_buffer);
                self.cursor_position = pos + 1;
                proof {
                    let added = printable_bytes(txt@.take(i as int));
                    assert(before =~= b0.take(c0) + added + b0.skip(c0));
                    assert(self.password_buffer@ =~= b0.take(c0) + added.push(c as u8) + b0.skip(
                        c0,
                    ));
                    assert forall|j: int|
                        0 <= j < self.password_buffer@.len() implies is_printable_byte(
                        #[trigger] self.password_buffer@[j],
                    ) by {
                        if j < pos {
                            assert(self.password_buffer@[j] == before[j]);
                        } else if j > pos {
                            assert(self.password_buffer@[j] == before[j - 1]);
                        }
                    }
                }
            }
            i = i + 1;
        }
        assert(txt@.take(n as int) =~= txt@);
    }

    /// The password typed so far, as printable ASCII bytes.
    pub fn password_buffer(&self) -> (buffer: &Secret)
        ensures
            buffer@ == self.buffer(),
    {
        &self.password_buffer
    }

    pub fn password_length(&self) -> (len: usize)
        ensures
            len == self.buffer().len(),
    {
        secret_len(&self.password_buffer)
    }

    pub fn cursor_position(&self) -> (pos: usize)
        ensures
            pos == self.cursor(),
    {
        self.cursor_position
    }

    /// Set wrong password feedback timer; this also starts the cooldown.
    pub fn set_wrong_password_feedback(&mut self)
        requires
            old(self).wf(),
        ensures
            final(self).wf(),
            final(self).edit_state() == old(self).edit_state(),
            final(self).settings() == old(self).settings(),
            final(self).wrong_password_armed(),
            final(self).failure_recorded(),
            final(self).key_highlight_armed() == old(self).key_highlight_armed(),
            final(self).timers().1 == old(self).timers().1,
    {
        self.wrong_password_timer = Some(instant_now());
        self.last_failed_attempt = Some(instant_now());
    }

    /// Whether key presses are still being ignored `since_failure_ms`
    /// milliseconds after the last failed attempt: within the cooldown
    /// after one, never before any.
    pub fn is_cooldown_at(&self, since_failure_ms: u128) -> (cooling: bool)
        ensures
            cooling == (self.failure_recorded() && since_failure_ms < COOLDOWN_MS),
    {
        self.last_failed_attempt.is_some() && within_window(since_failure_ms, COOLDOWN_MS)
    }

    /// Whether key presses are still being ignored after a failed attempt,
    /// by the clock. Before any failed attempt this is always `false`.
    pub fn is_cooldown(&self) -> (cooling: bool)
        ensures
            !self.failure_recorded() ==> !cooling,
    {
        let since = millis_or_zero(&self.last_failed_attempt);
        self.is_cooldown_at(since)
    }

    /// Whether the wrong-password feedback is to be shown `elapsed_ms`
    /// milliseconds after it was requested: within the feedback window,
    /// never before it was requested.
    pub fn should_show_wrong_password_at(&self, elapsed_ms: u128) -> (show: bool)
        ensures
            show == (self.wrong_password_armed() && elapsed_ms
                < self.settings().feedback_window_duration),
    {
        self.wrong_password_timer.is_some() && within_window(
            elapsed_ms,
            self.settings.feedback_window_duration,
        )
    }

    /// Check if wrong password feedback should be shown, by the clock. It
    /// never is before any feedback was requested.
    pub fn should_show_wrong_password(&self) -> (show: bool)
        ensures
            !self.wrong_password_armed() ==> !show,
    {
        let elapsed = millis_or_zero(&self.wrong_password_timer);
        self.should_show_wrong_password_at(elapsed)
    }

    /// Set key highlight timer (for visual feedback).
    pub fn set_key_highlight(&mut self)
        requires
            old(self).wf(),
        ensures
            final(self).wf(),
            final(self).edit_state() == old(self).edit_state(),
            final(self).settings() == old(self).settings(),
            final(self).key_highlight_armed(),
            final(self).wrong_password_armed() == old(self).wrong_password_armed(),
            final(self).failure_recorded() == old(self).failure_recorded(),
            final(self).timers().0 == old(self).timers().0,
            final(self).timers().2 == old(self).timers().2,
    {
        self.key_highlight_timer = Some(instant_now());
    }

    /// Whether the key highlight is to be shown `elapsed_ms` milliseconds
    /// after it was requested: within the key-highlight window, never before
    /// it was requested.
    pub fn should_show_key_highlight_at(&self, elapsed_ms: u128) -> (show: bool)
        ensures
            show == (self.key_highlight_armed() && elapsed_ms
                < self.settings().key_highlight_window_duration),
    {
        self.key_highlight_timer.is_some() && within_window(
            elapsed_ms,
            self.settings.key_highlight_window_duration,
        )
    }

    /// Check if key highlight should be shown, by the clock. It never is
    /// before any highlight was requested.
    pub fn should_show_key_highlight(&self) -> (show: bool)
        ensures
            !self.key_highlight_armed() ==> !show,
    {
        let elapsed = millis_or_zero(&self.key_highlight_timer);
        self.should_show_key_highlight_at(elapsed)
    }

    /// Get the current Caps Lock state.
    pub fn caps_lock(&self) -> (on: bool)
        ensures
            on == self.caps(),
    {
        self.caps_lock
    }
}

/// Typing yields printable bytes only.
proof fn lemma_printable_bytes_printable(text: Seq<char>)
    ensures
        forall|i: int|
            0 <= i < printable_bytes(text).len() ==> is_printable_byte(
                #[trigger] printable_bytes(text)[i],
            ),
    decreases text.len(),
{
    if text.len() > 0 {
        let rest = text.drop_last();
        lemma_printable_bytes_printable(rest);
        let out = printable_bytes(text);
        assert forall|i: int| 0 <= i < out.len() implies is_printable_byte(#[trigger] out[i]) by {
            if i < printable_bytes(rest).len() {
                assert(out[i] == printable_bytes(rest)[i]);
            } else {
                let c = text.last();
                assert(is_printable_char(c));
                assert(out[i] == c as u8);
                assert((c as u8) as int == c as int);
            }
        }
    }
}

/// Every key event keeps the prompt well formed: the cursor stays within
/// the password and the password holds printable ASCII only.
pub proof fn lemma_edit_keeps_wf(s: EditState, key: Key, text: Option<Seq<char>>, mods: Modifiers)
    requires
        edit_wf(s),
    ensures
        edit_wf(edit_step(s, key, text, mods).0),
{
    match text {
        Some(t) => lemma_printable_bytes_printable(t),
        None => {},
    }
    let s1 = edit_step(s, key, text, mods).0;
    assert forall|i: int| 0 <= i < s1.buffer.len() implies is_printable_byte(
        #[trigger] s1.buffer[i],
    ) by {
        if !(mods.ctrl && key == Key::U) {
            match key {
                Key::BackSpace => {
                    if s.buffer.len() > 0 && s.cursor > 0 {
                        assert(s1.buffer[i] == s.buffer[if i < s.cursor - 1 { i } else { i + 1 }]);
                    }
                },
                Key::Delete => {
                    if s.cursor < s.buffer.len() {
                        assert(s1.buffer[i] == s.buffer[if i < s.cursor { i } else { i + 1 }]);
                    }
                },
                Key::Return | Key::KpEnter | Key::Escape | Key::Left | Key::Right | Key::Home
                | Key::End => {},
                _ => {
                    match text {
                        Some(t) => {
                            let added = printable_bytes(t);
                            let b = s.buffer.take(s.cursor) + added + s.buffer.skip(s.cursor);
                            if i < s.cursor {
                                assert(b[i] == s.buffer[i]);
                            } else if i < s.cursor + added.len() {
                                assert(b[i] == added[i - s.cursor]);
                            } else {
                                assert(b[i] == s.buffer[i - added.len()]);
                            }
                        },
                        None => {},
                    }
                },
            }
        }
    }
}

/// BackSpace takes back a printable character just typed: the password
/// and the cursor are as they were before it.
pub proof fn lemma_backspace_undoes_typing(
    s: EditState,
    c: char,
    typing: Modifiers,
    erasing: Modifiers,
)
    requires
        edit_wf(s),
        is_printable_char(c),
    ensures
        edit_step(s, Key::Other, Some(seq![c]), typing).1 == Outcome::PasswordChanged,
        edit_step(edit_step(s, Key::Other, Some(seq![c]), typing).0, Key::BackSpace, None, erasing).0.buffer
            == s.buffer,
        edit_step(edit_step(s, Key::Other, Some(seq![c]), typing).0, Key::BackSpace, None, erasing).0.cursor
            == s.cursor,
{
    let t = seq![c];
    assert(t.drop_last() =~= Seq::<char>::empty());
    assert(printable_bytes(Seq::<char>::empty()) =~= Seq::<u8>::empty());
    assert(t.last() == c);
    assert(printable_bytes(t) =~= seq![c as u8]);
    let s1 = edit_step(s, Key::Other, Some(t), typing).0;
    assert(s1.buffer =~= s.buffer.take(s.cursor) + seq![c as u8] + s.buffer.skip(s.cursor));
    assert(s1.buffer.remove(s.cursor) =~= s.buffer);
}

/// What is typed into an empty prompt is what Return submits, as printable
/// ASCII bytes; the prompt is empty again afterwards.
pub proof fn lemma_typed_text_is_submitted(
    s: EditState,
    text: Seq<char>,
    typing: Modifiers,
    submitting: Modifiers,
)
    requires
        s.buffer.len() == 0,
        s.cursor == 0,
    ensures
        edit_step(edit_step(s, Key::Other, Some(text), typing).0, Key::Return, None, submitting).1
            == Outcome::SubmitPassword(printable_bytes(text)),
        edit_step(edit_step(s, Key::Other, Some(text), typing).0, Key::Return, None, submitting).0.buffer
            == Seq::<u8>::empty(),
{
    let s1 = edit_step(s, Key::Other, Some(text), typing).0;
    assert(s1.buffer =~= printable_bytes(text));
}

} // verus!
