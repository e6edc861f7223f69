//! The state of the lock screen on each output: which feedback is showing,
//! whether a redraw is due, and how key events reach the password prompts.

use crate::input::{
    edit_step, text_of, InputAction, InputHandler, InputSettings, Outcome,
};
use crate::keys::{Key, Modifiers};
use crate::secret::secret_len;
use vstd::prelude::*;

verus! {

/// The settings a lock surface reads.
#[derive(Clone, Copy, Debug, PartialEq, Eq, Structural)]
pub struct SurfaceSettings {
    pub input: InputSettings,
    /// Whether the clock is shown (it forces a redraw once per minute).
    pub clock: bool,
    /// Whether the password dots are hidden.
    pub hide_password: bool,
}

/// The flags that decide what a lock surface draws and when.
#[derive(Clone, Copy, Debug, PartialEq, Eq, Structural)]
pub struct SurfaceFlags {
    /// The compositor has configured the surface.
    pub configured: bool,
    /// A background image has been handed to the surface.
    pub has_background: bool,
    /// The background image has been handed on to the renderer.
    pub background_applied: bool,
    pub wrong_password_shown: bool,
    pub key_highlight_shown: bool,
    /// Rendered state changed since the last frame was drawn.
    pub dirty: bool,
    /// The last clock minute (unix minute) that was drawn.
    pub last_minute: i64,
    pub ctrl_held: bool,
    /// Peek mode, toggled by clicking the indicator.
    pub peek_toggled: bool,
    /// The password was cleared and the renderer has not been told yet.
    pub cleared_feedback_pending: bool,
}

/// What the renderer is to show in place of the password.
#[derive(Clone, Copy, Debug, PartialEq, Eq, Structural)]
pub enum PasswordDisplay {
    /// Leave the password display as it is (the password is hidden).
    Unchanged,
    /// Show the password itself.
    Peek,
    /// Show one dot per character.
    Dots(usize),
}

/// What happened outside the surface since the last frame.
#[derive(Clone, Copy, Debug, PartialEq, Eq, Structural)]
pub struct FrameInputs {
    /// The fade-in animation changed the alpha this frame.
    pub fade_changed: bool,
    /// The fade-in animation has not reached full opacity.
    pub fade_running: bool,
    /// The Caps Lock state the renderer shows.
    pub renderer_caps_lock: bool,
    /// The renderer has a feedback animation in flight.
    pub renderer_animating: bool,
    /// The current time, in seconds since the Unix epoch.
    pub unix_seconds: i64,
}

/// What to do to the renderer this frame.
#[derive(Clone, Copy, Debug, PartialEq, Eq, Structural)]
pub struct FramePlan {
    pub show_wrong_password: bool,
    pub show_key_highlight: bool,
    /// The Caps Lock state to give the renderer, if it changed.
    pub caps_lock: Option<bool>,
    /// Hand the background image to the renderer.
    pub apply_background: bool,
    /// Draw (and commit) a frame.
    pub render: bool,
    pub display: PasswordDisplay,
    /// The cursor position to draw.
    pub cursor: usize,
}

pub open spec fn idle_plan() -> FramePlan {
    FramePlan {
        show_wrong_password: false,
        show_key_highlight: false,
        caps_lock: None,
        apply_background: false,
        render: false,
        display: PasswordDisplay::Unchanged,
        cursor: 0,
    }

}

/// The unix minute of a time in seconds (rounded towards negative infinity).
pub open spec fn minute_of(seconds: int) -> int {
    seconds / 60
}

/// The feedback stage of a frame: the wrong-password and key-highlight
/// flags follow what the input side wants shown; newly shown feedback is
/// handed to the renderer and asks for a redraw.
#[verifier::opaque]
pub open spec fn feedback_stage(
    f: SurfaceFlags,
    wrong_visible: bool,
    highlight_visible: bool,
) -> (SurfaceFlags, bool, bool) {
    let show_wrong = wrong_visible && !f.wrong_password_shown;
    let f2 = if show_wrong {
        SurfaceFlags { wrong_password_shown: true, dirty: true, ..f }
    } else if !wrong_visible && f.wrong_password_shown {
        SurfaceFlags { wrong_password_shown: false, ..f }
    } else {
        f
    };
    let show_highlight = highlight_visible && !f2.key_highlight_shown;
    let f3 = if show_highlight {
        SurfaceFlags { key_highlight_shown: true, dirty: true, ..f2 }
    } else if !highlight_visible && f2.key_highlight_shown {
        SurfaceFlags { key_highlight_shown: false, ..f2 }
    } else {
        f2
    };
    (f3, show_wrong, show_highlight)
}

/// The sync stage of a frame: a Caps Lock state that differs from the
/// renderer's is handed on, a background not yet applied is applied, and a
/// new clock minute (when the clock is shown) is noted; each asks for a
/// redraw.
#[verifier::opaque]
pub open spec fn sync_stage(
    f: SurfaceFlags,
    settings: SurfaceSettings,
    caps: bool,
    inputs: FrameInputs,
) -> (SurfaceFlags, Option<bool>, bool) {
    let caps_changed = inputs.renderer_caps_lock != caps;
    let f4 = if caps_changed {
        SurfaceFlags { dirty: true, ..f }
    } else {
        f
    };
    let apply_background = !f4.background_applied && f4.has_background;
    let f5 = if apply_background {
        SurfaceFlags { background_applied: true, dirty: true, ..f4 }
    } else {
        f4
    };
    let minute = minute_of(inputs.unix_seconds as int);
    let f6 = if settings.clock && f5.last_minute != minute {
        SurfaceFlags { last_minute: minute as i64, dirty: true, ..f5 }
    } else {
        f5
    };
    (
        f6,
        if caps_changed {
            Some(caps)
        } else {
            None
        },
        apply_background,
    )
}

/// The last stage of a frame: a frame is drawn when anything asked for a
/// redraw or an animation runs; drawing shows the password (peek mode) or
/// one dot per character, unless the password is hidden, and settles the
/// redraw request.
#[verifier::opaque]
pub open spec fn render_stage(
    f: SurfaceFlags,
    hide_password: bool,
    animating: bool,
    length: usize,
    cursor: usize,
    show_wrong: bool,
    show_highlight: bool,
    caps_lock: Option<bool>,
    apply_background: bool,
) -> (SurfaceFlags, FramePlan) {
    let render = f.dirty || animating;
    let display = if !render || hide_password {
        PasswordDisplay::Unchanged
    } else if f.ctrl_held || f.peek_toggled {
        PasswordDisplay::Peek
    } else {
        PasswordDisplay::Dots(length)
    };
    (
        if render {
            SurfaceFlags { dirty: false, ..f }
        } else {
            f
        },
        FramePlan {
            show_wrong_password: show_wrong,
            show_key_highlight: show_highlight,
            caps_lock,
            apply_background,
            render,
            display,
            cursor: if render {
                cursor
            } else {
                0
            },
        },
    )
}

/// One frame of a configured surface: a fade-in step asks for a redraw,
/// then the feedback, sync and render stages run.
#[verifier::opaque]
pub open spec fn frame_step(
    f0: SurfaceFlags,
    settings: SurfaceSettings,
    input: InputHandler,
    wrong_visible: bool,
    highlight_visible: bool,
    inputs: FrameInputs,
) -> (SurfaceFlags, FramePlan) {
    let f1 = SurfaceFlags { dirty: f0.dirty || inputs.fade_changed, ..f0 };
    let fb = feedback_stage(f1, wrong_visible, highlight_visible);
    let sy = sync_stage(fb.0, settings, input.caps(), inputs);
    render_stage(
        sy.0,
        settings.hide_password,
        inputs.fade_running || inputs.renderer_animating,
        input.buffer().len() as usize,
        input.cursor() as usize,
        fb.1,
        fb.2,
        sy.1,
        sy.2,
    )
}

proof fn lemma_frame_step(
    f0: SurfaceFlags,
    settings: SurfaceSettings,
    input: InputHandler,
    wrong_visible: bool,
    highlight_visible: bool,
    inputs: FrameInputs,
)
    ensures
        ({
            let f1 = SurfaceFlags { dirty: f0.dirty || inputs.fade_changed, ..f0 };
            let fb = feedback_stage(f1, wrong_visible, highlight_visible);
            let sy = sync_stage(fb.0, settings, input.caps(), inputs);
            frame_step(f0, settings, input, wrong_visible, highlight_visible, inputs) == render_stage(
                sy.0,
                settings.hide_password,
                inputs.fade_running || inputs.renderer_animating,
                input.buffer().len() as usize,
                input.cursor() as usize,
                fb.1,
                fb.2,
                sy.1,
                sy.2,
            )
        }),
{
    reveal(frame_step);
}

/// The password display of a drawn frame: left as it is when the password
/// is hidden, the password itself while Ctrl is held or peek mode is on,
/// else one dot per character.
pub open spec fn drawn_display(
    f: SurfaceFlags,
    settings: SurfaceSettings,
    input: InputHandler,
) -> PasswordDisplay {
    if settings.hide_password {
        PasswordDisplay::Unchanged
    } else if f.ctrl_held || f.peek_toggled {
        PasswordDisplay::Peek
    } else {
        PasswordDisplay::Dots(input.buffer().len() as usize)
    }
}

/// A pending redraw is drawn: once something asked for a redraw (a key, a
/// background, a resize, peek, feedback, a changed Ctrl or status: each of
/// these leaves `dirty` set), the next frame draws whatever the feedback
/// timers say, shows the password as `drawn_display` says and the prompt's
/// cursor, and settles the request.
pub proof fn lemma_pending_redraw_draws(
    f0: SurfaceFlags,
    settings: SurfaceSettings,
    input: InputHandler,
    wrong_visible: bool,
    highlight_visible: bool,
    inputs: FrameInputs,
)
    requires
        f0.dirty,
    ensures
        ({
            let (f1, plan) = frame_step(f0, settings, input, wrong_visible, highlight_visible, inputs);
            &&& plan.render
            &&& plan.display == drawn_display(f0, settings, input)
            &&& plan.cursor == input.cursor() as usize
            &&& !f1.dirty
            &&& f1.ctrl_held == f0.ctrl_held
            &&& f1.peek_toggled == f0.peek_toggled
        }),
{
    reveal(frame_step);
    reveal(feedback_stage);
    reveal(sync_stage);
    reveal(render_stage);
}

/// Feedback that the prompt wants shown and the surface is not yet showing
/// is handed to the renderer in that very frame, which is then drawn;
/// feedback already shown is not handed on again; and afterwards the
/// surface shows exactly what the prompt wants shown.
pub proof fn lemma_frame_feedback(
    f0: SurfaceFlags,
    settings: SurfaceSettings,
    input: InputHandler,
    wrong_visible: bool,
    highlight_visible: bool,
    inputs: FrameInputs,
)
    ensures
        ({
            let (f1, plan) = frame_step(f0, settings, input, wrong_visible, highlight_visible, inputs);
            &&& plan.show_wrong_password == (wrong_visible && !f0.wrong_password_shown)
            &&& plan.show_key_highlight == (highlight_visible && !f0.key_highlight_shown)
            &&& f1.wrong_password_shown == wrong_visible
            &&& f1.key_highlight_shown == highlight_visible
            &&& (plan.show_wrong_password || plan.show_key_highlight) ==> plan.render
        }),
{
    reveal(frame_step);
    reveal(feedback_stage);
    reveal(sync_stage);
    reveal(render_stage);
}

/// An idle surface draws nothing: with no pending redraw, no fade-in step
/// or animation, no feedback newly shown, the renderer's Caps Lock state
/// current, no background left to apply and (when the clock is shown) the
/// same clock minute, a frame leaves the flags as they were and asks the
/// renderer for nothing.
pub proof fn lemma_idle_frame_draws_nothing(
    f0: SurfaceFlags,
    settings: SurfaceSettings,
    input: InputHandler,
    wrong_visible: bool,
    highlight_visible: bool,
    inputs: FrameInputs,
)
    requires
        !f0.dirty,
        !inputs.fade_changed,
        !inputs.fade_running,
        !inputs.renderer_animating,
        wrong_visible ==> f0.wrong_password_shown,
        highlight_visible ==> f0.key_highlight_shown,
        inputs.renderer_caps_lock == input.caps(),
        f0.background_applied || !f0.has_background,
        settings.clock ==> f0.last_minute == minute_of(inputs.unix_seconds as int),
    ensures
        !frame_step(f0, settings, input, wrong_visible, highlight_visible, inputs).1.render,
        frame_step(f0, settings, input, wrong_visible, highlight_visible, inputs).1 == idle_plan(),
        frame_step(f0, settings, input, wrong_visible, highlight_visible, inputs).0 == (SurfaceFlags {
            wrong_password_shown: wrong_visible,
            key_highlight_shown: highlight_visible,
            ..f0
        }),
{
    reveal(frame_step);
    reveal(feedback_stage);
    reveal(sync_stage);
    reveal(render_stage);
}

/// Whether an outcome starts the key highlight.
pub open spec fn highlights(out: Outcome) -> bool {
    out is PasswordChanged || out is SubmitPassword
}

/// A key event delivered to one surface: the surface's prompt handles it
/// (or drops it during its cooldown), a redraw is requested, the key
/// highlight restarts on typing and submitting, and clearing asks for the
/// cleared feedback.
pub open spec fn surface_key_step(
    s0: LockedSurface,
    s1: LockedSurface,
    key: Key,
    text: Option<Seq<char>>,
    mods: Modifiers,
    out: Outcome,
) -> bool {
    let f0 = s0.flags();
    &&& s1.wf()
    &&& s1.settings() == s0.settings()
    &&& s1.flags() == (SurfaceFlags {
        ctrl_held: mods.ctrl,
        dirty: true,
        key_highlight_shown: if highlights(out) {
            false
        } else {
            f0.key_highlight_shown
        },
        cleared_feedback_pending: f0.cleared_feedback_pending || out is PasswordCleared,
        ..f0
    })
    &&& (out is NoAction && s1.input().edit_state() == s0.input().edit_state()) || (
    s1.input().edit_state(), out) == edit_step(s0.input().edit_state(), key, text, mods)
    &&& !s0.input().failure_recorded() ==> (s1.input().edit_state(), out) == edit_step(
        s0.input().edit_state(),
        key,
        text,
        mods,
    )
    &&& s1.input().settings() == s0.input().settings()
    &&& s1.input().wrong_password_armed() == s0.input().wrong_password_armed()
    &&& s1.input().failure_recorded() == s0.input().failure_recorded()
    &&& s1.input().key_highlight_armed() == (s0.input().key_highlight_armed() || highlights(out))
    &&& s1.input().timers().0 == s0.input().timers().0
    &&& s1.input().timers().2 == s0.input().timers().2
    &&& !highlights(out) ==> s1.input().timers().1 == s0.input().timers().1
}

/// Manages the lock screen state for a single output.
pub struct LockedSurface {
    input_handler: InputHandler,
    flags: SurfaceFlags,
    settings: SurfaceSettings,
}

impl LockedSurface {
    pub closed spec fn input(&self) -> InputHandler {
        self.input_handler
    }

    pub closed spec fn flags(&self) -> SurfaceFlags {
        self.flags
    }

    pub closed spec fn settings(&self) -> SurfaceSettings {
        self.settings
    }

    pub open spec fn wf(&self) -> bool {
        &&& self.input().wf()
        &&& self.input().settings() == self.settings().input
    }

    /// The state of a surface just created: nothing shown yet, a redraw due,
    /// no clock minute drawn.
    pub open spec fn fresh_flags() -> SurfaceFlags {
        SurfaceFlags {
            configured: false,
            has_background: false,
            background_applied: false,
            wrong_password_shown: false,
            key_highlight_shown: false,
            dirty: true,
            last_minute: i64::MIN,
            ctrl_held: false,
            peek_toggled: false,
            cleared_feedback_pending: false,
        }
    }

    /// Create the state for an output of the given size; there is none for
    /// an empty size.
    pub fn new(width: i32, height: i32, settings: SurfaceSettings) -> (s: Option<Self>)
        ensures
            s is None <==> (width <= 0 || height <= 0),
            s matches Some(s) ==> {
                &&& s.wf()
                &&& s.settings() == settings
                &&& s.flags() == Self::fresh_flags()
                &&& s.input().buffer() == Seq::<u8>::empty()
                &&& s.input().cursor() == 0
                &&& !s.input().caps()
                &&& !s.input().wrong_password_armed()
                &&& !s.input().key_highlight_armed()
                &&& !s.input().failure_recorded()
            },
    {
        if width <= 0 || height <= 0 {
            return None;
        }
        Some(LockedSurface {
            input_handler: InputHandler::new(settings.input),
            flags: SurfaceFlags {
                configured: false,
                has_background: false,
                background_applied: false,
                wrong_password_shown: false,
                key_highlight_shown: false,
                dirty: true,
                last_minute: i64::MIN,
                ctrl_held: false,
                peek_toggled: false,
                cleared_feedback_pending: false,
            },
            settings,
        })
    }

    /// The password prompt of this surface.
    pub fn input_handler(&self) -> (h: &InputHandler)
        ensures
            *h == self.input(),
    {
        &self.input_handler
    }

    pub fn flags_now(&self) -> (f: SurfaceFlags)
        ensures
            f == self.flags(),
    {
        self.flags
    }

    /// Mark the surface configured; a redraw is due.
    pub fn set_configured(&mut self)
        requires
            old(self).wf(),
        ensures
            final(self).wf(),
            final(self).input() == old(self).input(),
            final(self).settings() == old(self).settings(),
            final(self).flags() == (SurfaceFlags { configured: true, dirty: true, ..old(self).flags() }),
    {
        self.flags.configured = true;
        self.flags.dirty = true;
    }

    /// A new size from the compositor. An empty size is ignored (`false`);
    /// otherwise the renderer is to be resized (`true`), the background
    /// handed on again and a redraw is due.
    pub fn resize(&mut self, width: i32, height: i32) -> (accepted: bool)
        requires
            old(self).wf(),
        ensures
            final(self).wf(),
            accepted == (width > 0 && height > 0),
            final(self).input() == old(self).input(),
            final(self).settings() == old(self).settings(),
            final(self).flags() == (if accepted {
                (SurfaceFlags { background_applied: false, dirty: true, ..old(self).flags() })
            } else {
                old(self).flags()
            }),
    {
        if width <= 0 || height <= 0 {
            return false;
        }
        self.flags.background_applied = false;
        self.flags.dirty = true;
        true
    }

    /// A failed authentication: start the wrong-password feedback (and the
    /// input cooldown); it is shown on the next frame.
    pub fn show_wrong_password(&mut self)
        requires
            old(self).wf(),
        ensures
            final(self).wf(),
            final(self).settings() == old(self).settings(),
            final(self).flags() == (SurfaceFlags {
                wrong_password_shown: false,
                dirty: true,
                ..old(self).flags()
            }),
            final(self).input().edit_state() == old(self).input().edit_state(),
            final(self).input().settings() == old(self).input().settings(),
            final(self).input().wrong_password_armed(),
            final(self).input().failure_recorded(),
            final(self).input().key_highlight_armed() == old(self).input().key_highlight_armed(),
    {
        self.input_handler.set_wrong_password_feedback();
        self.flags.wrong_password_shown = false;
        self.flags.dirty = true;
    }

    /// Authentication started: a redraw is due.
    pub fn show_verifying(&mut self)
        requires
            old(self).wf(),
        ensures
            final(self).wf(),
            final(self).input() == old(self).input(),
            final(self).settings() == old(self).settings(),
            final(self).flags() == (SurfaceFlags { dirty: true, ..old(self).flags() }),
    {
        self.flags.dirty = true;
    }

    /// Deliver a key event to this surface's password prompt.
    pub fn handle_key_event(&mut self, key: Key, utf8: Option<String>, mods: Modifiers) -> (action:
        Option<InputAction>)
        requires
            old(self).wf(),
        ensures
            (action matches Some(a) && surface_key_step(
                *old(self),
                *final(self),
                key,
                text_of(utf8),
                mods,
                a@,
            )),
    {
        self.flags.ctrl_held = mods.ctrl;
        let action = self.input_handler.handle_key_event(key, utf8, mods);
        self.flags.dirty = true;
        match action {
            InputAction::PasswordChanged => {
                self.input_handler.set_key_highlight();
                self.flags.key_highlight_shown = false;
            },
            InputAction::PasswordCleared => {
                self.flags.cleared_feedback_pending = true;
            },
            InputAction::SubmitPassword(_) => {
                self.input_handler.set_key_highlight();
                self.flags.key_highlight_shown = false;
            },
            _ => {},
        }
        Some(action)
    }

    /// Whether the renderer is owed the cleared-password feedback; asking
    /// settles the debt.
    pub fn take_cleared_feedback(&mut self) -> (pending: bool)
        requires
            old(self).wf(),
        ensures
            final(self).wf(),
            pending == old(self).flags().cleared_feedback_pending,
            final(self).input() == old(self).input(),
            final(self).settings() == old(self).settings(),
            final(self).flags() == (SurfaceFlags {
                cleared_feedback_pending: false,
                ..old(self).flags()
            }),
    {
        let pending = self.flags.cleared_feedback_pending;
        self.flags.cleared_feedback_pending = false;
        pending
    }

    /// A background image was handed to the surface; it goes to the
    /// renderer on the next frame.
    pub fn set_background(&mut self)
        requires
            old(self).wf(),
        ensures
            final(self).wf(),
            final(self).input() == old(self).input(),
            final(self).settings() == old(self).settings(),
            final(self).flags() == (SurfaceFlags {
                has_background: true,
                background_applied: false,
                dirty: true,
                ..old(self).flags()
            }),
    {
        self.flags.has_background = true;
        self.flags.background_applied = false;
        self.flags.dirty = true;
    }

    /// The system status was set; a redraw is due only if it changed.
    pub fn set_system_status(&mut self, changed: bool)
        requires
            old(self).wf(),
        ensures
            final(self).wf(),
            final(self).input() == old(self).input(),
            final(self).settings() == old(self).settings(),
            final(self).flags() == (SurfaceFlags {
                dirty: old(self).flags().dirty || changed,
                ..old(self).flags()
            }),
    {
        if changed {
            self.flags.dirty = true;
        }
    }

    /// Ctrl pressed or released; a redraw is due only on a change.
    pub fn set_ctrl_held(&mut self, held: bool)
        requires
            old(self).wf(),
        ensures
            final(self).wf(),
            final(self).input() == old(self).input(),
            final(self).settings() == old(self).settings(),
            final(self).flags() == (SurfaceFlags {
                ctrl_held: held,
                dirty: old(self).flags().dirty || old(self).flags().ctrl_held != held,
                ..old(self).flags()
            }),
    {
        if self.flags.ctrl_held != held {
            self.flags.ctrl_held = held;
            self.flags.dirty = true;
        }
    }

    /// Toggle peek mode on/off. Persists until toggled again.
    pub fn toggle_peek(&mut self)
        requires
            old(self).wf(),
        ensures
            final(self).wf(),
            final(self).input() == old(self).input(),
            final(self).settings() == old(self).settings(),
            final(self).flags() == (SurfaceFlags {
                peek_toggled: !old(self).flags().peek_toggled,
                dirty: true,
                ..old(self).flags()
            }),
    {
        self.flags.peek_toggled = !self.flags.peek_toggled;
        self.flags.dirty = true;
    }

    /// Plan one frame. An unconfigured surface draws nothing. Otherwise the
    /// feedback flags follow whatever the input side's timers say now, and
    /// the rest is `frame_step`.
    pub fn update(&mut self, inputs: FrameInputs) -> (plan: FramePlan)
        requires
            old(self).wf(),
        ensures
            final(self).wf(),
            final(self).input() == old(self).input(),
            final(self).settings() == old(self).settings(),
            !old(self).flags().configured ==> plan == idle_plan() && final(self).flags() == old(self).flags(),
            old(self).flags().configured ==> exists|wrong: bool, highlight: bool|
                {
                    &&& (wrong ==> old(self).input().wrong_password_armed())
                    &&& (highlight ==> old(self).input().key_highlight_armed())
                    &&& (final(self).flags(), plan) == frame_step(
                        old(self).flags(),
                        old(self).settings(),
                        old(self).input(),
                        wrong,
                        highlight,
                        inputs,
                    )
                },
    {
        if !self.flags.configured {
            return FramePlan {
                show_wrong_password: false,
                show_key_highlight: false,
                caps_lock: None,
                apply_background: false,
                render: false,
                display: PasswordDisplay::Unchanged,
                cursor: 0,
            };
        }
        let wrong = self.input_handler.should_show_wrong_password();
        let highlight = self.input_handler.should_show_key_highlight();
        self.plan_frame(wrong, highlight, inputs)
    }

    /// Plan one frame of a configured surface given whether the input side
    /// wants wrong-password and key-highlight feedback shown.
    #[verifier::rlimit(100)]
    pub fn plan_frame(&mut self, wrong_visible: bool, highlight_visible: bool, inputs: FrameInputs) -> (plan:
        FramePlan)
        requires
            old(self).wf(),
        ensures
            final(self).wf(),
            final(self).input() == old(self).input(),
            final(self).settings() == old(self).settings(),
            (final(self).flags(), plan) == frame_step(
                old(self).flags(),
                old(self).settings(),
                old(self).input(),
                wrong_visible,
                highlight_visible,
                inputs,
            ),
    {
        if inputs.fade_changed {
            self.flags.dirty = true;
        }
        let ghost f1 = self.flags;
        assert(f1 == (SurfaceFlags { dirty: old(self).flags.dirty || inputs.fade_changed, ..old(self).flags }));
        let (show_wrong, show_highlight) = self.feedback(wrong_visible, highlight_visible);
        let ghost f3 = self.flags;
        assert((f3, show_wrong, show_highlight) == feedback_stage(f1, wrong_visible, highlight_visible));
        let (caps_lock, apply_background) = self.sync(inputs);
        assert((self.flags, caps_lock, apply_background) == sync_stage(f3, self.settings, self.input_handler.caps(), inputs));
        let length = self.input_handler.password_length();
        let cursor = self.input_handler.cursor_position();
        let animating = inputs.fade_running || inputs.renderer_animating;
        let ghost input = old(self).input();
        assert(length == input.buffer().len() as usize);
        assert(cursor == input.cursor() as usize);
        let ghost f6 = self.flags;
        proof {
            let fb = feedback_stage(f1, wrong_visible, highlight_visible);
            assert(fb == (f3, show_wrong, show_highlight));
            let sy = sync_stage(fb.0, old(self).settings, input.caps(), inputs);
            assert(sy == (f6, caps_lock, apply_background));
            lemma_frame_step(old(self).flags, old(self).settings, input, wrong_visible, highlight_visible, inputs);
        }
        let plan = self.finish(animating, length, cursor, show_wrong, show_highlight, caps_lock, apply_background);
        assert((self.flags, plan) == render_stage(
            f6,
            old(self).settings.hide_password,
            animating,
            length,
            cursor,
            show_wrong,
            show_highlight,
            caps_lock,
            apply_background,
        ));
        plan
    }

    fn finish(
        &mut self,
        animating: bool,
        length: usize,
        cursor: usize,
        show_wrong: bool,
        show_highlight: bool,
        caps_lock: Option<bool>,
        apply_background: bool,
    ) -> (plan: FramePlan)
        requires
            old(self).wf(),
        ensures
            final(self).wf(),
            final(self).input() == old(self).input(),
            final(self).settings() == old(self).settings(),
            (final(self).flags(), plan) == render_stage(
                old(self).flags(),
                old(self).settings().hide_password,
                animating,
                length,
                cursor,
                show_wrong,
                show_highlight,
                caps_lock,
                apply_background,
            ),
    {
        reveal(render_stage);
        if !self.flags.dirty && !animating {
            return FramePlan {
                show_wrong_password: show_wrong,
                show_key_highlight: show_highlight,
                caps_lock,
                apply_background,
                render: false,
                display: PasswordDisplay::Unchanged,
                cursor: 0,
            };
        }
        let display = if self.settings.hide_password {
            PasswordDisplay::Unchanged
        } else if self.flags.ctrl_held || self.flags.peek_toggled {
            PasswordDisplay::Peek
        } else {
            PasswordDisplay::Dots(length)
        };
        self.flags.dirty = false;
        FramePlan {
            show_wrong_password: show_wrong,
            show_key_highlight: show_highlight,
            caps_lock,
            apply_background,
            render: true,
            display,
            cursor,
        }
    }

    fn feedback(&mut self, wrong_visible: bool, highlight_visible: bool) -> (shown: (bool, bool))
        requires
            old(self).wf(),
        ensures
            final(self).wf(),
            final(self).input() == old(self).input(),
            final(self).settings() == old(self).settings(),
            (final(self).flags(), shown.0, shown.1) == feedback_stage(
                old(self).flags(),
                wrong_visible,
                highlight_visible,
            ),
    {
        reveal(feedback_stage);
        let mut show_wrong = false;
        if wrong_visible && !self.flags.wrong_password_shown {
            show_wrong = true;
            self.flags.wrong_password_shown = true;
            self.flags.dirty = true;
        } else if !wrong_visible && self.flags.wrong_password_shown {
            self.flags.wrong_password_shown = false;
        }
        let mut show_highlight = false;
        if highlight_visible && !self.flags.key_highlight_shown {
            show_highlight = true;
            self.flags.key_highlight_shown = true;
            self.flags.dirty = true;
        } else if !highlight_visible && self.flags.key_highlight_shown {
            self.flags.key_highlight_shown = false;
        }
        (show_wrong, show_highlight)
    }

    fn sync(&mut self, inputs: FrameInputs) -> (synced: (Option<bool>, bool))
        requires
            old(self).wf(),
        ensures
            final(self).wf(),
            final(self).input() == old(self).input(),
            final(self).settings() == old(self).settings(),
            (final(self).flags(), synced.0, synced.1) == sync_stage(
                old(self).flags(),
                old(self).settings(),
                old(self).input().caps(),
                inputs,
            ),
    {
        reveal(sync_stage);
        let caps = self.input_handler.caps_lock();
        let mut caps_lock = None;
        if inputs.renderer_caps_lock != caps {
            caps_lock = Some(caps);
            self.flags.dirty = true;
        }
        let mut apply_background = false;
        if !self.flags.background_applied && self.flags.has_background {
            apply_background = true;
            self.flags.background_applied = true;
            self.flags.dirty = true;
        }
        if self.settings.clock {
            let minute = unix_minute(inputs.unix_seconds);
            if self.flags.last_minute != minute {
                self.flags.last_minute = minute;
                self.flags.dirty = true;
            }
        }
        (caps_lock, apply_background)
    }
}

/// The unix minute of a time in seconds, as `i64::div_euclid(60)` computes it.
pub fn unix_minute(seconds: i64) -> (minute: i64)
    ensures
        minute == minute_of(seconds as int),
{
    match seconds.checked_div_euclid(60) {
        Some(m) => m,
        None => {
            assert(false);
            0
        },
    }
}

/// A submission that carries a password (an empty one is ignored).
pub open spec fn is_real_submit(out: Outcome) -> bool {
    out matches Outcome::SubmitPassword(p) && p.len() > 0
}

/// The last outcome that is not a submission, if any.
pub open spec fn last_plain(outs: Seq<Outcome>) -> Option<Outcome>
    decreases outs.len(),
{
    if outs.len() == 0 {
        None
    } else if outs.last() is SubmitPassword {
        last_plain(outs.drop_last())
    } else {
        Some(outs.last())
    }
}

pub open spec fn action_view(action: Option<InputAction>) -> Option<Outcome> {
    match action {
        Some(a) => Some(a@),
        None => None,
    }
}

/// A key event delivered in order to surfaces `s0`, giving `s1`: the first
/// `outs.len()` surfaces saw the key with these outcomes, the rest did not;
/// the round stops early only at a non-empty submission, which is the
/// answer; otherwise the answer is the last outcome that is not a
/// submission.
pub open spec fn key_round(
    s0: Seq<LockedSurface>,
    s1: Seq<LockedSurface>,
    key: Key,
    text: Option<Seq<char>>,
    mods: Modifiers,
    outs: Seq<Outcome>,
    answer: Option<Outcome>,
) -> bool {
    let k = outs.len() as int;
    &&& k <= s0.len()
    &&& s1.len() == s0.len()
    &&& forall|j: int| 0 <= j < k ==> surface_key_step(s0[j], #[trigger] s1[j], key, text, mods, outs[j])
    &&& forall|j: int| k <= j < s0.len() ==> #[trigger] s1[j] == s0[j]
    &&& forall|j: int| 0 <= j < k - 1 ==> !is_real_submit(#[trigger] outs[j])
    &&& if k > 0 && is_real_submit(outs[k - 1]) {
        answer == Some(outs[k - 1])
    } else {
        k == s0.len() && answer == last_plain(outs)
    }
}

/// The lock screen states of all outputs.
pub struct LockManager {
    surfaces: Vec<LockedSurface>,
    settings: SurfaceSettings,
}

impl LockManager {
    pub closed spec fn surfaces(&self) -> Seq<LockedSurface> {
        self.surfaces@
    }

    pub closed spec fn settings(&self) -> SurfaceSettings {
        self.settings
    }

    pub open spec fn wf(&self) -> bool {
        forall|i: int| 0 <= i < self.surfaces().len() ==> #[trigger] self.surfaces()[i].wf()
    }

    pub fn new(settings: SurfaceSettings) -> (m: Self)
        ensures
            m.wf(),
            m.surfaces() == Seq::<LockedSurface>::empty(),
            m.settings() == settings,
    {
        LockManager { surfaces: Vec::new(), settings }
    }

    /// Add the state for a new output; an empty size adds nothing and
    /// answers `false`.
    pub fn add_surface(&mut self, width: i32, height: i32) -> (added: bool)
        requires
            old(self).wf(),
        ensures
            final(self).wf(),
            final(self).settings() == old(self).settings(),
            added == (width > 0 && height > 0),
            !added ==> final(self).surfaces() == old(self).surfaces(),
            added ==> {
                &&& final(self).surfaces().len() == old(self).surfaces().len() + 1
                &&& final(self).surfaces().drop_last() == old(self).surfaces()
                &&& final(self).surfaces().last().flags() == LockedSurface::fresh_flags()
                &&& final(self).surfaces().last().settings() == old(self).settings()
                &&& final(self).surfaces().last().input().buffer() == Seq::<u8>::empty()
                &&& final(self).surfaces().last().input().cursor() == 0
            },
    {
        match LockedSurface::new(width, height, self.settings) {
            Some(surface) => {
                let ghost added = surface;
                self.surfaces.push(surface);
                assert(self.surfaces@.drop_last() =~= old(self).surfaces@);
                assert forall|i: int| 0 <= i < self.surfaces@.len() implies #[trigger] self.surfaces@[i].wf() by {
                    if i < old(self).surfaces@.len() {
                        assert(old(self).surfaces()[i].wf());
                        assert(self.surfaces@[i] == old(self).surfaces@[i]);
                    } else {
                        assert(added.wf());
                        assert(self.surfaces@[i] == added);
                    }
                }
                true
            },
            None => false,
        }
    }

    pub fn surface_count(&self) -> (n: usize)
        ensures
            n == self.surfaces().len(),
    {
        self.surfaces.len()
    }

    /// The state of the output at `index`.
    pub fn surface(&self, index: usize) -> (s: &LockedSurface)
        requires
            index < self.surfaces().len(),
        ensures
            *s == self.surfaces()[index as int],
    {
        &self.surfaces[index]
    }

    /// The state of the output at `index`, to change in place; there is
    /// none past the end. The manager stays well formed as long as the
    /// surface does.
    pub fn get_surface_mut(&mut self, index: usize) -> (s: Option<&mut LockedSurface>)
        requires
            old(self).wf(),
        ensures
            s is None <==> index >= old(self).surfaces().len(),
            s is None ==> *final(self) == *old(self),
            s matches Some(r) ==> {
                &&& *r == old(self).surfaces()[index as int]
                &&& final(self).surfaces() == old(self).surfaces().update(index as int, *final(r))
                &&& final(self).settings() == old(self).settings()
            },
    {
        if index < self.surfaces.len() {
            Some(&mut self.surfaces[index])
        } else {
            None
        }
    }

    /// The index of the first surface whose output has the id `output`,
    /// given the output ids of the surfaces in order; `None` when no surface
    /// shows that output.
    pub fn output_index(output_ids: &[u32], output: u32) -> (found: Option<usize>)
        ensures
            found matches Some(i) ==> i < output_ids@.len() && output_ids@[i as int] == output
                && forall|j: int| 0 <= j < i ==> output_ids@[j] != output,
            found is None ==> forall|j: int|
                0 <= j < output_ids@.len() ==> output_ids@[j] != output,
    {
        let mut i: usize = 0;
        while i < output_ids.len()
            invariant
                i <= output_ids@.len(),
                forall|j: int| 0 <= j < i ==> output_ids@[j] != output,
            decreases output_ids@.len() - i,
        {
            if output_ids[i] == output {
                return Some(i);
            }
            i = i + 1;
        }
        None
    }

    /// Remove the state of the output at `index`; the others keep their
    /// order.
    pub fn remove_surface(&mut self, index: usize)
        requires
            old(self).wf(),
            index < old(self).surfaces().len(),
        ensures
            final(self).wf(),
            final(self).settings() == old(self).settings(),
            final(self).surfaces() == old(self).surfaces().remove(index as int),
    {
        self.surfaces.remove(index);
        assert forall|i: int| 0 <= i < self.surfaces@.len() implies #[trigger] self.surfaces@[i].wf() by {
            if i < index {
                assert(self.surfaces@[i] == old(self).surfaces@[i]);
            } else {
                assert(self.surfaces@[i] == old(self).surfaces@[i + 1]);
            }
        }
    }

    /// Deliver a key event to the surfaces in order. The first surface that
    /// submits a non-empty password ends the round: that submission is the
    /// answer and the later surfaces do not see the key. Otherwise every
    /// surface sees the key and the answer is the last outcome that is not
    /// a submission.
    pub fn handle_key_event(&mut self, key: Key, utf8: Option<String>, mods: Modifiers) -> (action:
        Option<InputAction>)
        requires
            old(self).wf(),
        ensures
            final(self).wf(),
            final(self).settings() == old(self).settings(),
            final(self).surfaces().len() == old(self).surfaces().len(),
            exists|outs: Seq<Outcome>|
                #[trigger] key_round(
                    old(self).surfaces(),
                    final(self).surfaces(),
                    key,
                    text_of(utf8),
                    mods,
                    outs,
                    action_view(action),
                ),
    {
        let n = self.surfaces.len();
        let mut action: Option<InputAction> = None;
        let ghost mut outs: Seq<Outcome> = Seq::empty();
        let mut i: usize = 0;
        while i < n
            invariant
                n == old(self).surfaces().len(),
                self.surfaces@.len() == n,
                self.settings == old(self).settings,
                0 <= i <= n,
                outs.len() == i,
                forall|j: int| 0 <= j < n ==> #[trigger] self.surfaces@[j].wf(),
                forall|j: int|
                    0 <= j < i ==> surface_key_step(
                        old(self).surfaces()[j],
                        #[trigger] self.surfaces@[j],
                        key,
                        text_of(utf8),
                        mods,
                        outs[j],
                    ),
                forall|j: int| i <= j < n ==> #[trigger] self.surfaces@[j] == old(self).surfaces()[j],
                forall|j: int| 0 <= j < i ==> !is_real_submit(#[trigger] outs[j]),
                action_view(action) == last_plain(outs),
            decreases n - i,
        {
            let text = match &utf8 {
                Some(t) => Some(t.clone()),
                None => None,
            };
            let ghost before = self.surfaces@;
            let a = self.surfaces[i].handle_key_event(key, text, mods);
            proof {
                assert(self.surfaces@ == before.update(i as int, self.surfaces@[i as int]));
            }
            match a {
                Some(a) => {
                    let ghost prev = outs;
                    proof {
                        outs = outs.push(a@);
                        assert(outs.drop_last() =~= prev);
                    }
                    let real_submit = match &a {
                        InputAction::SubmitPassword(p) => secret_len(p) > 0,
                        _ => false,
                    };
                    let is_submit = match &a {
                        InputAction::SubmitPassword(_) => true,
                        _ => false,
                    };
                    if real_submit {
                        proof {
                            assert(outs[i as int] == a@);
                            assert(key_round(
                                old(self).surfaces(),
                                self.surfaces@,
                                key,
                                text_of(utf8),
                                mods,
                                outs,
                                Some(a@),
                            ));
                        }
                        return Some(a);
                    }
                    if !is_submit {
                        action = Some(a);
                    }
                },
                None => {},
            }
            i = i + 1;
        }
        assert(key_round(
            old(self).surfaces(),
            self.surfaces@,
            key,
            text_of(utf8),
            mods,
            outs,
            action_view(action),
        ));
        action
    }

    /// Ctrl pressed or released, on every surface.
    pub fn set_ctrl_held(&mut self, held: bool)
        requires
            old(self).wf(),
        ensures
            final(self).wf(),
            final(self).settings() == old(self).settings(),
            final(self).surfaces().len() == old(self).surfaces().len(),
            forall|j: int|
                0 <= j < old(self).surfaces().len() ==> {
                    let s0 = old(self).surfaces()[j];
                    let s1 = #[trigger] final(self).surfaces()[j];
                    &&& s1.input() == s0.input()
                    &&& s1.settings() == s0.settings()
                    &&& s1.flags() == (SurfaceFlags {
                        ctrl_held: held,
                        dirty: s0.flags().dirty || s0.flags().ctrl_held != held,
                        ..s0.flags()
                    })
                },
    {
        let n = self.surfaces.len();
        let mut i: usize = 0;
        while i < n
            invariant
                n == old(self).surfaces().len(),
                self.surfaces@.len() == n,
                self.settings == old(self).settings,
                0 <= i <= n,
                forall|j: int| 0 <= j < n ==> #[trigger] self.surfaces@[j].wf(),
                forall|j: int|
                    0 <= j < i ==> {
                        let s0 = old(self).surfaces()[j];
                        let s1 = #[trigger] self.surfaces@[j];
                        &&& s1.input() == s0.input()
                        &&& s1.settings() == s0.settings()
                        &&& s1.flags() == (SurfaceFlags {
                            ctrl_held: held,
                            dirty: s0.flags().dirty || s0.flags().ctrl_held != held,
                            ..s0.flags()
                        })
                    },
                forall|j: int| i <= j < n ==> #[trigger] self.surfaces@[j] == old(self).surfaces()[j],
            decreases n - i,
        {
            self.surfaces[i].set_ctrl_held(held);
            i = i + 1;
        }
    }

    /// A failed authentication: wrong-password feedback on every surface.
    pub fn show_wrong_password(&mut self)
        requires
            old(self).wf(),
        ensures
            final(self).wf(),
            final(self).settings() == old(self).settings(),
            wrong_password_on_all(old(self).surfaces(), final(self).surfaces()),
    {
        let n = self.surfaces.len();
        let mut i: usize = 0;
        while i < n
            invariant
                n == old(self).surfaces().len(),
                self.surfaces@.len() == n,
                self.settings == old(self).settings,
                0 <= i <= n,
                forall|j: int| 0 <= j < n ==> #[trigger] self.surfaces@[j].wf(),
                forall|j: int|
                    0 <= j < i ==> wrong_password_step(
                        old(self).surfaces()[j],
                        #[trigger] self.surfaces@[j],
                    ),
                forall|j: int| i <= j < n ==> #[trigger] self.surfaces@[j] == old(self).surfaces()[j],
            decreases n - i,
        {
            self.surfaces[i].show_wrong_password();
            i = i + 1;
        }
    }

    /// Authentication started: a redraw on every surface.
    pub fn show_verifying(&mut self)
        requires
            old(self).wf(),
        ensures
            final(self).wf(),
            final(self).settings() == old(self).settings(),
            verifying_on_all(old(self).surfaces(), final(self).surfaces()),
    {
        let n = self.surfaces.len();
        let mut i: usize = 0;
        while i < n
            invariant
                n == old(self).surfaces().len(),
                self.surfaces@.len() == n,
                self.settings == old(self).settings,
                0 <= i <= n,
                forall|j: int| 0 <= j < n ==> #[trigger] self.surfaces@[j].wf(),
                forall|j: int|
                    0 <= j < i ==> verifying_step(old(self).surfaces()[j], #[trigger] self.surfaces@[j]),
                forall|j: int| i <= j < n ==> #[trigger] self.surfaces@[j] == old(self).surfaces()[j],
            decreases n - i,
        {
            self.surfaces[i].show_verifying();
            i = i + 1;
        }
    }
}

/// `show_wrong_password` on one surface.
pub open spec fn wrong_password_step(s0: LockedSurface, s1: LockedSurface) -> bool {
    &&& s1.wf()
    &&& s1.settings() == s0.settings()
    &&& s1.flags() == (SurfaceFlags { wrong_password_shown: false, dirty: true, ..s0.flags() })
    &&& s1.input().edit_state() == s0.input().edit_state()
    &&& s1.input().settings() == s0.input().settings()
    &&& s1.input().wrong_password_armed()
    &&& s1.input().failure_recorded()
    &&& s1.input().key_highlight_armed() == s0.input().key_highlight_armed()
}

/// `show_wrong_password` on every surface.
pub open spec fn wrong_password_on_all(s0: Seq<LockedSurface>, s1: Seq<LockedSurface>) -> bool {
    &&& s1.len() == s0.len()
    &&& forall|j: int| 0 <= j < s0.len() ==> wrong_password_step(s0[j], #[trigger] s1[j])
}

/// `show_verifying` on one surface.
pub open spec fn verifying_step(s0: LockedSurface, s1: LockedSurface) -> bool {
    &&& s1.wf()
    &&& s1.settings() == s0.settings()
    &&& s1.input() == s0.input()
    &&& s1.flags() == (SurfaceFlags { dirty: true, ..s0.flags() })
}

/// `show_verifying` on every surface.
pub open spec fn verifying_on_all(s0: Seq<LockedSurface>, s1: Seq<LockedSurface>) -> bool {
    &&& s1.len() == s0.len()
    &&& forall|j: int| 0 <= j < s0.len() ==> verifying_step(s0[j], #[trigger] s1[j])
}

} // verus!
