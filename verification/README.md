# rustlock

A Wayland screen locker. The crate's library (`src/`) is verified with
Verus: the password prompt, the per-output lock surfaces and what each frame
draws, the session's grace period and authentication requests, the
renderer's feedback timers, configuration parsing, and the pixel work on
captured and decoded images (format conversion, row packing and
pixelation). The blur itself is `fastblur`'s; the library verifies the
packing of pixels into and out of that call, not the blur. `app/` is the
program around it: Wayland, cairo drawing, PAM, D-Bus and the file system.

Layout:

- `src/input.rs` — the password prompt and its editing rules (`edit_step`).
- `src/lock.rs` — lock surfaces, frame planning, key delivery to all outputs.
- `src/session.rs` — session and media keys, grace period, requests and replies.
- `src/feedback.rs` — the renderer's feedback animations.
- `src/auth.rs` — the authenticator's conversation state; `src/secret.rs` — the password kept in `zeroize::Zeroizing`.
- `src/config.rs` — ring shapes, colours, blur option, limits.
- `src/pixels.rs`, `src/effects.rs`, `src/status.rs` — pixel buffers, effects, icons and art.
- `src/system.rs` — backend commands and what the desktop services report.
- `src/clock.rs`, `src/keys.rs`, `src/text.rs` — time, keys and text helpers.
