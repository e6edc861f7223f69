//! Commands for the system backend and the decisions made on what the
//! desktop services report.

use crate::text::{same_text, starts_with_text};
use vstd::prelude::*;

verus! {

/// A request for the system backend.
#[derive(Clone, Copy, Debug, PartialEq, Eq, Structural)]
pub enum BackendCommand {
    PowerOff,
    Reboot,
    Suspend,
    MediaPlayPause,
    MediaStop,
    MediaNext,
    MediaPrev,
}

/// The logind manager method that carries out a power command; media
/// commands have none.
pub open spec fn login1_method_spec(cmd: BackendCommand) -> Option<Seq<char>> {
    match cmd {
        BackendCommand::PowerOff => Some("PowerOff"@),
        BackendCommand::Reboot => Some("Reboot"@),
        BackendCommand::Suspend => Some("Suspend"@),
        _ => None,
    }
}

/// The name of the `org.freedesktop.login1.Manager` method for a power
/// command; media commands go to the media player instead.
pub fn login1_method(cmd: BackendCommand) -> (method: Option<&'static str>)
    ensures
        match method {
            Some(m) => login1_method_spec(cmd) == Some(m@),
            None => login1_method_spec(cmd) is None,
        },
{
    match cmd {
        BackendCommand::PowerOff => Some("PowerOff"),
        BackendCommand::Reboot => Some("Reboot"),
        BackendCommand::Suspend => Some("Suspend"),
        _ => None,
    }
}

/// The media command for an on-screen media button, by the name the
/// renderer gave its hit area.
pub open spec fn button_command_spec(name: Seq<char>) -> Option<BackendCommand> {
    if name == "play_pause"@ {
        Some(BackendCommand::MediaPlayPause)
    } else if name == "stop"@ {
        Some(BackendCommand::MediaStop)
    } else if name == "next"@ {
        Some(BackendCommand::MediaNext)
    } else if name == "prev"@ {
        Some(BackendCommand::MediaPrev)
    } else {
        None
    }
}

pub fn button_command(name: &str) -> (cmd: Option<BackendCommand>)
    ensures
        cmd == button_command_spec(name@),
{
    if same_text(name, "play_pause") {
        Some(BackendCommand::MediaPlayPause)
    } else if same_text(name, "stop") {
        Some(BackendCommand::MediaStop)
    } else if same_text(name, "next") {
        Some(BackendCommand::MediaNext)
    } else if same_text(name, "prev") {
        Some(BackendCommand::MediaPrev)
    } else {
        None
    }
}

/// UPower reports a device state of 1 while it is charging.
pub fn is_charging_state(state: u32) -> (charging: bool)
    ensures
        charging == (state == 1),
{
    state == 1
}

/// NetworkManager's device type for Wi-Fi devices.
pub fn is_wifi_device(device_type: u32) -> (wifi: bool)
    ensures
        wifi == (device_type == 2),
{
    device_type == 2
}

/// Where album art comes from, by its URL.
#[derive(Debug)]
pub enum ArtSource {
    /// A local file, at this path.
    File(String),
    /// Fetched over HTTP(S).
    Remote,
    /// Neither; no art is loaded.
    Unsupported,
}

/// `s` with every leading copy of `prefix` removed (what
/// `str::trim_start_matches` does with a non-empty prefix).
pub open spec fn trim_prefixes(s: Seq<char>, prefix: Seq<char>) -> Seq<char>
    decreases s.len(),
{
    if prefix.len() > 0 && prefix.len() <= s.len() && s.subrange(0, prefix.len() as int) == prefix {
        trim_prefixes(s.subrange(prefix.len() as int, s.len() as int), prefix)
    } else {
        s
    }
}

pub open spec fn starts_with(s: Seq<char>, prefix: Seq<char>) -> bool {
    prefix.len() <= s.len() && s.subrange(0, prefix.len() as int) == prefix
}

/// Whether `source` is where art at `url` comes from: a `file://` URL names
/// a local file (every leading `file://` removed), another URL starting
/// with `http` is fetched, and any other is not loaded.
pub open spec fn art_classified(url: Seq<char>, source: ArtSource) -> bool {
    &&& starts_with(url, "file://"@) ==> (source matches ArtSource::File(path) && path@
        == trim_prefixes(url, "file://"@))
    &&& !starts_with(url, "file://"@) && starts_with(url, "http"@) ==> source == ArtSource::Remote
    &&& !starts_with(url, "file://"@) && !starts_with(url, "http"@) ==> source
        == ArtSource::Unsupported
}

/// Classify an album art URL.
pub fn art_source(url: &str) -> (source: ArtSource)
    ensures
        art_classified(url@, source),
{
    proof {
        reveal_strlit("file://");
        reveal_strlit("http");
    }
    if starts_with_text(url, "file://") {
        ArtSource::File(trim_file_scheme(url))
    } else if starts_with_text(url, "http") {
        ArtSource::Remote
    } else {
        ArtSource::Unsupported
    }
}

/// Remove every leading `file://` from `url`.
fn trim_file_scheme(url: &str) -> (rest: String)
    ensures
        rest@ == trim_prefixes(url@, "file://"@),
{
    proof {
        reveal_strlit("file://");
    }
    let n = url.unicode_len();
    let mut start: usize = 0;
    assert(url@.subrange(0, n as int) =~= url@);
    while n - start >= 7 && starts_with_text(url.substring_char(start, n), "file://")
        invariant
            n == url@.len(),
            start <= n,
            trim_prefixes(url@, "file://"@) == trim_prefixes(
                url@.subrange(start as int, n as int),
                "file://"@,
            ),
        decreases n - start,
    {
        proof {
            reveal_strlit("file://");
            let s = url@.subrange(start as int, n as int);
            assert("file://"@.len() == 7);
            assert(s.subrange(0, 7) == "file://"@);
            assert(s.subrange(7, s.len() as int) =~= url@.subrange(start + 7, n as int));
            assert(trim_prefixes(s, "file://"@) == trim_prefixes(s.subrange(7, s.len() as int), "file://"@));
        }
        start = start + 7;
    }
    proof {
        let s = url@.subrange(start as int, n as int);
        assert("file://"@.len() == 7);
        assert(trim_prefixes(s, "file://"@) == s);
    }
    url.substring_char(start, n).to_owned()
}

/// The characters of an optional string.
pub open spec fn opt_text(s: Option<String>) -> Option<Seq<char>> {
    match s {
        Some(t) => Some(t@),
        None => None,
    }
}

/// The album art URL seen at the last poll, so that art is loaded again
/// only when the track's art changes.
pub struct ArtCache {
    url: Option<String>,
}

impl ArtCache {
    pub closed spec fn url(&self) -> Option<Seq<char>> {
        opt_text(self.url)
    }

    pub fn new() -> (cache: Self)
        ensures
            cache.url() is None,
    {
        ArtCache { url: None }
    }

    /// The player reports `url` for the current track's art. If it is the
    /// URL seen last, the art already loaded stays (`None`). Otherwise the
    /// loaded art is dropped and the answer says where the new art comes
    /// from: `Some(None)` when there is no URL.
    pub fn observe(&mut self, url: Option<String>) -> (reload: Option<Option<ArtSource>>)
        ensures
            final(self).url() == opt_text(url),
            reload is None <==> old(self).url() == opt_text(url),
            reload matches Some(src) ==> match url {
                Some(u) => src matches Some(s) && art_classified(u@, s),
                None => src is None,
            },
    {
        let same = match (&self.url, &url) {
            (Some(a), Some(b)) => same_text(a.as_str(), b.as_str()),
            (None, None) => true,
            _ => false,
        };
        if same {
            return None;
        }
        let source = match &url {
            Some(u) => Some(art_source(u.as_str())),
            None => None,
        };
        self.url = url;
        Some(source)
    }
}

/// Whether any of the Bluetooth devices, each given as whether it is
/// connected and its name, is connected.
pub open spec fn any_connected(devices: Seq<(bool, Option<String>)>) -> bool
    decreases devices.len(),
{
    devices.len() > 0 && (devices[0].0 || any_connected(devices.subrange(1, devices.len() as int)))
}

/// The names of the connected Bluetooth devices that have one, in order.
pub open spec fn connected_names(devices: Seq<(bool, Option<String>)>) -> Seq<String>
    decreases devices.len(),
{
    if devices.len() == 0 {
        Seq::empty()
    } else {
        let rest = connected_names(devices.subrange(1, devices.len() as int));
        match devices[0] {
            (true, Some(name)) => seq![name] + rest,
            _ => rest,
        }
    }
}

/// What the status bar shows of Bluetooth, from the devices the daemon
/// reports (whether each is connected, and its name if it has one): whether
/// any is connected, and the names of the connected ones in order.
pub fn bluetooth_summary(devices: Vec<(bool, Option<String>)>) -> (summary: (bool, Vec<String>))
    ensures
        summary.0 == any_connected(devices@),
        summary.1@ == connected_names(devices@),
{
    let ghost all = devices@;
    let mut devices = devices;
    let mut connected = false;
    let mut names: Vec<String> = Vec::new();
    while devices.len() > 0
        invariant
            (connected || any_connected(devices@)) == any_connected(all),
            names@ + connected_names(devices@) == connected_names(all),
        decreases devices@.len(),
    {
        let ghost before = devices@;
        let (on, name) = devices.remove(0);
        assert(devices@ =~= before.subrange(1, before.len() as int));
        if on {
            connected = true;
            if let Some(n) = name {
                proof {
                    assert(names@.push(n) + connected_names(devices@) =~= names@ + connected_names(
                        before,
                    ));
                }
                names.push(n);
            }
        }
    }
    (connected, names)
}

} // verus!
