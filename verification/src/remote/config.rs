//! The remote station's configuration, as read from YAML, and the defaults
//! of its optional fields.

use vstd::prelude::*;
use vstd::string::StringExecFns;

verus! {

/// Remote configuration (the host's schema, receive side).
#[derive(Debug, Clone)]
pub struct RemoteConfig {
    pub remote: RemoteSection,
    pub signaling: SignalingSection,
    pub media: RemoteMediaSection,
    pub turn: Option<TurnSection>,
    pub control: Option<ControlSection>,
    pub web: Option<WebSection>,
}

#[derive(Debug, Clone)]
pub struct RemoteSection {
    pub id: String,
    pub name: String,
}

#[derive(Debug, Clone)]
pub struct SignalingSection {
    pub ws_url: String,
    pub psk: String,
}

#[derive(Debug, Clone)]
pub struct RemoteMediaSection {
    /// Output display (window title or Wayland/X11 surface).
    pub display: Option<String>,
    pub width: u32,
    pub height: u32,
    pub format: String,
    pub fullscreen: bool,
    /// Preferred decoder (e.g. "nvh264dec", "vaapih264dec").
    pub decoder: Option<String>,
}

#[derive(Debug, Clone)]
pub struct TurnSection {
    pub urls: String,
    pub username: String,
    pub credential: String,
}

#[derive(Debug, Clone)]
pub struct ControlSection {
    /// HMAC signing key override.
    pub hmac_key: String,
    /// Max control send rate in Hz.
    pub rate_hz: u32,
}

#[derive(Debug, Clone)]
pub struct WebSection {
    pub bind: String,
    pub username: Option<String>,
    pub password: Option<String>,
}

/// Default pre-shared signaling key: `omspbase-dev`.
pub fn default_psk() -> (s: String)
    ensures
        s@ == seq!['o', 'm', 's', 'p', 'b', 'a', 's', 'e', '-', 'd', 'e', 'v'],
{
    proof {
        reveal_strlit("omspbase-dev");
    }
    String::from_str("omspbase-dev")
}

/// Default output width: 1280.
pub fn default_width() -> (w: u32)
    ensures
        w == 1280,
{
    1280
}

/// Default output height: 720.
pub fn default_height() -> (h: u32)
    ensures
        h == 720,
{
    720
}

/// Default output pixel format: `BGRA`.
pub fn default_format() -> (s: String)
    ensures
        s@ == seq!['B', 'G', 'R', 'A'],
{
    proof {
        reveal_strlit("BGRA");
    }
    String::from_str("BGRA")
}

/// Default HMAC key for control frames: `omspbase-control`.
pub fn default_hmac_key() -> (s: String)
    ensures
        s@ == seq!['o', 'm', 's', 'p', 'b', 'a', 's', 'e', '-', 'c', 'o', 'n', 't', 'r', 'o', 'l'],
{
    proof {
        reveal_strlit("omspbase-control");
    }
    String::from_str("omspbase-control")
}

/// Default control send rate: 30 Hz.
pub fn default_rate_hz() -> (r: u32)
    ensures
        r == 30,
{
    30
}

} // verus!
