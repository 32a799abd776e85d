//! Operating-system port types shared by the platform adapters.
use vstd::prelude::*;
use vstd::string::*;

use crate::text::{has_char, texts, trim, trimmed};

verus! {

/// Opaque identifier owned by a platform adapter.
#[derive(Debug, Clone, PartialEq, Eq, Hash)]
pub struct WindowId(pub String);

/// A top-level application window visible to the user.
#[derive(Debug, Clone, PartialEq, Eq)]
pub struct WindowInfo {
    /// Adapter-owned identifier.
    pub id: WindowId,
    /// Human-readable title.
    pub title: String,
    /// Desktop application identifier when available.
    pub application_id: Option<String>,
    /// Owning process identifier when available.
    pub process_id: Option<u32>,
}

/// A window with its texts as character sequences.
pub struct WindowView {
    pub id: Seq<char>,
    pub title: Seq<char>,
    pub application_id: Option<Seq<char>>,
    pub process_id: Option<u32>,
}

/// An optional text as an optional character sequence.
pub open spec fn opt_view(o: Option<String>) -> Option<Seq<char>> {
    match o {
        Some(s) => Some(s@),
        None => None,
    }
}

impl View for WindowInfo {
    type V = WindowView;

    open spec fn view(&self) -> WindowView {
        WindowView {
            id: self.id.0@,
            title: self.title@,
            application_id: opt_view(self.application_id),
            process_id: self.process_id,
        }
    }
}

/// The views of a list of windows.
pub open spec fn windows_view(v: Seq<WindowInfo>) -> Seq<WindowView> {
    v.map_values(|w: WindowInfo| w@)
}

/// An installed application that can be launched.
#[derive(Debug, Clone, PartialEq, Eq)]
pub struct DiscoveredApplication {
    /// Adapter-owned stable source identifier.
    pub id: String,
    /// User-facing display name.
    pub name: String,
    /// Optional icon reference supplied by the system.
    pub icon: Option<String>,
    /// Structured executable and arguments.
    pub launch: AppLaunchSpec,
}

/// Stable application launch request.
#[derive(Debug, Clone, PartialEq, Eq)]
pub struct AppLaunchSpec {
    /// Freedesktop application id, executable, or Windows application id.
    pub identifier: String,
    /// Explicit arguments; never interpolated through a shell.
    pub arguments: Vec<String>,
}

/// Network connectivity summary.
#[derive(Debug, Clone, Copy, PartialEq, Eq, Structural)]
pub enum NetworkStatus {
    /// No active network is known.
    Offline,
    /// A network is connected without confirmed internet access.
    Local,
    /// Internet connectivity is available.
    Online,
    /// The adapter cannot determine status.
    Unknown,
}

/// Discoverable or paired Bluetooth device, or a connected peripheral.
#[derive(Debug, Clone, PartialEq, Eq)]
pub struct DeviceInfo {
    /// Adapter-owned stable id, such as a `BlueZ` object path.
    pub id: String,
    /// User-facing device name.
    pub name: String,
    /// Whether the device is currently connected.
    pub connected: bool,
    /// Whether the device is paired.
    pub paired: bool,
}

/// A device with its texts as character sequences.
pub struct DeviceView {
    pub id: Seq<char>,
    pub name: Seq<char>,
    pub connected: bool,
    pub paired: bool,
}

impl View for DeviceInfo {
    type V = DeviceView;

    open spec fn view(&self) -> DeviceView {
        DeviceView {
            id: self.id@,
            name: self.name@,
            connected: self.connected,
            paired: self.paired,
        }
    }
}

/// The views of a list of devices.
pub open spec fn devices_view(v: Seq<DeviceInfo>) -> Seq<DeviceView> {
    v.map_values(|d: DeviceInfo| d@)
}

/// Features available in the current desktop session.
#[derive(Debug, Clone, Copy, PartialEq, Eq, Structural)]
pub struct PlatformCapabilities {
    /// Global enumeration of top-level windows.
    pub can_list_windows: bool,
    /// Programmatic focus of another application's window.
    pub can_focus_windows: bool,
    /// Reliable absolute positioning of transparent overlays.
    pub can_position_overlay: bool,
    /// Global pointer tracking outside Branlly's own surface.
    pub can_follow_pointer: bool,
    /// Network status integration.
    pub can_query_network: bool,
    /// Bluetooth integration.
    pub can_query_bluetooth: bool,
    /// Installed application discovery is available.
    pub can_discover_applications: bool,
}

impl Default for PlatformCapabilities {
    /// Every capability disabled.
    fn default() -> (r: Self)
        ensures
            !r.can_list_windows && !r.can_focus_windows && !r.can_position_overlay
                && !r.can_follow_pointer && !r.can_query_network && !r.can_query_bluetooth
                && !r.can_discover_applications,
    {
        PlatformCapabilities {
            can_list_windows: false,
            can_focus_windows: false,
            can_position_overlay: false,
            can_follow_pointer: false,
            can_query_network: false,
            can_query_bluetooth: false,
            can_discover_applications: false,
        }
    }
}

/// Absolute pointer position in physical desktop pixels.
#[derive(Debug, Clone, Copy, PartialEq, Eq, Structural)]
pub struct PointerPosition {
    /// Horizontal desktop coordinate.
    pub x: i32,
    /// Vertical desktop coordinate.
    pub y: i32,
}

/// Typed adapter failures suitable for UI presentation and telemetry.
#[derive(Debug, Clone, PartialEq, Eq)]
pub enum PlatformError {
    /// The current compositor or OS does not expose the requested feature.
    Unsupported(&'static str),
    /// An opaque identifier no longer refers to a live object.
    NotFound(String),
    /// The OS denied access.
    PermissionDenied(String),
    /// An external system service failed.
    Service(String),
    /// User input failed adapter validation.
    InvalidRequest(String),
}

/// A platform error with its text as a character sequence.
pub enum PlatformFault {
    Unsupported(Seq<char>),
    NotFound(Seq<char>),
    PermissionDenied(Seq<char>),
    Service(Seq<char>),
    InvalidRequest(Seq<char>),
}

impl View for PlatformError {
    type V = PlatformFault;

    open spec fn view(&self) -> PlatformFault {
        match self {
            PlatformError::Unsupported(m) => PlatformFault::Unsupported(m@),
            PlatformError::NotFound(m) => PlatformFault::NotFound(m@),
            PlatformError::PermissionDenied(m) => PlatformFault::PermissionDenied(m@),
            PlatformError::Service(m) => PlatformFault::Service(m@),
            PlatformError::InvalidRequest(m) => PlatformFault::InvalidRequest(m@),
        }
    }
}

/// The text a platform error displays.
pub open spec fn platform_error_text(f: PlatformFault) -> Seq<char> {
    match f {
        PlatformFault::Unsupported(m) => "capability unavailable: "@ + m,
        PlatformFault::NotFound(m) => "resource not found: "@ + m,
        PlatformFault::PermissionDenied(m) => "permission denied: "@ + m,
        PlatformFault::Service(m) => "platform service failure: "@ + m,
        PlatformFault::InvalidRequest(m) => "invalid platform request: "@ + m,
    }
}

impl PlatformError {
    /// The text shown to the user for this error.
    pub fn message(&self) -> (r: String)
        ensures
            r@ == platform_error_text(self@),
    {
        match self {
            PlatformError::Unsupported(m) => "capability unavailable: ".to_owned().concat(m),
            PlatformError::NotFound(m) => "resource not found: ".to_owned().concat(m.as_str()),
            PlatformError::PermissionDenied(m) => "permission denied: ".to_owned().concat(
                m.as_str(),
            ),
            PlatformError::Service(m) => "platform service failure: ".to_owned().concat(
                m.as_str(),
            ),
            PlatformError::InvalidRequest(m) => "invalid platform request: ".to_owned().concat(
                m.as_str(),
            ),
        }
    }
}

/// How starting a process failed (the kinds of `std::io::ErrorKind` that the adapters
/// tell apart).
#[derive(Debug, Clone, Copy, PartialEq, Eq, Structural)]
pub enum ProcessFailure {
    /// The executable does not exist.
    NotFound,
    /// The executable may not be run.
    PermissionDenied,
    /// Any other failure.
    Other,
}

/// The executable identifier that may be started for a launch request: the trimmed
/// identifier, refused when blank or holding a NUL character.
pub open spec fn launch_target(identifier: Seq<char>) -> Option<Seq<char>> {
    let t = trim(identifier);
    if t.len() == 0 || t.contains('\0') {
        None
    } else {
        Some(t)
    }
}

/// Checks a launch request before any process is started: yields the trimmed
/// executable identifier, or `PlatformError::InvalidRequest` when it is blank or holds
/// a NUL character.
pub fn launch_identifier(specification: &AppLaunchSpec) -> (r: Result<String, PlatformError>)
    ensures
        match launch_target(specification.identifier@) {
            Some(t) => r matches Ok(s) && s@ == t,
            None => r matches Err(e) && e@ == PlatformFault::InvalidRequest(
                "invalid executable identifier"@,
            ),
        },
{
    let identifier = trimmed(specification.identifier.as_str());
    if identifier.as_str().is_empty() || has_char(identifier.as_str(), '\0') {
        return Err(PlatformError::InvalidRequest("invalid executable identifier".to_owned()));
    }
    Ok(identifier)
}

/// An ASCII hexadecimal digit.
pub open spec fn is_hex(c: char) -> bool {
    let u = c as u32;
    (48 <= u <= 57) || (65 <= u <= 70) || (97 <= u <= 102)
}

/// An opaque window handle: `0x` followed by one or more hexadecimal digits.
pub open spec fn is_hex_handle(s: Seq<char>) -> bool {
    s.len() > 2 && s[0] == '0' && s[1] == 'x' && forall|i: int|
        2 <= i < s.len() ==> is_hex(#[trigger] s[i])
}

/// Tells whether `s` is `0x` followed by one or more hexadecimal digits.
pub fn hex_handle(s: &str) -> (r: bool)
    ensures
        r == is_hex_handle(s@),
{
    let v = crate::text::chars_of(s);
    let n = v.len();
    if n <= 2 || v[0] != '0' || v[1] != 'x' {
        return false;
    }
    let mut k: usize = 2;
    while k < n
        invariant
            2 <= k <= n == v@.len(),
            v@ == s@,
            forall|i: int| 2 <= i < k ==> is_hex(#[trigger] v@[i]),
        decreases n - k,
    {
        let u = v[k] as u32;
        if !((48 <= u && u <= 57) || (65 <= u && u <= 70) || (97 <= u && u <= 102)) {
            assert(!is_hex(s@[k as int]));
            return false;
        }
        k += 1;
    }
    true
}

} // verus!
