//! Windows adapter: capabilities, handle validation and the parsing of PowerShell
//! outputs. Running PowerShell is left to the application.
use vstd::prelude::*;
use vstd::string::*;

use crate::numbers::{int_error_text, parse_i32, parse_int_spec};
use crate::platform::{
    hex_handle, is_hex_handle, DeviceInfo, DeviceView, NetworkStatus, PlatformCapabilities,
    PlatformError, PlatformFault, PointerPosition, ProcessFailure, WindowId, WindowInfo,
    WindowView,
};
use crate::text::{same_text, split_once, split_once_at, trim, trimmed};

verus! {

/// Windows desktop adapter.
#[derive(Debug, Clone, Copy)]
pub struct WindowsPlatform;

/// Everything the Windows adapter implements: windows, overlay, pointer, network and
/// Bluetooth; application discovery is not implemented.
pub open spec fn windows_capabilities() -> PlatformCapabilities {
    PlatformCapabilities {
        can_list_windows: true,
        can_focus_windows: true,
        can_position_overlay: true,
        can_follow_pointer: true,
        can_query_network: true,
        can_query_bluetooth: true,
        can_discover_applications: false,
    }
}

impl Default for WindowsPlatform {
    fn default() -> (r: Self) {
        WindowsPlatform
    }
}

impl WindowsPlatform {
    /// Reports features before the UI presents an action.
    pub fn capabilities(&self) -> (r: PlatformCapabilities)
        ensures
            r == windows_capabilities(),
    {
        PlatformCapabilities {
            can_list_windows: true,
            can_focus_windows: true,
            can_position_overlay: true,
            can_follow_pointer: true,
            can_query_network: true,
            can_query_bluetooth: true,
            can_discover_applications: false,
        }
    }
}

/// Accepts only window handles written `0x` followed by hexadecimal digits; anything
/// else is refused with `PlatformError::InvalidRequest` before PowerShell runs.
pub fn validate_handle(id: &WindowId) -> (r: Result<(), PlatformError>)
    ensures
        is_hex_handle(id.0@) ==> r is Ok,
        !is_hex_handle(id.0@) ==> (r matches Err(e) && e@ == PlatformFault::InvalidRequest(
            "invalid Windows handle"@,
        )),
{
    if !hex_handle(id.0.as_str()) {
        return Err(PlatformError::InvalidRequest("invalid Windows handle".to_owned()));
    }
    Ok(())
}

/// The error reported when `program` cannot be started: a missing executable is not
/// found, a refused one a permission error, any other failure a service error carrying
/// `detail`.
pub open spec fn windows_process_fault(
    program: Seq<char>,
    kind: ProcessFailure,
    detail: Seq<char>,
) -> PlatformFault {
    match kind {
        ProcessFailure::NotFound => PlatformFault::NotFound("executable not found: "@ + program),
        ProcessFailure::PermissionDenied => PlatformFault::PermissionDenied(
            "cannot execute "@ + program,
        ),
        ProcessFailure::Other => PlatformFault::Service(
            "cannot execute "@ + program + ": "@ + detail,
        ),
    }
}

/// Maps a failure to start `program` to a typed adapter error.
pub fn process_error(program: &str, kind: ProcessFailure, detail: &str) -> (r: PlatformError)
    ensures
        r@ == windows_process_fault(program@, kind, detail@),
{
    match kind {
        ProcessFailure::NotFound => PlatformError::NotFound(
            "executable not found: ".to_owned().concat(program),
        ),
        ProcessFailure::PermissionDenied => PlatformError::PermissionDenied(
            "cannot execute ".to_owned().concat(program),
        ),
        ProcessFailure::Other => PlatformError::Service(
            "cannot execute ".to_owned().concat(program).concat(": ").concat(detail),
        ),
    }
}

/// The pointer position printed as `X,Y` (output trimmed), each coordinate an `i32`;
/// a missing comma or an unreadable coordinate is a service failure naming the reason.
pub open spec fn windows_pointer(output: Seq<char>) -> Result<PointerPosition, PlatformFault> {
    match split_once(trim(output), ","@) {
        None => Err(PlatformFault::Service("invalid pointer output"@)),
        Some((xs, ys)) => match parse_int_spec(xs, i32::MIN as int, i32::MAX as int) {
            Err(k) => Err(PlatformFault::Service("invalid pointer X: "@ + int_error_text(k))),
            Ok(x) => match parse_int_spec(ys, i32::MIN as int, i32::MAX as int) {
                Err(k) => Err(PlatformFault::Service("invalid pointer Y: "@ + int_error_text(k))),
                Ok(y) => Ok(PointerPosition { x: x as i32, y: y as i32 }),
            },
        },
    }
}

/// Reads the pointer position that the PowerShell query prints.
pub fn parse_pointer_output(output: &str) -> (r: Result<PointerPosition, PlatformError>)
    ensures
        match windows_pointer(output@) {
            Ok(p) => r == Ok::<PointerPosition, PlatformError>(p),
            Err(f) => r matches Err(e) && e@ == f,
        },
{
    let t = trimmed(output);
    let (xs, ys) = match split_once_at(t.as_str(), ",") {
        Some(parts) => parts,
        None => return Err(PlatformError::Service("invalid pointer output".to_owned())),
    };
    let x = match parse_i32(xs.as_str()) {
        Ok(v) => v,
        Err(k) => {
            return Err(
                PlatformError::Service("invalid pointer X: ".to_owned().concat(k.message())),
            )
        },
    };
    let y = match parse_i32(ys.as_str()) {
        Ok(v) => v,
        Err(k) => {
            return Err(
                PlatformError::Service("invalid pointer Y: ".to_owned().concat(k.message())),
            )
        },
    };
    Ok(PointerPosition { x, y })
}

/// The network status that the PowerShell query prints (output trimmed): `online`,
/// `local` and `offline`; anything else is unknown.
pub open spec fn powershell_status(output: Seq<char>) -> NetworkStatus {
    let t = trim(output);
    if t == "online"@ {
        NetworkStatus::Online
    } else if t == "local"@ {
        NetworkStatus::Local
    } else if t == "offline"@ {
        NetworkStatus::Offline
    } else {
        NetworkStatus::Unknown
    }
}

/// The status depends on the trimmed output alone, and each word the query prints maps
/// to its status: `online`, `local`, `offline`.
pub proof fn lemma_powershell_reads_trimmed_words(a: Seq<char>, b: Seq<char>)
    ensures
        trim(a) == trim(b) ==> powershell_status(a) == powershell_status(b),
        trim(a) == "online"@ ==> powershell_status(a) == NetworkStatus::Online,
        trim(a) == "local"@ ==> powershell_status(a) == NetworkStatus::Local,
        trim(a) == "offline"@ ==> powershell_status(a) == NetworkStatus::Offline,
        powershell_status(a) == NetworkStatus::Offline ==> trim(a) == "offline"@,
        trim(a) != "online"@ && trim(a) != "local"@ && trim(a) != "offline"@
            ==> powershell_status(a) == NetworkStatus::Unknown,
{
    reveal_strlit("online");
    reveal_strlit("local");
    reveal_strlit("offline");
    assert("online"@.len() == 6 && "local"@.len() == 5 && "offline"@.len() == 7);
}

/// Reads the network status from the output of the PowerShell query.
pub fn parse_network_status(output: &str) -> (r: NetworkStatus)
    ensures
        r == powershell_status(output@),
{
    let t = trimmed(output);
    let s = t.as_str();
    if same_text(s, "online") {
        NetworkStatus::Online
    } else if same_text(s, "local") {
        NetworkStatus::Local
    } else if same_text(s, "offline") {
        NetworkStatus::Offline
    } else {
        NetworkStatus::Unknown
    }
}

/// A window of the PowerShell listing: its handle, title and process id, the process
/// name standing for the application id.
pub fn window_from_process(id: String, title: String, process_id: u32, process_name: String) -> (r:
    WindowInfo)
    ensures
        r@ == (WindowView {
            id: id@,
            title: title@,
            application_id: Some(process_name@),
            process_id: Some(process_id),
        }),
{
    WindowInfo {
        id: WindowId(id),
        title,
        application_id: Some(process_name),
        process_id: Some(process_id),
    }
}

/// A Bluetooth device of the PnP listing: paired, connected as the listing says.
pub fn bluetooth_from_pnp(id: String, name: String, connected: bool) -> (r: DeviceInfo)
    ensures
        r@ == (DeviceView { id: id@, name: name@, connected, paired: true }),
{
    DeviceInfo { id, name, connected, paired: true }
}

/// A present device of the PnP listing: connected, not paired.
pub fn device_from_pnp(id: String, name: String) -> (r: DeviceInfo)
    ensures
        r@ == (DeviceView { id: id@, name: name@, connected: true, paired: false }),
{
    DeviceInfo { id, name, connected: true, paired: false }
}

/// Which PowerShell listing a JSON reply answers.
#[derive(Debug, Clone, Copy, PartialEq, Eq, Structural)]
pub enum PowerShellListing {
    /// Top-level windows.
    Windows,
    /// Bluetooth devices.
    Bluetooth,
    /// Present devices.
    Devices,
}

/// The word naming a listing in error texts.
pub open spec fn listing_word(l: PowerShellListing) -> Seq<char> {
    match l {
        PowerShellListing::Windows => "window"@,
        PowerShellListing::Bluetooth => "Bluetooth"@,
        PowerShellListing::Devices => "device"@,
    }
}

/// A listing whose JSON could not be read: a service failure naming the listing and the
/// decoder's message.
pub fn invalid_json(listing: PowerShellListing, detail: &str) -> (r: PlatformError)
    ensures
        r@ == PlatformFault::Service("invalid "@ + listing_word(listing) + " JSON: "@ + detail@),
{
    let word = match listing {
        PowerShellListing::Windows => "window",
        PowerShellListing::Bluetooth => "Bluetooth",
        PowerShellListing::Devices => "device",
    };
    PlatformError::Service("invalid ".to_owned().concat(word).concat(" JSON: ").concat(detail))
}

/// PowerShell ended unsuccessfully: a service failure with its exit status and its
/// trimmed error output.
pub fn powershell_failure(status: &str, stderr: &str) -> (r: PlatformError)
    ensures
        r@ == PlatformFault::Service(
            "PowerShell exited with "@ + status@ + ": "@ + trim(stderr@),
        ),
{
    let detail = trimmed(stderr);
    PlatformError::Service(
        "PowerShell exited with ".to_owned().concat(status).concat(": ").concat(detail.as_str()),
    )
}

/// PowerShell printed text that is not UTF-8.
pub fn powershell_invalid_utf8(detail: &str) -> (r: PlatformError)
    ensures
        r@ == PlatformFault::Service("invalid PowerShell UTF-8: "@ + detail@),
{
    PlatformError::Service("invalid PowerShell UTF-8: ".to_owned().concat(detail))
}

} // verus!
