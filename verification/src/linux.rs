//! Linux adapter: session detection, capabilities and the parsing of the outputs of
//! `wmctrl`, `lsusb`, `bluetoothctl`, `nmcli` and `xdotool`. Running those commands is
//! left to the application.
use vstd::prelude::*;
use vstd::string::*;

use crate::numbers::{parse_i32, parse_int_spec, parse_u32};
use crate::platform::{
    devices_view, hex_handle, is_hex_handle, windows_view, DeviceInfo, DeviceView,
    NetworkStatus, PlatformCapabilities, PlatformError, PlatformFault, PointerPosition,
    ProcessFailure, WindowId, WindowInfo, WindowView,
};
use crate::text::{
    blank, chars_of, has_prefix, is_blank, join, join_words, lines, lines_of, same_text,
    split_once, split_once_at, strip_prefix, texts, trim, trimmed, words, words_of,
};

verus! {

/// Desktop protocol detected from standard environment variables.
#[derive(Debug, Clone, Copy, PartialEq, Eq, Structural)]
pub enum DesktopSession {
    /// X11 exposes the legacy global window operations required by the HUD.
    X11,
    /// Wayland intentionally restricts global window control.
    Wayland,
    /// Headless or unsupported environment.
    Unknown,
}

/// Linux adapter.
#[derive(Debug, Clone, Copy)]
pub struct LinuxPlatform {
    session: DesktopSession,
}

/// Which of the command-line tools the adapter drives are installed.
#[derive(Debug, Clone, Copy, PartialEq, Eq, Structural)]
pub struct LinuxTools {
    /// `wmctrl`, for listing, focusing and closing windows.
    pub wmctrl: bool,
    /// `xdotool`, for the pointer position.
    pub xdotool: bool,
    /// `nmcli`, for the network status.
    pub nmcli: bool,
    /// `bluetoothctl`, for Bluetooth devices.
    pub bluetoothctl: bool,
}

/// The character code of `c` after ASCII lowercasing (`char::to_ascii_lowercase`).
pub open spec fn lower_code(c: char) -> u32 {
    let u = c as u32;
    if 65 <= u <= 90 {
        (u + 32) as u32
    } else {
        u
    }
}

/// `s` lowercased with `to_ascii_lowercase` equals `t`.
pub open spec fn lowercases_to(s: Seq<char>, t: Seq<char>) -> bool {
    s.len() == t.len() && forall|i: int| 0 <= i < s.len() ==> lower_code(#[trigger] s[i]) == (
    t[i] as u32)
}

/// An environment variable that is set to something other than whitespace.
pub open spec fn set_and_not_blank(v: Option<Seq<char>>) -> bool {
    v matches Some(t) && !is_blank(t)
}

/// The text of an optional string slice.
pub open spec fn opt_str(o: Option<&str>) -> Option<Seq<char>> {
    match o {
        Some(s) => Some(s@),
        None => None,
    }
}

/// The session that the environment describes: `XDG_SESSION_TYPE` (trimmed,
/// ASCII-lowercased) or a set `WAYLAND_DISPLAY` select Wayland first, then X11
/// (`x11` or a set `DISPLAY`); otherwise the session is unknown.
pub open spec fn detected_session(
    session_type: Option<Seq<char>>,
    wayland_display: Option<Seq<char>>,
    x11_display: Option<Seq<char>>,
) -> DesktopSession {
    let normalized = trim(
        match session_type {
            Some(t) => t,
            None => Seq::<char>::empty(),
        },
    );
    if lowercases_to(normalized, "wayland"@) || set_and_not_blank(wayland_display) {
        DesktopSession::Wayland
    } else if lowercases_to(normalized, "x11"@) || set_and_not_blank(x11_display) {
        DesktopSession::X11
    } else {
        DesktopSession::Unknown
    }
}

/// Tells whether `s` lowercased with `to_ascii_lowercase` equals `target`.
fn lowercase_equals(s: &str, target: &str) -> (r: bool)
    ensures
        r == lowercases_to(s@, target@),
{
    let v = chars_of(s);
    let t = chars_of(target);
    if v.len() != t.len() {
        return false;
    }
    let n = v.len();
    let mut k: usize = 0;
    while k < n
        invariant
            k <= n == v@.len() == t@.len(),
            v@ == s@,
            t@ == target@,
            forall|i: int| 0 <= i < k ==> lower_code(#[trigger] v@[i]) == (t@[i] as u32),
        decreases n - k,
    {
        let u = v[k] as u32;
        let l = if 65 <= u && u <= 90 {
            u + 32
        } else {
            u
        };
        if l != t[k] as u32 {
            assert(lower_code(s@[k as int]) != (target@[k as int] as u32));
            return false;
        }
        k += 1;
    }
    true
}

fn non_empty(value: Option<&str>) -> (r: bool)
    ensures
        r == set_and_not_blank(opt_str(value)),
{
    match value {
        Some(v) => !blank(v),
        None => false,
    }
}

/// The capabilities of a Linux session: window listing and focusing need X11 and
/// `wmctrl`; overlay positioning needs X11; pointer following needs X11 and `xdotool`;
/// network and Bluetooth queries need `nmcli` and `bluetoothctl`; application
/// discovery is not implemented.
pub open spec fn linux_capabilities(session: DesktopSession, tools: LinuxTools) -> PlatformCapabilities {
    let x11 = session == DesktopSession::X11;
    PlatformCapabilities {
        can_list_windows: x11 && tools.wmctrl,
        can_focus_windows: x11 && tools.wmctrl,
        can_position_overlay: x11,
        can_follow_pointer: x11 && tools.xdotool,
        can_query_network: tools.nmcli,
        can_query_bluetooth: tools.bluetoothctl,
        can_discover_applications: false,
    }
}

impl LinuxPlatform {
    /// Pure detector used by unit tests and controlled launchers: the values of
    /// `XDG_SESSION_TYPE`, `WAYLAND_DISPLAY` and `DISPLAY`.
    pub fn from_environment(
        session_type: Option<&str>,
        wayland_display: Option<&str>,
        x11_display: Option<&str>,
    ) -> (r: Self)
        ensures
            r.session_spec() == detected_session(
                opt_str(session_type),
                opt_str(wayland_display),
                opt_str(x11_display),
            ),
    {
        let normalized = match session_type {
            Some(t) => trimmed(t),
            None => String::new(),
        };
        let session = if lowercase_equals(normalized.as_str(), "wayland") || non_empty(
            wayland_display,
        ) {
            DesktopSession::Wayland
        } else if lowercase_equals(normalized.as_str(), "x11") || non_empty(x11_display) {
            DesktopSession::X11
        } else {
            DesktopSession::Unknown
        };
        proof {
            if session_type is None {
                crate::text::lemma_trim_bounds(Seq::<char>::empty(), 0, 0);
                assert(Seq::<char>::empty().subrange(0, 0) =~= Seq::<char>::empty());
            }
        }
        LinuxPlatform { session }
    }

    /// The detected protocol.
    pub closed spec fn session_spec(&self) -> DesktopSession {
        self.session
    }

    /// Returns the detected protocol.
    pub fn session(&self) -> (r: DesktopSession)
        ensures
            r == self.session_spec(),
    {
        self.session
    }

    /// Reports features before the UI presents an action, given which tools are installed.
    pub fn capabilities(&self, tools: LinuxTools) -> (r: PlatformCapabilities)
        ensures
            r == linux_capabilities(self.session_spec(), tools),
    {
        let x11 = self.session == DesktopSession::X11;
        PlatformCapabilities {
            can_list_windows: x11 && tools.wmctrl,
            can_focus_windows: x11 && tools.wmctrl,
            can_position_overlay: x11,
            can_follow_pointer: x11 && tools.xdotool,
            can_query_network: tools.nmcli,
            can_query_bluetooth: tools.bluetoothctl,
            can_discover_applications: false,
        }
    }
}

/// A set `WAYLAND_DISPLAY` selects Wayland whatever `XDG_SESSION_TYPE` and `DISPLAY`
/// say.
pub proof fn lemma_wayland_wins(
    session_type: Option<Seq<char>>,
    wayland_display: Option<Seq<char>>,
    x11_display: Option<Seq<char>>,
)
    requires
        set_and_not_blank(wayland_display),
    ensures
        detected_session(session_type, wayland_display, x11_display) == DesktopSession::Wayland,
{
}

/// Without a Wayland display (unset or blank) and with a session type that does not
/// read `wayland`, a `DISPLAY` holding any non-whitespace character selects X11.
pub proof fn lemma_display_selects_x11(
    session_type: Option<Seq<char>>,
    wayland_display: Option<Seq<char>>,
    x11_display: Seq<char>,
    i: int,
)
    requires
        0 <= i < x11_display.len(),
        !crate::text::is_ws(x11_display[i]),
        wayland_display matches Some(w) ==> is_blank(w),
        !lowercases_to(
            trim(
                match session_type {
                    Some(t) => t,
                    None => Seq::<char>::empty(),
                },
            ),
            "wayland"@,
        ),
    ensures
        detected_session(session_type, wayland_display, Some(x11_display)) == DesktopSession::X11,
{
}

/// A session type reading `x11` (surrounding whitespace aside) selects X11 when no
/// Wayland display is set, whatever `DISPLAY` holds.
pub proof fn lemma_x11_session_type(
    session_type: Seq<char>,
    wayland_display: Option<Seq<char>>,
    x11_display: Option<Seq<char>>,
)
    requires
        trim(session_type) == "x11"@,
        wayland_display matches Some(w) ==> is_blank(w),
    ensures
        detected_session(Some(session_type), wayland_display, x11_display) == DesktopSession::X11,
{
    reveal_strlit("x11");
    reveal_strlit("wayland");
    assert(lowercases_to("x11"@, "x11"@));
}

/// The session type is read without regard to ASCII case: `WAYLAND` selects Wayland
/// and `X11` selects X11 (without a Wayland display), whatever `DISPLAY` holds.
pub proof fn lemma_session_type_ignores_case(
    wayland_display: Option<Seq<char>>,
    x11_display: Option<Seq<char>>,
)
    requires
        wayland_display matches Some(w) ==> is_blank(w),
    ensures
        detected_session(Some("WAYLAND"@), wayland_display, x11_display)
            == DesktopSession::Wayland,
        detected_session(Some(" X11\n"@), wayland_display, x11_display) == DesktopSession::X11,
{
    reveal_strlit("WAYLAND");
    reveal_strlit("wayland");
    reveal_strlit("x11");
    reveal_strlit(" X11\n");
    let up = "WAYLAND"@;
    crate::text::lemma_trim_bounds(up, 0, up.len() as int);
    assert(up.subrange(0, up.len() as int) =~= up);
    assert(lowercases_to(up, "wayland"@));
    let x = " X11\n"@;
    crate::text::lemma_trim_bounds(x, 1, 4);
    assert(x.subrange(1, 4) =~= seq!['X', '1', '1']);
    assert(lowercases_to(seq!['X', '1', '1'], "x11"@));
    assert(!lowercases_to(seq!['X', '1', '1'], "wayland"@));
}

/// With no Wayland or X display (each unset or blank) and a session type that reads
/// neither `wayland` nor `x11`, the session is unknown: blank variables select nothing.
pub proof fn lemma_nothing_set_is_unknown(
    session_type: Option<Seq<char>>,
    wayland_display: Option<Seq<char>>,
    x11_display: Option<Seq<char>>,
)
    requires
        wayland_display matches Some(w) ==> is_blank(w),
        x11_display matches Some(x) ==> is_blank(x),
        !lowercases_to(
            trim(
                match session_type {
                    Some(t) => t,
                    None => Seq::<char>::empty(),
                },
            ),
            "wayland"@,
        ),
        !lowercases_to(
            trim(
                match session_type {
                    Some(t) => t,
                    None => Seq::<char>::empty(),
                },
            ),
            "x11"@,
        ),
    ensures
        detected_session(session_type, wayland_display, x11_display) == DesktopSession::Unknown,
{
}

/// Without any of the three variables the session is unknown.
pub proof fn lemma_headless_is_unknown()
    ensures
        detected_session(None, None, None) == DesktopSession::Unknown,
{
    crate::text::lemma_trim_bounds(Seq::<char>::empty(), 0, 0);
    reveal_strlit("x11");
    reveal_strlit("wayland");
}

/// Capabilities are announced only where they are implemented: outside X11 no window
/// control, overlay or pointer following; each tool-backed capability only with its
/// tool installed; never application discovery.
pub proof fn lemma_capabilities_are_honest(session: DesktopSession, tools: LinuxTools)
    ensures
        ({
            let c = linux_capabilities(session, tools);
            &&& session != DesktopSession::X11 ==> !c.can_list_windows && !c.can_focus_windows
                && !c.can_position_overlay && !c.can_follow_pointer
            &&& c.can_list_windows ==> tools.wmctrl
            &&& c.can_focus_windows ==> tools.wmctrl
            &&& c.can_follow_pointer ==> tools.xdotool
            &&& c.can_query_network ==> tools.nmcli
            &&& c.can_query_bluetooth ==> tools.bluetoothctl
            &&& !c.can_discover_applications
        }),
{
}

/// The `process_id` column: the number when it reads as a `u32`.
pub open spec fn pid_of(w: Seq<char>) -> Option<u32> {
    match parse_int_spec(w, 0, u32::MAX as int) {
        Ok(v) => Some(v as u32),
        Err(_) => None,
    }
}

/// One line of `wmctrl -l -p`: window id, desktop, process id, host, then the title.
/// The title (the remaining words joined by single spaces) must not be empty; the
/// process id is kept only when it reads as a number.
pub open spec fn wmctrl_window(line: Seq<char>) -> Option<WindowView> {
    let w = words_of(line);
    if w.len() < 3 {
        None
    } else {
        let rest = if w.len() > 4 {
            w.skip(4)
        } else {
            Seq::<Seq<char>>::empty()
        };
        let title = join(rest, " "@);
        if title.len() == 0 {
            None
        } else {
            Some(
                WindowView {
                    id: w[0],
                    title,
                    application_id: if w.len() > 3 {
                        Some(w[3])
                    } else {
                        None
                    },
                    process_id: pid_of(w[2]),
                },
            )
        }
    }
}

/// Parses one line of `wmctrl -l -p` without trusting the title as an identifier.
pub fn parse_wmctrl_window(line: &str) -> (r: Option<WindowInfo>)
    ensures
        match wmctrl_window(line@) {
            Some(w) => r matches Some(x) && x@ == w,
            None => r is None,
        },
{
    let w = words(line);
    if w.len() < 3 {
        return None;
    }
    let process_id = match parse_u32(w[2].as_str()) {
        Ok(v) => Some(v),
        Err(_) => None,
    };
    let application_id = if w.len() > 3 {
        Some(w[3].clone())
    } else {
        None
    };
    let title = if w.len() > 4 {
        join_words(w.as_slice(), 4, " ")
    } else {
        String::new()
    };
    if title.as_str().is_empty() {
        return None;
    }
    Some(WindowInfo { id: WindowId(w[0].clone()), title, application_id, process_id })
}

/// `wmctrl_window` as a function value.
pub open spec fn wmctrl_line() -> spec_fn(Seq<char>) -> Option<WindowView> {
    |l: Seq<char>| wmctrl_window(l)
}

/// Parses the whole output of `wmctrl -l -p`, skipping lines that are not windows.
pub fn parse_wmctrl_listing(output: &str) -> (r: Vec<WindowInfo>)
    ensures
        windows_view(r@) == lines_of(output@).filter_map(wmctrl_line()),
{
    let ls = lines(output);
    let ghost f = wmctrl_line();
    let ghost tl = texts(ls@);
    let mut out: Vec<WindowInfo> = Vec::new();
    let mut k: usize = 0;
    while k < ls.len()
        invariant
            k <= ls@.len() == tl.len(),
            tl == texts(ls@),
            f == wmctrl_line(),
            windows_view(out@) == tl.take(k as int).filter_map(f),
        decreases ls.len() - k,
    {
        proof {
            tl.lemma_filter_map_take_succ(f, k as int);
        }
        let parsed = parse_wmctrl_window(ls[k].as_str());
        match parsed {
            Some(w) => {
                let ghost before = out@;
                out.push(w);
                assert(windows_view(out@) =~= windows_view(before).push(w@));
            },
            None => {},
        }
        proof {
            assert(tl.take(k + 1).filter_map(f) =~= windows_view(out@));
        }
        k += 1;
    }
    assert(tl.take(ls.len() as int) =~= tl);
    out
}

/// Accepts only X11 window ids: `0x` followed by hexadecimal digits; anything else is
/// refused with `PlatformError::InvalidRequest` before any command runs.
pub fn validate_window_id(id: &WindowId) -> (r: Result<(), PlatformError>)
    ensures
        is_hex_handle(id.0@) ==> r is Ok,
        !is_hex_handle(id.0@) ==> (r matches Err(e) && e@ == PlatformFault::InvalidRequest(
            "invalid X11 window id"@,
        )),
{
    if !hex_handle(id.0.as_str()) {
        return Err(PlatformError::InvalidRequest("invalid X11 window id".to_owned()));
    }
    Ok(())
}

/// One line of `lsusb`: the text after ` ID ` holds the vendor:product id, a space,
/// then the device name (trimmed). The device is connected and not paired.
pub open spec fn usb_device(line: Seq<char>) -> Option<DeviceView> {
    match split_once(line, " ID "@) {
        None => None,
        Some((_, device)) => match split_once(device, " "@) {
            None => None,
            Some((id, name)) => Some(
                DeviceView { id, name: trim(name), connected: true, paired: false },
            ),
        },
    }
}

/// Parses one line of `lsusb`.
pub fn parse_usb_line(line: &str) -> (r: Option<DeviceInfo>)
    ensures
        match usb_device(line@) {
            Some(d) => r matches Some(x) && x@ == d,
            None => r is None,
        },
{
    let device = match split_once_at(line, " ID ") {
        Some((_, device)) => device,
        None => return None,
    };
    match split_once_at(device.as_str(), " ") {
        Some((id, name)) => Some(
            DeviceInfo { id, name: trimmed(name.as_str()), connected: true, paired: false },
        ),
        None => None,
    }
}

/// One line of `bluetoothctl devices`: the word `Device`, a space, the address, a space,
/// then the name. Address and name are trimmed and must not be empty. The device is
/// paired and, until checked, not connected.
pub open spec fn bluetooth_device(line: Seq<char>) -> Option<DeviceView> {
    match split_once(line, " "@) {
        None => None,
        Some((first, rest)) => if first != "Device"@ {
            None
        } else {
            match split_once(rest, " "@) {
                None => None,
                Some((address, name)) => {
                    let id = trim(address);
                    let n = trim(name);
                    if id.len() == 0 || n.len() == 0 {
                        None
                    } else {
                        Some(DeviceView { id, name: n, connected: false, paired: true })
                    }
                },
            }
        },
    }
}

/// Parses one line of `bluetoothctl devices`.
pub fn parse_bluetooth_line(line: &str) -> (r: Option<DeviceInfo>)
    ensures
        match bluetooth_device(line@) {
            Some(d) => r matches Some(x) && x@ == d,
            None => r is None,
        },
{
    let (first, rest) = match split_once_at(line, " ") {
        Some(parts) => parts,
        None => return None,
    };
    if !same_text(first.as_str(), "Device") {
        return None;
    }
    let (address, name) = match split_once_at(rest.as_str(), " ") {
        Some(parts) => parts,
        None => return None,
    };
    let id = trimmed(address.as_str());
    let name = trimmed(name.as_str());
    if id.as_str().is_empty() || name.as_str().is_empty() {
        return None;
    }
    Some(DeviceInfo { id, name, connected: false, paired: true })
}

/// `usb_device` as a function value.
pub open spec fn usb_line() -> spec_fn(Seq<char>) -> Option<DeviceView> {
    |l: Seq<char>| usb_device(l)
}

/// `bluetooth_device` as a function value.
pub open spec fn bluetooth_line() -> spec_fn(Seq<char>) -> Option<DeviceView> {
    |l: Seq<char>| bluetooth_device(l)
}

/// Parses the output of `lsusb` into connected peripherals.
pub fn parse_usb_listing(output: &str) -> (r: Vec<DeviceInfo>)
    ensures
        devices_view(r@) == lines_of(output@).filter_map(usb_line()),
{
    let ls = lines(output);
    let ghost tl = texts(ls@);
    let mut out: Vec<DeviceInfo> = Vec::new();
    let mut k: usize = 0;
    while k < ls.len()
        invariant
            k <= ls@.len() == tl.len(),
            tl == texts(ls@),
            devices_view(out@) == tl.take(k as int).filter_map(usb_line()),
        decreases ls.len() - k,
    {
        proof {
            tl.lemma_filter_map_take_succ(usb_line(), k as int);
        }
        match parse_usb_line(ls[k].as_str()) {
            Some(d) => {
                let ghost before = out@;
                out.push(d);
                assert(devices_view(out@) =~= devices_view(before).push(d@));
            },
            None => {},
        }
        proof {
            assert(tl.take(k + 1).filter_map(usb_line()) =~= devices_view(out@));
        }
        k += 1;
    }
    assert(tl.take(ls.len() as int) =~= tl);
    out
}

/// Parses the output of `bluetoothctl devices` into Bluetooth devices.
pub fn parse_bluetooth_listing(output: &str) -> (r: Vec<DeviceInfo>)
    ensures
        devices_view(r@) == lines_of(output@).filter_map(bluetooth_line()),
{
    let ls = lines(output);
    let ghost tl = texts(ls@);
    let mut out: Vec<DeviceInfo> = Vec::new();
    let mut k: usize = 0;
    while k < ls.len()
        invariant
            k <= ls@.len() == tl.len(),
            tl == texts(ls@),
            devices_view(out@) == tl.take(k as int).filter_map(bluetooth_line()),
        decreases ls.len() - k,
    {
        proof {
            tl.lemma_filter_map_take_succ(bluetooth_line(), k as int);
        }
        match parse_bluetooth_line(ls[k].as_str()) {
            Some(d) => {
                let ghost before = out@;
                out.push(d);
                assert(devices_view(out@) =~= devices_view(before).push(d@));
            },
            None => {},
        }
        proof {
            assert(tl.take(k + 1).filter_map(bluetooth_line()) =~= devices_view(out@));
        }
        k += 1;
    }
    assert(tl.take(ls.len() as int) =~= tl);
    out
}

/// The addresses of the devices listed by `bluetoothctl devices Connected`.
pub open spec fn connected_ids(connected: Seq<char>) -> Seq<Seq<char>> {
    lines_of(connected).filter_map(bluetooth_line()).map_values(
        |d: DeviceView| d.id,
    )
}

/// The paired devices (`bluetoothctl devices Paired`), each marked connected when its
/// address appears in the connected listing (`bluetoothctl devices Connected`, empty
/// when that query failed).
pub open spec fn bluetooth_listing(paired: Seq<char>, connected: Seq<char>) -> Seq<DeviceView> {
    lines_of(paired).filter_map(bluetooth_line()).map_values(
        |d: DeviceView|
            DeviceView {
                id: d.id,
                name: d.name,
                connected: connected_ids(connected).contains(d.id),
                paired: d.paired,
            },
    )
}

/// The merged listing holds the paired devices, in order, each marked connected exactly
/// when some device of the connected listing has the same address.
pub proof fn lemma_connected_when_listed(paired: Seq<char>, connected: Seq<char>)
    ensures
        ({
            let pd = lines_of(paired).filter_map(bluetooth_line());
            let cd = lines_of(connected).filter_map(bluetooth_line());
            let r = bluetooth_listing(paired, connected);
            &&& r.len() == pd.len()
            &&& forall|i: int|
                0 <= i < r.len() ==> (#[trigger] r[i]).id == pd[i].id && r[i].name == pd[i].name
                    && r[i].paired == pd[i].paired && (r[i].connected <==> exists|j: int|
                    0 <= j < cd.len() && cd[j].id == pd[i].id)
        }),
{
    let pd = lines_of(paired).filter_map(bluetooth_line());
    let cd = lines_of(connected).filter_map(bluetooth_line());
    let r = bluetooth_listing(paired, connected);
    let ids = connected_ids(connected);
    assert(ids.len() == cd.len());
    assert forall|i: int| 0 <= i < r.len() implies (#[trigger] r[i]).id == pd[i].id && r[i].name
        == pd[i].name && r[i].paired == pd[i].paired && (r[i].connected <==> exists|j: int|
        0 <= j < cd.len() && cd[j].id == pd[i].id) by {
        let x = pd[i].id;
        assert(r[i].connected == ids.contains(x));
        if ids.contains(x) {
            let k = choose|k: int| 0 <= k < ids.len() && ids[k] == x;
            assert(cd[k].id == x);
        }
        if exists|j: int| 0 <= j < cd.len() && cd[j].id == x {
            let j = choose|j: int| 0 <= j < cd.len() && cd[j].id == x;
            assert(ids[j] == x);
        }
    }
}

/// Combines the paired and connected Bluetooth listings.
pub fn merge_bluetooth_listing(paired: &str, connected: &str) -> (r: Vec<DeviceInfo>)
    ensures
        devices_view(r@) == bluetooth_listing(paired@, connected@),
{
    let paired_devices = parse_bluetooth_listing(paired);
    let connected_devices = parse_bluetooth_listing(connected);
    let ghost ids = connected_ids(connected@);
    assert(ids =~= devices_view(connected_devices@).map_values(|d: DeviceView| d.id));
    let ghost pv = devices_view(paired_devices@);
    let mut rest = paired_devices;
    let mut out: Vec<DeviceInfo> = Vec::new();
    let ghost mut k: int = 0;
    let ghost g = |d: DeviceView|
        DeviceView {
            id: d.id,
            name: d.name,
            connected: ids.contains(d.id),
            paired: d.paired,
        };
    while rest.len() > 0
        invariant
            0 <= k <= pv.len(),
            devices_view(rest@) == pv.skip(k),
            devices_view(out@) == pv.take(k).map_values(g),
            ids == devices_view(connected_devices@).map_values(|d: DeviceView| d.id),
            g == (|d: DeviceView|
                DeviceView {
                    id: d.id,
                    name: d.name,
                    connected: ids.contains(d.id),
                    paired: d.paired,
                }),
        decreases rest.len(),
    {
        assert(devices_view(rest@).len() == rest@.len());
        assert(k < pv.len());
        let ghost rest_before = rest@;
        let mut device = rest.remove(0);
        assert(device@ == pv[k]) by {
            assert(devices_view(rest_before)[0] == device@);
            assert(pv.skip(k)[0] == pv[k]);
        }
        assert(devices_view(rest@) =~= pv.skip(k + 1)) by {
            assert forall|i: int| 0 <= i < rest@.len() implies devices_view(rest@)[i] == pv.skip(
                k + 1,
            )[i] by {
                assert(rest@[i] == rest_before[i + 1]);
                assert(devices_view(rest_before)[i + 1] == pv.skip(k)[i + 1]);
            }
        }
        let mut found = false;
        let mut j: usize = 0;
        while j < connected_devices.len()
            invariant
                j <= connected_devices@.len() == ids.len(),
                ids == devices_view(connected_devices@).map_values(|d: DeviceView| d.id),
                found == exists|q: int| 0 <= q < j && ids[q] == device.id@,
            decreases connected_devices.len() - j,
        {
            if connected_devices[j].id == device.id {
                assert(ids[j as int] == device.id@);
                found = true;
            }
            j += 1;
        }
        device.connected = found;
        let ghost before = out@;
        out.push(device);
        proof {
            assert(devices_view(out@) =~= devices_view(before).push(device@));
            assert(pv.take(k + 1).map_values(g) =~= pv.take(k).map_values(g).push(g(pv[k])));
            assert(device@ == g(pv[k]));
            k = k + 1;
        }
    }
    assert(pv.take(k) =~= pv);
    out
}

/// The value of the last line starting with `prefix`, read as an `i32` (`None` when no
/// line starts with it, or when that value does not read as a number).
pub open spec fn coordinate(lines: Seq<Seq<char>>, prefix: Seq<char>) -> Option<i32>
    decreases lines.len(),
{
    if lines.len() == 0 {
        None
    } else if has_prefix(lines.last(), prefix) {
        match parse_int_spec(lines.last().skip(prefix.len() as int), i32::MIN as int, i32::MAX as int) {
            Ok(v) => Some(v as i32),
            Err(_) => None,
        }
    } else {
        coordinate(lines.drop_last(), prefix)
    }
}

/// The pointer position that `xdotool getmouselocation --shell` reports: the `X=` and
/// `Y=` lines; without both values the output is refused as a service failure.
pub open spec fn xdotool_pointer(output: Seq<char>) -> Result<PointerPosition, PlatformFault> {
    match (coordinate(lines_of(output), "X="@), coordinate(lines_of(output), "Y="@)) {
        (Some(x), Some(y)) => Ok(PointerPosition { x, y }),
        _ => Err(PlatformFault::Service("invalid xdotool pointer output"@)),
    }
}

/// Reads the pointer position from the output of `xdotool getmouselocation --shell`.
pub fn parse_pointer_output(output: &str) -> (r: Result<PointerPosition, PlatformError>)
    ensures
        match xdotool_pointer(output@) {
            Ok(p) => r == Ok::<PointerPosition, PlatformError>(p),
            Err(f) => r matches Err(e) && e@ == f,
        },
{
    let ls = lines(output);
    let ghost tl = texts(ls@);
    let mut x: Option<i32> = None;
    let mut y: Option<i32> = None;
    let mut k: usize = 0;
    while k < ls.len()
        invariant
            k <= ls@.len() == tl.len(),
            tl == texts(ls@),
            x == coordinate(tl.take(k as int), "X="@),
            y == coordinate(tl.take(k as int), "Y="@),
        decreases ls.len() - k,
    {
        let line = ls[k].as_str();
        proof {
            assert(tl.take(k + 1).drop_last() =~= tl.take(k as int));
            assert(tl.take(k + 1).last() == line@);
        }
        match strip_prefix(line, "X=") {
            Some(value) => {
                x = match parse_i32(value.as_str()) {
                    Ok(v) => Some(v),
                    Err(_) => None,
                };
            },
            None => {},
        }
        match strip_prefix(line, "Y=") {
            Some(value) => {
                y = match parse_i32(value.as_str()) {
                    Ok(v) => Some(v),
                    Err(_) => None,
                };
            },
            None => {},
        }
        k += 1;
    }
    assert(tl.take(ls.len() as int) =~= tl);
    match (x, y) {
        (Some(x), Some(y)) => Ok(PointerPosition { x, y }),
        _ => Err(PlatformError::Service("invalid xdotool pointer output".to_owned())),
    }
}

/// The network status that `nmcli -t -f CONNECTIVITY general` reports (output trimmed):
/// `full` is online, `limited` and `portal` are local, `none` is offline, anything
/// else is unknown.
pub open spec fn nmcli_status(output: Seq<char>) -> NetworkStatus {
    let t = trim(output);
    if t == "full"@ {
        NetworkStatus::Online
    } else if t == "limited"@ || t == "portal"@ {
        NetworkStatus::Local
    } else if t == "none"@ {
        NetworkStatus::Offline
    } else {
        NetworkStatus::Unknown
    }
}

/// The status depends on the trimmed output alone, and each word `nmcli` prints maps to
/// its status: `full` online, `limited` and `portal` local, `none` offline.
pub proof fn lemma_nmcli_reads_trimmed_words(a: Seq<char>, b: Seq<char>)
    ensures
        trim(a) == trim(b) ==> nmcli_status(a) == nmcli_status(b),
        trim(a) == "full"@ ==> nmcli_status(a) == NetworkStatus::Online,
        trim(a) == "limited"@ ==> nmcli_status(a) == NetworkStatus::Local,
        trim(a) == "portal"@ ==> nmcli_status(a) == NetworkStatus::Local,
        trim(a) == "none"@ ==> nmcli_status(a) == NetworkStatus::Offline,
        nmcli_status(a) == NetworkStatus::Offline ==> trim(a) == "none"@,
        nmcli_status(a) == NetworkStatus::Online ==> trim(a) == "full"@,
        trim(a) != "full"@ && trim(a) != "limited"@ && trim(a) != "portal"@ && trim(a)
            != "none"@ ==> nmcli_status(a) == NetworkStatus::Unknown,
{
    reveal_strlit("full");
    reveal_strlit("limited");
    reveal_strlit("portal");
    reveal_strlit("none");
    assert("full"@.len() == 4 && "none"@.len() == 4);
    assert("limited"@.len() == 7 && "portal"@.len() == 6);
    assert("full"@ != "none"@) by {
        assert("full"@[0] != "none"@[0]);
    }
}

/// Reads the network status from the output of `nmcli`.
pub fn parse_network_status(output: &str) -> (r: NetworkStatus)
    ensures
        r == nmcli_status(output@),
{
    let t = trimmed(output);
    let s = t.as_str();
    if same_text(s, "full") {
        NetworkStatus::Online
    } else if same_text(s, "limited") || same_text(s, "portal") {
        NetworkStatus::Local
    } else if same_text(s, "none") {
        NetworkStatus::Offline
    } else {
        NetworkStatus::Unknown
    }
}

/// The error reported when `program` cannot be started: a missing command is an
/// unsupported capability, a refused one a permission error, any other failure a
/// service error carrying `detail`.
pub open spec fn linux_process_fault(program: Seq<char>, kind: ProcessFailure, detail: Seq<char>) -> PlatformFault {
    match kind {
        ProcessFailure::NotFound => PlatformFault::Unsupported(
            "required Linux command is not installed"@,
        ),
        ProcessFailure::PermissionDenied => PlatformFault::PermissionDenied(
            "cannot execute "@ + program,
        ),
        ProcessFailure::Other => PlatformFault::Service(
            "cannot execute "@ + program + ": "@ + detail,
        ),
    }
}

/// Maps a failure to start `program` to a typed adapter error.
pub fn map_process_error(program: &str, kind: ProcessFailure, detail: &str) -> (r: PlatformError)
    ensures
        r@ == linux_process_fault(program@, kind, detail@),
{
    match kind {
        ProcessFailure::NotFound => PlatformError::Unsupported(
            "required Linux command is not installed",
        ),
        ProcessFailure::PermissionDenied => PlatformError::PermissionDenied(
            "cannot execute ".to_owned().concat(program),
        ),
        ProcessFailure::Other => PlatformError::Service(
            "cannot execute ".to_owned().concat(program).concat(": ").concat(detail),
        ),
    }
}

/// A command ended unsuccessfully: a service failure naming it, with its exit status
/// and its trimmed error output.
pub fn command_failure(program: &str, status: &str, stderr: &str) -> (r: PlatformError)
    ensures
        r@ == PlatformFault::Service(program@ + " exited with "@ + status@ + ": "@ + trim(stderr@)),
{
    let detail = trimmed(stderr);
    PlatformError::Service(
        program.to_owned().concat(" exited with ").concat(status).concat(": ").concat(
            detail.as_str(),
        ),
    )
}

/// A command printed text that is not UTF-8.
pub fn invalid_utf8(program: &str, detail: &str) -> (r: PlatformError)
    ensures
        r@ == PlatformFault::Service("invalid UTF-8 from "@ + program@ + ": "@ + detail@),
{
    PlatformError::Service("invalid UTF-8 from ".to_owned().concat(program).concat(": ").concat(detail))
}

} // verus!
