//! Platform adapters: session detection, capabilities and output parsing.

use branlly::linux::{parse_bluetooth_line, parse_usb_line, parse_wmctrl_window, validate_window_id};
use branlly::windows::validate_handle;
use branlly::{
    DesktopSession, LinuxPlatform, LinuxTools, PlatformCapabilities, WindowId, WindowsPlatform,
};

fn every_toolset() -> Vec<LinuxTools> {
    let mut all = Vec::new();
    for bits in 0..16u8 {
        all.push(LinuxTools {
            wmctrl: bits & 1 != 0,
            xdotool: bits & 2 != 0,
            nmcli: bits & 4 != 0,
            bluetoothctl: bits & 8 != 0,
        });
    }
    all
}

#[test]
fn wayland_wins_when_both_display_variables_exist() {
    let platform = LinuxPlatform::from_environment(None, Some("wayland-0"), Some(":0"));
    assert_eq!(platform.session(), DesktopSession::Wayland);
    for tools in every_toolset() {
        assert!(!platform.capabilities(tools).can_list_windows);
    }
}

#[test]
fn x11_capabilities_follow_installed_backends() {
    let platform = LinuxPlatform::from_environment(Some("x11"), None, Some(":0"));
    assert_eq!(platform.session(), DesktopSession::X11);
    for tools in every_toolset() {
        let capabilities = platform.capabilities(tools);
        assert!(capabilities.can_position_overlay);
        assert_eq!(capabilities.can_list_windows, tools.wmctrl);
        assert_eq!(capabilities.can_focus_windows, tools.wmctrl);
        assert_eq!(capabilities.can_follow_pointer, tools.xdotool);
    }
}

#[test]
fn headless_environment_is_safe() {
    let platform = LinuxPlatform::from_environment(None, None, None);
    assert_eq!(platform.session(), DesktopSession::Unknown);
    for tools in every_toolset() {
        assert!(!platform.capabilities(tools).can_position_overlay);
    }
}

#[test]
fn service_capabilities_follow_installed_tools() {
    for tools in every_toolset() {
        let capabilities =
            LinuxPlatform::from_environment(Some("x11"), None, Some(":0")).capabilities(tools);
        assert_eq!(capabilities.can_query_network, tools.nmcli);
        assert_eq!(capabilities.can_query_bluetooth, tools.bluetoothctl);
    }
}

#[test]
fn parses_windows_without_trusting_titles_as_identifiers() {
    let window = parse_wmctrl_window("0x03a00007  0  4312 host Firefox - Documentation");
    assert_eq!(
        window.as_ref().map(|item| item.id.0.as_str()),
        Some("0x03a00007")
    );
    assert_eq!(
        window.as_ref().map(|item| item.process_id),
        Some(Some(4312))
    );
    assert_eq!(
        window.map(|item| item.title),
        Some("Firefox - Documentation".to_owned())
    );
    assert!(validate_window_id(&WindowId("; rm -rf /".to_owned())).is_err());
}

#[test]
fn parses_usb_output() {
    let device = parse_usb_line("Bus 001 Device 002: ID 1234:5678 Clavier USB");
    assert_eq!(
        device.as_ref().map(|item| item.name.as_str()),
        Some("Clavier USB")
    );
    assert_eq!(device.map(|item| item.connected), Some(true));
}

#[test]
fn parses_bluetooth_output() {
    let device = parse_bluetooth_line("Device AA:BB:CC:DD:EE:FF Casque Audio");
    assert_eq!(
        device.as_ref().map(|item| item.name.as_str()),
        Some("Casque Audio")
    );
    assert_eq!(device.map(|item| item.paired), Some(true));
}

#[test]
fn validates_opaque_handles_without_command_injection() {
    assert!(validate_handle(&WindowId("0x000F12AB".to_owned())).is_ok());
    assert!(validate_handle(&WindowId("0x12; Stop-Process".to_owned())).is_err());
}

#[test]
fn advertises_only_implemented_windows_features() {
    let capabilities = WindowsPlatform.capabilities();
    assert!(capabilities.can_list_windows);
    assert!(capabilities.can_query_network);
    assert!(capabilities.can_follow_pointer);
}

#[test]
fn capabilities_default_to_safe_disabled_values() {
    assert_eq!(
        PlatformCapabilities::default(),
        PlatformCapabilities {
            can_list_windows: false,
            can_focus_windows: false,
            can_position_overlay: false,
            can_follow_pointer: false,
            can_query_network: false,
            can_query_bluetooth: false,
            can_discover_applications: false,
        }
    );
}
