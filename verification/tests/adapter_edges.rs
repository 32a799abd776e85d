//! Edge cases of the adapters' parsers, of the desktop commands' checks and of the
//! streamed chat framing.

use branlly::desktop::{validate_chat_message, validate_search_query, wiki_results};
use branlly::linux::{
    map_process_error, merge_bluetooth_listing, parse_bluetooth_listing, parse_network_status,
    parse_pointer_output, parse_usb_listing, parse_wmctrl_listing, parse_wmctrl_window,
    validate_window_id,
};
use branlly::numbers::{parse_i32, parse_u32, IntErrorKind};
use branlly::ollama::{
    check_endpoint, error_body, frame_delta, frame_payload, model_is_listed, status_is_success,
    EndpointHost, EndpointParts,
};
use branlly::platform::launch_identifier;
use branlly::text::{lines, split_once_at, strip_prefix, words};
use branlly::windows;
use branlly::{
    shortcut_specification, shortcut_target, AppLaunchSpec, ChatFrame, ChatRegistry,
    ClientSettings, DeviceInfo, LaunchPlatform, LineBuffer, Message, ModelInfo, NetworkStatus,
    PlatformError, PointerPosition, ProcessFailure, Role, WikiResult, WindowId,
};

#[test]
fn launch_arguments_remain_structured_after_serialization() -> Result<(), serde_json::Error> {
    let specification = AppLaunchSpec {
        identifier: "org.mozilla.firefox".to_owned(),
        arguments: vec![
            "https://example.test/a b".to_owned(),
            "; rm -rf /".to_owned(),
        ],
    };
    let json = serde_json::to_string(&(&specification.identifier, &specification.arguments))?;
    let (identifier, arguments): (String, Vec<String>) = serde_json::from_str(&json)?;
    let restored = AppLaunchSpec {
        identifier,
        arguments,
    };
    assert_eq!(restored, specification);
    assert_eq!(launch_identifier(&restored), Ok("org.mozilla.firefox".to_owned()));
    Ok(())
}

#[test]
fn launch_identifier_is_trimmed_and_checked() {
    let spaced = AppLaunchSpec {
        identifier: "  firefox \n".to_owned(),
        arguments: vec![],
    };
    assert_eq!(launch_identifier(&spaced), Ok("firefox".to_owned()));
    for bad in ["   ", "", "fire\0fox"] {
        let specification = AppLaunchSpec {
            identifier: bad.to_owned(),
            arguments: vec![],
        };
        assert_eq!(
            launch_identifier(&specification),
            Err(PlatformError::InvalidRequest(
                "invalid executable identifier".to_owned()
            ))
        );
    }
}

#[test]
fn integers_read_like_str_parse() {
    assert_eq!(parse_u32("4312"), Ok(4312));
    assert_eq!(parse_u32("+7"), Ok(7));
    assert_eq!(parse_u32("4294967295"), Ok(u32::MAX));
    assert_eq!(parse_u32("4294967296"), Err(IntErrorKind::PosOverflow));
    assert_eq!(parse_u32(""), Err(IntErrorKind::Empty));
    assert_eq!(parse_u32("+"), Err(IntErrorKind::InvalidDigit));
    assert_eq!(parse_u32("-5"), Err(IntErrorKind::InvalidDigit));
    assert_eq!(parse_u32("-0"), Err(IntErrorKind::InvalidDigit));
    assert_eq!(parse_u32(" 5"), Err(IntErrorKind::InvalidDigit));
    assert_eq!(parse_i32("-2147483648"), Ok(i32::MIN));
    assert_eq!(parse_i32("2147483647"), Ok(i32::MAX));
    assert_eq!(parse_i32("-2147483649"), Err(IntErrorKind::NegOverflow));
    assert_eq!(parse_i32("2147483648"), Err(IntErrorKind::PosOverflow));
    assert_eq!(parse_i32("-"), Err(IntErrorKind::InvalidDigit));
    assert_eq!(parse_i32("-0"), Ok(0));
    assert_eq!(parse_i32("12a"), Err(IntErrorKind::InvalidDigit));
    assert_eq!(
        IntErrorKind::InvalidDigit.message(),
        "invalid digit found in string"
    );
    for text in ["", "+", "-", "99999999999", "-99999999999", "1x", "0", "-17"] {
        let expected = text.parse::<i32>().map_err(|error| error.to_string());
        let actual = parse_i32(text).map_err(|kind| kind.message().to_owned());
        assert_eq!(actual, expected, "{text:?}");
        let expected = text.parse::<u32>().map_err(|error| error.to_string());
        let actual = parse_u32(text).map_err(|kind| kind.message().to_owned());
        assert_eq!(actual, expected, "{text:?}");
    }
}

#[test]
fn text_helpers_match_std() {
    for text in ["a\nb\r\nc", "a\n", "", "\n\n", "x\r", "line\r\n"] {
        let expected: Vec<String> = text.lines().map(str::to_owned).collect();
        assert_eq!(lines(text), expected, "{text:?}");
    }
    for text in ["  a  b\tc ", "", "   ", "un\u{a0}deux"] {
        let expected: Vec<String> = text.split_whitespace().map(str::to_owned).collect();
        assert_eq!(words(text), expected, "{text:?}");
    }
    assert_eq!(
        split_once_at("a ID b ID c", " ID "),
        Some(("a".to_owned(), "b ID c".to_owned()))
    );
    assert_eq!(split_once_at("abc", ","), None);
    assert_eq!(strip_prefix("X=12", "X="), Some("12".to_owned()));
    assert_eq!(strip_prefix("Y=12", "X="), None);
}

#[test]
fn wmctrl_lines_without_title_or_pid_are_handled() {
    assert_eq!(parse_wmctrl_window("0x01  0  123 host"), None);
    assert_eq!(parse_wmctrl_window("0x01 0"), None);
    let window = parse_wmctrl_window("0x01 0 notanumber host Mon  titre");
    assert_eq!(window.as_ref().map(|item| item.process_id), Some(None));
    assert_eq!(
        window.as_ref().map(|item| item.application_id.clone()),
        Some(Some("host".to_owned()))
    );
    assert_eq!(window.map(|item| item.title), Some("Mon titre".to_owned()));

    let listing = parse_wmctrl_listing("0x01 0 1 host Un\n\n0x02 0 2 host\n0x03 1 3 host Trois\n");
    let ids: Vec<&str> = listing.iter().map(|item| item.id.0.as_str()).collect();
    assert_eq!(ids, vec!["0x01", "0x03"]);
}

#[test]
fn window_ids_must_be_hexadecimal_handles() {
    assert_eq!(validate_window_id(&WindowId("0x03a00007".to_owned())), Ok(()));
    for bad in ["0x", "03a00007", "0xZZ", "0x12 ", ""] {
        assert_eq!(
            validate_window_id(&WindowId(bad.to_owned())),
            Err(PlatformError::InvalidRequest(
                "invalid X11 window id".to_owned()
            )),
            "{bad:?}"
        );
    }
    assert_eq!(
        windows::validate_handle(&WindowId("0x".to_owned())),
        Err(PlatformError::InvalidRequest(
            "invalid Windows handle".to_owned()
        ))
    );
}

#[test]
fn device_listings_skip_unreadable_lines() {
    let usb = parse_usb_listing(
        "Bus 001 Device 001: ID 1d6b:0002 Linux Foundation 2.0 root hub\ngarbage\nBus 002 Device 003: ID 046d:c52b  Logitech \n",
    );
    assert_eq!(
        usb,
        vec![
            DeviceInfo {
                id: "1d6b:0002".to_owned(),
                name: "Linux Foundation 2.0 root hub".to_owned(),
                connected: true,
                paired: false,
            },
            DeviceInfo {
                id: "046d:c52b".to_owned(),
                name: "Logitech".to_owned(),
                connected: true,
                paired: false,
            },
        ]
    );
    let bluetooth = parse_bluetooth_listing("Device AA Casque\nController BB Hote\nDevice CC \n");
    assert_eq!(bluetooth.len(), 1);
    assert_eq!(bluetooth[0].id, "AA");
}

#[test]
fn bluetooth_connection_follows_connected_listing() {
    let paired = "Device AA:01 Casque\nDevice BB:02 Souris sans fil\n";
    let connected = "Device BB:02 Souris sans fil\n";
    let devices = merge_bluetooth_listing(paired, connected);
    assert_eq!(
        devices,
        vec![
            DeviceInfo {
                id: "AA:01".to_owned(),
                name: "Casque".to_owned(),
                connected: false,
                paired: true,
            },
            DeviceInfo {
                id: "BB:02".to_owned(),
                name: "Souris sans fil".to_owned(),
                connected: true,
                paired: true,
            },
        ]
    );
    assert!(merge_bluetooth_listing(paired, "")
        .iter()
        .all(|device| !device.connected));
}

#[test]
fn network_statuses_are_mapped() {
    assert_eq!(parse_network_status("full\n"), NetworkStatus::Online);
    assert_eq!(parse_network_status("limited"), NetworkStatus::Local);
    assert_eq!(parse_network_status(" portal "), NetworkStatus::Local);
    assert_eq!(parse_network_status("none"), NetworkStatus::Offline);
    assert_eq!(parse_network_status("unknown"), NetworkStatus::Unknown);
    assert_eq!(parse_network_status("FULL"), NetworkStatus::Unknown);
    assert_eq!(windows::parse_network_status("online\r\n"), NetworkStatus::Online);
    assert_eq!(windows::parse_network_status("local"), NetworkStatus::Local);
    assert_eq!(windows::parse_network_status("offline"), NetworkStatus::Offline);
    assert_eq!(windows::parse_network_status("full"), NetworkStatus::Unknown);
}

#[test]
fn pointer_outputs_are_read_or_refused() {
    assert_eq!(
        parse_pointer_output("X=10\nY=-20\nSCREEN=0\nWINDOW=123\n"),
        Ok(PointerPosition { x: 10, y: -20 })
    );
    assert_eq!(
        parse_pointer_output("X=1\nY=2\nX=3\n"),
        Ok(PointerPosition { x: 3, y: 2 })
    );
    assert_eq!(
        parse_pointer_output("X=1\nY=oops\n"),
        Err(PlatformError::Service(
            "invalid xdotool pointer output".to_owned()
        ))
    );
    assert_eq!(
        windows::parse_pointer_output(" 640,-480\r\n"),
        Ok(PointerPosition { x: 640, y: -480 })
    );
    assert_eq!(
        windows::parse_pointer_output("640"),
        Err(PlatformError::Service("invalid pointer output".to_owned()))
    );
    assert_eq!(
        windows::parse_pointer_output("a,1"),
        Err(PlatformError::Service(
            "invalid pointer X: invalid digit found in string".to_owned()
        ))
    );
    assert_eq!(
        windows::parse_pointer_output("1,"),
        Err(PlatformError::Service(
            "invalid pointer Y: cannot parse integer from empty string".to_owned()
        ))
    );
}

#[test]
fn process_failures_become_typed_errors() {
    assert_eq!(
        map_process_error("wmctrl", ProcessFailure::NotFound, "x"),
        PlatformError::Unsupported("required Linux command is not installed")
    );
    assert_eq!(
        map_process_error("wmctrl", ProcessFailure::PermissionDenied, "x"),
        PlatformError::PermissionDenied("cannot execute wmctrl".to_owned())
    );
    assert_eq!(
        map_process_error("wmctrl", ProcessFailure::Other, "boom"),
        PlatformError::Service("cannot execute wmctrl: boom".to_owned())
    );
    assert_eq!(
        windows::process_error("app.exe", ProcessFailure::NotFound, "x"),
        PlatformError::NotFound("executable not found: app.exe".to_owned())
    );
    assert_eq!(
        windows::process_error("app.exe", ProcessFailure::PermissionDenied, "x"),
        PlatformError::PermissionDenied("cannot execute app.exe".to_owned())
    );
    assert_eq!(
        windows::process_error("app.exe", ProcessFailure::Other, "boom"),
        PlatformError::Service("cannot execute app.exe: boom".to_owned())
    );
}

#[test]
fn shortcuts_are_an_allow_list() {
    assert_eq!(shortcut_target("discord"), Some("https://discord.com/app"));
    assert_eq!(shortcut_target("steam"), Some("steam://open/main"));
    assert_eq!(shortcut_target("Discord"), None);
    assert_eq!(shortcut_target("rm -rf"), None);
    assert_eq!(
        shortcut_specification(LaunchPlatform::Linux, "twitch"),
        Some(AppLaunchSpec {
            identifier: "xdg-open".to_owned(),
            arguments: vec!["https://www.twitch.tv".to_owned()],
        })
    );
    assert_eq!(
        shortcut_specification(LaunchPlatform::Windows, "disney"),
        Some(AppLaunchSpec {
            identifier: "explorer.exe".to_owned(),
            arguments: vec!["https://www.disneyplus.com".to_owned()],
        })
    );
    assert_eq!(shortcut_specification(LaunchPlatform::Linux, "unknown"), None);
}

#[test]
fn chat_and_search_input_are_bounded() {
    assert_eq!(validate_chat_message("  salut \n"), Ok("salut".to_owned()));
    let refused = Err("Le message doit contenir entre 1 et 4000 caractères.".to_owned());
    assert_eq!(validate_chat_message(" \t "), refused);
    assert_eq!(validate_chat_message(&"é".repeat(4001)), refused);
    assert_eq!(validate_chat_message(&"é".repeat(4000)), Ok("é".repeat(4000)));
    assert_eq!(validate_search_query(" Paris "), Ok("Paris".to_owned()));
    assert_eq!(
        validate_search_query(&"a".repeat(121)),
        Err("La recherche doit contenir entre 1 et 120 caractères.".to_owned())
    );
}

#[test]
fn wiki_columns_are_read_side_by_side() {
    let column = |values: &[Option<&str>]| -> Option<Vec<Option<String>>> {
        Some(values.iter().map(|value| value.map(str::to_owned)).collect())
    };
    let results = wiki_results(
        column(&[Some("Paris"), Some("Lyon"), None]),
        column(&[Some("Capitale"), None, Some("x"), Some("extra")]),
        column(&[Some("https://fr.wikipedia.org/wiki/Paris"), Some("u2"), Some("u3")]),
    );
    assert_eq!(
        results,
        Ok(vec![WikiResult {
            title: "Paris".to_owned(),
            description: "Capitale".to_owned(),
            url: "https://fr.wikipedia.org/wiki/Paris".to_owned(),
        }])
    );
    assert_eq!(
        wiki_results(column(&[]), None, column(&[])),
        Err("Réponse Wikipédia invalide.".to_owned())
    );
    assert_eq!(wiki_results(column(&[]), column(&[]), column(&[])), Ok(vec![]));
}

#[test]
fn chat_registry_supersedes_and_clears_only_the_current_request() {
    let mut registry = ChatRegistry::new();
    assert_eq!(registry.active(), None);
    assert_eq!(registry.start(), (1, None));
    assert_eq!(registry.start(), (2, Some(1)));
    registry.clear(1);
    assert_eq!(registry.active(), Some(2));
    registry.clear(2);
    assert_eq!(registry.active(), None);
    assert_eq!(registry.start(), (3, None));
}

#[test]
fn client_settings_normalize_the_endpoint() {
    let settings = ClientSettings::new("http://localhost:11434", " qwen2.5:3b ");
    assert_eq!(
        settings,
        Ok(ClientSettings {
            base_path: "/".to_owned(),
            model: "qwen2.5:3b".to_owned(),
        })
    );
    let nested = ClientSettings::new("https://127.0.0.1/ollama", "m");
    assert_eq!(
        nested.map(|settings| settings.base_path),
        Ok("/ollama/".to_owned())
    );
    assert!(ClientSettings::new("http://[::1]:11434/", "m").is_ok());
    assert!(ClientSettings::new("http://127.3.2.1:11434", "m").is_ok());
    assert!(ClientSettings::new("http://LOCALHOST:11434", "m").is_ok());
    assert_eq!(
        ClientSettings::new("file:///tmp/socket", "qwen"),
        Err("endpoint must use http or https".to_owned())
    );
    let remote = Err("endpoint must be a loopback address".to_owned());
    assert_eq!(ClientSettings::new("https://example.test/ollama", "m"), remote);
    assert_eq!(ClientSettings::new("http://128.0.0.1:11434", "m"), remote);
    assert_eq!(ClientSettings::new("http://[::2]:11434", "m"), remote);
    assert_eq!(ClientSettings::new("http://127.evil.test", "m"), remote);
    let credentials = Err("endpoint must not include credentials".to_owned());
    assert_eq!(ClientSettings::new("http://user@localhost:11434", "m"), credentials);
    assert_eq!(ClientSettings::new("http://:secret@127.0.0.1:11434", "m"), credentials);
    assert!(ClientSettings::new("not a url", "qwen").is_err());
}

#[test]
fn model_availability_requires_the_exact_tag() {
    let models = vec![
        ModelInfo {
            name: "qwen2.5:3b".to_owned(),
        },
        ModelInfo {
            name: "llama3.2:1b".to_owned(),
        },
    ];
    assert!(model_is_listed(&models, "qwen2.5:3b"));
    assert!(!model_is_listed(&models, "qwen2.5"));
    assert!(!model_is_listed(&[], "qwen2.5:3b"));
}

#[test]
fn http_statuses_and_error_bodies() {
    assert!(status_is_success(200));
    assert!(status_is_success(299));
    assert!(!status_is_success(199));
    assert!(!status_is_success(404));
    assert_eq!(error_body("court"), "court");
    let long = "é".repeat(1500);
    assert_eq!(error_body(&long), "é".repeat(1024));
}

#[test]
fn frames_are_stripped_before_decoding() {
    assert_eq!(frame_payload(b"  \r\n"), None);
    assert_eq!(frame_payload(b""), None);
    assert_eq!(frame_payload(b"{}\r\n"), Some(b"{}".to_vec()));
    assert_eq!(frame_payload(b"{}\n"), Some(b"{}".to_vec()));
    assert_eq!(frame_payload(b"{}\r"), Some(b"{}".to_vec()));
    assert_eq!(frame_payload(b"{}"), Some(b"{}".to_vec()));
    assert_eq!(
        frame_delta(ChatFrame {
            message: Some(Message::new(Role::Assistant, "")),
            done: false,
            error: None,
        }),
        Ok(None)
    );
    assert_eq!(
        frame_delta(ChatFrame {
            message: Some(Message::new(Role::Assistant, "x")),
            done: true,
            error: Some("boom".to_owned()),
        }),
        Err("boom".to_owned())
    );
}

#[test]
fn line_buffer_ignores_chunk_boundaries() {
    let stream: &[u8] = b"{\"a\":1}\n{\"b\":2}\r\n  \n{\"c\":3}";
    let mut whole = LineBuffer::new();
    let mut expected = whole.push(stream);
    expected.extend(whole.finish());
    assert_eq!(
        expected,
        vec![
            b"{\"a\":1}\n".to_vec(),
            b"{\"b\":2}\r\n".to_vec(),
            b"  \n".to_vec(),
            b"{\"c\":3}".to_vec(),
        ]
    );
    for split in 0..=stream.len() {
        let mut buffer = LineBuffer::new();
        let mut lines = buffer.push(&stream[..split]);
        lines.extend(buffer.push(&stream[split..]));
        lines.extend(buffer.finish());
        assert_eq!(lines, expected, "split at {split}");
    }
    let mut blank_tail = LineBuffer::new();
    assert_eq!(blank_tail.push(b"x\n \t"), vec![b"x\n".to_vec()]);
    assert_eq!(blank_tail.finish(), None);
}

#[test]
fn parsed_endpoints_are_checked_in_order() {
    let parts = |scheme: &str, host: Option<EndpointHost>, username: &str| EndpointParts {
        scheme: scheme.to_owned(),
        username: username.to_owned(),
        password: None,
        host,
        path: "/api".to_owned(),
    };
    assert_eq!(
        check_endpoint(Ok(parts("http", Some(EndpointHost::Ipv4(0x7F00_0001)), "")), "m"),
        Ok(ClientSettings {
            base_path: "/api/".to_owned(),
            model: "m".to_owned(),
        })
    );
    assert_eq!(
        check_endpoint(Ok(parts("ftp", None, "u")), " "),
        Err("endpoint must use http or https".to_owned())
    );
    assert_eq!(
        check_endpoint(Ok(parts("https", None, "u")), " "),
        Err("endpoint must include a host".to_owned())
    );
    assert_eq!(
        check_endpoint(
            Ok(parts("https", Some(EndpointHost::Domain("example.test".to_owned())), "u")),
            " "
        ),
        Err("endpoint must not include credentials".to_owned())
    );
    assert_eq!(
        check_endpoint(Ok(parts("https", Some(EndpointHost::Ipv6(2)), "")), " "),
        Err("endpoint must be a loopback address".to_owned())
    );
    assert_eq!(
        check_endpoint(Ok(parts("https", Some(EndpointHost::Ipv6(1)), "")), " "),
        Err("model must not be empty".to_owned())
    );
    assert_eq!(
        check_endpoint(Err("relative URL without a base".to_owned()), "m"),
        Err("relative URL without a base".to_owned())
    );
}

#[test]
fn line_buffer_handles_any_number_of_chunks() {
    let stream: &[u8] = b"{\"a\":1}\n\n{\"b\":2}\r\nrest";
    let mut whole = LineBuffer::new();
    let expected = whole.push(stream);
    let tail = whole.finish();
    for size in 1..=stream.len() {
        let mut buffer = LineBuffer::new();
        let mut lines = Vec::new();
        for chunk in stream.chunks(size) {
            lines.extend(buffer.push(chunk));
        }
        assert_eq!(lines, expected, "chunks of {size}");
        assert_eq!(buffer.finish(), tail, "chunks of {size}");
    }
    assert_eq!(tail, Some(b"rest".to_vec()));
}
