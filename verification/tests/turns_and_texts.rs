//! Chat turns, temporary-file cleanup plans, endpoint paths and error texts.

use branlly::desktop::{removed_count, stale_entries};
use branlly::ollama::check_chat_context;
use branlly::linux::{command_failure, invalid_utf8};
use branlly::numbers::decimal_text;
use branlly::windows::{
    bluetooth_from_pnp, device_from_pnp, invalid_json, powershell_failure,
    powershell_invalid_utf8, window_from_process, PowerShellListing,
};
use branlly::{
    BranllyConfig, BranllyState, ChatAction, ChatTurn, ClientSettings, CoreError, DeviceInfo,
    Message, Mood, PlatformError, Role, StreamStep, WindowId, WindowInfo,
};

const DAY: i128 = 86_400_000_000_000;

fn fresh() -> BranllyState {
    match BranllyState::new(BranllyConfig::default()) {
        Ok(state) => state,
        Err(error) => unreachable!("default configuration must be valid: {error:?}"),
    }
}

#[test]
fn chat_turn_records_the_concatenated_reply() {
    let mut domain = fresh();
    let (mut turn, context) = match ChatTurn::begin(&mut domain, "  Salut ?  ") {
        Ok(opened) => opened,
        Err(error) => unreachable!("message must be accepted: {error}"),
    };
    assert_eq!(context.len(), 2);
    assert_eq!(context[0].role, Role::System);
    assert_eq!(context[1], Message::new(Role::User, "Salut ?"));
    assert_eq!(domain.mood(), Mood::Curious);
    assert_eq!(domain.energy(), 64);

    for piece in ["Pff... ", "Bonjour", "."] {
        let before = domain.clone();
        assert_eq!(
            turn.step(&mut domain, StreamStep::Delta(piece.to_owned())),
            ChatAction::Forward(piece.to_owned())
        );
        assert_eq!(domain, before);
    }
    assert_eq!(turn.step(&mut domain, StreamStep::Finished), ChatAction::Complete);
    assert_eq!(
        domain.conversation().last(),
        Some(&Message::new(Role::Assistant, "Pff... Bonjour."))
    );
    assert_eq!(domain.mood(), Mood::Happy);
    assert_eq!(domain.energy(), 65);
}

#[test]
fn failed_stream_records_no_reply() {
    let mut domain = fresh();
    let (mut turn, _) = match ChatTurn::begin(&mut domain, "question") {
        Ok(opened) => opened,
        Err(error) => unreachable!("message must be accepted: {error}"),
    };
    assert_eq!(
        turn.step(&mut domain, StreamStep::Delta("début".to_owned())),
        ChatAction::Forward("début".to_owned())
    );
    assert_eq!(
        turn.step(&mut domain, StreamStep::Failed("réseau coupé".to_owned())),
        ChatAction::Fail("réseau coupé".to_owned())
    );
    assert_eq!(domain.conversation().len(), 1);
    assert_eq!(domain.conversation()[0].role, Role::User);
    assert_eq!(domain.mood(), Mood::Irritated);
    assert_eq!(domain.energy(), 62);
}

#[test]
fn blank_reply_fails_without_recording() {
    let mut domain = fresh();
    let (mut turn, _) = match ChatTurn::begin(&mut domain, "question") {
        Ok(opened) => opened,
        Err(error) => unreachable!("message must be accepted: {error}"),
    };
    assert_eq!(
        turn.step(&mut domain, StreamStep::Delta(" \n".to_owned())),
        ChatAction::Forward(" \n".to_owned())
    );
    let before = domain.clone();
    assert_eq!(
        turn.step(&mut domain, StreamStep::Finished),
        ChatAction::Fail("message cannot be empty".to_owned())
    );
    assert_eq!(domain, before);
}

#[test]
fn refused_chat_message_leaves_state_unchanged() {
    let mut domain = fresh();
    let before = domain.clone();
    let refusal = "Le message doit contenir entre 1 et 4000 caractères.".to_owned();
    assert_eq!(
        ChatTurn::begin(&mut domain, "   ").map(|(_, context)| context),
        Err(refusal.clone())
    );
    assert_eq!(
        ChatTurn::begin(&mut domain, &"x".repeat(4001)).map(|(_, context)| context),
        Err(refusal)
    );
    assert_eq!(domain, before);
}

#[test]
fn cleanup_plan_selects_entries_older_than_a_day() {
    let now = 10 * DAY;
    let plan = stale_entries(
        now,
        &[Some(now - DAY - 1), Some(now - DAY), Some(now), None, Some(0)],
    );
    assert_eq!(plan, Ok(vec![true, false, false, false, true]));
    assert_eq!(stale_entries(DAY, &[Some(0)]), Ok(vec![false]));
    let hour = DAY / 24;
    assert_eq!(
        stale_entries(hour, &[Some(0), Some(-DAY), Some(-DAY + hour - 1), None]),
        Ok(vec![false, true, true, false])
    );
    assert_eq!(
        stale_entries(-3 * DAY, &[Some(-5 * DAY), Some(-4 * DAY)]),
        Ok(vec![true, false])
    );
    assert_eq!(
        stale_entries(i128::MIN + DAY - 1, &[Some(i128::MIN)]),
        Err("Horloge système invalide.".to_owned())
    );
    assert_eq!(stale_entries(i128::MIN + DAY, &[Some(i128::MIN)]), Ok(vec![false]));
    assert_eq!(stale_entries(now, &[]), Ok(vec![]));
    assert_eq!(removed_count(&[true, false, true, true]), 3);
    assert_eq!(removed_count(&[]), 0);
}

#[test]
fn api_paths_sit_below_the_base_path() {
    let settings = ClientSettings::new("http://127.0.0.1:11434/ollama", "qwen2.5:3b");
    assert_eq!(
        settings.as_ref().map(ClientSettings::tags_path),
        Ok("/ollama/api/tags".to_owned())
    );
    assert_eq!(
        settings.as_ref().map(ClientSettings::chat_path),
        Ok("/ollama/api/chat".to_owned())
    );
}

#[test]
fn error_texts_match_their_display() {
    assert_eq!(
        CoreError::InvalidConfiguration("x".to_owned()).message(),
        "invalid configuration: x"
    );
    assert_eq!(CoreError::EmptyMessage.message(), "message cannot be empty");
    assert_eq!(
        CoreError::UnsupportedSchema {
            found: 30,
            expected: 2,
        }
        .message(),
        "unsupported memory schema version 30; expected 2"
    );
    assert_eq!(
        CoreError::Storage("disk".to_owned()).message(),
        "storage failure: disk"
    );
    assert_eq!(
        PlatformError::Unsupported("bluetooth").message(),
        "capability unavailable: bluetooth"
    );
    assert_eq!(
        PlatformError::NotFound("w".to_owned()).message(),
        "resource not found: w"
    );
    assert_eq!(
        PlatformError::PermissionDenied("w".to_owned()).message(),
        "permission denied: w"
    );
    assert_eq!(
        PlatformError::Service("w".to_owned()).message(),
        "platform service failure: w"
    );
    assert_eq!(
        PlatformError::InvalidRequest("w".to_owned()).message(),
        "invalid platform request: w"
    );
    for n in [0, 7, 10, 99, 100, 4_294_967_295u32] {
        assert_eq!(decimal_text(n), n.to_string());
    }
}

#[test]
fn command_failures_carry_status_and_trimmed_output() {
    assert_eq!(
        command_failure("wmctrl", "exit status: 1", "  Cannot open display.\n"),
        PlatformError::Service("wmctrl exited with exit status: 1: Cannot open display.".to_owned())
    );
    assert_eq!(
        invalid_utf8("lsusb", "bad byte"),
        PlatformError::Service("invalid UTF-8 from lsusb: bad byte".to_owned())
    );
    assert_eq!(
        powershell_failure("exit code: 4", "\r\nboom\r\n"),
        PlatformError::Service("PowerShell exited with exit code: 4: boom".to_owned())
    );
    assert_eq!(
        powershell_invalid_utf8("bad"),
        PlatformError::Service("invalid PowerShell UTF-8: bad".to_owned())
    );
    assert_eq!(
        invalid_json(PowerShellListing::Bluetooth, "eof"),
        PlatformError::Service("invalid Bluetooth JSON: eof".to_owned())
    );
    assert_eq!(
        invalid_json(PowerShellListing::Windows, "eof"),
        PlatformError::Service("invalid window JSON: eof".to_owned())
    );
    assert_eq!(
        invalid_json(PowerShellListing::Devices, "eof"),
        PlatformError::Service("invalid device JSON: eof".to_owned())
    );
}

#[test]
fn powershell_records_become_library_values() {
    assert_eq!(
        window_from_process("0x1A".to_owned(), "Bloc-notes".to_owned(), 42, "notepad".to_owned()),
        WindowInfo {
            id: WindowId("0x1A".to_owned()),
            title: "Bloc-notes".to_owned(),
            application_id: Some("notepad".to_owned()),
            process_id: Some(42),
        }
    );
    assert_eq!(
        bluetooth_from_pnp("BTH\\1".to_owned(), "Casque".to_owned(), false),
        DeviceInfo {
            id: "BTH\\1".to_owned(),
            name: "Casque".to_owned(),
            connected: false,
            paired: true,
        }
    );
    assert_eq!(
        device_from_pnp("USB\\2".to_owned(), "Souris".to_owned()),
        DeviceInfo {
            id: "USB\\2".to_owned(),
            name: "Souris".to_owned(),
            connected: true,
            paired: false,
        }
    );
}

#[test]
fn any_sequence_of_calls_keeps_the_state_valid() {
    let mut state = fresh();
    for round in 0..60 {
        let _ = state.record_user_message(&format!("q{round}"));
        state.idle_tick();
        if round % 3 == 0 {
            state.mark_recoverable_error();
        }
        let _ = state.record_assistant_message(if round % 5 == 0 { " " } else { "r" });
        assert_eq!(state.validate(), Ok(()));
    }
}

#[test]
fn chat_requests_need_a_context() {
    assert_eq!(
        check_chat_context(&[]),
        Err("chat context must not be empty".to_owned())
    );
    assert_eq!(
        check_chat_context(&[Message::new(Role::System, "Tu es Branlly")]),
        Ok(())
    );
}
