//! Domain behaviour: configuration, conversation, energy, launcher and memory.

use branlly::{
    BranllyConfig, BranllyState, CoreError, LaunchConfiguration, LaunchItem, LaunchItemKind,
    MemorySnapshot, Mood, Role, MEMORY_SCHEMA_VERSION,
};

fn state_with_limit(history_limit: usize) -> BranllyState {
    let config = BranllyConfig {
        history_limit,
        ..BranllyConfig::default()
    };
    match BranllyState::new(config) {
        Ok(state) => state,
        Err(error) => unreachable!("test configuration must be valid: {error:?}"),
    }
}

#[test]
fn defaults_are_valid_and_use_required_model() {
    let config = BranllyConfig::default();
    assert_eq!(config.model, "qwen2.5:3b");
    assert!(config.system_prompt.contains("gros flemmard sarcastique"));
    assert!(config
        .system_prompt
        .contains("n'affirme jamais avoir exécuté"));
    assert_eq!(config.validate(), Ok(()));
}

#[test]
fn rejects_blank_model_and_out_of_range_history() {
    let blank_model = BranllyConfig {
        model: "  ".to_owned(),
        ..BranllyConfig::default()
    };
    assert!(matches!(
        blank_model.validate(),
        Err(CoreError::InvalidConfiguration(_))
    ));

    let invalid_history = BranllyConfig {
        history_limit: 1,
        ..BranllyConfig::default()
    };
    assert!(invalid_history.validate().is_err());
}

#[test]
fn launcher_items_are_stable_and_reject_duplicates() {
    let mut state = state_with_limit(4);
    let item = LaunchItem {
        id: "firefox".to_owned(),
        kind: LaunchItemKind::Application,
        name: "Firefox".to_owned(),
        icon: None,
        order: 9,
        platform: None,
        launch: LaunchConfiguration::Application {
            identifier: "firefox".to_owned(),
            arguments: vec![],
        },
    };
    assert!(state.set_launch_items(vec![item.clone()]).is_ok());
    assert_eq!(state.launch_items()[0].order, 0);
    assert!(state.set_launch_items(vec![item.clone(), item]).is_err());
}

#[test]
fn chat_context_always_starts_with_system_prompt() {
    let state = state_with_limit(4);
    let context = state.chat_context();
    assert_eq!(context.len(), 1);
    assert_eq!(context[0].role, Role::System);
    assert!(!context[0].content.is_empty());
}

#[test]
fn messages_are_trimmed_and_history_is_bounded() {
    let mut state = state_with_limit(2);
    assert_eq!(state.record_user_message("  un  "), Ok(()));
    assert_eq!(state.record_assistant_message("deux"), Ok(()));
    assert_eq!(state.record_user_message("trois"), Ok(()));

    assert_eq!(state.conversation().len(), 2);
    assert_eq!(state.conversation()[0].content, "deux");
    assert_eq!(state.conversation()[1].content, "trois");
}

#[test]
fn empty_messages_do_not_mutate_state() {
    let mut state = state_with_limit(4);
    let before = state.clone();
    assert_eq!(
        state.record_user_message(" \n "),
        Err(CoreError::EmptyMessage)
    );
    assert_eq!(state, before);
}

#[test]
fn energy_is_saturating_and_mood_transitions_are_deterministic() {
    let config = BranllyConfig {
        initial_energy: 1,
        ..BranllyConfig::default()
    };
    let mut state = match BranllyState::new(config) {
        Ok(state) => state,
        Err(error) => unreachable!("test configuration must be valid: {error:?}"),
    };

    state.idle_tick();
    state.idle_tick();
    assert_eq!(state.energy(), 0);
    assert_eq!(state.mood(), Mood::Sleepy);

    assert_eq!(state.record_assistant_message("Réveillé."), Ok(()));
    assert_eq!(state.energy(), 1);
    assert_eq!(state.mood(), Mood::Happy);
}

#[test]
fn v1_snapshot_migrates_with_an_empty_uninitialized_launcher() -> Result<(), CoreError> {
    let snapshot = MemorySnapshot {
        schema_version: 1,
        state: BranllyState::new(BranllyConfig::default())?,
    };
    let state = snapshot.into_state()?;
    assert!(state.launch_items().is_empty());
    assert!(!state.launcher_initialized());
    Ok(())
}

#[test]
fn removed_defaults_stay_removed_after_persistence() -> Result<(), CoreError> {
    let mut state = BranllyState::new(BranllyConfig::default())?;
    state.set_launch_items(Vec::new())?;
    let restored = MemorySnapshot::current(state).into_state()?;
    assert!(restored.launcher_initialized());
    assert!(restored.launch_items().is_empty());
    Ok(())
}

#[test]
fn application_and_future_routine_serialize() -> Result<(), CoreError> {
    let application = LaunchItem {
        id: "app".to_owned(),
        kind: LaunchItemKind::Application,
        name: "App".to_owned(),
        icon: None,
        order: 0,
        platform: None,
        launch: LaunchConfiguration::Application {
            identifier: "app.exe".to_owned(),
            arguments: vec![],
        },
    };
    let routine = LaunchItem {
        id: "routine".to_owned(),
        kind: LaunchItemKind::Routine,
        name: "Routine".to_owned(),
        icon: None,
        order: 1,
        platform: None,
        launch: LaunchConfiguration::Routine {
            routine_id: "future".to_owned(),
        },
    };
    let mut state = BranllyState::new(BranllyConfig::default())?;
    state.set_launch_items(vec![application, routine])?;
    assert_eq!(MemorySnapshot::current(state.clone()).into_state()?, state);
    Ok(())
}

#[test]
fn future_schema_is_rejected_explicitly() -> Result<(), CoreError> {
    let snapshot = MemorySnapshot {
        schema_version: MEMORY_SCHEMA_VERSION + 1,
        state: BranllyState::new(BranllyConfig::default())?,
    };

    assert!(matches!(
        snapshot.into_state(),
        Err(CoreError::UnsupportedSchema { .. })
    ));
    Ok(())
}
