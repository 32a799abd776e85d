//! Concrete cases of the domain laws: launcher ordering, bounded history, energy
//! bounds, mood transitions and snapshot restoration.

use branlly::{
    BranllyConfig, BranllyState, CoreError, LaunchConfiguration, LaunchItem, LaunchItemKind,
    LaunchPlatform, MemorySnapshot, Message, Mood, Role, MEMORY_SCHEMA_VERSION,
};

fn fresh(config: BranllyConfig) -> BranllyState {
    match BranllyState::new(config) {
        Ok(state) => state,
        Err(error) => unreachable!("test configuration must be valid: {error:?}"),
    }
}

fn application(id: &str, order: u32) -> LaunchItem {
    LaunchItem {
        id: id.to_owned(),
        kind: LaunchItemKind::Application,
        name: id.to_uppercase(),
        icon: None,
        order,
        platform: None,
        launch: LaunchConfiguration::Application {
            identifier: format!("{id}.bin"),
            arguments: vec!["--flag".to_owned()],
        },
    }
}

fn ids(state: &BranllyState) -> Vec<String> {
    state.launch_items().iter().map(|item| item.id.clone()).collect()
}

fn orders(state: &BranllyState) -> Vec<u32> {
    state.launch_items().iter().map(|item| item.order).collect()
}

#[test]
fn snapshot_round_trip_preserves_valid_state() -> Result<(), CoreError> {
    let mut state = BranllyState::new(BranllyConfig::default())?;
    state.record_user_message("Bonjour")?;
    state.record_assistant_message("Hmm. Bonjour.")?;

    let decoded = MemorySnapshot::current(state.clone());
    assert_eq!(decoded.schema_version, MEMORY_SCHEMA_VERSION);
    assert_eq!(decoded.into_state()?, state);
    Ok(())
}

#[test]
fn launcher_sort_is_stable_and_renumbers_from_zero() {
    let mut state = fresh(BranllyConfig::default());
    let items = vec![
        application("c", 7),
        application("a", 3),
        application("d", 7),
        application("b", 5),
    ];
    assert_eq!(state.set_launch_items(items), Ok(()));
    assert_eq!(ids(&state), vec!["a", "b", "c", "d"]);
    assert_eq!(orders(&state), vec![0, 1, 2, 3]);
    assert!(state.launcher_initialized());
    assert_eq!(state.launch_items()[0].name, "A");
    assert_eq!(
        state.launch_items()[2].launch,
        LaunchConfiguration::Application {
            identifier: "c.bin".to_owned(),
            arguments: vec!["--flag".to_owned()],
        }
    );
}

#[test]
fn launcher_update_is_idempotent() {
    let mut state = fresh(BranllyConfig::default());
    let items = vec![application("x", 40), application("y", 10)];
    assert_eq!(state.set_launch_items(items), Ok(()));
    let first = state.launch_items().to_vec();
    assert_eq!(state.set_launch_items(first.clone()), Ok(()));
    assert_eq!(state.launch_items(), first.as_slice());
}

#[test]
fn refused_launcher_update_leaves_state_unchanged() {
    let mut state = fresh(BranllyConfig::default());
    assert_eq!(state.set_launch_items(vec![application("keep", 1)]), Ok(()));
    let before = state.clone();

    let duplicate = vec![application("same", 1), application("same", 2)];
    assert_eq!(
        state.set_launch_items(duplicate),
        Err(CoreError::InvalidConfiguration(
            "duplicate launcher item".to_owned()
        ))
    );
    assert_eq!(state, before);

    let mut blank_name = application("blank", 0);
    blank_name.name = "   ".to_owned();
    assert_eq!(
        state.set_launch_items(vec![blank_name]),
        Err(CoreError::InvalidConfiguration(
            "launcher item requires id and name".to_owned()
        ))
    );
    assert_eq!(state, before);

    let mismatched = LaunchItem {
        kind: LaunchItemKind::Routine,
        ..application("mismatch", 0)
    };
    assert_eq!(
        state.set_launch_items(vec![mismatched]),
        Err(CoreError::InvalidConfiguration(
            "invalid launcher item configuration".to_owned()
        ))
    );
    assert_eq!(state, before);
}

#[test]
fn launch_item_validation_covers_each_rule() {
    let nul = LaunchItem {
        launch: LaunchConfiguration::Application {
            identifier: "bad\0name".to_owned(),
            arguments: vec![],
        },
        ..application("nul", 0)
    };
    assert!(nul.validate().is_err());

    let blank_identifier = LaunchItem {
        launch: LaunchConfiguration::Application {
            identifier: " \t".to_owned(),
            arguments: vec![],
        },
        ..application("blank", 0)
    };
    assert!(blank_identifier.validate().is_err());

    let routine = LaunchItem {
        id: "routine".to_owned(),
        kind: LaunchItemKind::Routine,
        name: "Routine".to_owned(),
        icon: Some("icon".to_owned()),
        order: 0,
        platform: Some(LaunchPlatform::Windows),
        launch: LaunchConfiguration::Routine {
            routine_id: "morning".to_owned(),
        },
    };
    assert_eq!(routine.validate(), Ok(()));
    let blank_routine = LaunchItem {
        launch: LaunchConfiguration::Routine {
            routine_id: "  ".to_owned(),
        },
        ..routine
    };
    assert!(blank_routine.validate().is_err());
}

#[test]
fn history_never_exceeds_limit() {
    let mut state = fresh(BranllyConfig {
        history_limit: 3,
        ..BranllyConfig::default()
    });
    for turn in 0..10 {
        assert_eq!(state.record_user_message(&format!("question {turn}")), Ok(()));
        assert!(state.conversation().len() <= 3);
        assert_eq!(state.record_assistant_message(&format!("réponse {turn}")), Ok(()));
        assert!(state.conversation().len() <= 3);
    }
    let contents: Vec<&str> = state
        .conversation()
        .iter()
        .map(|message| message.content.as_str())
        .collect();
    assert_eq!(contents, vec!["réponse 8", "question 9", "réponse 9"]);
    assert_eq!(state.validate(), Ok(()));
}

#[test]
fn energy_saturates_at_both_ends() {
    let mut full = fresh(BranllyConfig {
        initial_energy: 100,
        ..BranllyConfig::default()
    });
    assert_eq!(full.record_assistant_message("encore"), Ok(()));
    assert_eq!(full.energy(), 100);
    assert_eq!(full.mood(), Mood::Happy);

    let mut empty = fresh(BranllyConfig {
        initial_energy: 1,
        ..BranllyConfig::default()
    });
    empty.mark_recoverable_error();
    assert_eq!(empty.energy(), 0);
    assert_eq!(empty.mood(), Mood::Irritated);
    assert_eq!(empty.record_user_message("debout"), Ok(()));
    assert_eq!(empty.energy(), 0);
    assert_eq!(empty.mood(), Mood::Curious);
    empty.idle_tick();
    assert_eq!(empty.mood(), Mood::Sleepy);
}

#[test]
fn idle_tick_is_neutral_above_zero() {
    let mut state = fresh(BranllyConfig::default());
    state.idle_tick();
    assert_eq!(state.energy(), 64);
    assert_eq!(state.mood(), Mood::Neutral);
    state.mark_recoverable_error();
    assert_eq!(state.energy(), 62);
    assert_eq!(Mood::default(), Mood::Neutral);
}

#[test]
fn chat_context_is_prompt_then_conversation() {
    let mut state = fresh(BranllyConfig {
        system_prompt: "  Sois bref.  ".to_owned(),
        ..BranllyConfig::default()
    });
    assert_eq!(state.record_user_message("salut"), Ok(()));
    assert_eq!(state.record_assistant_message("pff"), Ok(()));
    let context = state.chat_context();
    assert_eq!(
        context,
        vec![
            Message::new(Role::System, "Sois bref."),
            Message::new(Role::User, "salut"),
            Message::new(Role::Assistant, "pff"),
        ]
    );
}

#[test]
fn message_new_trims_unicode_whitespace() {
    let message = Message::new(Role::User, "\u{3000}\t bonjour le monde \n\u{a0}");
    assert_eq!(message.content, "bonjour le monde");
    assert_eq!(message.role, Role::User);
}

#[test]
fn config_messages_name_the_first_broken_rule() {
    let blank_prompt = BranllyConfig {
        system_prompt: "\n".to_owned(),
        ..BranllyConfig::default()
    };
    assert_eq!(
        blank_prompt.validate(),
        Err(CoreError::InvalidConfiguration(
            "system prompt must not be empty".to_owned()
        ))
    );
    let too_long = BranllyConfig {
        history_limit: 201,
        ..BranllyConfig::default()
    };
    assert_eq!(
        too_long.validate(),
        Err(CoreError::InvalidConfiguration(
            "history limit must be between 2 and 200".to_owned()
        ))
    );
    let too_lively = BranllyConfig {
        initial_energy: 101,
        ..BranllyConfig::default()
    };
    assert_eq!(
        BranllyState::new(too_lively),
        Err(CoreError::InvalidConfiguration(
            "initial energy must be between 0 and 100".to_owned()
        ))
    );
    let both = BranllyConfig {
        model: String::new(),
        history_limit: 0,
        ..BranllyConfig::default()
    };
    assert_eq!(
        both.validate(),
        Err(CoreError::InvalidConfiguration(
            "model must not be empty".to_owned()
        ))
    );
    let edges = BranllyConfig {
        history_limit: 200,
        initial_energy: 0,
        ..BranllyConfig::default()
    };
    assert_eq!(edges.validate(), Ok(()));
}

#[test]
fn persisted_state_is_revalidated() {
    let config = BranllyConfig::default();
    let lively = BranllyState::from_parts(config.clone(), Mood::Happy, 101, vec![], vec![], false);
    assert_eq!(
        lively.validate(),
        Err(CoreError::InvalidConfiguration(
            "persisted energy must be between 0 and 100".to_owned()
        ))
    );

    let small = BranllyConfig {
        history_limit: 2,
        ..config.clone()
    };
    let long = BranllyState::from_parts(
        small,
        Mood::Neutral,
        10,
        vec![
            Message::new(Role::User, "a"),
            Message::new(Role::Assistant, "b"),
            Message::new(Role::User, "c"),
        ],
        vec![],
        false,
    );
    assert_eq!(
        long.validate(),
        Err(CoreError::InvalidConfiguration(
            "persisted conversation exceeds history limit".to_owned()
        ))
    );

    let unordered = BranllyState::from_parts(
        config.clone(),
        Mood::Neutral,
        10,
        vec![],
        vec![application("b", 2), application("a", 1)],
        true,
    );
    assert_eq!(
        unordered.validate(),
        Err(CoreError::InvalidConfiguration(
            "persisted launcher items are invalid".to_owned()
        ))
    );

    let system = BranllyState::from_parts(
        config.clone(),
        Mood::Neutral,
        10,
        vec![Message::new(Role::System, "règle")],
        vec![],
        false,
    );
    assert_eq!(
        system.validate(),
        Err(CoreError::InvalidConfiguration(
            "persisted conversation contains an invalid message".to_owned()
        ))
    );

    let good = BranllyState::from_parts(
        config,
        Mood::Curious,
        10,
        vec![Message::new(Role::User, "a")],
        vec![application("a", 1), application("b", 2)],
        true,
    );
    assert_eq!(good.validate(), Ok(()));
    assert_eq!(
        MemorySnapshot {
            schema_version: 1,
            state: good.clone(),
        }
        .into_state(),
        Ok(good)
    );
}

#[test]
fn schema_zero_and_invalid_state_are_refused() {
    let state = fresh(BranllyConfig::default());
    assert_eq!(
        MemorySnapshot {
            schema_version: 0,
            state: state.clone(),
        }
        .into_state(),
        Err(CoreError::UnsupportedSchema {
            found: 0,
            expected: MEMORY_SCHEMA_VERSION,
        })
    );
    let broken = BranllyState::from_parts(
        BranllyConfig::default(),
        Mood::Neutral,
        200,
        vec![],
        vec![],
        false,
    );
    assert_eq!(
        MemorySnapshot::current(broken).into_state(),
        Err(CoreError::InvalidConfiguration(
            "persisted energy must be between 0 and 100".to_owned()
        ))
    );
}
