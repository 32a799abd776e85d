//! The complete domain state: mood, energy, bounded conversation and launcher.
use vstd::prelude::*;

use crate::config::{config_problem, BranllyConfig, ConfigView};
use crate::error::{check_outcome, config_fault, invalid_configuration, CoreError, CoreFault};
use crate::launch_item::{item_problem, LaunchItem, LaunchItemView};
use crate::launcher::{
    distinct_ids, first_problem, items_view, launch_items_ok, launch_items_valid,
    launcher_outcome, lemma_outcome_is_valid, renumber, sort_by_order, sorted_by_order,
    with_order,
};
use crate::message::{Message, MessageView, Role};
use crate::text::{blank, trim};

verus! {

/// Current emotional presentation. It has no platform dependency.
#[derive(Debug, Clone, Copy, PartialEq, Eq, Structural)]
pub enum Mood {
    /// Low energy and minimal animation.
    Sleepy,
    /// Default presentation.
    Neutral,
    /// User interaction is in progress.
    Curious,
    /// A useful exchange completed successfully.
    Happy,
    /// A recoverable error occurred.
    Irritated,
}

impl Default for Mood {
    fn default() -> (r: Self)
        ensures
            r == Mood::Neutral,
    {
        Mood::Neutral
    }
}

/// Complete domain state.
#[derive(Debug, Clone, PartialEq, Eq)]
pub struct BranllyState {
    config: BranllyConfig,
    mood: Mood,
    energy: u8,
    conversation: Vec<Message>,
    launch_items: Vec<LaunchItem>,
    launcher_initialized: bool,
}

/// The state as mathematical values.
#[verifier::ext_equal]
pub struct StateView {
    pub config: ConfigView,
    pub mood: Mood,
    pub energy: u8,
    pub conversation: Seq<MessageView>,
    pub launch_items: Seq<LaunchItemView>,
    pub launcher_initialized: bool,
}

/// The views of a list of messages.
pub open spec fn messages_view(v: Seq<Message>) -> Seq<MessageView> {
    v.map_values(|m: Message| m@)
}

impl View for BranllyState {
    type V = StateView;

    closed spec fn view(&self) -> StateView {
        StateView {
            config: self.config@,
            mood: self.mood,
            energy: self.energy,
            conversation: messages_view(self.conversation@),
            launch_items: items_view(self.launch_items@),
            launcher_initialized: self.launcher_initialized,
        }
    }
}

/// The last `limit` elements of `s` (all of them when there are fewer).
pub open spec fn keep_last<T>(s: Seq<T>, limit: int) -> Seq<T> {
    if s.len() > limit {
        s.skip(s.len() - limit)
    } else {
        s
    }
}

/// The state created from a configuration.
pub open spec fn fresh_state(c: ConfigView) -> StateView {
    StateView {
        config: c,
        mood: Mood::Neutral,
        energy: c.initial_energy,
        conversation: seq![],
        launch_items: seq![],
        launcher_initialized: false,
    }
}

/// The conversation after appending `m`, oldest entries dropped beyond the history limit.
pub open spec fn appended(s: StateView, m: MessageView) -> Seq<MessageView> {
    keep_last(s.conversation.push(m), s.config.history_limit as int)
}

/// `s` with another conversation, mood and energy.
pub open spec fn with_conversation(
    s: StateView,
    conversation: Seq<MessageView>,
    mood: Mood,
    energy: u8,
) -> StateView {
    StateView {
        config: s.config,
        mood,
        energy,
        conversation,
        launch_items: s.launch_items,
        launcher_initialized: s.launcher_initialized,
    }
}

/// Recording user input: blank input is refused; otherwise the trimmed text is
/// appended, the mood turns curious and one unit of energy is spent (not below 0).
pub open spec fn after_user_message(s: StateView, content: Seq<char>) -> Option<StateView> {
    let t = trim(content);
    if t.len() == 0 {
        None
    } else {
        Some(
            with_conversation(
                s,
                appended(s, MessageView { role: Role::User, content: t }),
                Mood::Curious,
                if s.energy > 0 {
                    (s.energy - 1) as u8
                } else {
                    0
                },
            ),
        )
    }
}

/// Recording a model response: blank output is refused; otherwise the trimmed text is
/// appended, the mood turns happy and one unit of energy is regained (not above 100).
pub open spec fn after_assistant_message(s: StateView, content: Seq<char>) -> Option<StateView> {
    let t = trim(content);
    if t.len() == 0 {
        None
    } else {
        Some(
            with_conversation(
                s,
                appended(s, MessageView { role: Role::Assistant, content: t }),
                Mood::Happy,
                if s.energy >= 100 {
                    100
                } else {
                    (s.energy + 1) as u8
                },
            ),
        )
    }
}

/// A recoverable failure: the mood turns irritated and two units of energy are spent
/// (not below 0); the conversation is untouched.
pub open spec fn after_error(s: StateView) -> StateView {
    with_conversation(
        s,
        s.conversation,
        Mood::Irritated,
        if s.energy >= 2 {
            (s.energy - 2) as u8
        } else {
            0
        },
    )
}

/// Passive decay: one unit of energy is spent (not below 0); the mood is sleepy at
/// zero energy and neutral otherwise.
pub open spec fn after_idle_tick(s: StateView) -> StateView {
    let e: u8 = if s.energy > 0 {
        (s.energy - 1) as u8
    } else {
        0
    };
    with_conversation(
        s,
        s.conversation,
        if e == 0 {
            Mood::Sleepy
        } else {
            Mood::Neutral
        },
        e,
    )
}

/// Replacing the launcher list: the new state, or the message of the refusal.
pub open spec fn after_launcher_update(s: StateView, items: Seq<LaunchItemView>) -> Result<
    StateView,
    Seq<char>,
> {
    match launcher_outcome(items) {
        Ok(list) => Ok(
            StateView {
                config: s.config,
                mood: s.mood,
                energy: s.energy,
                conversation: s.conversation,
                launch_items: list,
                launcher_initialized: true,
            },
        ),
        Err(m) => Err(m),
    }
}

/// Every message is non-blank and none comes from the system role.
pub open spec fn conversation_ok(c: Seq<MessageView>) -> bool {
    forall|i: int|
        0 <= i < c.len() ==> trim((#[trigger] c[i]).content).len() != 0 && c[i].role
            != Role::System
}

/// The first invariant that a (persisted) state breaks, as its message, checked in
/// order: the configuration, energy at most 100, the history limit, the launcher list,
/// the messages.
pub open spec fn state_problem(s: StateView) -> Option<Seq<char>> {
    if config_problem(s.config) is Some {
        config_problem(s.config)
    } else if s.energy > 100 {
        Some("persisted energy must be between 0 and 100"@)
    } else if s.conversation.len() > s.config.history_limit {
        Some("persisted conversation exceeds history limit"@)
    } else if !launch_items_ok(s.launch_items) {
        Some("persisted launcher items are invalid"@)
    } else if !conversation_ok(s.conversation) {
        Some("persisted conversation contains an invalid message"@)
    } else {
        None
    }
}

impl BranllyState {
    /// Builds a fresh state after checking every configuration invariant; fails with
    /// `CoreError::InvalidConfiguration` when `config` is invalid.
    pub fn new(config: BranllyConfig) -> (r: Result<Self, CoreError>)
        ensures
            match config_problem(config@) {
                Some(m) => r matches Err(e) && e@ == CoreFault::InvalidConfiguration(m),
                None => r matches Ok(s) && s@ == fresh_state(config@),
            },
    {
        match config.validate() {
            Err(e) => return Err(e),
            Ok(()) => {},
        }
        let energy = config.initial_energy;
        let r = BranllyState {
            config,
            mood: Mood::Neutral,
            energy,
            conversation: Vec::new(),
            launch_items: Vec::new(),
            launcher_initialized: false,
        };
        assert(r@ =~= fresh_state(config@));
        Ok(r)
    }

    /// Reassembles a state from its parts exactly as they were stored, without any
    /// check: `validate` (or `MemorySnapshot::into_state`) decides whether it may be used.
    pub fn from_parts(
        config: BranllyConfig,
        mood: Mood,
        energy: u8,
        conversation: Vec<Message>,
        launch_items: Vec<LaunchItem>,
        launcher_initialized: bool,
    ) -> (r: Self)
        ensures
            r@ == (StateView {
                config: config@,
                mood,
                energy,
                conversation: messages_view(conversation@),
                launch_items: items_view(launch_items@),
                launcher_initialized,
            }),
    {
        BranllyState { config, mood, energy, conversation, launch_items, launcher_initialized }
    }

    /// Revalidates data loaded from an untrusted persistence source; fails with
    /// `CoreError::InvalidConfiguration` when a persisted invariant is violated.
    pub fn validate(&self) -> (r: Result<(), CoreError>)
        ensures
            check_outcome(r, config_fault(state_problem(self@))),
    {
        match self.config.validate() {
            Err(e) => return Err(e),
            Ok(()) => {},
        }
        if self.energy > 100 {
            return Err(invalid_configuration("persisted energy must be between 0 and 100"));
        }
        if self.conversation.len() > self.config.history_limit {
            return Err(invalid_configuration("persisted conversation exceeds history limit"));
        }
        if !launch_items_valid(&self.launch_items) {
            return Err(invalid_configuration("persisted launcher items are invalid"));
        }
        if !conversation_valid(&self.conversation) {
            return Err(
                invalid_configuration("persisted conversation contains an invalid message"),
            );
        }
        Ok(())
    }

    /// Returns immutable shared configuration.
    pub fn config(&self) -> (r: &BranllyConfig)
        ensures
            r@ == self@.config,
    {
        &self.config
    }

    /// Returns the current mood.
    pub fn mood(&self) -> (r: Mood)
        ensures
            r == self@.mood,
    {
        self.mood
    }

    /// Returns energy, in the range 0..=100 for every valid state.
    pub fn energy(&self) -> (r: u8)
        ensures
            r == self@.energy,
    {
        self.energy
    }

    /// Returns active user/assistant context in chronological order.
    pub fn conversation(&self) -> (r: &[Message])
        ensures
            messages_view(r@) == self@.conversation,
    {
        self.conversation.as_slice()
    }

    /// Returns launcher entries in stable display order.
    pub fn launch_items(&self) -> (r: &[LaunchItem])
        ensures
            items_view(r@) == self@.launch_items,
    {
        self.launch_items.as_slice()
    }

    /// Whether the default launcher migration was completed.
    pub fn launcher_initialized(&self) -> (r: bool)
        ensures
            r == self@.launcher_initialized,
    {
        self.launcher_initialized
    }

    /// Replaces launcher entries after validation and stable ordering: entries are
    /// sorted by order, renumbered from 0 and validated; duplicate ids are refused. On
    /// refusal the state is unchanged.
    pub fn set_launch_items(&mut self, items: Vec<LaunchItem>) -> (r: Result<(), CoreError>)
        ensures
            match after_launcher_update(old(self)@, items_view(items@)) {
                Ok(s) => r is Ok && final(self)@ == s,
                Err(m) => r matches Err(e) && e@ == CoreFault::InvalidConfiguration(m)
                    && final(self)@ == old(self)@,
            },
    {
        let sorted = sorted_by_order(items);
        let ghost sv = items_view(sorted@);
        let ghost sorted0 = sorted@;
        let mut rest = sorted;
        let total = rest.len();
        let mut out: Vec<LaunchItem> = Vec::new();
        let mut index: usize = 0;
        while rest.len() > 0
            invariant
                index <= sv.len() == sorted0.len() == total,
                sv == items_view(sorted0),
                rest@ == sorted0.skip(index as int),
                items_view(out@) == renumber(sv).take(index as int),
                first_problem(sv, 0) == first_problem(sv, index as int),
                sv == sort_by_order(items_view(items@)),
                *self == *old(self),
            decreases rest.len(),
        {
            assert(index < sorted0.len());
            if index > u32::MAX as usize {
                return Err(invalid_configuration("too many launcher items"));
            }
            let mut item = rest.remove(0);
            assert(item@ == sv[index as int]);
            item.order = index as u32;
            assert(item@ == with_order(sv[index as int], index as u32));
            assert(item_problem(item@) == item_problem(sv[index as int]));
            match item.validate() {
                Err(e) => {
                    return Err(e);
                },
                Ok(()) => {},
            }
            let ghost old_out = out@;
            out.push(item);
            proof {
                assert(items_view(out@) =~= items_view(old_out).push(item@));
                assert(renumber(sv).take(index + 1) =~= renumber(sv).take(index as int).push(
                    renumber(sv)[index as int],
                ));
                assert(items_view(out@) =~= renumber(sv).take(index + 1));
                assert(rest@ =~= sorted0.skip(index + 1));
            }
            index += 1;
        }
        proof {
            assert(index == sv.len());
            assert(renumber(sv).take(index as int) =~= renumber(sv));
            assert(ids_same(renumber(sv), sv));
            lemma_ids_distinct_same(renumber(sv), sv);
        }
        if !distinct_ids(&out) {
            return Err(invalid_configuration("duplicate launcher item"));
        }
        self.launch_items = out;
        self.launcher_initialized = true;
        Ok(())
    }

    /// Produces the complete request context: the system prompt (trimmed) followed by
    /// the conversation.
    pub fn chat_context(&self) -> (r: Vec<Message>)
        ensures
            messages_view(r@) == seq![
                MessageView { role: Role::System, content: trim(self@.config.system_prompt) },
            ] + self@.conversation,
    {
        let n = self.conversation.len();
        let mut messages: Vec<Message> = Vec::new();
        messages.push(Message::new(Role::System, self.config.system_prompt.as_str()));
        let ghost first = seq![
            MessageView { role: Role::System, content: trim(self.config.system_prompt@) },
        ];
        let mut k: usize = 0;
        while k < n
            invariant
                k <= n == self.conversation@.len(),
                messages_view(messages@) == first + messages_view(self.conversation@).take(
                    k as int,
                ),
            decreases n - k,
        {
            let ghost old_messages = messages@;
            let copy = self.conversation[k].clone();
            assert(copy@ == messages_view(self.conversation@)[k as int]);
            messages.push(copy);
            proof {
                assert(messages_view(messages@) =~= messages_view(old_messages).push(copy@));
                assert(messages_view(self.conversation@).take(k + 1) =~= messages_view(
                    self.conversation@,
                ).take(k as int).push(copy@));
                assert(messages_view(messages@) =~= first + messages_view(
                    self.conversation@,
                ).take(k + 1));
            }
            k += 1;
        }
        assert(messages_view(self.conversation@).take(n as int) =~= messages_view(
            self.conversation@,
        ));
        messages
    }

    /// Records normalized user input and transitions to a listening state; fails with
    /// `CoreError::EmptyMessage`, leaving the state unchanged, when the input only
    /// contains whitespace.
    pub fn record_user_message(&mut self, content: &str) -> (r: Result<(), CoreError>)
        ensures
            match after_user_message(old(self)@, content@) {
                None => r matches Err(e) && e@ == CoreFault::EmptyMessage && final(self)@
                    == old(self)@,
                Some(s) => r is Ok && final(self)@ == s,
            },
    {
        match self.push_message(Message::new(Role::User, content)) {
            Err(e) => return Err(e),
            Ok(()) => {},
        }
        self.mood = Mood::Curious;
        self.energy = self.energy.saturating_sub(1);
        assert(self@ =~= after_user_message(old(self)@, content@)->Some_0);
        Ok(())
    }

    /// Records a model response and transitions to a positive state; fails with
    /// `CoreError::EmptyMessage`, leaving the state unchanged, when the output only
    /// contains whitespace.
    pub fn record_assistant_message(&mut self, content: &str) -> (r: Result<(), CoreError>)
        ensures
            match after_assistant_message(old(self)@, content@) {
                None => r matches Err(e) && e@ == CoreFault::EmptyMessage && final(self)@
                    == old(self)@,
                Some(s) => r is Ok && final(self)@ == s,
            },
    {
        match self.push_message(Message::new(Role::Assistant, content)) {
            Err(e) => return Err(e),
            Ok(()) => {},
        }
        self.mood = Mood::Happy;
        let raised = self.energy.saturating_add(1);
        self.energy = if raised < 100 {
            raised
        } else {
            100
        };
        assert(self@ =~= after_assistant_message(old(self)@, content@)->Some_0);
        Ok(())
    }

    /// Records a recoverable failure without corrupting conversation history.
    pub fn mark_recoverable_error(&mut self)
        ensures
            final(self)@ == after_error(old(self)@),
    {
        self.mood = Mood::Irritated;
        self.energy = self.energy.saturating_sub(2);
        assert(self@ =~= after_error(old(self)@));
    }

    /// Applies passive energy decay and derives the sleepy state at zero.
    pub fn idle_tick(&mut self)
        ensures
            final(self)@ == after_idle_tick(old(self)@),
    {
        self.energy = self.energy.saturating_sub(1);
        self.mood = if self.energy == 0 {
            Mood::Sleepy
        } else {
            Mood::Neutral
        };
        assert(self@ =~= after_idle_tick(old(self)@));
    }

    fn push_message(&mut self, message: Message) -> (r: Result<(), CoreError>)
        ensures
            message@.content.len() == 0 ==> (r matches Err(e) && e@ == CoreFault::EmptyMessage
                && final(self)@ == old(self)@),
            message@.content.len() != 0 ==> r is Ok && final(self)@ == with_conversation(
                old(self)@,
                appended(old(self)@, message@),
                old(self)@.mood,
                old(self)@.energy,
            ),
    {
        if message.content.as_str().is_empty() {
            return Err(CoreError::EmptyMessage);
        }
        let ghost m = message@;
        let ghost before = self@;
        self.conversation.push(message);
        assert(messages_view(self.conversation@) =~= before.conversation.push(m));
        let len = self.conversation.len();
        let limit = self.config.history_limit;
        if len > limit {
            let tail = self.conversation.split_off(len - limit);
            assert(messages_view(tail@) =~= before.conversation.push(m).skip(
                (len - limit) as int,
            ));
            self.conversation = tail;
        }
        assert(self@ =~= with_conversation(before, appended(before, m), before.mood, before.energy));
        Ok(())
    }
}

fn conversation_valid(conversation: &Vec<Message>) -> (r: bool)
    ensures
        r == conversation_ok(messages_view(conversation@)),
{
    let n = conversation.len();
    let ghost c = messages_view(conversation@);
    let mut k: usize = 0;
    while k < n
        invariant
            k <= n == conversation@.len() == c.len(),
            c == messages_view(conversation@),
            forall|i: int|
                0 <= i < k ==> trim((#[trigger] c[i]).content).len() != 0 && c[i].role
                    != Role::System,
        decreases n - k,
    {
        let message = &conversation[k];
        if blank(message.content.as_str()) || message.role == Role::System {
            assert(c[k as int] == message@);
            return false;
        }
        k += 1;
    }
    true
}


/// A state created from a valid configuration is valid, at the configured energy, with
/// an empty conversation and an uninitialized launcher.
pub proof fn lemma_fresh_state_is_valid(c: ConfigView)
    requires
        config_problem(c) is None,
    ensures
        state_problem(fresh_state(c)) is None,
{
}

/// Appending a message keeps at most `history_limit` messages, and keeps the newest
/// ones: the result is what remains of the old conversation followed by the new message
/// once the oldest entries beyond the limit are dropped.
pub proof fn lemma_history_is_bounded(s: StateView, m: MessageView)
    ensures
        appended(s, m).len() <= s.config.history_limit,
        appended(s, m).len() == if s.conversation.len() + 1 <= s.config.history_limit {
            s.conversation.len() + 1 as int
        } else {
            s.config.history_limit as int
        },
        s.config.history_limit > 0 ==> appended(s, m).last() == m,
        appended(s, m).is_suffix_of(s.conversation.push(m)),
{
}

proof fn lemma_appended_ok(s: StateView, m: MessageView)
    requires
        state_problem(s) is None,
        trim(m.content).len() != 0,
        m.role != Role::System,
    ensures
        conversation_ok(appended(s, m)),
        appended(s, m).len() <= s.config.history_limit,
{
    let p = s.conversation.push(m);
    let a = appended(s, m);
    let off = p.len() - a.len();
    assert forall|i: int| 0 <= i < a.len() implies trim((#[trigger] a[i]).content).len() != 0
        && a[i].role != Role::System by {
        assert(a[i] == p[i + off]);
        if i + off < s.conversation.len() {
            assert(p[i + off] == s.conversation[i + off]);
        }
    }
}

/// Recording user input keeps a valid state valid.
pub proof fn lemma_user_message_keeps_state_valid(s: StateView, content: Seq<char>)
    requires
        state_problem(s) is None,
        after_user_message(s, content) is Some,
    ensures
        state_problem(after_user_message(s, content)->Some_0) is None,
{
    crate::text::lemma_trim_idempotent(content);
    lemma_appended_ok(s, MessageView { role: Role::User, content: trim(content) });
}

/// Recording a model response keeps a valid state valid.
pub proof fn lemma_assistant_message_keeps_state_valid(s: StateView, content: Seq<char>)
    requires
        state_problem(s) is None,
        after_assistant_message(s, content) is Some,
    ensures
        state_problem(after_assistant_message(s, content)->Some_0) is None,
{
    crate::text::lemma_trim_idempotent(content);
    lemma_appended_ok(s, MessageView { role: Role::Assistant, content: trim(content) });
}

/// A recoverable error keeps a valid state valid and leaves the conversation as it was.
pub proof fn lemma_error_keeps_state_valid(s: StateView)
    requires
        state_problem(s) is None,
    ensures
        state_problem(after_error(s)) is None,
        after_error(s).conversation == s.conversation,
{
}

/// Passive decay keeps a valid state valid; energy never goes below zero, and the mood
/// is sleepy exactly when energy reaches zero.
pub proof fn lemma_idle_tick_keeps_state_valid(s: StateView)
    requires
        state_problem(s) is None,
    ensures
        state_problem(after_idle_tick(s)) is None,
        after_idle_tick(s).energy <= s.energy,
        (after_idle_tick(s).mood == Mood::Sleepy) == (after_idle_tick(s).energy == 0),
{
}

/// A successful launcher replacement keeps a valid state valid and marks the launcher
/// initialized.
pub proof fn lemma_launcher_update_keeps_state_valid(s: StateView, items: Seq<LaunchItemView>)
    requires
        state_problem(s) is None,
        after_launcher_update(s, items) is Ok,
    ensures
        state_problem(after_launcher_update(s, items)->Ok_0) is None,
        after_launcher_update(s, items)->Ok_0.launcher_initialized,
{
    lemma_outcome_is_valid(items);
}

/// Energy stays within 0..=100 through every transition of a state whose energy is
/// within that range.
pub proof fn lemma_energy_stays_in_range(s: StateView, content: Seq<char>)
    requires
        s.energy <= 100,
    ensures
        after_user_message(s, content) matches Some(t) ==> t.energy <= 100,
        after_assistant_message(s, content) matches Some(t) ==> t.energy <= 100,
        after_error(s).energy <= 100,
        after_idle_tick(s).energy <= 100,
{
}

/// One public call that changes a state.
pub enum StateCall {
    /// `record_user_message` with the given text.
    UserMessage(Seq<char>),
    /// `record_assistant_message` with the given text.
    AssistantMessage(Seq<char>),
    /// `mark_recoverable_error`.
    RecoverableError,
    /// `idle_tick`.
    IdleTick,
    /// `set_launch_items` with the given entries.
    LauncherUpdate(Seq<LaunchItemView>),
}

/// The state after one call; a refused call leaves the state as it was.
pub open spec fn apply_call(s: StateView, call: StateCall) -> StateView {
    match call {
        StateCall::UserMessage(t) => match after_user_message(s, t) {
            Some(n) => n,
            None => s,
        },
        StateCall::AssistantMessage(t) => match after_assistant_message(s, t) {
            Some(n) => n,
            None => s,
        },
        StateCall::RecoverableError => after_error(s),
        StateCall::IdleTick => after_idle_tick(s),
        StateCall::LauncherUpdate(items) => match after_launcher_update(s, items) {
            Ok(n) => n,
            Err(_) => s,
        },
    }
}

/// The state after a sequence of calls, in order.
pub open spec fn apply_calls(s: StateView, calls: Seq<StateCall>) -> StateView
    decreases calls.len(),
{
    if calls.len() == 0 {
        s
    } else {
        apply_call(apply_calls(s, calls.drop_last()), calls.last())
    }
}

/// Every state reached from `new` through any finite sequence of public calls, each
/// accepted or refused, is valid: `validate` accepts it.
pub proof fn lemma_reachable_states_are_valid(c: ConfigView, calls: Seq<StateCall>)
    requires
        config_problem(c) is None,
    ensures
        state_problem(apply_calls(fresh_state(c), calls)) is None,
    decreases calls.len(),
{
    if calls.len() > 0 {
        lemma_reachable_states_are_valid(c, calls.drop_last());
        let s = apply_calls(fresh_state(c), calls.drop_last());
        match calls.last() {
            StateCall::UserMessage(t) => {
                if after_user_message(s, t) is Some {
                    lemma_user_message_keeps_state_valid(s, t);
                }
            },
            StateCall::AssistantMessage(t) => {
                if after_assistant_message(s, t) is Some {
                    lemma_assistant_message_keeps_state_valid(s, t);
                }
            },
            StateCall::RecoverableError => lemma_error_keeps_state_valid(s),
            StateCall::IdleTick => lemma_idle_tick_keeps_state_valid(s),
            StateCall::LauncherUpdate(items) => {
                if after_launcher_update(s, items) is Ok {
                    lemma_launcher_update_keeps_state_valid(s, items);
                }
            },
        }
    } else {
        lemma_fresh_state_is_valid(c);
    }
}

spec fn ids_same(a: Seq<LaunchItemView>, b: Seq<LaunchItemView>) -> bool {
    a.len() == b.len() && forall|i: int| 0 <= i < a.len() ==> (#[trigger] a[i]).id == b[i].id
}

proof fn lemma_ids_distinct_same(a: Seq<LaunchItemView>, b: Seq<LaunchItemView>)
    requires
        ids_same(a, b),
    ensures
        crate::launcher::ids_distinct(a) == crate::launcher::ids_distinct(b),
{
    assert forall|i: int, j: int| 0 <= i < j < a.len() implies (a[i].id == a[j].id <==> b[i].id
        == b[j].id) by {
        assert(a[i].id == b[i].id);
        assert(a[j].id == b[j].id);
    }
}

} // verus!
