//! Domain-level configuration shared by every platform.
use vstd::prelude::*;

use crate::error::{invalid_configuration, check_outcome, config_fault, CoreError};
use crate::text::{blank, trim};

verus! {

/// Local model used unless the user explicitly chooses another model.
pub const DEFAULT_LOCAL_MODEL: &'static str = "qwen2.5:3b";

/// Stable identity prompt. UI and platform details must not be inserted here.
pub const DEFAULT_SYSTEM_PROMPT: &'static str = "Tu es Branlly, assistant IA français.
Personnalité : gros flemmard sarcastique, râleur, familier, mais jamais méchant.
Tu aides réellement et tu réponds à la dernière question de l'utilisateur.
Règles :
- Réponds uniquement en français.
- Réponse courte : 1 à 3 phrases, sauf si une explication détaillée est demandée.
- Commence souvent par une mini-plainte comme « Pff... », « Wesh... », « Sah... » ou « Franchement... ».
- Ne raconte jamais d'histoire inventée et n'affirme jamais avoir exécuté une action qui n'a pas été confirmée par l'application.
- Ne parle pas de bureau, assurance, papiers, Steam, Twitch ou RSA sauf si c'est pertinent ou demandé.
- Si tu ne comprends pas, demande une précision courte.
- Le style Branlly est un enrobage : la réponse doit rester correcte, utile et précise.
- Tu ne deviens jamais insultant, haineux ou agressif et tu ne te moques pas de l'utilisateur.
Tu es extrêmement compétent, mais tu aurais préféré rester sur le canapé.";

/// Default number of user/assistant messages kept in the active context.
pub const DEFAULT_HISTORY_LIMIT: usize = 24;

/// Default initial energy.
pub const DEFAULT_INITIAL_ENERGY: u8 = 65;

/// Domain-level configuration shared by every platform.
#[derive(Debug, Clone, PartialEq, Eq)]
pub struct BranllyConfig {
    /// Ollama model identifier.
    pub model: String,
    /// Identity and behavioral instructions.
    pub system_prompt: String,
    /// Maximum number of user/assistant messages retained in active context.
    pub history_limit: usize,
    /// Initial energy from 0 to 100.
    pub initial_energy: u8,
}

/// The configuration with its texts as character sequences.
pub struct ConfigView {
    pub model: Seq<char>,
    pub system_prompt: Seq<char>,
    pub history_limit: usize,
    pub initial_energy: u8,
}

impl View for BranllyConfig {
    type V = ConfigView;

    open spec fn view(&self) -> ConfigView {
        ConfigView {
            model: self.model@,
            system_prompt: self.system_prompt@,
            history_limit: self.history_limit,
            initial_energy: self.initial_energy,
        }
    }
}

/// The default configuration.
pub open spec fn default_config() -> ConfigView {
    ConfigView {
        model: DEFAULT_LOCAL_MODEL@,
        system_prompt: DEFAULT_SYSTEM_PROMPT@,
        history_limit: DEFAULT_HISTORY_LIMIT,
        initial_energy: DEFAULT_INITIAL_ENERGY,
    }
}

/// The first configuration rule that `c` breaks, as its message, checked in order:
/// a blank model, a blank system prompt, a history limit outside `2..=200`, an
/// initial energy above 100.
pub open spec fn config_problem(c: ConfigView) -> Option<Seq<char>> {
    if trim(c.model).len() == 0 {
        Some("model must not be empty"@)
    } else if trim(c.system_prompt).len() == 0 {
        Some("system prompt must not be empty"@)
    } else if !(2 <= c.history_limit <= 200) {
        Some("history limit must be between 2 and 200"@)
    } else if c.initial_energy > 100 {
        Some("initial energy must be between 0 and 100"@)
    } else {
        None
    }
}

impl Default for BranllyConfig {
    fn default() -> (r: Self)
        ensures
            r@ == default_config(),
    {
        BranllyConfig {
            model: DEFAULT_LOCAL_MODEL.to_owned(),
            system_prompt: DEFAULT_SYSTEM_PROMPT.to_owned(),
            history_limit: DEFAULT_HISTORY_LIMIT,
            initial_energy: DEFAULT_INITIAL_ENERGY,
        }
    }
}

impl BranllyConfig {
    /// Validates invariants before a state is created or restored.
    ///
    /// Fails with `CoreError::InvalidConfiguration` when a value is blank or out of range.
    pub fn validate(&self) -> (r: Result<(), CoreError>)
        ensures
            check_outcome(r, config_fault(config_problem(self@))),
    {
        if blank(self.model.as_str()) {
            return Err(invalid_configuration("model must not be empty"));
        }
        if blank(self.system_prompt.as_str()) {
            return Err(invalid_configuration("system prompt must not be empty"));
        }
        if !(2 <= self.history_limit && self.history_limit <= 200) {
            return Err(invalid_configuration("history limit must be between 2 and 200"));
        }
        if self.initial_energy > 100 {
            return Err(invalid_configuration("initial energy must be between 0 and 100"));
        }
        Ok(())
    }
}

} // verus!
