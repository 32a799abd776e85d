//! Entries of the radial launcher.
use vstd::prelude::*;

use crate::error::{check_outcome, config_fault, invalid_configuration, CoreError};
use crate::text::{blank, has_char, trim};

verus! {

/// A user-configurable entry in the radial launcher.
#[derive(Debug, Clone, PartialEq, Eq)]
pub struct LaunchItem {
    /// Persistent unique identifier.
    pub id: String,
    /// Entry category.
    pub kind: LaunchItemKind,
    /// User-facing label.
    pub name: String,
    /// Optional system icon reference.
    pub icon: Option<String>,
    /// Stable display position.
    pub order: u32,
    /// Optional platform restriction.
    pub platform: Option<LaunchPlatform>,
    /// Structured launch configuration.
    pub launch: LaunchConfiguration,
}

/// Entry categories supported by the launcher model.
#[derive(Debug, Clone, Copy, PartialEq, Eq, Structural)]
pub enum LaunchItemKind {
    /// An application executable and its structured arguments.
    Application,
    /// A future routine reference; no routine execution is implemented yet.
    Routine,
}

/// Platform restriction recorded with an item when needed.
#[derive(Debug, Clone, Copy, PartialEq, Eq, Structural)]
pub enum LaunchPlatform {
    /// Linux desktop entry.
    Linux,
    /// Windows Start Menu entry.
    Windows,
}

/// Structured configuration, intentionally never a shell command string.
#[derive(Debug, Clone, PartialEq, Eq)]
pub enum LaunchConfiguration {
    /// Executable identifier and already separated arguments.
    Application {
        /// Executable path or identifier.
        identifier: String,
        /// Arguments passed directly to the executable.
        arguments: Vec<String>,
    },
    /// Future routine identifier.
    Routine {
        /// Stable routine reference.
        routine_id: String,
    },
}

/// A launch configuration with its texts as character sequences.
pub enum LaunchConfigView {
    Application { identifier: Seq<char>, arguments: Seq<Seq<char>> },
    Routine { routine_id: Seq<char> },
}

/// A launcher entry with its texts as character sequences.
pub struct LaunchItemView {
    pub id: Seq<char>,
    pub kind: LaunchItemKind,
    pub name: Seq<char>,
    pub icon: Option<Seq<char>>,
    pub order: u32,
    pub platform: Option<LaunchPlatform>,
    pub launch: LaunchConfigView,
}

impl View for LaunchConfiguration {
    type V = LaunchConfigView;

    open spec fn view(&self) -> LaunchConfigView {
        match self {
            LaunchConfiguration::Application { identifier, arguments } => {
                LaunchConfigView::Application {
                    identifier: identifier@,
                    arguments: arguments@.map_values(|a: String| a@),
                }
            },
            LaunchConfiguration::Routine { routine_id } => LaunchConfigView::Routine {
                routine_id: routine_id@,
            },
        }
    }
}

impl View for LaunchItem {
    type V = LaunchItemView;

    open spec fn view(&self) -> LaunchItemView {
        LaunchItemView {
            id: self.id@,
            kind: self.kind,
            name: self.name@,
            icon: match self.icon {
                Some(i) => Some(i@),
                None => None,
            },
            order: self.order,
            platform: self.platform,
            launch: self.launch@,
        }
    }
}

/// What makes a launcher item invalid, as its message: a blank id or name; otherwise a
/// kind that does not match the configuration, a blank (or NUL-holding) executable
/// identifier, or a blank routine id.
pub open spec fn item_problem(v: LaunchItemView) -> Option<Seq<char>> {
    if trim(v.id).len() == 0 || trim(v.name).len() == 0 {
        Some("launcher item requires id and name"@)
    } else {
        let fits = match v.launch {
            LaunchConfigView::Application { identifier, .. } => {
                v.kind == LaunchItemKind::Application && trim(identifier).len() != 0
                    && !identifier.contains('\0')
            },
            LaunchConfigView::Routine { routine_id } => {
                v.kind == LaunchItemKind::Routine && trim(routine_id).len() != 0
            },
        };
        if fits {
            None
        } else {
            Some("invalid launcher item configuration"@)
        }
    }
}

impl LaunchItem {
    /// Validates the persisted launcher item and its matching configuration.
    ///
    /// Fails with `CoreError::InvalidConfiguration` for blank identifiers, invalid launch
    /// data, or a mismatch between item category and configuration.
    pub fn validate(&self) -> (r: Result<(), CoreError>)
        ensures
            check_outcome(r, config_fault(item_problem(self@))),
    {
        if blank(self.id.as_str()) || blank(self.name.as_str()) {
            return Err(invalid_configuration("launcher item requires id and name"));
        }
        let fits = match &self.launch {
            LaunchConfiguration::Application { identifier, .. } => {
                self.kind == LaunchItemKind::Application && !blank(identifier.as_str())
                    && !has_char(identifier.as_str(), '\0')
            },
            LaunchConfiguration::Routine { routine_id } => {
                self.kind == LaunchItemKind::Routine && !blank(routine_id.as_str())
            },
        };
        if fits {
            Ok(())
        } else {
            Err(invalid_configuration("invalid launcher item configuration"))
        }
    }
}

} // verus!
