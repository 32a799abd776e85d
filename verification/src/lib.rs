//! Branlly: the domain model of a desktop companion (mood, energy, bounded
//! conversation, versioned memory, launcher entries) together with the pure
//! parts of its platform adapters and of its local Ollama client.

pub mod chat;
pub mod command;
pub mod config;
pub mod desktop;
pub mod error;
pub mod launch_item;
pub mod launcher;
pub mod linux;
pub mod message;
pub mod numbers;
pub mod ollama;
pub mod platform;
pub mod state;
pub mod storage;
pub mod storage_json;
pub mod text;
pub mod windows;

pub use chat::{ChatAction, ChatTurn, StreamStep};
pub use command::BranllyCommand;
pub use config::{BranllyConfig, DEFAULT_LOCAL_MODEL, DEFAULT_SYSTEM_PROMPT};
pub use desktop::{shortcut_specification, shortcut_target, ChatRegistry, WikiResult};
pub use error::CoreError;
pub use launch_item::{LaunchConfiguration, LaunchItem, LaunchItemKind, LaunchPlatform};
pub use linux::{DesktopSession, LinuxPlatform, LinuxTools};
pub use message::{Message, Role};
pub use ollama::{ChatFrame, ClientSettings, LineBuffer, ModelInfo};
pub use platform::{
    AppLaunchSpec, DeviceInfo, DiscoveredApplication, NetworkStatus, PlatformCapabilities,
    PlatformError, PointerPosition, ProcessFailure, WindowId, WindowInfo,
};
pub use state::{BranllyState, Mood};
pub use storage::{MemorySnapshot, MemoryStore, MEMORY_SCHEMA_VERSION};
pub use storage_json::JsonMemoryStore;
pub use windows::WindowsPlatform;
