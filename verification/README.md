# Branlly

Branlly is a desktop companion: a sarcastic local assistant with a mood, an energy
level, a bounded conversation history, a versioned memory and a radial launcher. It
chats through a local Ollama instance and drives the desktop through small platform
adapters for Linux (X11/Wayland) and Windows.

## Layout

- `src/` — the library, verified with Verus. It holds the domain model
  (configuration, messages, state transitions, launcher ordering, snapshots), the
  decisions of the platform adapters (session detection, capabilities, parsing of
  `wmctrl`, `lsusb`, `bluetoothctl`, `nmcli`, `xdotool` and PowerShell outputs,
  handle and launch-request validation), the Ollama client's checks and NDJSON
  framing, the decisions of a chat turn (what each streamed step does to the
  state), the temporary-file cleanup plan, and the input checks of the desktop commands. Every public function
  states its result in its contract; the laws that relate several operations are
  public proof functions (`lemma_*`).
- `app/` — the program around the library: the Tauri commands, process execution,
  HTTP transport, JSON (de)serialization and file persistence.
- `tests/` — executable tests of the library.

The only call the library makes into an outside crate is `url::Url::parse`, behind a trusted
wrapper whose result is named rather than described.
