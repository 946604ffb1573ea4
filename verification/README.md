# status_glow

A screen-edge ambient glow that shows what a coding agent is doing:
thinking (red pulse), running a tool (orange), waiting for a confirmation
(yellow strobe), done (green, then fading out). The agent's hooks call the
tool's executable with `--set <state>`; the overlay reads the status file
that this writes.

## Layout

- `src/` — the verified library (Verus):
  - `text.rs`: character-level helpers (`trim`, `contains`, byte order marks).
  - `json.rs`: the JSON value the installer works on, and its mathematical view.
  - `settings.rs`: the settings file as text — parsed and printed with
    serde_json behind two trusted wrappers. Blank text counts as an empty
    object; text that is not JSON is refused, so that neither install nor
    uninstall overwrites a file whose hooks it cannot see.
  - `hooks.rs`: installing and removing our hooks in the agent's settings
    document while keeping every foreign hook; `hook_laws.rs` proves what
    install and uninstall promise of a document as a whole.
  - `status.rs`: writing and reading the status file; `status_laws.rs`
    proves that the reader gives back what the writer wrote.
  - `notification.rs`: whether a `waiting` notification is a real
    permission prompt.
  - `overlay.rs`: colors, animation modes, the fade-out schedule, which
    pixels the border covers, and when the window is shown.
  - `config.rs`: the portable configuration.
- `app/` — the Windows program around it: argument handling, files, the
  configuration file (serde), the Win32 overlay window and the configuration
  window (native-windows-gui).
- `tests/` — tests of the library.

## Naming

The tool identifies the hooks it installed by its own name: the file name of
its executable without extension (for example `<agent>-glow`). A hook
command is ours when it carries that name and the `--set` flag. The default
settings document is `~/.<agent>/settings.json`, the portable configuration
is `<name>.json` next to the executable, and the status file lives in
`<temp>/<name>/status.json`.
