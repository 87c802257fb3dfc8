# xylitol

The terminal UI core of the xylitol agent front end, written in Verus: every
function in `src/` carries a contract that Verus proves.

## Layout

- `src/` — the verified library.
  - `text`, `unicode`, `csi` — string helpers, display widths (through the
    `unicode-width` crate), CSI parameter parsing.
  - `style` — colors, cell styles, spans and styled lines, and their ANSI form.
  - `width` — marker-aware display width, truncation and wrapping.
  - `virtual_terminal` — an in-memory terminal grid that parses an ANSI
    stream.
  - `render` — the differential frame renderer: first render, full redraws,
    range rewrites and tail clears, all inside synchronized output.
  - `readback` — a style written as SGR reads back on the terminal.
  - `noclear` — a diff frame writes no screen clear.
  - `replay`, `marker`, `frames` — what the renderer's output does to a
    terminal: every frame keeps the terminal showing the frame, cursor
    markers removed.
  - `keybindings` — default bindings, user overrides and conflict detection.
  - `host`, `bang`, `reload`, `editor`, `fork`, `slash`, `pending_ui`,
    `link_grace`, `outcome` — the host's decisions: keys while busy or idle,
    the interactive bash and `/reload` loops and the reload notice, the
    external editor, session forks, what each slash command does and the
    replies it waits on, the order of the pending-UI work with the resume
    picker's busy gate and the replies it handles, link health and input
    outcomes; `host` also holds the host session's flags (what runs, the
    reload token, the latches) and its queued effects, while the terminal,
    UI model and widgets stay with its caller.
  - `driver` — a scripted agent driver for exercising them.
- `tests/` — tests run against the compiled library.
- `app/` — the unverified shell: the crossterm terminal, the widget contract,
  the engine loop, processes, files and the environment.
