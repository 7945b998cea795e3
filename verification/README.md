# sshmgr-tui

The native SSH manager and two-pane SFTP front end of `wezterm-ssh-manager`.
It is started by the WezTerm Lua plugin with a snapshot of the saved hosts,
lets the user filter, edit and connect to them, and browses and transfers
files over SFTP. Requests go back to the plugin as private JSON files in the
runtime directory, announced by an OSC `SetUserVar` wake-up.

## Layout

- `src/` is the library, written in Verus and verified against its
  contracts; where a result comes from the platform's path rules or an
  outside crate (Unicode segmentation and widths, lower-casing, the
  terminal layout solver), the contracts state what holds of every such
  result:
  - `json`, `text`, `numtext`: JSON values, string helpers and decimal
    digit text (texts read as floating-point numbers, such as a port typed
    as `22.0`, are read by the program and handed to the library);
  - `model`, `types`, `sftp_data`: snapshot normalisation, groups, filters,
    targets, edit drafts and the raw records they write back;
  - `runtime`, `protocol`: runtime-directory names, lexical path
    resolution, request files, envelopes
    and the OSC wake-up;
  - `sftp/`: connection options built from a profile, the authentication plan,
    remote path rules, listing order and the transfer steps;
  - `editor`, `layout`, `workspace`: the text input, screen geometry and the
    SFTP panels;
  - `manager*`: the manager as a state machine that takes keys, mouse clicks,
    pastes and results of outside work, and answers with actions to perform;
  - `cli`: the command-line arguments.
- `app/` is the program around it: terminal, file system, network and the
  Ratatui drawing; it performs the actions the manager returns and feeds the
  results back.
- `tests/` runs the library on concrete values.
