# zskins

The logic of a small Wayland desktop shell (a status bar with quick
settings, an application launcher, and a clipboard-history importer),
written in Verus and proved against its contracts.

- `src/` is the verified library. Each module states what its functions
  return as spec functions over sequences, maps and views:
  - `sway_ipc`: message framing for the sway/i3 socket, workspace and
    window events, command quoting and reconnect back-off;
  - `ext_workspace`: the `ext-workspace-v1` handle model and its
    snapshots, and the activation mailbox;
  - `niri_title`: which focused-window title to emit from niri's event
    stream;
  - `battery`, `network`, `volume`, `brightness`, `clock`,
    `window_title`: the status modules' readings and what the bar shows;
  - `quicksettings`, `bluetooth`, `tray_menu`: the quick-settings panel's
    parsers, orderings and menu model;
  - `launcher`, `fuzzy`, `source`, `icon_theme`, `compositor`: the
    launcher's filtering, ranking, icon lookup and backend choice;
  - `clipd`: recognising UTF-16 clipboard entries and planning an import;
  - `text`, `sort`: character-level helpers and a stable sort.
- `tests/` runs the library on concrete values.
- `app/` holds the I/O around the library: sockets, sysfs, commands,
  D-Bus, Wayland, SQLite and the file-system scan of icon themes.
