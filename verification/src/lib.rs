//! Verified core of the zskins desktop shell: the bar's compositor IPC
//! framing, status-module readings, quick-settings parsing, the launcher's
//! filtering and ranking, and the icon-theme cache.
pub mod sway_ipc;
pub mod battery;
pub mod bluetooth;
pub mod brightness;
pub mod clipd;
pub mod clock;
pub mod compositor;
pub mod ext_workspace;
pub mod fuzzy;
pub mod icon_theme;
pub mod launcher;
pub mod network;
pub mod niri_title;
pub mod quicksettings;
pub mod sort;
pub mod source;
pub mod volume;
pub mod text;
pub mod tray_menu;
pub mod window_title;
pub mod workspace;
