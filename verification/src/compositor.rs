//! What the launcher knows of the compositor it runs under: which IPC
//! backend to talk to, and the focused window it reports.
use vstd::prelude::*;

verus! {

/// Snapshot of the focused toplevel that a compositor backend reports.
/// `workspace` is absent where the backend does not expose one.
#[derive(Debug, Clone, PartialEq, Eq)]
pub struct FocusedWindow {
    pub app_id: String,
    pub title: String,
    pub workspace: Option<String>,
}

/// The compositor IPC backends, in the order they are tried.
#[derive(PartialEq, Eq, Structural, Clone, Copy, Debug)]
pub enum CompositorKind {
    /// sway or i3, over the i3-ipc socket.
    Sway,
    /// Hyprland, over its instance socket.
    Hyprland,
    /// No known compositor; every query answers nothing.
    Noop,
}

/// Pick the backend from which detection variables are set: `SWAYSOCK` or
/// `I3SOCK` means sway, else `HYPRLAND_INSTANCE_SIGNATURE` means Hyprland,
/// else the no-op backend.
pub fn detect_kind(swaysock_set: bool, i3sock_set: bool, hyprland_signature_set: bool) -> (r: CompositorKind)
    ensures
        r == (if swaysock_set || i3sock_set {
            CompositorKind::Sway
        } else if hyprland_signature_set {
            CompositorKind::Hyprland
        } else {
            CompositorKind::Noop
        }),
{
    if swaysock_set || i3sock_set {
        CompositorKind::Sway
    } else if hyprland_signature_set {
        CompositorKind::Hyprland
    } else {
        CompositorKind::Noop
    }
}

} // verus!
