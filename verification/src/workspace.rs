//! The bar's model of compositor workspaces.
use vstd::prelude::*;
use crate::sort::{seq_lt, str_lt, Ranked};

verus! {

/// A workspace as the compositor names it.
pub struct WorkspaceId(pub String);

impl Clone for WorkspaceId {
    fn clone(&self) -> (r: Self)
        ensures
            r == *self,
    {
        WorkspaceId(self.0.clone())
    }
}

/// One workspace in a snapshot.
pub struct Workspace {
    pub id: WorkspaceId,
    pub name: String,
    pub active: bool,
    pub urgent: bool,
    /// Output (monitor) the workspace lives on, where the compositor says.
    pub output: Option<String>,
}

/// The abstract content of a [`Workspace`].
pub struct WorkspaceView {
    pub id: Seq<char>,
    pub name: Seq<char>,
    pub active: bool,
    pub urgent: bool,
    pub output: Option<Seq<char>>,
}

impl View for Workspace {
    type V = WorkspaceView;

    open spec fn view(&self) -> WorkspaceView {
        WorkspaceView {
            id: self.id.0@,
            name: self.name@,
            active: self.active,
            urgent: self.urgent,
            output: self.output.deep_view(),
        }
    }
}

/// Every workspace the compositor reports, and the focused one.
pub struct WorkspaceState {
    pub workspaces: Vec<Workspace>,
    pub active: Option<WorkspaceId>,
}

/// The abstract content of a [`WorkspaceState`].
pub struct WorkspaceStateView {
    pub workspaces: Seq<WorkspaceView>,
    pub active: Option<Seq<char>>,
}

pub open spec fn id_view(o: Option<WorkspaceId>) -> Option<Seq<char>> {
    match o {
        Some(id) => Some(id.0@),
        None => None,
    }
}

impl View for WorkspaceState {
    type V = WorkspaceStateView;

    open spec fn view(&self) -> WorkspaceStateView {
        WorkspaceStateView {
            workspaces: self.workspaces@.map_values(|w: Workspace| w@),
            active: id_view(self.active),
        }
    }
}

/// A focus change reported by a workspace event.
pub struct WorkspaceChange {
    pub new_active: Option<WorkspaceId>,
}

/// Workspaces are listed by name.
impl Ranked for Workspace {
    open spec fn spec_before(&self, other: &Self) -> bool {
        seq_lt(self.name@, other.name@)
    }

    fn before(&self, other: &Self) -> (b: bool) {
        str_lt(self.name.as_str(), other.name.as_str())
    }
}

/// The first active workspace of a list.
pub open spec fn first_active(s: Seq<Workspace>) -> Option<Seq<char>>
    decreases s.len(),
{
    if s.len() == 0 {
        None
    } else if s[0].active {
        Some(s[0].id.0@)
    } else {
        first_active(s.drop_first())
    }
}

/// The id of the first active workspace of a list.
pub fn find_first_active(ws: &Vec<Workspace>) -> (r: Option<WorkspaceId>)
    ensures
        id_view(r) == first_active(ws@),
{
    let mut i: usize = 0;
    assert(ws@.skip(0) =~= ws@);
    while i < ws.len()
        invariant
            i <= ws@.len(),
            first_active(ws@) == first_active(ws@.skip(i as int)),
        decreases ws@.len() - i,
    {
        assert(ws@.skip(i as int)[0] == ws@[i as int]);
        if ws[i].active {
            return Some(ws[i].id.clone());
        }
        assert(ws@.skip(i as int).drop_first() =~= ws@.skip(i + 1));
        i = i + 1;
    }
    None
}

/// The workspace backends the bar can drive.
#[derive(PartialEq, Eq, Structural, Clone, Copy, Debug)]
pub enum BackendKind {
    /// sway's IPC socket.
    Sway,
    /// The `ext-workspace-v1` Wayland protocol.
    ExtWorkspace,
}

/// Pick the workspace backend: sway when the socket named by `SWAYSOCK`
/// exists, else `ext-workspace-v1` when the compositor advertises it, else
/// none (the bar shows no workspaces).
pub fn choose_backend(sway_socket_exists: bool, ext_workspace_advertised: bool) -> (r: Option<BackendKind>)
    ensures
        r == (if sway_socket_exists {
            Some(BackendKind::Sway)
        } else if ext_workspace_advertised {
            Some(BackendKind::ExtWorkspace)
        } else {
            None
        }),
{
    if sway_socket_exists {
        Some(BackendKind::Sway)
    } else if ext_workspace_advertised {
        Some(BackendKind::ExtWorkspace)
    } else {
        None
    }
}

} // verus!
