use zskins::ext_workspace::{ExtWorkspaceBackend, ExtWorkspaceEvent, ExtWorkspaceModel};
use zskins::workspace::WorkspaceId;

fn feed(m: &mut ExtWorkspaceModel, evs: Vec<ExtWorkspaceEvent>) {
    for ev in evs {
        assert!(m.apply(ev).is_none());
    }
}

#[test]
fn done_emits_named_workspaces_sorted_by_name() {
    let mut m = ExtWorkspaceModel::new();
    feed(&mut m, vec![
        ExtWorkspaceEvent::Workspace(7),
        ExtWorkspaceEvent::Name(7, "3".to_string()),
        ExtWorkspaceEvent::Workspace(3),
        ExtWorkspaceEvent::Name(3, "1".to_string()),
        ExtWorkspaceEvent::State(3, false, true),
        ExtWorkspaceEvent::Workspace(9),
        ExtWorkspaceEvent::Name(9, "2".to_string()),
        ExtWorkspaceEvent::State(9, true, false),
        ExtWorkspaceEvent::Workspace(11),
        ExtWorkspaceEvent::Other,
    ]);
    let snap = m.apply(ExtWorkspaceEvent::Done).expect("done yields a snapshot");
    let names: Vec<&str> = snap.workspaces.iter().map(|w| w.name.as_str()).collect();
    assert_eq!(names, vec!["1", "2", "3"]);
    assert!(snap.workspaces[0].urgent);
    assert!(snap.workspaces[1].active);
    assert_eq!(snap.workspaces[1].id.0, "2");
    assert_eq!(snap.active.map(|id| id.0), Some("2".to_string()));
    assert_eq!(m.id_for_name("2"), Some(9));
    assert_eq!(m.id_for_name("3"), Some(7));
    assert_eq!(m.id_for_name("4"), None);
}

#[test]
fn removed_and_unknown_handles() {
    let mut m = ExtWorkspaceModel::new();
    feed(&mut m, vec![
        ExtWorkspaceEvent::Workspace(1),
        ExtWorkspaceEvent::Name(1, "a".to_string()),
        ExtWorkspaceEvent::Name(5, "ghost".to_string()),
        ExtWorkspaceEvent::State(5, true, true),
        ExtWorkspaceEvent::Workspace(2),
        ExtWorkspaceEvent::Name(2, "b".to_string()),
    ]);
    let snap = m.apply(ExtWorkspaceEvent::Done).unwrap();
    assert_eq!(snap.workspaces.len(), 2);
    assert!(snap.active.is_none());
    feed(&mut m, vec![ExtWorkspaceEvent::Removed(1)]);
    let snap = m.apply(ExtWorkspaceEvent::Done).unwrap();
    let names: Vec<&str> = snap.workspaces.iter().map(|w| w.name.as_str()).collect();
    assert_eq!(names, vec!["b"]);
    assert_eq!(m.id_for_name("a"), None);
    assert_eq!(m.id_for_name("ghost"), None);
}

#[test]
fn activation_mailbox_latest_wins_and_drains_once() {
    let mut m = ExtWorkspaceModel::new();
    feed(&mut m, vec![ExtWorkspaceEvent::Workspace(4), ExtWorkspaceEvent::Name(4, "web".to_string())]);
    m.apply(ExtWorkspaceEvent::Done).unwrap();
    let mut b = ExtWorkspaceBackend::new();
    assert_eq!(b.drain_activation(&m), None);
    b.activate(&WorkspaceId("mail".to_string()));
    b.activate(&WorkspaceId("web".to_string()));
    assert_eq!(b.drain_activation(&m), Some(4));
    assert_eq!(b.drain_activation(&m), None);
    b.activate(&WorkspaceId("nowhere".to_string()));
    assert_eq!(b.drain_activation(&m), None);
    b.activate(&WorkspaceId("x".to_string()));
    assert_eq!(b.take_request().map(|id| id.0), Some("x".to_string()));
    assert!(b.take_request().is_none());
}

#[test]
fn handles_sharing_a_name_each_show() {
    let mut m = ExtWorkspaceModel::new();
    feed(&mut m, vec![
        ExtWorkspaceEvent::Workspace(1),
        ExtWorkspaceEvent::Name(1, "dup".to_string()),
        ExtWorkspaceEvent::Workspace(2),
        ExtWorkspaceEvent::Name(2, "dup".to_string()),
    ]);
    let snap = m.apply(ExtWorkspaceEvent::Done).unwrap();
    assert_eq!(snap.workspaces.len(), 2);
    let id = m.id_for_name("dup");
    assert!(id == Some(1) || id == Some(2));
}
