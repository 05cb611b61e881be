use zskins::tray_menu::{menu_item_from_raw, parse_menu_layout, popup_rows, MenuItemType, RawMenuNode};

fn node(id: i32, label: Option<&str>) -> RawMenuNode {
    RawMenuNode {
        id: Some(id),
        label: label.map(|l| l.to_string()),
        item_type: None,
        enabled: None,
        visible: None,
        toggle_state: None,
        children: Vec::new(),
    }
}

#[test]
fn menu_item_defaults_and_mnemonics() {
    let it = menu_item_from_raw(&node(3, Some("_Open Folder")));
    assert_eq!(it.id, 3);
    assert_eq!(it.label, "Open Folder");
    assert_eq!(it.menu_type, MenuItemType::Standard);
    assert!(it.enabled && it.visible);
    assert_eq!(it.toggle_state, None);
    assert!(it.submenu.is_empty());
}

#[test]
fn menu_item_properties_and_submenu() {
    let mut sep = node(2, None);
    sep.item_type = Some("separator".to_string());
    let mut check = node(4, Some("Mute"));
    check.toggle_state = Some(1);
    check.enabled = Some(false);
    let mut off = node(5, Some("Hidden"));
    off.toggle_state = Some(0);
    off.visible = Some(false);
    let mut parent = node(1, Some("More"));
    parent.children = vec![sep, check, off];
    let it = menu_item_from_raw(&parent);
    assert_eq!(it.submenu.len(), 3);
    assert_eq!(it.submenu[0].menu_type, MenuItemType::Separator);
    assert_eq!(it.submenu[0].label, "");
    assert_eq!(it.submenu[1].toggle_state, Some(true));
    assert!(!it.submenu[1].enabled);
    assert_eq!(it.submenu[2].toggle_state, Some(false));
    assert!(!it.submenu[2].visible);
    let anonymous = RawMenuNode { id: None, ..node(0, None) };
    assert_eq!(menu_item_from_raw(&anonymous).id, 0);
}

#[test]
fn layout_and_popup_rows() {
    let mut hidden = node(2, Some("b"));
    hidden.visible = Some(false);
    let items = parse_menu_layout(&vec![node(1, Some("a")), hidden, node(3, Some("c"))]);
    assert_eq!(items.len(), 3);
    assert_eq!(popup_rows(&items), 2);
    assert_eq!(popup_rows(&Vec::new()), 1);
    let mut all_hidden = node(9, None);
    all_hidden.visible = Some(false);
    assert_eq!(popup_rows(&parse_menu_layout(&vec![all_hidden])), 1);
}
