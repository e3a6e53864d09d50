use siege_factory::build_menu::{
    activate_item, breadcrumb_at, flat_items_at, format_cost, items_at, menu_navigation, resolve_item_id,
    resolve_menu_item, slot_key, BarKeys, BuildingMenuInfo, FlatItemKind, MenuAction, MenuCatalog,
    MenuCategorySource, MenuDef, MenuEntry, MenuSource, MenuState, UnitMenuInfo,
};
use siege_factory::discovery::GlobalArchive;
use siege_factory::resource::{Cost, ResourceId};

fn cost(r: &str, a: u32) -> Cost {
    Cost { resource: ResourceId::new(r), amount: a }
}

fn catalog() -> MenuCatalog {
    MenuCatalog {
        buildings: vec![
            BuildingMenuInfo {
                id: "drill".to_string(),
                name: "Drill".to_string(),
                hidden: false,
                requires_discovery: None,
                cost: vec![cost("iron", 5)],
                texture_stem: "drill".to_string(),
            },
            BuildingMenuInfo {
                id: "secret".to_string(),
                name: "Secret".to_string(),
                hidden: true,
                requires_discovery: None,
                cost: vec![],
                texture_stem: "secret".to_string(),
            },
            BuildingMenuInfo {
                id: "lab".to_string(),
                name: "Lab".to_string(),
                hidden: false,
                requires_discovery: Some("science".to_string()),
                cost: vec![cost("iron", 2), cost("copper", 3)],
                texture_stem: "lab".to_string(),
            },
        ],
        units: vec![UnitMenuInfo {
            id: "scout".to_string(),
            name: "Scout".to_string(),
            cost: vec![cost("food", 1)],
            texture_stem: "scout".to_string(),
        }],
    }
}

fn action(label: &str, a: MenuAction) -> MenuEntry {
    MenuEntry::Action { label: label.to_string(), action: a }
}

fn tree() -> Vec<MenuEntry> {
    vec![
        MenuEntry::SubMenu {
            label: "Production".to_string(),
            items: vec![
                action("Drill", MenuAction::Build("drill".to_string())),
                action("Secret", MenuAction::Build("secret".to_string())),
                action("Lab", MenuAction::Build("lab".to_string())),
                MenuEntry::SubMenu {
                    label: "Units".to_string(),
                    items: vec![action("Scout", MenuAction::Spawn("scout".to_string()))],
                },
            ],
        },
        action("Delete", MenuAction::Delete),
        MenuEntry::SubMenu {
            label: "Hidden".to_string(),
            items: vec![action("Secret", MenuAction::Build("secret".to_string()))],
        },
    ]
}

#[test]
fn items_at_follows_the_path() {
    let t = tree();
    assert_eq!(items_at(&t, &[]).len(), 3);
    assert_eq!(items_at(&t, &[0]).len(), 4);
    assert_eq!(items_at(&t, &[0, 3]).len(), 1);
    assert_eq!(items_at(&t, &[1]).len(), 0);
}

#[test]
fn breadcrumb_joins_labels() {
    let t = tree();
    assert_eq!(breadcrumb_at(&t, &[]), "");
    assert_eq!(breadcrumb_at(&t, &[0]), "Production");
    assert_eq!(breadcrumb_at(&t, &[0, 3]), "Production > Units");
}

#[test]
fn format_cost_writes_each_item() {
    assert_eq!(format_cost(&vec![cost("iron", 2), cost("copper", 13)]), "2 ResourceId(\"iron\") + 13 ResourceId(\"copper\")");
    assert_eq!(format_cost(&vec![]), "");
}

#[test]
fn slot_keys() {
    assert_eq!(slot_key(0), "2");
    assert_eq!(slot_key(7), "9");
    assert_eq!(slot_key(8), "0");
    assert_eq!(slot_key(20), "0");
}

#[test]
fn flat_items_hide_what_cannot_be_built() {
    let t = tree();
    let def = MenuDef { root: tree(), page_size: 9 };
    let archive = GlobalArchive::new(&vec![]);
    let items = flat_items_at(&t, &[0], 0, &catalog(), &def, &archive);
    let labels: Vec<&str> = items.items.iter().map(|i| i.label.as_str()).collect();
    assert_eq!(labels, vec!["Drill", "Units"]);
    assert_eq!(items.total_items, 2);
    assert!(items.has_back);
    assert_eq!(items.breadcrumb, "Production");
    assert_eq!(items.items[0].cost_str, "5 ResourceId(\"iron\")");
    assert_eq!(items.items[0].texture_stem.as_deref(), Some("drill"));
    // Unlocking the discovery shows the lab.
    let archive = GlobalArchive::new(&vec!["science".to_string()]);
    let items = flat_items_at(&t, &[0], 0, &catalog(), &def, &archive);
    assert_eq!(items.total_items, 3);
    // The root hides the sub-menu with nothing visible.
    let root = flat_items_at(&t, &[], 0, &catalog(), &def, &archive);
    let labels: Vec<&str> = root.items.iter().map(|i| i.label.as_str()).collect();
    assert_eq!(labels, vec!["Production", "Delete"]);
    assert!(!root.has_back);
}

#[test]
fn flat_items_page_and_scroll() {
    let t = tree();
    let def = MenuDef { root: tree(), page_size: 1 };
    let archive = GlobalArchive::new(&vec!["science".to_string()]);
    let page = flat_items_at(&t, &[0], 1, &catalog(), &def, &archive);
    assert_eq!(page.items.len(), 1);
    assert_eq!(page.items[0].label, "Lab");
    assert!(page.can_scroll_left);
    assert!(page.can_scroll_right);
    let last = flat_items_at(&t, &[0], 2, &catalog(), &def, &archive);
    assert!(!last.can_scroll_right);
    let past = flat_items_at(&t, &[0], 9, &catalog(), &def, &archive);
    assert_eq!(past.items.len(), 0);
}

#[test]
fn entering_a_submenu_and_back() {
    let def = MenuDef { root: tree(), page_size: 9 };
    let archive = GlobalArchive::new(&vec![]);
    let mut state = MenuState::default();
    let mut build_mode: Option<String> = None;
    let mut deconstruct = false;
    let items = flat_items_at(&def.root, &state.stack, 0, &catalog(), &def, &archive);
    // "Production" starts with a building action: it is selected at once.
    let spawn = activate_item(&items.items[0], &mut state, &def, &mut build_mode, &mut deconstruct);
    assert_eq!(spawn, None);
    assert_eq!(state.stack, vec![0]);
    assert_eq!(build_mode.as_deref(), Some("drill"));
    state.go_back();
    assert!(state.stack.is_empty());
}

#[test]
fn entering_units_spawns_first_unit() {
    let def = MenuDef { root: tree(), page_size: 9 };
    let archive = GlobalArchive::new(&vec![]);
    let mut state = MenuState { stack: vec![0], scroll: 0 };
    let mut build_mode: Option<String> = None;
    let mut deconstruct = false;
    let items = flat_items_at(&def.root, &state.stack, 0, &catalog(), &def, &archive);
    let units = items.items.iter().find(|i| i.label == "Units").unwrap();
    let spawn = activate_item(units, &mut state, &def, &mut build_mode, &mut deconstruct);
    assert_eq!(spawn.as_deref(), Some("scout"));
    assert_eq!(state.stack, vec![0, 3]);
}

#[test]
fn build_item_toggles_and_delete_switches() {
    let def = MenuDef { root: tree(), page_size: 9 };
    let archive = GlobalArchive::new(&vec![]);
    let mut state = MenuState { stack: vec![0], scroll: 0 };
    let mut build_mode: Option<String> = None;
    let mut deconstruct = true;
    let items = flat_items_at(&def.root, &state.stack, 0, &catalog(), &def, &archive);
    activate_item(&items.items[0], &mut state, &def, &mut build_mode, &mut deconstruct);
    assert_eq!(build_mode.as_deref(), Some("drill"));
    assert!(!deconstruct);
    activate_item(&items.items[0], &mut state, &def, &mut build_mode, &mut deconstruct);
    assert_eq!(build_mode, None);
    let root_items = flat_items_at(&def.root, &[], 0, &catalog(), &def, &archive);
    let mut root_state = MenuState::default();
    build_mode = Some("drill".to_string());
    activate_item(&root_items.items[1], &mut root_state, &def, &mut build_mode, &mut deconstruct);
    assert!(deconstruct);
    assert_eq!(build_mode, None);
    assert!(matches!(root_items.items[1].kind, FlatItemKind::Action(MenuAction::Delete)));
}

#[test]
fn bar_keys_escape_cancels_then_goes_back() {
    let def = MenuDef { root: tree(), page_size: 9 };
    let archive = GlobalArchive::new(&vec![]);
    let mut state = MenuState { stack: vec![0], scroll: 3 };
    let mut build_mode = Some("drill".to_string());
    let mut deconstruct = false;
    let items = flat_items_at(&def.root, &state.stack, 0, &catalog(), &def, &archive);
    let keys = BarKeys { backspace: false, escape: true, digit1: false, slots: vec![false; 9], toggle_deconstruct: false };
    let spawns = menu_navigation(&mut state, &def, &items, &mut build_mode, &mut deconstruct, &keys);
    assert!(spawns.is_empty());
    assert_eq!(build_mode, None);
    assert_eq!(state.stack, vec![0]);
    menu_navigation(&mut state, &def, &items, &mut build_mode, &mut deconstruct, &keys);
    assert!(state.stack.is_empty());
    assert_eq!(state.scroll, 0);
}

#[test]
fn bar_slot_key_activates_item() {
    let def = MenuDef { root: tree(), page_size: 9 };
    let archive = GlobalArchive::new(&vec![]);
    let mut state = MenuState { stack: vec![0, 3], scroll: 0 };
    let mut build_mode = None;
    let mut deconstruct = false;
    let items = flat_items_at(&def.root, &state.stack, 0, &catalog(), &def, &archive);
    let mut slots = vec![false; 9];
    slots[0] = true;
    let keys = BarKeys { backspace: false, escape: false, digit1: false, slots, toggle_deconstruct: true };
    let spawns = menu_navigation(&mut state, &def, &items, &mut build_mode, &mut deconstruct, &keys);
    assert_eq!(spawns, vec!["scout".to_string()]);
    assert!(deconstruct);
}

#[test]
fn scroll_stays_within_pages() {
    let mut s = MenuState::default();
    s.scroll_by(-1, 10, 4);
    assert_eq!(s.scroll, 0);
    s.scroll_by(1, 10, 4);
    assert_eq!(s.scroll, 1);
    s.scroll = 6;
    s.scroll_by(1, 10, 4);
    assert_eq!(s.scroll, 6);
}

#[test]
fn resolving_the_menu_file() {
    let c = catalog();
    match resolve_item_id("drill", &c) {
        Some(MenuEntry::Action { label, action: MenuAction::Build(id) }) => {
            assert_eq!(label, "Drill");
            assert_eq!(id, "drill");
        }
        other => panic!("unexpected {:?}", other),
    }
    assert!(resolve_item_id("secret", &c).is_none());
    assert!(matches!(resolve_item_id("scout", &c), Some(MenuEntry::Action { action: MenuAction::Spawn(_), .. })));
    assert!(resolve_item_id("nothing", &c).is_none());
    let empty = MenuSource::SubMenu { label: "E".to_string(), items: vec![MenuSource::Id("nothing".to_string())] };
    assert!(resolve_menu_item(&empty, &c).is_none());
    let del = MenuSource::Special { action: "delete".to_string(), label: "Del".to_string() };
    assert!(matches!(resolve_menu_item(&del, &c), Some(MenuEntry::Action { action: MenuAction::Delete, .. })));
    let other = MenuSource::Special { action: "explode".to_string(), label: "X".to_string() };
    assert!(resolve_menu_item(&other, &c).is_none());
    let cats = vec![
        MenuCategorySource { label: "A".to_string(), items: vec![MenuSource::Id("drill".to_string())] },
        MenuCategorySource { label: "B".to_string(), items: vec![MenuSource::Id("secret".to_string())] },
    ];
    let def = MenuDef::from_source(&cats, 9, &c);
    assert_eq!(def.root.len(), 1);
    assert_eq!(def.page_size, 9);
}

#[test]
fn menu_items_equality_compares_what_is_shown() {
    let t = tree();
    let def = MenuDef { root: tree(), page_size: 9 };
    let archive = GlobalArchive::new(&vec![]);
    let a = flat_items_at(&t, &[0], 0, &catalog(), &def, &archive);
    let b = flat_items_at(&t, &[0], 0, &catalog(), &def, &archive);
    assert!(a == b);
    let c = flat_items_at(&t, &[], 0, &catalog(), &def, &archive);
    assert!(a != c);
}
