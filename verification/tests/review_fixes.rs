use siege_factory::agriculture::{claim, claims, find_plantable_tile_spiral, first_unclaimed, CultivatorState};
use siege_factory::building::{building_from_entry, BuildingDefaults, BuildingEntry};
use siege_factory::catalog::BeltVariant;
use siege_factory::input::{InputBinding, Key, MouseButton};
use siege_factory::keybindings::KeyBindings;
use siege_factory::main_menu::{menu_rebind_handler, MenuNav, RebindState};
use siege_factory::modding::is_safe_path;
use siege_factory::placement::compute_line;
use siege_factory::resource::ResourceId;
use siege_factory::settings::Settings;

fn pairs(v: &[(&str, &str)]) -> Vec<(String, String)> {
    v.iter().map(|(a, b)| (a.to_string(), b.to_string())).collect()
}

#[test]
fn rebind_waits_cancels_and_binds_the_pressed_input() {
    let mut kb = KeyBindings::from_names(&pairs(&[("jump", "Space")])).unwrap();
    let mut settings = Settings::default();
    let mut nav = MenuNav { stack: vec!["main_menu".to_string(), "keybindings".to_string()], selection: 3 };

    let mut rebind = RebindState(Some("jump".to_string()));
    let saved = menu_rebind_handler(&mut rebind, &mut kb, &mut settings, &mut nav, false, &vec![Key::Enter], &vec![MouseButton::Left]);
    assert!(!saved);
    assert_eq!(rebind.0.as_deref(), Some("jump"));
    assert_eq!(kb.get("jump"), InputBinding::Key(Key::Space));
    assert!(settings.keybindings.is_empty());
    assert_eq!(nav.stack.len(), 2);
    assert_eq!(nav.selection, 3);

    let saved = menu_rebind_handler(&mut rebind, &mut kb, &mut settings, &mut nav, false, &vec![], &vec![MouseButton::Middle]);
    assert!(saved);
    assert!(rebind.0.is_none());
    assert_eq!(kb.get("jump"), InputBinding::Mouse(MouseButton::Middle));
    assert_eq!(settings.keybindings, pairs(&[("jump", "MouseMiddle")]));
    assert_eq!(nav.stack, vec!["main_menu".to_string()]);

    let mut rebind = RebindState(Some("jump".to_string()));
    let saved = menu_rebind_handler(&mut rebind, &mut kb, &mut settings, &mut nav, true, &vec![Key::Letter('Q')], &vec![]);
    assert!(!saved);
    assert!(rebind.0.is_none());
    assert_eq!(kb.get("jump"), InputBinding::Mouse(MouseButton::Middle));
}

#[test]
fn later_overrides_win() {
    let mut kb = KeyBindings::from_names(&pairs(&[("jump", "Space"), ("fire", "MouseLeft")])).unwrap();
    kb.apply_overrides(&pairs(&[("jump", "KeyA"), ("jump", "KeyB"), ("jump", "NoSuchKey"), ("fire", "Nope")]));
    assert_eq!(kb.get("jump"), InputBinding::Key(Key::Letter('B')));
    assert_eq!(kb.get("fire"), InputBinding::Mouse(MouseButton::Left));
}

#[test]
fn spiral_works_near_the_edge_of_the_grid() {
    assert_eq!(find_plantable_tile_spiral(i32::MAX - 50, 0, &vec![]), Some((i32::MAX - 49, 0)));
    assert_eq!(find_plantable_tile_spiral(i32::MIN + 50, i32::MIN + 50, &vec![(i32::MIN + 51, i32::MIN + 50)]), Some((i32::MIN + 51, i32::MIN + 51)));
}

#[test]
fn cultivator_claims() {
    let states = vec![
        CultivatorState::MovingToHarvest(7),
        CultivatorState::Idle,
        CultivatorState::MovingToPlant(2, 3),
        CultivatorState::DeliveringToFarm(1),
        CultivatorState::MovingToHarvest(9),
    ];
    let (mut crops, mut tiles) = claims(&states);
    assert_eq!(crops, vec![7, 9]);
    assert_eq!(tiles, vec![(2, 3)]);
    claim(CultivatorState::MovingToPlant(4, 4), &mut crops, &mut tiles);
    claim(CultivatorState::Idle, &mut crops, &mut tiles);
    assert_eq!(crops, vec![7, 9]);
    assert_eq!(tiles, vec![(2, 3), (4, 4)]);
}

#[test]
fn drag_lines_visit_each_tile_once_and_end_towards_the_end() {
    let line = compute_line((0, 0), (3, -2));
    for i in 0..line.len() {
        for j in (i + 1)..line.len() {
            assert_ne!((line[i].0, line[i].1), (line[j].0, line[j].1));
        }
    }
    assert_eq!(line.last().unwrap().2, siege_factory::direction::Direction::South);
    assert_eq!(compute_line((0, 0), (1, 4)).last().unwrap().2, siege_factory::direction::Direction::East);
}

#[test]
fn paths_are_read_as_on_unix() {
    assert!(is_safe_path("textures/a.png"));
    assert!(!is_safe_path("/etc/passwd"));
    assert!(!is_safe_path("a/../b"));
    assert!(is_safe_path("a\\b"));
}

#[test]
fn ascii_identifiers_are_lowercased_and_named() {
    assert_eq!(ResourceId::new("Iron_ORE"), ResourceId::new("iron_ore"));
    assert_eq!(ResourceId::new("iron_ore").display_name(), "Iron Ore");
}

#[test]
fn building_entries_take_the_defaults() {
    let entry = BuildingEntry {
        name: "Furnace".to_string(),
        cost: vec![("Iron_Plate".to_string(), 5)],
        hp: 50,
        tile_w: 2,
        tile_h: 2,
        requires_deposit: false,
        can_deconstruct: None,
        inventory_capacity: Some(20),
        hidden: false,
        drag_placement: false,
        belt_given: false,
        default_recipe: Some("smelt_iron".to_string()),
        default_filter: None,
        crop_types: vec![],
        recipe_categories: vec!["smelting".to_string()],
        requires_discovery: None,
        level: 1,
        upgrades_from: None,
        belt_variant: Some("Aerial".to_string()),
    };
    let d = building_from_entry("furnace", entry, &BuildingDefaults { can_deconstruct: true, inventory_capacity: 0 });
    assert_eq!(d.id, "furnace");
    assert!(d.can_deconstruct);
    assert_eq!(d.inventory_capacity, 20);
    assert_eq!(d.cost[0].resource, ResourceId::new("iron_plate"));
    assert_eq!(d.cost[0].amount, 5);
    assert_eq!(d.belt_variant, BeltVariant::Aerial);
    assert!(d.upgrades_to.is_none());
}

fn found_mod(id: &str) -> siege_factory::modding::ActiveMod {
    siege_factory::modding::ActiveMod {
        manifest: siege_factory::modding::ModManifest {
            id: id.to_string(),
            name: id.to_string(),
            version: "1".to_string(),
            description: None,
            author: None,
        },
        path: format!("mods/{}", id),
        enabled: true,
    }
}

#[test]
fn base_mod_is_listed_first() {
    let reg = siege_factory::modding::ModRegistry::from_found(vec![found_mod("a"), found_mod("b"), found_mod("base"), found_mod("c")]);
    let ids: Vec<&str> = reg.mods.iter().map(|m| m.manifest.id.as_str()).collect();
    assert_eq!(ids, vec!["base", "a", "b", "c"]);
    let reg = siege_factory::modding::ModRegistry::from_found(vec![found_mod("a"), found_mod("b")]);
    let ids: Vec<&str> = reg.mods.iter().map(|m| m.manifest.id.as_str()).collect();
    assert_eq!(ids, vec!["a", "b"]);
}

#[test]
fn belt_hand_off_moves_one_item_when_room() {
    let mut a = vec![None, Some(1u8)];
    let mut b = vec![None, Some(2u8)];
    assert!(siege_factory::belt::hand_off(&mut a, &mut b));
    assert_eq!(a, vec![None, None]);
    assert_eq!(b, vec![Some(1), Some(2)]);
    let mut c = vec![Some(3u8)];
    assert!(!siege_factory::belt::hand_off(&mut c, &mut b));
    assert_eq!(c, vec![Some(3)]);
    assert_eq!(b, vec![Some(1), Some(2)]);
}

#[test]
fn idle_cultivators_skip_claimed_crops() {
    // Two idle cultivators in one frame, with crops 7 (nearest) and 9 ripe:
    // the first takes 7, the second, seeing 7 claimed, takes 9.
    let states = vec![CultivatorState::MovingToHarvest(3), CultivatorState::Idle, CultivatorState::Idle];
    let (mut crops, mut tiles) = claims(&states);
    let by_distance = vec![3, 7, 9];
    let first = first_unclaimed(&by_distance, &crops);
    assert_eq!(first, Some(7));
    claim(CultivatorState::MovingToHarvest(7), &mut crops, &mut tiles);
    let second = first_unclaimed(&by_distance, &crops);
    assert_eq!(second, Some(9));
    claim(CultivatorState::MovingToHarvest(9), &mut crops, &mut tiles);
    assert_eq!(crops, vec![3, 7, 9]);
    assert_eq!(first_unclaimed(&by_distance, &crops), None);
    assert_eq!(first_unclaimed(&vec![], &crops), None);
}
