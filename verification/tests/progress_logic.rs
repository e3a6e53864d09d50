use siege_factory::agriculture::{find_plantable_tile_spiral, seed_choice, Cultivator, CultivatorState};
use siege_factory::capsule::{CapsuleConfig, CapsuleStatusRegistry, StatusDef, StatusTier};
use siege_factory::combat::{apply_hit, player_pickup_ground_items, GroundItemStack};
use siege_factory::construction::{
    builder_deliver, deposit_choice, finish_construction, mine_deposit, mine_target, still_needs, supply_choice,
    take_supply, BuilderState,
};
use siege_factory::discovery::{archive_unlocks, check_discoveries, DiscoveryDef, GlobalArchive};
use siege_factory::inventory::Inventory;
use siege_factory::modding::{is_safe_path, ActiveMod, ModManifest, ModRegistry, ModSettings};
use siege_factory::resource::{Cost, ResourceId};
use siege_factory::settings::Settings;
use siege_factory::tutorial::{crafted_times, evaluate_condition, parse_u32, TutorialConditions, TutorialState, TutorialStepDef};

fn rid(s: &str) -> ResourceId {
    ResourceId::new(s)
}

fn cost(r: &str, a: u32) -> Cost {
    Cost { resource: rid(r), amount: a }
}

fn m(id: &str, enabled: bool) -> ActiveMod {
    ActiveMod {
        manifest: ModManifest { id: id.to_string(), name: id.to_string(), version: "1".to_string(), description: None, author: None },
        path: format!("mods/{}", id),
        enabled,
    }
}

#[test]
fn safe_paths() {
    assert!(is_safe_path("items.toml"));
    assert!(is_safe_path("sub/items.toml"));
    assert!(is_safe_path("..data/x"));
    assert!(is_safe_path("a/..b"));
    assert!(!is_safe_path("../secret"));
    assert!(!is_safe_path("a/../b"));
    assert!(!is_safe_path("a/.."));
    assert!(!is_safe_path(".."));
    assert!(!is_safe_path("/etc/passwd"));
}

#[test]
fn mod_settings_and_toggle() {
    let mut reg = ModRegistry { mods: vec![m("base", false), m("a", true), m("b", true)] };
    reg.apply_settings(&ModSettings { disabled: vec!["b".to_string(), "base".to_string()] });
    let flags: Vec<bool> = reg.mods.iter().map(|x| x.enabled).collect();
    assert_eq!(flags, vec![true, true, false]);
    assert!(!reg.toggle("base"));
    assert!(reg.mods[0].enabled);
    assert!(reg.toggle("a"));
    assert!(!reg.mods[1].enabled);
    assert!(reg.toggle("a"));
    assert!(reg.mods[1].enabled);
    assert!(reg.toggle("ghost"));
    assert_eq!(reg.save_settings().disabled, vec!["b".to_string()]);
    assert_eq!(reg.enabled(), vec![0, 1]);
    assert_eq!(reg.load_data_order("x.toml"), Some(vec![1, 0]));
    assert_eq!(reg.load_data_order("../x.toml"), None);
    assert_eq!(reg.load_all_data_order("x.toml"), Some(vec![0, 1]));
    assert_eq!(reg.load_texture_order("belt", "base"), Some(("belt_base.png".to_string(), vec![1, 0])));
    assert_eq!(reg.base_path(), Some("mods/base".to_string()));
    assert!(reg.get("b").is_some());
    assert!(reg.get("zzz").is_none());
}

#[test]
fn settings_record_one_name_per_action() {
    let mut s = Settings::default();
    s.set_binding("jump", "Space");
    s.set_binding("fire", "MouseLeft");
    s.set_binding("jump", "KeyJ");
    assert_eq!(s.keybindings, vec![("jump".to_string(), "KeyJ".to_string()), ("fire".to_string(), "MouseLeft".to_string())]);
}

#[test]
fn numbers_parse_like_std() {
    assert_eq!(parse_u32("42"), Some(42));
    assert_eq!(parse_u32("+7"), Some(7));
    assert_eq!(parse_u32("4294967295"), Some(u32::MAX));
    assert_eq!(parse_u32("4294967296"), None);
    assert_eq!(parse_u32(""), None);
    assert_eq!(parse_u32("+"), None);
    assert_eq!(parse_u32("-1"), None);
    assert_eq!(parse_u32("1a"), None);
    for s in ["0", "12", "+3", "999999", "x", "12 "] {
        assert_eq!(parse_u32(s), s.parse::<u32>().ok());
    }
}

fn params(v: &[(&str, &str)]) -> Vec<(String, String)> {
    v.iter().map(|(a, b)| (a.to_string(), b.to_string())).collect()
}

#[test]
fn tutorial_conditions() {
    let mut c = TutorialConditions::default();
    assert!(!evaluate_condition("items_collected", &params(&[]), &c, false, false));
    c.record_items_held(3);
    assert!(evaluate_condition("items_collected", &params(&[]), &c, false, false));
    assert!(!evaluate_condition("items_collected", &params(&[("count", "5")]), &c, false, false));
    assert!(evaluate_condition("items_collected", &params(&[("count", "bad")]), &c, false, false));
    c.record_items_held(1);
    assert_eq!(c.items_collected, 3);
    assert!(!evaluate_condition("building_placed", &params(&[]), &c, false, false));
    c.record_building_placed("hq");
    assert_eq!(c.buildings_placed, 0);
    c.record_building_placed("drill");
    assert!(evaluate_condition("building_placed", &params(&[]), &c, false, false));
    assert!(evaluate_condition("building_placed", &params(&[("building_id", "drill")]), &c, false, false));
    assert!(!evaluate_condition("building_placed", &params(&[("building_id", "lab")]), &c, false, false));
    assert!(!evaluate_condition("item_crafted", &params(&[]), &c, false, false));
    c.record_crafted("gear", 2);
    c.record_crafted("gear", 1);
    assert!(evaluate_condition("item_crafted", &params(&[("recipe_id", "gear")]), &c, false, false));
    assert_eq!(c.items_crafted, vec![("gear".to_string(), 2)]);
    assert!(evaluate_condition("player_moved_distance", &params(&[]), &c, true, false));
    assert!(!evaluate_condition("player_near_structure", &params(&[]), &c, true, false));
    assert!(evaluate_condition("unknown", &params(&[]), &c, false, false));
    assert!(!evaluate_condition("structure_interacted", &params(&[("structure_id", "hq")]), &c, false, false));
    c.structures_interacted.push(("hq".to_string(), true));
    assert!(evaluate_condition("structure_interacted", &params(&[("structure_id", "hq")]), &c, false, false));
}

fn step(t: &str) -> TutorialStepDef {
    TutorialStepDef { id: t.to_string(), toast: t.to_string(), condition: "x".to_string(), params: vec![] }
}

#[test]
fn tutorial_ticks_through_steps() {
    let mut st = TutorialState { current_index: 0, completed: false, steps: vec![step("one"), step("two"), step("three")] };
    assert!(st.tick(false, false).is_empty());
    assert_eq!(st.tick(true, true), vec!["one".to_string(), "two".to_string()]);
    assert_eq!(st.current_index, 2);
    assert_eq!(st.tick(true, false), vec!["three".to_string()]);
    assert!(st.completed);
    assert!(st.tick(true, true).is_empty());
}

#[test]
fn crafted_times_counts_full_outputs() {
    let mut inv = Inventory::new();
    inv.add(&rid("gear"), 5);
    inv.add(&rid("bolt"), 1);
    assert_eq!(crafted_times(&inv, &vec![(rid("gear"), 2)]), 1);
    assert_eq!(crafted_times(&inv, &vec![(rid("gear"), 1), (rid("bolt"), 1)]), 0);
    assert_eq!(crafted_times(&inv, &vec![(rid("gear"), 1)]), 1);
}

#[test]
fn discoveries_fire_once() {
    let defs = vec![
        DiscoveryDef { building: "lab".to_string(), threshold: 3, reward_type: "recipe".to_string(), reward_id: "gear".to_string(), message: "Gear!".to_string() },
        DiscoveryDef { building: "lab".to_string(), threshold: 10, reward_type: "recipe".to_string(), reward_id: "motor".to_string(), message: "Motor!".to_string() },
        DiscoveryDef { building: "mine".to_string(), threshold: 1, reward_type: "recipe".to_string(), reward_id: "ore".to_string(), message: "Ore!".to_string() },
        DiscoveryDef { building: "lab".to_string(), threshold: 1, reward_type: "recipe".to_string(), reward_id: "gear".to_string(), message: "Again".to_string() },
    ];
    let archive = GlobalArchive::new(&vec!["motor".to_string()]);
    let mut discovered = vec![];
    let fired = check_discoveries(&defs, "lab", 12, &mut discovered, &archive);
    assert_eq!(fired, vec![0]);
    assert_eq!(discovered, vec!["gear".to_string()]);
    let fired = check_discoveries(&defs, "lab", 12, &mut discovered, &archive);
    assert!(fired.is_empty());
}

#[test]
fn archive_unlocks_pending_discoveries() {
    let mut archive = GlobalArchive::new(&vec!["plate".to_string()]);
    let mut inv = Inventory::new();
    inv.add(&rid("gear"), 1);
    inv.add(&rid("plate"), 1);
    inv.add(&rid("junk"), 1);
    let discovered = vec![vec!["junk2".to_string()], vec!["gear".to_string(), "plate".to_string()]];
    let unlocks = archive_unlocks(&inv, &archive, &discovered);
    assert_eq!(unlocks.len(), 1);
    assert_eq!(unlocks[0].0, "gear");
    archive.unlock("gear");
    archive.unlock("gear");
    assert!(archive.is_unlocked("gear"));
    assert_eq!(archive.unlocked_recipes.len(), 2);
}

#[test]
fn spiral_search_for_plots() {
    assert_eq!(find_plantable_tile_spiral(10, 10, &vec![]), Some((11, 10)));
    assert_eq!(find_plantable_tile_spiral(0, 0, &vec![(1, 0)]), Some((1, 1)));
    assert_eq!(find_plantable_tile_spiral(0, 0, &vec![(1, 0), (1, 1)]), Some((0, 1)));
    assert_eq!(find_plantable_tile_spiral(0, 0, &vec![(1, 0), (1, 1), (0, 1)]), Some((-1, 1)));
    assert_eq!(find_plantable_tile_spiral(0, 0, &vec![(1, 0), (1, 1), (0, 1), (-1, 1)]), Some((-1, 0)));
}

#[test]
fn cultivator_cycle() {
    let mut c = Cultivator { state: CultivatorState::Idle, carried_resource: None, carried_amount: 0, carry_capacity: 5 };
    c.idle_decision(None, Some(7), None);
    assert_eq!(c.state, CultivatorState::MovingToFarmForSeeds(7));
    c.take_seeds("wheat", 2);
    assert_eq!(c.state, CultivatorState::Idle);
    c.idle_decision(None, Some(7), Some((3, 4)));
    assert_eq!(c.state, CultivatorState::MovingToPlant(3, 4));
    assert_eq!(c.plant(None), "wheat");
    assert_eq!(c.carried_amount, 1);
    c.idle_decision(Some(9), Some(7), None);
    assert_eq!(c.state, CultivatorState::DeliveringToFarm(7));
    let d = c.deliver(7).unwrap();
    assert_eq!((d.farm_entity, d.resource.as_str(), d.amount), (7, "wheat", 1));
    assert!(c.carried_resource.is_none());
    c.idle_decision(Some(9), Some(7), None);
    assert_eq!(c.state, CultivatorState::MovingToHarvest(9));
    assert!(c.harvest(true, "wheat", 5, 5, Some(7)));
    assert_eq!(c.state, CultivatorState::DeliveringToFarm(7));
    assert!(!c.harvest(false, "wheat", 5, 5, Some(7)));
    assert_eq!(c.state, CultivatorState::Idle);
    assert_eq!(c.carried_amount, 5);
}

#[test]
fn seeds_come_from_the_first_farm() {
    let types = vec!["wheat".to_string(), "corn".to_string()];
    assert_eq!(seed_choice(&types, 1, None), "corn");
    assert_eq!(seed_choice(&types, 9, None), "corn");
    assert_eq!(seed_choice(&vec![], 0, Some(&"rice".to_string())), "rice");
    assert_eq!(seed_choice(&vec![], 0, None), "wheat");
}

#[test]
fn construction_supply_and_finish() {
    let c = vec![cost("iron", 2), cost("copper", 1)];
    let mut delivered = Inventory::new();
    let mut player = Inventory::new();
    player.add(&rid("copper"), 3);
    assert!(still_needs(&c, &delivered));
    assert_eq!(supply_choice(&c, &delivered, &player), Some(1));
    let taken = take_supply(&mut player, &c, &delivered).unwrap();
    assert_eq!(taken.0, "copper");
    assert_eq!(player.get(&rid("copper")), 2);
    assert_eq!(deposit_choice(&c, &delivered).unwrap().0, "iron");
    let mut state = BuilderState::MovingToBuilding(3);
    builder_deliver(&mut state, &c, &mut delivered);
    assert_eq!(state, BuilderState::ReturningToPlayer);
    assert_eq!(delivered.get(&rid("iron")), 1);
    assert!(!finish_construction(&mut delivered, &c));
    delivered.add(&rid("iron"), 1);
    delivered.add(&rid("copper"), 1);
    assert!(finish_construction(&mut delivered, &c));
    assert_eq!(delivered.total(), 0);
}

#[test]
fn mining_adjacent_deposits() {
    let deposits = vec![(5, 5, 3), (1, 0, 0), (0, 1, 4)];
    assert_eq!(mine_target((0, 0), &deposits), Some(2));
    assert_eq!(mine_target((9, 9), &deposits), None);
    let mut inv = Inventory::new();
    assert_eq!(mine_deposit(&mut inv, &rid("stone"), 4, false), 3);
    assert_eq!(mine_deposit(&mut inv, &rid("stone"), 4, true), 4);
    assert_eq!(inv.get(&rid("stone")), 2);
}

#[test]
fn capsule_status_by_tier() {
    let tier = |t: usize, text: &str| StatusTier { tier: t, text: text.to_string(), color: format!("#{}", t) };
    let reg = CapsuleStatusRegistry {
        statuses: vec![StatusDef { id: "hull".to_string(), label: "Hull".to_string(), tiers: vec![tier(1, "weak"), tier(3, "ok"), tier(5, "strong")] }],
    };
    assert_eq!(reg.status_text("hull", 0), "weak");
    assert_eq!(reg.status_text("hull", 3), "ok");
    assert_eq!(reg.status_text("hull", 4), "ok");
    assert_eq!(reg.status_text("hull", 9), "strong");
    assert_eq!(reg.status_color("hull", 4), "#3");
    assert_eq!(reg.status_text("none", 4), "");
    assert_eq!(reg.status_color("none", 4), "#ff3333");
    let cfg = CapsuleConfig::default();
    assert_eq!(cfg.building_kind, "genesis_ark");
}

#[test]
fn hits_and_pickups() {
    assert_eq!(apply_hit(10, 3), (7, false));
    assert_eq!(apply_hit(3, 10), (0, true));
    assert_eq!(apply_hit(5, 5), (0, true));
    let mut inv = Inventory::new();
    let items = vec![
        GroundItemStack { x: 1, y: 1, resource_id: rid("wood"), amount: 2 },
        GroundItemStack { x: 3, y: 0, resource_id: rid("wood"), amount: 5 },
        GroundItemStack { x: -1, y: 0, resource_id: rid("wood"), amount: 1 },
    ];
    let picked = player_pickup_ground_items(&mut inv, (0, 0), &items);
    assert_eq!(picked, vec![true, false, true]);
    assert_eq!(inv.get(&rid("wood")), 3);
}
