use siege_factory::direction::Direction;
use siege_factory::inventory::Inventory;
use siege_factory::machines::{compact_once, pick_output_for_belt};
use siege_factory::placement::{
    can_afford, chunk_of, classify_drag_tiles, compute_footprint, compute_line, decide_build_click, deduct_cost,
    detect_producer_direction, scale_cost, BuildClick, BuildPlan,
};
use siege_factory::recipe::{assembler_tick, craft_items, has_recipe_resources, RecipeDef, RecipeRegistry};
use siege_factory::resource::{Cost, ResourceId};

fn rid(s: &str) -> ResourceId {
    ResourceId::new(s)
}

#[test]
fn directions_rotate() {
    assert_eq!(Direction::East.next(), Direction::North);
    assert_eq!(Direction::North.prev(), Direction::East);
    assert_eq!(Direction::West.offset(), (-1, 0));
    assert_eq!(Direction::from_offset(0, -1), Direction::South);
    assert_eq!(Direction::from_offset(5, 5), Direction::East);
    for d in [Direction::East, Direction::North, Direction::West, Direction::South] {
        assert_eq!(d.next().prev(), d);
        assert_eq!(d.next().next().next().next(), d);
        let (x, y) = d.offset();
        assert_eq!(Direction::from_offset(x, y), d);
    }
    assert_eq!(Direction::default(), Direction::East);
}

#[test]
fn resource_names() {
    assert_eq!(rid("Iron_Ore").0, "iron_ore");
    assert_eq!(rid("iron_ore").display_name(), "Iron Ore");
    assert_eq!(rid("copper").display_name(), "Copper");
    assert_eq!(rid("a__b").display_name(), "A  B");
}

#[test]
fn inventory_add_remove() {
    let mut inv = Inventory::with_capacity(10);
    inv.add(&rid("iron"), 3);
    inv.add(&rid("copper"), 2);
    inv.add(&rid("iron"), 4);
    assert_eq!(inv.get(&rid("iron")), 7);
    assert_eq!(inv.total(), 9);
    assert_eq!(inv.slot_count(), 2);
    assert!(!inv.try_add(&rid("gold"), 2));
    assert!(inv.try_add(&rid("gold"), 1));
    assert!(inv.is_full());
    assert!(inv.remove(&rid("iron"), 7));
    assert_eq!(inv.get(&rid("iron")), 0);
    assert!(!inv.remove(&rid("iron"), 1));
    // The emptied slot is reused.
    inv.add(&rid("stone"), 1);
    assert_eq!(inv.slot_count(), 3);
    assert_eq!(inv.occupied_slot_count(), 3);
    inv.clear();
    assert_eq!(inv.total(), 0);
    assert_eq!(inv.slot_count(), 3);
}

#[test]
fn inventory_slots() {
    let mut inv = Inventory::with_slots(2, 0);
    inv.add(&rid("a"), 1);
    inv.swap_slots(0, 3);
    assert_eq!(inv.slot_count(), 4);
    assert!(!inv.is_empty_slot(0));
    assert!(inv.is_empty_slot(3));
    assert_eq!(inv.first_resource().map(|r| r.0), Some("a".to_string()));
    let raw = inv.to_raw_slots();
    let back = Inventory::from_raw_slots(raw, 0);
    assert_eq!(back.get(&rid("a")), 1);
    assert_eq!(back.iter_occupied().len(), 1);
}

#[test]
fn add_then_remove_restores_amount() {
    let mut inv = Inventory::new();
    inv.add(&rid("x"), 5);
    let before = inv.get(&rid("x"));
    inv.add(&rid("x"), 3);
    inv.remove(&rid("x"), 3);
    assert_eq!(inv.get(&rid("x")), before);
}

fn recipe() -> RecipeDef {
    RecipeDef {
        id: "gear".to_string(),
        category: "basic".to_string(),
        craftable_in: vec![],
        input: vec![(rid("iron"), 2)],
        output: vec![(rid("gear"), 1)],
    }
}

#[test]
fn crafting() {
    let mut inv = Inventory::new();
    inv.add(&rid("iron"), 5);
    let counter = craft_items(&mut inv, &recipe(), 10);
    assert_eq!(counter, 11);
    assert_eq!(inv.get(&rid("iron")), 3);
    assert_eq!(inv.get(&rid("gear")), 1);
    let mut reg = RecipeRegistry::new();
    reg.insert(recipe());
    assert!(has_recipe_resources("gear", Some(&inv), &reg));
    assert!(!has_recipe_resources("motor", Some(&inv), &reg));
}

#[test]
fn compactor_and_outputs() {
    let mut inv = Inventory::new();
    inv.add(&rid("ore"), 3);
    inv.add(&rid("sand"), 5);
    let r = compact_once(&mut inv, 4);
    assert_eq!(r.map(|x| x.0), Some("sand".to_string()));
    assert_eq!(inv.get(&rid("sand")), 1);
    assert_eq!(inv.get(&rid("sand_compressed")), 1);
    let outs = vec![(rid("gear"), 1), (rid("ore"), 1)];
    let picked = pick_output_for_belt(&mut inv, Some(&outs));
    assert_eq!(picked.map(|x| x.0), Some("ore".to_string()));
    assert_eq!(inv.get(&rid("ore")), 2);
}

#[test]
fn lines_and_footprints() {
    assert_eq!(compute_line((0, 0), (0, 0)), vec![(0, 0, Direction::East)]);
    assert_eq!(compute_line((0, 0), (2, 0)), vec![(0, 0, Direction::East), (1, 0, Direction::East), (2, 0, Direction::East)]);
    assert_eq!(compute_line((0, 0), (2, -1)), vec![(0, 0, Direction::East), (1, 0, Direction::East), (2, 0, Direction::South), (2, -1, Direction::South)]);
    assert_eq!(compute_footprint(1, 2, 2, 1), vec![(1, 2), (2, 2)]);
    assert_eq!(chunk_of(-1, 16), (-1, 15));
    assert_eq!(chunk_of(33, 16), (2, 1));
}

#[test]
fn drag_classification_and_producers() {
    let line = vec![(0, 0, Direction::East), (1, 0, Direction::East)];
    let (existing, new) = classify_drag_tiles(&line, &vec![], &vec![((1, 0), Direction::North)]);
    assert_eq!(existing, vec![(1, 0, Direction::East)]);
    assert_eq!(new, vec![(0, 0, Direction::East)]);
    assert_eq!(detect_producer_direction(0, 0, &vec![(0, 1)]), Some(Direction::North));
    assert_eq!(detect_producer_direction(0, 0, &vec![(5, 5)]), None);
}

#[test]
fn costs() {
    let cost = vec![Cost { resource: rid("iron"), amount: 2 }];
    let mut inv = Inventory::new();
    assert!(!can_afford(&inv, &cost));
    inv.add(&rid("iron"), 4);
    assert!(can_afford(&inv, &cost));
    let double = scale_cost(&cost, 2);
    assert_eq!(double[0].amount, 4);
    deduct_cost(&mut inv, &double);
    assert_eq!(inv.get(&rid("iron")), 0);
}

#[test]
fn build_clicks() {
    assert_eq!(decide_build_click(true, false, None, true, None, "belt"), BuildClick::LeftToDrag);
    assert_eq!(decide_build_click(false, true, None, true, None, "drill"), BuildClick::Refused("No resource deposit here".to_string()));
    assert_eq!(decide_build_click(false, true, Some("iron"), false, None, "drill"), BuildClick::Refused("Tile already occupied".to_string()));
    assert_eq!(decide_build_click(false, true, Some("iron"), true, None, "drill"), BuildClick::Place(BuildPlan::Miner { recipe: "mine_iron".to_string() }));
    assert_eq!(decide_build_click(false, false, None, false, None, "wall"), BuildClick::Refused("Tile occupied".to_string()));
    assert_eq!(decide_build_click(false, false, None, true, Some("gear"), "assembler"), BuildClick::Place(BuildPlan::Assembler { recipe: "gear".to_string() }));
    assert_eq!(decide_build_click(false, false, None, true, None, "turret"), BuildClick::Place(BuildPlan::Turret));
    assert_eq!(decide_build_click(false, false, None, true, None, "wall"), BuildClick::Place(BuildPlan::Plain));
}

#[test]
fn assembler_tick_gates_and_crafts() {
    let mut reg = RecipeRegistry::new();
    reg.insert(recipe());
    let mut inv = Inventory::with_capacity(10);
    inv.add(&rid("iron"), 5);
    // Off, unpowered, fluids missing, unknown recipe: nothing runs.
    assert_eq!(assembler_tick(false, None, "gear", &reg, true, true, &mut inv, 0), (false, 0));
    assert_eq!(assembler_tick(true, Some(false), "gear", &reg, true, true, &mut inv, 0), (false, 0));
    assert_eq!(assembler_tick(true, None, "gear", &reg, false, true, &mut inv, 0), (false, 0));
    assert_eq!(assembler_tick(true, None, "motor", &reg, true, true, &mut inv, 0), (false, 0));
    assert_eq!(inv.get(&rid("iron")), 5);
    // Runs but the timer is not due yet.
    assert_eq!(assembler_tick(true, Some(true), "gear", &reg, true, false, &mut inv, 7), (true, 7));
    assert_eq!(inv.get(&rid("gear")), 0);
    // Due: one cycle.
    assert_eq!(assembler_tick(true, Some(true), "gear", &reg, true, true, &mut inv, 7), (true, 8));
    assert_eq!(inv.get(&rid("iron")), 3);
    assert_eq!(inv.get(&rid("gear")), 1);
    // Not enough iron left after one more cycle.
    assert_eq!(assembler_tick(true, None, "gear", &reg, true, true, &mut inv, 0), (true, 1));
    assert_eq!(inv.get(&rid("iron")), 1);
    assert_eq!(assembler_tick(true, None, "gear", &reg, true, true, &mut inv, 0), (false, 0));
    // No room for the output in a full inventory.
    let mut full = Inventory::with_capacity(2);
    full.add(&rid("iron"), 2);
    assert_eq!(assembler_tick(true, None, "gear", &reg, true, true, &mut full, 0), (false, 0));
    assert_eq!(full.get(&rid("iron")), 2);
}
