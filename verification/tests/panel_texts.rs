use siege_factory::agriculture::Farm;
use siege_factory::belt::{BeltItem, Sorter};
use siege_factory::building::{link_upgrades, try_upgrade, upgraded_text, BuildingDef, BuildingRegistry, UpgradeRefusal};
use siege_factory::build_menu::{
    item_look, join_strings, slot_caption, BuildingMenuInfo, FlatItem, FlatItemKind, Highlight, ItemLook, MenuAction,
    MenuCatalog, UnitMenuInfo,
};
use siege_factory::placement::{belt_preview_markers, deconstruct_drag_step, rotate_target};
use siege_factory::capsule::{
    capsule_panel_title, CapsuleConfig, capsule_progress_text, log_read_text, pad_reading, phase_list, total_tiers, LogEntry,
    TierInfo,
};
use siege_factory::catalog::{
    apply_refunds, area_removal, area_removed_text, cannot_deconstruct_text, crop_notice, dismantled_text, filter_notice,
    sorter_mode_notice, kind_has_recipes, normalize_rect, parse_belt_variant, try_pay, BeltVariant, ResourceDef,
    ResourceRegistry,
};
use siege_factory::direction::Direction;
use siege_factory::discovery::discovery_notices;
use siege_factory::inspect::{
    alerts_text, connections_text, crops_text, cultivators_text, deposit_texts, direction_name, inputs_text,
    inventory_text, mining_resource, outputs_text, panel_sections, panel_title, production_name,
    production_status, recipe_name_text, recipe_panel_texts, sorter_resources, status_text, toggle_label,
    upgrade_texts, PanelSection, ProductionStatus,
};
use siege_factory::inventory::Inventory;
use siege_factory::recipe::{RecipeDef, RecipeRegistry};
use siege_factory::recipe_selector::{
    can_craft, category_heading, category_listing, items_text, recipe_label, recipe_prefix, selector_listing,
    selector_unlocked,
};
use siege_factory::resource::{Cost, ResourceId};
use siege_factory::sorted_selection::{order_by_amount, sorted_selection};

fn rid(s: &str) -> ResourceId {
    ResourceId::new(s)
}

fn registry() -> ResourceRegistry {
    ResourceRegistry {
        resources: vec![
            ResourceDef { id: "iron_ore".to_string(), name: "Iron Ore".to_string(), max_stack: 100 },
            ResourceDef { id: "iron_plate".to_string(), name: "Iron Plate".to_string(), max_stack: 100 },
            ResourceDef { id: "coal".to_string(), name: "Coal".to_string(), max_stack: 50 },
        ],
    }
}

fn recipe(id: &str, category: &str, input: Vec<(ResourceId, u32)>, output: Vec<(ResourceId, u32)>) -> RecipeDef {
    RecipeDef {
        id: id.to_string(),
        category: category.to_string(),
        craftable_in: vec![],
        input,
        output,
    }
}

fn strings(v: &[&str]) -> Vec<String> {
    v.iter().map(|s| s.to_string()).collect()
}

#[test]
fn recipe_kinds_and_belt_variants() {
    assert!(kind_has_recipes("assembler"));
    assert!(kind_has_recipes("pumpjack"));
    assert!(!kind_has_recipes("farm"));
    assert!(!kind_has_recipes("Assembler"));
    assert_eq!(parse_belt_variant("Underground"), BeltVariant::Underground);
    assert_eq!(parse_belt_variant("aerial"), BeltVariant::Aerial);
    assert_eq!(parse_belt_variant("CURVED"), BeltVariant::Curved);
    assert_eq!(parse_belt_variant("fast"), BeltVariant::Normal);
}

#[test]
fn paying_and_refunding() {
    let mut inv = Inventory::new();
    inv.add(&rid("iron_plate"), 10);
    let cost = vec![Cost { resource: rid("iron_plate"), amount: 4 }];
    assert!(try_pay(&mut inv, &cost));
    assert_eq!(inv.get(&rid("iron_plate")), 6);
    let too_much = vec![Cost { resource: rid("iron_plate"), amount: 7 }];
    assert!(!try_pay(&mut inv, &too_much));
    assert_eq!(inv.get(&rid("iron_plate")), 6);

    let texts = apply_refunds(&mut inv, &vec![(rid("iron_plate"), 2), (rid("coal"), 0), (rid("iron_ore"), 3)]);
    assert_eq!(texts, vec!["2 Iron Plate".to_string(), "3 Iron Ore".to_string()]);
    assert_eq!(inv.get(&rid("iron_plate")), 8);
    assert_eq!(inv.get(&rid("coal")), 0);
    assert_eq!(inv.get(&rid("iron_ore")), 3);
}

#[test]
fn rectangles_crops_and_sorters() {
    assert_eq!(normalize_rect((5, -2), (1, 3)), (1, -2, 5, 3));
    assert_eq!(normalize_rect((0, 0), (0, 0)), (0, 0, 0, 0));

    let mut farm = Farm { crop_index: 0, crop_types: strings(&["wheat", "carrot"]) };
    assert!(farm.select_crop("carrot"));
    assert_eq!(farm.crop_index, 1);
    assert!(!farm.select_crop("potato"));
    assert_eq!(farm.crop_index, 1);

    let mut sorter = Sorter { filter: rid("coal"), inverted: false };
    sorter.set_filter(&rid("iron_ore"));
    assert_eq!(sorter.filter, rid("iron_ore"));
    assert_eq!(sorter.toggle_inverted(), "inverted");
    assert_eq!(sorter.toggle_inverted(), "normal");
}

#[test]
fn registry_lookups() {
    let mut reg = registry();
    assert_eq!(reg.get("coal").name, "Coal");
    assert!(reg.get_opt("stone").is_none());
    assert_eq!(reg.display_name(&rid("iron_ore")), "Iron Ore");
    assert_eq!(reg.display_name(&rid("stone")), "stone");
    reg.insert(ResourceDef { id: "coal".to_string(), name: "Black Coal".to_string(), max_stack: 20 });
    assert_eq!(reg.resources.len(), 3);
    assert_eq!(reg.get("coal").name, "Black Coal");
    reg.insert(ResourceDef { id: "stone".to_string(), name: "Stone".to_string(), max_stack: 20 });
    assert_eq!(reg.display_name(&rid("stone")), "Stone");
}

#[test]
fn selector_lists_unlocked_recipes_by_category() {
    let recipes = RecipeRegistry {
        recipes: vec![
            recipe("smelt_iron", "smelting", vec![(rid("iron_ore"), 2)], vec![(rid("iron_plate"), 1)]),
            recipe("gear", "parts", vec![(rid("iron_plate"), 2)], vec![(rid("gear"), 1)]),
            recipe("bolt", "parts", vec![(rid("iron_plate"), 1)], vec![(rid("bolt"), 4)]),
            recipe("coke", "smelting", vec![(rid("coal"), 2)], vec![(rid("coke"), 1)]),
            recipe("axle", "parts", vec![], vec![(rid("axle"), 1)]),
        ],
    };
    let unlocked = strings(&["gear", "bolt", "smelt_iron", "axle"]);
    assert_eq!(category_listing(&recipes, "parts", &unlocked), vec![4, 2, 1]);
    assert_eq!(category_listing(&recipes, "smelting", &unlocked), vec![0]);
    assert_eq!(category_listing(&recipes, "fluids", &unlocked), Vec::<usize>::new());

    let listing = selector_listing(&recipes, &strings(&["fluids", "smelting", "parts"]), &unlocked);
    assert_eq!(listing.len(), 2);
    assert_eq!(listing[0].0, "smelting");
    assert_eq!(listing[0].1, vec![0]);
    assert_eq!(listing[1].0, "parts");
    assert_eq!(listing[1].1, vec![4, 2, 1]);

    let mut inv = Inventory::new();
    inv.add(&rid("iron_plate"), 1);
    assert!(can_craft(&recipes.recipes[2], Some(&inv)));
    assert!(!can_craft(&recipes.recipes[1], Some(&inv)));
    assert!(!can_craft(&recipes.recipes[1], None));
    assert!(can_craft(&recipes.recipes[4], None));

    assert_eq!(recipe_prefix(true, true), "> ");
    assert_eq!(recipe_prefix(false, true), "[x] ");
    assert_eq!(recipe_prefix(false, false), "    ");
}

#[test]
fn selector_texts() {
    let reg = registry();
    assert_eq!(category_heading("smelting"), "-- SMELTING --");
    assert_eq!(recipe_label("> ", &reg, "iron_plate"), "> Iron Plate");
    assert_eq!(recipe_label("    ", &reg, "gear"), "    gear");
    let items = vec![(rid("iron_ore"), 2), (rid("gear"), 1)];
    assert_eq!(items_text(&reg, &items, " x", "", " + "), "Iron Ore x2 + gear x1");
    assert_eq!(items_text(&reg, &vec![], " x", "", " + "), "");
}

#[test]
fn sorted_selection_keeps_equal_keys_in_order() {
    let keys = vec!["b", "a", "c", "a"];
    assert_eq!(sorted_selection(&keys, &vec![true, true, true, true]), vec![1, 3, 0, 2]);
    assert_eq!(sorted_selection(&keys, &vec![true, false, true, true]), vec![3, 0, 2]);
    assert_eq!(order_by_amount(&vec![3, 7, 3, 9]), vec![3, 1, 0, 2]);
    assert_eq!(order_by_amount(&vec![]), Vec::<usize>::new());
}

#[test]
fn panel_layout_and_header() {
    let (left, right) = panel_sections("assembler", false);
    assert_eq!(left, vec![PanelSection::Flow, PanelSection::Inventory, PanelSection::Connections]);
    assert_eq!(
        right,
        vec![PanelSection::Stats, PanelSection::Power, PanelSection::Settings, PanelSection::Hp, PanelSection::Alerts]
    );
    let (_, right) = panel_sections("farm", true);
    assert_eq!(
        right,
        vec![PanelSection::Stats, PanelSection::Power, PanelSection::Fuel, PanelSection::Farm, PanelSection::Hp, PanelSection::Alerts]
    );
    let (_, right) = panel_sections("sorter", false);
    assert_eq!(right[2], PanelSection::Filter);
    assert_eq!(PanelSection::Connections.title(), "CONNECTIONS");
    assert_eq!(panel_title("Furnace", 123456), "Furnace  #456");
    assert_eq!(panel_title("Belt", 7), "Belt  #7");
    assert_eq!(toggle_label(true), "[ON]");
    assert_eq!(toggle_label(false), "[OFF]");
    assert_eq!(alerts_text(true), "No alerts");
    assert_eq!(alerts_text(false), "[!] Building paused");
    assert_eq!(cultivators_text(3), "Cultivators:  3");
}

#[test]
fn production_lines() {
    let reg = registry();
    assert_eq!(mining_resource("mine_coal"), Some("coal"));
    assert_eq!(mining_resource("mine_"), Some(""));
    assert_eq!(mining_resource("smelt_iron"), None);
    assert_eq!(mining_resource("mine"), None);
    assert_eq!(production_name(&reg, "mine_iron_ore"), "Iron Ore");
    assert_eq!(production_name(&reg, "mine_stone"), "stone");
    assert_eq!(production_name(&reg, "smelt_iron"), "smelt_iron");

    assert_eq!(production_status(false, true, true, true), ProductionStatus::Idle);
    assert_eq!(production_status(true, false, true, true), ProductionStatus::Unlisted);
    assert_eq!(production_status(true, true, true, true), ProductionStatus::Running);
    assert_eq!(production_status(true, true, false, true), ProductionStatus::Paused);
    assert_eq!(production_status(true, true, true, false), ProductionStatus::Ready);
    assert_eq!(status_text(ProductionStatus::Idle, false, "x"), "Idle");
    assert_eq!(status_text(ProductionStatus::Unlisted, false, "gear"), "Active: gear");
    assert_eq!(status_text(ProductionStatus::Running, true, "Coal"), "Mining: Coal");
    assert_eq!(status_text(ProductionStatus::Running, false, "gear"), "Producing: gear");
    assert_eq!(status_text(ProductionStatus::Paused, false, "gear"), "Paused");
    assert_eq!(status_text(ProductionStatus::Ready, false, "gear"), "Ready: gear");

    let input = vec![(rid("iron_ore"), 2), (rid("coal"), 1)];
    assert_eq!(inputs_text(&reg, false, &input), "Inputs:  Iron Ore x2  Coal x1");
    assert_eq!(inputs_text(&reg, true, &input), "Inputs:  (raw material)");
    assert_eq!(inputs_text(&reg, false, &vec![]), "Inputs:  (raw material)");
    assert_eq!(outputs_text(&reg, &vec![(rid("iron_plate"), 3)]), "Outputs:  Iron Plate  \u{d7}3");

    assert_eq!(recipe_name_text("mine_coal"), "Mining: coal");
    assert_eq!(recipe_name_text("gear"), "Recipe:  gear");
}

#[test]
fn connection_and_deposit_lines() {
    let slots: Vec<Option<BeltItem<u8>>> =
        vec![Some(BeltItem { item: 1, ready: true }), None, Some(BeltItem { item: 2, ready: false }), None];
    assert_eq!(connections_text(Some((&slots, Direction::West))), "Items in transit:  2/4  |  West");
    assert_eq!(connections_text::<u8>(None), "No connections");
    assert_eq!(direction_name(Direction::North), "North");

    let reg = registry();
    let (title, line, left) = deposit_texts(&reg, "coal", 250);
    assert_eq!(title, "Resource Deposit: Coal");
    assert_eq!(line, "Resource: Coal");
    assert_eq!(left, "Remaining: 250");
    let (title, _, _) = deposit_texts(&reg, "sand", 0);
    assert_eq!(title, "Resource Deposit: sand");
}

#[test]
fn sorter_upgrade_and_crop_lines() {
    let reg = registry();
    assert_eq!(sorter_resources(&reg), strings(&["coal", "iron_ore", "iron_plate"]));

    let cost = vec![Cost { resource: rid("iron_plate"), amount: 20 }, Cost { resource: rid("gear"), amount: 5 }];
    let (title, line) = upgrade_texts("Assembler II", &cost);
    assert_eq!(title, "Upgrade to: Assembler II");
    assert_eq!(line, "Cost: iron_plate x20, gear x5");
    let (_, line) = upgrade_texts("X", &vec![]);
    assert_eq!(line, "Cost: ");

    let crops = vec![("wheat".to_string(), "Golden Wheat".to_string())];
    assert_eq!(crops_text(&strings(&["wheat", "carrot"]), &crops), "Crops:  Golden Wheat, carrot");
    assert_eq!(crops_text(&vec![], &crops), "Crops:  ");
}

#[test]
fn recipe_panel_data() {
    let reg = registry();
    let r = recipe("Iron_Plate", "smelting", vec![(rid("iron_ore"), 2)], vec![(rid("iron_plate"), 1), (rid("slag"), 1)]);
    let (name, inputs, outputs) = recipe_panel_texts(&reg, &r.id, &r);
    assert_eq!(name, "Iron Plate");
    assert_eq!(inputs, "Iron Ore 2\u{d7}");
    assert_eq!(outputs, "Iron Plate 1\u{d7} + slag 1\u{d7}");
}

#[test]
fn inventory_summaries() {
    let reg = registry();
    let mut bounded = Inventory::with_capacity(50);
    bounded.add(&rid("coal"), 12);
    assert_eq!(inventory_text(&bounded, &reg), "Capacity:  12/50");

    let empty = Inventory::new();
    assert_eq!(inventory_text(&empty, &reg), "Items:  0");

    let mut open = Inventory::with_slots(7, 0);
    let stacks = [("a", 1), ("coal", 5), ("b", 5), ("iron_ore", 9), ("c", 2), ("d", 3), ("e", 4)];
    for (k, (id, n)) in stacks.iter().enumerate() {
        assert!(open.slot_count() > k);
        open.add(&rid(id), *n);
    }
    assert_eq!(
        inventory_text(&open, &reg),
        "Iron Ore: 9  |  Coal: 5  |  b: 5  |  e: 4  |  d: 3  |  ... +2 more"
    );
}

#[test]
fn capsule_progress_panel() {
    let tiers = vec![
        TierInfo { texture: "ark_0".to_string(), log_id: Some("log_a".to_string()), required_items: vec![] },
        TierInfo {
            texture: "ark_1".to_string(),
            log_id: Some("log_b".to_string()),
            required_items: vec![(rid("iron_plate"), 10)],
        },
        TierInfo { texture: "ark_2".to_string(), log_id: None, required_items: vec![] },
    ];
    let logs = vec![
        LogEntry { id: "log_a".to_string(), title: "Awakening".to_string(), text: "It begins.".to_string() },
        LogEntry { id: "log_b".to_string(), title: "Spark".to_string(), text: "Power flows.".to_string() },
    ];
    let text = capsule_progress_text(&tiers, &logs, 1);
    let expected = [
        "CAPSULE GENESIS \u{2014} Progression",
        "",
        " \u{2705} Tier 0 \u{2014} Awakening (compl\u{e9}t\u{e9})",
        " \u{25c9} Tier 1 \u{2014} Spark (en cours)",
        " \u{25cb} Tier 2 \u{2014} ark_2",
        "",
        "Items requis :",
        "  Iron Plate 0/10",
        "",
        "(Appuyez sur E \u{e0} c\u{f4}t\u{e9} de la capsule)",
        "",
        "\"Power flows.\"",
    ]
    .join("\n");
    assert_eq!(text, expected);

    let done = capsule_progress_text(&tiers, &logs, 3);
    assert!(done.ends_with(" ark_2 (compl\u{e9}t\u{e9})\n"));
    assert_eq!(capsule_panel_title("Ark"), "Capsule \u{2014} Ark");
    assert_eq!(total_tiers(0), 0);
    assert_eq!(total_tiers(1), 0);
    assert_eq!(total_tiers(9), 8);
}

#[test]
fn capsule_phase_list() {
    let list = phase_list(1);
    assert!(list.starts_with("items = [{id = \"0\", title = \"Phase 0 (R\u{e9}veil)\", state = \"done\", },"));
    assert!(list.contains("{id = \"1\", title = \"Phase 1 (\u{c9}tincelle)\", state = \"current\", }"));
    assert!(list.contains("{id = \"2\", title = \"Phase 2 (Rouille & Vapeur)\", state = \"locked\", }"));
    assert!(list.ends_with(
        "{id = \"7\", title = \"S\u{c9}QUENCE FINALE\", state = \"locked\", separator = true,},{id = \"8\", title = \"APOTH\u{c9}OSE\", state = \"locked\", separator = true,}]"
    ));
    assert_eq!(list.matches("{id").count(), 9);
}

#[test]
fn joining_texts() {
    assert_eq!(join_strings(&strings(&["a", "b", "c"]), ", "), "a, b, c");
    assert_eq!(join_strings(&strings(&["solo"]), ", "), "solo");
    assert_eq!(join_strings(&vec![], ", "), "");
}

#[test]
fn bar_slot_captions() {
    let sub = FlatItem {
        label: "Logistics".to_string(),
        kind: FlatItemKind::SubMenu,
        cost_str: String::new(),
        texture_stem: None,
    };
    let act = FlatItem {
        label: "Belt".to_string(),
        kind: FlatItemKind::Action(MenuAction::Build("belt".to_string())),
        cost_str: String::new(),
        texture_stem: None,
    };
    assert_eq!(slot_caption(0, &sub), "2 \u{203a} ");
    assert_eq!(slot_caption(8, &act), "0 ");
}

#[test]
fn belt_preview_marks_inputs_and_output() {
    let producers = vec![(4, 5)];
    let markers = belt_preview_markers(5, 5, &producers, &vec![], Direction::East);
    assert_eq!(markers, vec![(Direction::East, false), (Direction::West, true)]);
    let belts = vec![((5, 4), Direction::North)];
    let markers = belt_preview_markers(5, 5, &vec![], &belts, Direction::South);
    assert_eq!(
        markers,
        vec![(Direction::East, true), (Direction::North, true), (Direction::West, true), (Direction::South, true)]
    );
    let markers = belt_preview_markers(0, 0, &vec![], &vec![], Direction::North);
    assert_eq!(markers, vec![(Direction::North, false)]);
}

#[test]
fn deconstruction_messages() {
    let (take, count) = area_removal(&vec![Some(true), Some(false), None, Some(true)]);
    assert_eq!(take, vec![true, false, false, true]);
    assert_eq!(count, 3);
    assert_eq!(area_removal(&vec![Some(false)]), (vec![false], 0));
    let refunds = strings(&["2 Iron Plate", "1 Gear"]);
    assert_eq!(dismantled_text("Belt", &refunds), "Belt dismantled (+2 Iron Plate, 1 Gear)");
    assert_eq!(dismantled_text("Wall", &vec![]), "Wall dismantled (+)");
    assert_eq!(cannot_deconstruct_text("Core"), "Cannot deconstruct Core");
    assert_eq!(area_removed_text(0, &refunds), None);
    assert_eq!(
        area_removed_text(2, &refunds),
        Some("Zone deconstruct: 2 building(s) removed (+2 Iron Plate, 1 Gear)".to_string())
    );
}

#[test]
fn data_pads_in_reach() {
    let pads = vec![(1, 1, false), (3, 0, false), (-1, 1, true), (0, 0, false), (1, -1, true)];
    let (read, notices) = pad_reading((0, 0), &pads);
    assert_eq!(read, vec![0, 3]);
    assert_eq!(notices, 2);
    assert_eq!(pad_reading((i32::MAX, 0), &vec![(i32::MIN, 0, false)]), (vec![], 0));
    let entry = LogEntry { id: "l".to_string(), title: "Spark".to_string(), text: "Power flows.".to_string() };
    assert_eq!(log_read_text(&entry), "Log: Spark \u{2014} Power flows.");
}

fn building(id: &str, upgrades_from: Option<&str>) -> BuildingDef {
    BuildingDef {
        id: id.to_string(),
        name: id.to_uppercase(),
        cost: vec![Cost { resource: rid("iron_plate"), amount: 5 }],
        hp: 100,
        tile_w: 1,
        tile_h: 1,
        requires_deposit: false,
        can_deconstruct: true,
        inventory_capacity: 0,
        hidden: false,
        drag_placement: false,
        is_belt: false,
        default_recipe: None,
        default_filter: None,
        crop_types: vec![],
        recipe_categories: vec![],
        requires_discovery: None,
        level: 1,
        upgrades_from: upgrades_from.map(|s| s.to_string()),
        upgrades_to: None,
        belt_variant: BeltVariant::Normal,
        tiers: vec![],
    }
}

#[test]
fn building_upgrades_are_linked() {
    let mut list = vec![
        building("assembler", None),
        building("assembler_ii", Some("assembler")),
        building("furnace", None),
        building("assembler_iii", Some("assembler_ii")),
        building("assembler_x", Some("assembler")),
    ];
    link_upgrades(&mut list);
    assert_eq!(list[0].upgrades_to.as_deref(), Some("assembler_x"));
    assert_eq!(list[1].upgrades_to.as_deref(), Some("assembler_iii"));
    assert_eq!(list[2].upgrades_to, None);
    assert_eq!(list[3].upgrades_to, None);
    assert_eq!(list[1].name, "ASSEMBLER_II");
    let reg = BuildingRegistry { buildings: list };
    assert_eq!(reg.get("furnace").map(|b| b.id.as_str()), Some("furnace"));
    assert!(reg.get("forge").is_none());
    assert_eq!(reg.upgrade_target("assembler_ii").map(|b| b.id.as_str()), Some("assembler_iii"));
    assert!(reg.upgrade_target("furnace").is_none());
    assert!(reg.upgrade_target("forge").is_none());

    let mut ark = building("genesis_ark", None);
    ark.tiers = vec![
        TierInfo { texture: "ark_0".to_string(), log_id: None, required_items: vec![] },
        TierInfo { texture: "ark_1".to_string(), log_id: None, required_items: vec![] },
    ];
    let reg = BuildingRegistry { buildings: vec![ark] };
    assert_eq!(CapsuleConfig::default().tier_texture_stems(&reg), strings(&["ark_0", "ark_1"]));
    let other = CapsuleConfig { spawn_tile_x: 0, spawn_tile_y: 0, building_kind: "pod".to_string() };
    assert!(other.tier_texture_stems(&reg).is_empty());
}

#[test]
fn discovery_notice_texts() {
    let reg = registry();
    let (first, second) = discovery_notices(Some("Furnace"), &reg, "iron_plate");
    assert_eq!(first, "Furnace: Iron Plate discovered!");
    assert_eq!(second, "Craft it and bring it to the Archive!");
    let (first, _) = discovery_notices(None, &reg, "steel");
    assert_eq!(first, "Building: steel discovered!");
}

#[test]
fn upgrades_are_paid_for() {
    let reg = BuildingRegistry { buildings: vec![building("assembler_ii", Some("assembler"))] };
    let mut inv = Inventory::new();
    inv.add(&rid("iron_plate"), 3);
    assert_eq!(try_upgrade(&reg, "assembler_ii", &mut inv).err(), Some(UpgradeRefusal::CannotAfford));
    assert_eq!(inv.get(&rid("iron_plate")), 3);
    assert_eq!(try_upgrade(&reg, "assembler_v", &mut inv).err(), Some(UpgradeRefusal::UnknownTarget));
    inv.add(&rid("iron_plate"), 4);
    let def = try_upgrade(&reg, "assembler_ii", &mut inv).unwrap();
    assert_eq!(def.id, "assembler_ii");
    assert_eq!(inv.get(&rid("iron_plate")), 2);
    assert_eq!(UpgradeRefusal::CannotAfford.message(), "Not enough resources to upgrade");
    assert_eq!(UpgradeRefusal::UnknownTarget.message(), "Upgrade target not found");
    assert_eq!(upgraded_text("Assembler", "Assembler II"), "Upgraded Assembler to Assembler II");
}

#[test]
fn selector_sees_global_discovered_and_current() {
    let global = strings(&["smelt_iron"]);
    let discovered = strings(&["gear"]);
    assert_eq!(selector_unlocked(&global, Some(&discovered), "bolt"), strings(&["smelt_iron", "gear", "bolt"]));
    assert_eq!(selector_unlocked(&global, None, "smelt_iron"), strings(&["smelt_iron", "smelt_iron"]));
}

fn bar_item(kind: FlatItemKind) -> FlatItem {
    FlatItem { label: "x".to_string(), kind, cost_str: String::new(), texture_stem: None }
}

#[test]
fn bar_items_show_modes_and_affordability() {
    let catalog = MenuCatalog {
        buildings: vec![BuildingMenuInfo {
            id: "drill".to_string(),
            name: "Drill".to_string(),
            hidden: false,
            requires_discovery: None,
            cost: vec![Cost { resource: rid("iron_plate"), amount: 5 }],
            texture_stem: "drill".to_string(),
        }],
        units: vec![UnitMenuInfo {
            id: "cultivator".to_string(),
            name: "Cultivator".to_string(),
            cost: vec![Cost { resource: rid("ore"), amount: 8 }],
            texture_stem: "cultivator".to_string(),
        }],
    };
    let mut inv = Inventory::new();
    inv.add(&rid("iron_plate"), 5);
    let drill = bar_item(FlatItemKind::Action(MenuAction::Build("drill".to_string())));
    let unit = bar_item(FlatItemKind::Action(MenuAction::Spawn("cultivator".to_string())));
    let delete = bar_item(FlatItemKind::Action(MenuAction::Delete));
    let sub = bar_item(FlatItemKind::SubMenu);

    assert_eq!(
        item_look(&drill, &catalog, Some("drill"), false, Some(&inv)),
        ItemLook { border: Some(Highlight::Active), greyed: false }
    );
    assert_eq!(
        item_look(&drill, &catalog, Some("belt"), false, None),
        ItemLook { border: Some(Highlight::Dimmed), greyed: true }
    );
    assert_eq!(
        item_look(&drill, &catalog, None, true, Some(&inv)),
        ItemLook { border: Some(Highlight::Dimmed), greyed: false }
    );
    assert_eq!(
        item_look(&drill, &catalog, None, false, Some(&inv)),
        ItemLook { border: Some(Highlight::Normal), greyed: false }
    );
    assert_eq!(item_look(&unit, &catalog, None, false, Some(&inv)), ItemLook { border: None, greyed: true });
    assert_eq!(
        item_look(&delete, &catalog, None, true, None),
        ItemLook { border: Some(Highlight::Active), greyed: false }
    );
    assert_eq!(item_look(&sub, &catalog, Some("drill"), true, None), ItemLook { border: None, greyed: false });
}

#[test]
fn sorter_and_crop_notices() {
    assert_eq!(filter_notice(&rid("iron_ore")), "Sorter filter: Iron Ore");
    assert_eq!(sorter_mode_notice("inverted"), "Sorter: inverted");
    assert_eq!(crop_notice("wheat"), "Crop: wheat");
}

#[test]
fn rotating_and_area_dragging() {
    let belts = vec![(1, 1), (2, 3), (2, 3)];
    assert_eq!(rotate_target(Some((2, 3)), &belts), Some(1));
    assert_eq!(rotate_target(Some((9, 9)), &belts), None);
    assert_eq!(rotate_target(None, &belts), None);

    assert_eq!(deconstruct_drag_step(None, true, false, (4, 5)), (Some((4, 5)), None));
    assert_eq!(deconstruct_drag_step(Some((4, 5)), true, false, (6, 7)), (Some((4, 5)), None));
    assert_eq!(deconstruct_drag_step(Some((4, 5)), false, true, (6, 7)), (None, Some(((4, 5), (6, 7)))));
    assert_eq!(deconstruct_drag_step(None, false, true, (6, 7)), (None, None));
    assert_eq!(deconstruct_drag_step(Some((1, 1)), false, false, (6, 7)), (Some((1, 1)), None));
}
