use siege_factory::belt::{
    advance_within_belt, deposit, splitter_input, splitter_outputs, splitter_pick, BeltItem, Sorter, Splitter,
};
use siege_factory::direction::Direction;
use siege_factory::inventory::Inventory;
use siege_factory::resource::ResourceId;

fn item(name: &str, ready: bool) -> Option<BeltItem<&str>> {
    Some(BeltItem { item: name, ready })
}

fn names(slots: &Vec<Option<BeltItem<&'static str>>>) -> Vec<Option<(&'static str, bool)>> {
    slots.iter().map(|s| s.as_ref().map(|b| (b.item, b.ready))).collect()
}

#[test]
fn ready_queue_advances_together() {
    let mut slots = vec![item("a", true), item("b", true), None, None];
    advance_within_belt(&mut slots);
    assert_eq!(names(&slots), vec![None, Some(("a", false)), Some(("b", false)), None]);
}

#[test]
fn blocked_item_stays() {
    let mut slots = vec![item("a", true), item("b", false), None];
    advance_within_belt(&mut slots);
    assert_eq!(names(&slots), vec![Some(("a", true)), Some(("b", false)), None]);
}

#[test]
fn last_slot_item_does_not_move_inside_belt() {
    let mut slots = vec![None, item("x", true)];
    advance_within_belt(&mut slots);
    assert_eq!(names(&slots), vec![None, Some(("x", true))]);
}

#[test]
fn advance_keeps_item_count() {
    let mut slots = vec![item("a", true), None, item("b", true), item("c", true), None];
    advance_within_belt(&mut slots);
    assert_eq!(slots.iter().filter(|s| s.is_some()).count(), 3);
    assert_eq!(names(&slots), vec![None, Some(("a", false)), None, Some(("b", false)), Some(("c", false))]);
}

#[test]
fn splitter_finds_feeding_belt() {
    // A belt to the west pointing east feeds the splitter.
    let input = splitter_input(None, None, Some(Direction::East), None, None);
    assert_eq!(input, Some(Direction::West));
    // A remembered side wins.
    let input = splitter_input(Some(Direction::North), None, Some(Direction::East), None, None);
    assert_eq!(input, Some(Direction::North));
    // A belt pointing away does not feed.
    assert_eq!(splitter_input(None, Some(Direction::East), None, None, None), None);
}

#[test]
fn splitter_outputs_skip_input_side() {
    let outs = splitter_outputs(Some(Direction::West), true, true, true, false);
    assert_eq!(outs, vec![Direction::East, Direction::North]);
}

#[test]
fn splitter_round_robin() {
    let free = vec![true, true, true];
    assert_eq!(splitter_pick(&free, 0), Some(0));
    assert_eq!(splitter_pick(&free, 4), Some(1));
    let free = vec![false, true, false];
    assert_eq!(splitter_pick(&free, 2), Some(1));
    assert_eq!(splitter_pick(&vec![false, false], 7), None);
    assert_eq!(splitter_pick(&vec![], 7), None);
}

#[test]
fn splitter_counter_wraps() {
    let mut s = Splitter { counter: u32::MAX, outputs: 2, input_direction: None };
    s.record_transfer(Some(Direction::South));
    assert_eq!(s.counter, 0);
    assert_eq!(s.input_direction, Some(Direction::South));
}

#[test]
fn sorter_sends_filtered_items_aside() {
    let s = Sorter { filter: ResourceId::new("iron"), inverted: false };
    assert_eq!(s.output_direction(Direction::East, &ResourceId::new("iron")), Direction::North);
    assert_eq!(s.output_direction(Direction::East, &ResourceId::new("copper")), Direction::East);
    let s = Sorter { filter: ResourceId::new("iron"), inverted: true };
    assert_eq!(s.output_direction(Direction::East, &ResourceId::new("iron")), Direction::East);
    assert_eq!(s.output_direction(Direction::East, &ResourceId::new("copper")), Direction::North);
}

#[test]
fn deposit_fills_building_until_full() {
    let ore = ResourceId("iron_ore".to_string());
    let mut inv = Inventory::with_capacity(2);
    let mut belt = vec![None, Some("crate")];
    assert!(deposit(&mut belt, &ore, &mut inv));
    assert_eq!(belt, vec![None, None]);
    assert_eq!(inv.get(&ore), 1);
    assert!(!deposit(&mut belt, &ore, &mut inv));
    assert_eq!(inv.total(), 1);
    belt[1] = Some("crate");
    assert!(deposit(&mut belt, &ore, &mut inv));
    assert_eq!(inv.total(), 2);
    belt[1] = Some("crate");
    assert!(!deposit(&mut belt, &ore, &mut inv));
    assert_eq!(belt, vec![None, Some("crate")]);
    assert_eq!(inv.total(), 2);
}
