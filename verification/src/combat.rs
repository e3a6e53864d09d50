use vstd::prelude::*;

use crate::inventory::{spec_add, Inventory, SlotView};
use crate::resource::ResourceId;

verus! {

/// A projectile flying to its target.
#[derive(Debug, Clone, Copy)]
pub struct Projectile {
    pub target: u64,
    pub damage: u32,
}

/// A projectile hits: the target loses the damage, down to zero. Returns the
/// health left and whether the target is destroyed.
pub fn apply_hit(health: u32, damage: u32) -> (r: (u32, bool))
    ensures
        r.0 == (if health > damage {
            (health - damage) as u32
        } else {
            0
        }),
        r.1 == (r.0 == 0),
{
    let left = health.saturating_sub(damage);
    (left, left == 0)
}

/// Whether a ground item lies on the player's tile or one of the eight around it.
pub open spec fn within_pickup(player: (i32, i32), tile: (i32, i32)) -> bool {
    -1 <= player.0 - tile.0 <= 1 && -1 <= player.1 - tile.1 <= 1
}

/// A stack of items lying on the ground.
#[derive(Debug, Clone)]
pub struct GroundItemStack {
    pub x: i32,
    pub y: i32,
    pub resource_id: ResourceId,
    pub amount: u32,
}

/// The inventory after the stacks are added in order.
pub open spec fn spec_pickup(inv: Seq<SlotView>, player: (i32, i32), items: Seq<GroundItemStack>) -> Seq<SlotView>
    decreases items.len(),
{
    if items.len() == 0 {
        inv
    } else {
        let before = spec_pickup(inv, player, items.drop_last());
        let it = items.last();
        if within_pickup(player, (it.x, it.y)) {
            spec_add(before, it.resource_id@, it.amount)
        } else {
            before
        }
    }
}

/// The player picks up every stack within reach; returns which stacks were
/// picked up (they leave the ground).
pub fn player_pickup_ground_items(inv: &mut Inventory, player: (i32, i32), items: &Vec<GroundItemStack>) -> (picked: Vec<bool>)
    ensures
        final(inv)@ == spec_pickup(old(inv)@, player, items@),
        final(inv).spec_capacity() == old(inv).spec_capacity(),
        picked@.len() == items@.len(),
        forall|k: int| 0 <= k < items@.len() ==> #[trigger] picked@[k] == within_pickup(player, (items@[k].x, items@[k].y)),
{
    let mut picked: Vec<bool> = Vec::new();
    let mut i: usize = 0;
    while i < items.len()
        invariant
            i <= items@.len(),
            picked@.len() == i,
            inv@ == spec_pickup(old(inv)@, player, items@.take(i as int)),
            inv.spec_capacity() == old(inv).spec_capacity(),
            forall|k: int| 0 <= k < i ==> #[trigger] picked@[k] == within_pickup(player, (items@[k].x, items@[k].y)),
        decreases items@.len() - i,
    {
        assert(items@.take(i + 1).drop_last() =~= items@.take(i as int));
        assert(items@.take(i + 1).last() == items@[i as int]);
        let it = &items[i];
        let dx = player.0 as i64 - it.x as i64;
        let dy = player.1 as i64 - it.y as i64;
        let near = -1 <= dx && dx <= 1 && -1 <= dy && dy <= 1;
        if near {
            inv.add(&it.resource_id, it.amount);
        }
        picked.push(near);
        i = i + 1;
    }
    assert(items@.take(items@.len() as int) =~= items@);
    picked
}

} // verus!
