use vstd::prelude::*;

use crate::first_index::{first_index, lemma_first_index, lemma_first_index_is, lemma_first_index_none};
use crate::inventory::{amount_in, spec_add, spec_can_remove, spec_remove, Inventory, SlotView};
use crate::placement::{can_afford, cost_view};
use crate::recipe::{amounts_fit, spec_inputs_available};
use crate::resource::{Cost, ResourceId};

verus! {

/// What the builder drone is doing.
#[derive(Debug, Clone, Copy, PartialEq, Eq, Structural)]
pub enum BuilderState {
    Idle,
    MovingToBuilding(u64),
    ReturningToPlayer,
}

/// A cost item a building still lacks.
pub open spec fn lacks(delivered: Seq<SlotView>) -> spec_fn((Seq<char>, u32)) -> bool {
    |c: (Seq<char>, u32)| amount_in(delivered, c.0) < c.1
}

/// A cost item the building lacks and the player can give one of.
pub open spec fn can_supply(delivered: Seq<SlotView>, player: Seq<SlotView>) -> spec_fn((Seq<char>, u32)) -> bool {
    |c: (Seq<char>, u32)| amount_in(delivered, c.0) < c.1 && amount_in(player, c.0) >= 1
}

/// Whether a building under construction still lacks something.
pub fn still_needs(cost: &Vec<Cost>, delivered: &Inventory) -> (r: bool)
    requires
        amounts_fit(delivered@, cost_view(cost@)),
    ensures
        r == !spec_inputs_available(delivered@, cost_view(cost@)),
{
    !can_afford(delivered, cost)
}

/// The first cost item the building lacks and the player holds one of.
pub fn supply_choice(cost: &Vec<Cost>, delivered: &Inventory, player: &Inventory) -> (r: Option<usize>)
    requires
        amounts_fit(delivered@, cost_view(cost@)),
        amounts_fit(player@, cost_view(cost@)),
    ensures
        match r {
            Some(i) => first_index(cost_view(cost@), can_supply(delivered@, player@)) == i as int,
            None => first_index(cost_view(cost@), can_supply(delivered@, player@)) < 0,
        },
{
    let ghost cv = cost_view(cost@);
    let ghost p = can_supply(delivered@, player@);
    let mut i: usize = 0;
    while i < cost.len()
        invariant
            i <= cost@.len(),
            cv == cost_view(cost@),
            p == can_supply(delivered@, player@),
            amounts_fit(delivered@, cv),
            amounts_fit(player@, cv),
            forall|k: int| 0 <= k < i ==> !p(#[trigger] cv[k]),
        decreases cost@.len() - i,
    {
        assert(cv[i as int].0 == cost@[i as int].resource@);
        if delivered.get(&cost[i].resource) < cost[i].amount && player.get(&cost[i].resource) >= 1 {
            proof {
                lemma_first_index_is(cv, p, i as int);
            }
            return Some(i);
        }
        i = i + 1;
    }
    proof {
        lemma_first_index_none(cv, p);
    }
    None
}

/// The builder takes one item for a building from the player: the first cost
/// item the building lacks that the player holds. Returns it.
pub fn take_supply(player: &mut Inventory, cost: &Vec<Cost>, delivered: &Inventory) -> (r: Option<ResourceId>)
    requires
        amounts_fit(delivered@, cost_view(cost@)),
        amounts_fit(old(player)@, cost_view(cost@)),
    ensures
        match r {
            Some(res) => {
                let i = first_index(cost_view(cost@), can_supply(delivered@, old(player)@));
                &&& i >= 0
                &&& res@ == cost_view(cost@)[i].0
                &&& final(player)@ == spec_remove(old(player)@, res@, 1)
            },
            None => first_index(cost_view(cost@), can_supply(delivered@, old(player)@)) < 0
                && final(player)@ == old(player)@,
        },
        final(player).spec_capacity() == old(player).spec_capacity(),
{
    match supply_choice(cost, delivered, player) {
        Some(i) => {
            proof {
                lemma_first_index(cost_view(cost@), can_supply(delivered@, player@));
                assert(cost_view(cost@)[i as int].0 == cost@[i as int].resource@);
            }
            let res = cost[i].resource.duplicate();
            player.remove(&res, 1);
            Some(res)
        },
        None => None,
    }
}

/// The cost item the builder delivers at the building: the first one it lacks.
pub fn deposit_choice(cost: &Vec<Cost>, building: &Inventory) -> (r: Option<ResourceId>)
    requires
        amounts_fit(building@, cost_view(cost@)),
    ensures
        match r {
            Some(res) => first_index(cost_view(cost@), lacks(building@)) >= 0 && res@ == cost_view(
                cost@,
            )[first_index(cost_view(cost@), lacks(building@))].0,
            None => first_index(cost_view(cost@), lacks(building@)) < 0,
        },
{
    let ghost cv = cost_view(cost@);
    let ghost p = lacks(building@);
    let mut i: usize = 0;
    while i < cost.len()
        invariant
            i <= cost@.len(),
            cv == cost_view(cost@),
            p == lacks(building@),
            amounts_fit(building@, cv),
            forall|k: int| 0 <= k < i ==> !p(#[trigger] cv[k]),
        decreases cost@.len() - i,
    {
        assert(cv[i as int].0 == cost@[i as int].resource@);
        if building.get(&cost[i].resource) < cost[i].amount {
            proof {
                lemma_first_index_is(cv, p, i as int);
            }
            return Some(cost[i].resource.duplicate());
        }
        i = i + 1;
    }
    proof {
        lemma_first_index_none(cv, p);
    }
    None
}

/// The builder at the building: it delivers one of the first lacking cost
/// item, if any, and turns back to the player.
pub fn builder_deliver(state: &mut BuilderState, cost: &Vec<Cost>, building: &mut Inventory) -> (r: Option<ResourceId>)
    requires
        amounts_fit(old(building)@, cost_view(cost@)),
    ensures
        *final(state) == BuilderState::ReturningToPlayer,
        match r {
            Some(res) => first_index(cost_view(cost@), lacks(old(building)@)) >= 0 && res@ == cost_view(
                cost@,
            )[first_index(cost_view(cost@), lacks(old(building)@))].0 && final(building)@ == spec_add(
                old(building)@,
                res@,
                1,
            ),
            None => first_index(cost_view(cost@), lacks(old(building)@)) < 0 && final(building)@ == old(
                building,
            )@,
        },
        final(building).spec_capacity() == old(building).spec_capacity(),
{
    let r = deposit_choice(cost, building);
    match &r {
        Some(res) => {
            building.add(res, 1);
        },
        None => {},
    }
    *state = BuilderState::ReturningToPlayer;
    r
}

/// Completes a building whose cost has been delivered: the delivered items
/// are used up. Returns whether it was complete.
pub fn finish_construction(inv: &mut Inventory, cost: &Vec<Cost>) -> (done: bool)
    requires
        amounts_fit(old(inv)@, cost_view(cost@)),
    ensures
        done == spec_inputs_available(old(inv)@, cost_view(cost@)),
        done ==> final(inv)@ == Seq::new(old(inv)@.len(), |k: int| None::<(Seq<char>, u32)>),
        !done ==> final(inv)@ == old(inv)@,
        final(inv).spec_capacity() == old(inv).spec_capacity(),
{
    if can_afford(inv, cost) {
        inv.clear();
        true
    } else {
        false
    }
}

/// The tiles a player can mine from: its own and the four next to it.
pub open spec fn within_reach(player: (i32, i32), tile: (i32, i32)) -> bool {
    let dx = tile.0 - player.0;
    let dy = tile.1 - player.1;
    (dx == 0 && dy == 0) || (dx == 1 && dy == 0) || (dx == -1 && dy == 0) || (dx == 0 && dy == 1)
        || (dx == 0 && dy == -1)
}

pub open spec fn minable(player: (i32, i32)) -> spec_fn((i32, i32, u32)) -> bool {
    |d: (i32, i32, u32)| d.2 > 0 && within_reach(player, (d.0, d.1))
}

/// The deposit a press of the mining key works on: the first non-empty one
/// within reach (deposits as tile and amount left).
pub fn mine_target(player: (i32, i32), deposits: &Vec<(i32, i32, u32)>) -> (r: Option<usize>)
    ensures
        match r {
            Some(i) => first_index(deposits@, minable(player)) == i as int,
            None => first_index(deposits@, minable(player)) < 0,
        },
{
    let ghost p = minable(player);
    let mut i: usize = 0;
    while i < deposits.len()
        invariant
            i <= deposits@.len(),
            p == minable(player),
            forall|k: int| 0 <= k < i ==> !p(#[trigger] deposits@[k]),
        decreases deposits@.len() - i,
    {
        let (x, y, amount) = deposits[i];
        let dx = x as i64 - player.0 as i64;
        let dy = y as i64 - player.1 as i64;
        let near = (dx == 0 && dy == 0) || (dx == 1 && dy == 0) || (dx == -1 && dy == 0) || (dx == 0
            && dy == 1) || (dx == 0 && dy == -1);
        if amount > 0 && near {
            proof {
                lemma_first_index_is(deposits@, p, i as int);
            }
            return Some(i);
        }
        i = i + 1;
    }
    proof {
        lemma_first_index_none(deposits@, p);
    }
    None
}

/// Mines one item of a deposit into the player's inventory. Returns the
/// amount the deposit has left (unchanged when deposits are infinite).
pub fn mine_deposit(inv: &mut Inventory, resource: &ResourceId, amount: u32, infinite: bool) -> (left: u32)
    requires
        amount > 0,
    ensures
        final(inv)@ == spec_add(old(inv)@, resource@, 1),
        final(inv).spec_capacity() == old(inv).spec_capacity(),
        left == (if infinite {
            amount
        } else {
            (amount - 1) as u32
        }),
{
    inv.add(resource, 1);
    if infinite {
        amount
    } else {
        amount - 1
    }
}

/// Mining reaches exactly the tiles at most one step from the player along the
/// grid (its own tile, and east, west, north and south of it): the deposit a
/// press works on is a non-empty one at such a tile, and no non-empty deposit
/// at such a tile comes before it. So whenever some non-empty deposit lies at
/// such a tile, one is mined.
pub proof fn law_mine_target_reach(player: (i32, i32), deposits: Seq<(i32, i32, u32)>, k: int)
    requires
        0 <= k < deposits.len(),
    ensures
        ({
            let f = first_index(deposits, minable(player));
            let dx = deposits[k].0 - player.0;
            let dy = deposits[k].1 - player.1;
            let steps = (if dx >= 0 { dx } else { -dx }) + (if dy >= 0 { dy } else { -dy });
            &&& (deposits[k].2 > 0 && steps <= 1) ==> 0 <= f <= k
            &&& f == k ==> deposits[k].2 > 0 && steps <= 1
            &&& 0 <= k < f ==> !(deposits[k].2 > 0 && steps <= 1)
        }),
{
    lemma_first_index(deposits, minable(player));
    let f = first_index(deposits, minable(player));
    if f >= 0 {
        assert(minable(player)(deposits[f]));
    }
    assert(minable(player)(deposits[k]) <==> ({
        let dx = deposits[k].0 - player.0;
        let dy = deposits[k].1 - player.1;
        deposits[k].2 > 0 && (if dx >= 0 { dx } else { -dx }) + (if dy >= 0 { dy } else { -dy }) <= 1
    }));
}

/// The builder supplies a building item by item: it takes for it the first
/// cost item of which fewer than the required amount has been delivered and
/// of which the player holds at least one; every cost item before it is
/// either delivered in full or missing from the player; when there is none,
/// it takes nothing. At the building it hands over the first cost item not
/// yet delivered in full.
pub proof fn law_supply_order(cost: Seq<(Seq<char>, u32)>, delivered: Seq<SlotView>, player: Seq<SlotView>, k: int)
    requires
        0 <= k < cost.len(),
    ensures
        ({
            let f = first_index(cost, can_supply(delivered, player));
            let wanted = amount_in(delivered, cost[k].0) < cost[k].1 && amount_in(player, cost[k].0) >= 1;
            &&& wanted ==> 0 <= f <= k
            &&& f == k ==> wanted
            &&& k < f ==> !wanted
            &&& f < 0 ==> !wanted
        }),
        ({
            let g = first_index(cost, lacks(delivered));
            let short = amount_in(delivered, cost[k].0) < cost[k].1;
            &&& short ==> 0 <= g <= k
            &&& g == k ==> short
            &&& k < g ==> !short
        }),
{
    lemma_first_index(cost, can_supply(delivered, player));
    lemma_first_index(cost, lacks(delivered));
    assert(can_supply(delivered, player)(cost[k]) == (amount_in(delivered, cost[k].0) < cost[k].1 && amount_in(
        player,
        cost[k].0,
    ) >= 1));
    assert(lacks(delivered)(cost[k]) == (amount_in(delivered, cost[k].0) < cost[k].1));
}

proof fn lemma_amount_means_slot(s: Seq<SlotView>, r: Seq<char>)
    requires
        amount_in(s, r) >= 1,
    ensures
        spec_can_remove(s, r, 1),
{
    let p = crate::inventory::holds_at_least(r, 1);
    lemma_first_index(s, p);
    if first_index(s, p) < 0 {
        assert forall|k: int| 0 <= k < s.len() implies crate::inventory::amount_of(r)(#[trigger] s[k]) == 0 by {
            assert(!p(s[k]));
        }
        crate::seq_sum::lemma_sum_zero(s, crate::inventory::amount_of(r));
    }
}

/// One supply trip moves one item: the player has exactly one fewer of the
/// item taken, the building exactly one more of it (while its count stays
/// within `u32`), and every other resource is unchanged on both sides.
pub proof fn law_supply_moves_one(player: Seq<SlotView>, building: Seq<SlotView>, res: Seq<char>, q: Seq<char>)
    requires
        amount_in(player, res) >= 1,
        amount_in(building, res) < u32::MAX,
    ensures
        amount_in(spec_remove(player, res, 1), q) + (if q == res { 1nat } else { 0 }) == amount_in(player, q),
        amount_in(spec_add(building, res, 1), q) == amount_in(building, q) + (if q == res { 1nat } else { 0 }),
{
    crate::inventory::law_remove_amounts(player, res, 1, q);
    crate::inventory::law_add_amounts(building, res, 1, q);
    if !spec_can_remove(player, res, 1) {
        lemma_amount_means_slot(player, res);
    }
}

} // verus!
