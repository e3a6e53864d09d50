use vstd::prelude::*;

use crate::direction::{spec_next, spec_offset, Direction};
use crate::first_index::{first_index, lemma_first_index, lemma_first_index_is, lemma_first_index_none};
use crate::inventory::{amount_in, law_add_total, spec_add, total_in, Inventory, SlotView};
use crate::resource::ResourceId;
use crate::seq_sum::{lemma_sum_first, lemma_sum_update, sum_by};

verus! {

/// An item travelling in a belt slot. `ready` tells whether it has spent the
/// whole slot duration in its slot, so that it may move on.
pub struct BeltItem<T> {
    pub item: T,
    pub ready: bool,
}

pub open spec fn ready_at<T>(s: Seq<Option<BeltItem<T>>>, i: int) -> bool {
    s[i] matches Some(b) && b.ready
}

/// Whether the item in slot `i` moves one slot forward during an advance: it is
/// ready, there is a next slot, and that slot is empty or its own item moves on.
pub open spec fn moves_on<T>(s: Seq<Option<BeltItem<T>>>, i: int) -> bool
    decreases s.len() - i,
{
    if 0 <= i && i + 1 < s.len() {
        ready_at(s, i) && (s[i + 1] is None || moves_on(s, i + 1))
    } else {
        false
    }
}

/// Slot `j` after an advance: it receives the item of slot `j - 1` when that
/// one moves on (the item then has to travel the new slot, so it is not ready),
/// is emptied when its own item moves on, and is unchanged otherwise.
pub open spec fn slot_after<T>(s: Seq<Option<BeltItem<T>>>, j: int) -> Option<BeltItem<T>> {
    if j >= 1 && moves_on(s, j - 1) {
        Some(BeltItem { item: s[j - 1]->0.item, ready: false })
    } else if moves_on(s, j) {
        None
    } else {
        s[j]
    }
}

pub open spec fn spec_advance<T>(s: Seq<Option<BeltItem<T>>>) -> Seq<Option<BeltItem<T>>> {
    Seq::new(s.len(), |j: int| slot_after(s, j))
}

/// Moves the ready items of one belt forward by one slot, from the last slot
/// to the first, so that a whole ready queue advances together.
pub fn advance_within_belt<T>(slots: &mut Vec<Option<BeltItem<T>>>)
    requires
        old(slots)@.len() >= 1,
    ensures
        final(slots)@ == spec_advance(old(slots)@),
{
    let ghost s = slots@;
    let n = slots.len();
    let mut i = n - 1;
    while i > 0
        invariant
            n == s.len(),
            slots@.len() == n,
            i < n,
            forall|j: int| 0 <= j < i ==> slots@[j] == s[j],
            slots@[i as int] == (if moves_on(s, i as int) {
                None
            } else {
                s[i as int]
            }),
            forall|j: int| i < j < n ==> slots@[j] == slot_after(s, j),
        decreases i,
    {
        i = i - 1;
        let ready = match &slots[i] {
            Some(b) => b.ready,
            None => false,
        };
        assert(moves_on(s, i as int) == (ready && slots@[i + 1] is None));
        if ready && slots[i + 1].is_none() {
            let taken = slots[i].take();
            match taken {
                Some(b) => {
                    slots.set(i + 1, Some(BeltItem { item: b.item, ready: false }));
                },
                None => {},
            }
        }
        assert(slots@[i + 1] == slot_after(s, i + 1));
    }
    assert(slots@ =~= spec_advance(s));
}

/// The number of occupied slots from slot `i` to the end.
pub open spec fn occupied_from<T>(s: Seq<Option<BeltItem<T>>>, i: int) -> nat
    decreases s.len() - i,
{
    if 0 <= i < s.len() {
        (if s[i] is Some {
            1nat
        } else {
            0nat
        }) + occupied_from(s, i + 1)
    } else {
        0
    }
}

proof fn lemma_advance_count_from<T>(s: Seq<Option<BeltItem<T>>>, i: int)
    requires
        0 <= i <= s.len(),
    ensures
        occupied_from(spec_advance(s), i) + (if i >= 1 && moves_on(s, i - 1) {
            0int
        } else {
            1int
        }) == occupied_from(s, i) + 1,
    decreases s.len() - i,
{
    if i < s.len() {
        lemma_advance_count_from(s, i + 1);
        assert(spec_advance(s)[i] == slot_after(s, i));
    }
}

/// Advancing a belt neither loses nor creates items: as many slots are
/// occupied afterwards as before.
pub proof fn law_advance_keeps_items<T>(s: Seq<Option<BeltItem<T>>>)
    ensures
        occupied_from(spec_advance(s), 0) == occupied_from(s, 0),
{
    lemma_advance_count_from(s, 0);
}

/// Whether a neighbouring belt, lying on side `side`, points back at the tile.
pub open spec fn points_back(belt: Option<Direction>, side: Direction) -> bool {
    match belt {
        Some(d) => spec_offset(d).0 == -spec_offset(side).0 && spec_offset(d).1 == -spec_offset(
            side,
        ).1,
        None => false,
    }
}

/// The side a splitter takes its items from: the side it remembered, else the
/// first neighbour, looked at in the order East, West, North, South, whose
/// belt points at the splitter.
pub open spec fn spec_splitter_input(
    stored: Option<Direction>,
    east: Option<Direction>,
    west: Option<Direction>,
    north: Option<Direction>,
    south: Option<Direction>,
) -> Option<Direction> {
    if stored is Some {
        stored
    } else if points_back(east, Direction::East) {
        Some(Direction::East)
    } else if points_back(west, Direction::West) {
        Some(Direction::West)
    } else if points_back(north, Direction::North) {
        Some(Direction::North)
    } else if points_back(south, Direction::South) {
        Some(Direction::South)
    } else {
        None
    }
}

fn points_back_exec(belt: Option<Direction>, side: Direction) -> (r: bool)
    ensures
        r == points_back(belt, side),
{
    match belt {
        Some(d) => {
            let (bx, by) = d.offset();
            let (sx, sy) = side.offset();
            bx == -sx && by == -sy
        },
        None => false,
    }
}

/// The input side of a splitter, given what it remembered and the direction of
/// the belt on each neighbouring tile (`None` where there is no belt).
pub fn splitter_input(
    stored: Option<Direction>,
    east: Option<Direction>,
    west: Option<Direction>,
    north: Option<Direction>,
    south: Option<Direction>,
) -> (r: Option<Direction>)
    ensures
        r == spec_splitter_input(stored, east, west, north, south),
{
    if stored.is_some() {
        stored
    } else if points_back_exec(east, Direction::East) {
        Some(Direction::East)
    } else if points_back_exec(west, Direction::West) {
        Some(Direction::West)
    } else if points_back_exec(north, Direction::North) {
        Some(Direction::North)
    } else if points_back_exec(south, Direction::South) {
        Some(Direction::South)
    } else {
        None
    }
}

pub open spec fn keep_output(d: Direction, input: Option<Direction>, has_belt: bool) -> Seq<Direction> {
    if has_belt && input != Some(d) {
        seq![d]
    } else {
        Seq::empty()
    }
}

/// The sides a splitter can send to, in the order East, North, West, South:
/// those with a belt, except the input side.
pub open spec fn spec_splitter_outputs(
    input: Option<Direction>,
    east: bool,
    north: bool,
    west: bool,
    south: bool,
) -> Seq<Direction> {
    keep_output(Direction::East, input, east) + keep_output(Direction::North, input, north)
        + keep_output(Direction::West, input, west) + keep_output(Direction::South, input, south)
}

/// The output sides of a splitter, given its input side and on which
/// neighbouring tiles a belt lies.
pub fn splitter_outputs(input: Option<Direction>, east: bool, north: bool, west: bool, south: bool) -> (r: Vec<
    Direction,
>)
    ensures
        r@ == spec_splitter_outputs(input, east, north, west, south),
{
    let mut r: Vec<Direction> = Vec::new();
    if east && input != Some(Direction::East) {
        r.push(Direction::East);
    }
    if north && input != Some(Direction::North) {
        r.push(Direction::North);
    }
    if west && input != Some(Direction::West) {
        r.push(Direction::West);
    }
    if south && input != Some(Direction::South) {
        r.push(Direction::South);
    }
    assert(r@ =~= spec_splitter_outputs(input, east, north, west, south));
    r
}

pub open spec fn is_true() -> spec_fn(bool) -> bool {
    |b: bool| b
}

/// `free` read in round-robin order from `start`.
pub open spec fn rotated(free: Seq<bool>, start: int) -> Seq<bool> {
    Seq::new(free.len(), |k: int| free[(start + k) % (free.len() as int)])
}

/// The output a splitter sends to: going round the outputs from
/// `counter % len`, the first whose target slot is free.
pub open spec fn spec_splitter_pick(free: Seq<bool>, counter: u32) -> Option<int> {
    if free.len() == 0 {
        None
    } else {
        let start = counter as int % (free.len() as int);
        let k = first_index(rotated(free, start), is_true());
        if k < 0 {
            None
        } else {
            Some((start + k) % (free.len() as int))
        }
    }
}

/// Round-robin choice of a splitter's output; `free[i]` tells whether the first
/// slot of the belt behind output `i` is empty.
pub fn splitter_pick(free: &Vec<bool>, counter: u32) -> (r: Option<usize>)
    ensures
        match r {
            Some(i) => spec_splitter_pick(free@, counter) == Some(i as int),
            None => spec_splitter_pick(free@, counter) is None,
        },
{
    let n = free.len();
    if n == 0 {
        return None;
    }
    let start = (counter as usize) % n;
    let ghost rot = rotated(free@, start as int);
    let mut k: usize = 0;
    while k < n
        invariant
            n == free@.len(),
            n > 0,
            start < n,
            start as int == counter as int % (n as int),
            rot == rotated(free@, start as int),
            k <= n,
            forall|j: int| 0 <= j < k ==> !is_true()(#[trigger] rot[j]),
        decreases n - k,
    {
        let idx = if k < n - start {
            start + k
        } else {
            k - (n - start)
        };
        assert(idx as int == (start as int + k as int) % (n as int)) by (nonlinear_arith)
            requires
                start < n,
                k < n,
                idx as int == (if (k as int) < (n as int) - (start as int) {
                    start as int + k as int
                } else {
                    k as int - (n as int - start as int)
                }),
        ;
        if free[idx] {
            proof {
                assert(rot[k as int] == free@[idx as int]);
                lemma_first_index_is(rot, is_true(), k as int);
            }
            return Some(idx);
        }
        assert(!is_true()(rot[k as int]));
        k = k + 1;
    }
    proof {
        lemma_first_index_none(rot, is_true());
    }
    None
}

/// A splitter: round-robin counter, number of outputs, and the side it takes
/// items from once known.
pub struct Splitter {
    pub counter: u32,
    pub outputs: u32,
    pub input_direction: Option<Direction>,
}

impl Splitter {
    /// Records a transfer: the counter moves on (wrapping) and the input side is
    /// remembered.
    pub fn record_transfer(&mut self, input: Option<Direction>)
        ensures
            final(self).counter == (if old(self).counter == u32::MAX {
                0
            } else {
                (old(self).counter + 1) as u32
            }),
            final(self).input_direction == input,
            final(self).outputs == old(self).outputs,
    {
        self.counter = self.counter.wrapping_add(1);
        self.input_direction = input;
    }
}

/// A sorter: items of the `filter` resource go to the side, the others go
/// straight on; `inverted` swaps the two.
pub struct Sorter {
    pub filter: ResourceId,
    pub inverted: bool,
}

impl Sorter {
    /// The direction an item leaves the sorter in, for a belt pointing `dir`:
    /// a quarter turn counter-clockwise when it is sent to the side.
    pub fn output_direction(&self, dir: Direction, item: &ResourceId) -> (r: Direction)
        ensures
            r == (if (item@ == self.filter@) != self.inverted {
                spec_next(dir)
            } else {
                dir
            }),
    {
        let matches_filter = *item == self.filter;
        let use_side = if self.inverted {
            !matches_filter
        } else {
            matches_filter
        };
        if use_side {
            dir.next()
        } else {
            dir
        }
    }
}

pub open spec fn some_count<T>() -> spec_fn(Option<T>) -> nat {
    |o: Option<T>| if o is Some {
        1nat
    } else {
        0nat
    }
}

/// How many slots of a belt hold an item.
pub open spec fn items_on<T>(s: Seq<Option<T>>) -> nat {
    sum_by(s, some_count::<T>())
}

/// Hands the item in the last slot of one belt to the first slot of the next
/// (or of a splitter or sorter output): it moves only when there is an item
/// and the first slot of the next belt is free. Returns whether it moved; no
/// item is lost or made.
pub fn hand_off<T>(src: &mut Vec<Option<T>>, dst: &mut Vec<Option<T>>) -> (moved: bool)
    requires
        old(src)@.len() > 0,
        old(dst)@.len() > 0,
    ensures
        moved == (old(src)@.last() is Some && old(dst)@[0] is None),
        moved ==> final(src)@ == old(src)@.update(old(src)@.len() - 1, None) && final(dst)@ == old(dst)@.update(
            0,
            old(src)@.last(),
        ),
        !moved ==> final(src)@ == old(src)@ && final(dst)@ == old(dst)@,
        items_on(final(src)@) + items_on(final(dst)@) == items_on(old(src)@) + items_on(old(dst)@),
{
    let ghost s0 = src@;
    let ghost d0 = dst@;
    let last = src.len() - 1;
    let free = dst[0].is_none();
    let has = src[last].is_some();
    if has && free {
        let item = src.remove(last);
        src.insert(last, None);
        dst.remove(0);
        dst.insert(0, item);
        assert(src@ =~= s0.update(last as int, None));
        assert(dst@ =~= d0.update(0, s0.last()));
        proof {
            lemma_sum_update(s0, last as int, None, some_count::<T>());
            lemma_sum_update(d0, 0, s0.last(), some_count::<T>());
        }
        true
    } else {
        false
    }
}

/// Whether an inventory takes no more items: it has a capacity and holds at
/// least that many.
pub open spec fn spec_full(inv: Inventory) -> bool {
    inv.spec_capacity() > 0 && total_in(inv@) >= inv.spec_capacity()
}

/// Drops the item in the last slot of a belt into the building in front of
/// it: one unit of `resource`, the item's resource, goes into the building's
/// inventory, unless the inventory is full. Returns whether it moved. As long
/// as the amount of that resource stays within `u32`, no item is lost or made.
pub fn deposit<T>(src: &mut Vec<Option<T>>, resource: &ResourceId, inv: &mut Inventory) -> (moved: bool)
    requires
        old(src)@.len() > 0,
        old(inv).spec_capacity() > 0 ==> total_in(old(inv)@) <= u32::MAX,
    ensures
        moved == (old(src)@.last() is Some && !spec_full(*old(inv))),
        moved ==> final(src)@ == old(src)@.update(old(src)@.len() - 1, None) && final(inv)@ == spec_add(
            old(inv)@,
            resource@,
            1,
        ),
        !moved ==> final(src)@ == old(src)@ && final(inv)@ == old(inv)@,
        final(inv).spec_capacity() == old(inv).spec_capacity(),
        amount_in(old(inv)@, resource@) < u32::MAX ==> items_on(final(src)@) + total_in(final(inv)@)
            == items_on(old(src)@) + total_in(old(inv)@),
{
    let ghost s0 = src@;
    let ghost i0 = inv@;
    let last = src.len() - 1;
    if src[last].is_some() && !inv.is_full() {
        src.remove(last);
        src.insert(last, None);
        inv.add(resource, 1);
        assert(src@ =~= s0.update(last as int, None));
        proof {
            lemma_sum_update(s0, last as int, None, some_count::<T>());
            law_add_total(i0, resource@, 1);
        }
        true
    } else {
        false
    }
}

/// The occupied slots of a belt, counted either way, are the same number.
pub proof fn lemma_items_on_occupied<T>(s: Seq<Option<BeltItem<T>>>)
    ensures
        items_on(s) == occupied_from(s, 0),
{
    lemma_items_on_from(s, 0);
    assert(s.skip(0) =~= s);
}

proof fn lemma_items_on_from<T>(s: Seq<Option<BeltItem<T>>>, i: int)
    requires
        0 <= i <= s.len(),
    ensures
        items_on(s.skip(i)) == occupied_from(s, i),
    decreases s.len() - i,
{
    if i < s.len() {
        lemma_items_on_from(s, i + 1);
        let t = s.skip(i);
        assert(t.skip(1) =~= s.skip(i + 1));
        lemma_sum_first(t, some_count::<BeltItem<T>>());
    } else {
        assert(s.skip(i) =~= Seq::<Option<BeltItem<T>>>::empty());
    }
}

pub open spec fn belt_items<T>() -> spec_fn(Seq<Option<T>>) -> nat {
    |b: Seq<Option<T>>| items_on(b)
}

/// How many items all the belts of a network carry.
pub open spec fn network_items<T>(belts: Seq<Seq<Option<T>>>) -> nat {
    sum_by(belts, belt_items::<T>())
}

/// Advancing the items within one belt keeps the number of items on it.
pub proof fn law_advance_keeps_belt_items<T>(s: Seq<Option<BeltItem<T>>>)
    ensures
        items_on(spec_advance(s)) == items_on(s),
{
    law_advance_keeps_items(s);
    lemma_items_on_occupied(s);
    lemma_items_on_occupied(spec_advance(s));
}

/// Replacing two belts of a network by belts that together carry as many
/// items (as a hand-off does) keeps the number of items in the network; so
/// does replacing one belt by one with as many items (as advancing it does).
pub proof fn law_network_keeps_items<T>(
    belts: Seq<Seq<Option<T>>>,
    i: int,
    j: int,
    new_i: Seq<Option<T>>,
    new_j: Seq<Option<T>>,
)
    requires
        0 <= i < belts.len(),
        0 <= j < belts.len(),
        i != j ==> items_on(new_i) + items_on(new_j) == items_on(belts[i]) + items_on(belts[j]),
        i == j ==> items_on(new_j) == items_on(belts[j]),
    ensures
        network_items(belts.update(i, new_i).update(j, new_j)) == network_items(belts),
{
    let f = belt_items::<T>();
    let b1 = belts.update(i, new_i);
    lemma_sum_update(belts, i, new_i, f);
    lemma_sum_update(b1, j, new_j, f);
    if i == j {
        assert(b1[j] == new_i);
    } else {
        assert(b1[j] == belts[j]);
    }
}

/// How many items the inventories of the buildings hold.
pub open spec fn inventory_total() -> spec_fn(Seq<SlotView>) -> nat {
    |s: Seq<SlotView>| total_in(s)
}

/// The items of a belt network together with those in the buildings it feeds.
pub open spec fn world_items<T>(belts: Seq<Seq<Option<T>>>, invs: Seq<Seq<SlotView>>) -> nat {
    network_items(belts) + sum_by(invs, inventory_total())
}

/// The moves of a belt step keep the items of the network and the buildings
/// together: advancing a belt or handing an item from one belt to another
/// (the buildings untouched), and dropping a belt's item into a building (as
/// `deposit` does, short of a full resource count). A belt step being a run of
/// such moves, no item appears or disappears in it.
pub proof fn law_belt_moves_keep_world_items<T>(
    belts: Seq<Seq<Option<T>>>,
    invs: Seq<Seq<SlotView>>,
    i: int,
    j: int,
    k: int,
    new_i: Seq<Option<T>>,
    new_j: Seq<Option<T>>,
    new_k: Seq<SlotView>,
)
    requires
        0 <= i < belts.len(),
        0 <= j < belts.len(),
        0 <= k < invs.len(),
        i != j ==> items_on(new_i) + items_on(new_j) == items_on(belts[i]) + items_on(belts[j]) && new_k == invs[k],
        i == j ==> items_on(new_j) + total_in(new_k) == items_on(belts[j]) + total_in(invs[k]),
    ensures
        world_items(belts.update(i, new_i).update(j, new_j), invs.update(k, new_k)) == world_items(belts, invs),
{
    let f = belt_items::<T>();
    let g = inventory_total();
    let b1 = belts.update(i, new_i);
    lemma_sum_update(belts, i, new_i, f);
    lemma_sum_update(b1, j, new_j, f);
    lemma_sum_update(invs, k, new_k, g);
    if i == j {
        assert(b1[j] == new_i);
    } else {
        assert(b1[j] == belts[j]);
    }
}

} // verus!
