use vstd::prelude::*;

use crate::first_index::{first_index, lemma_first_index, lemma_first_index_is, lemma_first_index_none};
use crate::text::owned;

verus! {

/// Where a square spiral walk is: position, heading, length of the current
/// segment, steps taken on it, and turns made.
pub struct SpiralState {
    pub x: int,
    pub y: int,
    pub dx: int,
    pub dy: int,
    pub seg: int,
    pub steps: int,
    pub turns: int,
}

/// One step of the spiral: move one tile; at the end of a segment turn a
/// quarter counter-clockwise, the segments growing by one every second turn
/// (1, 1, 2, 2, 3, 3, ...).
pub open spec fn spiral_step(s: SpiralState) -> SpiralState {
    let x = s.x + s.dx;
    let y = s.y + s.dy;
    let steps = s.steps + 1;
    if steps == s.seg {
        let turns = s.turns + 1;
        SpiralState {
            x,
            y,
            dx: -s.dy,
            dy: s.dx,
            seg: if turns % 2 == 0 {
                s.seg + 1
            } else {
                s.seg
            },
            steps: 0,
            turns,
        }
    } else {
        SpiralState { x, y, steps, ..s }
    }
}

/// The spiral after `k` steps from the centre, heading East.
pub open spec fn spiral_state(k: nat) -> SpiralState
    decreases k,
{
    if k == 0 {
        SpiralState { x: 0, y: 0, dx: 1, dy: 0, seg: 1, steps: 0, turns: 0 }
    } else {
        spiral_step(spiral_state((k - 1) as nat))
    }
}

/// How many tiles the search looks at.
pub open spec fn spiral_limit() -> nat {
    10000
}

/// Whether the `k`-th tile of the spiral around `(cx, cy)` can be planted: it is
/// not the centre and not blocked.
pub open spec fn plantable_at(cx: int, cy: int, blocked: Seq<(i32, i32)>, k: int) -> bool {
    let s = spiral_state(k as nat);
    !(s.x == 0 && s.y == 0) && !blocked.contains(((cx + s.x) as i32, (cy + s.y) as i32))
}

pub open spec fn candidates(cx: int, cy: int, blocked: Seq<(i32, i32)>) -> Seq<bool> {
    Seq::new(spiral_limit(), |k: int| plantable_at(cx, cy, blocked, k))
}

pub open spec fn is_true() -> spec_fn(bool) -> bool {
    |b: bool| b
}

/// The tile a cultivator plants: the first plantable tile on the spiral
/// around the farm, within the search limit.
pub open spec fn spec_plantable_tile(cx: int, cy: int, blocked: Seq<(i32, i32)>) -> Option<(int, int)> {
    let k = first_index(candidates(cx, cy, blocked), is_true());
    if k < 0 {
        None
    } else {
        Some((cx + spiral_state(k as nat).x, cy + spiral_state(k as nat).y))
    }
}

proof fn lemma_spiral_bounds(k: nat)
    ensures
        -(k as int) <= spiral_state(k).x <= k,
        -(k as int) <= spiral_state(k).y <= k,
        (spiral_state(k).dx == 1 && spiral_state(k).dy == 0) || (spiral_state(k).dx == 0
            && spiral_state(k).dy == 1) || (spiral_state(k).dx == -1 && spiral_state(k).dy == 0)
            || (spiral_state(k).dx == 0 && spiral_state(k).dy == -1),
        1 <= spiral_state(k).seg <= k + 1,
        0 <= spiral_state(k).steps < spiral_state(k).seg,
        0 <= spiral_state(k).turns <= k,
    decreases k,
{
    if k > 0 {
        lemma_spiral_bounds((k - 1) as nat);
    }
}

/// Where the spiral is, in closed form: after `turns` quarter turns, with
/// `j = turns / 4` full rings behind it, the segment it walks starts at a corner
/// of the ring of radius `j` (or `j + 1`), and `k` counts every step so far.
pub open spec fn spiral_closed(k: int, s: SpiralState) -> bool {
    let j = s.turns / 4;
    let r = s.turns % 4;
    &&& s.turns >= 0
    &&& 0 <= s.steps < s.seg
    &&& r == 0 ==> (s.dx == 1 && s.dy == 0 && s.seg == 2 * j + 1 && s.x == -j + s.steps && s.y == -j && k == 4 * j
        * j + 2 * j + s.steps)
    &&& r == 1 ==> (s.dx == 0 && s.dy == 1 && s.seg == 2 * j + 1 && s.x == j + 1 && s.y == -j + s.steps && k == 4
        * j * j + 4 * j + 1 + s.steps)
    &&& r == 2 ==> (s.dx == -1 && s.dy == 0 && s.seg == 2 * j + 2 && s.x == j + 1 - s.steps && s.y == j + 1 && k
        == 4 * j * j + 6 * j + 2 + s.steps)
    &&& r == 3 ==> (s.dx == 0 && s.dy == -1 && s.seg == 2 * j + 2 && s.x == -(j + 1) && s.y == j + 1 - s.steps
        && k == 4 * j * j + 8 * j + 4 + s.steps)
}

proof fn lemma_spiral_closed(k: nat)
    ensures
        spiral_closed(k as int, spiral_state(k)),
    decreases k,
{
    if k > 0 {
        lemma_spiral_closed((k - 1) as nat);
        let s = spiral_state((k - 1) as nat);
        let t = spiral_step(s);
        let j = s.turns / 4;
        if s.steps + 1 == s.seg && s.turns % 4 == 3 {
            assert((s.turns + 1) / 4 == j + 1);
            assert((s.turns + 1) % 4 == 0);
            assert(4 * (j + 1) * (j + 1) + 2 * (j + 1) == 4 * j * j + 10 * j + 6) by (nonlinear_arith);
        } else if s.steps + 1 == s.seg {
            assert((s.turns + 1) / 4 == j);
            assert((s.turns + 1) % 4 == s.turns % 4 + 1);
        }
        assert(spiral_closed(k as int, t));
    }
}

/// Within the search limit the spiral stays within 50 tiles of its centre.
proof fn lemma_spiral_radius(k: nat)
    requires
        k <= spiral_limit(),
    ensures
        -50 <= spiral_state(k).x <= 50,
        -50 <= spiral_state(k).y <= 50,
{
    lemma_spiral_closed(k);
    let s = spiral_state(k);
    let j = s.turns / 4;
    if j >= 50 {
        assert(4 * j * j + 2 * j >= 10100) by (nonlinear_arith) requires j >= 50;
        assert(4 * j * j + 2 * j <= k);
    }
    assert(j <= 49);
}

fn contains_tile(blocked: &Vec<(i32, i32)>, t: (i32, i32)) -> (r: bool)
    ensures
        r == blocked@.contains(t),
{
    let mut i: usize = 0;
    while i < blocked.len()
        invariant
            i <= blocked@.len(),
            forall|k: int| 0 <= k < i ==> blocked@[k] != t,
        decreases blocked@.len() - i,
    {
        if blocked[i].0 == t.0 && blocked[i].1 == t.1 {
            assert(blocked@[i as int] == t);
            return true;
        }
        i = i + 1;
    }
    false
}

/// Looks for a tile to plant, walking a square spiral around `(cx, cy)`;
/// `blocked` holds the tiles that are occupied, already planted or reserved.
pub fn find_plantable_tile_spiral(cx: i32, cy: i32, blocked: &Vec<(i32, i32)>) -> (r: Option<(i32, i32)>)
    requires
        i32::MIN + 50 <= cx <= i32::MAX - 50,
        i32::MIN + 50 <= cy <= i32::MAX - 50,
    ensures
        match r {
            Some((x, y)) => spec_plantable_tile(cx as int, cy as int, blocked@) == Some((x as int, y as int)),
            None => spec_plantable_tile(cx as int, cy as int, blocked@) is None,
        },
{
    let ghost cand = candidates(cx as int, cy as int, blocked@);
    let mut x: i32 = 0;
    let mut y: i32 = 0;
    let mut dx: i32 = 1;
    let mut dy: i32 = 0;
    let mut segment_len: i32 = 1;
    let mut steps: i32 = 0;
    let mut turns: i32 = 0;
    let mut k: u32 = 0;
    while k < 10000
        invariant
            k <= 10000,
            i32::MIN + 50 <= cx <= i32::MAX - 50,
            i32::MIN + 50 <= cy <= i32::MAX - 50,
            cand == candidates(cx as int, cy as int, blocked@),
            spiral_state(k as nat) == (SpiralState {
                x: x as int,
                y: y as int,
                dx: dx as int,
                dy: dy as int,
                seg: segment_len as int,
                steps: steps as int,
                turns: turns as int,
            }),
            forall|j: int| 0 <= j < k ==> !is_true()(#[trigger] cand[j]),
        decreases 10000 - k,
    {
        proof {
            lemma_spiral_bounds(k as nat);
            lemma_spiral_radius(k as nat);
        }
        if !(x == 0 && y == 0) {
            let tx = cx + x;
            let ty = cy + y;
            if !contains_tile(blocked, (tx, ty)) {
                proof {
                    assert(cand[k as int] == plantable_at(cx as int, cy as int, blocked@, k as int));
                    lemma_first_index_is(cand, is_true(), k as int);
                }
                return Some((tx, ty));
            }
        }
        assert(cand[k as int] == plantable_at(cx as int, cy as int, blocked@, k as int));
        x = x + dx;
        y = y + dy;
        steps = steps + 1;
        if steps == segment_len {
            steps = 0;
            let new_dx = -dy;
            let new_dy = dx;
            dx = new_dx;
            dy = new_dy;
            turns = turns + 1;
            if turns % 2 == 0 {
                segment_len = segment_len + 1;
            }
        }
        k = k + 1;
    }
    proof {
        lemma_first_index_none(cand, is_true());
    }
    None
}

/// Entities are named by their bits.
pub type EntityId = u64;

/// What a cultivator is doing.
#[derive(Debug, Clone, Copy, PartialEq, Eq, Structural)]
pub enum CultivatorState {
    Idle,
    MovingToPlant(i32, i32),
    MovingToHarvest(EntityId),
    MovingToFarmForSeeds(EntityId),
    DeliveringToFarm(EntityId),
}

/// A worker that takes seeds from farms, plants them, harvests ripe crops
/// and brings the harvest back.
#[derive(Debug, Clone)]
pub struct Cultivator {
    pub state: CultivatorState,
    pub carried_resource: Option<String>,
    pub carried_amount: u32,
    pub carry_capacity: u32,
}

/// A harvest handed to a farm.
#[derive(Debug, Clone)]
pub struct PendingDelivery {
    pub farm_entity: EntityId,
    pub resource: String,
    pub amount: u32,
}

/// A farm: the crops it grows, and the one selected.
#[derive(Debug, Clone)]
pub struct Farm {
    pub crop_index: usize,
    pub crop_types: Vec<String>,
}

pub open spec fn opt_str(o: Option<String>) -> Option<Seq<char>> {
    match o {
        Some(s) => Some(s@),
        None => None,
    }
}

/// Whether a cultivator carries seeds.
pub open spec fn carrying_seeds(c: Cultivator) -> bool {
    c.carried_resource is Some && c.carried_amount > 0
}

/// The next state of an idle cultivator. With a ripe crop around: carrying
/// seeds, it first takes them to the nearest farm; otherwise it goes to
/// harvest. Without one: carrying seeds, it goes to plant on the tile found;
/// otherwise it fetches seeds from the nearest farm. It stays idle when what it
/// needs is missing.
pub open spec fn spec_idle_next(
    c: Cultivator,
    ripe_crop: Option<EntityId>,
    nearest_farm: Option<EntityId>,
    plant_tile: Option<(i32, i32)>,
) -> CultivatorState {
    match ripe_crop {
        Some(crop) => if carrying_seeds(c) {
            match nearest_farm {
                Some(f) => CultivatorState::DeliveringToFarm(f),
                None => c.state,
            }
        } else {
            CultivatorState::MovingToHarvest(crop)
        },
        None => if carrying_seeds(c) {
            match plant_tile {
                Some((x, y)) => CultivatorState::MovingToPlant(x, y),
                None => c.state,
            }
        } else {
            match nearest_farm {
                Some(f) => CultivatorState::MovingToFarmForSeeds(f),
                None => c.state,
            }
        },
    }
}

/// The seed a cultivator takes at a farm: the selected crop of the first farm
/// (the last crop when the selection is past the end), else the first crop
/// known, else wheat.
pub open spec fn spec_seed_choice(crop_types: Seq<String>, crop_index: usize, first_known: Option<Seq<char>>) -> Seq<char> {
    if crop_types.len() == 0 {
        match first_known {
            Some(s) => s,
            None => "wheat"@,
        }
    } else {
        let idx = if crop_index < crop_types.len() - 1 {
            crop_index as int
        } else {
            crop_types.len() - 1
        };
        crop_types[idx]@
    }
}

pub fn seed_choice(crop_types: &Vec<String>, crop_index: usize, first_known: Option<&String>) -> (r: String)
    ensures
        r@ == spec_seed_choice(
            crop_types@,
            crop_index,
            match first_known {
                Some(s) => Some(s@),
                None => None,
            },
        ),
{
    if crop_types.len() == 0 {
        match first_known {
            Some(s) => owned(s.as_str()),
            None => owned("wheat"),
        }
    } else {
        let last = crop_types.len() - 1;
        let idx = if crop_index < last {
            crop_index
        } else {
            last
        };
        owned(crop_types[idx].as_str())
    }
}

fn copy_opt(o: &Option<String>) -> (r: Option<String>)
    ensures
        opt_str(r) == opt_str(*o),
{
    match o {
        Some(s) => Some(owned(s.as_str())),
        None => None,
    }
}

impl Cultivator {
    /// An idle cultivator picks its next task.
    pub fn idle_decision(
        &mut self,
        ripe_crop: Option<EntityId>,
        nearest_farm: Option<EntityId>,
        plant_tile: Option<(i32, i32)>,
    )
        requires
            old(self).state == CultivatorState::Idle,
        ensures
            final(self).state == spec_idle_next(*old(self), ripe_crop, nearest_farm, plant_tile),
            opt_str(final(self).carried_resource) == opt_str(old(self).carried_resource),
            final(self).carried_amount == old(self).carried_amount,
            final(self).carry_capacity == old(self).carry_capacity,
    {
        let seeds = self.carried_resource.is_some() && self.carried_amount > 0;
        match ripe_crop {
            Some(crop) => {
                if seeds {
                    if let Some(f) = nearest_farm {
                        self.state = CultivatorState::DeliveringToFarm(f);
                    }
                } else {
                    self.state = CultivatorState::MovingToHarvest(crop);
                }
            },
            None => {
                if seeds {
                    if let Some((x, y)) = plant_tile {
                        self.state = CultivatorState::MovingToPlant(x, y);
                    }
                } else {
                    if let Some(f) = nearest_farm {
                        self.state = CultivatorState::MovingToFarmForSeeds(f);
                    }
                }
            },
        }
    }

    /// The target of the current task is gone: the cultivator becomes idle.
    pub fn target_gone(&mut self)
        ensures
            final(self).state == CultivatorState::Idle,
            opt_str(final(self).carried_resource) == opt_str(old(self).carried_resource),
            final(self).carried_amount == old(self).carried_amount,
    {
        self.state = CultivatorState::Idle;
    }

    /// At the farm for seeds: takes `capacity` seeds of `seed` and becomes idle.
    pub fn take_seeds(&mut self, seed: &str, capacity: u32)
        ensures
            final(self).state == CultivatorState::Idle,
            opt_str(final(self).carried_resource) == Some(seed@),
            final(self).carried_amount == capacity,
    {
        self.carried_resource = Some(owned(seed));
        self.carried_amount = capacity;
        self.state = CultivatorState::Idle;
    }

    /// On the plot: plants a seed (of what it carries, else of `fallback`),
    /// uses one seed up and becomes idle. Returns the crop planted.
    pub fn plant(&mut self, fallback: Option<&String>) -> (r: String)
        requires
            old(self).carried_resource is Some || fallback is Some,
        ensures
            r@ == match old(self).carried_resource {
                Some(s) => s@,
                None => fallback->0@,
            },
            final(self).carried_amount == (if old(self).carried_amount > 0 {
                (old(self).carried_amount - 1) as u32
            } else {
                0
            }),
            opt_str(final(self).carried_resource) == (if final(self).carried_amount == 0 {
                None
            } else {
                opt_str(old(self).carried_resource)
            }),
            final(self).state == CultivatorState::Idle,
    {
        let resource = match &self.carried_resource {
            Some(s) => owned(s.as_str()),
            None => owned(fallback.unwrap().as_str()),
        };
        if self.carried_amount > 0 {
            self.carried_amount = self.carried_amount - 1;
        }
        if self.carried_amount == 0 {
            self.carried_resource = None;
        }
        self.state = CultivatorState::Idle;
        resource
    }

    /// At a crop: when it is ripe the cultivator takes the harvest (the crop
    /// is then removed) and, once full, takes it to the nearest farm; it is idle
    /// otherwise. Returns whether it harvested.
    pub fn harvest(
        &mut self,
        ripe: bool,
        crop_resource: &str,
        yield_amount: u32,
        capacity: u32,
        nearest_farm: Option<EntityId>,
    ) -> (harvested: bool)
        requires
            ripe ==> old(self).carried_amount + yield_amount <= u32::MAX,
        ensures
            harvested == ripe,
            ripe ==> opt_str(final(self).carried_resource) == Some(crop_resource@)
                && final(self).carried_amount == old(self).carried_amount + yield_amount
                && final(self).state == (if final(self).carried_amount >= capacity {
                match nearest_farm {
                    Some(f) => CultivatorState::DeliveringToFarm(f),
                    None => CultivatorState::Idle,
                }
            } else {
                CultivatorState::Idle
            }),
            !ripe ==> final(self).state == CultivatorState::Idle && opt_str(
                final(self).carried_resource,
            ) == opt_str(old(self).carried_resource) && final(self).carried_amount == old(
                self,
            ).carried_amount,
    {
        if !ripe {
            self.state = CultivatorState::Idle;
            return false;
        }
        self.carried_resource = Some(owned(crop_resource));
        self.carried_amount = self.carried_amount + yield_amount;
        if self.carried_amount >= capacity {
            match nearest_farm {
                Some(f) => {
                    self.state = CultivatorState::DeliveringToFarm(f);
                },
                None => {
                    self.state = CultivatorState::Idle;
                },
            }
        } else {
            self.state = CultivatorState::Idle;
        }
        true
    }

    /// At the farm with a harvest: hands it over (when it carries something),
    /// empties its hands and becomes idle.
    pub fn deliver(&mut self, farm: EntityId) -> (r: Option<PendingDelivery>)
        ensures
            match r {
                Some(d) => old(self).carried_resource is Some && d.farm_entity == farm && Some(
                    d.resource@,
                ) == opt_str(old(self).carried_resource) && d.amount == old(self).carried_amount,
                None => old(self).carried_resource is None,
            },
            final(self).carried_resource is None,
            final(self).carried_amount == 0,
            final(self).state == CultivatorState::Idle,
    {
        let r = match &self.carried_resource {
            Some(res) => Some(
                PendingDelivery { farm_entity: farm, resource: owned(res.as_str()), amount: self.carried_amount },
            ),
            None => None,
        };
        self.carried_resource = None;
        self.carried_amount = 0;
        self.state = CultivatorState::Idle;
        r
    }
}

/// The tile chosen for planting is never the farm's own tile and never a
/// blocked one.
pub proof fn law_planted_tile_is_free(cx: int, cy: int, blocked: Seq<(i32, i32)>)
    requires
        i32::MIN + 50 <= cx <= i32::MAX - 50,
        i32::MIN + 50 <= cy <= i32::MAX - 50,
    ensures
        match spec_plantable_tile(cx, cy, blocked) {
            Some((x, y)) => !(x == cx && y == cy) && !blocked.contains((x as i32, y as i32)),
            None => true,
        },
{
    let c = candidates(cx, cy, blocked);
    lemma_first_index(c, is_true());
    let k = first_index(c, is_true());
    if k >= 0 {
        assert(c[k]);
        lemma_spiral_bounds(k as nat);
        lemma_spiral_radius(k as nat);
    }
}

/// The crops and tiles that cultivators in these states have claimed: the crop
/// each one walks to harvest and the tile each one walks to plant.
pub open spec fn claimed_crops(states: Seq<CultivatorState>) -> Seq<EntityId>
    decreases states.len(),
{
    if states.len() == 0 {
        Seq::empty()
    } else {
        let rest = claimed_crops(states.drop_last());
        match states.last() {
            CultivatorState::MovingToHarvest(t) => rest.push(t),
            _ => rest,
        }
    }
}

pub open spec fn claimed_tiles(states: Seq<CultivatorState>) -> Seq<(i32, i32)>
    decreases states.len(),
{
    if states.len() == 0 {
        Seq::empty()
    } else {
        let rest = claimed_tiles(states.drop_last());
        match states.last() {
            CultivatorState::MovingToPlant(x, y) => rest.push((x, y)),
            _ => rest,
        }
    }
}

/// Taking one element out of a sequence without duplicates leaves one without
/// duplicates; putting back one that is not there keeps it so.
proof fn lemma_no_dup_middle<A>(a: Seq<A>, m: Seq<A>, b: Seq<A>, n: Seq<A>)
    requires
        (a + m + b).no_duplicates(),
        n.no_duplicates(),
        forall|x: A| #[trigger] n.contains(x) ==> !(a + b).contains(x),
    ensures
        (a + n + b).no_duplicates(),
{
    let s = a + m + b;
    let t = a + n + b;
    assert forall|i: int, j: int| 0 <= i < t.len() && 0 <= j < t.len() && i != j implies t[i] != t[j] by {
        let la = a.len() as int;
        let ln = n.len() as int;
        let lm = m.len() as int;
        // Positions of `a` and `b` in `t` and in `s`.
        let si = if i < la { i } else if i < la + ln { -1 } else { i - ln + lm };
        let sj = if j < la { j } else if j < la + ln { -1 } else { j - ln + lm };
        if si >= 0 && sj >= 0 {
            assert(t[i] == s[si]);
            assert(t[j] == s[sj]);
        } else if si < 0 && sj < 0 {
            assert(t[i] == n[i - la]);
            assert(t[j] == n[j - la]);
        } else if si < 0 {
            assert(n.contains(t[i]));
            assert(t[i] == n[i - la]);
            if j < la {
                assert((a + b)[j] == t[j]);
            } else {
                assert((a + b)[j - ln] == t[j]);
            }
        } else {
            assert(n.contains(t[j]));
            assert(t[j] == n[j - la]);
            if i < la {
                assert((a + b)[i] == t[i]);
            } else {
                assert((a + b)[i - ln] == t[i]);
            }
        }
    }
}

/// The crop a cultivator in `s` claims, as a sequence of at most one.
pub open spec fn crop_claim(s: CultivatorState) -> Seq<EntityId> {
    match s {
        CultivatorState::MovingToHarvest(t) => seq![t],
        _ => Seq::empty(),
    }
}

/// The tile a cultivator in `s` claims, as a sequence of at most one.
pub open spec fn tile_claim(s: CultivatorState) -> Seq<(i32, i32)> {
    match s {
        CultivatorState::MovingToPlant(x, y) => seq![(x, y)],
        _ => Seq::empty(),
    }
}

proof fn lemma_claims_concat(a: Seq<CultivatorState>, b: Seq<CultivatorState>)
    ensures
        claimed_crops(a + b) == claimed_crops(a) + claimed_crops(b),
        claimed_tiles(a + b) == claimed_tiles(a) + claimed_tiles(b),
    decreases b.len(),
{
    if b.len() == 0 {
        assert(a + b =~= a);
        assert(claimed_crops(a) + claimed_crops(b) =~= claimed_crops(a));
        assert(claimed_tiles(a) + claimed_tiles(b) =~= claimed_tiles(a));
    } else {
        lemma_claims_concat(a, b.drop_last());
        assert((a + b).drop_last() =~= a + b.drop_last());
        assert((a + b).last() == b.last());
        assert(claimed_crops(a) + claimed_crops(b) =~= (claimed_crops(a) + claimed_crops(b.drop_last())) + crop_claim(b.last()));
        assert(claimed_tiles(a) + claimed_tiles(b) =~= (claimed_tiles(a) + claimed_tiles(b.drop_last())) + tile_claim(b.last()));
        assert(claimed_crops(a + b) =~= claimed_crops(a + b.drop_last()) + crop_claim(b.last()));
        assert(claimed_tiles(a + b) =~= claimed_tiles(a + b.drop_last()) + tile_claim(b.last()));
    }
}

proof fn lemma_claims_split(states: Seq<CultivatorState>, i: int, next: CultivatorState)
    requires
        0 <= i < states.len(),
    ensures
        claimed_crops(states.update(i, next)) == claimed_crops(states.take(i)) + crop_claim(next) + claimed_crops(
            states.skip(i + 1),
        ),
        claimed_tiles(states.update(i, next)) == claimed_tiles(states.take(i)) + tile_claim(next) + claimed_tiles(
            states.skip(i + 1),
        ),
{
    let u = states.update(i, next);
    assert(u =~= states.take(i) + seq![next] + states.skip(i + 1));
    lemma_claims_concat(states.take(i) + seq![next], states.skip(i + 1));
    lemma_claims_concat(states.take(i), seq![next]);
    let one = seq![next];
    assert(one.drop_last() =~= Seq::<CultivatorState>::empty());
    assert(one.last() == next);
    assert(claimed_crops(one.drop_last()) =~= Seq::<EntityId>::empty());
    assert(claimed_tiles(one.drop_last()) =~= Seq::<(i32, i32)>::empty());
    assert(claimed_crops(seq![next]) =~= crop_claim(next));
    assert(claimed_tiles(seq![next]) =~= tile_claim(next));
}

/// Same-frame reservations: when one cultivator turns to a new task whose
/// crop (or tile) no other cultivator has claimed, no crop and no tile ends
/// up claimed twice, provided none was before. A task that claims nothing
/// keeps this too.
pub proof fn law_claims_stay_distinct(states: Seq<CultivatorState>, i: int, next: CultivatorState)
    requires
        0 <= i < states.len(),
        claimed_crops(states).no_duplicates(),
        claimed_tiles(states).no_duplicates(),
        next matches CultivatorState::MovingToHarvest(t) ==> !claimed_crops(
            states.update(i, CultivatorState::Idle),
        ).contains(t),
        next matches CultivatorState::MovingToPlant(x, y) ==> !claimed_tiles(
            states.update(i, CultivatorState::Idle),
        ).contains((x, y)),
    ensures
        claimed_crops(states.update(i, next)).no_duplicates(),
        claimed_tiles(states.update(i, next)).no_duplicates(),
{
    let a = states.take(i);
    let b = states.skip(i + 1);
    lemma_claims_split(states, i, states[i]);
    assert(states.update(i, states[i]) =~= states);
    lemma_claims_split(states, i, CultivatorState::Idle);
    lemma_claims_split(states, i, next);
    let ca = claimed_crops(a);
    let cb = claimed_crops(b);
    let ta = claimed_tiles(a);
    let tb = claimed_tiles(b);
    assert(crop_claim(CultivatorState::Idle) =~= Seq::<EntityId>::empty());
    assert(tile_claim(CultivatorState::Idle) =~= Seq::<(i32, i32)>::empty());
    assert(ca + Seq::<EntityId>::empty() + cb =~= ca + cb);
    assert(ta + Seq::<(i32, i32)>::empty() + tb =~= ta + tb);
    assert forall|x: EntityId| #[trigger] crop_claim(next).contains(x) implies !(ca + cb).contains(x) by {
        assert(next is MovingToHarvest);
        assert(crop_claim(next)[0] == x);
    }
    assert forall|x: (i32, i32)| #[trigger] tile_claim(next).contains(x) implies !(ta + tb).contains(x) by {
        assert(next is MovingToPlant);
        assert(tile_claim(next)[0] == x);
    }
    lemma_no_dup_middle(ca, crop_claim(states[i]), cb, crop_claim(next));
    lemma_no_dup_middle(ta, tile_claim(states[i]), tb, tile_claim(next));
}

/// The first of the candidates (nearest first) that no cultivator has claimed.
pub fn first_unclaimed(candidates: &Vec<EntityId>, taken: &Vec<EntityId>) -> (r: Option<EntityId>)
    ensures
        match r {
            Some(c) => exists|k: int|
                0 <= k < candidates@.len() && candidates@[k] == c && !taken@.contains(c) && forall|j: int|
                    0 <= j < k ==> taken@.contains(#[trigger] candidates@[j]),
            None => forall|j: int| 0 <= j < candidates@.len() ==> taken@.contains(#[trigger] candidates@[j]),
        },
{
    let mut i: usize = 0;
    while i < candidates.len()
        invariant
            i <= candidates@.len(),
            forall|j: int| 0 <= j < i ==> taken@.contains(#[trigger] candidates@[j]),
        decreases candidates@.len() - i,
    {
        let c = candidates[i];
        let mut found = false;
        let mut k: usize = 0;
        while k < taken.len()
            invariant
                k <= taken@.len(),
                found == (exists|m: int| 0 <= m < k && taken@[m] == c),
            decreases taken@.len() - k,
        {
            if taken[k] == c {
                found = true;
            }
            k = k + 1;
        }
        if !found {
            assert(!taken@.contains(c));
            return Some(c);
        }
        assert(taken@.contains(candidates@[i as int]));
        i = i + 1;
    }
    None
}

/// Records what a cultivator in `state` claims, so that no other cultivator
/// goes for the same crop or tile.
pub fn claim(state: CultivatorState, crops: &mut Vec<EntityId>, tiles: &mut Vec<(i32, i32)>)
    ensures
        final(crops)@ == (match state {
            CultivatorState::MovingToHarvest(t) => old(crops)@.push(t),
            _ => old(crops)@,
        }),
        final(tiles)@ == (match state {
            CultivatorState::MovingToPlant(x, y) => old(tiles)@.push((x, y)),
            _ => old(tiles)@,
        }),
{
    match state {
        CultivatorState::MovingToHarvest(t) => crops.push(t),
        CultivatorState::MovingToPlant(x, y) => tiles.push((x, y)),
        _ => {},
    }
}

/// The crops and tiles the cultivators in these states have claimed, in order.
pub fn claims(states: &Vec<CultivatorState>) -> (r: (Vec<EntityId>, Vec<(i32, i32)>))
    ensures
        r.0@ == claimed_crops(states@),
        r.1@ == claimed_tiles(states@),
{
    let mut crops: Vec<EntityId> = Vec::new();
    let mut tiles: Vec<(i32, i32)> = Vec::new();
    let mut i: usize = 0;
    while i < states.len()
        invariant
            i <= states@.len(),
            crops@ == claimed_crops(states@.take(i as int)),
            tiles@ == claimed_tiles(states@.take(i as int)),
        decreases states@.len() - i,
    {
        let ghost t = states@.take(i + 1);
        assert(t.drop_last() =~= states@.take(i as int));
        assert(t.last() == states@[i as int]);
        claim(states[i], &mut crops, &mut tiles);
        i = i + 1;
    }
    assert(states@.take(states@.len() as int) =~= states@);
    (crops, tiles)
}

} // verus!
