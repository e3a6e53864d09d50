use vstd::prelude::*;

use crate::capsule::TierInfo;
use crate::catalog::{parse_belt_variant, spec_belt_variant, BeltVariant};
use crate::first_index::{first_index, last_index, lemma_first_index_is, lemma_first_index_none, lemma_last_index};
use crate::catalog::try_pay;
use crate::inventory::Inventory;
use crate::placement::cost_view;
use crate::recipe::{amounts_fit, remove_all, spec_inputs_available};
use crate::resource::{Cost, ResourceId};
use crate::text::{lowercase_of, push_str};
use crate::text::{owned, str_equal};

verus! {

/// What the rules read of a building definition; its colours, power figures
/// and timings are real-valued and kept by the game.
#[derive(Debug, Clone)]
pub struct BuildingDef {
    pub id: String,
    pub name: String,
    pub cost: Vec<Cost>,
    pub hp: u32,
    pub tile_w: u32,
    pub tile_h: u32,
    pub requires_deposit: bool,
    pub can_deconstruct: bool,
    pub inventory_capacity: u32,
    pub hidden: bool,
    pub drag_placement: bool,
    pub is_belt: bool,
    pub default_recipe: Option<String>,
    pub default_filter: Option<String>,
    pub crop_types: Vec<String>,
    pub recipe_categories: Vec<String>,
    pub requires_discovery: Option<String>,
    pub level: u32,
    pub upgrades_from: Option<String>,
    pub upgrades_to: Option<String>,
    pub belt_variant: BeltVariant,
    /// The tiers of a tiered structure (the capsule); empty for other buildings.
    pub tiers: Vec<TierInfo>,
}

/// The known buildings, in the order they were loaded.
#[derive(Debug, Clone)]
pub struct BuildingRegistry {
    pub buildings: Vec<BuildingDef>,
}

pub open spec fn building_has_id(id: Seq<char>) -> spec_fn(BuildingDef) -> bool {
    |b: BuildingDef| b.id@ == id
}

/// The first building with the identifier, or -1.
pub open spec fn building_pos(buildings: Seq<BuildingDef>, id: Seq<char>) -> int {
    first_index(buildings, building_has_id(id))
}

pub open spec fn opt_text(o: Option<String>) -> Option<Seq<char>> {
    match o {
        Some(s) => Some(s@),
        None => None,
    }
}

pub open spec fn upgrades_from_id(id: Seq<char>) -> spec_fn(BuildingDef) -> bool {
    |b: BuildingDef| b.upgrades_from matches Some(f) && f@ == id
}

/// The building a definition upgrades to: the last one loaded that names it
/// as the building it upgrades from.
pub open spec fn upgrade_of(buildings: Seq<BuildingDef>, id: Seq<char>) -> Option<Seq<char>> {
    let k = last_index(buildings, upgrades_from_id(id));
    if k >= 0 {
        Some(buildings[k].id@)
    } else {
        None
    }
}

impl BuildingRegistry {
    /// The definition of a building kind, if known.
    pub fn get(&self, id: &str) -> (r: Option<&BuildingDef>)
        ensures
            match r {
                Some(b) => building_pos(self.buildings@, id@) >= 0 && *b == self.buildings@[building_pos(
                    self.buildings@,
                    id@,
                )],
                None => building_pos(self.buildings@, id@) < 0,
            },
    {
        let ghost p = building_has_id(id@);
        let mut i: usize = 0;
        while i < self.buildings.len()
            invariant
                i <= self.buildings@.len(),
                p == building_has_id(id@),
                forall|k: int| 0 <= k < i ==> !p(#[trigger] self.buildings@[k]),
            decreases self.buildings@.len() - i,
        {
            if str_equal(self.buildings[i].id.as_str(), id) {
                proof {
                    lemma_first_index_is(self.buildings@, p, i as int);
                }
                return Some(&self.buildings[i]);
            }
            i = i + 1;
        }
        proof {
            lemma_first_index_none(self.buildings@, p);
        }
        None
    }

    /// The building a kind upgrades to, when both are known.
    pub fn upgrade_target(&self, kind: &str) -> (r: Option<&BuildingDef>)
        ensures
            match r {
                Some(t) => {
                    let p = building_pos(self.buildings@, kind@);
                    &&& p >= 0
                    &&& self.buildings@[p].upgrades_to matches Some(u) && building_pos(self.buildings@, u@) >= 0
                        && *t == self.buildings@[building_pos(self.buildings@, u@)]
                },
                None => {
                    let p = building_pos(self.buildings@, kind@);
                    p < 0 || self.buildings@[p].upgrades_to is None || (self.buildings@[p].upgrades_to matches Some(
                        u,
                    ) && building_pos(self.buildings@, u@) < 0)
                },
            },
    {
        match self.get(kind) {
            Some(def) => match &def.upgrades_to {
                Some(u) => self.get(u.as_str()),
                None => None,
            },
            None => None,
        }
    }
}

fn last_upgrader(buildings: &Vec<BuildingDef>, id: &str) -> (r: Option<usize>)
    ensures
        match r {
            Some(k) => k < buildings@.len() && last_index(buildings@, upgrades_from_id(id@)) == k,
            None => last_index(buildings@, upgrades_from_id(id@)) < 0,
        },
{
    let ghost p = upgrades_from_id(id@);
    proof {
        lemma_last_index(buildings@, p);
    }
    let mut found: Option<usize> = None;
    let mut i: usize = 0;
    while i < buildings.len()
        invariant
            i <= buildings@.len(),
            p == upgrades_from_id(id@),
            match found {
                Some(k) => k < i && p(buildings@[k as int]) && forall|q: int| k < q < i ==> !p(#[trigger] buildings@[q]),
                None => forall|q: int| 0 <= q < i ==> !p(#[trigger] buildings@[q]),
            },
        decreases buildings@.len() - i,
    {
        let hit = match &buildings[i].upgrades_from {
            Some(f) => str_equal(f.as_str(), id),
            None => false,
        };
        if hit {
            found = Some(i);
        }
        i = i + 1;
    }
    proof {
        lemma_last_index(buildings@, p);
    }
    found
}

/// Links each building to the one that upgrades from it, as loading does once
/// every definition is read: `upgrades_to` becomes the identifier of the last
/// building naming it in `upgrades_from`, or nothing.
pub fn link_upgrades(buildings: &mut Vec<BuildingDef>)
    ensures
        final(buildings)@.len() == old(buildings)@.len(),
        forall|j: int|
            0 <= j < final(buildings)@.len() ==> opt_text(#[trigger] final(buildings)@[j].upgrades_to) == upgrade_of(
                old(buildings)@,
                old(buildings)@[j].id@,
            ),
        forall|j: int|
            0 <= j < final(buildings)@.len() ==> {
                let a = #[trigger] final(buildings)@[j];
                let b = old(buildings)@[j];
                &&& a.id == b.id
                &&& a.name == b.name
                &&& a.cost == b.cost
                &&& a.hp == b.hp
                &&& a.tile_w == b.tile_w
                &&& a.tile_h == b.tile_h
                &&& a.requires_deposit == b.requires_deposit
                &&& a.can_deconstruct == b.can_deconstruct
                &&& a.inventory_capacity == b.inventory_capacity
                &&& a.hidden == b.hidden
                &&& a.drag_placement == b.drag_placement
                &&& a.is_belt == b.is_belt
                &&& a.default_recipe == b.default_recipe
                &&& a.default_filter == b.default_filter
                &&& a.crop_types == b.crop_types
                &&& a.recipe_categories == b.recipe_categories
                &&& a.requires_discovery == b.requires_discovery
                &&& a.level == b.level
                &&& a.upgrades_from == b.upgrades_from
                &&& a.belt_variant == b.belt_variant
                &&& a.tiers == b.tiers
            },
{
    let ghost start = buildings@;
    let n = buildings.len();
    let mut targets: Vec<Option<String>> = Vec::new();
    let mut j: usize = 0;
    while j < n
        invariant
            j <= n,
            n == buildings@.len(),
            buildings@ == start,
            targets@.len() == j,
            forall|q: int| 0 <= q < j ==> opt_text(#[trigger] targets@[q]) == upgrade_of(start, start[q].id@),
        decreases n - j,
    {
        let t = match last_upgrader(buildings, buildings[j].id.as_str()) {
            Some(k) => Some(owned(buildings[k].id.as_str())),
            None => None,
        };
        targets.push(t);
        j = j + 1;
    }
    let mut i: usize = 0;
    while i < n
        invariant
            i <= n,
            n == buildings@.len(),
            n == start.len(),
            targets@.len() == n,
            forall|q: int| 0 <= q < n ==> opt_text(#[trigger] targets@[q]) == upgrade_of(start, start[q].id@),
            forall|q: int| 0 <= q < i ==> opt_text(#[trigger] buildings@[q].upgrades_to) == upgrade_of(start, start[q].id@),
            forall|q: int|
                0 <= q < n ==> {
                    let a = #[trigger] buildings@[q];
                    let b = start[q];
                    &&& a.id == b.id
                    &&& a.name == b.name
                    &&& a.cost == b.cost
                    &&& a.hp == b.hp
                    &&& a.tile_w == b.tile_w
                    &&& a.tile_h == b.tile_h
                    &&& a.requires_deposit == b.requires_deposit
                    &&& a.can_deconstruct == b.can_deconstruct
                    &&& a.inventory_capacity == b.inventory_capacity
                    &&& a.hidden == b.hidden
                    &&& a.drag_placement == b.drag_placement
                    &&& a.is_belt == b.is_belt
                    &&& a.default_recipe == b.default_recipe
                    &&& a.default_filter == b.default_filter
                    &&& a.crop_types == b.crop_types
                    &&& a.recipe_categories == b.recipe_categories
                    &&& a.requires_discovery == b.requires_discovery
                    &&& a.level == b.level
                    &&& a.upgrades_from == b.upgrades_from
                    &&& a.belt_variant == b.belt_variant
                    &&& a.tiers == b.tiers
                    &&& q >= i ==> a.upgrades_to == b.upgrades_to
                },
        decreases n - i,
    {
        let t = match &targets[i] {
            Some(s) => Some(owned(s.as_str())),
            None => None,
        };
        let ghost before = buildings@;
        let mut b = buildings.remove(i);
        b.upgrades_to = t;
        buildings.insert(i, b);
        assert(buildings@ =~= before.update(i as int, b));
        i = i + 1;
    }
}

/// Why a building could not be upgraded.
#[derive(Debug, Clone, Copy, PartialEq, Eq, Structural)]
pub enum UpgradeRefusal {
    UnknownTarget,
    CannotAfford,
}

impl UpgradeRefusal {
    /// The notice shown to the player.
    pub fn message(&self) -> (r: &'static str)
        ensures
            r@ == (match self {
                UpgradeRefusal::UnknownTarget => "Upgrade target not found"@,
                UpgradeRefusal::CannotAfford => "Not enough resources to upgrade"@,
            }),
    {
        match self {
            UpgradeRefusal::UnknownTarget => "Upgrade target not found",
            UpgradeRefusal::CannotAfford => "Not enough resources to upgrade",
        }
    }
}

/// Pays for an upgrade to `target_kind` from the player's inventory: an
/// unknown target is refused, and so is one the inventory cannot pay for;
/// otherwise its cost is taken and its definition returned.
pub fn try_upgrade<'a>(registry: &'a BuildingRegistry, target_kind: &str, inv: &mut Inventory) -> (r: Result<
    &'a BuildingDef,
    UpgradeRefusal,
>)
    requires
        building_pos(registry.buildings@, target_kind@) >= 0 ==> amounts_fit(
            old(inv)@,
            cost_view(registry.buildings@[building_pos(registry.buildings@, target_kind@)].cost@),
        ),
    ensures
        final(inv).spec_capacity() == old(inv).spec_capacity(),
        building_pos(registry.buildings@, target_kind@) < 0 ==> r == Err::<&BuildingDef, UpgradeRefusal>(
            UpgradeRefusal::UnknownTarget,
        ) && final(inv)@ == old(inv)@,
        building_pos(registry.buildings@, target_kind@) >= 0 ==> {
            let t = registry.buildings@[building_pos(registry.buildings@, target_kind@)];
            if spec_inputs_available(old(inv)@, cost_view(t.cost@)) {
                r == Ok::<&BuildingDef, UpgradeRefusal>(&t) && final(inv)@ == remove_all(old(inv)@, cost_view(t.cost@))
            } else {
                r == Err::<&BuildingDef, UpgradeRefusal>(UpgradeRefusal::CannotAfford) && final(inv)@ == old(inv)@
            }
        },
{
    match registry.get(target_kind) {
        None => Err(UpgradeRefusal::UnknownTarget),
        Some(def) => {
            if try_pay(inv, &def.cost) {
                Ok(def)
            } else {
                Err(UpgradeRefusal::CannotAfford)
            }
        },
    }
}

/// The notice after an upgrade.
pub fn upgraded_text(old_name: &str, new_name: &str) -> (r: String)
    ensures
        r@ == "Upgraded "@ + old_name@ + " to "@ + new_name@,
{
    let mut s = owned("Upgraded ");
    push_str(&mut s, old_name);
    push_str(&mut s, " to ");
    push_str(&mut s, new_name);
    s
}

/// A building as its data file describes it, before defaults are applied.
/// Its colour, power figures, combat stats and timings are real-valued and read
/// by the game.
pub struct BuildingEntry {
    pub name: String,
    pub cost: Vec<(String, u32)>,
    pub hp: u32,
    pub tile_w: u32,
    pub tile_h: u32,
    pub requires_deposit: bool,
    pub can_deconstruct: Option<bool>,
    pub inventory_capacity: Option<u32>,
    pub hidden: bool,
    pub drag_placement: bool,
    /// Whether the entry has a `[belt]` table, or gives `slots` or `speed`.
    pub belt_given: bool,
    pub default_recipe: Option<String>,
    pub default_filter: Option<String>,
    pub crop_types: Vec<String>,
    pub recipe_categories: Vec<String>,
    pub requires_discovery: Option<String>,
    pub level: u32,
    pub upgrades_from: Option<String>,
    pub belt_variant: Option<String>,
}

/// The `[defaults]` a building entry falls back on.
pub struct BuildingDefaults {
    pub can_deconstruct: bool,
    pub inventory_capacity: u32,
}

/// The cost of an entry: each `(resource, amount)` with the resource's
/// identifier in lowercase.
pub open spec fn entry_cost(cost: Seq<(String, u32)>) -> Seq<(Seq<char>, u32)> {
    cost.map_values(|c: (String, u32)| (lowercase_of(c.0@), c.1))
}

/// The definition an entry gives under identifier `id`: the fields it sets,
/// the defaults for the ones it leaves out, a normal belt unless it names a
/// variant, and no upgrade target yet.
pub open spec fn entry_gives(id: Seq<char>, e: BuildingEntry, d: BuildingDefaults, b: BuildingDef) -> bool {
    &&& b.id@ == id
    &&& b.name == e.name
    &&& cost_view(b.cost@) == entry_cost(e.cost@)
    &&& b.hp == e.hp
    &&& b.tile_w == e.tile_w
    &&& b.tile_h == e.tile_h
    &&& b.requires_deposit == e.requires_deposit
    &&& b.can_deconstruct == (match e.can_deconstruct {
        Some(v) => v,
        None => d.can_deconstruct,
    })
    &&& b.inventory_capacity == (match e.inventory_capacity {
        Some(v) => v,
        None => d.inventory_capacity,
    })
    &&& b.hidden == e.hidden
    &&& b.drag_placement == e.drag_placement
    &&& b.is_belt == e.belt_given
    &&& b.default_recipe == e.default_recipe
    &&& b.default_filter == e.default_filter
    &&& b.crop_types == e.crop_types
    &&& b.recipe_categories == e.recipe_categories
    &&& b.requires_discovery == e.requires_discovery
    &&& b.level == e.level
    &&& b.upgrades_from == e.upgrades_from
    &&& b.upgrades_to is None
    &&& b.belt_variant == (match e.belt_variant {
        Some(v) => spec_belt_variant(v@),
        None => BeltVariant::Normal,
    })
    &&& b.tiers@.len() == 0
}

/// Builds the definition of building `id` from its entry and the defaults.
pub fn building_from_entry(id: &str, entry: BuildingEntry, defaults: &BuildingDefaults) -> (r: BuildingDef)
    ensures
        entry_gives(id@, entry, *defaults, r),
{
    let ghost e = entry;
    let mut cost: Vec<Cost> = Vec::new();
    let mut i: usize = 0;
    while i < entry.cost.len()
        invariant
            i <= entry.cost@.len(),
            e == entry,
            cost_view(cost@) == entry_cost(entry.cost@.take(i as int)),
        decreases entry.cost@.len() - i,
    {
        let c = Cost { resource: ResourceId::new(entry.cost[i].0.as_str()), amount: entry.cost[i].1 };
        let ghost before = cost_view(cost@);
        cost.push(c);
        assert(cost_view(cost@) =~= before.push((lowercase_of(entry.cost@[i as int].0@), entry.cost@[i as int].1)));
        assert(entry_cost(entry.cost@.take(i + 1)) =~= entry_cost(entry.cost@.take(i as int)).push(
            (lowercase_of(entry.cost@[i as int].0@), entry.cost@[i as int].1),
        ));
        i = i + 1;
    }
    assert(entry.cost@.take(entry.cost@.len() as int) =~= entry.cost@);
    let can_deconstruct = match entry.can_deconstruct {
        Some(v) => v,
        None => defaults.can_deconstruct,
    };
    let inventory_capacity = match entry.inventory_capacity {
        Some(v) => v,
        None => defaults.inventory_capacity,
    };
    let belt_variant = match &entry.belt_variant {
        Some(v) => parse_belt_variant(v.as_str()),
        None => BeltVariant::Normal,
    };
    BuildingDef {
        id: owned(id),
        name: entry.name,
        cost,
        hp: entry.hp,
        tile_w: entry.tile_w,
        tile_h: entry.tile_h,
        requires_deposit: entry.requires_deposit,
        can_deconstruct,
        inventory_capacity,
        hidden: entry.hidden,
        drag_placement: entry.drag_placement,
        is_belt: entry.belt_given,
        default_recipe: entry.default_recipe,
        default_filter: entry.default_filter,
        crop_types: entry.crop_types,
        recipe_categories: entry.recipe_categories,
        requires_discovery: entry.requires_discovery,
        level: entry.level,
        upgrades_from: entry.upgrades_from,
        upgrades_to: None,
        belt_variant,
        tiers: Vec::new(),
    }
}

/// The upgrade links agree both ways: a building has an upgrade exactly when
/// some building names it as the one it upgrades from, and the building it
/// upgrades to is one that does (the last loaded, none after it naming it).
pub proof fn law_upgrade_links_agree(buildings: Seq<BuildingDef>, j: int)
    requires
        0 <= j < buildings.len(),
    ensures
        upgrade_of(buildings, buildings[j].id@) is Some <==> exists|k: int|
            0 <= k < buildings.len() && upgrades_from_id(buildings[j].id@)(#[trigger] buildings[k]),
        upgrade_of(buildings, buildings[j].id@) matches Some(x) ==> exists|k: int|
            0 <= k < buildings.len() && buildings[k].id@ == x && upgrades_from_id(buildings[j].id@)(
                #[trigger] buildings[k],
            ),
{
    let p = upgrades_from_id(buildings[j].id@);
    lemma_last_index(buildings, p);
    let k = last_index(buildings, p);
    if k >= 0 {
        assert(p(buildings[k]));
    }
}

} // verus!
