use vstd::prelude::*;

use crate::inventory::{occupied_of, Inventory};
use crate::resource::ResourceId;
use crate::catalog::ResourceRegistry;
use crate::recipe_selector::shown_name;
use crate::text::{owned, push_str, str_equal};

verus! {

/// The views of a list of strings.
pub open spec fn strings_view(v: Seq<String>) -> Seq<Seq<char>> {
    v.map_values(|s: String| s@)
}

/// Whether `id` occurs in the list.
pub fn contains_str(v: &Vec<String>, id: &str) -> (r: bool)
    ensures
        r == strings_view(v@).contains(id@),
{
    let mut i: usize = 0;
    while i < v.len()
        invariant
            i <= v@.len(),
            forall|k: int| 0 <= k < i ==> v@[k]@ != id@,
        decreases v@.len() - i,
    {
        if str_equal(v[i].as_str(), id) {
            assert(strings_view(v@)[i as int] == id@);
            return true;
        }
        i = i + 1;
    }
    assert(!strings_view(v@).contains(id@)) by {
        if strings_view(v@).contains(id@) {
            let k = choose|k: int| 0 <= k < v@.len() && strings_view(v@)[k] == id@;
            assert(v@[k]@ == id@);
        }
    }
    false
}

/// What a building must produce to discover something, and what it discovers.
#[derive(Debug, Clone)]
pub struct DiscoveryDef {
    pub building: String,
    pub threshold: u32,
    pub reward_type: String,
    pub reward_id: String,
    pub message: String,
}

/// The recipes unlocked for the whole game.
#[derive(Debug, Clone)]
pub struct GlobalArchive {
    pub unlocked_recipes: Vec<String>,
}

impl View for GlobalArchive {
    type V = Set<Seq<char>>;

    open spec fn view(&self) -> Set<Seq<char>> {
        strings_view(self.unlocked_recipes@).to_set()
    }
}

impl GlobalArchive {
    /// An archive holding the starter recipes.
    pub fn new(starter_recipes: &Vec<String>) -> (r: GlobalArchive)
        ensures
            r@ == strings_view(starter_recipes@).to_set(),
    {
        let mut v: Vec<String> = Vec::new();
        let mut i: usize = 0;
        while i < starter_recipes.len()
            invariant
                i <= starter_recipes@.len(),
                strings_view(v@) == strings_view(starter_recipes@.take(i as int)),
            decreases starter_recipes@.len() - i,
        {
            let ghost before = strings_view(v@);
            v.push(owned(starter_recipes[i].as_str()));
            assert(strings_view(v@) =~= before.push(starter_recipes@[i as int]@));
            assert(strings_view(starter_recipes@.take(i + 1)) =~= strings_view(
                starter_recipes@.take(i as int),
            ).push(starter_recipes@[i as int]@));
            i = i + 1;
        }
        assert(starter_recipes@.take(i as int) =~= starter_recipes@);
        GlobalArchive { unlocked_recipes: v }
    }

    pub fn is_unlocked(&self, recipe_id: &str) -> (r: bool)
        ensures
            r == self@.contains(recipe_id@),
    {
        contains_str(&self.unlocked_recipes, recipe_id)
    }

    /// Adds a recipe to the unlocked ones.
    pub fn unlock(&mut self, recipe_id: &str)
        ensures
            final(self)@ == old(self)@.insert(recipe_id@),
    {
        if !self.is_unlocked(recipe_id) {
            let ghost before = strings_view(self.unlocked_recipes@);
            self.unlocked_recipes.push(owned(recipe_id));
            assert(strings_view(self.unlocked_recipes@) =~= before.push(recipe_id@));
            proof {
                before.lemma_push_to_set_commute(recipe_id@);
            }
            assert(self@ =~= old(self)@.insert(recipe_id@));
        } else {
            assert(self@ =~= old(self)@.insert(recipe_id@));
        }
    }
}

/// Whether a discovery fires for a building of kind `kind` that has produced
/// `counter` items, given what it has already discovered.
pub open spec fn discovery_fires(
    d: DiscoveryDef,
    kind: Seq<char>,
    counter: u32,
    discovered: Seq<Seq<char>>,
    unlocked: Set<Seq<char>>,
) -> bool {
    &&& d.building@ == kind
    &&& counter >= d.threshold
    &&& !discovered.contains(d.reward_id@)
    &&& !unlocked.contains(d.reward_id@)
}

/// The discoveries made, in order, and the building's discovered list afterwards.
pub open spec fn spec_discoveries(
    defs: Seq<DiscoveryDef>,
    kind: Seq<char>,
    counter: u32,
    discovered: Seq<Seq<char>>,
    unlocked: Set<Seq<char>>,
) -> (Seq<Seq<char>>, Seq<int>)
    decreases defs.len(),
{
    if defs.len() == 0 {
        (discovered, Seq::empty())
    } else {
        let (d, fired) = spec_discoveries(defs.drop_last(), kind, counter, discovered, unlocked);
        if discovery_fires(defs.last(), kind, counter, d, unlocked) {
            (d.push(defs.last().reward_id@), fired.push(defs.len() - 1))
        } else {
            (d, fired)
        }
    }
}

/// Checks the discoveries of one building: each definition for its kind whose
/// threshold is reached and whose reward is neither discovered by the building
/// nor unlocked is added to `discovered`. Returns the indices of the
/// definitions that fired, in order (one discovery event each).
pub fn check_discoveries(
    defs: &Vec<DiscoveryDef>,
    kind: &str,
    counter: u32,
    discovered: &mut Vec<String>,
    archive: &GlobalArchive,
) -> (fired: Vec<usize>)
    ensures
        strings_view(final(discovered)@) == spec_discoveries(
            defs@,
            kind@,
            counter,
            strings_view(old(discovered)@),
            archive@,
        ).0,
        fired@.map_values(|i: usize| i as int) == spec_discoveries(
            defs@,
            kind@,
            counter,
            strings_view(old(discovered)@),
            archive@,
        ).1,
{
    let ghost d0 = strings_view(discovered@);
    let mut fired: Vec<usize> = Vec::new();
    let mut i: usize = 0;
    while i < defs.len()
        invariant
            i <= defs@.len(),
            (strings_view(discovered@), fired@.map_values(|i: usize| i as int)) == spec_discoveries(
                defs@.take(i as int),
                kind@,
                counter,
                d0,
                archive@,
            ),
        decreases defs@.len() - i,
    {
        let def = &defs[i];
        assert(defs@.take(i + 1).drop_last() =~= defs@.take(i as int));
        assert(defs@.take(i + 1).last() == defs@[i as int]);
        if str_equal(def.building.as_str(), kind) && counter >= def.threshold && !contains_str(
            discovered,
            def.reward_id.as_str(),
        ) && !archive.is_unlocked(def.reward_id.as_str()) {
            let ghost before = strings_view(discovered@);
            let ghost fbefore = fired@.map_values(|i: usize| i as int);
            discovered.push(def.reward_id.clone());
            fired.push(i);
            assert(strings_view(discovered@) =~= before.push(def.reward_id@));
            assert(fired@.map_values(|i: usize| i as int) =~= fbefore.push(i as int));
        }
        i = i + 1;
    }
    assert(defs@.take(defs@.len() as int) =~= defs@);
    fired
}

/// Whether a resource delivered to the archive unlocks its recipe: it is not
/// unlocked yet and some building has discovered it.
pub open spec fn unlocks(r: Seq<char>, unlocked: Set<Seq<char>>, pending: Seq<Seq<Seq<char>>>) -> bool {
    !unlocked.contains(r) && exists|k: int| 0 <= k < pending.len() && pending[k].contains(r)
}

/// The resources of an archive's inventory that unlock their recipe, in slot order.
pub open spec fn spec_archive_unlocks(
    held: Seq<(Seq<char>, u32)>,
    unlocked: Set<Seq<char>>,
    pending: Seq<Seq<Seq<char>>>,
) -> Seq<Seq<char>>
    decreases held.len(),
{
    if held.len() == 0 {
        Seq::empty()
    } else {
        let rest = spec_archive_unlocks(held.drop_last(), unlocked, pending);
        if unlocks(held.last().0, unlocked, pending) {
            rest.push(held.last().0)
        } else {
            rest
        }
    }
}

pub open spec fn pending_view(v: Seq<Vec<String>>) -> Seq<Seq<Seq<char>>> {
    v.map_values(|d: Vec<String>| strings_view(d@))
}

fn is_pending(discovered: &Vec<Vec<String>>, id: &str) -> (r: bool)
    ensures
        r == exists|k: int|
            0 <= k < discovered@.len() && #[trigger] pending_view(discovered@)[k].contains(id@),
{
    let mut k: usize = 0;
    while k < discovered.len()
        invariant
            k <= discovered@.len(),
            forall|j: int| 0 <= j < k ==> !(#[trigger] pending_view(discovered@)[j]).contains(id@),
        decreases discovered@.len() - k,
    {
        if contains_str(&discovered[k], id) {
            assert(pending_view(discovered@)[k as int].contains(id@));
            return true;
        }
        k = k + 1;
    }
    false
}

/// What an archive's inventory unlocks: each held resource whose recipe is not
/// unlocked yet but has been discovered by some building (`discovered` holds
/// every building's discovered list).
pub fn archive_unlocks(inventory: &Inventory, archive: &GlobalArchive, discovered: &Vec<
    Vec<String>,
>) -> (r: Vec<ResourceId>)
    ensures
        r@.map_values(|x: ResourceId| x@) == spec_archive_unlocks(
            occupied_of(inventory@),
            archive@,
            pending_view(discovered@),
        ),
{
    let held = inventory.iter_occupied();
    let ghost hv = held@.map_values(|p: (ResourceId, u32)| (p.0@, p.1));
    let mut out: Vec<ResourceId> = Vec::new();
    let mut i: usize = 0;
    while i < held.len()
        invariant
            i <= held@.len(),
            hv == held@.map_values(|p: (ResourceId, u32)| (p.0@, p.1)),
            out@.map_values(|x: ResourceId| x@) == spec_archive_unlocks(
                hv.take(i as int),
                archive@,
                pending_view(discovered@),
            ),
        decreases held@.len() - i,
    {
        let rid = &held[i].0;
        assert(hv.take(i + 1).drop_last() =~= hv.take(i as int));
        assert(hv.take(i + 1).last().0 == rid@);
        if !archive.is_unlocked(rid.0.as_str()) && is_pending(discovered, rid.0.as_str()) {
            let ghost before = out@.map_values(|x: ResourceId| x@);
            out.push(rid.duplicate());
            assert(out@.map_values(|x: ResourceId| x@) =~= before.push(rid@));
        }
        i = i + 1;
    }
    assert(hv.take(held@.len() as int) =~= hv);
    out
}

/// Unlocking a recipe twice is the same as unlocking it once.
pub proof fn law_unlock_idempotent(unlocked: Set<Seq<char>>, r: Seq<char>)
    ensures
        unlocked.insert(r).insert(r) == unlocked.insert(r),
        unlocked.insert(r).contains(r),
{
    assert(unlocked.insert(r).insert(r) =~= unlocked.insert(r));
}

/// A discovery never fires for a reward the archive has unlocked, nor twice
/// for the same building.
pub proof fn law_discovery_fires_once(
    defs: Seq<DiscoveryDef>,
    kind: Seq<char>,
    counter: u32,
    discovered: Seq<Seq<char>>,
    unlocked: Set<Seq<char>>,
    k: int,
)
    requires
        0 <= k < spec_discoveries(defs, kind, counter, discovered, unlocked).1.len(),
    ensures
        ({
            let i = spec_discoveries(defs, kind, counter, discovered, unlocked).1[k];
            &&& 0 <= i < defs.len()
            &&& !unlocked.contains(defs[i].reward_id@)
            &&& !discovered.contains(defs[i].reward_id@)
        }),
    decreases defs.len(),
{
    let (d, fired) = spec_discoveries(defs.drop_last(), kind, counter, discovered, unlocked);
    if k < fired.len() {
        law_discovery_fires_once(defs.drop_last(), kind, counter, discovered, unlocked, k);
    } else {
        lemma_discovered_grows(defs.drop_last(), kind, counter, discovered, unlocked);
    }
}

proof fn lemma_discovered_grows(
    defs: Seq<DiscoveryDef>,
    kind: Seq<char>,
    counter: u32,
    discovered: Seq<Seq<char>>,
    unlocked: Set<Seq<char>>,
)
    ensures
        forall|x: Seq<char>| discovered.contains(x) ==> #[trigger] spec_discoveries(defs, kind, counter, discovered, unlocked).0.contains(x),
    decreases defs.len(),
{
    if defs.len() > 0 {
        lemma_discovered_grows(defs.drop_last(), kind, counter, discovered, unlocked);
        let (d, fired) = spec_discoveries(defs.drop_last(), kind, counter, discovered, unlocked);
        assert forall|x: Seq<char>| d.contains(x) implies #[trigger] d.push(defs.last().reward_id@).contains(x) by {
            let j = choose|j: int| 0 <= j < d.len() && d[j] == x;
            assert(d.push(defs.last().reward_id@)[j] == x);
        }
    }
}

/// The two notices of a discovery: which building discovered what (the
/// building's name, or `Building` when it is gone; the item's registered
/// name, or its identifier), then what to do with it.
pub fn discovery_notices(building_name: Option<&str>, resources: &ResourceRegistry, discovery_id: &str) -> (r: (
    String,
    &'static str,
))
    ensures
        r.0@ == (match building_name {
            Some(n) => n@,
            None => "Building"@,
        }) + ": "@ + shown_name(resources.resources@, discovery_id@) + " discovered!"@,
        r.1@ == "Craft it and bring it to the Archive!"@,
{
    let mut s = match building_name {
        Some(n) => owned(n),
        None => owned("Building"),
    };
    push_str(&mut s, ": ");
    match resources.get_opt(discovery_id) {
        Some(d) => push_str(&mut s, d.name.as_str()),
        None => push_str(&mut s, discovery_id),
    }
    push_str(&mut s, " discovered!");
    (s, "Craft it and bring it to the Archive!")
}

} // verus!
